use vstd::prelude::*;

use crate::exp::Exp;

verus! {

/// The steps of the add-earned-role conversation with an administrator: the
/// first message names the role, the second gives its threshold.
pub enum EarnedRolePromptProgress {
    /// The prompt was just opened; the next message names the role.
    JustStarted,
    /// The role name was collected; the next message gives the threshold.
    CollectedName(String),
}

/// What the surrounding command layer should do after one prompt message.
pub enum PromptAction {
    /// Ask the administrator how much experience the role needs.
    AskExp,
    /// All input is collected: create the role and insert the tier.
    AddRole { name: String, exp_needed: Exp },
    /// The threshold message did not parse as a number; the prompt fails.
    ParseFailed,
}

impl EarnedRolePromptProgress {
    /// Advances the conversation by one message. `parsed_exp` is the
    /// message parsed as a number, which only the threshold step reads.
    ///
    /// The caller retires the prompt once `AddRole` or `ParseFailed` comes
    /// back.
    pub fn advance(&mut self, msg_content: String, parsed_exp: Option<u64>) -> (a: PromptAction)
        ensures
            *old(self) is JustStarted ==> *final(self) == EarnedRolePromptProgress::CollectedName(
                msg_content,
            ) && a is AskExp,
            forall|n: String|
                *old(self) == EarnedRolePromptProgress::CollectedName(n) ==> *final(self) == *old(
                    self,
                ) && (match parsed_exp {
                    Some(v) => a == (PromptAction::AddRole { name: n, exp_needed: Exp(v) }),
                    None => a is ParseFailed,
                }),
    {
        match self {
            EarnedRolePromptProgress::JustStarted => {
                *self = EarnedRolePromptProgress::CollectedName(msg_content);
                PromptAction::AskExp
            },
            EarnedRolePromptProgress::CollectedName(name) => {
                match parsed_exp {
                    Some(v) => PromptAction::AddRole { name: name.clone(), exp_needed: Exp(v) },
                    None => PromptAction::ParseFailed,
                }
            },
        }
    }
}

impl Default for EarnedRolePromptProgress {
    /// A fresh prompt starts by asking for the role's name.
    fn default() -> (r: Self)
        ensures
            r is JustStarted,
    {
        EarnedRolePromptProgress::JustStarted
    }
}

/// One administrator's pending add-earned-role prompt.
pub struct EarnedRolePromptReq {
    pub discord_id: i64,
    pub progress: EarnedRolePromptProgress,
}

impl EarnedRolePromptReq {
    /// Opens a prompt for the given administrator.
    pub fn new(discord_id: i64) -> (r: Self)
        ensures
            r.discord_id == discord_id,
            r.progress is JustStarted,
    {
        Self { discord_id, progress: EarnedRolePromptProgress::default() }
    }
}

/// The pending prompts, at most one per administrator.
pub struct ReqdPrompts {
    pub earned_role: Vec<EarnedRolePromptReq>,
}

impl ReqdPrompts {
    /// The position of the pending prompt of this administrator, if any:
    /// the first entry with a matching identifier.
    pub fn pending_index_for(&self, discord_id: i64) -> (r: Option<usize>)
        ensures
            match r {
                Some(i) => i < self.earned_role@.len()
                    && self.earned_role@[i as int].discord_id == discord_id && forall|j: int|
                    0 <= j < i ==> #[trigger] self.earned_role@[j].discord_id != discord_id,
                None => forall|j: int|
                    0 <= j < self.earned_role@.len()
                        ==> #[trigger] self.earned_role@[j].discord_id != discord_id,
            },
    {
        let mut i: usize = 0;
        while i < self.earned_role.len()
            invariant
                i <= self.earned_role@.len(),
                forall|j: int|
                    0 <= j < i ==> #[trigger] self.earned_role@[j].discord_id != discord_id,
            decreases self.earned_role@.len() - i,
        {
            if self.earned_role[i].discord_id == discord_id {
                return Some(i);
            }
            i = i + 1;
        }
        None
    }
}

impl Default for ReqdPrompts {
    /// No prompts are pending at start.
    fn default() -> (r: Self)
        ensures
            r.earned_role@.len() == 0,
    {
        ReqdPrompts { earned_role: Vec::new() }
    }
}

} // verus!
