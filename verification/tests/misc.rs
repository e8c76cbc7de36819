use roster_ranks::exp::Exp;
use roster_ranks::prompts::{
    EarnedRolePromptProgress, EarnedRolePromptReq, PromptAction, ReqdPrompts,
};
use roster_ranks::util::{owners, repeat_until_succeeds};

#[test]
fn owners_holds_the_configured_administrator() {
    let set = owners();
    assert_eq!(set.len(), 1);
    assert!(set.contains(&286962466037170176));
}

#[test]
fn retrying_returns_the_first_success() {
    let mut count = 0u32;
    let result = repeat_until_succeeds(
        move || {
            count += 1;
            if count < 3 {
                Err("not yet")
            } else {
                Ok(count)
            }
        },
        |e| assert_eq!(e, "not yet"),
        10,
    );
    assert_eq!(result, Some(3));
}

#[test]
fn retrying_gives_up_when_attempts_run_out() {
    let result: Option<u32> = repeat_until_succeeds(|| Err(()), |_e| {}, 4);
    assert_eq!(result, None);
}

#[test]
fn prompt_collects_name_then_threshold() {
    let req = EarnedRolePromptReq::new(9);
    assert_eq!(req.discord_id, 9);
    let mut progress = req.progress;
    assert!(matches!(progress, EarnedRolePromptProgress::JustStarted));

    let first = progress.advance("moderator".to_string(), None);
    assert!(matches!(first, PromptAction::AskExp));
    match &progress {
        EarnedRolePromptProgress::CollectedName(name) => assert_eq!(name, "moderator"),
        _ => panic!("the prompt should have collected the name"),
    }

    let second = progress.advance("150".to_string(), Some(150));
    match second {
        PromptAction::AddRole { name, exp_needed } => {
            assert_eq!(name, "moderator");
            assert_eq!(exp_needed, Exp(150));
        }
        _ => panic!("the prompt should be complete"),
    }
}

#[test]
fn prompt_rejects_an_unparsable_threshold() {
    let mut progress = EarnedRolePromptProgress::CollectedName("vip".to_string());
    let action = progress.advance("lots".to_string(), None);
    assert!(matches!(action, PromptAction::ParseFailed));
}

#[test]
fn pending_prompts_are_found_by_administrator() {
    let prompts = ReqdPrompts {
        earned_role: vec![EarnedRolePromptReq::new(4), EarnedRolePromptReq::new(6)],
    };
    assert_eq!(prompts.pending_index_for(6), Some(1));
    assert_eq!(prompts.pending_index_for(4), Some(0));
    assert_eq!(prompts.pending_index_for(5), None);
    assert_eq!(ReqdPrompts::default().pending_index_for(4), None);
}
