use chrono_h::error::Error;
use chrono_h::hooks::{CleanStateHook, HookAction, HookChain, HookResult, HookStep, SessionEndContext};
use std::path::PathBuf;

struct TestHook {
    name: String,
    should_block: bool,
}

/// Runs a chain of test hooks the way an execution does: each hook either
/// blocks or hands on to the rest of the chain.
fn execute(chain: &HookChain<TestHook>) -> HookResult {
    let mut step = chain.run_hook(0);
    loop {
        match step {
            HookStep::Finish(result) => return result,
            HookStep::Call { hook, next } => {
                if hook.should_block {
                    return HookResult::Block { reason: format!("Blocked by {}", hook.name) };
                }
                step = next.step();
            }
        }
    }
}

#[test]
fn test_hook_chain_continues() {
    let hooks = vec![
        TestHook { name: "first".to_string(), should_block: false },
        TestHook { name: "second".to_string(), should_block: false },
    ];
    let chain = HookChain::new(hooks);
    let result = execute(&chain);
    assert!(matches!(result, HookResult::Continue));
}

#[test]
fn test_hook_chain_blocks() {
    let hooks = vec![
        TestHook { name: "first".to_string(), should_block: true },
        TestHook { name: "second".to_string(), should_block: false },
    ];
    let chain = HookChain::new(hooks);
    let result = execute(&chain);
    assert!(matches!(result, HookResult::Block { .. }));
}

#[test]
fn later_hook_blocks_after_earlier_ones_pass() {
    let hooks = vec![
        TestHook { name: "first".to_string(), should_block: false },
        TestHook { name: "second".to_string(), should_block: true },
    ];
    let result = execute(&HookChain::new(hooks));
    assert_eq!(result, HookResult::Block { reason: "Blocked by second".to_string() });
}

#[test]
fn empty_chain_continues() {
    let chain: HookChain<TestHook> = HookChain::new(vec![]);
    assert_eq!(chain.len(), 0);
    assert!(matches!(chain.run_hook(0), HookStep::Finish(HookResult::Continue)));
}

#[test]
fn chain_steps_through_hooks_in_order() {
    let chain = HookChain::new(vec![10, 20, 30]);
    let mut seen = Vec::new();
    let mut step = chain.start().step();
    while let HookStep::Call { hook, next } = step {
        seen.push(*hook);
        step = next.step();
    }
    assert_eq!(seen, vec![10, 20, 30]);
}

#[test]
fn clean_state_checks_all_pass() {
    let hook = CleanStateHook::new();
    let ctx = SessionEndContext { turn_count: 50, project_path: PathBuf::from("/tmp/test") };
    let checks = hook.run_checks(&ctx);
    let names: Vec<&str> = checks.iter().map(|c| c.0.as_str()).collect();
    assert_eq!(names, vec!["tests", "git_clean", "progress_update", "handoff_doc"]);
    assert!(hook.evaluate(&ctx).is_none());
}

#[test]
fn clean_state_blocks_on_first_failing_check() {
    let checks = vec![
        ("tests".to_string(), Ok(true)),
        ("git_clean".to_string(), Ok(false)),
        ("handoff_doc".to_string(), Err(Error::Validation("late".to_string()))),
    ];
    assert_eq!(
        CleanStateHook::verdict(&checks),
        Some(HookResult::Block { reason: "Clean State check failed: git_clean".to_string() })
    );
}

#[test]
fn clean_state_blocks_on_check_error() {
    let checks = vec![("tests".to_string(), Err(Error::Validation("boom".to_string())))];
    assert_eq!(
        CleanStateHook::verdict(&checks),
        Some(HookResult::Block {
            reason: "Clean State check error in tests: Validation failed: boom".to_string()
        })
    );
}

#[test]
fn clean_state_hands_the_context_on() {
    let hook = CleanStateHook::new();
    let ctx = SessionEndContext { turn_count: 7, project_path: PathBuf::from("p") };
    match hook.decide(ctx) {
        HookAction::HandOn(c) => {
            assert_eq!(c.turn_count, 7);
            assert_eq!(c.project_path, PathBuf::from("p"));
        }
        HookAction::Answer(_) => panic!("expected the context to be handed on"),
    }
}

#[test]
fn clean_state_reason_for_outside_error() {
    let io = std::io::Error::new(std::io::ErrorKind::Other, "disk full");
    let checks = vec![("tests".to_string(), Err(Error::from(io)))];
    assert_eq!(
        CleanStateHook::verdict(&checks),
        Some(HookResult::Block {
            reason: "Clean State check error in tests: IO error: disk full".to_string()
        })
    );
}
