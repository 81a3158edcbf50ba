use droplet_core::error::DropletError;
use droplet_core::session::{
    lifecycle_step, next_step, work_dir_name, ReplState, RunEvent, Step, Suspension, WorkDirNamer,
};

#[test]
fn complete_finishes() {
    assert!(matches!(next_step(&Suspension::Complete, &["query"]), Step::Finish));
}

#[test]
fn call_dispatches_to_the_named_tool() {
    let s = Suspension::FunctionCall { name: "query".to_string() };
    assert!(matches!(next_step(&s, &["echo", "query", "query"]), Step::CallTool(1)));
}

#[test]
fn unknown_tool_is_answered_as_unknown() {
    let s = Suspension::FunctionCall { name: "not_a_real_tool".to_string() };
    match next_step(&s, &["query"]) {
        Step::UnknownTool(n) => assert_eq!(n, "not_a_real_tool"),
        other => panic!("expected UnknownTool, got {other:?}"),
    }
}

#[test]
fn other_suspensions_resume_with_defaults() {
    assert!(matches!(next_step(&Suspension::OsCall, &[]), Step::ResumeWithNone));
    assert!(matches!(next_step(&Suspension::NameLookup, &[]), Step::ResumeUndefined));
    match next_step(&Suspension::ResolveFutures { pending: vec![3, 1, 2] }, &[]) {
        Step::ResolveWithNone(ids) => assert_eq!(ids, vec![3, 1, 2]),
        other => panic!("expected ResolveWithNone, got {other:?}"),
    }
}

#[test]
fn work_dir_is_named_after_the_run() {
    assert_eq!(work_dir_name("run-123", 0), "droplet-run-123-0");
    assert_eq!(work_dir_name("run.1", 7), "droplet-run.1-7");
    assert_eq!(work_dir_name("", 12), "droplet--12");
}

#[test]
fn run_id_separators_are_flattened_into_one_component() {
    assert_eq!(work_dir_name("sub/deep/leaf", 0), "droplet-sub_deep_leaf-0");
    assert_eq!(work_dir_name("a\\b", 1), "droplet-a_b-1");
}

#[test]
fn run_id_dotdot_traversal_is_flattened() {
    let name = work_dir_name("../../../../../../tmp/droplet-evil-traversal-probe", 3);
    assert_eq!(name, "droplet-__________________tmp_droplet-evil-traversal-probe-3");
    assert!(!name.contains('/') && !name.contains(".."));
    assert_eq!(work_dir_name("a/../../x", 0), "droplet-a_______x-0");
    assert_eq!(work_dir_name("..%2f..%2fetc", 0), "droplet-__%2f__%2fetc-0");
}

#[test]
fn same_run_id_sessions_get_distinct_names() {
    let mut namer = WorkDirNamer::new();
    assert_eq!(namer.next_instance_number(), 0);
    let a = namer.name("collide-xyz");
    let b = namer.name("collide-xyz");
    assert_ne!(a, b);
    assert_eq!(a, "droplet-collide-xyz-0");
    assert_eq!(b, "droplet-collide-xyz-1");
    assert_eq!(namer.next_instance_number(), 2);
}

#[test]
fn idle_repl_is_fed_and_consumed_repl_is_refused() {
    assert!(matches!(lifecycle_step(ReplState::Idle, RunEvent::Begin), (Step::Feed, ReplState::Running)));
    match lifecycle_step(ReplState::Consumed, RunEvent::Begin) {
        (Step::Refuse(DropletError::NotFound(m)), ReplState::Consumed) => {
            assert_eq!(m, "session REPL consumed by an earlier host error; create a new Session")
        }
        other => panic!("expected a NotFound refusal, got {other:?}"),
    }
}

#[test]
fn raised_error_restores_and_tool_failure_consumes() {
    assert!(matches!(lifecycle_step(ReplState::Running, RunEvent::Completed), (Step::Finish, ReplState::Idle)));
    assert!(matches!(lifecycle_step(ReplState::Running, RunEvent::Raised), (Step::RestoreRepl, ReplState::Idle)));
    assert!(matches!(
        lifecycle_step(ReplState::Running, RunEvent::ToolFailed),
        (Step::ConsumeRepl, ReplState::Consumed)
    ));
}
