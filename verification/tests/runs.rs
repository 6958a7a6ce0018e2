use jc::prompt_store::PromptStore;
use jc::selection::{request_for, select_prompts, split_selection, MARKER};
use jc::workflow::{
    describe_operation, instruction_prompts, Action, Event, MessageRun, Stage, Task,
};

fn store() -> PromptStore {
    PromptStore::new(None, None, None)
}

fn run<'a>(task: Task<'a>, force: bool, dry_run: bool, store: &'a PromptStore) -> MessageRun<'a> {
    MessageRun { task, force, dry_run, infer: false, store }
}

/// A step in words.
fn told(step: (Stage, Action)) -> String {
    match step {
        (Stage::Loading, Action::Load) => "load".to_string(),
        (Stage::Snapshotting, Action::Snapshot) => "snapshot".to_string(),
        (Stage::Snapshotting, Action::Preview) => "preview".to_string(),
        (Stage::Diffing, Action::Diff) => "diff".to_string(),
        (Stage::Asking, Action::Ask(diff, collapsed)) => format!("ask {diff} {collapsed:?}"),
        (Stage::Finished, Action::Apply(text)) => format!("apply {text}"),
        (Stage::Finished, Action::Print(text)) => format!("print {text}"),
        (Stage::Finished, Action::Fail(text)) => format!("fail {text}"),
        (Stage::Finished, Action::Skip) => "skip".to_string(),
        _ => panic!("a step that leads nowhere"),
    }
}

#[test]
fn commit_loads_snapshots_and_diffs() {
    let store = store();
    let run = run(Task::Commit, false, false, &store);
    assert_eq!(told(run.start()), "load");
    assert_eq!(told(run.step(Stage::Loading, Event::Loaded("0123456789", ""))), "snapshot");
    assert_eq!(told(run.step(Stage::Snapshotting, Event::Snapshotted)), "diff");
}

#[test]
fn describe_snapshots_the_working_copy_only() {
    let store = store();
    let working_copy = run(Task::Describe("@"), false, false, &store);
    assert_eq!(told(working_copy.start()), "snapshot");
    assert_eq!(told(working_copy.step(Stage::Snapshotting, Event::Snapshotted)), "load");
    let parent = run(Task::Describe("@-"), false, false, &store);
    assert_eq!(told(parent.start()), "load");
    assert_eq!(told(parent.step(Stage::Loading, Event::Loaded("0123456789", " \n"))), "diff");
}

#[test]
fn descriptions_are_kept_unless_forced() {
    let store = store();
    let loaded = |task: Task<'_>, force: bool, description: &str| {
        told(run(task, force, false, &store)
            .step(Stage::Loading, Event::Loaded("0123456789", description)))
    };
    assert_eq!(loaded(Task::Commit, false, "x"), "skip");
    assert_eq!(loaded(Task::Commit, false, " "), "skip");
    assert_eq!(loaded(Task::Commit, true, "x"), "snapshot");
    assert_eq!(
        loaded(Task::Describe("@-"), false, "x"),
        "fail Revision 01234567 already has a description; refusing to overwrite. Use --force to overwrite, or `jj describe` to edit it manually."
    );
    assert_eq!(loaded(Task::Describe("@-"), true, "x"), "diff");
}

#[test]
fn nothing_is_done_without_changes() {
    let store = store();
    let diffed = |task: Task<'_>, diff: Result<Option<(String, Vec<String>)>, String>| {
        told(run(task, false, false, &store)
            .step(Stage::Diffing, Event::Diffed("0123456789", diff)))
    };
    assert_eq!(
        diffed(Task::Commit, Ok(None)),
        "print No changes detected, nothing to commit"
    );
    assert_eq!(
        diffed(Task::Describe("@"), Ok(None)),
        "print No changes in revision 01234567, nothing to describe"
    );
    assert_eq!(diffed(Task::Commit, Err("e".to_string())), "fail e");
    assert_eq!(
        diffed(Task::Commit, Ok(Some(("d".to_string(), vec!["p".to_string()])))),
        "ask d [\"p\"]"
    );
}

#[test]
fn dry_run_changes_nothing() {
    let store = store();
    let replied = |dry_run: bool, message: Option<&str>| {
        let message = message.map(|m| m.to_string());
        told(run(Task::Commit, false, dry_run, &store)
            .step(Stage::Asking, Event::Replied(message, vec!["p".to_string()])))
    };
    assert_eq!(replied(true, Some("fix: a")), "print fix: a\n\nAI Instructions:\n> p\n");
    assert_eq!(replied(false, Some("fix: a")), "apply fix: a\n\nAI Instructions:\n> p\n");
    assert_eq!(replied(false, None), "fail Failed to generate commit message");
}

#[test]
fn dry_run_takes_no_snapshot() {
    let store = store();
    let commit = run(Task::Commit, false, true, &store);
    assert_eq!(told(commit.start()), "load");
    assert_eq!(told(commit.step(Stage::Loading, Event::Loaded("0123456789", ""))), "preview");
    assert_eq!(told(commit.step(Stage::Snapshotting, Event::Snapshotted)), "diff");
    let describe = run(Task::Describe("@"), false, true, &store);
    assert_eq!(told(describe.start()), "preview");
    assert_eq!(told(describe.step(Stage::Snapshotting, Event::Snapshotted)), "load");
}

#[test]
fn relevant_prompts_are_quoted() {
    let store = store();
    let replied = |infer: bool, reply: &str| {
        let run =
            MessageRun { task: Task::Commit, force: false, dry_run: true, infer, store: &store };
        let prompts = ["a", "b", "c"].map(|p| p.to_string()).to_vec();
        told(run.step(Stage::Asking, Event::Replied(Some(reply.to_string()), prompts)))
    };
    let reply = "fix: x\n\nbody\n\nRelevant instructions: 3, 1";
    assert_eq!(
        replied(true, reply),
        "print fix: x\n\nbody\n\nAI Instructions:\n> a\n\n> c\n"
    );
    assert_eq!(replied(true, "fix: x\nRelevant instructions: none"), "print fix: x");
    let all = "AI Instructions:\n> a\n\n> b\n\n> c\n";
    // What cannot be read selects nothing, and so everything is quoted.
    for list in ["4", "0", "", "1, x", "01"] {
        assert_eq!(
            replied(true, &format!("fix: x\nRelevant instructions: {list}")),
            format!("print fix: x\n\n{all}")
        );
    }
    assert_eq!(replied(true, "fix: x"), format!("print fix: x\n\n{all}"));
    assert_eq!(replied(false, reply), format!("print {reply}\n\n{all}"));
}

#[test]
fn prompts_are_handed_to_the_model() {
    let prompts = vec!["a".to_string()];
    assert_eq!(instruction_prompts(true, &prompts), ["a"]);
    assert!(instruction_prompts(false, &prompts).is_empty());
    assert_eq!(request_for(&[]), "");
    let request = request_for(&["a".to_string(), "b".to_string()]);
    assert!(request.contains("\n\n1. a\n2. b\n\n"));
    assert!(request.contains(MARKER));
    assert_eq!(
        select_prompts(vec!["a".to_string(), "b".to_string()], Some(vec![1, 1])),
        ["b"]
    );
    assert_eq!(split_selection("x", 3), ("x".to_string(), None));
}

#[test]
fn unexpected_events_end_the_run() {
    let store = store();
    let run = run(Task::Commit, true, false, &store);
    let reply = Event::Replied(Some("fix: a".to_string()), Vec::new());
    assert_eq!(told(run.step(Stage::Diffing, reply)), "skip");
    assert_eq!(describe_operation("0123456789"), "describe revision 01234567 via jc");
}
