use jc::bookmark_run::{
    bookmark_operation, BookmarkAction, BookmarkEvent, BookmarkRun, BookmarkStage,
};
use jc::bookmarks::{
    find_default_base, find_existing_bookmark_in_range, get_commit_summaries,
    resolve_bookmark_target, resolve_single_commit, revset_range, LocalBookmark,
};

fn names(list: &[&str]) -> Vec<String> {
    list.iter().map(|n| n.to_string()).collect()
}

fn bookmark(name: &str, targets: &[&[u8]]) -> LocalBookmark {
    LocalBookmark {
        name: name.to_string(),
        targets: targets.iter().map(|t| t.to_vec()).collect(),
    }
}

/// What a run does after an event.
fn after(run: &BookmarkRun<'_>, stage: BookmarkStage, event: BookmarkEvent<'_>) -> String {
    match run.step(stage, event) {
        (BookmarkStage::Summarizing, BookmarkAction::Summarize) => "summarize".to_string(),
        (BookmarkStage::Naming, BookmarkAction::Ask(text)) => format!("ask {text}"),
        (BookmarkStage::Applying(kept), BookmarkAction::Apply(name)) => format!("apply {name} {kept}"),
        (BookmarkStage::Finished, BookmarkAction::Print(name)) => format!("print {name}"),
        (BookmarkStage::Finished, BookmarkAction::Report(moved)) => format!("report {moved}"),
        (BookmarkStage::Finished, BookmarkAction::Fail(text)) => format!("fail {text}"),
        (BookmarkStage::Finished, BookmarkAction::Stop) => "stop".to_string(),
        _ => panic!("a step that leads nowhere"),
    }
}

fn run<'a>(prefix: Option<&'a str>, dry_run: bool) -> BookmarkRun<'a> {
    BookmarkRun { from: "main", to: "@", prefix, dry_run }
}

#[test]
fn base_is_the_first_branch_there_is() {
    let base = |origin: &[&str], local: &[&str]| find_default_base(&names(origin), &names(local));
    assert_eq!(base(&["main"], &["develop"]), Ok("develop".to_string()));
    assert_eq!(base(&["main"], &["main"]), Ok("main@origin".to_string()));
    assert_eq!(base(&["trunk", "master"], &["x"]), Ok("master@origin".to_string()));
    assert_eq!(base(&[], &["trunk"]), Ok("trunk".to_string()));
    assert_eq!(
        base(&["x"], &[]),
        Err(
            "Could not find a default base branch (develop, main, master, trunk). Please specify --from explicitly."
                .to_string()
        )
    );
}

#[test]
fn empty_working_copy_is_skipped() {
    assert_eq!(resolve_bookmark_target("@", "", Some(true)), "@-");
    assert_eq!(resolve_bookmark_target("@", "", Some(false)), "@");
    assert_eq!(resolve_bookmark_target("@", "", None), "@");
    assert_eq!(resolve_bookmark_target("@", "x", Some(true)), "@");
    assert_eq!(resolve_bookmark_target("main", "", Some(true)), "main");
    assert_eq!(revset_range("main@origin", "@-"), "main@origin..@-");
}

#[test]
fn revisions_stand_for_one_commit() {
    assert_eq!(resolve_single_commit(vec![vec![1]], "@"), Ok(vec![1]));
    assert_eq!(
        resolve_single_commit(Vec::new(), "@"),
        Err("Revset resolved to no commits".to_string())
    );
    assert_eq!(
        resolve_single_commit(vec![vec![1], vec![2]], "a|b"),
        Err("Revset 'a|b' resolved to multiple commits, expected single commit".to_string())
    );
}

#[test]
fn existing_bookmark_is_found() {
    let all =
        vec![bookmark("a", &[&[1]]), bookmark("b", &[&[7], &[2]]), bookmark("c", &[&[2]])];
    assert_eq!(
        find_existing_bookmark_in_range(&all, &vec![vec![2], vec![3]]),
        Some("b".to_string())
    );
    assert_eq!(find_existing_bookmark_in_range(&all, &vec![vec![9]]), None);
    assert_eq!(find_existing_bookmark_in_range(&Vec::new(), &vec![vec![9]]), None);
}

#[test]
fn summaries_are_titles() {
    let long = "あ".repeat(121);
    let exact = "x".repeat(120);
    let descriptions = vec![
        "\n feat: a \n\nbody".to_string(),
        "  ".to_string(),
        long,
        exact.clone(),
    ];
    let cut = "あ".repeat(120);
    assert_eq!(
        get_commit_summaries(&descriptions),
        format!("- feat: a \n- {cut}...\n- {exact}")
    );
    assert_eq!(get_commit_summaries(&Vec::new()), "");
}

#[test]
fn existing_bookmark_keeps_its_name() {
    let keep = |name: &str, prefix: Option<&str>| {
        after(&run(prefix, false), BookmarkStage::Searching, BookmarkEvent::Searched(Some(name)))
    };
    assert_eq!(keep("login-fix", Some("feature")), "apply login-fix true");
    assert_eq!(keep("feature/x-y", Some("feature")), "apply feature/x-y true");
    assert_eq!(keep("x-y", None), "apply x-y true");
    let create = |prefix: Option<&str>| {
        after(&run(prefix, false), BookmarkStage::Naming, BookmarkEvent::Named(Some("x-y")))
    };
    assert_eq!(create(Some("fix")), "apply fix/x-y false");
    assert_eq!(create(None), "apply x-y false");
}

#[test]
fn new_bookmark_is_named_after_the_commits() {
    let run = run(None, false);
    assert_eq!(
        after(&run, BookmarkStage::Searching, BookmarkEvent::Searched(None)),
        "summarize"
    );
    assert_eq!(
        after(&run, BookmarkStage::Summarizing, BookmarkEvent::Summarized("- a".to_string())),
        "ask - a"
    );
    assert_eq!(
        after(&run, BookmarkStage::Summarizing, BookmarkEvent::Summarized(String::new())),
        "fail No commits found between main and @"
    );
    assert_eq!(
        after(&run, BookmarkStage::Naming, BookmarkEvent::Named(None)),
        "fail Failed to generate bookmark name"
    );
}

#[test]
fn dry_run_prints_the_name() {
    let run = run(Some("p"), true);
    assert_eq!(
        after(&run, BookmarkStage::Searching, BookmarkEvent::Searched(Some("x"))),
        "print x"
    );
    assert_eq!(after(&run, BookmarkStage::Naming, BookmarkEvent::Named(Some("x"))), "print p/x");
}

#[test]
fn bookmark_is_reported() {
    let run = run(None, false);
    for (kept, existed, expected) in
        [(true, true, "report true"), (true, false, "report false"), (false, true, "report false")]
    {
        assert_eq!(
            after(&run, BookmarkStage::Applying(kept), BookmarkEvent::Applied(existed)),
            expected
        );
    }
    assert_eq!(after(&run, BookmarkStage::Searching, BookmarkEvent::Applied(true)), "stop");
}

#[test]
fn bookmark_operations_are_described() {
    assert_eq!(bookmark_operation(true, "x"), "move bookmark 'x' via jc");
    assert_eq!(bookmark_operation(false, "x"), "create bookmark 'x' via jc");
}
