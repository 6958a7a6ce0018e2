use jc::config::DiffConfig;
use jc::diff::{
    collapse_reason, count_changes, format_added_removed_diff, format_collapsed_summary,
    FileContents, LineChange,
};
use jc::gitattributes::load_gitattributes;
use jc::globs::build_collapse_matcher;
use jc::limits::truncate;
use jc::tree::{
    detect_renames, get_file_change_summary, EntryKind, EntryValues, Side, TreeEntry,
};
use jc::tree_diff::{generate_diff, get_tree_diff, needed_contents};

fn entry(path: &str, before: Side, after: Side) -> TreeEntry {
    TreeEntry { path: path.to_string(), values: Ok(EntryValues { before, after }) }
}

fn file(id: u8) -> Side {
    Side::File(vec![id])
}

fn contents(before: &str, after: &str) -> FileContents {
    FileContents { before: before.as_bytes().to_vec(), after: after.as_bytes().to_vec() }
}

fn diff_of(entries: Vec<TreeEntry>, all: Vec<FileContents>) -> String {
    get_tree_diff(&entries, &all, None, None, 100, 1000).unwrap().diff
}

fn patterns(list: &[&str]) -> Vec<String> {
    list.iter().map(|p| p.to_string()).collect()
}

#[test]
fn reasons_are_given_in_order() {
    let g = Some("collapsed: gitattributes (binary)");
    assert_eq!(collapse_reason(g, true, 9, 9, 1, 1), "collapsed: gitattributes (binary)");
    assert_eq!(collapse_reason(None, true, 9, 9, 1, 1), "collapsed: matches pattern");
    assert_eq!(collapse_reason(None, false, 9, 9, 1, 1), "collapsed: exceeds line limit");
    assert_eq!(collapse_reason(None, false, 1, 9, 1, 1), "collapsed: exceeds size limit");
    assert_eq!(collapse_reason(None, false, 1, 1, 1, 1), "collapsed");
    assert_eq!(
        format_collapsed_summary("a.lock", 12, 3, "modified", "collapsed: matches pattern"),
        "diff --git a/a.lock b/a.lock\nmodified (+12 -3 lines, collapsed: matches pattern)\n"
    );
}

#[test]
fn added_and_deleted_files_are_shown() {
    assert_eq!(
        format_added_removed_diff("x", &b"a\r\nb".to_vec(), true, 50),
        "diff --git a/x b/x\nnew file\n--- /dev/null\n+++ b/x\n+a\n+b\n"
    );
    assert_eq!(
        format_added_removed_diff("x", &b"a\nb\nc\n".to_vec(), false, 1),
        "diff --git a/x b/x\ndeleted file\n--- a/x\n+++ /dev/null\n-a\n... (2 more lines)\n"
    );
    assert_eq!(
        format_added_removed_diff("x", &vec![0xff], true, 50),
        "diff --git a/x b/x\nnew file\n--- /dev/null\n+++ b/x\n(binary file)\n"
    );
}

#[test]
fn modified_files_are_shown() {
    let diff = diff_of(
        vec![entry("x", file(1), file(2))],
        vec![contents("1\n2\n3\n4\n5\n6\n", "1\n2\n3\nfour\n5\n6\n")],
    );
    assert_eq!(
        diff,
        "diff --git a/x b/x\n--- a/x\n+++ b/x\n@@ -2,5 +2,5 @@\n 2\n 3\n-4\n+four\n 5\n 6\n"
    );
}

#[test]
fn changed_lines_are_counted() {
    let changes =
        vec![LineChange::Equal, LineChange::Insert, LineChange::Delete, LineChange::Insert];
    assert_eq!(count_changes(&changes), (2, 1));
    let entries = vec![entry("x", file(1), file(2))];
    let all = vec![contents("a\nb\nc\n", "a\nx\ny\nc\n")];
    let found = get_tree_diff(&entries, &all, None, None, 2, 1000).unwrap();
    assert_eq!(
        found.diff,
        "diff --git a/x b/x\nmodified (+2 -1 lines, collapsed: exceeds line limit)\n"
    );
    assert_eq!(found.collapsed_paths, ["x"]);
    assert_eq!(found.collapsed_count, 1);
}

#[test]
fn binary_and_conflicted_files_are_named() {
    let diff = diff_of(
        vec![
            entry("b", file(1), file(2)),
            entry("c", Side::Conflicted, file(2)),
            entry("link", Side::Absent, Side::Other),
        ],
        vec![
            FileContents { before: vec![0xff], after: vec![b'a'] },
            contents("", ""),
            contents("", ""),
        ],
    );
    assert_eq!(
        diff,
        "diff --git a/b b/b\n(binary file modified)\ndiff --git a/c b/c\n(conflicted file)\n"
    );
}

#[test]
fn renames_are_paired() {
    let entries = vec![
        entry("new1", Side::Absent, file(1)),
        entry("new2", Side::Absent, file(2)),
        entry("old1", file(1), Side::Absent),
        entry("old2", file(2), Side::Absent),
        entry("other", Side::Absent, file(3)),
    ];
    let all = vec![
        contents("", "unread"),
        contents("", "unread"),
        contents("unread", ""),
        contents("unread", ""),
        contents("", "text\n"),
    ];
    assert_eq!(
        needed_contents(&entries).unwrap(),
        [(false, false), (false, false), (false, false), (false, false), (false, true)]
    );
    assert_eq!(
        diff_of(entries, all),
        "diff --git a/old1 b/new1\nrename from old1\nrename to new1\n\
         diff --git a/old2 b/new2\nrename from old2\nrename to new2\n\
         diff --git a/other b/other\nnew file\n--- /dev/null\n+++ b/other\n+text\n"
    );
}

#[test]
fn copies_are_renamed_once() {
    let entries = vec![
        entry("a", file(1), Side::Absent),
        entry("b", Side::Absent, file(1)),
        entry("c", Side::Absent, file(1)),
        entry("d", file(1), file(2)),
    ];
    assert_eq!(
        needed_contents(&entries).unwrap(),
        [(false, false), (false, false), (false, true), (true, true)]
    );
}

#[test]
fn renames_are_as_many_as_can_be() {
    let id = vec![1];
    let count = |signs: &str| {
        let kind = |sign: char| match sign {
            '+' => EntryKind::Added(&id),
            _ => EntryKind::Deleted(&id),
        };
        let kinds: Vec<EntryKind<'_>> = signs.chars().map(kind).collect();
        detect_renames(&kinds).iter().filter(|partner| partner.is_some()).count()
    };
    assert_eq!(count("--+-"), 1);
    assert_eq!(count("+-+-+"), 2);
    assert_eq!(count("++"), 0);
}

#[test]
fn unreadable_entries_fail() {
    let entries = vec![
        entry("a", Side::Absent, file(1)),
        TreeEntry { path: "b".to_string(), values: Err("broken".to_string()) },
    ];
    let all = || vec![contents("", "x"), contents("", "")];
    assert!(matches!(
        get_tree_diff(&entries, &all(), None, None, 9, 9),
        Err(message) if message == "broken"
    ));
    assert_eq!(needed_contents(&entries), Err("broken".to_string()));
    let summary = get_file_change_summary(&entries);
    assert_eq!(summary.added, ["a"]);
}

#[test]
fn changes_are_summed_up() {
    let entries = vec![
        entry("a", Side::Absent, file(1)),
        entry("d", file(1), Side::Absent),
        entry("m", file(1), file(2)),
        entry("c", Side::Conflicted, file(2)),
        entry("l", Side::Other, file(2)),
    ];
    let summary = get_file_change_summary(&entries);
    assert_eq!(summary.added, ["a"]);
    assert_eq!(summary.deleted, ["d"]);
    assert_eq!(summary.modified, ["m"]);
}

#[test]
fn patterns_collapse_files() {
    assert!(build_collapse_matcher(&[]).is_none());
    let matcher = build_collapse_matcher(&patterns(&["*.lock", "[", "vendor/**"])).unwrap();
    assert!(matcher.is_match("Cargo.lock"));
    assert!(matcher.is_match("deep/Cargo.lock"));
    assert!(matcher.is_match("vendor/a/b.rs"));
    assert!(!matcher.is_match("src/vendor.rs"));
    let entries = vec![entry("Cargo.lock", Side::Absent, file(1))];
    let all = vec![contents("", "a\nb\n")];
    let found = get_tree_diff(&entries, &all, Some(&matcher), None, 100, 100).unwrap();
    assert_eq!(
        found.diff,
        "diff --git a/Cargo.lock b/Cargo.lock\nnew file (+2 -0 lines, collapsed: matches pattern)\n"
    );
}

#[test]
fn attributes_collapse_files() {
    assert!(load_gitattributes("# nothing\n*.rs text\n").is_none());
    let matcher = load_gitattributes(
        "# comment\n*.gen text linguist-generated=true\n*.bin binary\n x.bin -diff\n*.y diff=false\n[ binary\n",
    )
    .unwrap();
    assert_eq!(
        matcher.collapse_reason("a.gen"),
        Some("collapsed: gitattributes (linguist-generated)")
    );
    // The first rule that matches counts.
    assert_eq!(matcher.collapse_reason("x.bin"), Some("collapsed: gitattributes (binary)"));
    assert_eq!(matcher.collapse_reason("a.y"), Some("collapsed: gitattributes (-diff)"));
    assert_eq!(matcher.collapse_reason("a.rs"), None);
    let entries = vec![entry("a.bin", file(1), Side::Absent)];
    let all = vec![FileContents { before: vec![0xff, b'\n', b'a'], after: Vec::new() }];
    let found = get_tree_diff(&entries, &all, None, Some(&matcher), 100, 100).unwrap();
    assert_eq!(
        found.diff,
        "diff --git a/a.bin b/a.bin\ndeleted file (+0 -2 lines, collapsed: gitattributes (binary))\n"
    );
}

#[test]
fn marked_binary_files_are_collapsed() {
    let matcher = load_gitattributes("*.png binary").unwrap();
    let entries = vec![entry("logo.png", file(1), file(2)), entry("other", file(1), file(2))];
    let all = || {
        vec![
            FileContents { before: vec![0xff, b'\n'], after: vec![0xfe, b'a', b'\n'] },
            FileContents { before: vec![0xff], after: vec![0xfe] },
        ]
    };
    let found = get_tree_diff(&entries, &all(), None, Some(&matcher), 100, 100).unwrap();
    assert_eq!(
        found.diff,
        "diff --git a/logo.png b/logo.png\nmodified (+1 -1 lines, collapsed: gitattributes (binary))\n\
         diff --git a/other b/other\n(binary file modified)\n"
    );
    assert_eq!(found.collapsed_count, 1);
    assert_eq!(found.collapsed_paths, ["logo.png"]);
}

fn config(max_lines: usize, max_bytes: usize) -> DiffConfig {
    DiffConfig {
        collapse_patterns: patterns(&["*.lock"]),
        max_diff_lines: 100,
        max_diff_bytes: 1000,
        max_total_diff_lines: max_lines,
        max_total_diff_bytes: max_bytes,
    }
}

#[test]
fn diffs_of_commits_are_made() {
    let entries =
        vec![entry("a.lock", Side::Absent, file(1)), entry("b.gen", Side::Absent, file(2))];
    let all = vec![contents("", "x\n"), contents("", "y\n")];
    let (diff, collapsed) =
        generate_diff(&entries, &all, 2, Some("*.gen binary"), &config(100, 1000)).unwrap().unwrap();
    assert_eq!(
        diff,
        "Merge commit (2 parents) - diff against first parent:\n\n\
         diff --git a/a.lock b/a.lock\nnew file (+1 -0 lines, collapsed: matches pattern)\n\
         diff --git a/b.gen b/b.gen\nnew file (+1 -0 lines, collapsed: gitattributes (binary))\n"
    );
    assert_eq!(collapsed, ["a.lock", "b.gen"]);
    assert_eq!(generate_diff(&Vec::new(), &Vec::new(), 1, None, &config(0, 0)), Ok(None));
}

#[test]
fn large_diffs_are_truncated() {
    let entries = vec![entry("a", Side::Absent, file(1))];
    let all = vec![contents("", "é\n")];
    let diff = "diff --git a/a b/a\nnew file\n--- /dev/null\n+++ b/a\n+é\n";
    let made = |lines: usize, bytes: usize| {
        let (diff, _) = generate_diff(&entries, &all, 1, None, &config(lines, bytes)).unwrap().unwrap();
        diff
    };
    assert_eq!(made(5, diff.len()), diff);
    assert_eq!(made(4, diff.len()), "diff --git a/a b/a\nnew file\n--- /dev/null\n+++ b/a\n");
    assert_eq!(made(5, diff.len() - 1), diff.trim_end());
    // No character is cut in two.
    assert_eq!(made(5, diff.len() - 2), &diff[..diff.len() - 3]);
    assert_eq!(made(0, 100), "");
}

#[test]
fn texts_are_truncated() {
    assert_eq!(truncate("a\nb\nc", 2, 100), "a\nb\n");
    assert_eq!(truncate("a\nb\nc", 3, 100), "a\nb\nc");
    assert_eq!(truncate("日本語", 9, 7), "日本");
    assert_eq!(truncate("\u{1f600}x", 9, 3), "");
}
