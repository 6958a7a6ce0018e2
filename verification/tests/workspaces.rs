use jc::paths::PathParts;
use jc::workspace::{
    configured_excludes, excludes_candidates, find_workspace, is_colocated_git_workspace,
    user_config_candidates, ExcludesFile,
};

fn path(parts: &[&str]) -> PathParts {
    PathParts { parts: parts.iter().map(|p| p.as_bytes().to_vec()).collect() }
}

#[test]
fn nearest_workspace_is_found() {
    assert_eq!(find_workspace(&vec![false, true, true], "/a/b"), Ok(1));
    assert_eq!(
        find_workspace(&vec![false, false], "/a"),
        Err("No Jujutsu workspace found in '/a' or any parent directory".to_string())
    );
}

#[test]
fn colocated_workspaces_are_known() {
    let (a, b) = (path(&["/", "a"]), path(&["/", "b"]));
    assert!(is_colocated_git_workspace(Some(&a), &path(&["/", "a"]), None));
    assert!(!is_colocated_git_workspace(Some(&a), &b, None));
    assert!(is_colocated_git_workspace(
        Some(&a),
        &b,
        Some((path(&["/", "c"]), path(&["/", "c"])))
    ));
    assert!(!is_colocated_git_workspace(
        Some(&a),
        &b,
        Some((path(&["/", "c"]), path(&["/", "d"])))
    ));
    assert!(!is_colocated_git_workspace(None, &b, None));
}

#[test]
fn user_configuration_is_looked_for() {
    let found = user_config_candidates(Some(path(&["/", "h"])), Some(path(&["/", "c"])));
    assert_eq!(
        found,
        [
            path(&["/", "h", ".jjconfig.toml"]),
            path(&["/", "h", ".config", "jj", "config.toml"]),
            path(&["/", "c", "jj", "config.toml"]),
        ]
    );
    assert!(user_config_candidates(None, None).is_empty());
}

#[test]
fn excludes_file_is_read_from_git() {
    let read = |ok: bool, out: &[u8], home: bool| match configured_excludes(ok, &out.to_vec(), home)
    {
        Some(ExcludesFile::InHome(p)) => format!("home:{p}"),
        Some(ExcludesFile::Given(p)) => p,
        None => "-".to_string(),
    };
    assert_eq!(read(true, b"~/.ignore\n", true), "home:.ignore");
    assert_eq!(read(true, b"~/.ignore\n", false), "~/.ignore");
    assert_eq!(read(true, b" /etc/ignore \n", true), "/etc/ignore");
    assert_eq!(read(false, b"/etc/ignore", true), "-");
    assert_eq!(read(true, b" \n", true), "-");
    assert_eq!(read(true, b"\xff", true), "-");
}

#[test]
fn excludes_file_is_looked_for() {
    let home = || Some(path(&["/", "h"]));
    assert_eq!(
        excludes_candidates(Some(path(&["/", "x"])), false, home()),
        [path(&["/", "x", "git", "ignore"]), path(&["/", "h", ".config", "git", "ignore"])]
    );
    assert_eq!(
        excludes_candidates(Some(path(&[])), true, home()),
        [path(&["/", "h", ".config", "git", "ignore"])]
    );
    assert!(excludes_candidates(None, false, None).is_empty());
}
