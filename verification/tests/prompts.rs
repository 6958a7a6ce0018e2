use jc::paths::PathParts;
use jc::prompt_entry::{read_entry, write_entry, PromptEntry};
use jc::prompt_input::{extract_prompt, PromptError};
use jc::prompt_log::{log_entry, log_records};
use jc::prompt_store::{default_storage_dir, hash_path, PromptStore};
use jc::prompt_time::{parent_commit_time, parse_moment, Moment};
use jc::workflow::load_prompts;

fn path(parts: &[&str]) -> PathParts {
    PathParts { parts: parts.iter().map(|p| p.as_bytes().to_vec()).collect() }
}

fn store() -> PromptStore {
    PromptStore { storage_dir: path(&["/", "tmp", "jc-test"]), heading: "AI Instructions".into() }
}

fn entry(timestamp: &str, prompt: &str) -> PromptEntry {
    PromptEntry { timestamp: timestamp.to_string(), prompt: prompt.to_string() }
}

#[test]
fn extract_plain_text() {
    assert_eq!(extract_prompt(b"hello world").unwrap(), "hello world");
}

#[test]
fn extract_json_prompt_field() {
    let raw = br#"{"session_id":"x","prompt":"do the thing"}"#;
    assert_eq!(extract_prompt(raw).unwrap(), "do the thing");
}

#[test]
fn extract_json_nested_user_prompt() {
    let raw = br#"{"hook":{"user_prompt":"nested instruction"}}"#;
    assert_eq!(extract_prompt(raw).unwrap(), "nested instruction");
}

#[test]
fn extract_bare_json_string() {
    assert_eq!(extract_prompt(br#""just a string""#).unwrap(), "just a string");
}

#[test]
fn append_section_formats_quotes() {
    let result = store().append_instructions(
        "feat: add thing",
        &["first".to_string(), "second\nline".to_string()],
    );
    assert_eq!(result, "feat: add thing\n\nAI Instructions:\n> first\n\n> second\n> line\n");
}

#[test]
fn append_section_skips_when_empty() {
    assert_eq!(store().append_instructions("feat: x", &[]), "feat: x");
}

#[test]
fn append_section_idempotent() {
    let once = store().append_instructions("feat: x", &["a".to_string()]);
    let twice = store().append_instructions(&once, &["a".to_string()]);
    assert_eq!(once, twice);
}

#[test]
fn extract_prefers_the_first_field() {
    let raw = br#"{"input":"c","user_prompt":"b","prompt":"a"}"#;
    assert_eq!(extract_prompt(raw).unwrap(), "a");
    let raw = br#"{"input":"c","user_prompt":"b","prompt":7}"#;
    assert_eq!(extract_prompt(raw).unwrap(), "b");
    let raw = br#"[{"x":1},{"deep":[{"input":"c"}]}]"#;
    assert_eq!(extract_prompt(raw).unwrap(), "c");
}

#[test]
fn extract_fails_without_a_field() {
    assert_eq!(extract_prompt(br#"{"session":"x"}"#), Err(PromptError::FieldNotFound));
    assert_eq!(extract_prompt(b"12"), Err(PromptError::FieldNotFound));
}

#[test]
fn extract_replaces_what_is_not_text() {
    assert_eq!(extract_prompt(b"a\xffb").unwrap(), "a\u{fffd}b");
}

#[test]
fn add_refuses_logs_in_the_workspace() {
    let root = path(&["/", "repo"]);
    let now = "1970-01-01T00:00:01Z";
    let record = "{\"timestamp\":\"1970-01-01T00:00:01Z\",\"prompt\":\"x\"}\n";
    let add = |storage: &PathParts, raw: &[u8]| PromptStore::add(storage, &root, "/repo", now, raw);
    let inside = path(&["/", "repo", ".prompts"]);
    let beside = path(&["/", "repo2"]);
    assert_eq!(add(&inside, b"x"), Err(PromptError::InsideWorkspace));
    assert_eq!(add(&root, b"x"), Err(PromptError::InsideWorkspace));
    assert_eq!(add(&beside, b"x"), Ok(record.to_string()));
    assert_eq!(add(&beside, b" \n "), Err(PromptError::Empty));
    assert_eq!(add(&beside, b"{}"), Err(PromptError::FieldNotFound));
    // A workspace that the logs of the storage directory lie in.
    let storage = path(&["/", "data"]);
    let logs = path(&["/", "data", "workspaces"]);
    assert_eq!(
        PromptStore::add(&storage, &logs, "/data/workspaces", now, b"x"),
        Err(PromptError::InsideWorkspace)
    );
    let other = path(&["/", "data", "other"]);
    assert_eq!(
        PromptStore::add(&storage, &other, "/data/other", now, b"x"),
        Ok(record.to_string())
    );
    let log = path(&["/", "repo", "x.jsonl"]);
    assert_eq!(PromptStore::validate_outside(&log, &root), Err(PromptError::InsideWorkspace));
    assert_eq!(PromptStore::validate_outside(&log, &beside), Ok(()));
    assert_eq!(
        PromptError::InsideWorkspace.message("/repo/.prompts"),
        "JC_PROMPT_STORAGE_DIR (/repo/.prompts) must be outside the workspace"
    );
    assert_eq!(PromptError::Empty.message(""), "empty prompt");
    assert_eq!(
        PromptError::FieldNotFound.message(""),
        "prompt field not found in hook input (expected prompt/user_prompt/input)"
    );
}

#[test]
fn store_takes_what_is_configured() {
    let store = PromptStore::new(None, Some(path(&["/", "data"])), Some("  ".to_string()));
    assert_eq!(store.storage_dir, path(&["/", "data", "jc"]));
    assert_eq!(store.heading, "AI Instructions");
    let store = PromptStore::new(Some(path(&["/", "own"])), None, Some("Prompts".to_string()));
    assert_eq!(store.storage_dir, path(&["/", "own"]));
    assert_eq!(store.heading, "Prompts");
    assert_eq!(default_storage_dir(None), path(&[".jc-prompts"]));
}

#[test]
fn log_path_is_named_by_the_hash_of_the_workspace() {
    assert_eq!(
        hash_path("abc"),
        "ba7816bf8f01cfea414140de5dae2223b00361a396177a9cb410ff61f20015ad"
    );
    let expected = path(&[
        "/",
        "tmp",
        "jc-test",
        "workspaces",
        "ba7816bf8f01cfea414140de5dae2223b00361a396177a9cb410ff61f20015ad.jsonl",
    ]);
    assert_eq!(store().log_path("abc"), expected);
    assert_ne!(store().log_path("abd"), expected);
    let id = hash_path("/some/workspace");
    assert_eq!(id.len(), 64);
    assert!(id.chars().all(|c| c.is_ascii_digit() || ('a'..='f').contains(&c)));
}

#[test]
fn log_reads_back_what_was_written() {
    let mut content = log_entry("{\"a\":1}");
    content.push_str(&log_entry("{\"b\":2}"));
    assert_eq!(log_records(&content), ["{\"a\":1}", "{\"b\":2}"]);
    assert_eq!(log_records("\n  \n x \r\n"), ["x"]);
}

#[test]
fn added_prompt_is_read_back_last() {
    let (storage, root) = (path(&["/", "data"]), path(&["/", "repo"]));
    let prompts = |content: &str| {
        let entries: Vec<PromptEntry> =
            log_records(content).iter().map(|record| read_entry(record).unwrap()).collect();
        PromptStore::prompts_since(&entries, None)
    };
    let mut content = String::new();
    let mut expected: Vec<String> = Vec::new();
    for prompt in ["one", "two \"quoted\"\r\nlines\n", "\\ \u{1}\u{7f}\t/", "日本語\u{2028}\u{1f600}"] {
        let now = "1970-01-01T00:00:01Z";
        let added = PromptStore::add(&storage, &root, "/repo", now, prompt.as_bytes()).unwrap();
        assert_eq!(added.lines().count(), 1);
        content.push_str(&added);
        expected.push(prompt.to_string());
        assert_eq!(prompts(&content), expected);
    }
}

#[test]
fn records_are_written_as_json() {
    assert_eq!(
        write_entry("t", "a \"b\"\n\u{1}"),
        r#"{"timestamp":"t","prompt":"a \"b\"\n\u0001"}"#
    );
    assert_eq!(read_entry(r#"{"timestamp":"t","prompt":"a\nb"}"#), Some(entry("t", "a\nb")));
    // Other forms are left to the caller.
    for record in [
        r#"{"prompt":"a","timestamp":"t"}"#,
        r#"{"timestamp":"t", "prompt":"a"}"#,
        r#"{"timestamp":"t","prompt":"a","more":1}"#,
        r#"{"timestamp":"t","prompt":"\u0061"}"#,
        r#"{"timestamp":"t","prompt":1}"#,
        r#"["t","a"]"#,
        "",
    ] {
        assert_eq!(read_entry(record), None);
    }
}

#[test]
fn moments_are_read() {
    assert_eq!(
        parse_moment("2024-01-02T03:04:05.5Z"),
        Some(Moment { secs: 1704164645, nanos: 500_000_000 })
    );
    assert_eq!(
        parse_moment("2024-01-02T03:04:05+09:00"),
        Some(Moment { secs: 1704132245, nanos: 0 })
    );
    assert_eq!(parse_moment("yesterday"), None);
}

#[test]
fn parent_times_are_read() {
    assert_eq!(parent_commit_time(Some(1500)), Some(Moment { secs: 1, nanos: 500_000_000 }));
    assert_eq!(parent_commit_time(Some(-1)), Some(Moment { secs: -1, nanos: 999_000_000 }));
    assert_eq!(parent_commit_time(None), None);
    let max = 8_210_266_876_799_999i64;
    let min = -8_334_601_228_800_000i64;
    assert!(parent_commit_time(Some(max)).is_some());
    assert!(parent_commit_time(Some(max + 1)).is_none());
    assert!(parent_commit_time(Some(min)).is_some());
    assert!(parent_commit_time(Some(min - 1)).is_none());
    assert!(chrono::DateTime::from_timestamp_millis(max).is_some());
    assert!(chrono::DateTime::from_timestamp_millis(max + 1).is_none());
    assert!(chrono::DateTime::from_timestamp_millis(min).is_some());
    assert!(chrono::DateTime::from_timestamp_millis(min - 1).is_none());
}

#[test]
fn prompts_after_the_parent_are_loaded() {
    let log = vec![
        entry("1970-01-01T00:00:01Z", "early"),
        entry("1970-01-01T00:00:02Z", "at the cutoff"),
        entry("1970-01-01T00:00:02.000000001Z", "late"),
        entry("no time", "undated"),
    ];
    assert_eq!(load_prompts(false, Some(&log), Some(2000)), ["late", "undated"]);
    assert_eq!(load_prompts(false, Some(&log), None).len(), 4);
    assert!(load_prompts(true, Some(&log), None).is_empty());
    assert!(load_prompts(false, None, None).is_empty());
}

#[test]
fn sections_follow_the_message() {
    let prompts = ["a\r\n\nb\r\n".to_string()];
    assert_eq!(
        store().append_instructions("fix: y\r\n\n", &prompts),
        "fix: y\n\nAI Instructions:\n> a\n> \n> b\n"
    );
    assert_eq!(store().append_instructions("", &["x".to_string()]), "AI Instructions:\n> x\n");
    // White space around the heading does not count.
    let spaced = PromptStore { heading: " Notes".into(), ..store() };
    let once = spaced.append_instructions("feat: x", &["a".to_string()]);
    assert_eq!(once, "feat: x\n\n Notes:\n> a\n");
    assert_eq!(spaced.append_instructions(&once, &["a".to_string()]), once);
    let with_heading = "fix: y\n  AI Instructions:  \nrest";
    assert_eq!(store().append_instructions(with_heading, &prompts), with_heading);
}
