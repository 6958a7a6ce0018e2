use jc::install::{hook_command, install_hook, upsert_user_prompt_hook, InstallOutcome};
use jc::json::{parse_json, Json};

fn object() -> Json {
    Json::Object(Vec::new())
}

/// The entries of the hook on submitted prompts.
fn entries(settings: &Json) -> &Vec<Json> {
    match settings.member("hooks").unwrap().member("UserPromptSubmit").unwrap() {
        Json::Array(items) => items,
        _ => panic!("no array"),
    }
}

/// The first hook of an entry.
fn first_hook(entry: &Json) -> &Json {
    match entry.member("hooks").unwrap() {
        Json::Array(items) => &items[0],
        _ => panic!("no array"),
    }
}

fn text(value: &str) -> Json {
    Json::Text(value.to_string())
}

#[test]
fn test_install_into_empty_settings() {
    let (settings, outcome) = upsert_user_prompt_hook(object(), "/bin/jc", "/bin/jc add -p /repo");
    assert!(matches!(outcome, InstallOutcome::Installed));
    let hook = first_hook(&entries(&settings)[0]);
    assert_eq!(hook.member("command"), Some(&text("/bin/jc add -p /repo")));
    assert_eq!(hook.member("type"), Some(&text("command")));
}

#[test]
fn test_install_is_idempotent() {
    let (settings, _) = upsert_user_prompt_hook(object(), "/bin/jc", "/bin/jc add -p /repo");
    let (settings, outcome) = upsert_user_prompt_hook(settings, "/bin/jc", "/bin/jc add -p /repo");
    assert!(matches!(outcome, InstallOutcome::AlreadyExists));
    assert_eq!(entries(&settings).len(), 1);
}

#[test]
fn test_install_updates_changed_path() {
    let (settings, _) = upsert_user_prompt_hook(object(), "/bin/jc", "/bin/jc add -p /old");
    let (settings, outcome) = upsert_user_prompt_hook(settings, "/bin/jc", "/bin/jc add -p /new");
    assert!(matches!(outcome, InstallOutcome::Updated));
    let ups = entries(&settings);
    assert_eq!(ups.len(), 1);
    assert_eq!(first_hook(&ups[0]).member("command"), Some(&text("/bin/jc add -p /new")));
}

#[test]
fn test_install_preserves_other_hooks() {
    let existing = parse_json(
        r#"{
            "hooks": {
                "UserPromptSubmit": [
                    { "hooks": [ { "type": "command", "command": "/other/tool" } ] }
                ]
            },
            "model": "opus"
        }"#,
    )
    .unwrap();
    let (settings, outcome) = upsert_user_prompt_hook(existing, "/bin/jc", "/bin/jc add -p /repo");
    assert!(matches!(outcome, InstallOutcome::Installed));
    assert_eq!(entries(&settings).len(), 2);
    assert_eq!(settings.member("model"), Some(&text("opus")));
}

#[test]
fn hook_in_second_place_is_updated() {
    let existing = parse_json(
        r#"{"hooks":{"UserPromptSubmit":[{"hooks":[
            {"type":"command","command":"/other"},
            {"type":"command","command":"/bin/jc add -p /old"}
        ]}]}}"#,
    )
    .unwrap();
    let (settings, outcome) = upsert_user_prompt_hook(existing, "/bin/jc", "/bin/jc add -p /new");
    assert_eq!(outcome, InstallOutcome::Updated);
    assert_eq!(entries(&settings).len(), 1);
    let hooks = match entries(&settings)[0].member("hooks").unwrap() {
        Json::Array(items) => items,
        _ => panic!("no array"),
    };
    assert_eq!(hooks.len(), 2);
    assert_eq!(hooks[0].member("command"), Some(&text("/other")));
    assert_eq!(hooks[1].member("command"), Some(&text("/bin/jc add -p /new")));
    assert_eq!(hooks[1].member("type"), Some(&text("command")));
    let (_, outcome) = upsert_user_prompt_hook(settings, "/bin/jc", "/bin/jc add -p /new");
    assert_eq!(outcome, InstallOutcome::AlreadyExists);
}

#[test]
fn malformed_settings_are_replaced() {
    for raw in ["[]", "7", "{\"hooks\": 1}", "{\"hooks\": {\"UserPromptSubmit\": {}}}"] {
        let existing = parse_json(raw).unwrap();
        let (settings, outcome) = upsert_user_prompt_hook(existing, "/bin/jc", "/bin/jc add -p /r");
        assert_eq!(outcome, InstallOutcome::Installed);
        assert_eq!(entries(&settings).len(), 1);
    }
}

#[test]
fn numbers_and_nesting_survive() {
    let raw = r#"{"a": [null, true, 1.5, {"b": "c"}], "hooks": {"Other": [1]}}"#;
    let (settings, _) =
        upsert_user_prompt_hook(parse_json(raw).unwrap(), "/bin/jc", "/bin/jc add -p /r");
    let before = parse_json(raw).unwrap();
    assert_eq!(settings.member("a"), before.member("a"));
    assert_eq!(
        settings.member("hooks").unwrap().member("Other"),
        before.member("hooks").unwrap().member("Other")
    );
}

#[test]
fn installing_reads_the_settings_file() {
    assert_eq!(hook_command("/bin/jc", "/repo"), "/bin/jc add -p /repo");
    let (settings, outcome) = install_hook(None, "s.json", "/bin/jc", "/repo").unwrap();
    assert_eq!(outcome, InstallOutcome::Installed);
    assert_eq!(
        first_hook(&entries(&settings)[0]).member_text("command").unwrap(),
        "/bin/jc add -p /repo"
    );
    let (_, outcome) = install_hook(Some("{}"), "s.json", "/bin/jc", "/repo").unwrap();
    assert_eq!(outcome, InstallOutcome::Installed);
    assert_eq!(
        install_hook(Some("{"), "s.json", "/bin/jc", "/repo"),
        Err("s.json is not valid JSON".to_string())
    );
}

#[test]
fn outcomes_are_told() {
    assert_eq!(InstallOutcome::Installed.message("p"), "Hook installed to p");
    assert_eq!(InstallOutcome::Updated.message("p"), "Hook updated in p");
    assert_eq!(InstallOutcome::AlreadyExists.message("p"), "Hook already present in p");
}
