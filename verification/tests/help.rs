use jc::cli::{
    install_after_long_help, install_long_about, jc_after_long_help,
    ADD_AFTER_LONG_HELP, ADD_LONG_ABOUT, BOOKMARK_AFTER_LONG_HELP, BOOKMARK_LONG_ABOUT,
    COMMIT_AFTER_LONG_HELP, COMMIT_LONG_ABOUT, DESCRIBE_AFTER_LONG_HELP, DESCRIBE_LONG_ABOUT,
    JC_LONG_ABOUT,
};

/// The program with its subcommands and their help texts.
fn program() -> clap::Command {
    let part = |name: &'static str, about: &str, after: &str| {
        clap::Command::new(name).long_about(about.to_string()).after_long_help(after.to_string())
    };
    clap::Command::new("jc")
        .long_about(JC_LONG_ABOUT)
        .after_long_help(jc_after_long_help("agent"))
        .subcommand(part("add", ADD_LONG_ABOUT, ADD_AFTER_LONG_HELP))
        .subcommand(part(
            "install",
            &install_long_about("agent"),
            &install_after_long_help("agent"),
        ))
        .subcommand(part("bookmark", BOOKMARK_LONG_ABOUT, BOOKMARK_AFTER_LONG_HELP))
        .subcommand(part("commit", COMMIT_LONG_ABOUT, COMMIT_AFTER_LONG_HELP))
        .subcommand(part("describe", DESCRIBE_LONG_ABOUT, DESCRIBE_AFTER_LONG_HELP))
}

fn long_help(mut command: clap::Command) -> String {
    let mut buffer = Vec::new();
    command.write_long_help(&mut buffer).unwrap();
    String::from_utf8(buffer).unwrap()
}

fn subcommand_long_help(name: &str) -> String {
    let mut command = program();
    let subcommand = command.find_subcommand_mut(name).unwrap();
    let mut buffer = Vec::new();
    subcommand.write_long_help(&mut buffer).unwrap();
    String::from_utf8(buffer).unwrap()
}

fn normalize_whitespace(text: &str) -> String {
    text.split_whitespace().collect::<Vec<_>>().join(" ")
}

#[test]
fn top_level_help_has_llm_quick_reference() {
    let help = long_help(program());
    let normalized = normalize_whitespace(&help);

    assert!(help.contains("LLM QUICK REFERENCE:"));
    assert!(normalized.contains("Default action: `jc` is equivalent to `jc commit`."));
    assert!(normalized.contains("Prompt capture: `jc add` records stdin"));
    assert!(help.contains("jc bookmark --prefix feature --dry-run"));
}

#[test]
fn commit_help_documents_default_command_and_dry_run() {
    let help = subcommand_long_help("commit");
    let normalized = normalize_whitespace(&help);

    assert!(normalized.contains("This is the default command: `jc` is the same as `jc commit`."));
    assert!(normalized.contains("`--dry-run` prints the generated commit message"));
    assert!(help.contains("jc c --force --no-instructions"));
}

#[test]
fn bookmark_help_matches_default_base_resolution() {
    let help = subcommand_long_help("bookmark");
    let normalized = normalize_whitespace(&help);

    assert!(normalized.contains("tries develop, main, master, then trunk"));
    assert!(normalized.contains("preferring `<name>@origin` over local `<name>`"));
    assert!(normalized.contains("if `@` is empty, jc uses `@-`"));
}

#[test]
fn help_names_the_agent() {
    let help = normalize_whitespace(&long_help(program()));
    assert!(help.contains("use `--backend codex|agent`, `--model <model>`"));
    let help = normalize_whitespace(&subcommand_long_help("install"));
    assert!(help.contains("jc writes or updates `.agent/settings.local.json` so future prompts"));
    assert!(help.contains("Creates `.agent/settings.local.json` if needed."));
}
