use jc::bookmark_generator::{is_valid_bookmark, BookmarkGenerator, BookmarkStep};
use jc::cli::{codex_model, is_auto_model, resolve_model, Commands};
use jc::commit_message_generator::{
    is_conventional_title, is_titled, CommitMessageGenerator, MessageStep,
};
use jc::config::{backend, set_backend, Backend};
use regex::Regex;

fn accepted(step: BookmarkStep) -> Option<String> {
    match step {
        BookmarkStep::Accepted(name) => Some(name),
        _ => None,
    }
}

#[test]
fn bookmark_names_follow_the_grammar() {
    let re = Regex::new(r"^[a-z][a-z0-9]*(-[a-z0-9]+){1,7}$").unwrap();
    let names = [
        "",
        "-",
        "a",
        "a-b",
        "add-login",
        "add-login-2",
        "2-add",
        "a-2",
        "a2-b",
        "Add-login",
        "add--login",
        "add-login-",
        "-add-login",
        "a-b-c-d-e-f-g-h",
        "a-b-c-d-e-f-g-h-i",
        "add login",
        "add-lögin",
        "add-login\n",
        "add_login-x",
    ];
    for name in names {
        assert_eq!(is_valid_bookmark(name), re.is_match(name), "{name:?}");
    }
}

#[test]
fn titles_follow_the_grammar() {
    let re = Regex::new(r"^[a-z]+(?:\([^)]+\))?(?:!)?:\s.+").unwrap();
    let titles = [
        "",
        "feat: x",
        "feat:x",
        "feat: ",
        "feat:  ",
        "feat(scope): x",
        "feat(scope)!: x",
        "feat!: x",
        "feat!!: x",
        "feat(): x",
        "feat(a(b): x",
        "feat(a)b: x",
        "feat(a)): x",
        "feat(unclosed: x",
        "feat(",
        "Feat: x",
        ": x",
        "feat:\u{3000}x",
        "feat:\tx",
        "feat: \n",
        "feat:\nx",
        "feat2: x",
        "fix(日本): あ",
        "feat(a\nb): x",
        "feat! : x",
        "feat:",
        "feat",
        "(a): x",
    ];
    for title in titles {
        assert_eq!(is_conventional_title(title), re.is_match(title), "{title:?}");
    }
    assert!(is_titled("  feat: x  \nbody"));
    assert!(!is_titled("\nfeat: x"));
    assert!(!is_titled(""));
}

#[test]
fn bookmark_reply_is_lowered() {
    let step = BookmarkGenerator::generate(false, Some("  Add-LOGIN\n"));
    assert_eq!(accepted(step), Some("add-login".to_string()));
    // The Kelvin sign is lowered to an ASCII letter.
    let step = BookmarkGenerator::generate(false, Some("\u{212a}-a"));
    assert_eq!(accepted(step), Some("k-a".to_string()));
}

#[test]
fn bookmark_is_asked_for_twice() {
    for reply in [None, Some(""), Some(" \n"), Some("I would call it x")] {
        assert!(matches!(BookmarkGenerator::generate(false, reply), BookmarkStep::Retry));
        assert!(matches!(BookmarkGenerator::generate(true, reply), BookmarkStep::Failed));
    }
    assert_eq!(accepted(BookmarkGenerator::generate(true, Some("a-b"))), Some("a-b".to_string()));
}

#[test]
fn bookmark_prompt_is_filled_in() {
    assert_eq!(BookmarkGenerator::new("m").model, "m");
    assert_eq!(
        BookmarkGenerator::prompt("<{commit_summaries}|{commit_summaries}>", "- a", None),
        "<- a|- a>"
    );
    assert_eq!(
        BookmarkGenerator::prompt("{commit_summaries}", "x", Some("Names only! ")),
        "Names only! x"
    );
    assert_eq!(
        BookmarkGenerator::spinner_message("Codex"),
        "Generating bookmark name with Codex..."
    );
}

#[test]
fn message_prompt_is_filled_in() {
    let generator = CommitMessageGenerator::new("French", "m");
    assert_eq!(generator.model, "m");
    assert_eq!(generator.prompt("{language}: {diff_content}", "+a", &[], None), "French: +a");
    assert_eq!(generator.prompt("{diff_content}", "+a", &[], Some("Now ")), "Now +a");
    let with_prompts = generator.prompt("{diff_content}", "+a", &["why".to_string()], None);
    assert!(with_prompts.starts_with("+a\n\n"));
    assert!(with_prompts.contains("1. why\n"));
    // What the language is filled in with is searched for the diff.
    let odd = CommitMessageGenerator::new("{diff_content}", "m");
    assert_eq!(odd.prompt("{language}", "+a", &[], None), "+a");
    assert_eq!(
        CommitMessageGenerator::spinner_message("Codex"),
        "Generating commit message with Codex..."
    );
    let default = CommitMessageGenerator::default();
    assert_eq!((default.language, default.model), ("English", "auto"));
}

#[test]
fn message_with_a_title_is_taken() {
    let step = CommitMessageGenerator::generate(false, None, Some(" fix: a\n\nb \n"), "chore: c");
    assert!(matches!(step, MessageStep::Done(m) if m == "fix: a\n\nb"));
}

#[test]
fn message_without_a_title_gets_the_default_one() {
    let step = CommitMessageGenerator::generate(false, None, Some("Fixed it"), "chore: c");
    let MessageStep::Retry(kept) = step else { panic!("no second attempt") };
    assert_eq!(kept, Some("Fixed it".to_string()));
    // The first message is kept where the second attempt gives none.
    let step = CommitMessageGenerator::generate(true, kept, None, "chore: c");
    assert!(matches!(step, MessageStep::Done(m) if m == "chore: c\n\nFixed it"));
    let step = CommitMessageGenerator::generate(
        true,
        Some("first".to_string()),
        Some("second"),
        "chore: c",
    );
    assert!(matches!(step, MessageStep::Done(m) if m == "chore: c\n\nsecond" && is_titled(&m)));
}

#[test]
fn message_fails_without_a_reply() {
    let step = CommitMessageGenerator::generate(false, None, Some("  "), "chore: c");
    assert!(matches!(step, MessageStep::Retry(None)));
    let step = CommitMessageGenerator::generate(true, None, None, "chore: c");
    assert!(matches!(step, MessageStep::Failed));
}

#[test]
fn model_auto_is_the_configured_one() {
    for model in ["auto", "AUTO", "aUtO"] {
        assert!(is_auto_model(model));
        assert_eq!(codex_model(model), None);
        assert_eq!(resolve_model(model.to_string(), "big"), "big");
    }
    for model in ["", "aut", "autos", "äuto", "o4"] {
        assert_eq!(is_auto_model(model), model.eq_ignore_ascii_case("auto"));
        assert_eq!(codex_model(model), Some(model));
        assert_eq!(resolve_model(model.to_string(), "big"), model);
    }
}

#[test]
fn commit_is_the_default_command() {
    let Commands::Commit { language, force, dry_run, no_instructions, infer } =
        Commands::default()
    else {
        panic!("another command")
    };
    assert_eq!(language, "English");
    assert!(!force && !dry_run && !no_instructions && !infer);
}

#[test]
fn backend_is_chosen_once() {
    let mut chosen = None;
    assert_eq!(backend(&chosen), Backend::Codex);
    set_backend(&mut chosen, Backend::Claude);
    set_backend(&mut chosen, Backend::Codex);
    assert_eq!(backend(&chosen), Backend::Claude);
}
