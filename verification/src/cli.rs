//! The command line: its commands, their defaults and their help texts.

use vstd::prelude::*;

use crate::text::{ascii_lower, chars, opt_str};

verus! {

/// What the program does.
pub const JC_LONG_ABOUT: &'static str = "\
jc generates conventional commit messages and bookmark names for jj workspaces using an LLM backend.

With no subcommand, jc runs `commit`: it snapshots the working copy, compares the working-copy commit against its parent, asks the configured backend for a message, and creates a jj commit.

Use `jc <command> --help` for command-specific inputs, side effects, and examples.";

/// What follows the long help of the program, up to the name of the agent.
pub const JC_AFTER_LONG_HELP_HEAD: &'static str = "\
LLM QUICK REFERENCE:
  - Default action: `jc` is equivalent to `jc commit`.
  - Safe preview: add `--dry-run` to `commit`, `describe`, or `bookmark` to print the generated result without mutating the repo.
  - Workspace selection: use `-p <path>` when running from outside the jj workspace.
  - Backend/model: use `--backend codex|";

/// What follows the long help of the program, after the name of the agent.
pub const JC_AFTER_LONG_HELP_TAIL: &'static str = "\
`, `--model <model>`, or env vars `JC_BACKEND` and `JC_MODEL`.
  - Language: `commit` and `describe` accept `--language <name>` or `JC_LANGUAGE`.
  - Prompt capture: `jc add` records stdin for later commit messages; `jc install` adds the hook that runs it.
  - Prompt inclusion: recorded prompts are appended unless `--no-instructions` is used; `--infer` asks the LLM to keep only relevant prompts.
  - Output: successful mutating commands print a human summary; dry runs print only generated text or a bookmark name.

EXAMPLES:
  jc
  jc commit --dry-run
  jc describe --revision @- --dry-run
  jc bookmark --prefix feature --dry-run
  echo \"Refactor login flow\" | jc add -p /path/to/workspace";

/// What follows the long help of the program; `agent` is the name of the backend beside `codex`.
pub fn jc_after_long_help(agent: &str) -> (r: String)
    ensures
        r@ == JC_AFTER_LONG_HELP_HEAD@ + agent@ + JC_AFTER_LONG_HELP_TAIL@,
{
    JC_AFTER_LONG_HELP_HEAD.to_owned().concat(agent).concat(JC_AFTER_LONG_HELP_TAIL)
}

/// What `add` does.
pub const ADD_LONG_ABOUT: &'static str = "\
Record a user prompt for the current workspace.

The prompt is read from stdin and stored outside the repository. Later `jc commit` and `jc describe` can append recorded prompts as an \"AI Instructions\" section.";

/// What follows the long help of `add`.
pub const ADD_AFTER_LONG_HELP: &'static str = "\
INPUT:
  Accepts plain text, or a coding-agent hook payload as JSON. For JSON input, jc uses the first string field found among `prompt`, `user_prompt`, and `input`.

EXAMPLES:
  echo \"Add JWT authentication\" | jc add
  jc add -p /path/to/workspace < prompt.txt";

/// What `install` does, up to the name of the agent.
pub const INSTALL_LONG_ABOUT_HEAD: &'static str = "\
Install the UserPromptSubmit hook for this workspace.

jc writes or updates `.";

/// What `install` does, after the name of the agent.
pub const INSTALL_LONG_ABOUT_TAIL: &'static str = "\
/settings.local.json` so future prompts are passed to `jc add -p <workspace-root>` automatically. Existing unrelated settings and hooks are preserved.";

/// What `install` does; `agent` is the name of the agent whose settings it changes.
pub fn install_long_about(agent: &str) -> (r: String)
    ensures
        r@ == INSTALL_LONG_ABOUT_HEAD@ + agent@ + INSTALL_LONG_ABOUT_TAIL@,
{
    INSTALL_LONG_ABOUT_HEAD.to_owned().concat(agent).concat(INSTALL_LONG_ABOUT_TAIL)
}

/// What follows the long help of `install`, up to the name of the agent.
pub const INSTALL_AFTER_LONG_HELP_HEAD: &'static str = "\
BEHAVIOR:
  - Creates `.";

/// What follows the long help of `install`, after the name of the agent.
pub const INSTALL_AFTER_LONG_HELP_TAIL: &'static str = "\
/settings.local.json` if needed.
  - Re-running is idempotent.
  - If the workspace path changed, the existing jc hook is updated instead of duplicated.

EXAMPLES:
  jc install
  jc install -p /path/to/workspace";

/// What follows the long help of `install`; `agent` is the name of the agent whose settings it
/// changes.
pub fn install_after_long_help(agent: &str) -> (r: String)
    ensures
        r@ == INSTALL_AFTER_LONG_HELP_HEAD@ + agent@ + INSTALL_AFTER_LONG_HELP_TAIL@,
{
    INSTALL_AFTER_LONG_HELP_HEAD.to_owned().concat(agent).concat(INSTALL_AFTER_LONG_HELP_TAIL)
}

/// What `bookmark` does.
pub const BOOKMARK_LONG_ABOUT: &'static str = "\
Generate or move a jj bookmark for the current branch.

jc compares commit summaries in the `from..to` range. If a local bookmark already exists in that range, jc moves it to the target revision. Otherwise it asks the LLM for a new bookmark name and exports the resulting bookmark to git refs.";

/// What follows the long help of `bookmark`.
pub const BOOKMARK_AFTER_LONG_HELP: &'static str = "\
DEFAULTS:
  - `--from` tries develop, main, master, then trunk, preferring `<name>@origin` over local `<name>`.
  - `--to` defaults to `@`; if `@` is empty, jc uses `@-` as the bookmark target.

EXAMPLES:
  jc bookmark
  jc bookmark --dry-run
  jc bookmark --from main@origin --to @ --prefix feature
  jc b --prefix fix";

/// What `commit` does.
pub const COMMIT_LONG_ABOUT: &'static str = "\
Generate a commit message and create a jj commit.

jc snapshots the working copy, diffs the working-copy commit against its parent, asks the selected LLM backend for a conventional commit message, optionally appends recorded user prompts, and commits the current tree with that message.";

/// What follows the long help of `commit`.
pub const COMMIT_AFTER_LONG_HELP: &'static str = "\
BEHAVIOR:
  - This is the default command: `jc` is the same as `jc commit`.
  - If the working-copy commit already has a description, jc skips it unless `--force` is supplied.
  - `--dry-run` prints the generated commit message and creates no commit.
  - `--no-instructions` omits recorded prompts from the final message.
  - `--infer` passes recorded prompts to the LLM so only relevant prompts are quoted.

EXAMPLES:
  jc
  jc commit --dry-run
  jc commit --language Japanese
  jc c --force --no-instructions";

/// What `describe` does.
pub const DESCRIBE_LONG_ABOUT: &'static str = "\
Generate and set a jj commit description without creating a new commit.

jc resolves the requested revision, generates a message from its diff against the first parent, and rewrites that commit's description in place.";

/// What follows the long help of `describe`.
pub const DESCRIBE_AFTER_LONG_HELP: &'static str = "\
BEHAVIOR:
  - Defaults to `--revision @`.
  - When describing `@`, jc snapshots the working copy first.
  - Refuses to overwrite an existing description unless `--force` is supplied.
  - `--dry-run` prints the generated description and does not rewrite the commit.

EXAMPLES:
  jc describe
  jc describe --revision @- --dry-run
  jc d -r @ --force
  jc d --language Japanese";

/// What is asked for on the command line.
#[derive(Debug)]
pub enum Commands {
    /// Record a prompt.
    Add,
    /// Install the hook that records prompts.
    Install,
    /// Generate or move a bookmark.
    Bookmark { from: Option<String>, to: String, prefix: Option<String>, dry_run: bool },
    /// Generate a message and commit.
    Commit { language: String, force: bool, dry_run: bool, no_instructions: bool, infer: bool },
    /// Generate a message and describe a revision.
    Describe {
        revision: String,
        language: String,
        force: bool,
        dry_run: bool,
        no_instructions: bool,
        infer: bool,
    },
}

impl Default for Commands {
    /// What is done where no command is given: a commit with a message in English.
    fn default() -> (r: Self)
        ensures
            r matches Commands::Commit { language, force, dry_run, no_instructions, infer }
                && language@ == "English"@ && !force && !dry_run && !no_instructions && !infer,
    {
        Commands::Commit {
            language: "English".to_owned(),
            force: false,
            dry_run: false,
            no_instructions: false,
            infer: false,
        }
    }
}

/// Whether a model stands for the configured one: it is `auto`, in capital or small letters.
pub open spec fn is_auto(model: Seq<char>) -> bool {
    model.map_values(|c: char| ascii_lower(c)) == seq!['a', 'u', 't', 'o']
}

/// Whether a character is the small letter, or the capital one for it.
fn is_letter(c: char, lower: char, upper: char) -> (r: bool)
    requires
        'a' <= lower <= 'z',
        upper as u32 + 32 == lower as u32,
    ensures
        r == (ascii_lower(c) == lower),
{
    c == lower || c == upper
}

/// Whether a model stands for the configured one.
pub fn is_auto_model(model: &str) -> (r: bool)
    ensures
        r == is_auto(model@),
{
    let v = chars(model);
    let ghost lower = model@.map_values(|c: char| ascii_lower(c));
    if v.len() != 4 {
        assert(lower.len() != seq!['a', 'u', 't', 'o'].len());
        return false;
    }
    let r = is_letter(v[0], 'a', 'A') && is_letter(v[1], 'u', 'U') && is_letter(v[2], 't', 'T')
        && is_letter(v[3], 'o', 'O');
    proof {
        assert(lower[0] == ascii_lower(v@[0]) && lower[1] == ascii_lower(v@[1]) && lower[2] == ascii_lower(v@[2])
            && lower[3] == ascii_lower(v@[3]));
        let auto = seq!['a', 'u', 't', 'o'];
        if r {
            assert(lower =~= auto);
        } else {
            assert(lower[0] != auto[0] || lower[1] != auto[1] || lower[2] != auto[2] || lower[3]
                != auto[3]);
        }
    }
    r
}

/// A model is the configured one exactly where it reads `auto`, each letter capital or small.
pub proof fn law_auto_is_the_configured_model(model: Seq<char>)
    ensures
        is_auto(model) <==> {
            &&& model.len() == 4
            &&& model[0] == 'a' || model[0] == 'A'
            &&& model[1] == 'u' || model[1] == 'U'
            &&& model[2] == 't' || model[2] == 'T'
            &&& model[3] == 'o' || model[3] == 'O'
        },
{
    let lower = model.map_values(|c: char| ascii_lower(c));
    let auto = seq!['a', 'u', 't', 'o'];
    assert(auto.len() == 4);
    if model.len() == 4 {
        assert(lower[0] == ascii_lower(model[0]) && lower[1] == ascii_lower(model[1]));
        assert(lower[2] == ascii_lower(model[2]) && lower[3] == ascii_lower(model[3]));
        if lower[0] == 'a' && lower[1] == 'u' && lower[2] == 't' && lower[3] == 'o' {
            assert(lower =~= auto);
        } else {
            assert(lower[0] != auto[0] || lower[1] != auto[1] || lower[2] != auto[2] || lower[3]
                != auto[3]);
        }
    }
}

/// The model that the command of Codex is told to use: none where the model stands for the
/// configured one.
pub fn codex_model(model: &str) -> (r: Option<&str>)
    ensures
        opt_str(r) == if is_auto(model@) {
            None
        } else {
            Some(model@)
        },
{
    if is_auto_model(model) {
        None
    } else {
        Some(model)
    }
}

/// The model that is used.
pub fn resolve_model(model: String, default_model: &str) -> (r: String)
    ensures
        r@ == if is_auto(model@) {
            default_model@
        } else {
            model@
        },
{
    if is_auto_model(model.as_str()) {
        default_model.to_owned()
    } else {
        model
    }
}

} // verus!
