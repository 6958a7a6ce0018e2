//! Which backend answers, and how it is configured.

use vstd::prelude::*;

verus! {

/// The command-line tool that answers prompts.
#[derive(Debug, Clone, Copy, PartialEq, Eq, Structural)]
pub enum Backend {
    Claude,
    Codex,
}

/// Chooses the backend, once: a choice that was made stays.
pub fn set_backend(chosen: &mut Option<Backend>, backend: Backend)
    ensures
        *final(chosen) == match *old(chosen) {
            Some(earlier) => Some(earlier),
            None => Some(backend),
        },
{
    if chosen.is_none() {
        *chosen = Some(backend);
    }
}

/// The backend that was chosen, or `Codex`.
pub fn backend(chosen: &Option<Backend>) -> (r: Backend)
    ensures
        r == match *chosen {
            Some(backend) => backend,
            None => Backend::Codex,
        },
{
    match *chosen {
        Some(backend) => backend,
        None => Backend::Codex,
    }
}

/// The configuration of a backend.
pub struct Config {
    pub prompt: PromptConfig,
    pub generator: GeneratorConfig,
    pub bookmark: BookmarkConfig,
    pub diff: DiffConfig,
}

/// How a commit message is asked for: `{language}` and `{diff_content}` are filled in.
pub struct PromptConfig {
    pub template: String,
}

/// How the backend is called.
pub struct GeneratorConfig {
    pub command: String,
    pub args: Vec<String>,
    pub default_model: String,
    pub default_commit_message: String,
}

/// How a bookmark name is asked for: `{commit_summaries}` is filled in.
pub struct BookmarkConfig {
    pub prompt_template: String,
}

/// Which files a diff shows as one-line summaries only, and how large it may be.
pub struct DiffConfig {
    pub collapse_patterns: Vec<String>,
    pub max_diff_lines: usize,
    pub max_diff_bytes: usize,
    pub max_total_diff_lines: usize,
    pub max_total_diff_bytes: usize,
}

} // verus!
