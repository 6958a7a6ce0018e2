# jc

Decision logic of `jc`, a command-line companion for [Jujutsu](https://www.jj-vcs.dev/) workspaces
that asks a coding agent for commit messages and bookmark names, and folds the prompts a user sent
to agents into the messages.

The library in `src/` is verified with [Verus](https://github.com/verus-lang/verus): each function
states what it returns, and the laws that span functions are proof functions whose names begin with
`law_`. The program in `app/` does the work around it: arguments, files, the repository, and the
commands of the backends.

| Modules | What they are about |
| --- | --- |
| `tree`, `diff`, `tree_diff`, `globs`, `gitattributes`, `limits` | how two trees differ, and what a model is shown of it |
| `commit_message_generator`, `bookmark_generator`, `claude_client`, `codex_client` | what a model is asked, and what is made of its reply |
| `workflow`, `bookmark_run`, `bookmarks`, `workspace` | what the commands do, step by step |
| `prompt_input`, `prompt_entry`, `prompt_log`, `prompt_store`, `prompt_time`, `selection`, `instructions`, `install` | recording prompts, and folding them into messages |
| `report`, `styled`, `cli`, `config` | what users see and set |
| `text`, `json`, `paths` | strings, JSON documents and paths |

Calls into other crates stand behind functions marked `external_body`; the comment above each says
what is taken for granted of the call.
