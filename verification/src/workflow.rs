//! What `commit` and `describe` do, step by step.
//!
//! A run alternates between decisions, which are made here, and work on the repository and with
//! the model, which is done outside: each step takes the outcome of the last piece of work and
//! gives the next one.

use vstd::prelude::*;

use crate::instructions::{
    instructed, law_nothing_is_appended_without_need, law_prompts_are_appended, quote,
};
use crate::prompt_entry::{entry_views, PromptEntry};
use crate::prompt_store::PromptStore;
use crate::prompt_time::{parent_commit_time, parent_time, prompts_after};
use crate::report::{short, short_id};
use crate::selection::{select_prompts, selected, split_reply, split_selection};
use crate::text::{copies, is_blank, join, lines, opt_text, same, trim, views};

verus! {

/// What a message is generated for.
pub enum Task<'a> {
    /// A new commit of the working copy.
    Commit,
    /// The description of a revision.
    Describe(&'a str),
}

/// A run of `commit` or `describe`.
pub struct MessageRun<'a> {
    pub task: Task<'a>,
    /// Whether a description may be overwritten.
    pub force: bool,
    /// Whether the message is only printed.
    pub dry_run: bool,
    /// Whether only those prompts are quoted that the model judges relevant.
    pub infer: bool,
    /// How recorded prompts are folded into the message.
    pub store: &'a PromptStore,
}

/// What a run waits for.
#[derive(Debug, Clone, Copy, PartialEq, Eq, Structural)]
pub enum Stage {
    /// The commit that the message is for.
    Loading,
    /// A snapshot of the working copy, or a look at its files.
    Snapshotting,
    /// The diff of the commit against its parent.
    Diffing,
    /// The message.
    Asking,
    /// Nothing.
    Finished,
}

/// The outcome of a piece of work.
pub enum Event<'a> {
    /// The commit was loaded: its identifier and its description.
    Loaded(&'a str, &'a str),
    /// A snapshot was taken, or the files were read.
    Snapshotted,
    /// The diff was made, or there is none, or that failed with a message. With it comes the
    /// identifier of the commit, and with a diff the files that it shows summaries of.
    Diffed(&'a str, Result<Option<(String, Vec<String>)>, String>),
    /// The model was asked: its message, where it gave one, and the prompts that belong to the
    /// change.
    Replied(Option<String>, Vec<String>),
}

/// A piece of work.
pub enum Action {
    /// The commit is loaded.
    Load,
    /// A snapshot of the working copy is taken: the repository is changed.
    Snapshot,
    /// The files of the working copy are read for the diff; the repository is not changed.
    Preview,
    /// The diff of the commit is made.
    Diff,
    /// The files that the diff shows summaries of are reported, and the model is asked for a
    /// message on the diff.
    Ask(String, Vec<String>),
    /// The repository is changed: the commit gets the message.
    Apply(String),
    /// The text is printed, and the run is over.
    Print(String),
    /// The run fails with the message.
    Fail(String),
    /// The run is over, and nothing was changed.
    Skip,
}

// ---------------------------------------------------------------------------
// Model
// ---------------------------------------------------------------------------

/// What an action is.
pub enum ActionView {
    Load,
    Snapshot,
    Preview,
    Diff,
    Ask(Seq<char>, Seq<Seq<char>>),
    Apply(Seq<char>),
    Print(Seq<char>),
    Fail(Seq<char>),
    Skip,
}

pub open spec fn action_view(action: Action) -> ActionView {
    match action {
        Action::Load => ActionView::Load,
        Action::Snapshot => ActionView::Snapshot,
        Action::Preview => ActionView::Preview,
        Action::Diff => ActionView::Diff,
        Action::Ask(diff, collapsed) => ActionView::Ask(diff@, views(collapsed@)),
        Action::Apply(text) => ActionView::Apply(text@),
        Action::Print(text) => ActionView::Print(text@),
        Action::Fail(text) => ActionView::Fail(text@),
        Action::Skip => ActionView::Skip,
    }
}

/// What is said where `describe` refuses to overwrite a description.
pub open spec fn refusal(id: Seq<char>) -> Seq<char> {
    "Revision "@ + short(id)
        + " already has a description; refusing to overwrite. Use --force to overwrite, or `jj describe` to edit it manually."@
}

/// What is said where nothing changed.
pub open spec fn nothing_to_do(task: Task<'_>, id: Seq<char>) -> Seq<char> {
    match task {
        Task::Commit => "No changes detected, nothing to commit"@,
        Task::Describe(_) => "No changes in revision "@ + short(id) + ", nothing to describe"@,
    }
}

impl<'a> MessageRun<'a> {
    /// How the files of the working copy get into the diff: by a snapshot, or in a dry run without
    /// one.
    pub open spec fn take_files(self) -> (Stage, ActionView) {
        if self.dry_run {
            (Stage::Snapshotting, ActionView::Preview)
        } else {
            (Stage::Snapshotting, ActionView::Snapshot)
        }
    }

    /// How a run begins: `describe` takes the files first where it is about the working copy.
    pub open spec fn first(self) -> (Stage, ActionView) {
        match self.task {
            Task::Commit => (Stage::Loading, ActionView::Load),
            Task::Describe(revision) => if revision@ == "@"@ {
                self.take_files()
            } else {
                (Stage::Loading, ActionView::Load)
            },
        }
    }

    /// What comes after the commit: a description that there is stays, unless it may be
    /// overwritten. A new commit is made from the files of the working copy.
    pub open spec fn after_load(self, id: Seq<char>, description: Seq<char>) -> (
        Stage,
        ActionView,
    ) {
        match self.task {
            Task::Commit => if description.len() > 0 && !self.force {
                (Stage::Finished, ActionView::Skip)
            } else {
                self.take_files()
            },
            Task::Describe(_) => if trim(description).len() > 0 && !self.force {
                (Stage::Finished, ActionView::Fail(refusal(id)))
            } else {
                (Stage::Diffing, ActionView::Diff)
            },
        }
    }

    /// What comes after the files of the working copy.
    pub open spec fn after_snapshot(self) -> (Stage, ActionView) {
        match self.task {
            Task::Commit => (Stage::Diffing, ActionView::Diff),
            Task::Describe(_) => (Stage::Loading, ActionView::Load),
        }
    }

    /// What comes after the diff.
    pub open spec fn after_diff(
        self,
        id: Seq<char>,
        diff: Result<Option<(String, Vec<String>)>, String>,
    ) -> (Stage, ActionView) {
        match diff {
            Ok(Some((text, collapsed))) => (
                Stage::Asking,
                ActionView::Ask(text@, views(collapsed@)),
            ),
            Ok(None) => (Stage::Finished, ActionView::Print(nothing_to_do(self.task, id))),
            Err(message) => (Stage::Finished, ActionView::Fail(message@)),
        }
    }

    /// The message in a reply, with the prompts folded into it: all of them, or those that the
    /// reply names where the model was to judge.
    pub open spec fn message_of(self, reply: Seq<char>, prompts: Seq<Seq<char>>) -> Seq<char> {
        if self.infer && prompts.len() > 0 {
            let (message, selection) = split_reply(reply, prompts.len());
            instructed(message, self.store.heading@, selected(prompts, selection))
        } else {
            instructed(reply, self.store.heading@, prompts)
        }
    }

    /// What comes after the reply: the prompts are folded into the message, and it is printed or
    /// applied.
    pub open spec fn after_reply(self, generated: Option<Seq<char>>, prompts: Seq<Seq<char>>) -> (
        Stage,
        ActionView,
    ) {
        match generated {
            Some(reply) => {
                let text = self.message_of(reply, prompts);
                if self.dry_run {
                    (Stage::Finished, ActionView::Print(text))
                } else {
                    (Stage::Finished, ActionView::Apply(text))
                }
            },
            None => (Stage::Finished, ActionView::Fail("Failed to generate commit message"@)),
        }
    }

    /// What comes after an event. One that the run does not wait for ends it.
    pub open spec fn next(self, stage: Stage, event: Event<'_>) -> (Stage, ActionView) {
        match (stage, event) {
            (Stage::Loading, Event::Loaded(id, description)) => self.after_load(
                id@,
                description@,
            ),
            (Stage::Snapshotting, Event::Snapshotted) => self.after_snapshot(),
            (Stage::Diffing, Event::Diffed(id, diff)) => self.after_diff(id@, diff),
            (Stage::Asking, Event::Replied(generated, prompts)) => self.after_reply(
                opt_text(generated),
                views(prompts@),
            ),
            _ => (Stage::Finished, ActionView::Skip),
        }
    }

    /// How many steps a run can still take.
    pub open spec fn steps_left(self, stage: Stage) -> nat {
        match stage {
            Stage::Loading => if self.task is Commit {
                4
            } else {
                3
            },
            Stage::Snapshotting => if self.task is Commit {
                3
            } else {
                4
            },
            Stage::Diffing => 2,
            Stage::Asking => 1,
            Stage::Finished => 0,
        }
    }
}

// ---------------------------------------------------------------------------
// Laws
// ---------------------------------------------------------------------------

/// A dry run never changes the repository: it takes no snapshot and applies no message.
pub proof fn law_dry_run_changes_nothing(run: MessageRun<'_>, stage: Stage, event: Event<'_>)
    requires
        run.dry_run,
    ensures
        !(run.first().1 is Snapshot) && !(run.first().1 is Apply),
        !(run.next(stage, event).1 is Snapshot) && !(run.next(stage, event).1 is Apply),
{
}

/// A message is applied only at the end of a run, and only one that was generated, into which the
/// prompts were folded.
pub proof fn law_only_generated_messages_are_applied(
    run: MessageRun<'_>,
    stage: Stage,
    event: Event<'_>,
)
    requires
        run.next(stage, event).1 is Apply,
    ensures
        run.next(stage, event).0 == Stage::Finished,
        event matches Event::Replied(Some(reply), prompts) && run.next(stage, event).1
            == ActionView::Apply(run.message_of(reply@, views(prompts@))),
{
}

/// Unless it may be overwritten, a description that is not blank ends the run before the model is
/// asked.
pub proof fn law_descriptions_are_kept(
    run: MessageRun<'_>,
    stage: Stage,
    id: &str,
    description: &str,
)
    requires
        !run.force,
        trim(description@).len() > 0,
    ensures
        run.next(stage, Event::Loaded(id, description)).0 == Stage::Finished,
        !(run.next(stage, Event::Loaded(id, description)).1 is Apply),
{
    if description@.len() == 0 {
        assert(trim(description@) == description@);
    }
}

/// Every run ends: each step leaves fewer steps.
pub proof fn law_runs_end(run: MessageRun<'_>, stage: Stage, event: Event<'_>)
    requires
        stage != Stage::Finished,
    ensures
        run.steps_left(run.next(stage, event).0) < run.steps_left(stage),
{
}

/// For every task: where the model was not to judge, there are prompts, and no line of the reply is
/// the heading, the text that is printed or applied is the reply without the line ends after it, a
/// blank line, the heading, and the quoted prompts in their order.
pub proof fn law_prompts_are_folded_into_the_message(
    run: MessageRun<'_>,
    reply: String,
    prompts: Vec<String>,
    base: Seq<char>,
    ends: Seq<char>,
)
    requires
        !run.infer,
        prompts@.len() > 0,
        reply@ == base + ends,
        base.len() > 0 && base.last() != '\n' && base.last() != '\r',
        forall|i: int| 0 <= i < ends.len() ==> #[trigger] ends[i] == '\n' || ends[i] == '\r',
        forall|i: int|
            0 <= i < lines(reply@).len() ==> trim(#[trigger] lines(reply@)[i]) != trim(
                run.store.heading@ + ":"@,
            ),
    ensures
        ({
            let text = base + "\n\n"@ + run.store.heading@ + ":\n"@ + join(
                prompts@.map_values(|prompt: String| quote(prompt@)),
                "\n"@,
            );
            run.next(Stage::Asking, Event::Replied(Some(reply), prompts)) == (
                Stage::Finished,
                if run.dry_run {
                    ActionView::Print(text)
                } else {
                    ActionView::Apply(text)
                },
            )
        }),
{
    law_prompts_are_appended(base, ends, run.store.heading@, views(prompts@));
    assert(views(prompts@).map_values(|prompt: Seq<char>| quote(prompt)) =~= prompts@.map_values(
        |prompt: String| quote(prompt@),
    ));
}

/// A reply stays as it is where there are no prompts, or where one of its lines is the heading.
pub proof fn law_messages_without_prompts_stay(
    run: MessageRun<'_>,
    reply: String,
    prompts: Vec<String>,
)
    requires
        prompts@.len() == 0 || (!run.infer && exists|i: int|
            0 <= i < lines(reply@).len() && trim(#[trigger] lines(reply@)[i]) == trim(
                run.store.heading@ + ":"@,
            )),
    ensures
        run.next(Stage::Asking, Event::Replied(Some(reply), prompts)) == (
            Stage::Finished,
            if run.dry_run {
                ActionView::Print(reply@)
            } else {
                ActionView::Apply(reply@)
            },
        ),
{
    law_nothing_is_appended_without_need(reply@, run.store.heading@, views(prompts@));
}

/// Where the model was to judge, its selection is taken off the reply, and only the prompts that it
/// selects are folded into what is left, as if nobody had judged.
pub proof fn law_judged_prompts_are_folded_into_the_message(
    run: MessageRun<'_>,
    plain: MessageRun<'_>,
    reply: String,
    prompts: Vec<String>,
    message: String,
    quoted: Vec<String>,
)
    requires
        run.infer,
        !plain.infer,
        plain.dry_run == run.dry_run,
        plain.store.heading@ == run.store.heading@,
        prompts@.len() > 0,
        split_reply(reply@, prompts@.len()).0 == message@,
        views(quoted@) == selected(
            views(prompts@),
            split_reply(reply@, prompts@.len()).1,
        ),
    ensures
        run.next(Stage::Asking, Event::Replied(Some(reply), prompts)) == plain.next(
            Stage::Asking,
            Event::Replied(Some(message), quoted),
        ),
{
}

/// What becomes of a reply does not depend on whether a commit is made or a revision described.
pub proof fn law_the_task_does_not_change_the_message(
    run: MessageRun<'_>,
    other: MessageRun<'_>,
    reply: Option<String>,
    prompts: Vec<String>,
)
    requires
        run.infer == other.infer,
        run.dry_run == other.dry_run,
        run.store.heading@ == other.store.heading@,
    ensures
        run.next(Stage::Asking, Event::Replied(reply, prompts)) == other.next(
            Stage::Asking,
            Event::Replied(reply, prompts),
        ),
        reply is None ==> run.next(Stage::Asking, Event::Replied(reply, prompts)) == (
            Stage::Finished,
            ActionView::Fail("Failed to generate commit message"@),
        ),
{
}

/// A commit is loaded, then the files are taken up, then the diff is made, and then the model is
/// asked with it. A description that is there is left alone unless it may be overwritten.
pub proof fn law_steps_of_a_commit(run: MessageRun<'_>, id: &str, description: &str)
    requires
        run.task is Commit,
    ensures
        run.first() == (Stage::Loading, ActionView::Load),
        run.next(Stage::Loading, Event::Loaded(id, description)) == if description@.len() > 0
            && !run.force {
            (Stage::Finished, ActionView::Skip)
        } else if run.dry_run {
            (Stage::Snapshotting, ActionView::Preview)
        } else {
            (Stage::Snapshotting, ActionView::Snapshot)
        },
        run.next(Stage::Snapshotting, Event::Snapshotted) == (Stage::Diffing, ActionView::Diff),
        run.next(Stage::Diffing, Event::Diffed(id, Ok(None))) == (
            Stage::Finished,
            ActionView::Print("No changes detected, nothing to commit"@),
        ),
{
}

/// A description of the working copy begins with its files; then, and for any other revision, the
/// commit is loaded, the diff made, and the model asked with it. A description that is not blank is
/// refused unless it may be overwritten.
pub proof fn law_steps_of_a_description(
    run: MessageRun<'_>,
    revision: &str,
    id: &str,
    description: &str,
)
    requires
        run.task == Task::Describe(revision),
    ensures
        run.first() == if revision@ != "@"@ {
            (Stage::Loading, ActionView::Load)
        } else if run.dry_run {
            (Stage::Snapshotting, ActionView::Preview)
        } else {
            (Stage::Snapshotting, ActionView::Snapshot)
        },
        run.next(Stage::Snapshotting, Event::Snapshotted) == (Stage::Loading, ActionView::Load),
        run.next(Stage::Loading, Event::Loaded(id, description)) == if trim(description@).len() > 0
            && !run.force {
            (
                Stage::Finished,
                ActionView::Fail(
                    "Revision "@ + short(id@)
                        + " already has a description; refusing to overwrite. Use --force to overwrite, or `jj describe` to edit it manually."@,
                ),
            )
        } else {
            (Stage::Diffing, ActionView::Diff)
        },
        run.next(Stage::Diffing, Event::Diffed(id, Ok(None))) == (
            Stage::Finished,
            ActionView::Print("No changes in revision "@ + short(id@) + ", nothing to describe"@),
        ),
{
}

/// What is said of an action is said of its whole text.
pub proof fn law_actions_are_seen_whole(text: String, list: Vec<String>)
    ensures
        action_view(Action::Load) is Load,
        action_view(Action::Snapshot) is Snapshot,
        action_view(Action::Preview) is Preview,
        action_view(Action::Diff) is Diff,
        action_view(Action::Skip) is Skip,
        action_view(Action::Ask(text, list)) == ActionView::Ask(text@, views(list@)),
        action_view(Action::Apply(text)) == ActionView::Apply(text@),
        action_view(Action::Print(text)) == ActionView::Print(text@),
        action_view(Action::Fail(text)) == ActionView::Fail(text@),
{
}

/// An event that the run does not wait for ends it, and changes nothing.
pub proof fn law_unexpected_events_end_the_run(run: MessageRun<'_>, stage: Stage, event: Event<'_>)
    requires
        !(stage == Stage::Loading && event is Loaded),
        !(stage == Stage::Snapshotting && event is Snapshotted),
        !(stage == Stage::Diffing && event is Diffed),
        !(stage == Stage::Asking && event is Replied),
    ensures
        run.next(stage, event) == (Stage::Finished, ActionView::Skip),
{
}

/// The model is asked with the diff as it was made, and the files that it shows summaries of are
/// handed on; a diff that could not be made ends the run with its message.
pub proof fn law_the_model_is_asked_with_the_diff(
    run: MessageRun<'_>,
    id: &str,
    diff: String,
    collapsed: Vec<String>,
    message: String,
)
    ensures
        run.next(Stage::Diffing, Event::Diffed(id, Ok(Some((diff, collapsed))))) == (
            Stage::Asking,
            ActionView::Ask(diff@, views(collapsed@)),
        ),
        run.next(Stage::Diffing, Event::Diffed(id, Err(message))) == (
            Stage::Finished,
            ActionView::Fail(message@),
        ),
{
}

// ---------------------------------------------------------------------------
// Steps
// ---------------------------------------------------------------------------

impl<'a> MessageRun<'a> {
    /// How the files of the working copy get into the diff.
    fn taking_files(&self) -> (r: (Stage, Action))
        ensures
            (r.0, action_view(r.1)) == self.take_files(),
    {
        if self.dry_run {
            (Stage::Snapshotting, Action::Preview)
        } else {
            (Stage::Snapshotting, Action::Snapshot)
        }
    }

    /// How a run begins.
    pub fn start(&self) -> (r: (Stage, Action))
        ensures
            (r.0, action_view(r.1)) == self.first(),
    {
        match self.task {
            Task::Commit => (Stage::Loading, Action::Load),
            Task::Describe(revision) => if same(revision, "@") {
                self.taking_files()
            } else {
                (Stage::Loading, Action::Load)
            },
        }
    }

    /// What comes after the commit was loaded.
    fn loaded(&self, id: &str, description: &str) -> (r: (Stage, Action))
        ensures
            (r.0, action_view(r.1)) == self.after_load(id@, description@),
    {
        match self.task {
            Task::Commit => if !description.is_empty() && !self.force {
                (Stage::Finished, Action::Skip)
            } else {
                self.taking_files()
            },
            Task::Describe(_) => if !is_blank(description) && !self.force {
                let message = "Revision ".to_owned().concat(short_id(id).as_str()).concat(
                    " already has a description; refusing to overwrite. Use --force to overwrite, or `jj describe` to edit it manually.",
                );
                (Stage::Finished, Action::Fail(message))
            } else {
                (Stage::Diffing, Action::Diff)
            },
        }
    }

    /// What comes after the diff.
    fn diffed(&self, id: &str, diff: Result<Option<(String, Vec<String>)>, String>) -> (r: (
        Stage,
        Action,
    ))
        ensures
            (r.0, action_view(r.1)) == self.after_diff(id@, diff),
    {
        match diff {
            Ok(Some((text, collapsed))) => (Stage::Asking, Action::Ask(text, collapsed)),
            Ok(None) => {
                let message = match self.task {
                    Task::Commit => "No changes detected, nothing to commit".to_owned(),
                    Task::Describe(_) => "No changes in revision ".to_owned().concat(
                        short_id(id).as_str(),
                    ).concat(", nothing to describe"),
                };
                (Stage::Finished, Action::Print(message))
            },
            Err(message) => (Stage::Finished, Action::Fail(message)),
        }
    }

    /// The message in a reply, with the prompts folded into it.
    fn message(&self, reply: &str, prompts: Vec<String>) -> (r: String)
        ensures
            r@ == self.message_of(reply@, views(prompts@)),
    {
        assert(views(prompts@).len() == prompts@.len());
        if self.infer && prompts.len() > 0 {
            let (message, selection) = split_selection(reply, prompts.len());
            let quoted = select_prompts(prompts, selection);
            self.store.append_instructions(message.as_str(), quoted.as_slice())
        } else {
            self.store.append_instructions(reply, prompts.as_slice())
        }
    }

    /// What comes after the reply.
    fn replied(&self, generated: Option<String>, prompts: Vec<String>) -> (r: (Stage, Action))
        ensures
            (r.0, action_view(r.1)) == self.after_reply(
                opt_text(generated),
                views(prompts@),
            ),
    {
        match generated {
            Some(reply) => {
                let text = self.message(reply.as_str(), prompts);
                if self.dry_run {
                    (Stage::Finished, Action::Print(text))
                } else {
                    (Stage::Finished, Action::Apply(text))
                }
            },
            None => (
                Stage::Finished,
                Action::Fail("Failed to generate commit message".to_owned()),
            ),
        }
    }

    /// What comes after an event. One that the run does not wait for ends it.
    pub fn step(&self, stage: Stage, event: Event<'_>) -> (r: (Stage, Action))
        ensures
            (r.0, action_view(r.1)) == self.next(stage, event),
    {
        match (stage, event) {
            (Stage::Loading, Event::Loaded(id, description)) => self.loaded(id, description),
            (Stage::Snapshotting, Event::Snapshotted) => match self.task {
                Task::Commit => (Stage::Diffing, Action::Diff),
                Task::Describe(_) => (Stage::Loading, Action::Load),
            },
            (Stage::Diffing, Event::Diffed(id, diff)) => self.diffed(id, diff),
            (Stage::Asking, Event::Replied(generated, prompts)) => self.replied(
                generated,
                prompts,
            ),
            _ => (Stage::Finished, Action::Skip),
        }
    }
}

// ---------------------------------------------------------------------------
// Prompts
// ---------------------------------------------------------------------------

/// The recorded prompts that belong to a change whose first parent was committed at this time:
/// none where they are not wanted or could not be read.
pub fn load_prompts(
    no_instructions: bool,
    log: Option<&Vec<PromptEntry>>,
    parent_millis: Option<i64>,
) -> (r: Vec<String>)
    ensures
        views(r@) == match log {
            Some(entries) => if no_instructions {
                seq![]
            } else {
                prompts_after(entry_views(entries@), parent_time(parent_millis))
            },
            None => seq![],
        },
{
    let nothing: Vec<String> = Vec::new();
    assert(views(nothing@) =~= seq![]);
    match log {
        Some(entries) => if no_instructions {
            nothing
        } else {
            PromptStore::prompts_since(entries, parent_commit_time(parent_millis))
        },
        None => nothing,
    }
}

/// The prompts that the model is handed to judge the relevance of.
pub fn instruction_prompts(infer: bool, prompts: &Vec<String>) -> (r: Vec<String>)
    ensures
        views(r@) == if infer {
            views(prompts@)
        } else {
            seq![]
        },
{
    if infer {
        copies(prompts.as_slice())
    } else {
        let nothing: Vec<String> = Vec::new();
        assert(views(nothing@) =~= seq![]);
        nothing
    }
}

/// How the operation that describes a commit is described.
pub fn describe_operation(id: &str) -> (r: String)
    ensures
        r@ == "describe revision "@ + short(id@) + " via jc"@,
{
    "describe revision ".to_owned().concat(short_id(id).as_str()).concat(" via jc")
}

} // verus!
