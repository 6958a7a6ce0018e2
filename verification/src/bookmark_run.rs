//! What `bookmark` does, step by step.

use vstd::prelude::*;

use crate::text::opt_str;

verus! {

/// A name below a prefix.
pub open spec fn below(prefix: Seq<char>, name: Seq<char>) -> Seq<char> {
    prefix + "/"@ + name
}

/// The name of a new bookmark.
pub open spec fn new_name(name: Seq<char>, prefix: Option<Seq<char>>) -> Seq<char> {
    match prefix {
        Some(p) => below(p, name),
        None => name,
    }
}

/// A run of `bookmark` on the range of the commits after `from` up to `to`.
pub struct BookmarkRun<'a> {
    pub from: &'a str,
    pub to: &'a str,
    /// What is put before a name that is generated.
    pub prefix: Option<&'a str>,
    /// Whether the name is only printed.
    pub dry_run: bool,
}

/// What a run waits for.
#[derive(Debug, Clone, Copy, PartialEq, Eq, Structural)]
pub enum BookmarkStage {
    /// A bookmark that points into the range.
    Searching,
    /// The summaries of the commits.
    Summarizing,
    /// A name.
    Naming,
    /// The bookmark to be set; whether it is one that was found in the range.
    Applying(bool),
    /// Nothing.
    Finished,
}

/// The outcome of a piece of work.
pub enum BookmarkEvent<'a> {
    /// The bookmark that points into the range, where there is one.
    Searched(Option<&'a str>),
    /// The summaries of the commits of the range.
    Summarized(String),
    /// The name that was generated, where there is one.
    Named(Option<&'a str>),
    /// The bookmark was set; whether there was one of that name before.
    Applied(bool),
}

/// A piece of work.
pub enum BookmarkAction {
    /// The commits of the range are summarized.
    Summarize,
    /// The model is asked for a name for the commits with these summaries.
    Ask(String),
    /// The bookmark with this name is set to the target.
    Apply(String),
    /// The name is printed, and the run is over.
    Print(String),
    /// The user is told that the bookmark was moved, or created, and the run is over.
    Report(bool),
    /// The run fails with the message.
    Fail(String),
    /// The run is over.
    Stop,
}

/// What an action is.
pub enum BookmarkActionView {
    Summarize,
    Ask(Seq<char>),
    Apply(Seq<char>),
    Print(Seq<char>),
    Report(bool),
    Fail(Seq<char>),
    Stop,
}

pub open spec fn action_view(action: BookmarkAction) -> BookmarkActionView {
    match action {
        BookmarkAction::Summarize => BookmarkActionView::Summarize,
        BookmarkAction::Ask(text) => BookmarkActionView::Ask(text@),
        BookmarkAction::Apply(text) => BookmarkActionView::Apply(text@),
        BookmarkAction::Print(text) => BookmarkActionView::Print(text@),
        BookmarkAction::Report(moved) => BookmarkActionView::Report(moved),
        BookmarkAction::Fail(text) => BookmarkActionView::Fail(text@),
        BookmarkAction::Stop => BookmarkActionView::Stop,
    }
}

impl<'a> BookmarkRun<'a> {
    /// What is done with the name of the bookmark: a dry run prints it.
    pub open spec fn with_name(self, name: Seq<char>, kept: bool) -> (
        BookmarkStage,
        BookmarkActionView,
    ) {
        if self.dry_run {
            (BookmarkStage::Finished, BookmarkActionView::Print(name))
        } else {
            (BookmarkStage::Applying(kept), BookmarkActionView::Apply(name))
        }
    }

    /// What comes after an event: a bookmark in the range is moved under its own name; else the
    /// commits are summarized, and a name is generated. An event that the run does not wait for
    /// ends it.
    pub open spec fn next(self, stage: BookmarkStage, event: BookmarkEvent<'_>) -> (
        BookmarkStage,
        BookmarkActionView,
    ) {
        match (stage, event) {
            (BookmarkStage::Searching, BookmarkEvent::Searched(Some(name))) => self.with_name(
                name@,
                true,
            ),
            (BookmarkStage::Searching, BookmarkEvent::Searched(None)) => (
                BookmarkStage::Summarizing,
                BookmarkActionView::Summarize,
            ),
            (BookmarkStage::Summarizing, BookmarkEvent::Summarized(summaries)) => if summaries@.len()
                > 0 {
                (BookmarkStage::Naming, BookmarkActionView::Ask(summaries@))
            } else {
                (
                    BookmarkStage::Finished,
                    BookmarkActionView::Fail(
                        "No commits found between "@ + self.from@ + " and "@ + self.to@,
                    ),
                )
            },
            (BookmarkStage::Naming, BookmarkEvent::Named(Some(name))) => self.with_name(
                new_name(name@, opt_str(self.prefix)),
                false,
            ),
            (BookmarkStage::Naming, BookmarkEvent::Named(None)) => (
                BookmarkStage::Finished,
                BookmarkActionView::Fail("Failed to generate bookmark name"@),
            ),
            (BookmarkStage::Applying(kept), BookmarkEvent::Applied(existed)) => (
                BookmarkStage::Finished,
                BookmarkActionView::Report(kept && existed),
            ),
            _ => (BookmarkStage::Finished, BookmarkActionView::Stop),
        }
    }

    /// How many steps a run can still take.
    pub open spec fn steps_left(self, stage: BookmarkStage) -> nat {
        match stage {
            BookmarkStage::Searching => 4,
            BookmarkStage::Summarizing => 3,
            BookmarkStage::Naming => 2,
            BookmarkStage::Applying(_) => 1,
            BookmarkStage::Finished => 0,
        }
    }
}

/// A dry run never sets a bookmark.
pub proof fn law_dry_run_sets_nothing(
    run: BookmarkRun<'_>,
    stage: BookmarkStage,
    event: BookmarkEvent<'_>,
)
    requires
        run.dry_run,
    ensures
        !(run.next(stage, event).1 is Apply),
{
}

/// A bookmark that points into the range keeps its name, whatever the prefix. The model is asked
/// for a name only where there is none and there is something to summarize.
pub proof fn law_existing_bookmarks_are_kept(
    run: BookmarkRun<'_>,
    stage: BookmarkStage,
    event: BookmarkEvent<'_>,
)
    ensures
        stage == BookmarkStage::Searching ==> (event matches BookmarkEvent::Searched(Some(name))
            ==> run.next(stage, event).1 == if run.dry_run {
            BookmarkActionView::Print(name@)
        } else {
            BookmarkActionView::Apply(name@)
        }),
        run.next(stage, event).1 is Ask ==> stage == BookmarkStage::Summarizing,
        run.next(stage, event).0 == BookmarkStage::Summarizing ==> event matches BookmarkEvent::Searched(
            None,
        ),
        run.next(stage, event).1 matches BookmarkActionView::Ask(summaries) ==> summaries.len() > 0,
{
}

/// A name that was generated is put below the prefix, where there is one, with a slash between, and
/// is printed or set; without a name the run fails.
pub proof fn law_generated_names_get_the_prefix(run: BookmarkRun<'_>, name: &str)
    ensures
        ({
            let full = match run.prefix {
                Some(prefix) => prefix@ + "/"@ + name@,
                None => name@,
            };
            run.next(BookmarkStage::Naming, BookmarkEvent::Named(Some(name))) == if run.dry_run {
                (BookmarkStage::Finished, BookmarkActionView::Print(full))
            } else {
                (BookmarkStage::Applying(false), BookmarkActionView::Apply(full))
            }
        }),
        run.next(BookmarkStage::Naming, BookmarkEvent::Named(None)) == (
            BookmarkStage::Finished,
            BookmarkActionView::Fail("Failed to generate bookmark name"@),
        ),
{
}

/// A bookmark that is found is printed, or set and remembered as found; without one the commits are
/// summarized. The model is asked with all the summaries, and the run fails where there are none.
pub proof fn law_steps_of_a_bookmark(run: BookmarkRun<'_>, name: &str, summaries: String)
    ensures
        run.next(BookmarkStage::Searching, BookmarkEvent::Searched(Some(name))) == if run.dry_run {
            (BookmarkStage::Finished, BookmarkActionView::Print(name@))
        } else {
            (BookmarkStage::Applying(true), BookmarkActionView::Apply(name@))
        },
        run.next(BookmarkStage::Searching, BookmarkEvent::Searched(None)) == (
            BookmarkStage::Summarizing,
            BookmarkActionView::Summarize,
        ),
        run.next(BookmarkStage::Summarizing, BookmarkEvent::Summarized(summaries)) == if summaries@.len()
            > 0 {
            (BookmarkStage::Naming, BookmarkActionView::Ask(summaries@))
        } else {
            (
                BookmarkStage::Finished,
                BookmarkActionView::Fail(
                    "No commits found between "@ + run.from@ + " and "@ + run.to@,
                ),
            )
        },
{
}

/// What is said of an action is said of its whole text.
pub proof fn law_bookmark_actions_are_seen_whole(text: String, moved: bool)
    ensures
        action_view(BookmarkAction::Summarize) is Summarize,
        action_view(BookmarkAction::Stop) is Stop,
        action_view(BookmarkAction::Ask(text)) == BookmarkActionView::Ask(text@),
        action_view(BookmarkAction::Apply(text)) == BookmarkActionView::Apply(text@),
        action_view(BookmarkAction::Print(text)) == BookmarkActionView::Print(text@),
        action_view(BookmarkAction::Fail(text)) == BookmarkActionView::Fail(text@),
        action_view(BookmarkAction::Report(moved)) == BookmarkActionView::Report(moved),
{
}

/// An event that the run does not wait for ends it.
pub proof fn law_unexpected_bookmark_events_end_the_run(
    run: BookmarkRun<'_>,
    stage: BookmarkStage,
    event: BookmarkEvent<'_>,
)
    requires
        !(stage == BookmarkStage::Searching && event is Searched),
        !(stage == BookmarkStage::Summarizing && event is Summarized),
        !(stage == BookmarkStage::Naming && event is Named),
        !(stage is Applying && event is Applied),
    ensures
        run.next(stage, event) == (BookmarkStage::Finished, BookmarkActionView::Stop),
{
}

/// A bookmark counts as moved where it was found in the range and was there before, and else as
/// created.
pub proof fn law_moved_bookmarks_are_told_from_new_ones(
    run: BookmarkRun<'_>,
    found: bool,
    existed: bool,
)
    ensures
        run.next(BookmarkStage::Applying(found), BookmarkEvent::Applied(existed)) == (
            BookmarkStage::Finished,
            BookmarkActionView::Report(found && existed),
        ),
{
}

/// Every run ends: each step leaves fewer steps.
pub proof fn law_bookmark_runs_end(
    run: BookmarkRun<'_>,
    stage: BookmarkStage,
    event: BookmarkEvent<'_>,
)
    requires
        stage != BookmarkStage::Finished,
    ensures
        run.steps_left(run.next(stage, event).0) < run.steps_left(stage),
{
}

impl<'a> BookmarkRun<'a> {
    /// What is done with the name of the bookmark.
    fn named(&self, name: String, kept: bool) -> (r: (BookmarkStage, BookmarkAction))
        ensures
            (r.0, action_view(r.1)) == self.with_name(name@, kept),
    {
        if self.dry_run {
            (BookmarkStage::Finished, BookmarkAction::Print(name))
        } else {
            (BookmarkStage::Applying(kept), BookmarkAction::Apply(name))
        }
    }

    /// The name of a new bookmark.
    fn created(&self, name: &str) -> (r: String)
        ensures
            r@ == new_name(name@, opt_str(self.prefix)),
    {
        match self.prefix {
            Some(p) => p.to_owned().concat("/").concat(name),
            None => name.to_owned(),
        }
    }

    /// What comes after an event. A run begins with the search; an event that it does not wait for
    /// ends it.
    pub fn step(&self, stage: BookmarkStage, event: BookmarkEvent<'_>) -> (r: (
        BookmarkStage,
        BookmarkAction,
    ))
        ensures
            (r.0, action_view(r.1)) == self.next(stage, event),
    {
        match (stage, event) {
            (BookmarkStage::Searching, BookmarkEvent::Searched(Some(name))) => self.named(
                name.to_owned(),
                true,
            ),
            (BookmarkStage::Searching, BookmarkEvent::Searched(None)) => (
                BookmarkStage::Summarizing,
                BookmarkAction::Summarize,
            ),
            (
                BookmarkStage::Summarizing,
                BookmarkEvent::Summarized(summaries),
            ) => if summaries.as_str().is_empty() {
                let message = "No commits found between ".to_owned().concat(self.from).concat(
                    " and ",
                ).concat(self.to);
                (BookmarkStage::Finished, BookmarkAction::Fail(message))
            } else {
                (BookmarkStage::Naming, BookmarkAction::Ask(summaries))
            },
            (BookmarkStage::Naming, BookmarkEvent::Named(Some(name))) => self.named(
                self.created(name),
                false,
            ),
            (BookmarkStage::Naming, BookmarkEvent::Named(None)) => (
                BookmarkStage::Finished,
                BookmarkAction::Fail("Failed to generate bookmark name".to_owned()),
            ),
            (BookmarkStage::Applying(kept), BookmarkEvent::Applied(existed)) => (
                BookmarkStage::Finished,
                BookmarkAction::Report(kept && existed),
            ),
            _ => (BookmarkStage::Finished, BookmarkAction::Stop),
        }
    }
}

/// How the operation that sets a bookmark is described; `existed` says that it was there before.
pub fn bookmark_operation(existed: bool, name: &str) -> (r: String)
    ensures
        r@ == if existed {
            "move"@
        } else {
            "create"@
        } + " bookmark '"@ + name@ + "' via jc"@,
{
    let action = if existed {
        "move"
    } else {
        "create"
    };
    action.to_owned().concat(" bookmark '").concat(name).concat("' via jc")
}

} // verus!
