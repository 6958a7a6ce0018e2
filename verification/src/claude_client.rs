//! Calling the backend's command and reading its reply.

use vstd::prelude::*;

use crate::json::{lemma_array_tree, opt_tree, parse_json, parsed, trees, Json, JsonTree};
use crate::text::{copies, lemma_views_push, lossy_text, opt_text, utf8_lossy, views};

verus! {

/// A call of the command.
pub struct ClaudeRequest<'a> {
    pub command: &'a str,
    pub args: &'a [String],
    pub model: &'a str,
    pub prompt: &'a str,
    pub spinner_message: &'a str,
}

impl<'a> ClaudeRequest<'a> {
    /// The arguments that the command is started with.
    pub fn arguments(&self) -> (r: Vec<String>)
        ensures
            views(r@) == views(self.args@) + seq!["--model"@, self.model@],
    {
        broadcast use lemma_views_push;

        let mut r = copies(self.args);
        let ghost all = views(self.args@);
        r.push("--model".to_owned());
        r.push(self.model.to_owned());
        assert(views(r@) == all + seq!["--model"@, self.model@]);
        r
    }
}

/// The last of `items` whose `type` is `result`.
pub open spec fn last_result(items: Seq<JsonTree>) -> Option<JsonTree>
    decreases items.len(),
{
    if items.len() == 0 {
        None
    } else if items.last().member_text("type"@) == Some("result"@) {
        Some(items.last())
    } else {
        last_result(items.drop_last())
    }
}

/// The event of `doc` that holds the outcome: `doc` itself, or its last result event where it is
/// an array.
pub open spec fn result_event(doc: JsonTree) -> Option<JsonTree> {
    match doc {
        JsonTree::Array(items) => last_result(items),
        _ => Some(doc),
    }
}

/// What a result event reports: its text, unless it is marked as an error or has none.
pub open spec fn event_result(event: JsonTree) -> Option<Seq<char>> {
    if event.member("is_error"@) == Some(JsonTree::Bool(true)) {
        None
    } else {
        event.member_text("result"@)
    }
}

/// The result text of a reply.
pub open spec fn document_reply(doc: JsonTree) -> Option<Seq<char>> {
    match result_event(doc) {
        Some(event) => event_result(event),
        None => None,
    }
}

/// A reply that is one document and no array is read as it is: its `result` is the reply, in full,
/// unless it is marked as an error.
pub proof fn law_a_result_is_the_reply(doc: JsonTree)
    requires
        !(doc is Array),
    ensures
        document_reply(doc) == match (doc.member("is_error"@), doc.member("result"@)) {
            (Some(JsonTree::Bool(true)), _) => None,
            (_, Some(JsonTree::Text(text))) => Some(text),
            _ => None,
        },
{
}

/// Of a reply that is a list of events, the last one of the type `result` counts, and it counts as
/// if it stood alone; without one there is no reply.
pub proof fn law_the_last_result_counts(items: Seq<JsonTree>, n: int)
    requires
        -1 <= n < items.len(),
        n >= 0 ==> items[n].member("type"@) == Some(JsonTree::Text("result"@)),
        forall|i: int|
            n < i < items.len() ==> (#[trigger] items[i]).member("type"@) != Some(
                JsonTree::Text("result"@),
            ),
    ensures
        n >= 0 ==> document_reply(JsonTree::Array(items)) == match (
            items[n].member("is_error"@),
            items[n].member("result"@),
        ) {
            (Some(JsonTree::Bool(true)), _) => None,
            (_, Some(JsonTree::Text(text))) => Some(text),
            _ => None,
        },
        n >= 0 ==> result_event(JsonTree::Array(items)) == Some(items[n]),
        n == -1 ==> document_reply(JsonTree::Array(items)) is None,
        n == -1 ==> result_event(JsonTree::Array(items)) is None,
    decreases items.len(),
{
    if items.len() > 0 && n < items.len() - 1 {
        let front = items.drop_last();
        assert(items[items.len() - 1] == items.last());
        assert forall|i: int| n < i < front.len() implies (#[trigger] front[i]).member("type"@)
            != Some(JsonTree::Text("result"@)) by {
            assert(front[i] == items[i]);
        }
        law_the_last_result_counts(front, n);
    }
}

/// The event of `doc` that holds the outcome.
pub fn outcome_event(doc: &Json) -> (r: Option<&Json>)
    ensures
        opt_tree(r) == result_event(doc.tree()),
{
    broadcast use lemma_array_tree;

    match doc {
        Json::Array(items) => {
            let ghost all = trees(items@);
            let mut n: usize = items.len();
            assert(all.take(n as int) == all);
            while n > 0
                invariant
                    n <= items@.len(),
                    all == trees(items@),
                    doc.tree() == JsonTree::Array(all),
                    last_result(all) == last_result(all.take(n as int)),
                decreases n,
            {
                assert(all.take(n as int).last() == items@[n - 1].tree());
                assert(all.take(n as int).drop_last() == all.take(n - 1));
                if items[n - 1].member_is("type", "result") {
                    return Some(&items[n - 1]);
                }
                n -= 1;
            }
            None
        },
        _ => Some(doc),
    }
}

/// What a result event reports.
pub fn outcome_text(event: &Json) -> (r: Option<String>)
    ensures
        opt_text(r) == event_result(event.tree()),
{
    match event.member("is_error") {
        Some(Json::Bool(true)) => None,
        _ => event.member_text("result"),
    }
}

/// The result text of a reply that is the document `doc`.
pub fn document_text(doc: &Json) -> (r: Option<String>)
    ensures
        opt_text(r) == document_reply(doc.tree()),
{
    match outcome_event(doc) {
        Some(event) => outcome_text(event),
        None => None,
    }
}

/// Extracts the result text from what the command printed: `None` where that is no JSON document,
/// holds no result event, or reports an error.
pub fn parse_result_text(raw_output: &str) -> (r: Option<String>)
    ensures
        opt_text(r) == match parsed(raw_output@) {
            Some(doc) => document_reply(doc),
            None => None,
        },
{
    match parse_json(raw_output) {
        Some(doc) => document_text(&doc),
        None => None,
    }
}

/// The result text of a run of the command, from the bytes that it printed; `None` where the
/// command did not succeed.
pub fn reply_text(succeeded: bool, stdout: &[u8]) -> (r: Option<String>)
    ensures
        opt_text(r) == if succeeded {
            match parsed(utf8_lossy(stdout@)) {
                Some(doc) => document_reply(doc),
                None => None,
            }
        } else {
            None
        },
{
    if succeeded {
        parse_result_text(lossy_text(stdout).as_str())
    } else {
        None
    }
}

} // verus!
