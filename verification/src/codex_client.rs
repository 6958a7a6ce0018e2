//! Calling the `codex` command and reading its reply.

use vstd::prelude::*;

use crate::claude_client::{
    document_reply, event_result, last_result, law_the_last_result_counts, outcome_event,
    outcome_text, result_event,
};
use crate::json::{parse_json, parsed, Json, JsonTree};
use crate::text::{
    copies, join, joined, lemma_views_push, lines, lines_of, lossy_text, opt_text, same,
    starts_with_char, trim, trimmed, utf8_lossy, views,
};

verus! {

/// A call of the `codex` command; `None` leaves the choice of the model to it.
pub struct CodexRequest<'a> {
    pub command: &'a str,
    pub args: &'a [String],
    pub model: Option<&'a str>,
    pub prompt: &'a str,
    pub spinner_message: &'a str,
}

impl<'a> CodexRequest<'a> {
    /// The arguments that the command is started with.
    pub fn arguments(&self) -> (r: Vec<String>)
        ensures
            views(r@) == views(self.args@) + match self.model {
                Some(model) => seq!["--model"@, model@],
                None => seq![],
            },
    {
        broadcast use lemma_views_push;

        let mut r = copies(self.args);
        let ghost all = views(self.args@);
        if let Some(model) = self.model {
            r.push("--model".to_owned());
            r.push(model.to_owned());
            assert(views(r@) == all + seq!["--model"@, model@]);
        } else {
            assert(views(r@) == all + seq![]);
        }
        r
    }
}

// ---------------------------------------------------------------------------
// Model
// ---------------------------------------------------------------------------

/// The line that the command prints before it reads its input.
pub open spec fn banner() -> Seq<char> {
    "Reading prompt from stdin..."@
}

/// The result event of a reply that is one JSON document, where it has one.
pub open spec fn provider_event(doc: JsonTree) -> Option<JsonTree> {
    match result_event(doc) {
        Some(event) => if event.member_text("type"@) == Some("result"@) {
            Some(event)
        } else {
            None
        },
        None => None,
    }
}

/// The message of an event that completes an agent's message.
pub open spec fn message_in(event: JsonTree) -> Option<Seq<char>> {
    if event.member_text("type"@) == Some("item.completed"@) {
        match event.member("item"@) {
            Some(item) => if item.member_text("type"@) == Some("agent_message"@) {
                item.member_text("text"@)
            } else {
                None
            },
            None => None,
        }
    } else {
        None
    }
}

/// The message of an event that reports a failure.
pub open spec fn failure_in(event: JsonTree) -> Option<Seq<char>> {
    if event.member_text("type"@) == Some("error"@) {
        event.member_text("message"@)
    } else if event.member_text("type"@) == Some("turn.failed"@) {
        match event.member("error"@) {
            Some(error) => error.member_text("message"@),
            None => None,
        }
    } else {
        None
    }
}

/// The event that a line holds; a blank line holds none.
pub open spec fn event_on(line: Seq<char>) -> Option<JsonTree> {
    if trim(line).len() == 0 {
        None
    } else {
        parsed(trim(line))
    }
}

/// The agent's message that the event on a line completes.
pub open spec fn message_on(line: Seq<char>) -> Option<Seq<char>> {
    match event_on(line) {
        Some(event) => message_in(event),
        None => None,
    }
}

/// The failure that the event on a line reports.
pub open spec fn failure_on(line: Seq<char>) -> Option<Seq<char>> {
    match event_on(line) {
        Some(event) => failure_in(event),
        None => None,
    }
}

/// The agent's message that the last of the lines to complete one holds.
pub open spec fn last_message(all: Seq<Seq<char>>) -> Option<Seq<char>>
    decreases all.len(),
{
    if all.len() == 0 {
        None
    } else if message_on(all.last()) is Some {
        message_on(all.last())
    } else {
        last_message(all.drop_last())
    }
}

/// The failure that the last of the lines to report one holds.
pub open spec fn last_failure(all: Seq<Seq<char>>) -> Option<Seq<char>>
    decreases all.len(),
{
    if all.len() == 0 {
        None
    } else if failure_on(all.last()) is Some {
        failure_on(all.last())
    } else {
        last_failure(all.drop_last())
    }
}

/// Whether a line, once trimmed, counts as plain text: it is not empty, does not look like JSON
/// and is not the banner.
pub open spec fn is_plain(line: Seq<char>) -> bool {
    line.len() > 0 && line[0] != '{' && line[0] != '[' && line != banner()
}

/// The lines, trimmed, that count as plain text.
pub open spec fn plain_lines(all: Seq<Seq<char>>) -> Seq<Seq<char>>
    decreases all.len(),
{
    if all.len() == 0 {
        seq![]
    } else if is_plain(trim(all.last())) {
        plain_lines(all.drop_last()).push(trim(all.last()))
    } else {
        plain_lines(all.drop_last())
    }
}

/// What a reply made of events, one on a line, or of plain text amounts to.
pub open spec fn stream_reply(raw: Seq<char>) -> Option<Seq<char>> {
    let plain = join(plain_lines(lines(raw)), "\n"@);
    if last_message(lines(raw)) is Some {
        last_message(lines(raw))
    } else if last_failure(lines(raw)) is Some {
        None
    } else if plain.len() > 0 {
        Some(plain)
    } else {
        None
    }
}

/// The result text of a reply.
pub open spec fn reply(raw: Seq<char>) -> Option<Seq<char>> {
    match parsed(raw) {
        Some(doc) => match provider_event(doc) {
            Some(event) => event_result(event),
            None => stream_reply(raw),
        },
        None => stream_reply(raw),
    }
}

// ---------------------------------------------------------------------------
// Laws
// ---------------------------------------------------------------------------

/// A reply that is one document of the type `result`, or a list with an event of that type, is what
/// that result says.
pub proof fn law_result_documents_are_read(raw: Seq<char>, doc: JsonTree)
    requires
        parsed(raw) == Some(doc),
        match doc {
            JsonTree::Array(items) => exists|i: int|
                0 <= i < items.len() && (#[trigger] items[i]).member("type"@) == Some(
                    JsonTree::Text("result"@),
                ),
            _ => doc.member("type"@) == Some(JsonTree::Text("result"@)),
        },
    ensures
        reply(raw) == document_reply(doc),
{
    if let JsonTree::Array(items) = doc {
        lemma_last_result(items);
    }
}

/// The last result of a list is one, and there is one where an item is.
proof fn lemma_last_result(items: Seq<JsonTree>)
    ensures
        last_result(items) matches Some(event) ==> event.member_text("type"@) == Some("result"@),
        last_result(items) is None ==> forall|i: int|
            0 <= i < items.len() ==> (#[trigger] items[i]).member("type"@) != Some(
                JsonTree::Text("result"@),
            ),
    decreases items.len(),
{
    if items.len() > 0 && items.last().member_text("type"@) != Some("result"@) {
        let front = items.drop_last();
        lemma_last_result(front);
        if last_result(items) is None {
            assert forall|i: int| 0 <= i < items.len() implies (#[trigger] items[i]).member(
                "type"@,
            ) != Some(JsonTree::Text("result"@)) by {
                if i < front.len() {
                    assert(front[i] == items[i]);
                }
            }
        }
    }
}

/// Of a reply made of events, one on a line, the last event that completes a message of the agent
/// gives the reply: the text of that message, character for character.
pub proof fn law_the_last_agent_message_is_the_reply(
    raw: Seq<char>,
    n: int,
    event: JsonTree,
    item: JsonTree,
    text: Seq<char>,
)
    requires
        match parsed(raw) {
            Some(JsonTree::Array(items)) => forall|i: int|
                0 <= i < items.len() ==> (#[trigger] items[i]).member("type"@) != Some(
                    JsonTree::Text("result"@),
                ),
            Some(doc) => doc.member("type"@) != Some(JsonTree::Text("result"@)),
            None => true,
        },
        0 <= n < lines(raw).len(),
        trim(lines(raw)[n]).len() > 0,
        parsed(trim(lines(raw)[n])) == Some(event),
        event.member("type"@) == Some(JsonTree::Text("item.completed"@)),
        event.member("item"@) == Some(item),
        item.member("type"@) == Some(JsonTree::Text("agent_message"@)),
        item.member("text"@) == Some(JsonTree::Text(text)),
        forall|i: int|
            n < i < lines(raw).len() ==> (match parsed(trim(#[trigger] lines(raw)[i])) {
                Some(later) => !(later.member("type"@) == Some(JsonTree::Text("item.completed"@))
                    && (later.member("item"@) matches Some(part) && part.member("type"@) == Some(
                    JsonTree::Text("agent_message"@),
                ) && (part.member("text"@) matches Some(said) && said is Text))),
                None => true,
            }),
    ensures
        reply(raw) == Some(text),
{
    lemma_no_result(raw);
    lemma_last_message(lines(raw), n, text);
}

/// Without a result, a document is read as events or plain text.
proof fn lemma_no_result(raw: Seq<char>)
    requires
        match parsed(raw) {
            Some(JsonTree::Array(items)) => forall|i: int|
                0 <= i < items.len() ==> (#[trigger] items[i]).member("type"@) != Some(
                    JsonTree::Text("result"@),
                ),
            Some(doc) => doc.member("type"@) != Some(JsonTree::Text("result"@)),
            None => true,
        },
    ensures
        reply(raw) == stream_reply(raw),
{
    if let Some(JsonTree::Array(items)) = parsed(raw) {
        law_the_last_result_counts(items, -1);
    }
}

proof fn lemma_last_message(all: Seq<Seq<char>>, n: int, text: Seq<char>)
    requires
        0 <= n < all.len(),
        message_on(all[n]) == Some(text),
        forall|i: int| n < i < all.len() ==> message_on(#[trigger] all[i]) is None,
    ensures
        last_message(all) == Some(text),
    decreases all.len(),
{
    if n < all.len() - 1 {
        let front = all.drop_last();
        assert(message_on(all[all.len() - 1]) is None);
        assert forall|i: int| n < i < front.len() implies message_on(
            #[trigger] front[i],
        ) is None by {
            assert(front[i] == all[i]);
        }
        lemma_last_message(front, n, text);
    }
}

proof fn lemma_no_message(all: Seq<Seq<char>>)
    requires
        forall|i: int| 0 <= i < all.len() ==> message_on(#[trigger] all[i]) is None,
    ensures
        last_message(all) is None,
    decreases all.len(),
{
    if all.len() > 0 {
        let front = all.drop_last();
        assert(message_on(all[all.len() - 1]) is None);
        assert forall|i: int| 0 <= i < front.len() implies message_on(
            #[trigger] front[i],
        ) is None by {
            assert(front[i] == all[i]);
        }
        lemma_no_message(front);
    }
}

proof fn lemma_failure(all: Seq<Seq<char>>)
    ensures
        last_failure(all) is None <==> forall|i: int|
            0 <= i < all.len() ==> failure_on(#[trigger] all[i]) is None,
    decreases all.len(),
{
    if all.len() > 0 {
        let front = all.drop_last();
        lemma_failure(front);
        assert(all.last() == all[all.len() - 1]);
        if last_failure(all) is None {
            assert forall|i: int| 0 <= i < all.len() implies failure_on(
                #[trigger] all[i],
            ) is None by {
                if i < front.len() {
                    assert(front[i] == all[i]);
                }
            }
        } else if forall|i: int| 0 <= i < all.len() ==> failure_on(#[trigger] all[i]) is None {
            assert forall|i: int| 0 <= i < front.len() implies failure_on(
                #[trigger] front[i],
            ) is None by {
                assert(front[i] == all[i]);
            }
        }
    }
}

/// Where no event completes a message and one reports a failure, there is no reply: neither the
/// failure nor any plain text around it counts as one.
pub proof fn law_failures_give_no_reply(raw: Seq<char>, n: int, event: JsonTree)
    requires
        match parsed(raw) {
            Some(JsonTree::Array(items)) => forall|i: int|
                0 <= i < items.len() ==> (#[trigger] items[i]).member("type"@) != Some(
                    JsonTree::Text("result"@),
                ),
            Some(doc) => doc.member("type"@) != Some(JsonTree::Text("result"@)),
            None => true,
        },
        forall|i: int|
            0 <= i < lines(raw).len() ==> (match parsed(trim(#[trigger] lines(raw)[i])) {
                Some(other) => !(other.member("type"@) == Some(JsonTree::Text("item.completed"@))
                    && (other.member("item"@) matches Some(part) && part.member("type"@) == Some(
                    JsonTree::Text("agent_message"@),
                ) && (part.member("text"@) matches Some(said) && said is Text))),
                None => true,
            }),
        0 <= n < lines(raw).len(),
        trim(lines(raw)[n]).len() > 0,
        parsed(trim(lines(raw)[n])) == Some(event),
        ({
            ||| event.member("type"@) == Some(JsonTree::Text("error"@)) && (event.member(
                "message"@,
            ) matches Some(said) && said is Text)
            ||| event.member("type"@) == Some(JsonTree::Text("turn.failed"@)) && (event.member(
                "error"@,
            ) matches Some(error) && (error.member("message"@) matches Some(said) && said is Text))
        }),
    ensures
        reply(raw) is None,
{
    reveal_strlit("error");
    reveal_strlit("turn.failed");
    lemma_no_result(raw);
    lemma_no_message(lines(raw));
    lemma_failure(lines(raw));
    assert("error"@.len() != "turn.failed"@.len());
    assert(failure_on(lines(raw)[n]) is Some);
}

/// Where no event completes a message or reports a failure, the reply is the plain text: its lines
/// in their order, each without the white space around it, and without blank lines, the banner, and
/// lines that look like JSON. There is none where nothing is left.
pub proof fn law_plain_text_is_the_reply(raw: Seq<char>)
    requires
        match parsed(raw) {
            Some(JsonTree::Array(items)) => forall|i: int|
                0 <= i < items.len() ==> (#[trigger] items[i]).member("type"@) != Some(
                    JsonTree::Text("result"@),
                ),
            Some(doc) => doc.member("type"@) != Some(JsonTree::Text("result"@)),
            None => true,
        },
        forall|i: int|
            0 <= i < lines(raw).len() ==> (match parsed(trim(#[trigger] lines(raw)[i])) {
                Some(other) => !(other.member("type"@) == Some(JsonTree::Text("item.completed"@))
                    && (other.member("item"@) matches Some(part) && part.member("type"@) == Some(
                    JsonTree::Text("agent_message"@),
                ) && (part.member("text"@) matches Some(said) && said is Text))),
                None => true,
            }),
        forall|i: int|
            0 <= i < lines(raw).len() ==> (match parsed(trim(#[trigger] lines(raw)[i])) {
                Some(other) => {
                    &&& !(other.member("type"@) == Some(JsonTree::Text("error"@)) && (other.member(
                        "message"@,
                    ) matches Some(said) && said is Text))
                    &&& !(other.member("type"@) == Some(JsonTree::Text("turn.failed"@)) && (
                    other.member("error"@) matches Some(error) && (error.member(
                        "message"@,
                    ) matches Some(said) && said is Text)))
                },
                None => true,
            }),
    ensures
        reply(raw) == if join(plain_lines(lines(raw)), "\n"@).len() > 0 {
            Some(join(plain_lines(lines(raw)), "\n"@))
        } else {
            None
        },
{
    lemma_no_result(raw);
    lemma_no_message(lines(raw));
    lemma_failure(lines(raw));
}

/// Which lines count as plain text.
pub proof fn law_plain_lines_are_kept_in_order(all: Seq<Seq<char>>, line: Seq<char>)
    ensures
        plain_lines(Seq::<Seq<char>>::empty()) == Seq::<Seq<char>>::empty(),
        plain_lines(all.push(line)) == if trim(line).len() == 0 || trim(line)[0] == '{' || trim(
            line,
        )[0] == '[' || trim(line) == "Reading prompt from stdin..."@ {
            plain_lines(all)
        } else {
            plain_lines(all).push(trim(line))
        },
{
    assert(all.push(line).drop_last() =~= all);
}

// ---------------------------------------------------------------------------
// Code
// ---------------------------------------------------------------------------

/// The agent's message that `event` completes.
pub fn agent_message(event: &Json) -> (r: Option<String>)
    ensures
        opt_text(r) == message_in(event.tree()),
{
    if event.member_is("type", "item.completed") {
        match event.member("item") {
            Some(item) => if item.member_is("type", "agent_message") {
                item.member_text("text")
            } else {
                None
            },
            None => None,
        }
    } else {
        None
    }
}

/// The failure that `event` reports.
pub fn failure_message(event: &Json) -> (r: Option<String>)
    ensures
        opt_text(r) == failure_in(event.tree()),
{
    if event.member_is("type", "error") {
        event.member_text("message")
    } else if event.member_is("type", "turn.failed") {
        match event.member("error") {
            Some(error) => error.member_text("message"),
            None => None,
        }
    } else {
        None
    }
}

/// The lines of `raw_output` that count as plain text, trimmed and joined.
pub fn plain_text(raw_output: &str) -> (r: String)
    ensures
        r@ == join(plain_lines(lines(raw_output@)), "\n"@),
{
    broadcast use lemma_views_push;

    let all = lines_of(raw_output);
    let ghost model = lines(raw_output@);
    let mut kept: Vec<String> = Vec::new();
    let mut i: usize = 0;
    while i < all.len()
        invariant
            i <= all@.len(),
            views(all@) == model,
            views(kept@) == plain_lines(model.take(i as int)),
        decreases all@.len() - i,
    {
        proof {
            assert(views(all@)[i as int] == all@[i as int]@);
            assert(model.take(i + 1).drop_last() == model.take(i as int));
            assert(model.take(i + 1).last() == all@[i as int]@);
        }
        let line = trimmed(all[i].as_str());
        if !line.as_str().is_empty() && !starts_with_char(line.as_str(), '{')
            && !starts_with_char(line.as_str(), '[') && !same(
            line.as_str(),
            "Reading prompt from stdin...",
        ) {
            kept.push(line);
        }
        i += 1;
    }
    assert(model.take(i as int) == model);
    joined(&kept, "\n")
}

/// What a reply made of events, one on a line, or of plain text amounts to.
pub fn stream_text(raw_output: &str) -> (r: Option<String>)
    ensures
        opt_text(r) == stream_reply(raw_output@),
{
    let all = lines_of(raw_output);
    let ghost model = lines(raw_output@);
    let mut message: Option<String> = None;
    let mut failure: Option<String> = None;
    let mut i: usize = 0;
    while i < all.len()
        invariant
            i <= all@.len(),
            views(all@) == model,
            opt_text(message) == last_message(model.take(i as int)),
            opt_text(failure) == last_failure(model.take(i as int)),
        decreases all@.len() - i,
    {
        proof {
            assert(views(all@)[i as int] == all@[i as int]@);
            assert(model.take(i + 1).drop_last() == model.take(i as int));
            assert(model.take(i + 1).last() == all@[i as int]@);
        }
        let line = trimmed(all[i].as_str());
        if !line.as_str().is_empty() {
            if let Some(event) = parse_json(line.as_str()) {
                if let Some(text) = agent_message(&event) {
                    message = Some(text);
                }
                if let Some(text) = failure_message(&event) {
                    failure = Some(text);
                }
            }
        }
        i += 1;
    }
    assert(model.take(i as int) == model);
    if message.is_some() {
        return message;
    }
    if failure.is_some() {
        return None;
    }
    let plain = plain_text(raw_output);
    if plain.as_str().is_empty() {
        None
    } else {
        Some(plain)
    }
}

/// Extracts the result text from what the command printed. That is either one JSON document with
/// a result event, or a stream of events, one on a line, of which the last agent message counts,
/// or plain text.
pub fn parse_result_text(raw_output: &str) -> (r: Option<String>)
    ensures
        opt_text(r) == reply(raw_output@),
{
    if let Some(doc) = parse_json(raw_output) {
        if let Some(event) = outcome_event(&doc) {
            if event.member_is("type", "result") {
                return outcome_text(event);
            }
        }
    }
    stream_text(raw_output)
}

/// The result text of a run of the command, from the bytes that it printed; `None` where the
/// command did not succeed.
pub fn reply_text(succeeded: bool, stdout: &[u8]) -> (r: Option<String>)
    ensures
        opt_text(r) == if succeeded {
            reply(utf8_lossy(stdout@))
        } else {
            None
        },
{
    if succeeded {
        parse_result_text(lossy_text(stdout).as_str())
    } else {
        None
    }
}

} // verus!
