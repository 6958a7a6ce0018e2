//! A recorded prompt, and the record that stands for it in a log.

use vstd::prelude::*;

use crate::json::{member_texts, parse_json, parsed, write_members, written, JsonTree};
use crate::prompt_log::is_record;
use crate::text::{lemma_trim_plain, same};

verus! {

/// A recorded prompt with the time at which it was captured, in the notation of RFC 3339.
#[derive(Debug, PartialEq, Eq)]
pub struct PromptEntry {
    pub timestamp: String,
    pub prompt: String,
}

/// What a recorded prompt is.
pub struct EntryView {
    pub timestamp: Seq<char>,
    pub prompt: Seq<char>,
}

impl View for PromptEntry {
    type V = EntryView;

    open spec fn view(&self) -> EntryView {
        EntryView { timestamp: self.timestamp@, prompt: self.prompt@ }
    }
}

/// What recorded prompts are.
pub open spec fn entry_views(entries: Seq<PromptEntry>) -> Seq<EntryView> {
    entries.map_values(|e: PromptEntry| e@)
}

/// What an entry is, where there is one.
pub open spec fn opt_entry(entry: Option<PromptEntry>) -> Option<EntryView> {
    match entry {
        Some(e) => Some(e@),
        None => None,
    }
}

/// The record of an entry: a JSON object with the time and the prompt.
pub open spec fn record_of(entry: EntryView) -> Seq<char> {
    written(seq![("timestamp"@, entry.timestamp), ("prompt"@, entry.prompt)])
}

/// The entry that has this record.
pub open spec fn entry_of(record: Seq<char>) -> Option<EntryView> {
    match parsed(record) {
        Some(doc) => match (doc.member_text("timestamp"@), doc.member_text("prompt"@)) {
            (Some(timestamp), Some(prompt)) => if record_of(EntryView { timestamp, prompt })
                == record {
                Some(EntryView { timestamp, prompt })
            } else {
                None
            },
            _ => None,
        },
        None => None,
    }
}

/// A record is the JSON object with the time and the prompt, and a record that has this form holds
/// that entry.
pub proof fn law_records_hold_the_entry(timestamp: Seq<char>, prompt: Seq<char>, doc: JsonTree)
    ensures
        record_of(EntryView { timestamp, prompt }) == written(
            seq![("timestamp"@, timestamp), ("prompt"@, prompt)],
        ),
        ({
            let record = written(seq![("timestamp"@, timestamp), ("prompt"@, prompt)]);
            parsed(record) == Some(doc) && doc.member("timestamp"@) == Some(
                JsonTree::Text(timestamp),
            ) && doc.member("prompt"@) == Some(JsonTree::Text(prompt)) ==> entry_of(record) == Some(
                EntryView { timestamp, prompt },
            )
        }),
{
}

/// What is said of entries is said of each of them, in full and in their order.
pub proof fn law_entries_are_seen_whole(entries: Seq<PromptEntry>)
    ensures
        entry_views(entries).len() == entries.len(),
        forall|i: int|
            0 <= i < entries.len() ==> (#[trigger] entry_views(entries)[i]).timestamp
                == entries[i].timestamp@ && entry_views(entries)[i].prompt == entries[i].prompt@,
{
}

/// The record of an entry. It is one line, and the entry can be read from it.
pub fn write_entry(timestamp: &str, prompt: &str) -> (r: String)
    ensures
        r@ == record_of(EntryView { timestamp: timestamp@, prompt: prompt@ }),
        is_record(r@),
        entry_of(r@) == Some(EntryView { timestamp: timestamp@, prompt: prompt@ }),
{
    let members: Vec<(&str, &str)> = vec![("timestamp", timestamp), ("prompt", prompt)];
    proof {
        reveal_strlit("timestamp");
        reveal_strlit("prompt");
        assert("timestamp"@[0] != "prompt"@[0]);
    }
    let r = write_members(&members);
    proof {
        assert(member_texts(members@) =~= seq![
            ("timestamp"@, timestamp@),
            ("prompt"@, prompt@),
        ]);
        assert(members@[0].0@ == "timestamp"@ && members@[1].0@ == "prompt"@);
        lemma_trim_plain(r@);
    }
    r
}

/// The entry that has this record. A record in another form, such as one with further members or
/// with spaces, has none here.
pub fn read_entry(record: &str) -> (r: Option<PromptEntry>)
    ensures
        opt_entry(r) == entry_of(record@),
{
    let doc = match parse_json(record) {
        Some(doc) => doc,
        None => return None,
    };
    match (doc.member_text("timestamp"), doc.member_text("prompt")) {
        (Some(timestamp), Some(prompt)) => {
            let form = write_entry(timestamp.as_str(), prompt.as_str());
            if same(form.as_str(), record) {
                Some(PromptEntry { timestamp, prompt })
            } else {
                None
            }
        },
        _ => None,
    }
}

} // verus!
