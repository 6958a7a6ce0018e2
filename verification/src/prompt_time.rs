//! Which of the recorded prompts belong to a change.

use vstd::prelude::*;

use crate::prompt_entry::{entry_of, entry_views, EntryView, PromptEntry};
use crate::prompt_log::{is_record, law_log_reads_back, log_of};
use crate::prompt_store::PromptStore;
use crate::text::{lemma_views_push, views};

verus! {

/// A point in time: seconds since 1970, and nanoseconds within the second.
#[derive(Debug, Clone, Copy, PartialEq, Eq, Structural)]
pub struct Moment {
    pub secs: i64,
    pub nanos: u32,
}

/// The point in time that `chrono` reads from a text in the notation of RFC 3339, as seconds and
/// nanoseconds; `None` where the text is not in that notation.
pub uninterp spec fn rfc3339(text: Seq<char>) -> Option<(i64, u32)>;

/// `chrono::DateTime::parse_from_rfc3339`, with `timestamp` and `timestamp_subsec_nanos` of what
/// it reads. Two points in time compare as these pairs do.
#[verifier::external_body]
fn parse_rfc3339(text: &str) -> (r: Option<(i64, u32)>)
    ensures
        r == rfc3339(text@),
{
    chrono::DateTime::parse_from_rfc3339(text).ok().map(
        |t| (t.timestamp(), t.timestamp_subsec_nanos()),
    )
}

/// `chrono::DateTime::from_timestamp_millis`: the point in time so many milliseconds after the
/// beginning of 1970. It is `None` outside the years that `chrono` can represent, which run from
/// the beginning of -262143 to the end of 262142.
#[verifier::external_body]
fn from_millis(millis: i64) -> (r: Option<(i64, u32)>)
    ensures
        r == if -8_334_601_228_800_000 <= millis <= 8_210_266_876_799_999 {
            Some(((millis as int / 1000) as i64, ((millis as int % 1000) * 1_000_000) as u32))
        } else {
            None
        },
{
    chrono::DateTime::from_timestamp_millis(millis).map(
        |t| (t.timestamp(), t.timestamp_subsec_nanos()),
    )
}

/// Whether `a` is later than `b`.
pub open spec fn later(a: Moment, b: Moment) -> bool {
    a.secs > b.secs || (a.secs == b.secs && a.nanos > b.nanos)
}

/// The point in time that a text denotes.
pub open spec fn moment_of(text: Seq<char>) -> Option<Moment> {
    match rfc3339(text) {
        Some(t) => Some(Moment { secs: t.0, nanos: t.1 }),
        None => None,
    }
}

/// Whether a prompt captured at `moment` belongs to a change whose parent was committed at
/// `cutoff`. Without a cutoff all prompts do, and so does a prompt whose time is unknown.
pub open spec fn belongs(moment: Option<Moment>, cutoff: Option<Moment>) -> bool {
    match (moment, cutoff) {
        (Some(m), Some(c)) => later(m, c),
        _ => true,
    }
}

/// The prompts of those entries that belong to a change whose parent was committed at `cutoff`.
pub open spec fn prompts_after(entries: Seq<EntryView>, cutoff: Option<Moment>) -> Seq<Seq<char>>
    decreases entries.len(),
{
    if entries.len() == 0 {
        seq![]
    } else if belongs(moment_of(entries.last().timestamp), cutoff) {
        prompts_after(entries.drop_last(), cutoff).push(entries.last().prompt)
    } else {
        prompts_after(entries.drop_last(), cutoff)
    }
}

/// Whether a prompt captured at `moment` belongs to a change whose parent was committed at
/// `cutoff`.
pub fn is_included(moment: Option<Moment>, cutoff: Option<Moment>) -> (r: bool)
    ensures
        r == belongs(moment, cutoff),
{
    match (moment, cutoff) {
        (Some(m), Some(c)) => m.secs > c.secs || (m.secs == c.secs && m.nanos > c.nanos),
        _ => true,
    }
}

/// The point in time that a text in the notation of RFC 3339 denotes.
pub fn parse_moment(text: &str) -> (r: Option<Moment>)
    ensures
        r == moment_of(text@),
{
    match parse_rfc3339(text) {
        Some((secs, nanos)) => Some(Moment { secs, nanos }),
        None => None,
    }
}

/// The point in time so many milliseconds after the beginning of 1970, where there is one and the
/// calendar reaches that far.
pub open spec fn parent_time(millis: Option<i64>) -> Option<Moment> {
    match millis {
        Some(ms) => if -8_334_601_228_800_000 <= ms <= 8_210_266_876_799_999 {
            Some(
                Moment {
                    secs: (ms as int / 1000) as i64,
                    nanos: ((ms as int % 1000) * 1_000_000) as u32,
                },
            )
        } else {
            None
        },
        None => None,
    }
}

/// The cutoff for a change whose first parent was committed so many milliseconds after the
/// beginning of 1970; none for a change without a parent.
pub fn parent_commit_time(millis: Option<i64>) -> (r: Option<Moment>)
    ensures
        r == parent_time(millis),
{
    match millis {
        Some(ms) => match from_millis(ms) {
            Some((secs, nanos)) => Some(Moment { secs, nanos }),
            None => None,
        },
        None => None,
    }
}

impl PromptStore {
    /// The prompts recorded after `cutoff`, or all of them where there is none.
    pub fn prompts_since(entries: &Vec<PromptEntry>, cutoff: Option<Moment>) -> (r: Vec<String>)
        ensures
            views(r@) == prompts_after(entry_views(entries@), cutoff),
    {
        broadcast use lemma_views_push;

        let ghost model = entry_views(entries@);
        let mut r: Vec<String> = Vec::new();
        let mut i: usize = 0;
        while i < entries.len()
            invariant
                i <= entries@.len(),
                model == entry_views(entries@),
                views(r@) == prompts_after(model.take(i as int), cutoff),
            decreases entries@.len() - i,
        {
            assert(model.take(i + 1).drop_last() == model.take(i as int));
            assert(model.take(i + 1).last() == entries@[i as int]@);
            if is_included(parse_moment(entries[i].timestamp.as_str()), cutoff) {
                r.push(entries[i].prompt.clone());
            }
            i += 1;
        }
        assert(model.take(i as int) == model);
        r
    }
}

proof fn lemma_prompts_concat(
    a: Seq<EntryView>,
    b: Seq<EntryView>,
    cutoff: Option<Moment>,
)
    ensures
        prompts_after(a + b, cutoff) == prompts_after(a, cutoff) + prompts_after(b, cutoff),
    decreases b.len(),
{
    if b.len() == 0 {
        assert(a + b == a);
        assert(prompts_after(a, cutoff) + prompts_after(b, cutoff) == prompts_after(a, cutoff));
    } else {
        lemma_prompts_concat(a, b.drop_last(), cutoff);
        assert((a + b).drop_last() == a + b.drop_last());
        assert((a + b).last() == b.last());
        let head = prompts_after(a, cutoff);
        let tail = prompts_after(b.drop_last(), cutoff);
        assert((head + tail).push(b.last().prompt) == head + tail.push(b.last().prompt));
    }
}

/// A prompt that was captured no later than a commit, and so had its chance to be folded into it,
/// is not folded into the next one: with the time of that commit as the cutoff, only the entries
/// that came later count.
pub proof fn law_prompts_are_folded_once(
    earlier: Seq<EntryView>,
    newer: Seq<EntryView>,
    commit: Moment,
)
    requires
        forall|i: int|
            0 <= i < earlier.len() ==> (match moment_of((#[trigger] earlier[i]).timestamp) {
                Some(m) => !later(m, commit),
                None => false,
            }),
    ensures
        prompts_after(earlier + newer, Some(commit)) == prompts_after(newer, Some(commit)),
    decreases earlier.len(),
{
    lemma_prompts_concat(earlier, newer, Some(commit));
    lemma_none_belong(earlier, commit);
    assert(prompts_after(earlier, Some(commit)) + prompts_after(newer, Some(commit))
        == prompts_after(newer, Some(commit)));
}

proof fn lemma_none_belong(entries: Seq<EntryView>, commit: Moment)
    requires
        forall|i: int|
            0 <= i < entries.len() ==> (match moment_of((#[trigger] entries[i]).timestamp) {
                Some(m) => !later(m, commit),
                None => false,
            }),
    ensures
        prompts_after(entries, Some(commit)).len() == 0,
    decreases entries.len(),
{
    if entries.len() > 0 {
        assert(entries.last() == entries[entries.len() - 1]);
        assert forall|i: int| 0 <= i < entries.drop_last().len() implies (match moment_of(
            (#[trigger] entries.drop_last()[i]).timestamp,
        ) {
            Some(m) => !later(m, commit),
            None => false,
        }) by {
            assert(entries.drop_last()[i] == entries[i]);
        }
        lemma_none_belong(entries.drop_last(), commit);
    }
}

/// Every prompt that was captured after the parent of a change, or at an unknown time, is among
/// those folded into the change.
pub proof fn law_no_prompt_is_lost(entries: Seq<EntryView>, cutoff: Option<Moment>, i: int)
    requires
        0 <= i < entries.len(),
        belongs(moment_of(entries[i].timestamp), cutoff),
    ensures
        prompts_after(entries, cutoff).contains(entries[i].prompt),
    decreases entries.len(),
{
    let all = prompts_after(entries, cutoff);
    let last = entries.len() - 1;
    if i == last {
        assert(all[all.len() - 1] == entries[i].prompt);
    } else {
        law_no_prompt_is_lost(entries.drop_last(), cutoff, i);
        let init = prompts_after(entries.drop_last(), cutoff);
        let k = choose|k: int| 0 <= k < init.len() && init[k] == entries[i].prompt;
        assert(all[k] == entries[i].prompt);
    }
}

/// The entries in a log with these records. One in another form than this library writes is read
/// by `other`, and skipped where that cannot read it.
pub open spec fn entries_in(
    records: Seq<Seq<char>>,
    other: spec_fn(Seq<char>) -> Option<EntryView>,
) -> Seq<EntryView>
    decreases records.len(),
{
    if records.len() == 0 {
        seq![]
    } else {
        let front = entries_in(records.drop_last(), other);
        match entry_of(records.last()) {
            Some(entry) => front.push(entry),
            None => match other(records.last()) {
                Some(entry) => front.push(entry),
                None => front,
            },
        }
    }
}

/// The prompts in a log that reads `content`, after `cutoff`.
pub open spec fn prompts_of(
    content: Seq<char>,
    other: spec_fn(Seq<char>) -> Option<EntryView>,
    cutoff: Option<Moment>,
) -> Seq<Seq<char>> {
    prompts_after(entries_in(log_of(content), other), cutoff)
}

/// Whether a log to which `appended` is appended has `prompt` as its last prompt, behind those
/// that it had: whatever the log is, if only its last line is complete.
pub open spec fn adds_prompt(appended: Seq<char>, prompt: Seq<char>) -> bool {
    forall|content: Seq<char>, other: spec_fn(Seq<char>) -> Option<EntryView>|
        content.len() == 0 || content.last() == '\n' ==> #[trigger] prompts_of(
            content + appended,
            other,
            None,
        ) == prompts_of(content, other, None).push(prompt)
}

/// A new entry comes last among all prompts, and leaves the earlier ones as they were.
pub proof fn law_new_prompts_come_last(entries: Seq<EntryView>, entry: EntryView)
    ensures
        prompts_after(entries.push(entry), None) == prompts_after(entries, None).push(
            entry.prompt,
        ),
{
    assert(entries.push(entry).drop_last() =~= entries);
}

/// A prompt belongs to a change exactly where it was captured later than the parent of the change
/// was committed: in nanoseconds since 1970, its time is the greater number. The entries are
/// looked at one by one, in their order. Where one of the two times is unknown, the prompt belongs.
pub proof fn law_later_prompts_belong(entries: Seq<EntryView>, entry: EntryView, cutoff: Moment)
    requires
        cutoff.nanos < 1_000_000_000,
        rfc3339(entry.timestamp) matches Some(time) ==> time.1 < 1_000_000_000,
    ensures
        prompts_after(Seq::<EntryView>::empty(), Some(cutoff)) == Seq::<Seq<char>>::empty(),
        prompts_after(entries.push(entry), Some(cutoff)) == match rfc3339(entry.timestamp) {
            Some(time) => if time.0 * 1_000_000_000 + time.1 > cutoff.secs * 1_000_000_000
                + cutoff.nanos {
                prompts_after(entries, Some(cutoff)).push(entry.prompt)
            } else {
                prompts_after(entries, Some(cutoff))
            },
            None => prompts_after(entries, Some(cutoff)).push(entry.prompt),
        },
        prompts_after(Seq::<EntryView>::empty(), None) == Seq::<Seq<char>>::empty(),
        prompts_after(entries.push(entry), None) == prompts_after(entries, None).push(
            entry.prompt,
        ),
{
    assert(entries.push(entry).drop_last() =~= entries);
}

/// The time of a commit is that of its milliseconds: both are the same number of nanoseconds since
/// 1970. Outside the calendar there is none.
pub proof fn law_commit_times_are_exact(millis: i64)
    ensures
        parent_time(None) is None,
        match parent_time(Some(millis)) {
            Some(moment) => {
                &&& moment.nanos < 1_000_000_000
                &&& moment.secs * 1_000_000_000 + moment.nanos == millis * 1_000_000
                &&& -8_334_601_228_800_000 <= millis <= 8_210_266_876_799_999
            },
            None => millis < -8_334_601_228_800_000 || millis > 8_210_266_876_799_999,
        },
{
}

/// Of two different moments exactly one is later.
pub proof fn law_moments_are_ordered(a: Moment, b: Moment)
    ensures
        a == b ==> !later(a, b),
        a != b ==> (later(a, b) <==> !later(b, a)),
        a.nanos < 1_000_000_000 && b.nanos < 1_000_000_000 ==> (later(a, b) <==> a.secs
            * 1_000_000_000 + a.nanos > b.secs * 1_000_000_000 + b.nanos),
{
}

/// A log is read from its beginning, entry by entry: a record that this library wrote gives its
/// entry, another one what `other` makes of it, and one that cannot be read gives none.
pub proof fn law_records_are_read_in_order(
    records: Seq<Seq<char>>,
    record: Seq<char>,
    other: spec_fn(Seq<char>) -> Option<EntryView>,
)
    ensures
        entries_in(Seq::<Seq<char>>::empty(), other) == Seq::<EntryView>::empty(),
        entries_in(records.push(record), other) == match (entry_of(record), other(record)) {
            (Some(entry), _) => entries_in(records, other).push(entry),
            (None, Some(entry)) => entries_in(records, other).push(entry),
            (None, None) => entries_in(records, other),
        },
{
    assert(records.push(record).drop_last() =~= records);
}

/// When the record of an entry is appended to a log, its prompt is read back as the last one,
/// behind the prompts that were there.
pub proof fn law_added_prompts_are_read_back(record: Seq<char>, entry: EntryView)
    requires
        is_record(record),
        entry_of(record) == Some(entry),
    ensures
        adds_prompt(record.push('\n'), entry.prompt),
{
    assert forall|content: Seq<char>, other: spec_fn(Seq<char>) -> Option<EntryView>|
        content.len() == 0 || content.last() == '\n' implies #[trigger] prompts_of(
        content + record.push('\n'),
        other,
        None,
    ) == prompts_of(content, other, None).push(entry.prompt) by {
        law_log_reads_back(content, record);
        let before = log_of(content);
        assert(before.push(record).drop_last() =~= before);
        law_new_prompts_come_last(entries_in(before, other), entry);
    }
}

} // verus!
