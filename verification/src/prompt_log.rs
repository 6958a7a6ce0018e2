//! The log of a workspace: one recorded prompt on each line.

use vstd::prelude::*;

use crate::text::{
    is_white, lemma_lines_concat, lemma_lines_one, lemma_views_push, lines, lines_of, strip_cr,
    trim, trim_end, trim_start, trimmed, views,
};

verus! {

/// The records of a log: its lines, trimmed, without the blank ones.
pub open spec fn records(all: Seq<Seq<char>>) -> Seq<Seq<char>>
    decreases all.len(),
{
    if all.len() == 0 {
        seq![]
    } else if trim(all.last()).len() > 0 {
        records(all.drop_last()).push(trim(all.last()))
    } else {
        records(all.drop_last())
    }
}

/// The records of a log that reads `content`.
pub open spec fn log_of(content: Seq<char>) -> Seq<Seq<char>> {
    records(lines(content))
}

/// Every line that is not blank is a record, without the white space around it, in its place.
pub proof fn law_records_are_the_lines(all: Seq<Seq<char>>, line: Seq<char>)
    ensures
        records(Seq::<Seq<char>>::empty()) == Seq::<Seq<char>>::empty(),
        records(all.push(line)) == if trim(line).len() > 0 {
            records(all).push(trim(line))
        } else {
            records(all)
        },
        forall|content: Seq<char>| #[trigger] log_of(content) == records(lines(content)),
{
    assert(all.push(line).drop_last() =~= all);
}

/// The records of a log that reads `content`.
pub fn log_records(content: &str) -> (r: Vec<String>)
    ensures
        views(r@) == log_of(content@),
{
    broadcast use lemma_views_push;

    let all = lines_of(content);
    let ghost model = lines(content@);
    let mut r: Vec<String> = Vec::new();
    let mut i: usize = 0;
    while i < all.len()
        invariant
            i <= all@.len(),
            views(all@) == model,
            views(r@) == records(model.take(i as int)),
        decreases all@.len() - i,
    {
        assert(views(all@)[i as int] == all@[i as int]@);
        assert(model.take(i + 1).drop_last() == model.take(i as int));
        assert(model.take(i + 1).last() == all@[i as int]@);
        let line = trimmed(all[i].as_str());
        if !line.as_str().is_empty() {
            r.push(line);
        }
        i += 1;
    }
    assert(model.take(i as int) == model);
    r
}

/// What is appended to a log to add the record `line`.
pub fn log_entry(line: &str) -> (r: String)
    ensures
        r@ == line@.push('\n'),
{
    let mut r = line.to_owned();
    r.push('\n');
    r
}

/// Whether a text can stand as a record of a log: it is one line, not blank, and trimmed.
pub open spec fn is_record(line: Seq<char>) -> bool {
    line.len() > 0 && !line.contains('\n') && trim(line) == line
}

/// What is appended to a log is read back as its last record, and the records before it stay as
/// they were.
pub proof fn law_log_reads_back(content: Seq<char>, line: Seq<char>)
    requires
        content.len() > 0 ==> content.last() == '\n',
        is_record(line),
    ensures
        log_of(content + line.push('\n')) == log_of(content).push(line),
{
    lemma_lines_one(line);
    assert(strip_cr(line) == line) by {
        if line.last() == '\r' {
            lemma_trim_shorter(line);
        }
    }
    let all = lines(content);
    if content.len() > 0 {
        assert(content == content.drop_last().push('\n'));
        lemma_lines_concat(content.drop_last(), line.push('\n'));
    } else {
        assert(content + line.push('\n') == line.push('\n'));
    }
    assert(lines(content + line.push('\n')) =~= all.push(line));
    assert(all.push(line).drop_last() == all);
}

/// A text that ends with white space is longer than what is left of it after trimming.
proof fn lemma_trim_shorter(s: Seq<char>)
    requires
        s.len() > 0,
        is_white(s.last()),
    ensures
        trim(s) != s,
{
    let t = trim_start(s);
    lemma_trim_start_suffix(s);
    if t.len() > 0 {
        assert(t.last() == s.last());
        lemma_trim_end_len(t.drop_last());
    }
}

proof fn lemma_trim_start_suffix(s: Seq<char>)
    ensures
        trim_start(s).len() <= s.len(),
        trim_start(s) == s.skip(s.len() - trim_start(s).len()),
    decreases s.len(),
{
    if s.len() > 0 && is_white(s[0]) {
        lemma_trim_start_suffix(s.skip(1));
        let t = trim_start(s);
        assert(s.skip(1).skip(s.skip(1).len() - t.len()) == s.skip(s.len() - t.len()));
    } else {
        assert(s.skip(0) == s);
    }
}

proof fn lemma_trim_end_len(s: Seq<char>)
    ensures
        trim_end(s).len() <= s.len(),
    decreases s.len(),
{
    if s.len() > 0 && is_white(s.last()) {
        lemma_trim_end_len(s.drop_last());
    }
}

} // verus!
