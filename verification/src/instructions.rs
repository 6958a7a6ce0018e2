//! Quoting prompts in a commit message.

use vstd::prelude::*;

use crate::prompt_store::PromptStore;
use crate::text::{
    chars, concat, join, joined, law_joined_texts_are_split_again,
    law_joined_texts_begin_with_the_first, lemma_lines_concat, lemma_lines_one, lemma_replace_char,
    lemma_split_pieces, lemma_views_push, lines, lines_of, replace_all, replaced, same, split,
    split_at, strip_cr, text_of, trim, trimmed, views,
};

verus! {

/// `s` without the newlines at its end.
pub open spec fn trim_newlines(s: Seq<char>) -> Seq<char>
    decreases s.len(),
{
    if s.len() > 0 && s.last() == '\n' {
        trim_newlines(s.drop_last())
    } else {
        s
    }
}

/// `s` without the newlines and carriage returns at its end.
pub open spec fn trim_line_ends(s: Seq<char>) -> Seq<char>
    decreases s.len(),
{
    if s.len() > 0 && (s.last() == '\n' || s.last() == '\r') {
        trim_line_ends(s.drop_last())
    } else {
        s
    }
}

/// `prompt` with `\n` for every line ending, and none at its end.
pub open spec fn normalized(prompt: Seq<char>) -> Seq<char> {
    trim_newlines(
        replace_all(replace_all(prompt, "\r\n"@, "\n"@), "\r"@, "\n"@),
    )
}

/// A line of a quote block.
pub open spec fn quoted_line(line: Seq<char>) -> Seq<char> {
    "> "@ + line + "\n"@
}

/// The lines of a quote block.
pub open spec fn quoted_lines(all: Seq<Seq<char>>) -> Seq<char>
    decreases all.len(),
{
    if all.len() == 0 {
        seq![]
    } else {
        quoted_lines(all.drop_last()) + quoted_line(all.last())
    }
}

/// `prompt` as a quote block.
pub open spec fn quote(prompt: Seq<char>) -> Seq<char> {
    quoted_lines(split(normalized(prompt), '\n'))
}

/// The quote blocks of the prompts.
pub open spec fn quotes(prompts: Seq<Seq<char>>) -> Seq<Seq<char>> {
    prompts.map_values(|p: Seq<char>| quote(p))
}

/// The line that heads the section.
pub open spec fn heading_line(heading: Seq<char>) -> Seq<char> {
    heading + ":"@
}

/// Whether one of the lines of `message` is the heading; white space around either does not count.
pub open spec fn has_heading(message: Seq<char>, heading: Seq<char>) -> bool {
    exists|i: int|
        0 <= i < lines(message).len() && trim(#[trigger] lines(message)[i]) == trim(
            heading_line(heading),
        )
}

/// `message` with a section that quotes the prompts.
pub open spec fn with_section(
    message: Seq<char>,
    heading: Seq<char>,
    prompts: Seq<Seq<char>>,
) -> Seq<char> {
    let base = trim_line_ends(message);
    let gap = if base.len() > 0 {
        "\n\n"@
    } else {
        ""@
    };
    base + gap + heading + ":\n"@ + join(quotes(prompts), "\n"@)
}

/// `message` with the prompts folded into it: unchanged where there are none, or where it has such
/// a section already.
pub open spec fn instructed(
    message: Seq<char>,
    heading: Seq<char>,
    prompts: Seq<Seq<char>>,
) -> Seq<char> {
    if prompts.len() == 0 || has_heading(message, heading) {
        message
    } else {
        with_section(message, heading, prompts)
    }
}

/// `s` without the newlines at its end.
fn without_newlines(s: &str) -> (r: String)
    ensures
        r@ == trim_newlines(s@),
{
    let v = chars(s);
    let mut hi: usize = v.len();
    assert(v@.subrange(0, hi as int) == s@);
    while hi > 0 && v[hi - 1] == '\n'
        invariant
            hi <= v@.len(),
            trim_newlines(v@.subrange(0, hi as int)) == trim_newlines(s@),
        decreases hi,
    {
        assert(v@.subrange(0, hi as int).drop_last() == v@.subrange(0, hi - 1));
        hi -= 1;
    }
    text_of(&v, 0, hi)
}

/// `s` without the newlines and carriage returns at its end.
fn without_line_ends(s: &str) -> (r: String)
    ensures
        r@ == trim_line_ends(s@),
{
    let v = chars(s);
    let mut hi: usize = v.len();
    assert(v@.subrange(0, hi as int) == s@);
    while hi > 0 && (v[hi - 1] == '\n' || v[hi - 1] == '\r')
        invariant
            hi <= v@.len(),
            trim_line_ends(v@.subrange(0, hi as int)) == trim_line_ends(s@),
        decreases hi,
    {
        assert(v@.subrange(0, hi as int).drop_last() == v@.subrange(0, hi - 1));
        hi -= 1;
    }
    text_of(&v, 0, hi)
}

/// Renders a prompt as a quote block, one `> ` for each line. Newlines at its end are dropped;
/// blank lines inside it are kept.
pub fn quote_prompt(prompt: &str) -> (r: String)
    ensures
        r@ == quote(prompt@),
{
    let unix = replaced(prompt, "\r\n", "\n");
    let unix = replaced(unix.as_str(), "\r", "\n");
    let unix = without_newlines(unix.as_str());
    let all = split_at(unix.as_str(), '\n');
    let ghost model = views(all@);
    let mut out = String::new();
    let mut i: usize = 0;
    while i < all.len()
        invariant
            i <= all@.len(),
            model == views(all@),
            out@ == quoted_lines(model.take(i as int)),
        decreases all@.len() - i,
    {
        let ghost before = out@;
        assert(model.take(i + 1).drop_last() == model.take(i as int));
        assert(model.take(i + 1).last() == all@[i as int]@);
        out.append("> ");
        out.append(all[i].as_str());
        out.append("\n");
        assert(out@ == before + quoted_line(all@[i as int]@));
        i += 1;
    }
    assert(model.take(i as int) == model);
    out
}

impl PromptStore {
    /// Whether the message already has a section of this heading.
    pub fn has_heading(&self, message: &str) -> (r: bool)
        ensures
            r == has_heading(message@, self.heading@),
    {
        let target = trimmed(self.heading.clone().concat(":").as_str());
        let all = lines_of(message);
        let ghost model = lines(message@);
        let mut i: usize = 0;
        while i < all.len()
            invariant
                i <= all@.len(),
                model == lines(message@),
                views(all@) == model,
                target@ == trim(heading_line(self.heading@)),
                forall|j: int| 0 <= j < i ==> trim(#[trigger] model[j]) != target@,
            decreases all@.len() - i,
        {
            assert(views(all@)[i as int] == all@[i as int]@);
            let line = trimmed(all[i].as_str());
            if same(line.as_str(), target.as_str()) {
                assert(trim(lines(message@)[i as int]) == trim(heading_line(self.heading@)));
                return true;
            }
            i += 1;
        }
        false
    }

    /// Appends the section that quotes the prompts to a commit message. The message stays as it is
    /// where there are no prompts or the section is already there.
    pub fn append_instructions(&self, message: &str, prompts: &[String]) -> (r: String)
        ensures
            r@ == instructed(message@, self.heading@, views(prompts@)),
    {
        if prompts.len() == 0 || self.has_heading(message) {
            return message.to_owned();
        }
        let mut out = without_line_ends(message);
        proof {
            reveal_strlit("");
        }
        if !out.as_str().is_empty() {
            out.append("\n\n");
        }
        out.append(self.heading.as_str());
        out.append(":\n");
        let mut blocks: Vec<String> = Vec::new();
        let ghost all = quotes(views(prompts@));
        let mut i: usize = 0;
        while i < prompts.len()
            invariant
                i <= prompts@.len(),
                all == quotes(views(prompts@)),
                views(blocks@) == all.take(i as int),
            decreases prompts@.len() - i,
        {
            broadcast use lemma_views_push;

            blocks.push(quote_prompt(prompts[i].as_str()));
            assert(all.take(i + 1) == all.take(i as int).push(all[i as int]));
            i += 1;
        }
        assert(all.take(i as int) == all);
        let section = joined(&blocks, "\n");
        out.append(section.as_str());
        assert(out@ == with_section(message@, self.heading@, views(prompts@)));
        out
    }
}

// ---------------------------------------------------------------------------
// Laws of quoting
// ---------------------------------------------------------------------------

proof fn lemma_normalized(prompt: Seq<char>)
    ensures
        !normalized(prompt).contains('\r'),
{
    reveal_strlit("\r");
    reveal_strlit("\n");
    let unix = replace_all(prompt, "\r\n"@, "\n"@);
    assert("\r"@[0] == '\r');
    assert(!"\n"@.contains('\r'));
    lemma_replace_char(unix, "\r"@, "\n"@);
    lemma_trim_newlines(replace_all(unix, "\r"@, "\n"@), '\r');
}

proof fn lemma_trim_newlines(s: Seq<char>, c: char)
    requires
        !s.contains(c),
    ensures
        !trim_newlines(s).contains(c),
    decreases s.len(),
{
    if s.len() > 0 && s.last() == '\n' {
        let t = s.drop_last();
        if t.contains(c) {
            let k = choose|k: int| 0 <= k < t.len() && t[k] == c;
            assert(s[k] == c);
        }
        lemma_trim_newlines(t, c);
    }
}

/// The lines of a quote block are the lines that were quoted, each behind its mark.
proof fn lemma_quoted_lines(all: Seq<Seq<char>>)
    requires
        forall|i: int|
            0 <= i < all.len() ==> !(#[trigger] all[i]).contains('\n') && !all[i].contains('\r'),
    ensures
        lines(quoted_lines(all)) == all.map_values(|l: Seq<char>| "> "@ + l),
        all.len() > 0 ==> quoted_lines(all).len() > 0 && quoted_lines(all).last() == '\n',
    decreases all.len(),
{
    reveal_strlit("> ");
    reveal_strlit("\n");
    let marked = all.map_values(|l: Seq<char>| "> "@ + l);
    if all.len() == 0 {
        assert(lines(quoted_lines(all)) =~= marked);
    } else {
        let init = all.drop_last();
        let last = all.last();
        lemma_quoted_lines(init);
        let body = "> "@ + last;
        assert(quoted_line(last) == body.push('\n'));
        assert(!body.contains('\n')) by {
            if body.contains('\n') {
                let k = choose|k: int| 0 <= k < body.len() && body[k] == '\n';
                if k >= 2 {
                    assert(last[k - 2] == '\n');
                    assert(last.contains('\n'));
                }
            }
        }
        assert(strip_cr(body) == body) by {
            if body.last() == '\r' {
                if last.len() > 0 {
                    assert(last.last() == '\r');
                    assert(last.contains('\r'));
                }
            }
        }
        lemma_lines_one(body);
        if init.len() > 0 {
            let before = quoted_lines(init);
            assert(before == before.drop_last().push('\n'));
            lemma_lines_concat(before.drop_last(), quoted_line(last));
        } else {
            assert(quoted_lines(init) + quoted_line(last) == quoted_line(last));
        }
        assert(lines(quoted_lines(all)) =~= init.map_values(|l: Seq<char>| "> "@ + l).push(body));
        assert(marked =~= init.map_values(|l: Seq<char>| "> "@ + l).push(body));
    }
}

/// The lines of a quoted prompt are those of the prompt, whatever its line endings and without
/// newlines at its end, each behind the mark `> `.
pub proof fn law_quote_keeps_every_line(prompt: Seq<char>)
    ensures
        lines(quote(prompt)) == split(normalized(prompt), '\n').map_values(
            |l: Seq<char>| "> "@ + l,
        ),
{
    let text = normalized(prompt);
    lemma_normalized(prompt);
    lemma_split_pieces(text, '\n');
    assert forall|i: int| 0 <= i < split(text, '\n').len() implies !(#[trigger] split(
        text,
        '\n',
    )[i]).contains('\n') && !split(text, '\n')[i].contains('\r') by {}
    lemma_quoted_lines(split(text, '\n'));
}

/// `s` with a newline for each line ending.
spec fn unix(s: Seq<char>) -> Seq<char>
    decreases s.len(),
{
    if s.len() == 0 {
        s
    } else if s.len() > 1 && s[0] == '\r' && s[1] == '\n' {
        seq!['\n'] + unix(s.skip(2))
    } else if s[0] == '\r' {
        seq!['\n'] + unix(s.skip(1))
    } else {
        seq![s[0]] + unix(s.skip(1))
    }
}

proof fn lemma_unix(s: Seq<char>)
    ensures
        replace_all(replace_all(s, "\r\n"@, "\n"@), "\r"@, "\n"@) == unix(s),
    decreases s.len(),
{
    reveal_strlit("\r\n");
    reveal_strlit("\r");
    reveal_strlit("\n");
    assert("\n"@ =~= seq!['\n']);
    let t = replace_all(s, "\r\n"@, "\n"@);
    if s.len() == 0 {
        assert(t =~= s);
        assert(replace_all(t, "\r"@, "\n"@) =~= unix(s));
    } else if s.len() > 1 && s.take(2) == "\r\n"@ {
        assert(s.take(2)[0] == s[0] && s.take(2)[1] == s[1]);
        lemma_unix(s.skip(2));
        let rest = replace_all(s.skip(2), "\r\n"@, "\n"@);
        assert(t == "\n"@ + rest);
        assert(t.take(1)[0] == '\n');
        assert(t.skip(1) =~= rest);
        assert(t[0] == '\n');
    } else {
        if s.len() > 1 && s[0] == '\r' && s[1] == '\n' {
            assert(s.take(2) =~= "\r\n"@);
        }
        lemma_unix(s.skip(1));
        let rest = replace_all(s.skip(1), "\r\n"@, "\n"@);
        if s.len() == 1 {
            assert(rest =~= s.skip(1));
            assert(s =~= seq![s[0]] + s.skip(1));
        }
        assert(t == seq![s[0]] + rest);
        assert(t.skip(1) =~= rest);
        assert(t[0] == s[0]);
        if s[0] == '\r' {
            assert(t.take(1) =~= "\r"@);
        } else {
            assert(t.take(1)[0] != '\r');
        }
    }
}

/// A line stays as it is.
proof fn lemma_unix_line(line: Seq<char>, rest: Seq<char>)
    requires
        !line.contains('\r'),
    ensures
        unix(line + rest) == line + unix(rest),
    decreases line.len(),
{
    if line.len() == 0 {
        assert(line + rest =~= rest);
        assert(line + unix(rest) =~= unix(rest));
    } else {
        let less = line.skip(1);
        assert(line.contains(line[0]));
        assert(!less.contains('\r')) by {
            if less.contains('\r') {
                let k = choose|k: int| 0 <= k < less.len() && less[k] == '\r';
                assert(line[k + 1] == '\r');
            }
        }
        assert((line + rest).skip(1) =~= less + rest);
        lemma_unix_line(less, rest);
        assert(seq![line[0]] + (less + unix(rest)) =~= line + unix(rest));
    }
}

/// Line ends at the end of a text give way to newlines.
proof fn lemma_unix_ends(ends: Seq<char>)
    requires
        forall|i: int| 0 <= i < ends.len() ==> #[trigger] ends[i] == '\n' || ends[i] == '\r',
    ensures
        forall|i: int| 0 <= i < unix(ends).len() ==> #[trigger] unix(ends)[i] == '\n',
    decreases ends.len(),
{
    if ends.len() > 0 {
        let n: int = if ends.len() > 1 && ends[0] == '\r' && ends[1] == '\n' {
            2
        } else {
            1
        };
        let rest = ends.skip(n);
        assert forall|i: int| 0 <= i < rest.len() implies #[trigger] rest[i] == '\n' || rest[i]
            == '\r' by {
            assert(rest[i] == ends[i + n]);
        }
        lemma_unix_ends(rest);
        assert(ends[0] == '\n' || ends[0] == '\r');
        assert(unix(ends) =~= seq!['\n'] + unix(rest));
    }
}

/// Lines with one kind of ending between them, and line ends at the end.
proof fn lemma_unix_lines(all: Seq<Seq<char>>, sep: Seq<char>, ends: Seq<char>)
    requires
        all.len() > 0,
        forall|i: int|
            0 <= i < all.len() ==> !(#[trigger] all[i]).contains('\n') && !all[i].contains('\r'),
        sep == seq!['\n'] || sep == seq!['\r', '\n'] || sep == seq!['\r'],
        all.len() == 1 || all.last().len() > 0,
    ensures
        unix(join(all, sep) + ends) == join(all, seq!['\n']) + unix(ends),
    decreases all.len(),
{
    assert(!all[0].contains('\r'));
    if all.len() == 1 {
        lemma_unix_line(all[0], ends);
    } else {
        let tail = all.skip(1);
        assert forall|i: int| 0 <= i < tail.len() implies !(#[trigger] tail[i]).contains('\n')
            && !tail[i].contains('\r') by {
            assert(tail[i] == all[i + 1]);
        }
        assert(tail.last() == all.last());
        lemma_unix_lines(tail, sep, ends);
        law_joined_texts_begin_with_the_first(all, sep);
        law_joined_texts_begin_with_the_first(all, seq!['\n']);
        let rest = join(tail, sep) + ends;
        assert(join(all, sep) + ends =~= all[0] + (sep + rest));
        lemma_unix_line(all[0], sep + rest);
        let s = sep + rest;
        if sep == seq!['\r'] {
            // What follows the carriage return is no newline.
            if tail.len() > 1 {
                law_joined_texts_begin_with_the_first(tail, sep);
            }
            if tail[0].len() > 0 {
                assert(tail[0].contains(tail[0][0]));
                assert(rest[0] == tail[0][0]);
            } else {
                assert(rest[0] == '\r');
            }
            assert(s[0] == '\r' && s[1] == rest[0]);
            assert(s.skip(1) =~= rest);
        } else if sep == seq!['\n'] {
            assert(s[0] == '\n');
            assert(s.skip(1) =~= rest);
        } else {
            assert(s[0] == '\r' && s[1] == '\n');
            assert(s.skip(2) =~= rest);
        }
        assert(unix(s) == seq!['\n'] + unix(rest));
        assert(unix(join(all, sep) + ends) =~= join(all, seq!['\n']) + unix(ends));
    }
}

/// Newlines at the end are dropped, and nothing else is.
proof fn lemma_trim_newlines_is(text: Seq<char>, ends: Seq<char>)
    requires
        text.len() > 0 ==> text.last() != '\n',
        forall|i: int| 0 <= i < ends.len() ==> #[trigger] ends[i] == '\n',
    ensures
        trim_newlines(text + ends) == text,
    decreases ends.len(),
{
    let s = text + ends;
    if ends.len() > 0 {
        assert(s.last() == ends[ends.len() - 1]);
        assert(s.drop_last() =~= text + ends.drop_last());
        assert forall|i: int| 0 <= i < ends.drop_last().len() implies #[trigger] ends.drop_last()[i]
            == '\n' by {
            assert(ends.drop_last()[i] == ends[i]);
        }
        lemma_trim_newlines_is(text, ends.drop_last());
    } else {
        assert(s =~= text);
    }
}

/// Line ends at the end are dropped, and nothing else is.
proof fn lemma_trim_line_ends_is(text: Seq<char>, ends: Seq<char>)
    requires
        text.len() > 0 ==> text.last() != '\n' && text.last() != '\r',
        forall|i: int| 0 <= i < ends.len() ==> #[trigger] ends[i] == '\n' || ends[i] == '\r',
    ensures
        trim_line_ends(text + ends) == text,
    decreases ends.len(),
{
    let s = text + ends;
    if ends.len() > 0 {
        assert(s.last() == ends[ends.len() - 1]);
        assert(s.drop_last() =~= text + ends.drop_last());
        assert forall|i: int| 0 <= i < ends.drop_last().len() implies #[trigger] ends.drop_last()[i]
            == '\n' || ends.drop_last()[i] == '\r' by {
            assert(ends.drop_last()[i] == ends[i]);
        }
        lemma_trim_line_ends_is(text, ends.drop_last());
    } else {
        assert(s =~= text);
    }
}

proof fn lemma_quoted_lines_are_parts(all: Seq<Seq<char>>)
    ensures
        quoted_lines(all) == concat(all.map_values(|line: Seq<char>| "> "@ + line + "\n"@)),
    decreases all.len(),
{
    let parts = all.map_values(|line: Seq<char>| "> "@ + line + "\n"@);
    if all.len() > 0 {
        lemma_quoted_lines_are_parts(all.drop_last());
        assert(parts.drop_last() =~= all.drop_last().map_values(
            |line: Seq<char>| "> "@ + line + "\n"@,
        ));
        assert(parts.last() == "> "@ + all.last() + "\n"@);
    }
}

/// A prompt is quoted line by line, each line in full behind `> `, whichever of the three line
/// endings it has, and without the line ends after its last line.
pub proof fn law_every_line_is_quoted(all: Seq<Seq<char>>, sep: Seq<char>, ends: Seq<char>)
    requires
        all.len() > 0,
        forall|i: int|
            0 <= i < all.len() ==> !(#[trigger] all[i]).contains('\n') && !all[i].contains('\r'),
        all.len() == 1 || all.last().len() > 0,
        sep == seq!['\n'] || sep == seq!['\r', '\n'] || sep == seq!['\r'],
        forall|i: int| 0 <= i < ends.len() ==> #[trigger] ends[i] == '\n' || ends[i] == '\r',
    ensures
        quote(join(all, sep) + ends) == concat(
            all.map_values(|line: Seq<char>| "> "@ + line + "\n"@),
        ),
{
    let text = join(all, seq!['\n']);
    lemma_unix(join(all, sep) + ends);
    lemma_unix_lines(all, sep, ends);
    lemma_unix_ends(ends);
    assert(all[all.len() - 1] == all.last());
    assert(!all.last().contains('\n'));
    if text.len() > 0 && all.len() > 1 {
        assert(all.last().contains(all.last().last()));
        assert(text.last() == all.last().last());
    } else if text.len() > 0 {
        assert(text == all[0]);
        assert(all[0].contains(text.last()));
    }
    lemma_trim_newlines_is(text, unix(ends));
    law_joined_texts_are_split_again(all, '\n');
    lemma_quoted_lines_are_parts(all);
}

/// Where there are prompts and no line of the message is the heading, the message without the line
/// ends after it is followed by a blank line, the heading, and the quoted prompts in their order
/// with a blank line between each two.
pub proof fn law_prompts_are_appended(
    base: Seq<char>,
    ends: Seq<char>,
    heading: Seq<char>,
    prompts: Seq<Seq<char>>,
)
    requires
        base.len() > 0 ==> base.last() != '\n' && base.last() != '\r',
        forall|i: int| 0 <= i < ends.len() ==> #[trigger] ends[i] == '\n' || ends[i] == '\r',
        prompts.len() > 0,
        forall|i: int|
            0 <= i < lines(base + ends).len() ==> trim(#[trigger] lines(base + ends)[i]) != trim(
                heading + ":"@,
            ),
    ensures
        instructed(base + ends, heading, prompts) == if base.len() > 0 {
            base + "\n\n"@ + heading + ":\n"@ + join(
                prompts.map_values(|prompt: Seq<char>| quote(prompt)),
                "\n"@,
            )
        } else {
            heading + ":\n"@ + join(
                prompts.map_values(|prompt: Seq<char>| quote(prompt)),
                "\n"@,
            )
        },
{
    reveal_strlit("");
    lemma_trim_line_ends_is(base, ends);
    let blocks = prompts.map_values(|prompt: Seq<char>| quote(prompt));
    assert(quotes(prompts) =~= blocks);
    if base.len() == 0 {
        assert(base + ""@ + heading + ":\n"@ + join(blocks, "\n"@) =~= heading + ":\n"@ + join(
            blocks,
            "\n"@,
        ));
    }
}

/// A message stays as it is where there are no prompts, or where one of its lines is the heading.
pub proof fn law_nothing_is_appended_without_need(
    message: Seq<char>,
    heading: Seq<char>,
    prompts: Seq<Seq<char>>,
)
    requires
        prompts.len() == 0 || exists|i: int|
            0 <= i < lines(message).len() && trim(#[trigger] lines(message)[i]) == trim(
                heading + ":"@,
            ),
    ensures
        instructed(message, heading, prompts) == message,
{
}

/// A message with the section has its heading.
pub proof fn law_section_is_found(message: Seq<char>, heading: Seq<char>, prompts: Seq<Seq<char>>)
    requires
        !heading.contains('\n'),
    ensures
        has_heading(with_section(message, heading, prompts), heading),
{
    reveal_strlit("");
    reveal_strlit("\n\n");
    reveal_strlit(":");
    reveal_strlit(":\n");
    let base = trim_line_ends(message);
    let line = heading_line(heading);
    let rest = join(quotes(prompts), "\n"@);
    let out = with_section(message, heading, prompts);
    let tail = line.push('\n') + rest;
    assert(!line.contains('\n')) by {
        if line.contains('\n') {
            let k = choose|k: int| 0 <= k < line.len() && line[k] == '\n';
            if k < heading.len() {
                assert(heading[k] == '\n');
                assert(heading.contains('\n'));
            }
        }
    }
    lemma_lines_one(line);
    lemma_lines_concat(line, rest);
    assert(line.last() == ':');
    assert(lines(tail)[0] == line);
    if base.len() > 0 {
        let head = base.push('\n');
        assert(out =~= head.push('\n') + tail);
        lemma_lines_concat(head, tail);
        let k = lines(head.push('\n')).len() as int;
        assert(lines(out)[k] == line);
        assert(trim(lines(out)[k]) == trim(heading_line(heading)));
    } else {
        assert(out =~= tail);
        assert(trim(lines(out)[0]) == trim(heading_line(heading)));
    }
}

/// Folding prompts into a message that has them already changes nothing, whatever the heading, as
/// long as it is one line.
pub proof fn law_instructions_are_added_once(
    message: Seq<char>,
    heading: Seq<char>,
    prompts: Seq<Seq<char>>,
    again: Seq<Seq<char>>,
)
    requires
        !heading.contains('\n'),
        prompts.len() > 0,
    ensures
        instructed(instructed(message, heading, prompts), heading, again) == instructed(
            message,
            heading,
            prompts,
        ),
{
    if !has_heading(message, heading) {
        law_section_is_found(message, heading, prompts);
    }
}

} // verus!
