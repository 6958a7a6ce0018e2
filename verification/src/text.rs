//! Strings as sequences of characters: trimming, splitting, replacing, joining.

use vstd::prelude::*;
use vstd::utf8::{decode_utf8, valid_utf8};

verus! {

// ---------------------------------------------------------------------------
// Model
// ---------------------------------------------------------------------------

/// The characters with the Unicode property `White_Space`.
pub open spec fn is_white(c: char) -> bool {
    ||| '\u{9}' <= c <= '\u{d}'
    ||| c == '\u{20}'
    ||| c == '\u{85}'
    ||| c == '\u{a0}'
    ||| c == '\u{1680}'
    ||| '\u{2000}' <= c <= '\u{200a}'
    ||| c == '\u{2028}'
    ||| c == '\u{2029}'
    ||| c == '\u{202f}'
    ||| c == '\u{205f}'
    ||| c == '\u{3000}'
}

/// `s` without its leading white space.
pub open spec fn trim_start(s: Seq<char>) -> Seq<char>
    decreases s.len(),
{
    if s.len() > 0 && is_white(s[0]) {
        trim_start(s.skip(1))
    } else {
        s
    }
}

/// `s` without its trailing white space.
pub open spec fn trim_end(s: Seq<char>) -> Seq<char>
    decreases s.len(),
{
    if s.len() > 0 && is_white(s.last()) {
        trim_end(s.drop_last())
    } else {
        s
    }
}

/// `s` without its leading and trailing white space.
pub open spec fn trim(s: Seq<char>) -> Seq<char> {
    trim_end(trim_start(s))
}

/// How many characters of `s` stand before the first `sep`; all of them where there is none.
pub open spec fn until(s: Seq<char>, sep: char) -> nat
    decreases s.len(),
{
    if s.len() == 0 || s[0] == sep {
        0
    } else {
        1 + until(s.skip(1), sep)
    }
}

/// How many characters of `s` stand before the first white space.
pub open spec fn until_white(s: Seq<char>) -> nat
    decreases s.len(),
{
    if s.len() == 0 || is_white(s[0]) {
        0
    } else {
        1 + until_white(s.skip(1))
    }
}

/// `s` without one trailing carriage return.
pub open spec fn strip_cr(s: Seq<char>) -> Seq<char> {
    if s.len() > 0 && s.last() == '\r' {
        s.drop_last()
    } else {
        s
    }
}

/// The lines of `s`: each ends at `\n` or `\r\n`, which is not part of it; a last line
/// may lack its ending.
pub open spec fn lines(s: Seq<char>) -> Seq<Seq<char>>
    decreases s.len(),
{
    let n = until(s, '\n');
    if s.len() == 0 {
        seq![]
    } else if n >= s.len() {
        seq![s]
    } else {
        seq![strip_cr(s.take(n as int))] + lines(s.skip(n as int + 1))
    }
}

/// The pieces of `s` between the occurrences of `sep`.
pub open spec fn split(s: Seq<char>, sep: char) -> Seq<Seq<char>>
    decreases s.len(),
{
    let n = until(s, sep);
    if n >= s.len() {
        seq![s]
    } else {
        seq![s.take(n as int)] + split(s.skip(n as int + 1), sep)
    }
}

/// The maximal runs of characters that are not white space.
pub open spec fn words(s: Seq<char>) -> Seq<Seq<char>>
    decreases s.len(),
{
    if s.len() == 0 {
        seq![]
    } else if is_white(s[0]) {
        words(s.skip(1))
    } else {
        proof {
            lemma_until_white(s);
        }
        let n = until_white(s);
        seq![s.take(n as int)] + words(s.skip(n as int))
    }
}

/// `s` with every occurrence of `from` replaced by `to`, from the left and without overlap.
pub open spec fn replace_all(s: Seq<char>, from: Seq<char>, to: Seq<char>) -> Seq<char>
    decreases s.len(),
{
    if from.len() == 0 || s.len() < from.len() {
        s
    } else if s.take(from.len() as int) == from {
        to + replace_all(s.skip(from.len() as int), from, to)
    } else {
        seq![s[0]] + replace_all(s.skip(1), from, to)
    }
}

/// The `parts`, one after the other, with `sep` between them.
pub open spec fn join(parts: Seq<Seq<char>>, sep: Seq<char>) -> Seq<char>
    decreases parts.len(),
{
    if parts.len() == 0 {
        seq![]
    } else if parts.len() == 1 {
        parts[0]
    } else {
        join(parts.drop_last(), sep) + sep + parts.last()
    }
}

/// The `parts`, one after the other.
pub open spec fn concat(parts: Seq<Seq<char>>) -> Seq<char>
    decreases parts.len(),
{
    if parts.len() == 0 {
        seq![]
    } else {
        concat(parts.drop_last()) + parts.last()
    }
}

/// The small letter for a capital one, in ASCII.
pub open spec fn ascii_lower(c: char) -> char {
    if 'A' <= c <= 'Z' {
        (c as u32 + 32) as char
    } else {
        c
    }
}

/// `c`, `n` times.
pub open spec fn repeated(c: char, n: nat) -> Seq<char> {
    Seq::new(n, |i: int| c)
}

/// The decimal digit `d`.
pub open spec fn digit(d: nat) -> char {
    (48 + d) as char
}

/// `n` in decimal notation.
pub open spec fn decimal(n: nat) -> Seq<char>
    decreases n,
{
    if n < 10 {
        seq![digit(n)]
    } else {
        decimal(n / 10).push(digit(n % 10))
    }
}

/// What a string holds, where there is one.
pub open spec fn opt_text(r: Option<String>) -> Option<Seq<char>> {
    match r {
        Some(s) => Some(s@),
        None => None,
    }
}

/// What a string holds, where there is one.
pub open spec fn opt_str(r: Option<&str>) -> Option<Seq<char>> {
    match r {
        Some(s) => Some(s@),
        None => None,
    }
}

/// What each string of `v` holds.
pub open spec fn views(v: Seq<String>) -> Seq<Seq<char>> {
    v.map_values(|s: String| s@)
}

// ---------------------------------------------------------------------------
// Lemmas
// ---------------------------------------------------------------------------

pub broadcast proof fn lemma_views_push(v: Seq<String>, s: String)
    ensures
        #[trigger] views(v.push(s)) == views(v).push(s@),
{
    assert(views(v.push(s)) =~= views(v).push(s@));
}

pub proof fn lemma_until(s: Seq<char>, sep: char)
    ensures
        until(s, sep) <= s.len(),
        forall|i: int| 0 <= i < until(s, sep) ==> s[i] != sep,
        until(s, sep) < s.len() ==> s[until(s, sep) as int] == sep,
    decreases s.len(),
{
    if s.len() > 0 && s[0] != sep {
        lemma_until(s.skip(1), sep);
        assert forall|i: int| 0 <= i < until(s, sep) implies s[i] != sep by {
            if i > 0 {
                assert(s[i] == s.skip(1)[i - 1]);
            }
        }
    }
}

/// `until` is the only number with the properties of [`lemma_until`].
pub proof fn lemma_until_is(s: Seq<char>, sep: char, n: nat)
    requires
        n <= s.len(),
        forall|i: int| 0 <= i < n ==> s[i] != sep,
        n < s.len() ==> s[n as int] == sep,
    ensures
        until(s, sep) == n,
{
    lemma_until(s, sep);
    let m = until(s, sep);
    if m < n {
        assert(s[m as int] == sep);
    } else if n < m {
        assert(s[n as int] == sep);
    }
}

pub proof fn lemma_until_white(s: Seq<char>)
    ensures
        until_white(s) <= s.len(),
        forall|i: int| 0 <= i < until_white(s) ==> !is_white(s[i]),
        until_white(s) < s.len() ==> is_white(s[until_white(s) as int]),
    decreases s.len(),
{
    if s.len() > 0 && !is_white(s[0]) {
        lemma_until_white(s.skip(1));
        assert forall|i: int| 0 <= i < until_white(s) implies !is_white(s[i]) by {
            if i > 0 {
                assert(s[i] == s.skip(1)[i - 1]);
            }
        }
    }
}

pub proof fn lemma_until_white_is(s: Seq<char>, n: nat)
    requires
        n <= s.len(),
        forall|i: int| 0 <= i < n ==> !is_white(s[i]),
        n < s.len() ==> is_white(s[n as int]),
    ensures
        until_white(s) == n,
{
    lemma_until_white(s);
    let m = until_white(s);
    if m < n {
        assert(is_white(s[m as int]));
    } else if n < m {
        assert(is_white(s[n as int]));
    }
}

/// The lines of a text that ends a line, followed by another text, are the lines of both.
pub proof fn lemma_lines_concat(a: Seq<char>, b: Seq<char>)
    ensures
        lines(a.push('\n') + b) == lines(a.push('\n')) + lines(b),
    decreases a.len(),
{
    let first = a.push('\n');
    let whole = first + b;
    let n = until(first, '\n');
    lemma_until(first, '\n');
    if n == first.len() {
        assert(first[a.len() as int] == '\n');
    }
    lemma_until_is(whole, '\n', n);
    assert(whole.take(n as int) == first.take(n as int));
    if n < a.len() {
        let rest = a.skip(n as int + 1);
        assert(first.skip(n as int + 1) == rest.push('\n'));
        assert(whole.skip(n as int + 1) == rest.push('\n') + b);
        lemma_lines_concat(rest, b);
        let head = seq![strip_cr(first.take(n as int))];
        assert(head + (lines(rest.push('\n')) + lines(b)) == (head + lines(rest.push('\n')))
            + lines(b));
    } else {
        assert(first.skip(n as int + 1) == Seq::<char>::empty());
        assert(whole.skip(n as int + 1) == b);
        let head = seq![strip_cr(first.take(n as int))];
        assert(head + lines(Seq::<char>::empty()) == head);
    }
}

/// No line of a text holds a newline.
pub proof fn lemma_lines_pieces(s: Seq<char>)
    ensures
        forall|i: int| 0 <= i < lines(s).len() ==> !(#[trigger] lines(s)[i]).contains('\n'),
    decreases s.len(),
{
    let n = until(s, '\n');
    lemma_until(s, '\n');
    if s.len() == 0 {
    } else if n >= s.len() {
        assert(lines(s) =~= seq![s]);
    } else {
        let head = s.take(n as int);
        let rest = s.skip(n as int + 1);
        lemma_lines_pieces(rest);
        assert(!strip_cr(head).contains('\n'));
        assert(lines(s) =~= seq![strip_cr(head)] + lines(rest));
        assert forall|i: int| 0 <= i < lines(s).len() implies !(#[trigger] lines(s)[i]).contains(
            '\n',
        ) by {
            if i > 0 {
                assert(lines(s)[i] == lines(rest)[i - 1]);
            }
        }
    }
}

/// A text that neither begins nor ends with white space is trimmed.
pub proof fn lemma_trim_plain(s: Seq<char>)
    requires
        s.len() > 0,
        !is_white(s[0]),
        !is_white(s.last()),
    ensures
        trim(s) == s,
{
}

/// White space at the end of a text does not matter for what is left when it is trimmed.
pub proof fn lemma_trim_push(s: Seq<char>, c: char)
    requires
        is_white(c),
    ensures
        trim(s.push(c)) == trim(s),
    decreases s.len(),
{
    let t = s.push(c);
    if s.len() == 0 {
        assert(t.skip(1) == s);
    } else if is_white(s[0]) {
        assert(t.skip(1) == s.skip(1).push(c));
        lemma_trim_push(s.skip(1), c);
    } else {
        assert(t.drop_last() == s);
    }
}

/// A text without a newline, once it is ended, is one line.
pub proof fn lemma_lines_one(x: Seq<char>)
    requires
        !x.contains('\n'),
    ensures
        lines(x.push('\n')) == seq![strip_cr(x)],
{
    let s = x.push('\n');
    assert forall|i: int| 0 <= i < x.len() implies s[i] != '\n' by {
        assert(x.contains(x[i]));
    }
    lemma_until_is(s, '\n', x.len());
    assert(s.take(x.len() as int) == x);
    assert(s.skip(x.len() as int + 1) == Seq::<char>::empty());
    assert(seq![strip_cr(x)] + lines(Seq::<char>::empty()) == seq![strip_cr(x)]);
}

/// No piece of a split text holds the separator.
pub proof fn lemma_split_pieces(s: Seq<char>, sep: char)
    ensures
        split(s, sep).len() > 0,
        forall|i: int| 0 <= i < split(s, sep).len() ==> !(#[trigger] split(s, sep)[i]).contains(sep),
        forall|i: int, c: char|
            0 <= i < split(s, sep).len() && !s.contains(c) ==> !(#[trigger] split(
                s,
                sep,
            )[i].contains(c)),
    decreases s.len(),
{
    let n = until(s, sep);
    lemma_until(s, sep);
    if n < s.len() {
        let rest = s.skip(n as int + 1);
        lemma_split_pieces(rest, sep);
        assert forall|i: int| 0 <= i < split(s, sep).len() implies !(#[trigger] split(
            s,
            sep,
        )[i]).contains(sep) by {
            if i > 0 {
                assert(split(s, sep)[i] == split(rest, sep)[i - 1]);
            }
        }
        assert forall|i: int, c: char|
            0 <= i < split(s, sep).len() && !s.contains(c) implies !(#[trigger] split(
            s,
            sep,
        )[i].contains(c)) by {
            if i > 0 {
                assert(split(s, sep)[i] == split(rest, sep)[i - 1]);
                if rest.contains(c) {
                    let k = choose|k: int| 0 <= k < rest.len() && rest[k] == c;
                    assert(s[k + n + 1] == c);
                    assert(s.contains(c));
                }
            } else {
                let piece = s.take(n as int);
                if piece.contains(c) {
                    let k = choose|k: int| 0 <= k < piece.len() && piece[k] == c;
                    assert(s[k] == c);
                    assert(s.contains(c));
                }
            }
        }
    }
}

/// Replacing one character by a text without it leaves none.
pub proof fn lemma_replace_char(s: Seq<char>, from: Seq<char>, to: Seq<char>)
    requires
        from.len() == 1,
        !to.contains(from[0]),
    ensures
        !replace_all(s, from, to).contains(from[0]),
    decreases s.len(),
{
    let c = from[0];
    let r = replace_all(s, from, to);
    if s.len() >= 1 {
        lemma_replace_char(s.skip(1), from, to);
        let rest = replace_all(s.skip(1), from, to);
        let head = if s.take(1) == from {
            to
        } else {
            seq![s[0]]
        };
        if s.take(1) != from && s[0] == c {
            assert(s.take(1) =~= from);
        }
        if r.contains(c) {
            let k = choose|k: int| 0 <= k < r.len() && r[k] == c;
            if k < head.len() {
                assert(head[k] == c);
                assert(head.contains(c));
            } else {
                assert(rest[k - head.len()] == c);
                assert(rest.contains(c));
            }
        }
    }
}

/// A part at the end comes last.
pub proof fn lemma_concat_push(parts: Seq<Seq<char>>, part: Seq<char>)
    ensures
        concat(parts.push(part)) == concat(parts) + part,
{
    assert(parts.push(part).drop_last() == parts);
}

// ---------------------------------------------------------------------------
// Laws
// ---------------------------------------------------------------------------

/// Space, tab, line ends, and the wider spaces of Unicode are white; nothing else is.
pub proof fn law_white_space(c: char)
    ensures
        is_white(c) <==> {
            ||| c == ' ' || c == '\t' || c == '\n' || c == '\r' || c == '\u{b}' || c == '\u{c}'
            ||| c == '\u{85}' || c == '\u{a0}' || c == '\u{1680}' || c == '\u{3000}'
            ||| '\u{2000}' <= c <= '\u{200a}'
            ||| c == '\u{2028}' || c == '\u{2029}' || c == '\u{202f}' || c == '\u{205f}'
        },
{
}

/// Trimming takes the white space off both ends of a text, and nothing else.
pub proof fn law_trim_takes_the_ends(front: Seq<char>, middle: Seq<char>, back: Seq<char>)
    requires
        forall|i: int| 0 <= i < front.len() ==> is_white(#[trigger] front[i]),
        forall|i: int| 0 <= i < back.len() ==> is_white(#[trigger] back[i]),
        middle.len() > 0 ==> !is_white(middle[0]) && !is_white(middle.last()),
    ensures
        trim(front + middle + back) == middle,
    decreases front.len() + back.len(),
{
    let s = front + middle + back;
    if front.len() > 0 {
        assert(s[0] == front[0]);
        assert(s.skip(1) =~= front.skip(1) + middle + back);
        assert forall|i: int| 0 <= i < front.skip(1).len() implies is_white(
            #[trigger] front.skip(1)[i],
        ) by {
            assert(front.skip(1)[i] == front[i + 1]);
        }
        law_trim_takes_the_ends(front.skip(1), middle, back);
    } else if back.len() > 0 {
        assert(s =~= (front + middle + back.drop_last()).push(back.last()));
        assert forall|i: int| 0 <= i < back.drop_last().len() implies is_white(
            #[trigger] back.drop_last()[i],
        ) by {
            assert(back.drop_last()[i] == back[i]);
        }
        assert(is_white(back[back.len() - 1]));
        lemma_trim_push(front + middle + back.drop_last(), back.last());
        law_trim_takes_the_ends(front, middle, back.drop_last());
    } else {
        assert(s =~= middle);
        if middle.len() > 0 {
            lemma_trim_plain(middle);
        }
    }
}

/// Every text is what is left of it after trimming, with white space around.
pub proof fn law_trimmed_texts_stand_in_white_space(s: Seq<char>) -> (r: (Seq<char>, Seq<char>))
    ensures
        s == r.0 + trim(s) + r.1,
        forall|i: int| 0 <= i < r.0.len() ==> is_white(#[trigger] r.0[i]),
        forall|i: int| 0 <= i < r.1.len() ==> is_white(#[trigger] r.1[i]),
        trim(s).len() > 0 ==> !is_white(trim(s)[0]) && !is_white(trim(s).last()),
    decreases s.len(),
{
    if s.len() == 0 {
        assert(s =~= Seq::<char>::empty() + trim(s) + Seq::<char>::empty());
        (Seq::empty(), Seq::empty())
    } else if is_white(s[0]) {
        let (front, back) = law_trimmed_texts_stand_in_white_space(s.skip(1));
        let more = seq![s[0]] + front;
        assert(s =~= seq![s[0]] + s.skip(1));
        assert(s =~= more + trim(s) + back);
        assert forall|i: int| 0 <= i < more.len() implies is_white(#[trigger] more[i]) by {
            if i > 0 {
                assert(more[i] == front[i - 1]);
            }
        }
        (more, back)
    } else if is_white(s.last()) {
        let short = s.drop_last();
        let (front, back) = law_trimmed_texts_stand_in_white_space(short);
        assert(s =~= short.push(s.last()));
        lemma_trim_push(short, s.last());
        assert(s =~= front + trim(s) + back.push(s.last()));
        (front, back.push(s.last()))
    } else {
        assert(s =~= Seq::<char>::empty() + trim(s) + Seq::<char>::empty());
        (Seq::empty(), Seq::empty())
    }
}

/// A text up to a newline is a line, without a carriage return before the newline; what follows
/// the newline is read on its own. A text without a newline is one line, and an empty one none.
pub proof fn law_lines_end_at_newlines(line: Seq<char>, rest: Seq<char>)
    requires
        !line.contains('\n'),
    ensures
        lines(line) == if line.len() == 0 {
            Seq::<Seq<char>>::empty()
        } else {
            seq![line]
        },
        lines(line + seq!['\n'] + rest) == seq![
            if line.len() > 0 && line.last() == '\r' {
                line.drop_last()
            } else {
                line
            },
        ] + lines(rest),
{
    assert forall|i: int| 0 <= i < line.len() implies line[i] != '\n' by {
        assert(line.contains(line[i]));
    }
    lemma_until_is(line, '\n', line.len());
    assert(line + seq!['\n'] + rest =~= line.push('\n') + rest);
    lemma_lines_concat(line, rest);
    lemma_lines_one(line);
}

/// A text up to a separator is a piece, and what follows the separator is split on its own. A text
/// without the separator is one piece.
pub proof fn law_pieces_end_at_separators(piece: Seq<char>, sep: char, rest: Seq<char>)
    requires
        !piece.contains(sep),
    ensures
        split(piece, sep) == seq![piece],
        split(piece + seq![sep] + rest, sep) == seq![piece] + split(rest, sep),
{
    let s = piece + seq![sep] + rest;
    assert forall|i: int| 0 <= i < piece.len() implies piece[i] != sep by {
        assert(piece.contains(piece[i]));
    }
    lemma_until_is(piece, sep, piece.len());
    lemma_until_is(s, sep, piece.len());
    assert(s.take(piece.len() as int) =~= piece);
    assert(s.skip(piece.len() as int + 1) =~= rest);
}

/// White space holds no word. A run of other characters that white space follows is a word,
/// whatever white space comes before it, and what follows is read on its own.
pub proof fn law_words_end_at_white_space(front: Seq<char>, word: Seq<char>, rest: Seq<char>)
    requires
        forall|i: int| 0 <= i < front.len() ==> is_white(#[trigger] front[i]),
        word.len() > 0,
        forall|i: int| 0 <= i < word.len() ==> !is_white(#[trigger] word[i]),
        rest.len() > 0 ==> is_white(rest[0]),
    ensures
        words(front) == Seq::<Seq<char>>::empty(),
        words(front + word + rest) == seq![word] + words(rest),
    decreases front.len(),
{
    let s = front + word + rest;
    if front.len() > 0 {
        let less = front.skip(1);
        assert(s[0] == front[0]);
        assert(s.skip(1) =~= less + word + rest);
        assert forall|i: int| 0 <= i < less.len() implies is_white(#[trigger] less[i]) by {
            assert(less[i] == front[i + 1]);
        }
        law_words_end_at_white_space(less, word, rest);
    } else {
        assert(s =~= word + rest);
        assert forall|i: int| 0 <= i < word.len() implies !is_white(s[i]) by {
            assert(s[i] == word[i]);
        }
        lemma_until_white_is(s, word.len());
        assert(s.take(word.len() as int) =~= word);
        assert(s.skip(word.len() as int) =~= rest);
    }
}

/// The leftmost occurrence of a text gives way to the other, what stands before it stays, and what
/// follows it is treated on its own.
pub proof fn law_the_leftmost_occurrence_is_replaced(
    before: Seq<char>,
    from: Seq<char>,
    after: Seq<char>,
    to: Seq<char>,
)
    requires
        from.len() > 0,
        forall|k: int|
            0 <= k < before.len() ==> #[trigger] (before + from + after).subrange(
                k,
                k + from.len(),
            ) != from,
    ensures
        replace_all(before + from + after, from, to) == before + to + replace_all(after, from, to),
    decreases before.len(),
{
    let s = before + from + after;
    if before.len() == 0 {
        assert(s.take(from.len() as int) =~= from);
        assert(s.skip(from.len() as int) =~= after);
        assert(to + replace_all(after, from, to) =~= before + to + replace_all(after, from, to));
    } else {
        let less = before.skip(1);
        let t = less + from + after;
        assert(s.skip(1) =~= t);
        assert(s.take(from.len() as int) =~= s.subrange(0int, 0int + from.len()));
        assert forall|k: int| 0 <= k < less.len() implies #[trigger] t.subrange(k, k + from.len())
            != from by {
            assert(t.subrange(k, k + from.len()) =~= s.subrange(k + 1, k + 1 + from.len()));
        }
        law_the_leftmost_occurrence_is_replaced(less, from, after, to);
        assert(seq![s[0]] + (less + to + replace_all(after, from, to)) =~= before + to
            + replace_all(after, from, to));
    }
}

/// A text without an occurrence stays as it is.
pub proof fn law_nothing_else_is_replaced(s: Seq<char>, from: Seq<char>, to: Seq<char>)
    requires
        from.len() > 0,
        forall|k: int|
            0 <= k <= s.len() - from.len() ==> #[trigger] s.subrange(k, k + from.len()) != from,
    ensures
        replace_all(s, from, to) == s,
    decreases s.len(),
{
    if s.len() >= from.len() {
        let t = s.skip(1);
        assert(s.take(from.len() as int) =~= s.subrange(0int, 0int + from.len()));
        assert forall|k: int| 0 <= k <= t.len() - from.len() implies #[trigger] t.subrange(
            k,
            k + from.len(),
        ) != from by {
            assert(t.subrange(k, k + from.len()) =~= s.subrange(k + 1, k + 1 + from.len()));
        }
        law_nothing_else_is_replaced(t, from, to);
        assert(seq![s[0]] + t =~= s);
    }
}

/// Where a text occurs once, the other takes its place, and everything around it stays.
pub proof fn law_a_single_occurrence_is_replaced(
    before: Seq<char>,
    from: Seq<char>,
    after: Seq<char>,
    to: Seq<char>,
)
    requires
        from.len() > 0,
        forall|k: int|
            0 <= k <= before.len() + after.len() && k != before.len() ==> #[trigger] (before + from
                + after).subrange(k, k + from.len()) != from,
    ensures
        replace_all(before + from + after, from, to) == before + to + after,
{
    let s = before + from + after;
    law_the_leftmost_occurrence_is_replaced(before, from, after, to);
    assert forall|k: int| 0 <= k <= after.len() - from.len() implies #[trigger] after.subrange(
        k,
        k + from.len(),
    ) != from by {
        let at = before.len() + from.len() + k;
        assert(after.subrange(k, k + from.len()) =~= s.subrange(at, at + from.len()));
    }
    law_nothing_else_is_replaced(after, from, to);
}

/// Joined texts stand one after the other, with the separator between each two.
pub proof fn law_joined_texts_follow_each_other(
    parts: Seq<Seq<char>>,
    part: Seq<char>,
    sep: Seq<char>,
)
    ensures
        join(Seq::<Seq<char>>::empty(), sep) == Seq::<char>::empty(),
        join(seq![part], sep) == part,
        parts.len() > 0 ==> join(parts.push(part), sep) == join(parts, sep) + sep + part,
{
    assert(parts.push(part).drop_last() =~= parts);
}

/// Texts that are put together stand one after the other.
pub proof fn law_parts_follow_each_other(parts: Seq<Seq<char>>, part: Seq<char>)
    ensures
        concat(Seq::<Seq<char>>::empty()) == Seq::<char>::empty(),
        concat(parts.push(part)) == concat(parts) + part,
{
    lemma_concat_push(parts, part);
}

/// A number is written with its last digit last, behind the digits of the tens.
pub proof fn law_numbers_are_written_in_decimal(n: nat)
    ensures
        decimal(n).len() > 0,
        decimal(n).last() as int == '0' as int + n % 10,
        n < 10 ==> decimal(n).len() == 1,
        n >= 10 ==> decimal(n).drop_last() == decimal(n / 10),
{
    if n >= 10 {
        assert(decimal(n).drop_last() =~= decimal(n / 10));
    }
}

/// Joined texts begin with the first of them; behind the separator come the others.
pub proof fn law_joined_texts_begin_with_the_first(parts: Seq<Seq<char>>, sep: Seq<char>)
    requires
        parts.len() > 1,
    ensures
        join(parts, sep) == parts[0] + sep + join(parts.skip(1), sep),
    decreases parts.len(),
{
    let tail = parts.skip(1);
    let front = parts.drop_last();
    assert(tail.last() == parts.last());
    if parts.len() == 2 {
        assert(join(front, sep) == parts[0]);
        assert(join(tail, sep) == parts[1]);
    } else {
        law_joined_texts_begin_with_the_first(front, sep);
        assert(tail.drop_last() =~= front.skip(1));
        assert(parts[0] + sep + join(front.skip(1), sep) + sep + parts.last() =~= parts[0] + sep + (
        join(front.skip(1), sep) + sep + parts.last()));
    }
}

/// Texts without a character, joined by it, are taken apart again.
pub proof fn law_joined_texts_are_split_again(parts: Seq<Seq<char>>, sep: char)
    requires
        parts.len() > 0,
        forall|i: int| 0 <= i < parts.len() ==> !(#[trigger] parts[i]).contains(sep),
    ensures
        split(join(parts, seq![sep]), sep) == parts,
    decreases parts.len(),
{
    assert(!parts[0].contains(sep));
    if parts.len() == 1 {
        law_pieces_end_at_separators(parts[0], sep, seq![]);
        assert(seq![parts[0]] =~= parts);
    } else {
        let tail = parts.skip(1);
        assert forall|i: int| 0 <= i < tail.len() implies !(#[trigger] tail[i]).contains(sep) by {
            assert(tail[i] == parts[i + 1]);
        }
        law_joined_texts_are_split_again(tail, sep);
        law_joined_texts_begin_with_the_first(parts, seq![sep]);
        law_pieces_end_at_separators(parts[0], sep, join(tail, seq![sep]));
        assert(seq![parts[0]] + tail =~= parts);
    }
}

/// The lines of a text without carriage returns, joined by newlines, are the text again, where it
/// does not end with a newline.
pub proof fn law_lines_are_joined_again(s: Seq<char>)
    requires
        !s.contains('\r'),
        s.len() > 0 ==> s.last() != '\n',
    ensures
        join(lines(s), seq!['\n']) == s,
    decreases s.len(),
{
    let n = until(s, '\n');
    lemma_until(s, '\n');
    if s.len() == 0 {
        assert(join(lines(s), seq!['\n']) =~= s);
    } else if n >= s.len() {
        assert(lines(s) =~= seq![s]);
    } else {
        let head = s.take(n as int);
        let rest = s.skip(n as int + 1);
        assert(strip_cr(head) == head) by {
            if head.len() > 0 && head.last() == '\r' {
                assert(s[head.len() - 1] == '\r');
                assert(s.contains('\r'));
            }
        }
        assert(!rest.contains('\r')) by {
            if rest.contains('\r') {
                let k = choose|k: int| 0 <= k < rest.len() && rest[k] == '\r';
                assert(s[k + n + 1] == '\r');
            }
        }
        assert(rest.len() > 0);
        assert(rest.last() == s.last());
        law_lines_are_joined_again(rest);
        let all = lines(s);
        assert(all =~= seq![head] + lines(rest));
        assert(lines(rest).len() > 0);
        assert(all.skip(1) =~= lines(rest));
        law_joined_texts_begin_with_the_first(all, seq!['\n']);
        assert(s =~= head + seq!['\n'] + rest);
    }
}

/// Different numbers are written differently.
pub proof fn law_numbers_are_told_apart(a: nat, b: nat)
    requires
        decimal(a) == decimal(b),
    ensures
        a == b,
    decreases a,
{
    law_numbers_are_written_in_decimal(a);
    law_numbers_are_written_in_decimal(b);
    assert(a % 10 == b % 10);
    if a >= 10 && b >= 10 {
        law_numbers_are_told_apart(a / 10, b / 10);
    } else if a >= 10 {
        law_numbers_are_written_in_decimal(a / 10);
        assert(decimal(a).len() == decimal(a / 10).len() + 1);
    } else if b >= 10 {
        law_numbers_are_written_in_decimal(b / 10);
        assert(decimal(b).len() == decimal(b / 10).len() + 1);
    }
}

/// What is said of strings is said of each of them, in full and in their order.
pub proof fn law_strings_are_seen_whole(v: Seq<String>, s: String, t: &str)
    ensures
        views(v).len() == v.len(),
        forall|i: int| 0 <= i < v.len() ==> #[trigger] views(v)[i] == v[i]@,
        opt_text(Some(s)) == Some(s@),
        opt_text(None) is None,
        opt_str(Some(t)) == Some(t@),
        opt_str(None) is None,
{
}

/// A capital letter of ASCII becomes the small one; every other character stays.
pub proof fn law_small_letters(c: char)
    ensures
        'A' <= c <= 'Z' ==> ascii_lower(c) as int - 'a' as int == c as int - 'A' as int,
        !('A' <= c <= 'Z') ==> ascii_lower(c) == c,
{
}

/// A character that is repeated stands in a text so many times, and nothing else does.
pub proof fn law_repeated_characters(c: char, n: nat)
    ensures
        repeated(c, n).len() == n,
        forall|i: int| 0 <= i < n ==> #[trigger] repeated(c, n)[i] == c,
{
}

// ---------------------------------------------------------------------------
// Characters of a string
// ---------------------------------------------------------------------------

/// `String::push` appends the character at the end of the string.
pub assume_specification[ String::push ](s: &mut String, c: char)
    ensures
        final(s)@ == old(s)@.push(c),
;

/// The characters of `s`.
pub fn chars(s: &str) -> (r: Vec<char>)
    ensures
        r@ == s@,
{
    let mut r: Vec<char> = Vec::new();
    for c in it: s.chars()
        invariant
            it.seq() == s@,
            r@ == s@.take(it.index() as int),
    {
        r.push(c);
    }
    r
}

/// What `String::from_utf8_lossy` makes of bytes that are not UTF-8: invalid sequences give way
/// to U+FFFD.
pub uninterp spec fn utf8_lossy(bytes: Seq<u8>) -> Seq<char>;

/// `String::from_utf8_lossy`: the string that the bytes encode where they are valid UTF-8, and
/// otherwise a string that follows from the bytes alone.
#[verifier::external_body]
pub(crate) fn lossy_text(bytes: &[u8]) -> (r: String)
    ensures
        r@ == utf8_lossy(bytes@),
        valid_utf8(bytes@) ==> r@ == decode_utf8(bytes@),
{
    String::from_utf8_lossy(bytes).into_owned()
}

/// `String::from_utf8`: the string that the bytes encode; `None` where they are not valid UTF-8.
#[verifier::external_body]
pub(crate) fn strict_text(bytes: &Vec<u8>) -> (r: Option<String>)
    ensures
        r is Some <==> valid_utf8(bytes@),
        r matches Some(s) ==> s@ == decode_utf8(bytes@),
{
    String::from_utf8(bytes.clone()).ok()
}

/// The string made of the characters of `v` from `from` up to `to`.
pub fn text_of(v: &Vec<char>, from: usize, to: usize) -> (r: String)
    requires
        from <= to <= v@.len(),
    ensures
        r@ == v@.subrange(from as int, to as int),
{
    let mut r = String::new();
    let mut i: usize = from;
    while i < to
        invariant
            from <= i <= to <= v@.len(),
            r@ == v@.subrange(from as int, i as int),
        decreases to - i,
    {
        r.push(v[i]);
        i += 1;
        assert(v@.subrange(from as int, i as int) == v@.subrange(from as int, i - 1).push(v@[i - 1]));
    }
    r
}

/// Whether `a` and `b` hold the same characters.
pub fn same(a: &str, b: &str) -> (r: bool)
    ensures
        r == (a@ == b@),
{
    let x = a.to_owned();
    let y = b.to_owned();
    x == y
}

/// Whether `s` begins with `prefix`.
pub fn starts_with(s: &str, prefix: &str) -> (r: bool)
    ensures
        r == prefix@.is_prefix_of(s@),
{
    let v = chars(s);
    let p = chars(prefix);
    if p.len() > v.len() {
        return false;
    }
    let mut i: usize = 0;
    while i < p.len()
        invariant
            i <= p@.len() <= v@.len(),
            forall|j: int| 0 <= j < i ==> p@[j] == v@[j],
            v@ == s@,
            p@ == prefix@,
        decreases p@.len() - i,
    {
        if p[i] != v[i] {
            return false;
        }
        i += 1;
    }
    assert(p@ == v@.subrange(0, p@.len() as int));
    true
}

/// Whether `s` begins with `c`.
pub fn starts_with_char(s: &str, c: char) -> (r: bool)
    ensures
        r == (s@.len() > 0 && s@[0] == c),
{
    let v = chars(s);
    v.len() > 0 && v[0] == c
}

/// Copies of the strings.
pub fn copies(v: &[String]) -> (r: Vec<String>)
    ensures
        views(r@) == views(v@),
{
    broadcast use lemma_views_push;

    let mut r: Vec<String> = Vec::new();
    let ghost all = views(v@);
    let mut i: usize = 0;
    while i < v.len()
        invariant
            i <= v@.len(),
            all == views(v@),
            views(r@) == all.take(i as int),
        decreases v@.len() - i,
    {
        r.push(v[i].clone());
        assert(all.take(i + 1) == all.take(i as int).push(all[i as int]));
        i += 1;
    }
    assert(all.take(i as int) == all);
    r
}

/// Whether `c` is white space.
pub fn white(c: char) -> (r: bool)
    ensures
        r == is_white(c),
{
    ('\u{9}' <= c && c <= '\u{d}') || c == '\u{20}' || c == '\u{85}' || c == '\u{a0}' || c
        == '\u{1680}' || ('\u{2000}' <= c && c <= '\u{200a}') || c == '\u{2028}' || c == '\u{2029}'
        || c == '\u{202f}' || c == '\u{205f}' || c == '\u{3000}'
}

// ---------------------------------------------------------------------------
// Trimming
// ---------------------------------------------------------------------------

/// Where the part of `v` between `from` and `to` that is left after trimming begins and ends.
pub fn trim_bounds(v: &Vec<char>, from: usize, to: usize) -> (r: (usize, usize))
    requires
        from <= to <= v@.len(),
    ensures
        from <= r.0 <= r.1 <= to,
        v@.subrange(r.0 as int, r.1 as int) == trim(v@.subrange(from as int, to as int)),
{
    let ghost whole = v@.subrange(from as int, to as int);
    let mut lo: usize = from;
    while lo < to && white(v[lo])
        invariant
            from <= lo <= to <= v@.len(),
            trim_start(v@.subrange(lo as int, to as int)) == trim_start(
                v@.subrange(from as int, to as int),
            ),
        decreases to - lo,
    {
        assert(v@.subrange(lo as int, to as int).skip(1) == v@.subrange(lo + 1, to as int));
        lo += 1;
    }
    assert(trim_start(whole) == v@.subrange(lo as int, to as int));
    let mut hi: usize = to;
    while hi > lo && white(v[hi - 1])
        invariant
            from <= lo <= hi <= to <= v@.len(),
            trim_end(v@.subrange(lo as int, hi as int)) == trim_end(
                v@.subrange(lo as int, to as int),
            ),
        decreases hi,
    {
        assert(v@.subrange(lo as int, hi as int).drop_last() == v@.subrange(lo as int, hi - 1));
        hi -= 1;
    }
    (lo, hi)
}

/// `s` without its leading and trailing white space.
pub fn trimmed(s: &str) -> (r: String)
    ensures
        r@ == trim(s@),
{
    let v = chars(s);
    let (lo, hi) = trim_bounds(&v, 0, v.len());
    assert(v@.subrange(0, v@.len() as int) == s@);
    text_of(&v, lo, hi)
}

/// Whether `s` holds nothing but white space.
pub fn is_blank(s: &str) -> (r: bool)
    ensures
        r == (trim(s@).len() == 0),
{
    let v = chars(s);
    let (lo, hi) = trim_bounds(&v, 0, v.len());
    assert(v@.subrange(0, v@.len() as int) == s@);
    lo == hi
}

// ---------------------------------------------------------------------------
// Splitting and joining
// ---------------------------------------------------------------------------

/// The lines of `s`.
pub fn lines_of(s: &str) -> (r: Vec<String>)
    ensures
        views(r@) == lines(s@),
{
    let v = chars(s);
    let mut r: Vec<String> = Vec::new();
    let mut start: usize = 0;
    let mut i: usize = 0;
    assert(v@.skip(0) == s@);
    while i < v.len()
        invariant
            start <= i <= v@.len(),
            forall|j: int| start <= j < i ==> v@[j] != '\n',
            lines(s@) == views(r@) + lines(v@.skip(start as int)),
        decreases v@.len() - i,
    {
        if v[i] == '\n' {
            let ghost rest = v@.skip(start as int);
            let ghost before = views(r@);
            let end: usize = if i > start && v[i - 1] == '\r' {
                i - 1
            } else {
                i
            };
            let line = text_of(&v, start, end);
            proof {
                lemma_until_is(rest, '\n', (i - start) as nat);
                let cut = rest.take(i - start);
                assert(rest.skip(i - start + 1) == v@.skip(i + 1));
                assert(strip_cr(cut) == line@) by {
                    if end < i {
                        assert(cut.drop_last() == v@.subrange(start as int, end as int));
                    } else {
                        assert(cut == v@.subrange(start as int, end as int));
                    }
                }
                assert(lines(rest) == seq![line@] + lines(v@.skip(i + 1)));
            }
            r.push(line);
            proof {
                assert(views(r@) == before.push(line@));
                assert(views(r@) + lines(v@.skip(i + 1)) == before + (seq![line@] + lines(
                    v@.skip(i + 1),
                )));
            }
            start = i + 1;
        }
        i += 1;
    }
    let ghost before = views(r@);
    if start < v.len() {
        let line = text_of(&v, start, v.len());
        proof {
            let rest = v@.skip(start as int);
            lemma_until_is(rest, '\n', rest.len());
            assert(line@ == rest);
        }
        r.push(line);
        assert(views(r@) == before.push(line@));
        assert(views(r@) == before + seq![line@]);
    } else {
        assert(views(r@) == before + lines(v@.skip(start as int)));
    }
    r
}

/// The pieces of `s` between the occurrences of `sep`.
pub fn split_at(s: &str, sep: char) -> (r: Vec<String>)
    ensures
        views(r@) == split(s@, sep),
{
    let v = chars(s);
    let mut r: Vec<String> = Vec::new();
    let mut start: usize = 0;
    let mut i: usize = 0;
    assert(v@.skip(0) == s@);
    while i < v.len()
        invariant
            start <= i <= v@.len(),
            forall|j: int| start <= j < i ==> v@[j] != sep,
            split(s@, sep) == views(r@) + split(v@.skip(start as int), sep),
        decreases v@.len() - i,
    {
        if v[i] == sep {
            let ghost rest = v@.skip(start as int);
            let ghost before = views(r@);
            let piece = text_of(&v, start, i);
            proof {
                lemma_until_is(rest, sep, (i - start) as nat);
                assert(rest.skip(i - start + 1) == v@.skip(i + 1));
                assert(rest.take(i - start) == piece@);
            }
            r.push(piece);
            proof {
                assert(views(r@) == before.push(piece@));
                assert(views(r@) + split(v@.skip(i + 1), sep) == before + (seq![piece@] + split(
                    v@.skip(i + 1),
                    sep,
                )));
            }
            start = i + 1;
        }
        i += 1;
    }
    let ghost before = views(r@);
    let piece = text_of(&v, start, v.len());
    proof {
        let rest = v@.skip(start as int);
        lemma_until_is(rest, sep, rest.len());
        assert(piece@ == rest);
    }
    r.push(piece);
    assert(views(r@) == before.push(piece@));
    assert(views(r@) == before + seq![piece@]);
    r
}

/// The words of `s`.
pub fn words_of(s: &str) -> (r: Vec<String>)
    ensures
        views(r@) == words(s@),
{
    let v = chars(s);
    let mut r: Vec<String> = Vec::new();
    let mut i: usize = 0;
    assert(v@.skip(0) == s@);
    while i < v.len()
        invariant
            i <= v@.len(),
            words(s@) == views(r@) + words(v@.skip(i as int)),
        decreases v@.len() - i,
    {
        let ghost rest = v@.skip(i as int);
        if white(v[i]) {
            assert(rest.skip(1) == v@.skip(i + 1));
            i += 1;
        } else {
            let ghost before = views(r@);
            let start: usize = i;
            while i < v.len() && !white(v[i])
                invariant
                    start <= i <= v@.len(),
                    forall|j: int| start <= j < i ==> !is_white(v@[j]),
                decreases v@.len() - i,
            {
                i += 1;
            }
            let word = text_of(&v, start, i);
            proof {
                lemma_until_white_is(rest, (i - start) as nat);
                assert(rest.take(i - start) == word@);
                assert(rest.skip(i - start) == v@.skip(i as int));
            }
            r.push(word);
            proof {
                assert(views(r@) == before.push(word@));
                assert(views(r@) + words(v@.skip(i as int)) == before + (seq![word@] + words(
                    v@.skip(i as int),
                )));
            }
        }
    }
    assert(views(r@) + words(v@.skip(i as int)) == views(r@));
    r
}

/// `s` with every occurrence of `from` replaced by `to`.
pub fn replaced(s: &str, from: &str, to: &str) -> (r: String)
    ensures
        r@ == replace_all(s@, from@, to@),
{
    let v = chars(s);
    let p = chars(from);
    let mut r = String::new();
    if p.len() == 0 {
        return s.to_owned();
    }
    let mut i: usize = 0;
    assert(v@.skip(0) == s@);
    while i < v.len()
        invariant
            i <= v@.len(),
            p@.len() > 0,
            p@ == from@,
            replace_all(s@, from@, to@) == r@ + replace_all(v@.skip(i as int), from@, to@),
        decreases v@.len() - i,
    {
        let ghost rest = v@.skip(i as int);
        if occurs_at(&v, i, &p) {
            proof {
                assert(rest.skip(p@.len() as int) == v@.skip(i + p@.len()));
                assert(r@ + (to@ + replace_all(v@.skip(i + p@.len()), from@, to@)) == (r@ + to@)
                    + replace_all(v@.skip(i + p@.len()), from@, to@));
            }
            r.append(to);
            i += p.len();
        } else {
            proof {
                if rest.len() >= p@.len() {
                    assert(rest.skip(1) == v@.skip(i + 1));
                } else {
                    assert(replace_all(rest.skip(1), from@, to@) == rest.skip(1));
                    assert(seq![rest[0]] + rest.skip(1) == rest);
                    assert(rest.skip(1) == v@.skip(i + 1));
                }
                assert(r@ + (seq![v@[i as int]] + replace_all(v@.skip(i + 1), from@, to@))
                    == r@.push(v@[i as int]) + replace_all(v@.skip(i + 1), from@, to@));
            }
            r.push(v[i]);
            i += 1;
        }
    }
    assert(r@ + replace_all(v@.skip(i as int), from@, to@) == r@);
    r
}

/// Whether `p` stands in `v` at `i`.
fn occurs_at(v: &Vec<char>, i: usize, p: &Vec<char>) -> (r: bool)
    requires
        i <= v@.len(),
    ensures
        r == (v@.skip(i as int).len() >= p@.len() && v@.skip(i as int).take(p@.len() as int)
            == p@),
{
    if v.len() - i < p.len() {
        return false;
    }
    let mut j: usize = 0;
    while j < p.len()
        invariant
            j <= p@.len(),
            i + p@.len() <= v.len(),
            forall|k: int| 0 <= k < j ==> v@[i + k] == p@[k],
        decreases p@.len() - j,
    {
        if v[i + j] != p[j] {
            assert(v@.skip(i as int).take(p@.len() as int)[j as int] != p@[j as int]);
            return false;
        }
        j += 1;
    }
    assert(v@.skip(i as int).take(p@.len() as int) == p@);
    true
}

/// The `parts`, one after the other, with `sep` between them.
pub fn joined(parts: &Vec<String>, sep: &str) -> (r: String)
    ensures
        r@ == join(views(parts@), sep@),
{
    let mut r = String::new();
    let mut i: usize = 0;
    let ghost all = views(parts@);
    while i < parts.len()
        invariant
            i <= parts@.len(),
            all == views(parts@),
            r@ == join(all.take(i as int), sep@),
        decreases parts@.len() - i,
    {
        assert(all.take(i + 1).drop_last() == all.take(i as int));
        if i > 0 {
            r.append(sep);
        }
        r.append(parts[i].as_str());
        i += 1;
        proof {
            if i == 1 {
                assert(r@ == all.take(1)[0]);
            }
        }
    }
    assert(all.take(i as int) == all);
    r
}

// ---------------------------------------------------------------------------
// Numbers and runs
// ---------------------------------------------------------------------------

/// The decimal digit `d`.
fn digit_char(d: usize) -> (r: char)
    requires
        d < 10,
    ensures
        r == digit(d as nat),
{
    (48u8 + d as u8) as char
}

/// `n` in decimal notation.
pub fn decimal_of(n: usize) -> (r: String)
    ensures
        r@ == decimal(n as nat),
    decreases n,
{
    if n < 10 {
        let mut r = String::new();
        r.push(digit_char(n));
        assert(r@ == seq![digit(n as nat)]);
        r
    } else {
        let mut r = decimal_of(n / 10);
        r.push(digit_char(n % 10));
        r
    }
}

/// `c`, `n` times.
pub fn repeat(c: char, n: usize) -> (r: String)
    ensures
        r@ == repeated(c, n as nat),
{
    let mut r = String::new();
    let mut i: usize = 0;
    while i < n
        invariant
            i <= n,
            r@ == repeated(c, i as nat),
        decreases n - i,
    {
        r.push(c);
        i += 1;
        assert(repeated(c, (i - 1) as nat).push(c) == repeated(c, i as nat));
    }
    r
}

} // verus!
