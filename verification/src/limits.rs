//! Cutting a text down to limits on its lines and bytes.

use vstd::prelude::*;
use vstd::utf8::{encode_scalar, encode_utf8};

use crate::text::{
    chars, lemma_lines_one, lemma_until, lemma_until_is, lines, strip_cr, text_of, until,
};

verus! {

/// Whether a text keeps the limits.
pub open spec fn fits(text: Seq<char>, max_lines: nat, max_bytes: nat) -> bool {
    lines(text).len() <= max_lines && encode_utf8(text).len() <= max_bytes
}

/// The longest of the first `n` beginnings of a text that keeps the limits.
pub open spec fn longest_fitting(
    text: Seq<char>,
    n: nat,
    max_lines: nat,
    max_bytes: nat,
) -> Seq<char>
    decreases n,
{
    if n == 0 || fits(text.take(n as int), max_lines, max_bytes) {
        text.take(n as int)
    } else {
        longest_fitting(text, (n - 1) as nat, max_lines, max_bytes)
    }
}

/// The longest beginning of a text that keeps the limits: all of it where it does.
pub open spec fn truncated(text: Seq<char>, max_lines: nat, max_bytes: nat) -> Seq<char> {
    longest_fitting(text, text.len(), max_lines, max_bytes)
}

// ---------------------------------------------------------------------------
// Lemmas
// ---------------------------------------------------------------------------

/// A character begins a new line where the text is empty or has just ended one.
proof fn lemma_lines_push(s: Seq<char>, c: char)
    ensures
        lines(s.push(c)).len() == lines(s).len() + if s.len() == 0 || s.last() == '\n' {
            1nat
        } else {
            0nat
        },
    decreases s.len(),
{
    let t = s.push(c);
    let n = until(s, '\n');
    lemma_until(s, '\n');
    if n >= s.len() {
        if c == '\n' {
            assert(!s.contains('\n'));
            lemma_lines_one(s);
        } else {
            lemma_until_is(t, '\n', t.len());
            assert(lines(t) =~= seq![t]);
        }
    } else {
        let rest = s.skip(n as int + 1);
        lemma_until_is(t, '\n', n);
        assert(t.skip(n as int + 1) =~= rest.push(c));
        assert(t.take(n as int) =~= s.take(n as int));
        lemma_lines_push(rest, c);
        assert(lines(t) == seq![strip_cr(t.take(n as int))] + lines(rest.push(c)));
        if rest.len() > 0 {
            assert(rest.last() == s.last());
        } else {
            assert(s.last() == '\n');
        }
    }
}

proof fn lemma_encode_push(s: Seq<char>, c: char)
    ensures
        encode_utf8(s.push(c)) == encode_utf8(s) + encode_scalar(c as u32),
    decreases s.len(),
{
    let t = s.push(c);
    if s.len() == 0 {
        assert(t.drop_first() =~= s);
        assert(encode_utf8(t) == encode_scalar(t[0] as u32) + encode_utf8(t.drop_first()));
        assert(encode_utf8(s) =~= Seq::<u8>::empty());
        assert(encode_utf8(t) =~= encode_scalar(c as u32));
        assert(encode_utf8(s) + encode_scalar(c as u32) =~= encode_scalar(c as u32));
    } else {
        assert(t.drop_first() =~= s.drop_first().push(c));
        lemma_encode_push(s.drop_first(), c);
        assert(encode_utf8(t) =~= encode_utf8(s) + encode_scalar(c as u32));
    }
}

/// A beginning of a text that fits fits.
proof fn lemma_shorter_fits(text: Seq<char>, m: nat, n: nat, max_lines: nat, max_bytes: nat)
    requires
        m <= n <= text.len(),
        fits(text.take(n as int), max_lines, max_bytes),
    ensures
        fits(text.take(m as int), max_lines, max_bytes),
    decreases n,
{
    if m < n {
        let shorter = text.take(n - 1);
        assert(text.take(n as int) =~= shorter.push(text[n - 1]));
        lemma_lines_push(shorter, text[n - 1]);
        lemma_encode_push(shorter, text[n - 1]);
        lemma_shorter_fits(text, m, (n - 1) as nat, max_lines, max_bytes);
    }
}

/// Where one more character does not fit, nothing longer does.
proof fn lemma_longest_is(text: Seq<char>, n: nat, i: nat, max_lines: nat, max_bytes: nat)
    requires
        i <= n <= text.len(),
        fits(text.take(i as int), max_lines, max_bytes),
        i == n || !fits(text.take(i as int + 1), max_lines, max_bytes),
    ensures
        longest_fitting(text, n, max_lines, max_bytes) == text.take(i as int),
    decreases n,
{
    if i < n {
        if fits(text.take(n as int), max_lines, max_bytes) {
            lemma_shorter_fits(text, i + 1, n, max_lines, max_bytes);
        }
        if i + 1 < n {
            lemma_longest_is(text, (n - 1) as nat, i, max_lines, max_bytes);
        } else {
            assert(longest_fitting(text, i, max_lines, max_bytes) == text.take(i as int));
        }
    }
}

proof fn lemma_longest(text: Seq<char>, n: nat, max_lines: nat, max_bytes: nat)
    requires
        n <= text.len(),
    ensures
        ({
            let cut = longest_fitting(text, n, max_lines, max_bytes);
            &&& cut.len() <= n
            &&& cut == text.take(cut.len() as int)
            &&& fits(cut, max_lines, max_bytes)
            &&& forall|k: int|
                cut.len() < k <= n ==> !fits(#[trigger] text.take(k), max_lines, max_bytes)
        }),
    decreases n,
{
    if n == 0 {
        assert(text.take(0) =~= Seq::<char>::empty());
    } else if !fits(text.take(n as int), max_lines, max_bytes) {
        lemma_longest(text, (n - 1) as nat, max_lines, max_bytes);
    }
}

/// What is left of a truncated text is its longest beginning that keeps the limits, and all of it
/// where that keeps them.
pub proof fn law_truncation_keeps_what_fits(text: Seq<char>, max_lines: nat, max_bytes: nat)
    ensures
        ({
            let cut = truncated(text, max_lines, max_bytes);
            &&& cut.is_prefix_of(text)
            &&& fits(cut, max_lines, max_bytes)
            &&& fits(text, max_lines, max_bytes) ==> cut == text
            &&& forall|k: int|
                cut.len() < k <= text.len() ==> !fits(#[trigger] text.take(k), max_lines, max_bytes)
        }),
{
    lemma_longest(text, text.len(), max_lines, max_bytes);
    let cut = truncated(text, max_lines, max_bytes);
    assert(text.take(text.len() as int) =~= text);
    assert(cut =~= text.subrange(0, cut.len() as int));
}

// ---------------------------------------------------------------------------
// Code
// ---------------------------------------------------------------------------

/// How many bytes a character takes.
fn byte_width(c: char) -> (r: usize)
    ensures
        r == encode_scalar(c as u32).len(),
        1 <= r <= 4,
{
    let scalar: u32 = c as u32;
    if scalar <= 0x7f {
        1
    } else if scalar <= 0x7ff {
        2
    } else if scalar <= 0xffff {
        3
    } else {
        4
    }
}

/// The longest beginning of a text that keeps the limits.
pub fn truncate(text: &str, max_lines: usize, max_bytes: usize) -> (r: String)
    ensures
        r@ == truncated(text@, max_lines as nat, max_bytes as nat),
{
    let v = chars(text);
    let ghost s = text@;
    let len: usize = v.len();
    let mut line_count: usize = 0;
    let mut byte_count: usize = 0;
    let mut i: usize = 0;
    let mut full = false;
    assert(s.take(0) =~= Seq::<char>::empty());
    while i < len && !full
        invariant
            i <= len == v@.len(),
            v@ == s,
            line_count <= i,
            line_count == lines(s.take(i as int)).len(),
            byte_count == encode_utf8(s.take(i as int)).len(),
            line_count <= max_lines,
            byte_count <= max_bytes,
            full ==> i < len && !fits(s.take(i + 1), max_lines as nat, max_bytes as nat),
        decreases len - i + if full { 0int } else { 1int },
    {
        let width: usize = byte_width(v[i]);
        let more: usize = if i == 0 || v[i - 1] == '\n' {
            line_count + 1
        } else {
            line_count
        };
        proof {
            let shorter = s.take(i as int);
            assert(s.take(i + 1) =~= shorter.push(s[i as int]));
            lemma_lines_push(shorter, s[i as int]);
            lemma_encode_push(shorter, s[i as int]);
        }
        if more > max_lines || width > max_bytes - byte_count {
            full = true;
        } else {
            line_count = more;
            byte_count += width;
            i += 1;
        }
    }
    proof {
        lemma_longest_is(s, s.len(), i as nat, max_lines as nat, max_bytes as nat);
        assert(s.take(i as int) =~= v@.subrange(0, i as int));
    }
    text_of(&v, 0, i)
}

} // verus!
