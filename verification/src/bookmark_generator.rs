//! Generating bookmark names.

use vstd::prelude::*;

use crate::text::{
    ascii_lower, chars, is_white, join, law_a_single_occurrence_is_replaced,
    law_joined_texts_are_split_again, law_joined_texts_begin_with_the_first,
    law_trim_takes_the_ends, lemma_split_pieces, lemma_trim_plain, lemma_until, opt_str,
    replace_all, replaced, split, split_at, trim, trimmed, until, views,
};

verus! {

/// Generates bookmark names with a model.
pub struct BookmarkGenerator<'a> {
    pub model: &'a str,
}

/// What comes after a reply of the model.
pub enum BookmarkStep {
    /// The reply is a name.
    Accepted(String),
    /// The model is asked once more, with an emphasized prompt.
    Retry,
    /// There is no name.
    Failed,
}

// ---------------------------------------------------------------------------
// Model
// ---------------------------------------------------------------------------

/// The characters that a name is made of, beside hyphens.
pub open spec fn is_name_char(c: char) -> bool {
    'a' <= c <= 'z' || '0' <= c <= '9'
}

/// A part of a name.
pub open spec fn is_name_part(part: Seq<char>) -> bool {
    part.len() > 0 && forall|i: int| 0 <= i < part.len() ==> is_name_char(#[trigger] part[i])
}

/// A bookmark name: two to eight parts joined by hyphens. It begins with a letter.
pub open spec fn is_bookmark_name(name: Seq<char>) -> bool {
    let parts = split(name, '-');
    &&& 2 <= parts.len() <= 8
    &&& forall|i: int| 0 <= i < parts.len() ==> is_name_part(#[trigger] parts[i])
    &&& 'a' <= name[0] <= 'z'
}

/// The text in lower case, as `str::to_lowercase` gives it.
pub uninterp spec fn lowercase(text: Seq<char>) -> Seq<char>;

/// The name in a reply; none where the command gave no reply, where it is blank, or where it is no
/// name.
pub open spec fn name_in(reply: Option<Seq<char>>) -> Option<Seq<char>> {
    match reply {
        Some(text) => if trim(text).len() > 0 && is_bookmark_name(lowercase(trim(text))) {
            Some(lowercase(trim(text)))
        } else {
            None
        },
        None => None,
    }
}

/// What a step is: the name where there is one, and whether the model is asked once more.
pub open spec fn step_view(step: BookmarkStep) -> (Option<Seq<char>>, bool) {
    match step {
        BookmarkStep::Accepted(name) => (Some(name@), false),
        BookmarkStep::Retry => (None, true),
        BookmarkStep::Failed => (None, false),
    }
}

/// What comes after the reply to a prompt that was emphasized, or was not.
pub open spec fn step_after(emphasize: bool, reply: Option<Seq<char>>) -> (Option<Seq<char>>, bool) {
    match name_in(reply) {
        Some(name) => (Some(name), false),
        None => (None, !emphasize),
    }
}

/// What the model is asked: the template with the summaries, behind the emphasis where there is
/// one.
pub open spec fn prompt_text(
    template: Seq<char>,
    summaries: Seq<char>,
    emphasis: Option<Seq<char>>,
) -> Seq<char> {
    let filled = replace_all(template, "{commit_summaries}"@, summaries);
    match emphasis {
        Some(text) => text + filled,
        None => filled,
    }
}

// ---------------------------------------------------------------------------
// Laws
// ---------------------------------------------------------------------------

/// Whatever the model replies, a name that comes out is a bookmark name.
pub proof fn law_generated_names_are_valid(emphasize: bool, reply: Option<Seq<char>>)
    ensures
        step_after(emphasize, reply).0 matches Some(name) ==> is_bookmark_name(name),
{
}

/// The model is asked at most twice, and a second time only where the first reply held no name.
pub proof fn law_the_model_is_asked_twice_at_most(reply: Option<Seq<char>>)
    ensures
        !step_after(true, reply).1,
        step_after(false, reply).1 <==> name_in(reply) is None,
{
}

/// A bookmark name has no characters but small letters, digits and hyphens.
pub proof fn law_names_are_plain(name: Seq<char>)
    requires
        is_bookmark_name(name),
    ensures
        name.len() >= 3,
        forall|i: int| 0 <= i < name.len() ==> is_name_char(#[trigger] name[i]) || name[i] == '-',
{
    lemma_split_chars(name, '-');
    assert forall|i: int| 0 <= i < name.len() implies is_name_char(#[trigger] name[i]) || name[i]
        == '-' by {
        if name[i] != '-' {
            let k = choose|k: int|
                0 <= k < split(name, '-').len() && (#[trigger] split(name, '-')[k]).contains(
                    name[i],
                );
            let part = split(name, '-')[k];
            let j = choose|j: int| 0 <= j < part.len() && part[j] == name[i];
            assert(is_name_part(part));
            assert(is_name_char(part[j]));
        }
    }
    reveal_with_fuel(split, 3);
    let n = until(name, '-');
    lemma_until(name, '-');
    let rest = name.skip(n as int + 1);
    lemma_split_pieces(rest, '-');
    assert(split(name, '-') == seq![name.take(n as int)] + split(rest, '-'));
    assert(split(name, '-')[0] == name.take(n as int));
    assert(split(name, '-')[1] == split(rest, '-')[0]);
    assert(is_name_part(split(name, '-')[0]));
    assert(is_name_part(split(name, '-')[1]));
    assert(rest.len() > 0);
}

/// Where the template holds the placeholder once, the whole text of the summaries takes its place
/// in one piece, and everything around it stays; the emphasis comes first.
pub proof fn law_summaries_stand_in_the_prompt(
    before: Seq<char>,
    after: Seq<char>,
    summaries: Seq<char>,
    emphasis: Option<Seq<char>>,
)
    requires
        forall|k: int|
            0 <= k <= before.len() + after.len() && k != before.len() ==> #[trigger] (before
                + "{commit_summaries}"@ + after).subrange(k, k + "{commit_summaries}"@.len())
                != "{commit_summaries}"@,
    ensures
        prompt_text(before + "{commit_summaries}"@ + after, summaries, emphasis) == match emphasis {
            Some(text) => text + before + summaries + after,
            None => before + summaries + after,
        },
{
    reveal_strlit("{commit_summaries}");
    law_a_single_occurrence_is_replaced(before, "{commit_summaries}"@, after, summaries);
    if let Some(text) = emphasis {
        assert(text + (before + summaries + after) =~= text + before + summaries + after);
    }
}

/// Parts joined by hyphens are a bookmark name exactly where there are two to eight of them, each
/// of small letters and digits, and the first character is a letter.
pub proof fn law_names_are_parts_joined_by_hyphens(parts: Seq<Seq<char>>)
    requires
        parts.len() > 0,
        forall|i: int| 0 <= i < parts.len() ==> !(#[trigger] parts[i]).contains('-'),
    ensures
        is_bookmark_name(join(parts, "-"@)) <==> {
            &&& 2 <= parts.len() <= 8
            &&& forall|i: int, k: int|
                0 <= i < parts.len() && 0 <= k < parts[i].len() ==> 'a' <= #[trigger] parts[i][k]
                    <= 'z' || '0' <= parts[i][k] <= '9'
            &&& forall|i: int| 0 <= i < parts.len() ==> (#[trigger] parts[i]).len() > 0
            &&& 'a' <= parts[0][0] <= 'z'
        },
{
    let name = join(parts, "-"@);
    reveal_strlit("-");
    assert("-"@ =~= seq!['-']);
    law_joined_texts_are_split_again(parts, '-');
    if parts.len() > 1 {
        law_joined_texts_begin_with_the_first(parts, "-"@);
    }
    if parts[0].len() > 0 {
        assert(name[0] == parts[0][0]);
    } else {
        assert(!is_name_part(parts[0]));
    }
    if is_bookmark_name(name) {
        assert forall|i: int, k: int|
            0 <= i < parts.len() && 0 <= k < parts[i].len() implies 'a' <= #[trigger] parts[i][k]
            <= 'z' || '0' <= parts[i][k] <= '9' by {
            assert(is_name_part(parts[i]));
            assert(is_name_char(parts[i][k]));
        }
        assert forall|i: int| 0 <= i < parts.len() implies (#[trigger] parts[i]).len() > 0 by {
            assert(is_name_part(parts[i]));
        }
    }
}

/// A reply is taken where, without the white space around it and in lower case, it is a name, and
/// then that is the name. Any other reply, or none, leads to a second attempt and then to none.
pub proof fn law_names_are_taken_from_the_reply(
    emphasize: bool,
    front: Seq<char>,
    text: Seq<char>,
    back: Seq<char>,
)
    requires
        forall|i: int| 0 <= i < front.len() ==> is_white(#[trigger] front[i]),
        forall|i: int| 0 <= i < back.len() ==> is_white(#[trigger] back[i]),
        text.len() > 0 && !is_white(text[0]) && !is_white(text.last()),
    ensures
        step_after(emphasize, Some(front + text + back)) == if is_bookmark_name(lowercase(text)) {
            (Some(lowercase(text)), false)
        } else {
            (None, !emphasize)
        },
        step_after(emphasize, Some(front)) == (None::<Seq<char>>, !emphasize),
        step_after(emphasize, None) == (None::<Seq<char>>, !emphasize),
{
    law_trim_takes_the_ends(front, text, back);
    law_trim_takes_the_ends(front, seq![], seq![]);
    assert(front + Seq::<char>::empty() + Seq::<char>::empty() =~= front);
}

/// Every character of a split text that is not the separator stands in a piece.
proof fn lemma_split_chars(s: Seq<char>, sep: char)
    ensures
        forall|i: int|
            0 <= i < s.len() && #[trigger] s[i] != sep ==> exists|k: int|
                0 <= k < split(s, sep).len() && (#[trigger] split(s, sep)[k]).contains(s[i]),
    decreases s.len(),
{
    let n = until(s, sep);
    lemma_until(s, sep);
    let all = split(s, sep);
    if n >= s.len() {
        assert(all[0] == s);
    } else {
        let rest = s.skip(n as int + 1);
        lemma_split_chars(rest, sep);
        assert(all == seq![s.take(n as int)] + split(rest, sep));
        assert forall|i: int| 0 <= i < s.len() && #[trigger] s[i] != sep implies exists|k: int|
            0 <= k < all.len() && (#[trigger] all[k]).contains(s[i]) by {
            if i < n {
                assert(s.take(n as int)[i] == s[i]);
                assert(all[0].contains(s[i]));
            } else {
                assert(rest[i - n - 1] == s[i]);
                let k = choose|k: int|
                    0 <= k < split(rest, sep).len() && (#[trigger] split(rest, sep)[k]).contains(
                        s[i],
                    );
                assert(all[k + 1] == split(rest, sep)[k]);
            }
        }
    }
}

// ---------------------------------------------------------------------------
// Generating
// ---------------------------------------------------------------------------

/// `str::to_lowercase`. The result follows from the text alone; of a text in ASCII, it has the
/// small letters in place of the capital ones.
#[verifier::external_body]
fn to_lowercase(text: &str) -> (r: String)
    ensures
        r@ == lowercase(text@),
        (forall|i: int| 0 <= i < text@.len() ==> text@[i] < '\u{80}') ==> r@ == text@.map_values(
            |c: char| ascii_lower(c),
        ),
{
    text.to_lowercase()
}

/// Whether a text is a bookmark name.
pub fn is_valid_bookmark(name: &str) -> (r: bool)
    ensures
        r == is_bookmark_name(name@),
{
    let parts = split_at(name, '-');
    let ghost model = split(name@, '-');
    if parts.len() < 2 || parts.len() > 8 {
        return false;
    }
    let mut i: usize = 0;
    while i < parts.len()
        invariant
            i <= parts@.len(),
            views(parts@) == model,
            model == split(name@, '-'),
            forall|k: int| 0 <= k < i ==> is_name_part(#[trigger] model[k]),
        decreases parts@.len() - i,
    {
        assert(views(parts@)[i as int] == parts@[i as int]@);
        if !is_part(parts[i].as_str()) {
            assert(!is_name_part(model[i as int]));
            return false;
        }
        i += 1;
    }
    let v = chars(name);
    if v.len() == 0 {
        assert(model =~= seq![name@]);
        return false;
    }
    'a' <= v[0] && v[0] <= 'z'
}

/// Whether a text is a part of a name.
fn is_part(part: &str) -> (r: bool)
    ensures
        r == is_name_part(part@),
{
    let v = chars(part);
    let mut i: usize = 0;
    while i < v.len()
        invariant
            i <= v@.len(),
            v@ == part@,
            forall|k: int| 0 <= k < i ==> is_name_char(#[trigger] part@[k]),
        decreases v@.len() - i,
    {
        let c = v[i];
        if !('a' <= c && c <= 'z' || '0' <= c && c <= '9') {
            assert(!is_name_char(part@[i as int]));
            return false;
        }
        i += 1;
    }
    v.len() > 0
}

impl<'a> BookmarkGenerator<'a> {
    pub fn new(model: &'a str) -> (r: Self)
        ensures
            r.model == model,
    {
        BookmarkGenerator { model }
    }

    /// What the model is asked; the emphasis is for a second attempt.
    pub fn prompt(template: &str, commit_summaries: &str, emphasis: Option<&str>) -> (r: String)
        ensures
            r@ == prompt_text(
                template@,
                commit_summaries@,
                opt_str(emphasis),
            ),
    {
        let filled = replaced(template, "{commit_summaries}", commit_summaries);
        match emphasis {
            Some(text) => text.to_owned().concat(filled.as_str()),
            None => filled,
        }
    }

    /// What is shown while the backend with this name works.
    pub fn spinner_message(backend: &str) -> (r: String)
        ensures
            r@ == "Generating bookmark name with "@ + backend@ + "..."@,
    {
        "Generating bookmark name with ".to_owned().concat(backend).concat("...")
    }

    /// What comes after the reply to a prompt that was emphasized, or was not; `None` stands for a
    /// command that gave no reply.
    pub fn generate(emphasize: bool, reply: Option<&str>) -> (r: BookmarkStep)
        ensures
            step_view(r) == step_after(
                emphasize,
                opt_str(reply),
            ),
            // A reply that is a name is taken as it is.
            reply matches Some(text) ==> is_bookmark_name(text@) ==> step_view(r).0 == Some(text@),
    {
        if let Some(text) = reply {
            proof {
                if is_bookmark_name(text@) {
                    law_names_are_plain(text@);
                    lemma_trim_plain(text@);
                    assert(text@.map_values(|c: char| ascii_lower(c)) =~= text@);
                }
            }
            let text = trimmed(text);
            if !text.as_str().is_empty() {
                let name = to_lowercase(text.as_str());
                if is_valid_bookmark(name.as_str()) {
                    return BookmarkStep::Accepted(name);
                }
            }
        }
        if emphasize {
            BookmarkStep::Failed
        } else {
            BookmarkStep::Retry
        }
    }
}

} // verus!
