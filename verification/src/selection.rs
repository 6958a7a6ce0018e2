//! Which of the recorded prompts the model judges relevant to a change.
//!
//! The prompts are handed to the model as a numbered list, and it is asked to end its reply with a
//! line that names the numbers of those that bear on the change.

use vstd::prelude::*;

use crate::text::{
    chars, decimal, decimal_of, is_white, join, joined, law_lines_are_joined_again,
    law_lines_end_at_newlines, law_numbers_are_told_apart, lemma_lines_concat, lemma_trim_plain,
    lemma_until, lemma_views_push, lines, lines_of, same, split, split_at, starts_with, text_of,
    trim, trimmed, until, views,
};

verus! {

/// What the line with the numbers begins with.
pub const MARKER: &'static str = "Relevant instructions:";

// ---------------------------------------------------------------------------
// Model
// ---------------------------------------------------------------------------

/// The prompts, each on a line behind its number.
pub open spec fn numbered(prompts: Seq<Seq<char>>) -> Seq<char>
    decreases prompts.len(),
{
    if prompts.len() == 0 {
        seq![]
    } else {
        numbered(prompts.drop_last()) + decimal(prompts.len()) + ". "@ + prompts.last() + "\n"@
    }
}

/// What the model is asked to do with the prompts; nothing where there are none.
pub open spec fn request(prompts: Seq<Seq<char>>) -> Seq<char> {
    if prompts.len() == 0 {
        seq![]
    } else {
        "\n\nThe change was made on these instructions:\n\n"@ + numbered(prompts)
            + "\nUse them to explain in the body why the change was made. End the reply with a line that begins with `"@
            + MARKER@
            + "` and names the numbers of the instructions that bear on the change, separated by commas, or `none`.\n"@
    }
}

/// The position among `count` that a text numbers, where the first has the number one.
pub open spec fn position_in(text: Seq<char>, count: nat) -> Option<nat>
    decreases count,
{
    if count == 0 {
        None
    } else if decimal(count) == text {
        Some((count - 1) as nat)
    } else {
        position_in(text, (count - 1) as nat)
    }
}

/// The positions that the texts number; none where one of them numbers nothing.
pub open spec fn positions_in(texts: Seq<Seq<char>>, count: nat) -> Option<Seq<nat>>
    decreases texts.len(),
{
    if texts.len() == 0 {
        Some(seq![])
    } else {
        match (positions_in(texts.drop_last(), count), position_in(trim(texts.last()), count)) {
            (Some(front), Some(last)) => Some(front.push(last)),
            _ => None,
        }
    }
}

/// The positions that a list names.
pub open spec fn listed(list: Seq<char>, count: nat) -> Option<Seq<nat>> {
    if trim(list) == "none"@ {
        Some(seq![])
    } else {
        positions_in(split(list, ','), count)
    }
}

/// A reply without its last line where that names numbers, and the positions that it names among
/// `count`: none where there is no such line, or it cannot be read.
pub open spec fn split_reply(reply: Seq<char>, count: nat) -> (Seq<char>, Option<Seq<nat>>) {
    let all = lines(reply);
    if all.len() > 0 && MARKER@.is_prefix_of(trim(all.last())) {
        (
            trim(join(all.drop_last(), "\n"@)),
            listed(trim(all.last()).skip(MARKER@.len() as int), count),
        )
    } else {
        (reply, None)
    }
}

/// The prompts at the positions, in the order in which they were recorded.
pub open spec fn prompts_at(prompts: Seq<Seq<char>>, positions: Seq<nat>) -> Seq<Seq<char>>
    decreases prompts.len(),
{
    if prompts.len() == 0 {
        seq![]
    } else if positions.contains((prompts.len() - 1) as nat) {
        prompts_at(prompts.drop_last(), positions).push(prompts.last())
    } else {
        prompts_at(prompts.drop_last(), positions)
    }
}

/// The prompts that are quoted: those selected, or all of them where there is no selection.
pub open spec fn selected(prompts: Seq<Seq<char>>, selection: Option<Seq<nat>>) -> Seq<Seq<char>> {
    match selection {
        Some(positions) => prompts_at(prompts, positions),
        None => prompts,
    }
}

// ---------------------------------------------------------------------------
// Laws
// ---------------------------------------------------------------------------

/// Every prompt that is selected is quoted, and nothing is quoted that was not recorded.
pub proof fn law_selected_prompts_are_quoted(prompts: Seq<Seq<char>>, positions: Seq<nat>)
    ensures
        forall|i: int|
            0 <= i < prompts.len() && positions.contains(i as nat) ==> prompts_at(
                prompts,
                positions,
            ).contains(#[trigger] prompts[i]),
        forall|k: int|
            0 <= k < prompts_at(prompts, positions).len() ==> prompts.contains(
                #[trigger] prompts_at(prompts, positions)[k],
            ),
    decreases prompts.len(),
{
    if prompts.len() > 0 {
        let front = prompts.drop_last();
        let last = prompts.len() - 1;
        let found = prompts_at(prompts, positions);
        let earlier = prompts_at(front, positions);
        law_selected_prompts_are_quoted(front, positions);
        assert forall|i: int|
            0 <= i < prompts.len() && positions.contains(i as nat) implies found.contains(
            #[trigger] prompts[i],
        ) by {
            if i == last {
                assert(found[earlier.len() as int] == prompts[i]);
            } else {
                assert(front[i] == prompts[i]);
                let k = choose|k: int| 0 <= k < earlier.len() && earlier[k] == prompts[i];
                assert(found[k] == prompts[i]);
            }
        }
        assert forall|k: int| 0 <= k < found.len() implies prompts.contains(
            #[trigger] found[k],
        ) by {
            if k < earlier.len() {
                assert(found[k] == earlier[k]);
                let i = choose|i: int| 0 <= i < front.len() && front[i] == earlier[k];
                assert(prompts[i] == found[k]);
            } else {
                assert(prompts[last] == found[k]);
            }
        }
    }
}

/// The positions that are read are positions of prompts.
pub proof fn law_positions_are_in_range(texts: Seq<Seq<char>>, count: nat)
    ensures
        positions_in(texts, count) matches Some(positions) ==> forall|i: int|
            0 <= i < positions.len() ==> #[trigger] positions[i] < count,
    decreases texts.len(),
{
    if texts.len() > 0 {
        law_positions_are_in_range(texts.drop_last(), count);
        lemma_position(trim(texts.last()), count);
    }
}

/// Where the last line of a reply names numbers, the reply is what stands before that line, and the
/// rest of the line is the list.
pub proof fn law_the_last_line_selects(message: Seq<char>, list: Seq<char>, count: nat)
    requires
        message.len() > 0 && !is_white(message[0]) && !is_white(message.last()),
        !message.contains('\r'),
        !list.contains('\n'),
        list.len() > 0 ==> !is_white(list.last()),
    ensures
        split_reply(message + "\nRelevant instructions:"@ + list, count) == (
            message,
            listed(list, count),
        ),
{
    reveal_strlit("\nRelevant instructions:");
    reveal_strlit("Relevant instructions:");
    reveal_strlit("\n");
    assert("\n"@ =~= seq!['\n']);
    let line = "Relevant instructions:"@ + list;
    let reply = message + "\nRelevant instructions:"@ + list;
    assert(reply =~= message.push('\n') + line);
    assert(!line.contains('\n')) by {
        if line.contains('\n') {
            let k = choose|k: int| 0 <= k < line.len() && line[k] == '\n';
            if k >= 22 {
                assert(list[k - 22] == '\n');
            }
        }
    }
    lemma_lines_concat(message, line);
    law_lines_end_at_newlines(line, seq![]);
    lemma_ended_lines(message);
    let all = lines(reply);
    assert(all =~= lines(message).push(line));
    lemma_trim_plain(line);
    assert(line.subrange(0, 22) =~= MARKER@);
    assert(all.drop_last() =~= lines(message));
    assert(line.skip(22) =~= list);
    law_lines_are_joined_again(message);
    lemma_trim_plain(message);
}

/// A newline behind a text that does not end with one makes no further line.
proof fn lemma_ended_lines(s: Seq<char>)
    requires
        s.len() > 0,
        s.last() != '\n',
        !s.contains('\r'),
    ensures
        lines(s.push('\n')) == lines(s),
    decreases s.len(),
{
    let n = until(s, '\n');
    lemma_until(s, '\n');
    if n >= s.len() {
        assert(!s.contains('\n')) by {
            if s.contains('\n') {
                let k = choose|k: int| 0 <= k < s.len() && s[k] == '\n';
                assert(s[k] != '\n');
            }
        }
        law_lines_end_at_newlines(s, seq![]);
        assert(s.push('\n') =~= s + seq!['\n'] + Seq::<char>::empty());
        assert(s.contains(s.last()));
        assert(lines(Seq::<char>::empty()) =~= Seq::<Seq<char>>::empty());
        assert(lines(s.push('\n')) =~= seq![s]);
    } else {
        let head = s.take(n as int);
        let rest = s.skip(n as int + 1);
        assert(!head.contains('\n')) by {
            if head.contains('\n') {
                let k = choose|k: int| 0 <= k < head.len() && head[k] == '\n';
                assert(s[k] != '\n');
            }
        }
        assert(rest.len() > 0 && rest.last() == s.last());
        assert(!rest.contains('\r')) by {
            if rest.contains('\r') {
                let k = choose|k: int| 0 <= k < rest.len() && rest[k] == '\r';
                assert(s[k + n + 1] == '\r');
            }
        }
        lemma_ended_lines(rest);
        law_lines_end_at_newlines(head, rest);
        law_lines_end_at_newlines(head, rest.push('\n'));
        assert(s =~= head + seq!['\n'] + rest);
        assert(s.push('\n') =~= head + seq!['\n'] + rest.push('\n'));
    }
}

/// A reply whose last line names no numbers is a message as it is, and selects nothing.
pub proof fn law_other_replies_select_nothing(reply: Seq<char>, count: nat)
    requires
        lines(reply).len() > 0 ==> !"Relevant instructions:"@.is_prefix_of(
            trim(lines(reply).last()),
        ),
    ensures
        split_reply(reply, count) == (reply, None::<Seq<nat>>),
{
}

/// A list names prompts by their numbers, counted from one and separated by commas.
pub proof fn law_lists_name_prompts(list: Seq<char>, numbers: Seq<nat>, count: nat)
    requires
        trim(list) != "none"@,
        split(list, ',').len() == numbers.len(),
        forall|i: int|
            0 <= i < numbers.len() ==> 1 <= #[trigger] numbers[i] <= count && trim(
                split(list, ',')[i],
            ) == decimal(numbers[i]),
    ensures
        listed(list, count) == Some(numbers.map_values(|n: nat| (n - 1) as nat)),
{
    lemma_positions(split(list, ','), numbers, count);
}

proof fn lemma_positions(texts: Seq<Seq<char>>, numbers: Seq<nat>, count: nat)
    requires
        texts.len() == numbers.len(),
        forall|i: int|
            0 <= i < numbers.len() ==> 1 <= #[trigger] numbers[i] <= count && trim(texts[i])
                == decimal(numbers[i]),
    ensures
        positions_in(texts, count) == Some(numbers.map_values(|n: nat| (n - 1) as nat)),
    decreases texts.len(),
{
    let all = numbers.map_values(|n: nat| (n - 1) as nat);
    if texts.len() == 0 {
        assert(all =~= seq![]);
    } else {
        let front = numbers.drop_last();
        assert forall|i: int| 0 <= i < front.len() implies 1 <= #[trigger] front[i] <= count && trim(
            texts.drop_last()[i],
        ) == decimal(front[i]) by {
            assert(front[i] == numbers[i]);
        }
        lemma_positions(texts.drop_last(), front, count);
        let last = numbers[numbers.len() - 1];
        lemma_position_is(last, count);
        assert(all =~= front.map_values(|n: nat| (n - 1) as nat).push((last - 1) as nat));
    }
}

proof fn lemma_position_is(n: nat, count: nat)
    requires
        1 <= n <= count,
    ensures
        position_in(decimal(n), count) == Some((n - 1) as nat),
    decreases count,
{
    if decimal(count) == decimal(n) {
        law_numbers_are_told_apart(count, n);
    } else {
        lemma_position_is(n, (count - 1) as nat);
    }
}

/// A list that says `none` names nothing, and one with a piece that is no number of a prompt cannot
/// be read.
pub proof fn law_lists_name_nothing_else(list: Seq<char>, count: nat)
    ensures
        trim(list) == "none"@ ==> listed(list, count) == Some(Seq::<nat>::empty()),
        trim(list) != "none"@ && (exists|i: int|
            0 <= i < split(list, ',').len() && (forall|n: nat|
                1 <= n <= count ==> #[trigger] decimal(n) != trim(#[trigger] split(list, ',')[i])))
            ==> listed(list, count) is None,
{
    if trim(list) != "none"@ && (exists|i: int|
        0 <= i < split(list, ',').len() && (forall|n: nat|
            1 <= n <= count ==> #[trigger] decimal(n) != trim(#[trigger] split(list, ',')[i]))) {
        let i = choose|i: int|
            0 <= i < split(list, ',').len() && (forall|n: nat|
                1 <= n <= count ==> #[trigger] decimal(n) != trim(#[trigger] split(list, ',')[i]));
        let text = trim(split(list, ',')[i]);
        lemma_position(text, count);
        if let Some(p) = position_in(text, count) {
            assert(decimal((p + 1) as nat) == text);
            assert(false);
        }
        lemma_unread(split(list, ','), i, count);
    }
}

/// The prompts that are selected are quoted in the order in which they were recorded, each once;
/// without a selection all of them are.
pub proof fn law_prompts_are_selected_in_order(
    prompts: Seq<Seq<char>>,
    prompt: Seq<char>,
    positions: Seq<nat>,
)
    ensures
        selected(prompts, None) == prompts,
        selected(Seq::<Seq<char>>::empty(), Some(positions)) == Seq::<Seq<char>>::empty(),
        selected(prompts.push(prompt), Some(positions)) == if positions.contains(prompts.len()) {
            selected(prompts, Some(positions)).push(prompt)
        } else {
            selected(prompts, Some(positions))
        },
{
    assert(prompts.push(prompt).drop_last() =~= prompts);
}

/// The model is handed every prompt in full, behind its number, and is asked for nothing where
/// there is none.
pub proof fn law_every_prompt_is_handed_over(prompts: Seq<Seq<char>>, i: int) -> (at: int)
    requires
        0 <= i < prompts.len(),
    ensures
        request(Seq::<Seq<char>>::empty()) == Seq::<char>::empty(),
        ({
            let line = decimal((i + 1) as nat) + ". "@ + prompts[i] + "\n"@;
            &&& 0 <= at <= at + line.len() <= request(prompts).len()
            &&& request(prompts).subrange(at, at + line.len()) == line
        }),
{
    let (front, back) = lemma_numbered(prompts, i);
    let line = decimal((i + 1) as nat) + ". "@ + prompts[i] + "\n"@;
    let head = "\n\nThe change was made on these instructions:\n\n"@;
    let at = (head.len() + front.len()) as int;
    assert(numbered(prompts) == front + line + back);
    assert(request(prompts).subrange(at, at + line.len()) =~= line);
    at
}

proof fn lemma_numbered(prompts: Seq<Seq<char>>, i: int) -> (r: (Seq<char>, Seq<char>))
    requires
        0 <= i < prompts.len(),
    ensures
        numbered(prompts) == r.0 + (decimal((i + 1) as nat) + ". "@ + prompts[i] + "\n"@) + r.1,
    decreases prompts.len(),
{
    let before = numbered(prompts.drop_last());
    if i == prompts.len() - 1 {
        assert(numbered(prompts) =~= before + (decimal((i + 1) as nat) + ". "@ + prompts[i] + "\n"@)
            + Seq::<char>::empty());
        (before, Seq::empty())
    } else {
        let (front, back) = lemma_numbered(prompts.drop_last(), i);
        let last = decimal(prompts.len()) + ". "@ + prompts.last() + "\n"@;
        assert(numbered(prompts) =~= front + (decimal((i + 1) as nat) + ". "@ + prompts[i]
            + "\n"@) + (back + last));
        (front, back + last)
    }
}

proof fn lemma_position(text: Seq<char>, count: nat)
    ensures
        position_in(text, count) matches Some(p) ==> p < count && decimal(p + 1) == text,
    decreases count,
{
    if count > 0 && decimal(count) != text {
        lemma_position(text, (count - 1) as nat);
    }
}

// ---------------------------------------------------------------------------
// Code
// ---------------------------------------------------------------------------

/// What the model is asked to do with the prompts.
pub fn request_for(prompts: &[String]) -> (r: String)
    ensures
        r@ == request(views(prompts@)),
{
    if prompts.len() == 0 {
        return String::new();
    }
    let ghost all = views(prompts@);
    let mut list = String::new();
    let mut i: usize = 0;
    while i < prompts.len()
        invariant
            i <= prompts@.len(),
            all == views(prompts@),
            list@ == numbered(all.take(i as int)),
        decreases prompts@.len() - i,
    {
        let ghost before = list@;
        assert(all.take(i + 1).drop_last() =~= all.take(i as int));
        assert(all.take(i + 1).last() == prompts@[i as int]@);
        list.append(decimal_of(i + 1).as_str());
        list.append(". ");
        list.append(prompts[i].as_str());
        list.append("\n");
        assert(list@ =~= before + decimal((i + 1) as nat) + ". "@ + prompts@[i as int]@ + "\n"@);
        i += 1;
    }
    assert(all.take(i as int) =~= all);
    "\n\nThe change was made on these instructions:\n\n".to_owned().concat(list.as_str()).concat(
        "\nUse them to explain in the body why the change was made. End the reply with a line that begins with `",
    ).concat(MARKER).concat(
        "` and names the numbers of the instructions that bear on the change, separated by commas, or `none`.\n",
    )
}

/// What positions are.
pub open spec fn position_views(positions: Seq<usize>) -> Seq<nat> {
    positions.map_values(|p: usize| p as nat)
}

/// What a selection is.
pub open spec fn selection_view(selection: Option<Vec<usize>>) -> Option<Seq<nat>> {
    match selection {
        Some(positions) => Some(position_views(positions@)),
        None => None,
    }
}

/// The position among `count` that a text numbers.
fn read_position(text: &str, count: usize) -> (r: Option<usize>)
    ensures
        position_in(text@, count as nat) == match r {
            Some(p) => Some(p as nat),
            None => None,
        },
{
    let mut n: usize = count;
    while n > 0
        invariant
            n <= count,
            position_in(text@, count as nat) == position_in(text@, n as nat),
        decreases n,
    {
        if same(decimal_of(n).as_str(), text) {
            return Some(n - 1);
        }
        n -= 1;
    }
    None
}

/// The positions that a list names.
fn read_list(list: &str, count: usize) -> (r: Option<Vec<usize>>)
    ensures
        selection_view(r) == listed(list@, count as nat),
{
    let mut positions: Vec<usize> = Vec::new();
    if same(trimmed(list).as_str(), "none") {
        assert(position_views(positions@) =~= seq![]);
        return Some(positions);
    }
    let pieces = split_at(list, ',');
    let ghost all = split(list@, ',');
    let mut i: usize = 0;
    assert(position_views(positions@) =~= seq![]);
    assert(all.take(0) =~= seq![]);
    while i < pieces.len()
        invariant
            i <= pieces@.len(),
            views(pieces@) == all,
            all == split(list@, ','),
            trim(list@) != "none"@,
            positions_in(all.take(i as int), count as nat) == Some(position_views(positions@)),
        decreases pieces@.len() - i,
    {
        assert(views(pieces@)[i as int] == pieces@[i as int]@);
        assert(all.take(i + 1).drop_last() =~= all.take(i as int));
        let ghost before = position_views(positions@);
        match read_position(trimmed(pieces[i].as_str()).as_str(), count) {
            Some(p) => {
                positions.push(p);
                assert(position_views(positions@) =~= before.push(p as nat));
            },
            None => {
                proof {
                    lemma_unread(all, i as int, count as nat);
                }
                return None;
            },
        }
        i += 1;
    }
    assert(all.take(i as int) =~= all);
    Some(positions)
}

/// A list with a piece that numbers nothing cannot be read.
proof fn lemma_unread(texts: Seq<Seq<char>>, i: int, count: nat)
    requires
        0 <= i < texts.len(),
        position_in(trim(texts[i]), count) is None,
    ensures
        positions_in(texts, count) is None,
    decreases texts.len(),
{
    if i < texts.len() - 1 {
        lemma_unread(texts.drop_last(), i, count);
    }
}

/// A reply without the line that names numbers, and the positions that it names.
pub fn split_selection(reply: &str, count: usize) -> (r: (String, Option<Vec<usize>>))
    ensures
        (r.0@, selection_view(r.1)) == split_reply(reply@, count as nat),
{
    broadcast use lemma_views_push;

    let mut all = lines_of(reply);
    let ghost model = lines(reply@);
    let n: usize = all.len();
    assert(views(all@).len() == all@.len());
    if n == 0 {
        return (reply.to_owned(), None);
    }
    assert(views(all@)[n - 1] == all@[n - 1]@);
    let last = trimmed(all[n - 1].as_str());
    if !starts_with(last.as_str(), MARKER) {
        return (reply.to_owned(), None);
    }
    let v = chars(last.as_str());
    let skip: usize = chars(MARKER).len();
    let list = text_of(&v, skip, v.len());
    assert(list@ =~= last@.skip(MARKER@.len() as int));
    all.remove(n - 1);
    assert(views(all@) =~= model.drop_last());
    let body = trimmed(joined(&all, "\n").as_str());
    (body, read_list(list.as_str(), count))
}

/// Whether a position is among the positions.
fn is_selected(positions: &Vec<usize>, i: usize) -> (r: bool)
    ensures
        r == position_views(positions@).contains(i as nat),
{
    let ghost model = position_views(positions@);
    let mut k: usize = 0;
    while k < positions.len()
        invariant
            k <= positions@.len(),
            model == position_views(positions@),
            forall|p: int| 0 <= p < k ==> #[trigger] model[p] != i as nat,
        decreases positions@.len() - k,
    {
        assert(model[k as int] == positions@[k as int] as nat);
        if positions[k] == i {
            return true;
        }
        k += 1;
    }
    false
}

/// The prompts that are quoted.
pub fn select_prompts(prompts: Vec<String>, selection: Option<Vec<usize>>) -> (r: Vec<String>)
    ensures
        views(r@) == selected(views(prompts@), selection_view(selection)),
{
    broadcast use lemma_views_push;

    match selection {
        None => prompts,
        Some(positions) => {
            let ghost model = views(prompts@);
            let ghost chosen = position_views(positions@);
            let mut r: Vec<String> = Vec::new();
            let mut i: usize = 0;
            assert(views(r@) =~= prompts_at(model.take(0), chosen));
            while i < prompts.len()
                invariant
                    i <= prompts@.len(),
                    model == views(prompts@),
                    chosen == position_views(positions@),
                    views(r@) == prompts_at(model.take(i as int), chosen),
                decreases prompts@.len() - i,
            {
                assert(model.take(i + 1).drop_last() =~= model.take(i as int));
                assert(model.take(i + 1).last() == prompts@[i as int]@);
                if is_selected(&positions, i) {
                    r.push(prompts[i].clone());
                }
                i += 1;
            }
            assert(model.take(i as int) =~= model);
            r
        },
    }
}

} // verus!
