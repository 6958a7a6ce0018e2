//! What is told to the user: messages, lists of files, and messages in a box.

use vstd::prelude::*;

use unicode_width::UnicodeWidthStr;

use crate::styled::{lemma_span_views_push, render, shows, span_views, Span, SpanView, Style};
use crate::text::{
    chars, decimal, decimal_of, lines, lines_of, repeat, repeated, same, text_of, views,
};
use crate::tree::FileChangeSummary;

verus! {

broadcast use lemma_span_views_push;

// ---------------------------------------------------------------------------
// Boxes
// ---------------------------------------------------------------------------

/// How many columns a text takes on a terminal, as `unicode_width` counts them.
pub uninterp spec fn display_width(text: Seq<char>) -> nat;

/// A text without its ANSI codes, as `console` strips them.
pub uninterp spec fn without_codes(text: Seq<char>) -> Seq<char>;

/// `unicode_width::UnicodeWidthStr::width`. The width follows from the text alone.
#[verifier::external_body]
fn width_of(text: &str) -> (r: usize)
    ensures
        r as nat == display_width(text@),
{
    text.width()
}

/// `console::strip_ansi_codes`. What is left follows from the text alone.
#[verifier::external_body]
fn strip_codes(text: &str) -> (r: String)
    ensures
        r@ == without_codes(text@),
{
    console::strip_ansi_codes(text).into_owned()
}

/// How many columns there are to the right of a line in a box.
pub open spec fn padding(line: Seq<char>, width: nat) -> nat {
    if display_width(line) <= width {
        (width - display_width(line)) as nat
    } else {
        0
    }
}

/// How long the border to the right of a title is.
pub open spec fn border_length(title: Seq<char>, width: nat) -> nat {
    let taken = display_width(without_codes(title)) + 1;
    if taken <= width + 2 {
        (width + 2 - taken) as nat
    } else {
        0
    }
}

/// The top of a box.
pub open spec fn top_of(title: Seq<char>, width: nat) -> Seq<SpanView> {
    seq![
        ("╭─"@, Style::WhiteDim),
        (title, Style::Plain),
        (repeated('─', border_length(title, width)), Style::WhiteDim),
        ("╮"@, Style::WhiteDim),
        ("\n"@, Style::Plain),
    ]
}

/// A row of a box.
pub open spec fn row_of(line: Seq<char>, width: nat) -> Seq<SpanView> {
    seq![
        ("│"@, Style::WhiteDim),
        (" "@ + line + repeated(' ', padding(line, width)) + " "@, Style::Plain),
        ("│"@, Style::WhiteDim),
        ("\n"@, Style::Plain),
    ]
}

/// The bottom of a box.
pub open spec fn bottom_of(width: nat) -> Seq<SpanView> {
    seq![
        ("╰"@, Style::WhiteDim),
        (repeated('─', width + 2), Style::WhiteDim),
        ("╯"@, Style::WhiteDim),
        ("\n"@, Style::Plain),
    ]
}

/// The rows of a box.
pub open spec fn rows_of(all: Seq<Seq<char>>, width: nat) -> Seq<SpanView>
    decreases all.len(),
{
    if all.len() == 0 {
        seq![]
    } else {
        rows_of(all.drop_last(), width) + row_of(all.last(), width)
    }
}

/// A box around the lines of a text, with a title in its top border.
pub open spec fn box_of(title: Seq<char>, content: Seq<char>, width: nat) -> Seq<SpanView> {
    top_of(title, width) + rows_of(lines(content), width) + bottom_of(width)
}

/// All lines of a box are equally wide: the title and the border beside it, and each line that
/// fits and the padding beside it, take as many columns as the bottom border.
pub proof fn law_box_lines_are_aligned(title: Seq<char>, line: Seq<char>, width: nat)
    ensures
        display_width(without_codes(title)) < width + 2 ==> 1 + display_width(without_codes(title))
            + border_length(title, width) == width + 2,
        display_width(line) <= width ==> 1 + display_width(line) + padding(line, width) + 1 == width
            + 2,
{
}

/// The spans of a box.
pub fn box_spans(title: &str, content: &str, width: usize) -> (r: Vec<Span>)
    requires
        width <= usize::MAX - 2,
    ensures
        span_views(r@) == box_of(title@, content@, width as nat),
{
    let title_width: usize = width_of(strip_codes(title).as_str());
    let border: usize = if title_width < width + 2 {
        width + 2 - title_width - 1
    } else {
        0
    };
    let mut spans: Vec<Span> = Vec::new();
    spans.push(Span::new("╭─", Style::WhiteDim));
    spans.push(Span::new(title, Style::Plain));
    spans.push(Span::new(repeat('─', border).as_str(), Style::WhiteDim));
    spans.push(Span::new("╮", Style::WhiteDim));
    spans.push(Span::new("\n", Style::Plain));
    let ghost top = top_of(title@, width as nat);
    assert(span_views(spans@) =~= top);
    let all = lines_of(content);
    let ghost model = lines(content@);
    assert(top + rows_of(model.take(0), width as nat) =~= top);
    let mut i: usize = 0;
    while i < all.len()
        invariant
            i <= all@.len(),
            views(all@) == model,
            span_views(spans@) == top + rows_of(model.take(i as int), width as nat),
        decreases all@.len() - i,
    {
        let line = all[i].as_str();
        assert(views(all@)[i as int] == line@);
        assert(model.take(i + 1).drop_last() =~= model.take(i as int));
        let ghost before = span_views(spans@);
        let line_width: usize = width_of(line);
        let pad: usize = if line_width <= width {
            width - line_width
        } else {
            0
        };
        let middle = " ".to_owned().concat(line).concat(repeat(' ', pad).as_str()).concat(" ");
        spans.push(Span::new("│", Style::WhiteDim));
        spans.push(Span::new(middle.as_str(), Style::Plain));
        spans.push(Span::new("│", Style::WhiteDim));
        spans.push(Span::new("\n", Style::Plain));
        assert(span_views(spans@) =~= before + row_of(line@, width as nat));
        assert(before + row_of(line@, width as nat) =~= top + rows_of(
            model.take(i + 1),
            width as nat,
        ));
        i += 1;
    }
    assert(model.take(i as int) =~= model);
    let ghost before = span_views(spans@);
    spans.push(Span::new("╰", Style::WhiteDim));
    spans.push(Span::new(repeat('─', width + 2).as_str(), Style::WhiteDim));
    spans.push(Span::new("╯", Style::WhiteDim));
    spans.push(Span::new("\n", Style::Plain));
    assert(span_views(spans@) =~= before + bottom_of(width as nat));
    spans
}

/// A box around the lines of a text, with a title in its top border.
pub fn format_box_with_title(title: &str, content: &str, width: usize) -> (r: String)
    requires
        width <= usize::MAX - 2,
    ensures
        shows(box_of(title@, content@, width as nat), r@),
{
    render(&box_spans(title, content, width))
}

// ---------------------------------------------------------------------------
// Lists of files
// ---------------------------------------------------------------------------

/// A line for each file, with a letter for what became of it.
pub open spec fn file_lines(files: Seq<Seq<char>>, letter: Seq<char>, style: Style) -> Seq<
    SpanView,
>
    decreases files.len(),
{
    if files.len() == 0 {
        seq![]
    } else {
        file_lines(files.drop_last(), letter, style) + seq![
            ("  "@, Style::Plain),
            (letter, style),
            (" "@, Style::Plain),
            (files.last(), Style::Dim),
            ("\n"@, Style::Plain),
        ]
    }
}

/// The files that changed: first the added ones, then the deleted ones, then the modified ones.
pub open spec fn change_lines(
    added: Seq<Seq<char>>,
    deleted: Seq<Seq<char>>,
    modified: Seq<Seq<char>>,
) -> Seq<SpanView> {
    file_lines(added, "A"@, Style::GreenDim) + file_lines(deleted, "D"@, Style::RedDim)
        + file_lines(modified, "M"@, Style::YellowDim)
}

/// Appends a line for each file.
fn push_files(spans: &mut Vec<Span>, files: &Vec<String>, letter: &str, style: Style)
    ensures
        span_views(final(spans)@) == span_views(old(spans)@) + file_lines(
            views(files@),
            letter@,
            style,
        ),
{
    let ghost start = span_views(spans@);
    let ghost model = views(files@);
    let mut i: usize = 0;
    assert(start + file_lines(model.take(0), letter@, style) =~= start);
    while i < files.len()
        invariant
            i <= files@.len(),
            model == views(files@),
            span_views(spans@) == start + file_lines(model.take(i as int), letter@, style),
        decreases files@.len() - i,
    {
        assert(model.take(i + 1).drop_last() =~= model.take(i as int));
        assert(model.take(i + 1).last() == files@[i as int]@);
        spans.push(Span::new("  ", Style::Plain));
        spans.push(Span::new(letter, style));
        spans.push(Span::new(" ", Style::Plain));
        spans.push(Span::new(files[i].as_str(), Style::Dim));
        spans.push(Span::new("\n", Style::Plain));
        assert(span_views(spans@) =~= start + file_lines(model.take(i + 1), letter@, style));
        i += 1;
    }
    assert(model.take(i as int) =~= model);
}

/// The files that changed, with coloured letters.
pub fn file_change_spans(changes: &FileChangeSummary) -> (r: Vec<Span>)
    ensures
        span_views(r@) == change_lines(
            views(changes.added@),
            views(changes.deleted@),
            views(changes.modified@),
        ),
{
    let mut spans: Vec<Span> = Vec::new();
    push_files(&mut spans, &changes.added, "A", Style::GreenDim);
    push_files(&mut spans, &changes.deleted, "D", Style::RedDim);
    push_files(&mut spans, &changes.modified, "M", Style::YellowDim);
    spans
}

/// The warning on the files that a diff shows summaries of; nothing where there are none.
pub open spec fn collapsed_lines(paths: Seq<Seq<char>>) -> Seq<SpanView> {
    if paths.len() == 0 {
        seq![]
    } else {
        seq![
            ("  "@, Style::Plain),
            ("!"@, Style::YellowDim),
            (" "@ + decimal(paths.len()) + " files collapsed from LLM diff:\n"@, Style::Plain),
        ] + collapsed_paths_lines(paths)
    }
}

/// A line for each file that a diff shows a summary of.
pub open spec fn collapsed_paths_lines(paths: Seq<Seq<char>>) -> Seq<SpanView>
    decreases paths.len(),
{
    if paths.len() == 0 {
        seq![]
    } else {
        collapsed_paths_lines(paths.drop_last()) + seq![
            ("  "@, Style::Plain),
            ("!"@, Style::YellowDim),
            ("   "@ + paths.last() + "\n"@, Style::Plain),
        ]
    }
}

/// The warning on the files that a diff shows summaries of.
pub fn collapsed_spans(collapsed_paths: &Vec<String>) -> (r: Vec<Span>)
    ensures
        span_views(r@) == collapsed_lines(views(collapsed_paths@)),
{
    let mut spans: Vec<Span> = Vec::new();
    let ghost model = views(collapsed_paths@);
    if collapsed_paths.len() == 0 {
        assert(span_views(spans@) =~= seq![]);
        return spans;
    }
    let head = " ".to_owned().concat(decimal_of(collapsed_paths.len()).as_str()).concat(
        " files collapsed from LLM diff:\n",
    );
    spans.push(Span::new("  ", Style::Plain));
    spans.push(Span::new("!", Style::YellowDim));
    spans.push(Span::new(head.as_str(), Style::Plain));
    let ghost start = span_views(spans@);
    assert(start =~= seq![
        ("  "@, Style::Plain),
        ("!"@, Style::YellowDim),
        (" "@ + decimal(model.len()) + " files collapsed from LLM diff:\n"@, Style::Plain),
    ]);
    assert(start + collapsed_paths_lines(model.take(0)) =~= start);
    let mut i: usize = 0;
    while i < collapsed_paths.len()
        invariant
            i <= collapsed_paths@.len(),
            model == views(collapsed_paths@),
            span_views(spans@) == start + collapsed_paths_lines(model.take(i as int)),
        decreases collapsed_paths@.len() - i,
    {
        assert(model.take(i + 1).drop_last() =~= model.take(i as int));
        assert(model.take(i + 1).last() == collapsed_paths@[i as int]@);
        let line = "   ".to_owned().concat(collapsed_paths[i].as_str()).concat("\n");
        spans.push(Span::new("  ", Style::Plain));
        spans.push(Span::new("!", Style::YellowDim));
        spans.push(Span::new(line.as_str(), Style::Plain));
        assert(span_views(spans@) =~= start + collapsed_paths_lines(model.take(i + 1)));
        i += 1;
    }
    assert(model.take(i as int) =~= model);
    spans
}

// ---------------------------------------------------------------------------
// Titles and messages
// ---------------------------------------------------------------------------

/// The first eight characters of an identifier.
pub open spec fn short(id: Seq<char>) -> Seq<char> {
    if id.len() > 8 {
        id.take(8)
    } else {
        id
    }
}

/// The first eight characters of an identifier.
pub fn short_id(id: &str) -> (r: String)
    ensures
        r@ == short(id@),
{
    let v = chars(id);
    let n: usize = if v.len() > 8 {
        8
    } else {
        v.len()
    };
    assert(v@.subrange(0, n as int) =~= short(id@));
    text_of(&v, 0, n)
}

/// A box has a border with the title above, one row for each line of the text in full and in their
/// order, padded to the width, and a border below.
pub proof fn law_boxes_hold_every_line(
    title: Seq<char>,
    content: Seq<char>,
    all: Seq<Seq<char>>,
    line: Seq<char>,
    width: nat,
)
    ensures
        box_of(title, content, width) == seq![
            ("╭─"@, Style::WhiteDim),
            (title, Style::Plain),
            (repeated('─', border_length(title, width)), Style::WhiteDim),
            ("╮"@, Style::WhiteDim),
            ("\n"@, Style::Plain),
        ] + rows_of(lines(content), width) + seq![
            ("╰"@, Style::WhiteDim),
            (repeated('─', width + 2), Style::WhiteDim),
            ("╯"@, Style::WhiteDim),
            ("\n"@, Style::Plain),
        ],
        rows_of(Seq::<Seq<char>>::empty(), width) == Seq::<SpanView>::empty(),
        rows_of(all.push(line), width) == rows_of(all, width) + seq![
            ("│"@, Style::WhiteDim),
            (" "@ + line + repeated(' ', padding(line, width)) + " "@, Style::Plain),
            ("│"@, Style::WhiteDim),
            ("\n"@, Style::Plain),
        ],
        padding(line, width) == if display_width(line) <= width {
            width - display_width(line)
        } else {
            0
        },
        border_length(title, width) == if display_width(without_codes(title)) <= width + 1 {
            width + 1 - display_width(without_codes(title))
        } else {
            0
        },
{
    assert(all.push(line).drop_last() =~= all);
}

/// Every file that changed has a line with its path: the added ones with an `A` first, then the
/// deleted ones with a `D`, then the modified ones with an `M`.
pub proof fn law_changed_files_have_lines(
    added: Seq<Seq<char>>,
    deleted: Seq<Seq<char>>,
    modified: Seq<Seq<char>>,
    file: Seq<char>,
    letter: Seq<char>,
    style: Style,
)
    ensures
        change_lines(added, deleted, modified) == file_lines(added, "A"@, Style::GreenDim)
            + file_lines(deleted, "D"@, Style::RedDim) + file_lines(
            modified,
            "M"@,
            Style::YellowDim,
        ),
        file_lines(Seq::<Seq<char>>::empty(), letter, style) == Seq::<SpanView>::empty(),
        file_lines(added.push(file), letter, style) == file_lines(added, letter, style) + seq![
            ("  "@, Style::Plain),
            (letter, style),
            (" "@, Style::Plain),
            (file, Style::Dim),
            ("\n"@, Style::Plain),
        ],
{
    assert(added.push(file).drop_last() =~= added);
}

/// The warning on collapsed files says how many there are and names each of them; there is none
/// where there are no such files.
pub proof fn law_collapsed_files_are_named(paths: Seq<Seq<char>>, path: Seq<char>)
    ensures
        collapsed_lines(Seq::<Seq<char>>::empty()) == Seq::<SpanView>::empty(),
        collapsed_lines(paths.push(path)) == seq![
            ("  "@, Style::Plain),
            ("!"@, Style::YellowDim),
            (
                " "@ + decimal(paths.len() + 1) + " files collapsed from LLM diff:\n"@,
                Style::Plain,
            ),
        ] + collapsed_paths_lines(paths.push(path)),
        collapsed_paths_lines(Seq::<Seq<char>>::empty()) == Seq::<SpanView>::empty(),
        collapsed_paths_lines(paths.push(path)) == collapsed_paths_lines(paths) + seq![
            ("  "@, Style::Plain),
            ("!"@, Style::YellowDim),
            ("   "@ + path + "\n"@, Style::Plain),
        ],
{
    assert(paths.push(path).drop_last() =~= paths);
}

/// A short identifier is the beginning of the whole one: eight characters, or all of it where it
/// has no more.
pub proof fn law_short_identifiers(id: Seq<char>)
    ensures
        short(id).is_prefix_of(id),
        id.len() <= 8 ==> short(id) == id,
        id.len() > 8 ==> short(id).len() == 8,
{
    assert(short(id) =~= id.subrange(0, short(id).len() as int));
}

/// The title of the box around the message of a new commit.
pub fn commit_title(id: &str, author_name: &str, author_email: &str) -> (r: Vec<Span>)
    ensures
        span_views(r@) == seq![
            ("Committed change "@, Style::WhiteDim),
            (short(id@), Style::BlueDim),
            (" "@, Style::Plain),
            ("by"@, Style::WhiteDim),
            (" "@, Style::Plain),
            (author_name@ + " <"@ + author_email@ + ">"@, Style::WhiteDim),
        ],
{
    let author = author_name.to_owned().concat(" <").concat(author_email).concat(">");
    let mut spans: Vec<Span> = Vec::new();
    spans.push(Span::new("Committed change ", Style::WhiteDim));
    spans.push(Span::new(short_id(id).as_str(), Style::BlueDim));
    spans.push(Span::new(" ", Style::Plain));
    spans.push(Span::new("by", Style::WhiteDim));
    spans.push(Span::new(" ", Style::Plain));
    spans.push(Span::new(author.as_str(), Style::WhiteDim));
    spans
}

/// The title of the box around a new description; the revision is named where it is not `@`.
pub fn describe_title(id: &str, revision: &str) -> (r: Vec<Span>)
    ensures
        span_views(r@) == seq![
            ("Described change "@, Style::WhiteDim),
            (short(id@), Style::BlueDim),
            (" "@, Style::Plain),
        ] + if revision@ == "@"@ {
            seq![]
        } else {
            seq![("("@ + revision@ + ")"@, Style::WhiteDim)]
        },
{
    let mut spans: Vec<Span> = Vec::new();
    spans.push(Span::new("Described change ", Style::WhiteDim));
    spans.push(Span::new(short_id(id).as_str(), Style::BlueDim));
    spans.push(Span::new(" ", Style::Plain));
    if !same(revision, "@") {
        let named = "(".to_owned().concat(revision).concat(")");
        spans.push(Span::new(named.as_str(), Style::WhiteDim));
    }
    assert(span_views(spans@) =~= seq![
        ("Described change "@, Style::WhiteDim),
        (short(id@), Style::BlueDim),
        (" "@, Style::Plain),
    ] + if revision@ == "@"@ {
        seq![]
    } else {
        seq![("("@ + revision@ + ")"@, Style::WhiteDim)]
    });
    spans
}

/// What is said of a bookmark that was moved or created.
pub fn bookmark_message(moved: bool, name: &str, id: &str) -> (r: Vec<Span>)
    ensures
        span_views(r@) == seq![
            (
                if moved {
                    "Moved bookmark"@
                } else {
                    "Created bookmark"@
                },
                Style::Green,
            ),
            (" "@, Style::Plain),
            (name@, Style::BlueBold),
            (" "@, Style::Plain),
            ("at"@, Style::WhiteDim),
            (" "@, Style::Plain),
            (short(id@), Style::Yellow),
        ],
{
    let action = if moved {
        "Moved bookmark"
    } else {
        "Created bookmark"
    };
    let mut spans: Vec<Span> = Vec::new();
    spans.push(Span::new(action, Style::Green));
    spans.push(Span::new(" ", Style::Plain));
    spans.push(Span::new(name, Style::BlueBold));
    spans.push(Span::new(" ", Style::Plain));
    spans.push(Span::new("at", Style::WhiteDim));
    spans.push(Span::new(" ", Style::Plain));
    spans.push(Span::new(short_id(id).as_str(), Style::Yellow));
    spans
}

} // verus!
