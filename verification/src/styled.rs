//! Text in colours for a terminal.

use vstd::prelude::*;

use colored::Colorize;

verus! {

/// How a piece of text looks.
#[derive(Debug, Clone, Copy, PartialEq, Eq, Structural)]
pub enum Style {
    Plain,
    Dim,
    WhiteDim,
    BlueDim,
    GreenDim,
    RedDim,
    YellowDim,
    Green,
    Yellow,
    BlueBold,
}

/// A piece of text and how it looks.
#[derive(Debug)]
pub struct Span {
    pub text: String,
    pub style: Style,
}

/// What a span is.
pub type SpanView = (Seq<char>, Style);

impl Span {
    pub open spec fn spec_view(self) -> SpanView {
        (self.text@, self.style)
    }

    pub fn new(text: &str, style: Style) -> (r: Span)
        ensures
            r.spec_view() == (text@, style),
    {
        Span { text: text.to_owned(), style }
    }
}

/// What each of the spans is.
pub open spec fn span_views(spans: Seq<Span>) -> Seq<SpanView> {
    spans.map_values(|s: Span| s.spec_view())
}

pub broadcast proof fn lemma_span_views_push(spans: Seq<Span>, span: Span)
    ensures
        #[trigger] span_views(spans.push(span)) == span_views(spans).push(span.spec_view()),
{
    assert(span_views(spans.push(span)) =~= span_views(spans).push(span.spec_view()));
}

/// The sequence that begins a style.
pub open spec fn start_code(style: Style) -> Seq<char> {
    match style {
        Style::Plain => seq![],
        Style::Dim => "\u{1b}[2m"@,
        Style::WhiteDim => "\u{1b}[2;37m"@,
        Style::BlueDim => "\u{1b}[2;34m"@,
        Style::GreenDim => "\u{1b}[2;32m"@,
        Style::RedDim => "\u{1b}[2;31m"@,
        Style::YellowDim => "\u{1b}[2;33m"@,
        Style::Green => "\u{1b}[32m"@,
        Style::Yellow => "\u{1b}[33m"@,
        Style::BlueBold => "\u{1b}[1;34m"@,
    }
}

/// The sequence that ends a style.
pub open spec fn reset_code() -> Seq<char> {
    "\u{1b}[0m"@
}

/// Whether a text holds the sequence that ends a style.
pub open spec fn holds_reset(text: Seq<char>) -> bool {
    exists|i: int|
        0 <= i <= text.len() - reset_code().len() && #[trigger] text.subrange(
            i,
            i + reset_code().len(),
        ) == reset_code()
}

/// Whether a text was painted: it is left as it is where colours are off, and else stands between
/// the sequences that begin and end the style. Of a text that itself ends a style nothing more is
/// said where colours are on.
pub open spec fn is_painted(text: Seq<char>, style: Style, painted: Seq<char>) -> bool {
    ||| painted == text
    ||| style != Style::Plain && holds_reset(text)
    ||| style != Style::Plain && painted == start_code(style) + text + reset_code()
}

/// `colored`'s `dimmed`. Whether there are colours depends on the terminal and the environment.
#[verifier::external_body]
fn dim(text: &str) -> (r: String)
    ensures
        is_painted(text@, Style::Dim, r@),
{
    text.dimmed().to_string()
}

/// `colored`'s `white` and `dimmed`.
#[verifier::external_body]
fn white_dim(text: &str) -> (r: String)
    ensures
        is_painted(text@, Style::WhiteDim, r@),
{
    text.white().dimmed().to_string()
}

/// `colored`'s `blue` and `dimmed`.
#[verifier::external_body]
fn blue_dim(text: &str) -> (r: String)
    ensures
        is_painted(text@, Style::BlueDim, r@),
{
    text.blue().dimmed().to_string()
}

/// `colored`'s `green` and `dimmed`.
#[verifier::external_body]
fn green_dim(text: &str) -> (r: String)
    ensures
        is_painted(text@, Style::GreenDim, r@),
{
    text.green().dimmed().to_string()
}

/// `colored`'s `red` and `dimmed`.
#[verifier::external_body]
fn red_dim(text: &str) -> (r: String)
    ensures
        is_painted(text@, Style::RedDim, r@),
{
    text.red().dimmed().to_string()
}

/// `colored`'s `yellow` and `dimmed`.
#[verifier::external_body]
fn yellow_dim(text: &str) -> (r: String)
    ensures
        is_painted(text@, Style::YellowDim, r@),
{
    text.yellow().dimmed().to_string()
}

/// `colored`'s `green`.
#[verifier::external_body]
fn green(text: &str) -> (r: String)
    ensures
        is_painted(text@, Style::Green, r@),
{
    text.green().to_string()
}

/// `colored`'s `yellow`.
#[verifier::external_body]
fn yellow(text: &str) -> (r: String)
    ensures
        is_painted(text@, Style::Yellow, r@),
{
    text.yellow().to_string()
}

/// `colored`'s `blue` and `bold`.
#[verifier::external_body]
fn blue_bold(text: &str) -> (r: String)
    ensures
        is_painted(text@, Style::BlueBold, r@),
{
    text.blue().bold().to_string()
}

/// A text in a style.
pub fn paint(text: &str, style: Style) -> (r: String)
    ensures
        is_painted(text@, style, r@),
{
    match style {
        Style::Plain => text.to_owned(),
        Style::Dim => dim(text),
        Style::WhiteDim => white_dim(text),
        Style::BlueDim => blue_dim(text),
        Style::GreenDim => green_dim(text),
        Style::RedDim => red_dim(text),
        Style::YellowDim => yellow_dim(text),
        Style::Green => green(text),
        Style::Yellow => yellow(text),
        Style::BlueBold => blue_bold(text),
    }
}

/// Whether a text shows the spans, one after the other.
pub open spec fn shows(spans: Seq<SpanView>, text: Seq<char>) -> bool
    decreases spans.len(),
{
    if spans.len() == 0 {
        text.len() == 0
    } else {
        exists|k: int|
            {
                &&& 0 <= k <= text.len()
                &&& shows(spans.drop_last(), #[trigger] text.take(k))
                &&& is_painted(spans.last().0, spans.last().1, text.skip(k))
            }
    }
}

/// The text that shows the spans.
pub fn render(spans: &Vec<Span>) -> (r: String)
    ensures
        shows(span_views(spans@), r@),
{
    let ghost model = span_views(spans@);
    let mut out = String::new();
    let mut i: usize = 0;
    while i < spans.len()
        invariant
            i <= spans@.len(),
            model == span_views(spans@),
            shows(model.take(i as int), out@),
        decreases spans@.len() - i,
    {
        let piece = paint(spans[i].text.as_str(), spans[i].style);
        let ghost before = out@;
        out.append(piece.as_str());
        proof {
            let k = before.len() as int;
            assert(out@.take(k) =~= before);
            assert(out@.skip(k) =~= piece@);
            assert(model.take(i + 1).drop_last() =~= model.take(i as int));
            assert(model.take(i + 1).last() == spans@[i as int].spec_view());
            assert(shows(model.take(i + 1).drop_last(), out@.take(k)));
        }
        i += 1;
    }
    assert(model.take(i as int) =~= model);
    out
}

/// The texts of the spans, one after the other.
pub open spec fn plain_text(spans: Seq<SpanView>) -> Seq<char>
    decreases spans.len(),
{
    if spans.len() == 0 {
        seq![]
    } else {
        plain_text(spans.drop_last()) + spans.last().0
    }
}

/// Without colours, the spans are shown by their texts.
pub proof fn law_plain_text_shows_the_spans(spans: Seq<SpanView>)
    ensures
        shows(spans, plain_text(spans)),
    decreases spans.len(),
{
    if spans.len() > 0 {
        let text = plain_text(spans);
        let k = plain_text(spans.drop_last()).len() as int;
        law_plain_text_shows_the_spans(spans.drop_last());
        assert(text.take(k) =~= plain_text(spans.drop_last()));
        assert(text.skip(k) =~= spans.last().0);
        assert(shows(spans.drop_last(), text.take(k)));
    }
}

} // verus!
