use console::strip_ansi_codes;
use jc::report::{
    bookmark_message, box_spans, collapsed_spans, commit_title, describe_title, file_change_spans,
    format_box_with_title, short_id,
};
use jc::styled::{paint, render, Span, Style};
use jc::tree::FileChangeSummary;
use unicode_width::UnicodeWidthStr;

fn stripped_width(line: &str) -> usize {
    strip_ansi_codes(line).width()
}

/// The texts of the spans.
fn plain(spans: &[Span]) -> String {
    spans.iter().map(|s| s.text.as_str()).collect()
}

#[test]
fn test_format_box_with_title_ascii() {
    let result = format_box_with_title("Title", "Hello", 72);
    let plain = strip_ansi_codes(&result);
    assert!(plain.contains("╭─Title"));
    assert!(plain.contains("│ Hello"));
    // All lines should have same width (72 + 4 for borders and spaces)
    let line_widths: Vec<usize> = result.lines().map(stripped_width).collect();
    assert!(line_widths.iter().all(|&w| w == 76));
}

#[test]
fn test_format_box_with_title_japanese() {
    let result = format_box_with_title("コミット", "こんにちは", 72);
    let line_widths: Vec<usize> = result.lines().map(stripped_width).collect();
    // All lines should have same display width
    assert!(line_widths.iter().all(|&w| w == 76));
}

#[test]
fn test_format_box_with_title_mixed() {
    let result = format_box_with_title("Commit by 太郎", "Hello こんにちは World", 72);
    let line_widths: Vec<usize> = result.lines().map(stripped_width).collect();
    assert!(line_widths.iter().all(|&w| w == 76));
}

#[test]
fn test_format_box_with_title_multiline() {
    let content = "タイトル\n\nこれは日本語のテストです";
    let result = format_box_with_title("Committed change a05fdfa2", content, 72);
    let line_widths: Vec<usize> = result.lines().map(stripped_width).collect();
    // All lines should have same display width
    assert!(line_widths.iter().all(|&w| w == 76));
}

#[test]
fn test_format_box_with_title_fixed_width() {
    let result = format_box_with_title("Title", "Short", 72);
    let first_line = result.lines().next().unwrap_or("");
    // width=72, plus 4 for borders and spaces = 76
    assert_eq!(stripped_width(first_line), 76);
}

#[test]
fn test_format_box_with_title_empty_content() {
    let result = format_box_with_title("Title", "", 72);
    let first_line = result.lines().next().unwrap_or("");
    assert!(strip_ansi_codes(first_line).contains("╭─Title"));
    assert!(strip_ansi_codes(&result).contains("╰"));
}

#[test]
fn test_format_box_with_title_long_title() {
    let result = format_box_with_title(
        "This is an extremely long title that exceeds the box width",
        "Short",
        20,
    );
    // Should not panic; may have no border padding but still produce output
    let plain = strip_ansi_codes(&result);
    assert!(plain.contains("╭─"));
    assert!(plain.contains("╮"));
}

#[test]
fn box_is_drawn_exactly() {
    let spans = box_spans("T", "ab\ntoo long", 4);
    assert_eq!(plain(&spans), "╭─T────╮\n│ ab   │\n│ too long │\n╰──────╯\n");
}

#[test]
fn titles_in_colour_are_measured_without_codes() {
    let spans = box_spans("\u{1b}[2mT\u{1b}[0m", "", 4);
    assert_eq!(spans[2].text, "────");
}

#[test]
fn painting_adds_codes_or_nothing() {
    let styles = [
        (Style::Dim, "2"),
        (Style::WhiteDim, "2;37"),
        (Style::BlueDim, "2;34"),
        (Style::GreenDim, "2;32"),
        (Style::RedDim, "2;31"),
        (Style::YellowDim, "2;33"),
        (Style::Green, "32"),
        (Style::Yellow, "33"),
        (Style::BlueBold, "1;34"),
    ];
    for on in [true, false] {
        colored::control::set_override(on);
        for (style, codes) in styles {
            let expected = if on { format!("\u{1b}[{codes}mx\u{1b}[0m") } else { "x".to_string() };
            assert_eq!(paint("x", style), expected);
        }
        assert_eq!(paint("x", Style::Plain), "x");
    }
    colored::control::unset_override();
}

#[test]
fn files_are_listed() {
    let changes = FileChangeSummary {
        added: vec!["a".to_string(), "b".to_string()],
        deleted: vec!["c".to_string()],
        modified: vec!["d".to_string()],
    };
    let spans = file_change_spans(&changes);
    assert_eq!(plain(&spans), "  A a\n  A b\n  D c\n  M d\n");
    assert_eq!(strip_ansi_codes(&render(&spans)), "  A a\n  A b\n  D c\n  M d\n");
    assert_eq!(spans[1].style, Style::GreenDim);
    assert_eq!(spans[3].style, Style::Dim);
    assert!(file_change_spans(&FileChangeSummary::default()).is_empty());
}

#[test]
fn collapsed_files_are_reported() {
    assert!(collapsed_spans(&Vec::new()).is_empty());
    let paths = vec!["Cargo.lock".to_string(), "a.min.js".to_string()];
    assert_eq!(
        plain(&collapsed_spans(&paths)),
        "  ! 2 files collapsed from LLM diff:\n  !   Cargo.lock\n  !   a.min.js\n"
    );
}

#[test]
fn titles_name_the_change() {
    assert_eq!(short_id("0123456789"), "01234567");
    assert_eq!(short_id("0123"), "0123");
    assert_eq!(
        plain(&commit_title("0123456789", "N", "e@x")),
        "Committed change 01234567 by N <e@x>"
    );
    assert_eq!(plain(&describe_title("0123456789", "@")), "Described change 01234567 ");
    assert_eq!(plain(&describe_title("0123456789", "@-")), "Described change 01234567 (@-)");
    assert_eq!(
        plain(&bookmark_message(true, "feature/x", "0123456789")),
        "Moved bookmark feature/x at 01234567"
    );
    assert_eq!(
        plain(&bookmark_message(false, "feature/x", "0123456789")),
        "Created bookmark feature/x at 01234567"
    );
}
