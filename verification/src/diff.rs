//! The parts of a diff: what is shown of one file that changed.

use vstd::prelude::*;
use vstd::utf8::{decode_utf8, valid_utf8};

use crate::gitattributes::{reason_for, GitAttrMatcher, Rule};
use crate::globs::{any_matches, PathMatcher};
use crate::text::{
    decimal, decimal_of, digit, lemma_lines_concat, lemma_lines_one, lemma_lines_pieces, lines,
    lines_of, lossy_text, opt_str, strict_text, utf8_lossy, views,
};
use crate::tree::{EntryKind, Kind};

verus! {

/// The content of a file in the two trees, where it has been read.
pub struct FileContents {
    pub before: Vec<u8>,
    pub after: Vec<u8>,
}

/// How many lines of an added or a deleted file are shown.
pub const MAX_LINES: usize = 50;

/// How many lines around a change are shown.
pub const CONTEXT_LINES: usize = 2;

// ---------------------------------------------------------------------------
// Collapsing
// ---------------------------------------------------------------------------

/// Why a file is collapsed: what `.gitattributes` says, or else the first limit that it exceeds.
pub open spec fn reason_text(
    gitattr_reason: Option<Seq<char>>,
    pattern_match: bool,
    line_count: nat,
    byte_size: nat,
    max_lines: nat,
    max_bytes: nat,
) -> Seq<char> {
    match gitattr_reason {
        Some(reason) => reason,
        None => if pattern_match {
            "collapsed: matches pattern"@
        } else if line_count > max_lines {
            "collapsed: exceeds line limit"@
        } else if byte_size > max_bytes {
            "collapsed: exceeds size limit"@
        } else {
            "collapsed"@
        },
    }
}

/// Why a file is collapsed.
pub fn collapse_reason(
    gitattr_reason: Option<&'static str>,
    pattern_match: bool,
    line_count: usize,
    byte_size: usize,
    max_lines: usize,
    max_bytes: usize,
) -> (r: &'static str)
    ensures
        r@ == reason_text(
            opt_str(gitattr_reason),
            pattern_match,
            line_count as nat,
            byte_size as nat,
            max_lines as nat,
            max_bytes as nat,
        ),
{
    if let Some(reason) = gitattr_reason {
        reason
    } else if pattern_match {
        "collapsed: matches pattern"
    } else if line_count > max_lines {
        "collapsed: exceeds line limit"
    } else if byte_size > max_bytes {
        "collapsed: exceeds size limit"
    } else {
        "collapsed"
    }
}

/// The line that begins the part of a diff on a file with the path `old` before and `new` after.
pub open spec fn title_line(old: Seq<char>, new: Seq<char>) -> Seq<char> {
    "diff --git a/"@ + old + " b/"@ + new + "\n"@
}

/// The line that begins the part of a diff on a file.
pub fn title(old: &str, new: &str) -> (r: String)
    ensures
        r@ == title_line(old@, new@),
{
    "diff --git a/".to_owned().concat(old).concat(" b/").concat(new).concat("\n")
}

/// What a diff shows of a collapsed file.
pub open spec fn collapsed_summary(
    path: Seq<char>,
    added: nat,
    removed: nat,
    status: Seq<char>,
    reason: Seq<char>,
) -> Seq<char> {
    title_line(path, path) + status + " (+"@ + decimal(added) + " -"@ + decimal(removed)
        + " lines, "@ + reason + ")\n"@
}

/// What a diff shows of a collapsed file.
pub fn format_collapsed_summary(
    path_str: &str,
    added: usize,
    removed: usize,
    status: &str,
    reason: &str,
) -> (r: String)
    ensures
        r@ == collapsed_summary(path_str@, added as nat, removed as nat, status@, reason@),
{
    title(path_str, path_str).concat(status).concat(" (+").concat(
        decimal_of(added).as_str(),
    ).concat(" -").concat(decimal_of(removed).as_str()).concat(" lines, ").concat(reason).concat(
        ")\n",
    )
}

// ---------------------------------------------------------------------------
// Added and deleted files
// ---------------------------------------------------------------------------

/// The lines, each behind the mark.
pub open spec fn marked_lines(all: Seq<Seq<char>>, mark: char) -> Seq<char>
    decreases all.len(),
{
    if all.len() == 0 {
        seq![]
    } else {
        marked_lines(all.drop_last(), mark) + seq![mark] + all.last() + "\n"@
    }
}

/// The beginning of a text, line by line behind the mark: up to `max_lines` lines, and how many
/// more there are.
pub open spec fn excerpt(text: Seq<char>, mark: char, max_lines: nat) -> Seq<char> {
    let all = lines(text);
    if all.len() > max_lines {
        marked_lines(all.take(max_lines as int), mark) + "... ("@ + decimal(
            (all.len() - max_lines) as nat,
        ) + " more lines)\n"@
    } else {
        marked_lines(all, mark)
    }
}

/// The heading of the part of a diff on an added or a deleted file.
pub open spec fn added_removed_heading(path: Seq<char>, is_added: bool) -> Seq<char> {
    title_line(path, path) + if is_added {
        "new file\n--- /dev/null\n+++ b/"@ + path + "\n"@
    } else {
        "deleted file\n--- a/"@ + path + "\n+++ /dev/null\n"@
    }
}

/// What a diff shows of an added or a deleted file.
pub open spec fn added_removed_diff(
    path: Seq<char>,
    content: Seq<u8>,
    is_added: bool,
    max_lines: nat,
) -> Seq<char> {
    added_removed_heading(path, is_added) + if valid_utf8(content) {
        excerpt(
            decode_utf8(content),
            if is_added {
                '+'
            } else {
                '-'
            },
            max_lines,
        )
    } else {
        "(binary file)\n"@
    }
}

/// Lines behind a mark are as many lines.
proof fn lemma_marked_lines(all: Seq<Seq<char>>, mark: char)
    requires
        mark != '\n',
        forall|i: int| 0 <= i < all.len() ==> !(#[trigger] all[i]).contains('\n'),
    ensures
        lines(marked_lines(all, mark)).len() == all.len(),
        all.len() > 0 ==> marked_lines(all, mark).len() > 0 && marked_lines(all, mark).last()
            == '\n',
    decreases all.len(),
{
    reveal_strlit("\n");
    if all.len() > 0 {
        let front = all.drop_last();
        let before = marked_lines(front, mark);
        let line = seq![mark] + all.last();
        lemma_marked_lines(front, mark);
        assert(marked_lines(all, mark) =~= before + line.push('\n'));
        assert(!line.contains('\n')) by {
            if line.contains('\n') {
                let k = choose|k: int| 0 <= k < line.len() && line[k] == '\n';
                assert(all.last()[k - 1] == '\n');
                assert(all[all.len() - 1].contains('\n'));
            }
        }
        lemma_lines_one(line);
        if front.len() > 0 {
            assert(before =~= before.drop_last().push('\n'));
            lemma_lines_concat(before.drop_last(), line.push('\n'));
        } else {
            assert(before + line.push('\n') =~= line.push('\n'));
        }
    }
}

/// No digit is a newline.
proof fn lemma_decimal_line(n: nat)
    ensures
        !decimal(n).contains('\n'),
    decreases n,
{
    if n >= 10 {
        lemma_decimal_line(n / 10);
        let front = decimal(n / 10);
        assert(decimal(n) == front.push(digit(n % 10)));
        if decimal(n).contains('\n') {
            let k = choose|k: int| 0 <= k < decimal(n).len() && decimal(n)[k] == '\n';
            if k < front.len() {
                assert(front[k] == '\n');
            }
        }
    }
}

/// Of an added or deleted file no more than the limit of lines is shown, and one line that says
/// how many more there are.
pub proof fn law_excerpts_are_short(text: Seq<char>, mark: char, max_lines: nat)
    requires
        mark != '\n',
    ensures
        lines(excerpt(text, mark, max_lines)).len() <= max_lines + 1,
        lines(text).len() <= max_lines ==> lines(excerpt(text, mark, max_lines)).len() == lines(
            text,
        ).len(),
{
    let all = lines(text);
    lemma_lines_pieces(text);
    if all.len() > max_lines {
        let shown = all.take(max_lines as int);
        let before = marked_lines(shown, mark);
        let count = (all.len() - max_lines) as nat;
        let note = "... ("@ + decimal(count) + " more lines)"@;
        reveal_strlit("... (");
        reveal_strlit(" more lines)");
        reveal_strlit(" more lines)\n");
        lemma_decimal_line(count);
        assert(!note.contains('\n')) by {
            if note.contains('\n') {
                let k = choose|k: int| 0 <= k < note.len() && note[k] == '\n';
                if 5 <= k < 5 + decimal(count).len() {
                    assert(decimal(count)[k - 5] == '\n');
                }
            }
        }
        assert(excerpt(text, mark, max_lines) =~= before + note.push('\n'));
        lemma_marked_lines(shown, mark);
        lemma_lines_one(note);
        if shown.len() > 0 {
            assert(before =~= before.drop_last().push('\n'));
            lemma_lines_concat(before.drop_last(), note.push('\n'));
        } else {
            assert(before + note.push('\n') =~= note.push('\n'));
        }
    } else {
        lemma_marked_lines(all, mark);
    }
}

/// The beginning of a text, line by line behind the mark.
pub fn excerpt_of(text: &str, mark: char, max_lines: usize) -> (r: String)
    ensures
        r@ == excerpt(text@, mark, max_lines as nat),
{
    let all = lines_of(text);
    let ghost model = lines(text@);
    let shown: usize = if all.len() > max_lines {
        max_lines
    } else {
        all.len()
    };
    let mut out = String::new();
    let mut i: usize = 0;
    while i < shown
        invariant
            i <= shown <= all@.len(),
            views(all@) == model,
            out@ == marked_lines(model.take(i as int), mark),
        decreases shown - i,
    {
        let ghost before = out@;
        assert(views(all@)[i as int] == all@[i as int]@);
        assert(model.take(i + 1).drop_last() == model.take(i as int));
        assert(model.take(i + 1).last() == all@[i as int]@);
        out.push(mark);
        out.append(all[i].as_str());
        out.append("\n");
        assert(out@ == before + seq![mark] + all@[i as int]@ + "\n"@);
        i += 1;
    }
    if all.len() > max_lines {
        out.append("... (");
        out.append(decimal_of(all.len() - max_lines).as_str());
        out.append(" more lines)\n");
    } else {
        assert(model.take(shown as int) == model);
    }
    out
}

/// What a diff shows of an added or a deleted file.
pub fn format_added_removed_diff(
    path_str: &str,
    content: &Vec<u8>,
    is_added: bool,
    max_lines: usize,
) -> (r: String)
    ensures
        r@ == added_removed_diff(path_str@, content@, is_added, max_lines as nat),
{
    let mut output = title(path_str, path_str);
    let ghost start = output@;
    if is_added {
        output.append("new file\n--- /dev/null\n+++ b/");
        output.append(path_str);
        output.append("\n");
        assert(output@ == start + ("new file\n--- /dev/null\n+++ b/"@ + path_str@ + "\n"@));
    } else {
        output.append("deleted file\n--- a/");
        output.append(path_str);
        output.append("\n+++ /dev/null\n");
        assert(output@ == start + ("deleted file\n--- a/"@ + path_str@ + "\n+++ /dev/null\n"@));
    }
    match strict_text(content) {
        Some(text) => {
            let mark = if is_added {
                '+'
            } else {
                '-'
            };
            let body = excerpt_of(text.as_str(), mark, max_lines);
            output.append(body.as_str());
        },
        None => {
            output.append("(binary file)\n");
        },
    }
    output
}

// ---------------------------------------------------------------------------
// Modified files
// ---------------------------------------------------------------------------

/// What became of a line.
#[derive(Debug, Clone, Copy, PartialEq, Eq, Structural)]
pub enum LineChange {
    Equal,
    Delete,
    Insert,
}

/// What `similar` says became of each line, when it compares two texts line by line.
pub uninterp spec fn line_changes(before: Seq<char>, after: Seq<char>) -> Seq<LineChange>;

/// The unified diff of two texts that `similar` makes, with so many lines of context and with these
/// names in its header.
pub uninterp spec fn unified(
    before: Seq<char>,
    after: Seq<char>,
    context: nat,
    old_name: Seq<char>,
    new_name: Seq<char>,
) -> Seq<char>;

/// `similar::TextDiff::from_lines`, with the tags that `iter_all_changes` gives its changes: one
/// for each line that is kept, deleted or inserted. They follow from the two texts alone.
#[verifier::external_body]
fn compare_lines(before: &str, after: &str) -> (r: Vec<LineChange>)
    ensures
        r@ == line_changes(before@, after@),
{
    similar::TextDiff::from_lines(before, after).iter_all_changes().map(
        |change|
            match change.tag() {
                similar::ChangeTag::Equal => LineChange::Equal,
                similar::ChangeTag::Delete => LineChange::Delete,
                similar::ChangeTag::Insert => LineChange::Insert,
            },
    ).collect()
}

/// `similar::TextDiff::from_lines`, rendered by `unified_diff` with `context_radius` and `header`.
/// The text follows from the arguments alone. `similar` doubles the radius, so it is no more than
/// half of what fits.
#[verifier::external_body]
fn unified_diff(
    before: &str,
    after: &str,
    context: usize,
    old_name: &str,
    new_name: &str,
) -> (r: String)
    requires
        context <= usize::MAX / 2,
    ensures
        r@ == unified(before@, after@, context as nat, old_name@, new_name@),
{
    similar::TextDiff::from_lines(before, after).unified_diff().context_radius(context).header(
        old_name,
        new_name,
    ).to_string()
}

/// How often a change occurs.
pub open spec fn occurrences(changes: Seq<LineChange>, change: LineChange) -> nat
    decreases changes.len(),
{
    if changes.len() == 0 {
        0
    } else {
        occurrences(changes.drop_last(), change) + if changes.last() == change {
            1nat
        } else {
            0nat
        }
    }
}

/// How many lines were inserted, and how many were deleted.
pub fn count_changes(changes: &Vec<LineChange>) -> (r: (usize, usize))
    ensures
        r.0 == occurrences(changes@, LineChange::Insert),
        r.1 == occurrences(changes@, LineChange::Delete),
        r.0 + r.1 <= changes@.len() <= usize::MAX,
{
    let mut added: usize = 0;
    let mut removed: usize = 0;
    let mut i: usize = 0;
    assert(changes.len() == changes@.len());
    while i < changes.len()
        invariant
            i <= changes@.len() <= usize::MAX,
            added == occurrences(changes@.take(i as int), LineChange::Insert),
            removed == occurrences(changes@.take(i as int), LineChange::Delete),
            added + removed <= i,
        decreases changes@.len() - i,
    {
        assert(changes@.take(i + 1).drop_last() == changes@.take(i as int));
        match changes[i] {
            LineChange::Insert => added += 1,
            LineChange::Delete => removed += 1,
            LineChange::Equal => {},
        }
        i += 1;
    }
    assert(changes@.take(i as int) == changes@);
    (added, removed)
}

// ---------------------------------------------------------------------------
// The part of a diff on one entry
// ---------------------------------------------------------------------------

/// What decides whether a file is collapsed.
pub struct CollapseRules {
    pub patterns: Option<Seq<Seq<char>>>,
    pub attributes: Option<Seq<Rule>>,
    pub max_lines: nat,
    pub max_bytes: nat,
}

/// The rules that matchers and limits stand for.
pub open spec fn collapse_rules(
    collapse_matcher: Option<&PathMatcher>,
    gitattr_matcher: Option<&GitAttrMatcher>,
    max_diff_lines: usize,
    max_diff_bytes: usize,
) -> CollapseRules {
    CollapseRules {
        patterns: match collapse_matcher {
            Some(matcher) => Some(matcher.patterns()),
            None => None,
        },
        attributes: match gitattr_matcher {
            Some(matcher) => Some(matcher.rules()),
            None => None,
        },
        max_lines: max_diff_lines as nat,
        max_bytes: max_diff_bytes as nat,
    }
}

impl CollapseRules {
    /// Why `.gitattributes` collapses a file.
    pub open spec fn attribute_reason(self, path: Seq<char>) -> Option<Seq<char>> {
        match self.attributes {
            Some(rules) => reason_for(rules, path),
            None => None,
        }
    }

    /// Whether a pattern collapses a file.
    pub open spec fn pattern_matches(self, path: Seq<char>) -> bool {
        match self.patterns {
            Some(patterns) => any_matches(patterns, path),
            None => false,
        }
    }

    /// Whether a file with so many lines and bytes is collapsed.
    pub open spec fn collapses(self, path: Seq<char>, line_count: nat, byte_size: nat) -> bool {
        ||| self.attribute_reason(path) is Some
        ||| self.pattern_matches(path)
        ||| line_count > self.max_lines
        ||| byte_size > self.max_bytes
    }

    /// Why a file with so many lines and bytes is collapsed.
    pub open spec fn reason(self, path: Seq<char>, line_count: nat, byte_size: nat) -> Seq<char> {
        reason_text(
            self.attribute_reason(path),
            self.pattern_matches(path),
            line_count,
            byte_size,
            self.max_lines,
            self.max_bytes,
        )
    }
}

/// The part of a diff on one entry, and whether that is a summary only.
pub struct Section {
    pub text: Seq<char>,
    pub collapsed: bool,
}

/// The part on an added or a deleted file.
pub open spec fn added_removed_section(
    path: Seq<char>,
    content: Seq<u8>,
    is_added: bool,
    rules: CollapseRules,
) -> Section {
    let line_count = lines(utf8_lossy(content)).len();
    let byte_size = content.len();
    if rules.collapses(path, line_count, byte_size) {
        let reason = rules.reason(path, line_count, byte_size);
        Section {
            text: if is_added {
                collapsed_summary(path, line_count, 0, "new file"@, reason)
            } else {
                collapsed_summary(path, 0, line_count, "deleted file"@, reason)
            },
            collapsed: true,
        }
    } else {
        Section {
            text: added_removed_diff(path, content, is_added, MAX_LINES as nat),
            collapsed: false,
        }
    }
}

/// The larger of two numbers.
pub open spec fn larger(a: nat, b: nat) -> nat {
    if a > b {
        a
    } else {
        b
    }
}

/// The part on a modified file. One that is not text is collapsed by `.gitattributes` and patterns
/// only; its lines are counted as far as it can be read as text.
pub open spec fn modified_section(
    path: Seq<char>,
    before: Seq<u8>,
    after: Seq<u8>,
    rules: CollapseRules,
) -> Section {
    let byte_size = larger(before.len(), after.len());
    if valid_utf8(before) && valid_utf8(after) {
        let old = decode_utf8(before);
        let new = decode_utf8(after);
        let added = occurrences(line_changes(old, new), LineChange::Insert);
        let removed = occurrences(line_changes(old, new), LineChange::Delete);
        if rules.collapses(path, added + removed, byte_size) {
            Section {
                text: collapsed_summary(
                    path,
                    added,
                    removed,
                    "modified"@,
                    rules.reason(path, added + removed, byte_size),
                ),
                collapsed: true,
            }
        } else {
            Section {
                text: title_line(path, path) + unified(
                    old,
                    new,
                    CONTEXT_LINES as nat,
                    "a/"@ + path,
                    "b/"@ + path,
                ),
                collapsed: false,
            }
        }
    } else if rules.attribute_reason(path) is Some || rules.pattern_matches(path) {
        let changes = line_changes(utf8_lossy(before), utf8_lossy(after));
        let added = occurrences(changes, LineChange::Insert);
        let removed = occurrences(changes, LineChange::Delete);
        Section {
            text: collapsed_summary(
                path,
                added,
                removed,
                "modified"@,
                rules.reason(path, added + removed, byte_size),
            ),
            collapsed: true,
        }
    } else {
        Section {
            text: title_line(path, path) + "(binary file modified)\n"@,
            collapsed: false,
        }
    }
}

/// The part on an entry that was not renamed; nothing on one that is no file.
pub open spec fn entry_section(
    path: Seq<char>,
    kind: Kind,
    contents: FileContents,
    rules: CollapseRules,
) -> Section {
    match kind {
        Kind::Added(_) => added_removed_section(path, contents.after@, true, rules),
        Kind::Deleted(_) => added_removed_section(path, contents.before@, false, rules),
        Kind::Modified => modified_section(path, contents.before@, contents.after@, rules),
        Kind::Conflicted => Section {
            text: title_line(path, path) + "(conflicted file)\n"@,
            collapsed: false,
        },
        Kind::Skipped => Section { text: seq![], collapsed: false },
    }
}

/// Why `.gitattributes` collapses a file, and whether a pattern does.
fn marks(
    collapse_matcher: Option<&PathMatcher>,
    gitattr_matcher: Option<&GitAttrMatcher>,
    path: &str,
) -> (r: (Option<&'static str>, bool))
    ensures
        forall|max_lines: usize, max_bytes: usize|
            #![trigger collapse_rules(collapse_matcher, gitattr_matcher, max_lines, max_bytes)]
            {
                let rules = collapse_rules(
                    collapse_matcher,
                    gitattr_matcher,
                    max_lines,
                    max_bytes,
                );
                opt_str(r.0) == rules.attribute_reason(path@) && r.1 == rules.pattern_matches(path@)
            },
{
    let reason = match gitattr_matcher {
        Some(matcher) => matcher.collapse_reason(path),
        None => None,
    };
    let matched = match collapse_matcher {
        Some(matcher) => matcher.is_match(path),
        None => false,
    };
    (reason, matched)
}

/// The part on an added or a deleted file, and whether it is a summary only.
fn format_one_sided(
    path: &str,
    content: &Vec<u8>,
    is_added: bool,
    collapse_matcher: Option<&PathMatcher>,
    gitattr_matcher: Option<&GitAttrMatcher>,
    max_diff_lines: usize,
    max_diff_bytes: usize,
) -> (r: (String, bool))
    ensures
        ({
            let rules = collapse_rules(
                collapse_matcher,
                gitattr_matcher,
                max_diff_lines,
                max_diff_bytes,
            );
            let section = added_removed_section(path@, content@, is_added, rules);
            r.0@ == section.text && r.1 == section.collapsed
        }),
{
    let ghost rules = collapse_rules(
        collapse_matcher,
        gitattr_matcher,
        max_diff_lines,
        max_diff_bytes,
    );
    let (gitattr_reason, pattern_match) = marks(collapse_matcher, gitattr_matcher, path);
    let byte_size: usize = content.len();
    let all = lines_of(lossy_text(content.as_slice()).as_str());
    let line_count: usize = all.len();
    assert(line_count == lines(utf8_lossy(content@)).len());
    if gitattr_reason.is_some() || pattern_match || line_count > max_diff_lines || byte_size
        > max_diff_bytes {
        let reason = collapse_reason(
            gitattr_reason,
            pattern_match,
            line_count,
            byte_size,
            max_diff_lines,
            max_diff_bytes,
        );
        if is_added {
            (format_collapsed_summary(path, line_count, 0, "new file", reason), true)
        } else {
            (format_collapsed_summary(path, 0, line_count, "deleted file", reason), true)
        }
    } else {
        (format_added_removed_diff(path, content, is_added, MAX_LINES), false)
    }
}

/// The part on a modified file, and whether it is a summary only.
fn format_modified(
    path: &str,
    contents: &FileContents,
    collapse_matcher: Option<&PathMatcher>,
    gitattr_matcher: Option<&GitAttrMatcher>,
    max_diff_lines: usize,
    max_diff_bytes: usize,
) -> (r: (String, bool))
    ensures
        ({
            let rules = collapse_rules(
                collapse_matcher,
                gitattr_matcher,
                max_diff_lines,
                max_diff_bytes,
            );
            let section = modified_section(path@, contents.before@, contents.after@, rules);
            r.0@ == section.text && r.1 == section.collapsed
        }),
{
    let ghost rules = collapse_rules(
        collapse_matcher,
        gitattr_matcher,
        max_diff_lines,
        max_diff_bytes,
    );
    let byte_size: usize = if contents.before.len() > contents.after.len() {
        contents.before.len()
    } else {
        contents.after.len()
    };
    let (gitattr_reason, pattern_match) = marks(collapse_matcher, gitattr_matcher, path);
    let marked = gitattr_reason.is_some() || pattern_match;
    let old = strict_text(&contents.before);
    let new = strict_text(&contents.after);
    match (old, new) {
        (Some(old), Some(new)) => {
            let changes = compare_lines(old.as_str(), new.as_str());
            let (added, removed) = count_changes(&changes);
            let line_count: usize = added + removed;
            if marked || line_count > max_diff_lines || byte_size > max_diff_bytes {
                let reason = collapse_reason(
                    gitattr_reason,
                    pattern_match,
                    line_count,
                    byte_size,
                    max_diff_lines,
                    max_diff_bytes,
                );
                (format_collapsed_summary(path, added, removed, "modified", reason), true)
            } else {
                let old_name = "a/".to_owned().concat(path);
                let new_name = "b/".to_owned().concat(path);
                let body = unified_diff(
                    old.as_str(),
                    new.as_str(),
                    CONTEXT_LINES,
                    old_name.as_str(),
                    new_name.as_str(),
                );
                (title(path, path).concat(body.as_str()), false)
            }
        },
        _ => if marked {
            let before = lossy_text(contents.before.as_slice());
            let after = lossy_text(contents.after.as_slice());
            let changes = compare_lines(before.as_str(), after.as_str());
            let (added, removed) = count_changes(&changes);
            let reason = collapse_reason(
                gitattr_reason,
                pattern_match,
                added + removed,
                byte_size,
                max_diff_lines,
                max_diff_bytes,
            );
            (format_collapsed_summary(path, added, removed, "modified", reason), true)
        } else {
            (title(path, path).concat("(binary file modified)\n"), false)
        },
    }
}

/// The part on an entry that was not renamed, and whether it is a summary only.
pub fn format_entry(
    path: &str,
    kind: &EntryKind<'_>,
    contents: &FileContents,
    collapse_matcher: Option<&PathMatcher>,
    gitattr_matcher: Option<&GitAttrMatcher>,
    max_diff_lines: usize,
    max_diff_bytes: usize,
) -> (r: (String, bool))
    ensures
        ({
            let rules = collapse_rules(
                collapse_matcher,
                gitattr_matcher,
                max_diff_lines,
                max_diff_bytes,
            );
            let section = entry_section(path@, kind.kind(), *contents, rules);
            r.0@ == section.text && r.1 == section.collapsed
        }),
{
    match kind {
        EntryKind::Added(_) => format_one_sided(
            path,
            &contents.after,
            true,
            collapse_matcher,
            gitattr_matcher,
            max_diff_lines,
            max_diff_bytes,
        ),
        EntryKind::Deleted(_) => format_one_sided(
            path,
            &contents.before,
            false,
            collapse_matcher,
            gitattr_matcher,
            max_diff_lines,
            max_diff_bytes,
        ),
        EntryKind::Modified => format_modified(
            path,
            contents,
            collapse_matcher,
            gitattr_matcher,
            max_diff_lines,
            max_diff_bytes,
        ),
        EntryKind::Conflicted => (title(path, path).concat("(conflicted file)\n"), false),
        EntryKind::Skipped => (String::new(), false),
    }
}

} // verus!
