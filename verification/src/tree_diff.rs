//! The diff between two trees, as it is shown to a model.

use vstd::prelude::*;
use vstd::utf8::{decode_utf8, encode_utf8, valid_utf8};

use crate::config::DiffConfig;
use crate::diff::{
    collapse_rules, collapsed_summary, entry_section, format_entry, larger, line_changes,
    marked_lines, occurrences, title, title_line, unified, CollapseRules, FileContents, LineChange,
    Section,
};
use crate::gitattributes::{load_gitattributes, rule_patterns, rules_on, GitAttrMatcher};
use crate::globs::{
    build_collapse_matcher, first_match, glob_matches, globs_compile, lemma_first_match,
    valid_patterns, PathMatcher,
};
use crate::limits::{fits, law_truncation_keeps_what_fits, truncate, truncated};
use crate::text::{
    concat, decimal, decimal_of, is_blank, lemma_concat_push, lemma_views_push, lines, opt_str,
    opt_text, trim, utf8_lossy, views,
};
use crate::tree::{
    classify_all, detect_renames, first_error, is_renamed, kind_of, kind_views, kinds_of,
    law_renames_are_exact, partner_views, renames, EntryKind, EntryValues, Kind, Side, TreeEntry,
};

verus! {

/// The diff, and the files of which it holds no more than a summary.
pub struct TreeDiffResult {
    pub diff: String,
    pub collapsed_count: usize,
    pub collapsed_paths: Vec<String>,
}

// ---------------------------------------------------------------------------
// Model
// ---------------------------------------------------------------------------

/// The part of a diff on a renamed file.
pub open spec fn rename_section(old: Seq<char>, new: Seq<char>) -> Seq<char> {
    title_line(old, new) + "rename from "@ + old + "\nrename to "@ + new + "\n"@
}

/// What a diff says of the entry `i` as the new name of a file; nothing where it is none.
pub open spec fn rename_part(entries: Seq<TreeEntry>, i: int) -> Seq<char> {
    match renames(kinds_of(entries))[i] {
        Some(j) => rename_section(entries[j as int].path@, entries[i].path@),
        None => seq![],
    }
}

/// What a diff shows of the content of the entry `i`; nothing where the file was only renamed.
pub open spec fn content_part(
    entries: Seq<TreeEntry>,
    contents: Seq<FileContents>,
    rules: CollapseRules,
    i: int,
) -> Section {
    if is_renamed(kinds_of(entries), i as nat) {
        Section { text: seq![], collapsed: false }
    } else {
        entry_section(entries[i].path@, kinds_of(entries)[i], contents[i], rules)
    }
}

/// The parts of a diff on renames, one for each entry.
pub open spec fn rename_parts(entries: Seq<TreeEntry>) -> Seq<Seq<char>> {
    Seq::new(entries.len(), |i: int| rename_part(entries, i))
}

/// The parts of a diff on contents, one for each entry.
pub open spec fn content_parts(
    entries: Seq<TreeEntry>,
    contents: Seq<FileContents>,
    rules: CollapseRules,
) -> Seq<Seq<char>> {
    Seq::new(entries.len(), |i: int| content_part(entries, contents, rules, i).text)
}

/// The diff: the renames, then everything else, both in the order of the entries.
pub open spec fn tree_diff(
    entries: Seq<TreeEntry>,
    contents: Seq<FileContents>,
    rules: CollapseRules,
) -> Seq<char> {
    concat(rename_parts(entries)) + concat(content_parts(entries, contents, rules))
}

/// Those of the first `n` entries that are collapsed.
pub open spec fn collapsed_among(
    entries: Seq<TreeEntry>,
    contents: Seq<FileContents>,
    rules: CollapseRules,
    n: nat,
) -> Seq<Seq<char>>
    decreases n,
{
    if n == 0 {
        seq![]
    } else {
        let earlier = collapsed_among(entries, contents, rules, (n - 1) as nat);
        if content_part(entries, contents, rules, n - 1).collapsed {
            earlier.push(entries[n - 1].path@)
        } else {
            earlier
        }
    }
}

/// Which contents of an entry the diff depends on: the one before the change, and the one after it.
pub open spec fn needed(kinds: Seq<Kind>, i: int) -> (bool, bool) {
    if is_renamed(kinds, i as nat) {
        (false, false)
    } else {
        match kinds[i] {
            Kind::Added(_) => (false, true),
            Kind::Deleted(_) => (true, false),
            Kind::Modified => (true, true),
            _ => (false, false),
        }
    }
}

// ---------------------------------------------------------------------------
// Laws
// ---------------------------------------------------------------------------

proof fn lemma_concat_part(parts: Seq<Seq<char>>, i: int)
    requires
        0 <= i < parts.len(),
    ensures
        concat(parts) == concat(parts.take(i)) + parts[i] + concat(parts.skip(i + 1)),
    decreases parts.len(),
{
    if i == parts.len() - 1 {
        assert(parts.take(i) == parts.drop_last());
        assert(parts.skip(i + 1) == Seq::<Seq<char>>::empty());
        assert(concat(parts) == concat(parts.take(i)) + parts[i] + Seq::<char>::empty());
    } else {
        let front = parts.drop_last();
        lemma_concat_part(front, i);
        let rest = parts.skip(i + 1);
        assert(front.take(i) == parts.take(i));
        assert(front.skip(i + 1) == rest.drop_last());
        assert(rest.last() == parts.last());
        assert(concat(parts.take(i)) + parts[i] + concat(rest.drop_last()) + parts.last() == concat(
            parts.take(i),
        ) + parts[i] + (concat(rest.drop_last()) + parts.last()));
    }
}

/// What a diff says of an entry stands in it in one piece.
pub proof fn law_every_part_is_shown(
    entries: Seq<TreeEntry>,
    contents: Seq<FileContents>,
    rules: CollapseRules,
    i: int,
) -> (cut: (int, int))
    requires
        0 <= i < entries.len(),
    ensures
        ({
            let diff = tree_diff(entries, contents, rules);
            let renamed = rename_part(entries, i);
            let shown = content_part(entries, contents, rules, i).text;
            &&& 0 <= cut.0 <= cut.0 + renamed.len() <= cut.1 <= cut.1 + shown.len() <= diff.len()
            &&& diff.subrange(cut.0, cut.0 + renamed.len()) == renamed
            &&& diff.subrange(cut.1, cut.1 + shown.len()) == shown
        }),
{
    let a = rename_parts(entries);
    let b = content_parts(entries, contents, rules);
    lemma_concat_part(a, i);
    lemma_concat_part(b, i);
    let at = concat(a.take(i)).len() as int;
    let then_at = (concat(a).len() + concat(b.take(i)).len()) as int;
    let diff = tree_diff(entries, contents, rules);
    assert(diff.subrange(at, at + a[i].len()) =~= a[i]);
    assert(diff.subrange(then_at, then_at + b[i].len()) =~= b[i]);
    (at, then_at)
}

/// A file is collapsed only by a rule, and of a collapsed file the diff shows a summary with the
/// rule that applies.
pub proof fn law_collapsed_files_are_summarised(
    path: Seq<char>,
    kind: Kind,
    contents: FileContents,
    rules: CollapseRules,
)
    requires
        entry_section(path, kind, contents, rules).collapsed,
    ensures
        exists|added: nat, removed: nat, status: Seq<char>, count: nat, size: nat|
            {
                &&& entry_section(path, kind, contents, rules).text
                    == #[trigger] collapsed_summary(
                    path,
                    added,
                    removed,
                    status,
                    rules.reason(path, count, size),
                )
                &&& count == added + removed
                &&& #[trigger] rules.collapses(path, count, size)
            },
{
    match kind {
        Kind::Added(_) => {
            let count = lines(utf8_lossy(contents.after@)).len();
            let size = contents.after@.len();
            assert(rules.collapses(path, count, size));
            assert(entry_section(path, kind, contents, rules).text == collapsed_summary(
                path,
                count,
                0,
                "new file"@,
                rules.reason(path, count, size),
            ));
        },
        Kind::Deleted(_) => {
            let count = lines(utf8_lossy(contents.before@)).len();
            let size = contents.before@.len();
            assert(rules.collapses(path, count, size));
            assert(entry_section(path, kind, contents, rules).text == collapsed_summary(
                path,
                0,
                count,
                "deleted file"@,
                rules.reason(path, count, size),
            ));
        },
        _ => {
            let is_text = valid_utf8(contents.before@) && valid_utf8(contents.after@);
            let changes = if is_text {
                line_changes(decode_utf8(contents.before@), decode_utf8(contents.after@))
            } else {
                line_changes(utf8_lossy(contents.before@), utf8_lossy(contents.after@))
            };
            let added = occurrences(changes, LineChange::Insert);
            let removed = occurrences(changes, LineChange::Delete);
            let size = larger(contents.before@.len(), contents.after@.len());
            assert(rules.collapses(path, added + removed, size));
            assert(entry_section(path, kind, contents, rules).text == collapsed_summary(
                path,
                added,
                removed,
                "modified"@,
                rules.reason(path, added + removed, size),
            ));
        },
    }
}

/// A file that was added, deleted or modified is collapsed where `.gitattributes` or a pattern says
/// so.
pub proof fn law_marked_files_are_collapsed(
    path: Seq<char>,
    kind: Kind,
    contents: FileContents,
    rules: CollapseRules,
)
    requires
        rules.attribute_reason(path) is Some || rules.pattern_matches(path),
        kind is Added || kind is Deleted || kind is Modified,
    ensures
        entry_section(path, kind, contents, rules).collapsed,
{
}

/// The diff depends on the contents that are needed, and on no others.
pub proof fn law_only_needed_contents_matter(
    entries: Seq<TreeEntry>,
    contents: Seq<FileContents>,
    others: Seq<FileContents>,
    rules: CollapseRules,
)
    requires
        contents.len() == others.len() == entries.len(),
        forall|i: int|
            0 <= i < entries.len() ==> {
                &&& (#[trigger] needed(kinds_of(entries), i)).0 ==> contents[i].before@
                    == others[i].before@
                &&& needed(kinds_of(entries), i).1 ==> contents[i].after@ == others[i].after@
            },
    ensures
        tree_diff(entries, contents, rules) == tree_diff(entries, others, rules),
        collapsed_among(entries, contents, rules, entries.len()) == collapsed_among(
            entries,
            others,
            rules,
            entries.len(),
        ),
{
    assert forall|i: int| 0 <= i < entries.len() implies #[trigger] content_part(
        entries,
        contents,
        rules,
        i,
    ) == content_part(entries, others, rules, i) by {
        let n = needed(kinds_of(entries), i);
    }
    assert(content_parts(entries, contents, rules) =~= content_parts(entries, others, rules));
    lemma_collapsed_same(entries, contents, others, rules, entries.len());
}

proof fn lemma_collapsed_same(
    entries: Seq<TreeEntry>,
    contents: Seq<FileContents>,
    others: Seq<FileContents>,
    rules: CollapseRules,
    n: nat,
)
    requires
        n <= entries.len(),
        forall|i: int|
            0 <= i < entries.len() ==> #[trigger] content_part(entries, contents, rules, i)
                == content_part(entries, others, rules, i),
    ensures
        collapsed_among(entries, contents, rules, n) == collapsed_among(entries, others, rules, n),
    decreases n,
{
    if n > 0 {
        lemma_collapsed_same(entries, contents, others, rules, (n - 1) as nat);
        assert(content_part(entries, contents, rules, n - 1) == content_part(
            entries,
            others,
            rules,
            n - 1,
        ));
    }
}

/// A file is collapsed exactly where a rule of `.gitattributes` or a pattern matches its path, or
/// where it exceeds a limit.
pub proof fn law_rules_decide_what_is_collapsed(
    rules: CollapseRules,
    path: Seq<char>,
    line_count: nat,
    byte_size: nat,
)
    ensures
        rules.collapses(path, line_count, byte_size) <==> {
            ||| rules.attributes matches Some(list) && exists|k: int|
                0 <= k < list.len() && glob_matches((#[trigger] list[k]).0, path)
            ||| rules.patterns matches Some(list) && exists|k: int|
                0 <= k < list.len() && glob_matches(#[trigger] list[k], path)
            ||| line_count > rules.max_lines
            ||| byte_size > rules.max_bytes
        },
{
    if let Some(list) = rules.attributes {
        lemma_first_match(rule_patterns(list), path);
        if rules.attribute_reason(path) is Some {
            let n = first_match(rule_patterns(list), path)->0 as int;
            assert(glob_matches(list[n].0, path));
        } else {
            assert forall|k: int| 0 <= k < list.len() implies !glob_matches(
                (#[trigger] list[k]).0,
                path,
            ) by {
                assert(rule_patterns(list)[k] == list[k].0);
            }
        }
    }
}

/// The reason that is given is that of the first rule of `.gitattributes` that matches; else that a
/// pattern does; else that there are too many lines; else that there are too many bytes.
pub proof fn law_reasons_are_given_in_order(
    rules: CollapseRules,
    path: Seq<char>,
    line_count: nat,
    byte_size: nat,
    n: int,
)
    ensures
        (rules.attributes matches Some(list) && 0 <= n < list.len() && glob_matches(list[n].0, path)
            && (forall|k: int| 0 <= k < n ==> !glob_matches((#[trigger] list[k]).0, path)))
            ==> rules.reason(path, line_count, byte_size) == rules.attributes->0[n].1,
        (rules.attributes matches Some(list) ==> forall|k: int|
            0 <= k < list.len() ==> !glob_matches((#[trigger] list[k]).0, path))
            ==> rules.reason(path, line_count, byte_size) == if rules.patterns matches Some(list)
            && exists|k: int| 0 <= k < list.len() && glob_matches(#[trigger] list[k], path) {
            "collapsed: matches pattern"@
        } else if line_count > rules.max_lines {
            "collapsed: exceeds line limit"@
        } else if byte_size > rules.max_bytes {
            "collapsed: exceeds size limit"@
        } else {
            "collapsed"@
        },
{
    if let Some(list) = rules.attributes {
        let patterns = rule_patterns(list);
        lemma_first_match(patterns, path);
        assert forall|k: int| 0 <= k < list.len() implies #[trigger] patterns[k] == list[k].0 by {}
        if let Some(m) = first_match(patterns, path) {
            assert(glob_matches(list[m as int].0, path));
            if 0 <= n < list.len() && glob_matches(list[n].0, path) && m > n {
                assert(!glob_matches(patterns[n], path));
            }
        } else if 0 <= n < list.len() {
            assert(patterns[n] == list[n].0);
        }
    }
}

proof fn lemma_marked_parts(all: Seq<Seq<char>>, mark: char)
    ensures
        marked_lines(all, mark) == concat(
            all.map_values(|line: Seq<char>| seq![mark] + line + "\n"@),
        ),
    decreases all.len(),
{
    let parts = all.map_values(|line: Seq<char>| seq![mark] + line + "\n"@);
    if all.len() > 0 {
        let front = all.drop_last();
        lemma_marked_parts(front, mark);
        assert(parts.drop_last() =~= front.map_values(
            |line: Seq<char>| seq![mark] + line + "\n"@,
        ));
        assert(marked_lines(all, mark) =~= marked_lines(front, mark) + parts.last());
    }
}

/// Of a new file the content after the change is needed, of a deleted one that before it, of a
/// modified one both; of a rename, and of anything else, neither.
pub proof fn law_contents_are_needed_by_kind(kinds: Seq<Kind>, i: int)
    requires
        0 <= i < kinds.len(),
    ensures
        needed(kinds, i) == if renames(kinds)[i] is Some || renames(kinds).contains(
            Some(i as nat),
        ) {
            (false, false)
        } else {
            (kinds[i] is Deleted || kinds[i] is Modified, kinds[i] is Added || kinds[i] is Modified)
        },
{
}

/// What a diff shows of one entry alone is the part on it.
proof fn lemma_single(entry: TreeEntry, contents: FileContents, rules: CollapseRules)
    requires
        entry.values is Ok,
    ensures
        ({
            let section = entry_section(entry.path@, kind_of(entry.values->Ok_0), contents, rules);
            &&& tree_diff(seq![entry], seq![contents], rules) == section.text
            &&& collapsed_among(seq![entry], seq![contents], rules, 1) == if section.collapsed {
                seq![entry.path@]
            } else {
                seq![]
            }
        }),
{
    let entries = seq![entry];
    let kinds = kinds_of(entries);
    lemma_no_partner(kinds);
    reveal_with_fuel(collapsed_among, 2);
    let section = entry_section(entry.path@, kind_of(entry.values->Ok_0), contents, rules);
    assert(kinds[0] == kind_of(entry.values->Ok_0));
    let renamed = rename_parts(entries);
    let shown = content_parts(entries, seq![contents], rules);
    assert(renamed =~= seq![Seq::<char>::empty()]);
    assert(!is_renamed(kinds, 0));
    assert(shown =~= seq![section.text]);
    assert(renamed =~= Seq::<Seq<char>>::empty().push(Seq::<char>::empty()));
    assert(shown =~= Seq::<Seq<char>>::empty().push(section.text));
    lemma_concat_push(Seq::empty(), Seq::empty());
    lemma_concat_push(Seq::empty(), section.text);
    assert(tree_diff(entries, seq![contents], rules) =~= section.text);
    assert(Seq::<Seq<char>>::empty().push(entry.path@) =~= seq![entry.path@]);
}

/// One entry alone is no rename.
proof fn lemma_no_partner(kinds: Seq<Kind>)
    requires
        kinds.len() == 1,
    ensures
        renames(kinds) == seq![None::<nat>],
{
    law_renames_are_exact(kinds);
    let found = renames(kinds);
    if let Some(j) = found[0] {
        assert(j == 0);
    }
    assert(found =~= seq![None::<nat>]);
}

/// Of a file that is absent before and there after, the diff of the entry says that it is new, and
/// shows its first fifty lines, each in full behind a plus sign, and how many more there are. One
/// that is collapsed is summarised by its number of lines instead, and listed.
pub proof fn law_new_files_are_shown_as_new(
    entry: TreeEntry,
    id: Vec<u8>,
    contents: FileContents,
    rules: CollapseRules,
)
    requires
        entry.values == Ok::<EntryValues, String>(
            EntryValues { before: Side::Absent, after: Side::File(id) },
        ),
    ensures
        ({
            let path = entry.path@;
            let diff = tree_diff(seq![entry], seq![contents], rules);
            let listed = collapsed_among(seq![entry], seq![contents], rules, 1);
            let count = lines(utf8_lossy(contents.after@)).len();
            let head = "diff --git a/"@ + path + " b/"@ + path + "\n"@;
            let all = lines(decode_utf8(contents.after@));
            if rules.collapses(path, count, contents.after@.len()) {
                &&& diff == head + "new file"@ + " (+"@ + decimal(count) + " -"@ + decimal(0)
                    + " lines, "@ + rules.reason(path, count, contents.after@.len()) + ")\n"@
                &&& listed == seq![path]
            } else {
                &&& listed == Seq::<Seq<char>>::empty()
                &&& diff == head + ("new file\n--- /dev/null\n+++ b/"@ + path + "\n"@)
                    + if !valid_utf8(contents.after@) {
                    "(binary file)\n"@
                } else if all.len() <= 50 {
                    concat(all.map_values(|line: Seq<char>| seq!['+'] + line + "\n"@))
                } else {
                    concat(all.take(50).map_values(|line: Seq<char>| seq!['+'] + line + "\n"@))
                        + "... ("@ + decimal((all.len() - 50) as nat) + " more lines)\n"@
                }
            }
        }),
{
    lemma_single(entry, contents, rules);
    let all = lines(decode_utf8(contents.after@));
    lemma_marked_parts(all, '+');
    lemma_marked_parts(all.take(50), '+');
}

/// Of a file that is there before and absent after, the diff of the entry says that it is deleted,
/// and shows its first fifty lines, each in full behind a minus sign, and how many more there are.
/// One that is collapsed is summarised by its number of lines instead, and listed.
pub proof fn law_deleted_files_are_shown_as_deleted(
    entry: TreeEntry,
    id: Vec<u8>,
    contents: FileContents,
    rules: CollapseRules,
)
    requires
        entry.values == Ok::<EntryValues, String>(
            EntryValues { before: Side::File(id), after: Side::Absent },
        ),
    ensures
        ({
            let path = entry.path@;
            let diff = tree_diff(seq![entry], seq![contents], rules);
            let listed = collapsed_among(seq![entry], seq![contents], rules, 1);
            let count = lines(utf8_lossy(contents.before@)).len();
            let head = "diff --git a/"@ + path + " b/"@ + path + "\n"@;
            let all = lines(decode_utf8(contents.before@));
            if rules.collapses(path, count, contents.before@.len()) {
                &&& diff == head + "deleted file"@ + " (+"@ + decimal(0) + " -"@ + decimal(count)
                    + " lines, "@ + rules.reason(path, count, contents.before@.len()) + ")\n"@
                &&& listed == seq![path]
            } else {
                &&& listed == Seq::<Seq<char>>::empty()
                &&& diff == head + ("deleted file\n--- a/"@ + path + "\n+++ /dev/null\n"@)
                    + if !valid_utf8(contents.before@) {
                    "(binary file)\n"@
                } else if all.len() <= 50 {
                    concat(all.map_values(|line: Seq<char>| seq!['-'] + line + "\n"@))
                } else {
                    concat(all.take(50).map_values(|line: Seq<char>| seq!['-'] + line + "\n"@))
                        + "... ("@ + decimal((all.len() - 50) as nat) + " more lines)\n"@
                }
            }
        }),
{
    lemma_single(entry, contents, rules);
    let all = lines(decode_utf8(contents.before@));
    lemma_marked_parts(all, '-');
    lemma_marked_parts(all.take(50), '-');
}

/// Of a file that is there before and after, the diff of the entry is the unified diff of the two
/// texts with two lines of context, or says that it is no text. One that is collapsed is summarised
/// by how many lines were inserted and deleted instead, and listed.
pub proof fn law_modified_files_are_compared(
    entry: TreeEntry,
    old_id: Vec<u8>,
    new_id: Vec<u8>,
    contents: FileContents,
    rules: CollapseRules,
)
    requires
        entry.values == Ok::<EntryValues, String>(
            EntryValues { before: Side::File(old_id), after: Side::File(new_id) },
        ),
    ensures
        ({
            let path = entry.path@;
            let diff = tree_diff(seq![entry], seq![contents], rules);
            let listed = collapsed_among(seq![entry], seq![contents], rules, 1);
            let is_text = valid_utf8(contents.before@) && valid_utf8(contents.after@);
            let old = if is_text {
                decode_utf8(contents.before@)
            } else {
                utf8_lossy(contents.before@)
            };
            let new = if is_text {
                decode_utf8(contents.after@)
            } else {
                utf8_lossy(contents.after@)
            };
            let inserted = occurrences(line_changes(old, new), LineChange::Insert);
            let deleted = occurrences(line_changes(old, new), LineChange::Delete);
            let size = if contents.before@.len() > contents.after@.len() {
                contents.before@.len()
            } else {
                contents.after@.len()
            };
            let head = "diff --git a/"@ + path + " b/"@ + path + "\n"@;
            if is_text && rules.collapses(path, inserted + deleted, size) || !is_text
                && rules.collapses(path, 0, 0) {
                &&& diff == head + "modified"@ + " (+"@ + decimal(inserted) + " -"@ + decimal(
                    deleted,
                ) + " lines, "@ + rules.reason(path, inserted + deleted, size) + ")\n"@
                &&& listed == seq![path]
            } else {
                &&& listed == Seq::<Seq<char>>::empty()
                &&& diff == head + if is_text {
                    unified(old, new, 2, "a/"@ + path, "b/"@ + path)
                } else {
                    "(binary file modified)\n"@
                }
            }
        }),
{
    lemma_single(entry, contents, rules);
}

/// Changes are counted one by one.
pub proof fn law_changes_are_counted(
    changes: Seq<LineChange>,
    change: LineChange,
    counted: LineChange,
)
    ensures
        occurrences(Seq::<LineChange>::empty(), counted) == 0,
        occurrences(changes.push(change), counted) == occurrences(changes, counted) + if change
            == counted {
            1int
        } else {
            0
        },
{
    assert(changes.push(change).drop_last() =~= changes);
}

/// Of a conflict the diff says no more than that there is one; what is no file, such as a link,
/// does not show.
pub proof fn law_other_entries(entry: TreeEntry, contents: FileContents, rules: CollapseRules)
    requires
        entry.values matches Ok(values) && !((values.before is File || values.before is Absent) && (
        values.after is File || values.after is Absent)),
    ensures
        collapsed_among(seq![entry], seq![contents], rules, 1) == Seq::<Seq<char>>::empty(),
        tree_diff(seq![entry], seq![contents], rules) == if entry.values->Ok_0.before is Conflicted
            || entry.values->Ok_0.after is Conflicted {
            "diff --git a/"@ + entry.path@ + " b/"@ + entry.path@ + "\n"@ + "(conflicted file)\n"@
        } else {
            Seq::<char>::empty()
        },
{
    lemma_single(entry, contents, rules);
}

/// A diff names the renames first, old name and new name, and then shows every entry that is no
/// part of a rename as it shows that entry alone, all in the order of the entries.
pub proof fn law_diffs_are_put_together(
    entries: Seq<TreeEntry>,
    contents: Seq<FileContents>,
    rules: CollapseRules,
    renamed: Seq<Seq<char>>,
    shown: Seq<Seq<char>>,
)
    requires
        entries.len() == contents.len() == renamed.len() == shown.len(),
        forall|i: int| 0 <= i < entries.len() ==> (#[trigger] entries[i]).values is Ok,
        forall|i: int|
            0 <= i < entries.len() ==> #[trigger] renamed[i] == match renames(
                kinds_of(entries),
            )[i] {
                Some(j) => "diff --git a/"@ + entries[j as int].path@ + " b/"@ + entries[i].path@
                    + "\n"@ + "rename from "@ + entries[j as int].path@ + "\nrename to "@
                    + entries[i].path@ + "\n"@,
                None => Seq::<char>::empty(),
            },
        forall|i: int|
            0 <= i < entries.len() ==> #[trigger] shown[i] == if renames(
                kinds_of(entries),
            )[i] is Some || renames(kinds_of(entries)).contains(Some(i as nat)) {
                Seq::<char>::empty()
            } else {
                tree_diff(seq![entries[i]], seq![contents[i]], rules)
            },
    ensures
        tree_diff(entries, contents, rules) == concat(renamed) + concat(shown),
{
    let parts = content_parts(entries, contents, rules);
    assert forall|i: int| 0 <= i < entries.len() implies #[trigger] renamed[i] == rename_parts(
        entries,
    )[i] by {
        assert(rename_parts(entries)[i] == rename_part(entries, i));
    }
    assert forall|i: int| 0 <= i < entries.len() implies #[trigger] shown[i] == parts[i] by {
        assert(entries[i].values is Ok);
        lemma_single(entries[i], contents[i], rules);
        assert(kinds_of(entries)[i] == kind_of(entries[i].values->Ok_0));
        assert(parts[i] == content_part(entries, contents, rules, i).text);
    }
    assert(rename_parts(entries) =~= renamed);
    assert(parts =~= shown);
}

/// The collapsed files are listed in the order of the entries: those that are no part of a rename
/// and are collapsed when they are shown alone.
pub proof fn law_collapsed_files_are_listed(
    entries: Seq<TreeEntry>,
    contents: Seq<FileContents>,
    rules: CollapseRules,
    i: nat,
)
    requires
        entries.len() == contents.len(),
        i < entries.len(),
        entries[i as int].values is Ok,
    ensures
        collapsed_among(entries, contents, rules, 0) == Seq::<Seq<char>>::empty(),
        collapsed_among(entries, contents, rules, i + 1) == collapsed_among(
            entries,
            contents,
            rules,
            i,
        ) + if renames(kinds_of(entries))[i as int] is Some || renames(kinds_of(entries)).contains(
            Some(i),
        ) {
            Seq::<Seq<char>>::empty()
        } else {
            collapsed_among(seq![entries[i as int]], seq![contents[i as int]], rules, 1)
        },
{
    let at = i as int;
    let earlier = collapsed_among(entries, contents, rules, i);
    lemma_single(entries[at], contents[at], rules);
    assert(kinds_of(entries)[at] == kind_of(entries[at].values->Ok_0));
    assert(content_part(entries, contents, rules, at).collapsed ==> !is_renamed(
        kinds_of(entries),
        i,
    ));
    assert(earlier.push(entries[at].path@) =~= earlier + seq![entries[at].path@]);
    assert(earlier + Seq::<Seq<char>>::empty() =~= earlier);
}

/// A file that is there before and absent after, and whose content no added file has, stands in the
/// diff as it is shown alone: as a deleted one.
pub proof fn law_deletions_stand_in_the_diff(
    entries: Seq<TreeEntry>,
    contents: Seq<FileContents>,
    rules: CollapseRules,
    i: int,
    id: Vec<u8>,
) -> (at: int)
    requires
        contents.len() == entries.len(),
        0 <= i < entries.len(),
        entries[i].values == Ok::<EntryValues, String>(
            EntryValues { before: Side::File(id), after: Side::Absent },
        ),
        forall|k: int|
            0 <= k < entries.len() ==> (match (#[trigger] entries[k]).values {
                Ok(EntryValues { before: Side::Absent, after: Side::File(other) }) => other@ != id@,
                _ => true,
            }),
        !rules.collapses(
            entries[i].path@,
            lines(utf8_lossy(contents[i].before@)).len(),
            contents[i].before@.len(),
        ),
        valid_utf8(contents[i].before@),
        lines(decode_utf8(contents[i].before@)).len() <= 50,
    ensures
        ({
            let path = entries[i].path@;
            let part = "diff --git a/"@ + path + " b/"@ + path + "\n"@ + ("deleted file\n--- a/"@
                + path + "\n+++ /dev/null\n"@) + concat(
                lines(decode_utf8(contents[i].before@)).map_values(
                    |line: Seq<char>| seq!['-'] + line + "\n"@,
                ),
            );
            let diff = tree_diff(entries, contents, rules);
            0 <= at <= at + part.len() <= diff.len() && diff.subrange(at, at + part.len()) == part
        }),
{
    let kinds = kinds_of(entries);
    let found = renames(kinds);
    law_renames_are_exact(kinds);
    assert(kinds[i] == Kind::Deleted(id@));
    if found.contains(Some(i as nat)) {
        let k = choose|k: int| 0 <= k < found.len() && found[k] == Some(i as nat);
        assert(found[k] is Some);
        assert(kinds[k] == Kind::Added(id@));
        assert(entries[k].values is Ok);
        assert(false);
    }
    assert(found[i] is None);
    lemma_marked_parts(lines(decode_utf8(contents[i].before@)), '-');
    law_every_part_is_shown(entries, contents, rules, i).1
}

/// A file that is absent before and there after, and whose content no deleted file has, stands in
/// the diff as it is shown alone: as a new one.
pub proof fn law_additions_stand_in_the_diff(
    entries: Seq<TreeEntry>,
    contents: Seq<FileContents>,
    rules: CollapseRules,
    i: int,
    id: Vec<u8>,
) -> (at: int)
    requires
        contents.len() == entries.len(),
        0 <= i < entries.len(),
        entries[i].values == Ok::<EntryValues, String>(
            EntryValues { before: Side::Absent, after: Side::File(id) },
        ),
        forall|k: int|
            0 <= k < entries.len() ==> (match (#[trigger] entries[k]).values {
                Ok(EntryValues { before: Side::File(other), after: Side::Absent }) => other@ != id@,
                _ => true,
            }),
        !rules.collapses(
            entries[i].path@,
            lines(utf8_lossy(contents[i].after@)).len(),
            contents[i].after@.len(),
        ),
        valid_utf8(contents[i].after@),
        lines(decode_utf8(contents[i].after@)).len() <= 50,
    ensures
        ({
            let path = entries[i].path@;
            let part = "diff --git a/"@ + path + " b/"@ + path + "\n"@ + (
            "new file\n--- /dev/null\n+++ b/"@ + path + "\n"@) + concat(
                lines(decode_utf8(contents[i].after@)).map_values(
                    |line: Seq<char>| seq!['+'] + line + "\n"@,
                ),
            );
            let diff = tree_diff(entries, contents, rules);
            0 <= at <= at + part.len() <= diff.len() && diff.subrange(at, at + part.len()) == part
        }),
{
    let kinds = kinds_of(entries);
    let found = renames(kinds);
    law_renames_are_exact(kinds);
    assert(kinds[i] == Kind::Added(id@));
    if let Some(j) = found[i] {
        assert(kinds[j as int] == Kind::Deleted(id@));
        assert(entries[j as int].values is Ok);
        assert(false);
    }
    if found.contains(Some(i as nat)) {
        let k = choose|k: int| 0 <= k < found.len() && found[k] == Some(i as nat);
        assert(found[k] is Some);
        assert(kinds[i] is Deleted);
        assert(false);
    }
    lemma_marked_parts(lines(decode_utf8(contents[i].after@)), '+');
    law_every_part_is_shown(entries, contents, rules, i).1
}

// ---------------------------------------------------------------------------
// Diff of two trees
// ---------------------------------------------------------------------------

/// Whether the entry `i` is the old name of a file.
fn is_old_name(partners: &Vec<Option<usize>>, i: usize) -> (r: bool)
    ensures
        r == partner_views(partners@).contains(Some(i as nat)),
{
    let ghost model = partner_views(partners@);
    let mut k: usize = 0;
    while k < partners.len()
        invariant
            k <= partners@.len(),
            model == partner_views(partners@),
            forall|p: int| 0 <= p < k ==> #[trigger] model[p] != Some(i as nat),
        decreases partners@.len() - k,
    {
        if let Some(j) = partners[k] {
            if j == i {
                assert(model[k as int] == Some(i as nat));
                return true;
            }
        }
        k += 1;
    }
    false
}

/// Which contents are needed for the diff: for each entry, whether the one before the change is,
/// and whether the one after it is. Fails with the message of the first entry whose values could
/// not be read.
pub fn needed_contents(entries: &Vec<TreeEntry>) -> (r: Result<Vec<(bool, bool)>, String>)
    ensures
        match first_error(entries@) {
            Some(message) => r matches Err(m) && m@ == message,
            None => r matches Ok(plan) && plan@ == Seq::new(
                entries@.len(),
                |i: int| needed(kinds_of(entries@), i),
            ),
        },
{
    let kinds = match classify_all(entries) {
        Ok(kinds) => kinds,
        Err(message) => {
            return Err(message);
        },
    };
    let partners = detect_renames(&kinds);
    let ghost model = kinds_of(entries@);
    assert(model == kind_views(kinds@));
    assert(model.len() == kinds@.len());
    proof {
        law_renames_are_exact(model);
    }
    let mut plan: Vec<(bool, bool)> = Vec::new();
    let mut i: usize = 0;
    while i < kinds.len()
        invariant
            i <= kinds@.len() == model.len() == partners@.len(),
            model == kind_views(kinds@),
            partner_views(partners@) == renames(model),
            plan@ == Seq::new(i as nat, |k: int| needed(model, k)),
        decreases kinds@.len() - i,
    {
        assert(model[i as int] == kinds@[i as int].kind());
        assert(renames(model)[i as int] is Some == partners@[i as int] is Some);
        let next = if partners[i].is_some() || is_old_name(&partners, i) {
            (false, false)
        } else {
            match &kinds[i] {
                EntryKind::Added(_) => (false, true),
                EntryKind::Deleted(_) => (true, false),
                EntryKind::Modified => (true, true),
                _ => (false, false),
            }
        };
        assert(next == needed(model, i as int));
        plan.push(next);
        assert(plan@ =~= Seq::new((i + 1) as nat, |k: int| needed(model, k)));
        i += 1;
    }
    Ok(plan)
}

/// The parts of the diff on renames.
fn format_renames(entries: &Vec<TreeEntry>, partners: &Vec<Option<usize>>) -> (r: String)
    requires
        partner_views(partners@) == renames(kinds_of(entries@)),
    ensures
        r@ == concat(rename_parts(entries@)),
{
    let ghost parts = rename_parts(entries@);
    proof {
        law_renames_are_exact(kinds_of(entries@));
    }
    assert(partners@.len() == partner_views(partners@).len());
    let mut output = String::new();
    let mut i: usize = 0;
    while i < entries.len()
        invariant
            i <= entries@.len() == partners@.len(),
            parts == rename_parts(entries@),
            partner_views(partners@) == renames(kinds_of(entries@)),
            forall|k: int|
                0 <= k < entries@.len() ==> (match #[trigger] renames(kinds_of(entries@))[k] {
                    Some(j) => j < entries@.len(),
                    None => true,
                }),
            output@ == concat(parts.take(i as int)),
        decreases entries@.len() - i,
    {
        let ghost before = output@;
        assert(partner_views(partners@)[i as int] == renames(kinds_of(entries@))[i as int]);
        assert(parts.take(i + 1) == parts.take(i as int).push(parts[i as int]));
        assert(concat(parts.take(i + 1)) == before + parts[i as int]) by {
            lemma_concat_push(parts.take(i as int), parts[i as int]);
        }
        if let Some(j) = partners[i] {
            let old_path = entries[j].path.as_str();
            let path = entries[i].path.as_str();
            let section = title(old_path, path).concat("rename from ").concat(old_path).concat(
                "\nrename to ",
            ).concat(path).concat("\n");
            output.append(section.as_str());
        } else {
            assert(before + parts[i as int] == before);
        }
        i += 1;
    }
    assert(parts.take(i as int) == parts);
    output
}

/// The diff between two trees, where the trees differ at the entries and the files there have the
/// contents. Renames are exact: an added file that has the content of a deleted one is its new
/// name. Fails with the message of the first entry whose values could not be read.
pub fn get_tree_diff(
    entries: &Vec<TreeEntry>,
    contents: &Vec<FileContents>,
    collapse_matcher: Option<&PathMatcher>,
    gitattr_matcher: Option<&GitAttrMatcher>,
    max_diff_lines: usize,
    max_diff_bytes: usize,
) -> (r: Result<TreeDiffResult, String>)
    requires
        contents@.len() == entries@.len(),
    ensures
        ({
            let rules = collapse_rules(
                collapse_matcher,
                gitattr_matcher,
                max_diff_lines,
                max_diff_bytes,
            );
            match first_error(entries@) {
                Some(message) => r matches Err(m) && m@ == message,
                None => r matches Ok(found) && {
                    &&& found.diff@ == tree_diff(entries@, contents@, rules)
                    &&& views(found.collapsed_paths@) == collapsed_among(
                        entries@,
                        contents@,
                        rules,
                        entries@.len(),
                    )
                    &&& found.collapsed_count == found.collapsed_paths@.len()
                },
            }
        }),
{
    let kinds = match classify_all(entries) {
        Ok(kinds) => kinds,
        Err(message) => {
            return Err(message);
        },
    };
    let ghost rules = collapse_rules(
        collapse_matcher,
        gitattr_matcher,
        max_diff_lines,
        max_diff_bytes,
    );
    let ghost model = kinds_of(entries@);
    let ghost parts = content_parts(entries@, contents@, rules);
    assert(model == kind_views(kinds@));
    assert(model.len() == kinds@.len() == entries@.len());
    let partners = detect_renames(&kinds);
    proof {
        law_renames_are_exact(model);
    }
    assert(partners@.len() == partner_views(partners@).len());
    let mut output = format_renames(entries, &partners);
    let mut collapsed_paths: Vec<String> = Vec::new();
    let ghost start = output@;
    assert(start + concat(parts.take(0)) == start);
    let mut i: usize = 0;
    while i < entries.len()
        invariant
            i <= entries@.len() == contents@.len() == kinds@.len() == partners@.len(),
            model == kinds_of(entries@),
            model == kind_views(kinds@),
            partner_views(partners@) == renames(model),
            rules == collapse_rules(
                collapse_matcher,
                gitattr_matcher,
                max_diff_lines,
                max_diff_bytes,
            ),
            parts == content_parts(entries@, contents@, rules),
            output@ == start + concat(parts.take(i as int)),
            views(collapsed_paths@) == collapsed_among(entries@, contents@, rules, i as nat),
        decreases entries@.len() - i,
    {
        broadcast use lemma_views_push;

        let ghost before = output@;
        assert(model[i as int] == kinds@[i as int].kind());
        assert(renames(model)[i as int] is Some == partners@[i as int] is Some);
        assert(parts.take(i + 1) == parts.take(i as int).push(parts[i as int]));
        assert(concat(parts.take(i + 1)) == concat(parts.take(i as int)) + parts[i as int]) by {
            lemma_concat_push(parts.take(i as int), parts[i as int]);
        }
        if partners[i].is_some() || is_old_name(&partners, i) {
            assert(before + parts[i as int] == before);
        } else {
            let (section, collapsed) = format_entry(
                entries[i].path.as_str(),
                &kinds[i],
                &contents[i],
                collapse_matcher,
                gitattr_matcher,
                max_diff_lines,
                max_diff_bytes,
            );
            output.append(section.as_str());
            if collapsed {
                collapsed_paths.push(entries[i].path.clone());
            }
        }
        assert(output@ == before + parts[i as int]);
        assert(before + parts[i as int] == start + concat(parts.take(i + 1)));
        i += 1;
    }
    assert(parts.take(i as int) == parts);
    let collapsed_count: usize = collapsed_paths.len();
    Ok(TreeDiffResult { diff: output, collapsed_count, collapsed_paths })
}

// ---------------------------------------------------------------------------
// Diff of a commit against its parent
// ---------------------------------------------------------------------------

/// A diff, with a notice where the commit has more than one parent.
pub open spec fn with_notice(diff: Seq<char>, parents: nat) -> Seq<char> {
    if parents > 1 {
        "Merge commit ("@ + decimal(parents) + " parents) - diff against first parent:\n\n"@ + diff
    } else {
        diff
    }
}

/// The diff that is handed to a model, cut down to the limits; none where it is blank.
pub open spec fn checked(
    diff: Seq<char>,
    parents: nat,
    max_lines: nat,
    max_bytes: nat,
) -> Option<Seq<char>> {
    if trim(diff).len() == 0 {
        None
    } else {
        Some(truncated(with_notice(diff, parents), max_lines, max_bytes))
    }
}

/// A diff that is not blank is handed to a model whole where it keeps the limits, and else cut down
/// to a beginning that does.
pub proof fn law_diff_keeps_the_limits(
    diff: Seq<char>,
    parents: nat,
    max_lines: nat,
    max_bytes: nat,
)
    ensures
        checked(diff, parents, max_lines, max_bytes) is None <==> trim(diff).len() == 0,
        checked(diff, parents, max_lines, max_bytes) matches Some(cut) ==> {
            &&& cut.is_prefix_of(with_notice(diff, parents))
            &&& lines(cut).len() <= max_lines
            &&& encode_utf8(cut).len() <= max_bytes
            &&& fits(with_notice(diff, parents), max_lines, max_bytes) ==> cut == with_notice(
                diff,
                parents,
            )
        },
{
    law_truncation_keeps_what_fits(with_notice(diff, parents), max_lines, max_bytes);
}

/// The diff that is handed to a model.
pub fn check_diff(diff: String, parents: usize, config: &DiffConfig) -> (r: Option<String>)
    ensures
        opt_text(r) == checked(
            diff@,
            parents as nat,
            config.max_total_diff_lines as nat,
            config.max_total_diff_bytes as nat,
        ),
{
    if is_blank(diff.as_str()) {
        return None;
    }
    let whole = if parents > 1 {
        "Merge commit (".to_owned().concat(decimal_of(parents).as_str()).concat(
            " parents) - diff against first parent:\n\n",
        ).concat(diff.as_str())
    } else {
        diff
    };
    Some(truncate(whole.as_str(), config.max_total_diff_lines, config.max_total_diff_bytes))
}

/// The rules that a configuration and a `.gitattributes` file stand for. Patterns that cannot be
/// compiled together do not count.
pub open spec fn configured_rules(
    config: DiffConfig,
    gitattributes: Option<Seq<char>>,
) -> CollapseRules {
    let patterns = valid_patterns(views(config.collapse_patterns@));
    CollapseRules {
        patterns: if config.collapse_patterns@.len() > 0 && globs_compile(patterns) {
            Some(patterns)
        } else {
            None
        },
        attributes: match gitattributes {
            Some(content) => {
                let rules = rules_on(lines(content));
                if rules.len() > 0 && globs_compile(rule_patterns(rules)) {
                    Some(rules)
                } else {
                    None
                }
            },
            None => None,
        },
        max_lines: config.max_diff_lines as nat,
        max_bytes: config.max_diff_bytes as nat,
    }
}

/// A diff that is not blank and keeps the limits is handed to a model as it is; where the commit
/// has several parents, a notice with their number comes first. A blank diff is not handed over.
pub proof fn law_whole_diffs_are_handed_over(
    diff: Seq<char>,
    parents: nat,
    max_lines: nat,
    max_bytes: nat,
)
    ensures
        ({
            let whole = if parents > 1 {
                "Merge commit ("@ + decimal(parents)
                    + " parents) - diff against first parent:\n\n"@ + diff
            } else {
                diff
            };
            &&& trim(diff).len() > 0 && lines(whole).len() <= max_lines && encode_utf8(whole).len()
                <= max_bytes ==> checked(diff, parents, max_lines, max_bytes) == Some(whole)
            &&& checked(diff, parents, max_lines, max_bytes) matches Some(cut) ==> cut.is_prefix_of(
                whole,
            ) && forall|k: int|
                cut.len() < k <= whole.len() ==> lines(#[trigger] whole.take(k)).len() > max_lines
                    || encode_utf8(whole.take(k)).len() > max_bytes
            &&& trim(diff).len() == 0 ==> checked(diff, parents, max_lines, max_bytes) is None
        }),
{
    let whole = with_notice(diff, parents);
    law_truncation_keeps_what_fits(whole, max_lines, max_bytes);
    if let Some(cut) = checked(diff, parents, max_lines, max_bytes) {
        assert forall|k: int| cut.len() < k <= whole.len() implies lines(
            #[trigger] whole.take(k),
        ).len() > max_lines || encode_utf8(whole.take(k)).len() > max_bytes by {
            assert(!fits(whole.take(k), max_lines, max_bytes));
        }
    }
}

/// The rules of a configuration: its valid patterns in their order, the rules of `.gitattributes`,
/// and its limits on a file. Patterns that cannot be compiled together do not count.
pub proof fn law_the_configuration_makes_the_rules(
    config: DiffConfig,
    gitattributes: Option<Seq<char>>,
)
    ensures
        ({
            let rules = configured_rules(config, gitattributes);
            let patterns = valid_patterns(views(config.collapse_patterns@));
            &&& rules.max_lines == config.max_diff_lines
            &&& rules.max_bytes == config.max_diff_bytes
            &&& rules.patterns == if config.collapse_patterns@.len() > 0 && globs_compile(patterns) {
                Some(patterns)
            } else {
                None
            }
            &&& rules.attributes == match gitattributes {
                Some(content) => if rules_on(lines(content)).len() > 0 && globs_compile(
                    rules_on(lines(content)).map_values(|rule: (Seq<char>, Seq<char>)| rule.0),
                ) {
                    Some(rules_on(lines(content)))
                } else {
                    None
                },
                None => None,
            }
        }),
{
    if let Some(content) = gitattributes {
        let list = rules_on(lines(content));
        assert(rule_patterns(list) =~= list.map_values(|rule: (Seq<char>, Seq<char>)| rule.0));
    }
}

/// The diff of a commit against its first parent, and the files that it shows summaries of.
/// `None` where nothing changed; a message where an entry could not be read.
pub fn generate_diff(
    entries: &Vec<TreeEntry>,
    contents: &Vec<FileContents>,
    parents: usize,
    gitattributes: Option<&str>,
    config: &DiffConfig,
) -> (r: Result<Option<(String, Vec<String>)>, String>)
    requires
        contents@.len() == entries@.len(),
    ensures
        ({
            let rules = configured_rules(
                *config,
                opt_str(gitattributes),
            );
            match first_error(entries@) {
                Some(message) => r matches Err(m) && m@ == message,
                None => match checked(
                    tree_diff(entries@, contents@, rules),
                    parents as nat,
                    config.max_total_diff_lines as nat,
                    config.max_total_diff_bytes as nat,
                ) {
                    None => r matches Ok(None),
                    Some(diff) => r matches Ok(Some(found)) && found.0@ == diff && views(
                        found.1@,
                    ) == collapsed_among(entries@, contents@, rules, entries@.len()),
                },
            }
        }),
{
    let collapse_matcher = build_collapse_matcher(config.collapse_patterns.as_slice());
    let gitattr_matcher = match gitattributes {
        Some(content) => load_gitattributes(content),
        None => None,
    };
    let found = match get_tree_diff(
        entries,
        contents,
        collapse_matcher.as_ref(),
        gitattr_matcher.as_ref(),
        config.max_diff_lines,
        config.max_diff_bytes,
    ) {
        Ok(found) => found,
        Err(message) => {
            return Err(message);
        },
    };
    match check_diff(found.diff, parents, config) {
        Some(diff) => Ok(Some((diff, found.collapsed_paths))),
        None => Ok(None),
    }
}

} // verus!
