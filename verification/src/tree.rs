//! How two trees differ: which files were added, deleted, modified or renamed.

use vstd::prelude::*;

use crate::paths::same_bytes;
use crate::text::{lemma_views_push, views};

verus! {

/// The paths of the files that changed between two trees.
#[derive(Debug)]
pub struct FileChangeSummary {
    pub added: Vec<String>,
    pub deleted: Vec<String>,
    pub modified: Vec<String>,
}

impl Default for FileChangeSummary {
    fn default() -> (r: Self)
        ensures
            r.added@.len() == 0,
            r.deleted@.len() == 0,
            r.modified@.len() == 0,
    {
        FileChangeSummary { added: Vec::new(), deleted: Vec::new(), modified: Vec::new() }
    }
}

/// What a tree has at a path.
pub enum Side {
    /// Nothing.
    Absent,
    /// A file, with the identifier of its content.
    File(Vec<u8>),
    /// Something that is no file, such as a link.
    Other,
    /// A conflict that is not resolved.
    Conflicted,
}

/// What two trees have at a path.
pub struct EntryValues {
    pub before: Side,
    pub after: Side,
}

/// A path at which two trees differ. Where the values could not be read, there is a message.
pub struct TreeEntry {
    pub path: String,
    pub values: Result<EntryValues, String>,
}

/// How two trees differ at a path.
pub enum EntryKind<'a> {
    Added(&'a Vec<u8>),
    Deleted(&'a Vec<u8>),
    Modified,
    Conflicted,
    Skipped,
}

// ---------------------------------------------------------------------------
// Entries
// ---------------------------------------------------------------------------

/// How two trees differ at a path; a file is known by the identifier of its content.
pub enum Kind {
    Added(Seq<u8>),
    Deleted(Seq<u8>),
    Modified,
    Conflicted,
    Skipped,
}

impl<'a> EntryKind<'a> {
    pub open spec fn kind(self) -> Kind {
        match self {
            EntryKind::Added(id) => Kind::Added(id@),
            EntryKind::Deleted(id) => Kind::Deleted(id@),
            EntryKind::Modified => Kind::Modified,
            EntryKind::Conflicted => Kind::Conflicted,
            EntryKind::Skipped => Kind::Skipped,
        }
    }
}

/// How the values of an entry differ.
pub open spec fn kind_of(values: EntryValues) -> Kind {
    match (values.before, values.after) {
        (Side::Absent, Side::File(id)) => Kind::Added(id@),
        (Side::File(id), Side::Absent) => Kind::Deleted(id@),
        (Side::File(_), Side::File(_)) => Kind::Modified,
        (before, after) => if before is Conflicted || after is Conflicted {
            Kind::Conflicted
        } else {
            Kind::Skipped
        },
    }
}

/// How the values of each entry differ. An entry whose values could not be read counts as skipped.
pub open spec fn kinds_of(entries: Seq<TreeEntry>) -> Seq<Kind> {
    entries.map_values(
        |e: TreeEntry|
            match e.values {
                Ok(values) => kind_of(values),
                Err(_) => Kind::Skipped,
            },
    )
}

/// The message of the first entry whose values could not be read.
pub open spec fn first_error(entries: Seq<TreeEntry>) -> Option<Seq<char>>
    decreases entries.len(),
{
    if entries.len() == 0 {
        None
    } else {
        match entries[0].values {
            Err(message) => Some(message@),
            Ok(_) => first_error(entries.skip(1)),
        }
    }
}

/// How an entry differs; the message where its values could not be read.
pub fn classify_entry(entry: &TreeEntry) -> (r: Result<EntryKind<'_>, String>)
    ensures
        match entry.values {
            Ok(values) => r matches Ok(kind) && kind.kind() == kind_of(values),
            Err(message) => r matches Err(m) && m@ == message@,
        },
{
    match &entry.values {
        Ok(values) => Ok(
            match (&values.before, &values.after) {
                (Side::Absent, Side::File(id)) => EntryKind::Added(id),
                (Side::File(id), Side::Absent) => EntryKind::Deleted(id),
                (Side::File(_), Side::File(_)) => EntryKind::Modified,
                (Side::Conflicted, _) => EntryKind::Conflicted,
                (_, Side::Conflicted) => EntryKind::Conflicted,
                _ => EntryKind::Skipped,
            },
        ),
        Err(message) => Err(message.clone()),
    }
}

/// What the classified entries are.
pub open spec fn kind_views(kinds: Seq<EntryKind<'_>>) -> Seq<Kind> {
    kinds.map_values(|k: EntryKind<'_>| k.kind())
}

/// How each entry differs; the message of the first whose values could not be read.
pub fn classify_all(entries: &Vec<TreeEntry>) -> (r: Result<Vec<EntryKind<'_>>, String>)
    ensures
        match first_error(entries@) {
            Some(message) => r matches Err(m) && m@ == message,
            None => r matches Ok(kinds) && kind_views(kinds@) == kinds_of(entries@),
        },
{
    let mut kinds: Vec<EntryKind<'_>> = Vec::new();
    let ghost all = kinds_of(entries@);
    let mut i: usize = 0;
    assert(entries@.skip(0) == entries@);
    while i < entries.len()
        invariant
            i <= entries@.len(),
            all == kinds_of(entries@),
            first_error(entries@) == first_error(entries@.skip(i as int)),
            kind_views(kinds@) == all.take(i as int),
        decreases entries@.len() - i,
    {
        assert(entries@.skip(i as int).skip(1) == entries@.skip(i + 1));
        assert(entries@.skip(i as int)[0] == entries@[i as int]);
        let ghost before = kind_views(kinds@);
        match classify_entry(&entries[i]) {
            Ok(kind) => {
                kinds.push(kind);
                assert(kind_views(kinds@) == before.push(kind.kind()));
                assert(all.take(i + 1) == all.take(i as int).push(all[i as int]));
            },
            Err(message) => {
                return Err(message);
            },
        }
        i += 1;
    }
    assert(all.take(i as int) == all);
    Ok(kinds)
}

/// The paths of those entries that are added.
pub open spec fn added_paths(entries: Seq<TreeEntry>) -> Seq<Seq<char>>
    decreases entries.len(),
{
    if entries.len() == 0 {
        seq![]
    } else if kinds_of(entries).last() is Added {
        added_paths(entries.drop_last()).push(entries.last().path@)
    } else {
        added_paths(entries.drop_last())
    }
}

/// The paths of those entries that are deleted.
pub open spec fn deleted_paths(entries: Seq<TreeEntry>) -> Seq<Seq<char>>
    decreases entries.len(),
{
    if entries.len() == 0 {
        seq![]
    } else if kinds_of(entries).last() is Deleted {
        deleted_paths(entries.drop_last()).push(entries.last().path@)
    } else {
        deleted_paths(entries.drop_last())
    }
}

/// The paths of those entries that are modified.
pub open spec fn modified_paths(entries: Seq<TreeEntry>) -> Seq<Seq<char>>
    decreases entries.len(),
{
    if entries.len() == 0 {
        seq![]
    } else if kinds_of(entries).last() is Modified {
        modified_paths(entries.drop_last()).push(entries.last().path@)
    } else {
        modified_paths(entries.drop_last())
    }
}

/// What an entry is follows from its two sides: a file on one side only was added or deleted, a
/// file on both was modified; else a conflict on either side counts, and anything else does not.
pub proof fn law_sides_decide_the_kind(entries: Seq<TreeEntry>, i: int)
    requires
        0 <= i < entries.len(),
    ensures
        kinds_of(entries).len() == entries.len(),
        match entries[i].values {
            Ok(EntryValues { before: Side::Absent, after: Side::File(id) }) => kinds_of(entries)[i]
                == Kind::Added(id@),
            Ok(EntryValues { before: Side::File(id), after: Side::Absent }) => kinds_of(entries)[i]
                == Kind::Deleted(id@),
            Ok(EntryValues { before: Side::File(_), after: Side::File(_) }) => kinds_of(entries)[i]
                == Kind::Modified,
            Ok(EntryValues { before: Side::Conflicted, after: _ }) => kinds_of(entries)[i]
                == Kind::Conflicted,
            Ok(EntryValues { before: _, after: Side::Conflicted }) => kinds_of(entries)[i]
                == Kind::Conflicted,
            _ => kinds_of(entries)[i] == Kind::Skipped,
        },
{
}

/// The first entry that could not be read decides: its message is the error.
pub proof fn law_the_first_error_is_reported(entries: Seq<TreeEntry>, n: nat)
    requires
        n <= entries.len(),
        forall|i: int| 0 <= i < n ==> (#[trigger] entries[i]).values is Ok,
        n < entries.len() ==> entries[n as int].values is Err,
    ensures
        first_error(entries) == if n < entries.len() {
            Some(entries[n as int].values->Err_0@)
        } else {
            None
        },
    decreases n,
{
    if n > 0 {
        let rest = entries.skip(1);
        assert(entries[0].values is Ok);
        assert forall|i: int| 0 <= i < n - 1 implies (#[trigger] rest[i]).values is Ok by {
            assert(rest[i] == entries[i + 1]);
        }
        law_the_first_error_is_reported(rest, (n - 1) as nat);
    }
}

/// A file is listed as added where it is on the side after only, as deleted where it is on the side
/// before only, and as modified where it is on both; the lists keep the order of the entries.
pub proof fn law_changed_files_are_listed(entries: Seq<TreeEntry>, entry: TreeEntry)
    ensures
        added_paths(Seq::<TreeEntry>::empty()) == Seq::<Seq<char>>::empty(),
        deleted_paths(Seq::<TreeEntry>::empty()) == Seq::<Seq<char>>::empty(),
        modified_paths(Seq::<TreeEntry>::empty()) == Seq::<Seq<char>>::empty(),
        added_paths(entries.push(entry)) == match entry.values {
            Ok(EntryValues { before: Side::Absent, after: Side::File(_) }) => added_paths(
                entries,
            ).push(entry.path@),
            _ => added_paths(entries),
        },
        deleted_paths(entries.push(entry)) == match entry.values {
            Ok(EntryValues { before: Side::File(_), after: Side::Absent }) => deleted_paths(
                entries,
            ).push(entry.path@),
            _ => deleted_paths(entries),
        },
        modified_paths(entries.push(entry)) == match entry.values {
            Ok(EntryValues { before: Side::File(_), after: Side::File(_) }) => modified_paths(
                entries,
            ).push(entry.path@),
            _ => modified_paths(entries),
        },
{
    let all = entries.push(entry);
    assert(all.drop_last() =~= entries);
    assert(kinds_of(all).last() == kinds_of(all)[entries.len() as int]);
    law_sides_decide_the_kind(all, entries.len() as int);
}

/// The files that changed, in the order of the entries. Entries whose values could not be read do
/// not count.
pub fn get_file_change_summary(entries: &Vec<TreeEntry>) -> (r: FileChangeSummary)
    ensures
        views(r.added@) == added_paths(entries@),
        views(r.deleted@) == deleted_paths(entries@),
        views(r.modified@) == modified_paths(entries@),
{
    broadcast use lemma_views_push;

    let mut summary = FileChangeSummary::default();
    let mut i: usize = 0;
    assert(views(summary.added@) =~= added_paths(entries@.take(0)));
    assert(views(summary.deleted@) =~= deleted_paths(entries@.take(0)));
    assert(views(summary.modified@) =~= modified_paths(entries@.take(0)));
    while i < entries.len()
        invariant
            i <= entries@.len(),
            views(summary.added@) == added_paths(entries@.take(i as int)),
            views(summary.deleted@) == deleted_paths(entries@.take(i as int)),
            views(summary.modified@) == modified_paths(entries@.take(i as int)),
        decreases entries@.len() - i,
    {
        assert(entries@.take(i + 1).drop_last() == entries@.take(i as int));
        assert(entries@.take(i + 1).last() == entries@[i as int]);
        if let Ok(kind) = classify_entry(&entries[i]) {
            let path = entries[i].path.clone();
            match kind {
                EntryKind::Added(_) => summary.added.push(path),
                EntryKind::Deleted(_) => summary.deleted.push(path),
                EntryKind::Modified => summary.modified.push(path),
                _ => {},
            }
        }
        i += 1;
    }
    assert(entries@.take(i as int) == entries@);
    summary
}

// ---------------------------------------------------------------------------
// Renames
// ---------------------------------------------------------------------------

/// The last of the first `m` entries that is deleted, has the content `id` and is not the partner
/// of an earlier entry.
pub open spec fn last_free(
    kinds: Seq<Kind>,
    id: Seq<u8>,
    partners: Seq<Option<nat>>,
    m: nat,
) -> Option<nat>
    decreases m,
{
    if m == 0 {
        None
    } else if kinds[m - 1] == Kind::Deleted(id) && !partners.contains(Some((m - 1) as nat)) {
        Some((m - 1) as nat)
    } else {
        last_free(kinds, id, partners, (m - 1) as nat)
    }
}

/// For each of the first `n` entries, the deleted entry that it is the new name of: an added entry
/// takes the last deleted one with the same content that is left.
pub open spec fn partners(kinds: Seq<Kind>, n: nat) -> Seq<Option<nat>>
    decreases n,
{
    if n == 0 {
        seq![]
    } else {
        let earlier = partners(kinds, (n - 1) as nat);
        earlier.push(
            match kinds[n - 1] {
                Kind::Added(id) => last_free(kinds, id, earlier, kinds.len()),
                _ => None,
            },
        )
    }
}

/// For each entry, the deleted entry that it is the new name of.
pub open spec fn renames(kinds: Seq<Kind>) -> Seq<Option<nat>> {
    partners(kinds, kinds.len())
}

/// Whether an entry is the old or the new name of a renamed file.
pub open spec fn is_renamed(kinds: Seq<Kind>, i: nat) -> bool {
    renames(kinds)[i as int] is Some || renames(kinds).contains(Some(i))
}

proof fn lemma_last_free(kinds: Seq<Kind>, id: Seq<u8>, taken: Seq<Option<nat>>, m: nat)
    requires
        m <= kinds.len(),
    ensures
        match last_free(kinds, id, taken, m) {
            Some(j) => {
                &&& j < m
                &&& kinds[j as int] == Kind::Deleted(id)
                &&& !taken.contains(Some(j))
            },
            None => forall|j: int|
                0 <= j < m && kinds[j] == Kind::Deleted(id) ==> #[trigger] taken.contains(
                    Some(j as nat),
                ),
        },
    decreases m,
{
    if m > 0 {
        if kinds[m - 1] == Kind::Deleted(id) && !taken.contains(Some((m - 1) as nat)) {
        } else {
            lemma_last_free(kinds, id, taken, (m - 1) as nat);
        }
    }
}

proof fn lemma_partners(kinds: Seq<Kind>, n: nat)
    requires
        n <= kinds.len(),
    ensures
        partners(kinds, n).len() == n,
        forall|i: int|
            0 <= i < n ==> (match #[trigger] partners(kinds, n)[i] {
                Some(j) => {
                    &&& j < kinds.len()
                    &&& kinds[i] is Added
                    &&& kinds[j as int] == Kind::Deleted(kinds[i]->Added_0)
                },
                None => true,
            }),
        forall|i: int, k: int|
            0 <= i < k < n && (#[trigger] partners(kinds, n)[i]) is Some ==> partners(kinds, n)[i]
                != #[trigger] partners(kinds, n)[k],
    decreases n,
{
    if n > 0 {
        let m = (n - 1) as nat;
        let earlier = partners(kinds, m);
        lemma_partners(kinds, m);
        if let Kind::Added(id) = kinds[n - 1] {
            lemma_last_free(kinds, id, earlier, kinds.len());
        }
        let all = partners(kinds, n);
        assert forall|i: int| 0 <= i < n implies (match #[trigger] all[i] {
            Some(j) => {
                &&& j < kinds.len()
                &&& kinds[i] is Added
                &&& kinds[j as int] == Kind::Deleted(kinds[i]->Added_0)
            },
            None => true,
        }) by {
            if i < m {
                assert(all[i] == earlier[i]);
            }
        }
        assert forall|i: int, k: int|
            0 <= i < k < n && (#[trigger] all[i]) is Some implies all[i] != #[trigger] all[k] by {
            assert(all[i] == earlier[i]);
            if k < m {
                assert(all[k] == earlier[k]);
            } else if all[i] == all[k] {
                assert(earlier.contains(all[k]));
            }
        }
    }
}

/// A rename joins an added file and a deleted file with the same content, and no deleted file is
/// the old name of two files.
pub proof fn law_renames_are_exact(kinds: Seq<Kind>)
    ensures
        renames(kinds).len() == kinds.len(),
        forall|i: int|
            0 <= i < kinds.len() ==> (match #[trigger] renames(kinds)[i] {
                Some(j) => {
                    &&& j < kinds.len()
                    &&& kinds[i] is Added
                    &&& kinds[j as int] == Kind::Deleted(kinds[i]->Added_0)
                },
                None => true,
            }),
        forall|i: int, k: int|
            0 <= i < k < kinds.len() && (#[trigger] renames(kinds)[i]) is Some ==> renames(kinds)[i]
                != #[trigger] renames(kinds)[k],
{
    lemma_partners(kinds, kinds.len());
}

/// A file that was added and has the content of a deleted one is left as a plain addition only
/// where every deleted file with that content is the old name of another file.
pub proof fn law_renames_are_found(kinds: Seq<Kind>, i: int, j: int)
    requires
        0 <= i < kinds.len(),
        0 <= j < kinds.len(),
        kinds[i] is Added,
        kinds[j] == Kind::Deleted(kinds[i]->Added_0),
        renames(kinds)[i] is None,
    ensures
        renames(kinds).contains(Some(j as nat)),
{
    let id = kinds[i]->Added_0;
    let earlier = partners(kinds, i as nat);
    lemma_partners_prefix(kinds, (i + 1) as nat, kinds.len());
    lemma_partners_prefix(kinds, i as nat, kinds.len());
    lemma_partners(kinds, i as nat);
    assert(partners(kinds, (i + 1) as nat)[i] == renames(kinds)[i]);
    lemma_last_free(kinds, id, earlier, kinds.len());
    assert(earlier.contains(Some(j as nat)));
    let k = choose|k: int| 0 <= k < earlier.len() && earlier[k] == Some(j as nat);
    assert(renames(kinds)[k] == Some(j as nat));
    lemma_partners(kinds, kinds.len());
}

/// How many of the first `n` entries are of a kind.
pub open spec fn number_of(kinds: Seq<Kind>, kind: Kind, n: nat) -> nat
    decreases n,
{
    if n == 0 {
        0
    } else {
        number_of(kinds, kind, (n - 1) as nat) + if kinds[n - 1] == kind {
            1nat
        } else {
            0nat
        }
    }
}

/// How many of the first `n` entries are new names of files with the content `id`.
pub open spec fn renamed_to(
    kinds: Seq<Kind>,
    found: Seq<Option<nat>>,
    id: Seq<u8>,
    n: nat,
) -> nat
    decreases n,
{
    if n == 0 {
        0
    } else {
        renamed_to(kinds, found, id, (n - 1) as nat) + if kinds[n - 1] == Kind::Added(id)
            && found[n - 1] is Some {
            1nat
        } else {
            0nat
        }
    }
}

/// Of the files with the same content, as many are renamed as can be: the smaller of how many were
/// added and how many were deleted.
pub proof fn law_renames_are_as_many_as_can_be(kinds: Seq<Kind>, id: Seq<u8>)
    ensures
        renamed_to(kinds, renames(kinds), id, kinds.len()) == {
            let added = number_of(kinds, Kind::Added(id), kinds.len());
            let deleted = number_of(kinds, Kind::Deleted(id), kinds.len());
            if added <= deleted {
                added
            } else {
                deleted
            }
        },
{
    lemma_renames_taken(kinds, id, kinds.len());
}

/// The first `n` entries of a kind.
spec fn places_of(kinds: Seq<Kind>, kind: Kind, n: nat) -> Set<nat>
    decreases n,
{
    if n == 0 {
        Set::empty()
    } else if kinds[n - 1] == kind {
        places_of(kinds, kind, (n - 1) as nat).insert((n - 1) as nat)
    } else {
        places_of(kinds, kind, (n - 1) as nat)
    }
}

proof fn lemma_places_of(kinds: Seq<Kind>, kind: Kind, n: nat)
    requires
        n <= kinds.len(),
    ensures
        places_of(kinds, kind, n).finite(),
        places_of(kinds, kind, n).len() == number_of(kinds, kind, n),
        forall|j: nat| #[trigger]
            places_of(kinds, kind, n).contains(j) <==> j < n && kinds[j as int] == kind,
    decreases n,
{
    if n > 0 {
        lemma_places_of(kinds, kind, (n - 1) as nat);
    }
}

/// The deleted entries with the content `id` that are old names of the first `n` entries.
spec fn taken_by(kinds: Seq<Kind>, id: Seq<u8>, n: nat) -> Set<nat>
    decreases n,
{
    if n == 0 {
        Set::empty()
    } else {
        match partners(kinds, n)[n - 1] {
            Some(j) => if kinds[n - 1] == Kind::Added(id) {
                taken_by(kinds, id, (n - 1) as nat).insert(j)
            } else {
                taken_by(kinds, id, (n - 1) as nat)
            },
            None => taken_by(kinds, id, (n - 1) as nat),
        }
    }
}

proof fn lemma_taken_by(kinds: Seq<Kind>, id: Seq<u8>, n: nat)
    requires
        n <= kinds.len(),
    ensures
        taken_by(kinds, id, n).finite(),
        taken_by(kinds, id, n).len() == renamed_to(kinds, renames(kinds), id, n),
        forall|j: nat| #[trigger]
            taken_by(kinds, id, n).contains(j) <==> partners(kinds, n).contains(Some(j))
                && kinds[j as int] == Kind::Deleted(id),
    decreases n,
{
    lemma_partners(kinds, n);
    if n > 0 {
        let m = (n - 1) as nat;
        lemma_partners(kinds, m);
        lemma_taken_by(kinds, id, m);
        lemma_partners_prefix(kinds, n, kinds.len());
        let earlier = partners(kinds, m);
        let all = partners(kinds, n);
        assert(all.drop_last() =~= earlier);
        assert(renames(kinds)[m as int] == all[m as int]);
        assert forall|j: nat| all.contains(Some(j)) <==> earlier.contains(Some(j)) || all[m as int]
            == Some(j) by {
            if earlier.contains(Some(j)) {
                let k = choose|k: int| 0 <= k < earlier.len() && earlier[k] == Some(j);
                assert(all[k] == Some(j));
            }
            if all.contains(Some(j)) {
                let k = choose|k: int| 0 <= k < all.len() && all[k] == Some(j);
                if k < m {
                    assert(earlier[k] == Some(j));
                }
            }
        }
        if let Some(j) = all[m as int] {
            if earlier.contains(Some(j)) {
                let k = choose|k: int| 0 <= k < earlier.len() && earlier[k] == Some(j);
                assert(all[k] == all[m as int]);
                assert(false);
            }
        }
    }
}

proof fn lemma_renames_taken(kinds: Seq<Kind>, id: Seq<u8>, n: nat)
    requires
        n <= kinds.len(),
    ensures
        renamed_to(kinds, renames(kinds), id, n) == {
            let added = number_of(kinds, Kind::Added(id), n);
            let deleted = number_of(kinds, Kind::Deleted(id), kinds.len());
            if added <= deleted {
                added
            } else {
                deleted
            }
        },
    decreases n,
{
    if n > 0 {
        let m = (n - 1) as nat;
        lemma_renames_taken(kinds, id, m);
        if kinds[n - 1] == Kind::Added(id) {
            let taken = taken_by(kinds, id, m);
            let deleted = places_of(kinds, Kind::Deleted(id), kinds.len());
            lemma_partners(kinds, m);
            lemma_taken_by(kinds, id, m);
            lemma_places_of(kinds, Kind::Deleted(id), kinds.len());
            lemma_last_free(kinds, id, partners(kinds, m), kinds.len());
            lemma_partners_prefix(kinds, n, kinds.len());
            assert forall|j: nat| taken.contains(j) implies #[trigger] deleted.contains(j) by {
                let k = choose|k: int|
                    0 <= k < partners(kinds, m).len() && partners(kinds, m)[k] == Some(j);
                assert(partners(kinds, m)[k] is Some);
            }
            match last_free(kinds, id, partners(kinds, m), kinds.len()) {
                Some(j) => {
                    assert(taken.insert(j).subset_of(deleted));
                    vstd::set_lib::lemma_len_subset(taken.insert(j), deleted);
                },
                None => {
                    assert forall|j: nat| deleted.contains(j) implies #[trigger] taken.contains(
                        j,
                    ) by {
                        let place = j as int;
                        assert(kinds[place] == Kind::Deleted(id));
                        assert(partners(kinds, m).contains(Some(place as nat)));
                    }
                    assert(taken =~= deleted);
                },
            }
        }
    }
}

/// The old name of a file is the last of the deleted ones with its content that is left: every
/// later one is the old name of an earlier entry.
pub proof fn law_the_last_deleted_file_is_taken(kinds: Seq<Kind>, i: int, j: nat, k: int)
    requires
        0 <= i < kinds.len(),
        renames(kinds)[i] == Some(j),
        j < k < kinds.len(),
        kinds[k] == kinds[j as int],
    ensures
        exists|m: int| 0 <= m < i && #[trigger] renames(kinds)[m] == Some(k as nat),
{
    let earlier = partners(kinds, i as nat);
    lemma_partners(kinds, kinds.len());
    lemma_partners_prefix(kinds, (i + 1) as nat, kinds.len());
    lemma_partners_prefix(kinds, i as nat, kinds.len());
    assert(partners(kinds, (i + 1) as nat)[i] == renames(kinds)[i]);
    let id = kinds[i]->Added_0;
    assert(last_free(kinds, id, earlier, kinds.len()) == Some(j));
    lemma_last_free(kinds, id, earlier, kinds.len());
    lemma_later_are_taken(kinds, id, earlier, kinds.len(), k);
    let m = choose|m: int| 0 <= m < earlier.len() && earlier[m] == Some(k as nat);
    assert(renames(kinds)[m] == Some(k as nat));
}

proof fn lemma_later_are_taken(
    kinds: Seq<Kind>,
    id: Seq<u8>,
    taken: Seq<Option<nat>>,
    m: nat,
    k: int,
)
    requires
        m <= kinds.len(),
        last_free(kinds, id, taken, m) matches Some(j) && j < k,
        0 <= k < m,
        kinds[k] == Kind::Deleted(id),
    ensures
        taken.contains(Some(k as nat)),
    decreases m,
{
    if kinds[m - 1] == Kind::Deleted(id) && !taken.contains(Some((m - 1) as nat)) {
    } else if k < m - 1 {
        lemma_later_are_taken(kinds, id, taken, (m - 1) as nat, k);
    }
}

/// What is decided for the first entries does not change later.
proof fn lemma_partners_prefix(kinds: Seq<Kind>, m: nat, n: nat)
    requires
        m <= n <= kinds.len(),
    ensures
        partners(kinds, m).len() == m,
        partners(kinds, n).len() == n,
        forall|i: int| 0 <= i < m ==> #[trigger] partners(kinds, n)[i] == partners(kinds, m)[i],
    decreases n,
{
    lemma_partners(kinds, m);
    lemma_partners(kinds, n);
    if m < n {
        lemma_partners_prefix(kinds, m, (n - 1) as nat);
        assert forall|i: int| 0 <= i < m implies #[trigger] partners(kinds, n)[i] == partners(
            kinds,
            m,
        )[i] by {
            assert(partners(kinds, n)[i] == partners(kinds, (n - 1) as nat)[i]);
        }
    }
}

/// What the partners are.
pub open spec fn partner_views(found: Seq<Option<usize>>) -> Seq<Option<nat>> {
    found.map_values(
        |p: Option<usize>|
            match p {
                Some(j) => Some(j as nat),
                None => None,
            },
    )
}

/// For each entry, the deleted entry that it is the new name of.
pub fn detect_renames(kinds: &Vec<EntryKind<'_>>) -> (r: Vec<Option<usize>>)
    ensures
        partner_views(r@) == renames(kind_views(kinds@)),
{
    let ghost model = kind_views(kinds@);
    let mut taken: Vec<bool> = Vec::new();
    let mut n: usize = 0;
    while n < kinds.len()
        invariant
            n <= kinds@.len(),
            taken@.len() == n,
            forall|j: int| 0 <= j < n ==> !taken@[j],
        decreases kinds@.len() - n,
    {
        taken.push(false);
        n += 1;
    }
    let mut r: Vec<Option<usize>> = Vec::new();
    let mut i: usize = 0;
    assert(partner_views(r@) =~= partners(model, 0));
    assert forall|j: int| 0 <= j < taken@.len() implies taken@[j] == partners(model, 0).contains(
        Some(j as nat),
    ) by {}
    while i < kinds.len()
        invariant
            i <= kinds@.len(),
            model == kind_views(kinds@),
            taken@.len() == kinds@.len(),
            partner_views(r@) == partners(model, i as nat),
            forall|j: int|
                0 <= j < taken@.len() ==> #[trigger] taken@[j] == partners(
                    model,
                    i as nat,
                ).contains(Some(j as nat)),
        decreases kinds@.len() - i,
    {
        let ghost earlier = partners(model, i as nat);
        assert(model[i as int] == kinds@[i as int].kind());
        let found: Option<usize> = match &kinds[i] {
            EntryKind::Added(id) => free_partner(kinds, id, &taken, Ghost(earlier)),
            _ => None,
        };
        let ghost next = match found {
            Some(j) => Some(j as nat),
            None => None,
        };
        let ghost before = partner_views(r@);
        r.push(found);
        proof {
            assert(partner_views(r@) == before.push(next));
            assert(partners(model, (i + 1) as nat) == earlier.push(next));
        }
        let ghost marks = taken@;
        if let Some(j) = found {
            proof {
                lemma_last_free(model, model[i as int]->Added_0, earlier, model.len());
            }
            taken.set(j, true);
        }
        assert forall|k: int| 0 <= k < taken@.len() implies #[trigger] taken@[k] == partners(
            model,
            (i + 1) as nat,
        ).contains(Some(k as nat)) by {
            let after = earlier.push(next);
            assert(marks[k] == earlier.contains(Some(k as nat)));
            if earlier.contains(Some(k as nat)) {
                let p = choose|p: int| 0 <= p < earlier.len() && earlier[p] == Some(k as nat);
                assert(after[p] == Some(k as nat));
            }
            if next == Some(k as nat) {
                assert(after[earlier.len() as int] == Some(k as nat));
            }
            if after.contains(Some(k as nat)) {
                let p = choose|p: int| 0 <= p < after.len() && after[p] == Some(k as nat);
                if p < earlier.len() {
                    assert(earlier[p] == Some(k as nat));
                }
            }
        }
        i += 1;
    }
    r
}

/// The last entry that is deleted, has the content `id` and is not taken.
fn free_partner(
    kinds: &Vec<EntryKind<'_>>,
    id: &Vec<u8>,
    taken: &Vec<bool>,
    Ghost(earlier): Ghost<Seq<Option<nat>>>,
) -> (r: Option<usize>)
    requires
        taken@.len() == kinds@.len(),
        forall|j: int|
            0 <= j < taken@.len() ==> #[trigger] taken@[j] == earlier.contains(Some(j as nat)),
    ensures
        last_free(kind_views(kinds@), id@, earlier, kinds@.len()) == match r {
            Some(j) => Some(j as nat),
            None => None,
        },
{
    let ghost model = kind_views(kinds@);
    let mut m: usize = kinds.len();
    while m > 0
        invariant
            m <= kinds@.len() == taken@.len(),
            model == kind_views(kinds@),
            forall|j: int|
                0 <= j < taken@.len() ==> #[trigger] taken@[j] == earlier.contains(Some(j as nat)),
            last_free(model, id@, earlier, kinds@.len()) == last_free(
                model,
                id@,
                earlier,
                m as nat,
            ),
        decreases m,
    {
        assert(model[m - 1] == kinds@[m - 1].kind());
        assert(taken@[m - 1] == earlier.contains(Some((m - 1) as nat)));
        if !taken[m - 1] {
            if let EntryKind::Deleted(other) = &kinds[m - 1] {
                if same_bytes(other, id) {
                    return Some(m - 1);
                }
            }
        }
        m -= 1;
    }
    None
}

} // verus!
