//! Bookmarks: which base and target a range of commits has, and which bookmark points into it.

use vstd::prelude::*;

use crate::paths::same_bytes;
use crate::text::{
    chars, is_white, join, joined, law_lines_end_at_newlines, law_trim_takes_the_ends,
    lemma_views_push, lines, lines_of, same, text_of, trim, trimmed, views,
};

verus! {

// ---------------------------------------------------------------------------
// Base and target
// ---------------------------------------------------------------------------

/// The branches that are tried as a base.
pub open spec fn default_base_branches() -> Seq<Seq<char>> {
    seq!["develop"@, "main"@, "master"@, "trunk"@]
}

/// The base: of the first branch that there is, the bookmark at `origin`, or else the local one.
pub open spec fn default_base(
    names: Seq<Seq<char>>,
    origin: Seq<Seq<char>>,
    local: Seq<Seq<char>>,
) -> Option<Seq<char>>
    decreases names.len(),
{
    if names.len() == 0 {
        None
    } else if origin.contains(names[0]) {
        Some(names[0] + "@origin"@)
    } else if local.contains(names[0]) {
        Some(names[0])
    } else {
        default_base(names.skip(1), origin, local)
    }
}

/// The base is the first of the branches that there is, and the bookmark at `origin` wins over the
/// local one.
pub proof fn law_base_is_the_first_there_is(
    names: Seq<Seq<char>>,
    origin: Seq<Seq<char>>,
    local: Seq<Seq<char>>,
    n: int,
)
    requires
        0 <= n < names.len(),
        forall|i: int|
            0 <= i < n ==> !origin.contains(#[trigger] names[i]) && !local.contains(names[i]),
        origin.contains(names[n]) || local.contains(names[n]),
    ensures
        default_base(names, origin, local) == Some(
            if origin.contains(names[n]) {
                names[n] + "@origin"@
            } else {
                names[n]
            },
        ),
    decreases n,
{
    if n > 0 {
        assert(!origin.contains(names[0]));
        let rest = names.skip(1);
        assert(rest[n - 1] == names[n]);
        assert forall|i: int| 0 <= i < n - 1 implies !origin.contains(#[trigger] rest[i])
            && !local.contains(rest[i]) by {
            assert(rest[i] == names[i + 1]);
        }
        law_base_is_the_first_there_is(rest, origin, local, n - 1);
    }
}

/// Whether a name is among the names.
fn is_among(names: &Vec<String>, name: &str) -> (r: bool)
    ensures
        r == views(names@).contains(name@),
{
    let ghost model = views(names@);
    let mut i: usize = 0;
    while i < names.len()
        invariant
            i <= names@.len(),
            model == views(names@),
            forall|k: int| 0 <= k < i ==> #[trigger] model[k] != name@,
        decreases names@.len() - i,
    {
        assert(model[i as int] == names@[i as int]@);
        if same(names[i].as_str(), name) {
            return true;
        }
        i += 1;
    }
    false
}

/// The base that a range has where none is given. `origin` holds the names of the bookmarks at
/// `origin`, `local` those of the local ones.
pub fn find_default_base(origin: &Vec<String>, local: &Vec<String>) -> (r: Result<String, String>)
    ensures
        match default_base(default_base_branches(), views(origin@), views(local@)) {
            Some(base) => r matches Ok(name) && name@ == base,
            None => r matches Err(message) && message@ == "Could not find a default base branch ("@
                + join(default_base_branches(), ", "@)
                + "). Please specify --from explicitly."@,
        },
{
    broadcast use lemma_views_push;

    let mut names: Vec<String> = Vec::new();
    names.push("develop".to_owned());
    names.push("main".to_owned());
    names.push("master".to_owned());
    names.push("trunk".to_owned());
    let ghost model = views(names@);
    assert(model =~= default_base_branches());
    assert(model.skip(0) =~= model);
    let mut i: usize = 0;
    while i < names.len()
        invariant
            i <= names@.len(),
            model == views(names@),
            model == default_base_branches(),
            default_base(model, views(origin@), views(local@)) == default_base(
                model.skip(i as int),
                views(origin@),
                views(local@),
            ),
        decreases names@.len() - i,
    {
        let name = names[i].as_str();
        assert(model.skip(i as int)[0] == name@);
        assert(model.skip(i as int).skip(1) =~= model.skip(i + 1));
        if is_among(origin, name) {
            return Ok(name.to_owned().concat("@origin"));
        }
        if is_among(local, name) {
            return Ok(name.to_owned());
        }
        i += 1;
    }
    let list = joined(&names, ", ");
    Err(
        "Could not find a default base branch (".to_owned().concat(list.as_str()).concat(
            "). Please specify --from explicitly.",
        ),
    )
}

/// Whether a commit is empty: it has no description, and the tree of its first parent where it
/// has one.
pub open spec fn is_empty_commit(description: Seq<char>, same_tree: Option<bool>) -> bool {
    description.len() == 0 && same_tree == Some(true)
}

/// The target of a bookmark: `@-` where `@` is asked for and the working-copy commit is empty.
/// `same_tree` says whether the working-copy commit has the tree of its first parent, where it has
/// a parent.
pub fn resolve_bookmark_target(to: &str, description: &str, same_tree: Option<bool>) -> (r: String)
    ensures
        r@ == if to@ == "@"@ && is_empty_commit(description@, same_tree) {
            "@-"@
        } else {
            to@
        },
{
    let same_tree = match same_tree {
        Some(same_tree) => same_tree,
        None => false,
    };
    if same(to, "@") && description.is_empty() && same_tree {
        "@-".to_owned()
    } else {
        to.to_owned()
    }
}

/// The revset of the commits after `from` up to `to`.
pub fn revset_range(from: &str, to: &str) -> (r: String)
    ensures
        r@ == from@ + ".."@ + to@,
{
    from.to_owned().concat("..").concat(to)
}

/// The one commit that a revset stands for.
pub fn resolve_single_commit(mut ids: Vec<Vec<u8>>, rev: &str) -> (r: Result<Vec<u8>, String>)
    ensures
        match r {
            Ok(id) => ids@.len() == 1 && id == ids@[0],
            Err(message) => {
                ||| ids@.len() == 0 && message@ == "Revset resolved to no commits"@
                ||| ids@.len() > 1 && message@ == "Revset '"@ + rev@
                    + "' resolved to multiple commits, expected single commit"@
            },
        },
{
    if ids.len() == 1 {
        Ok(ids.remove(0))
    } else if ids.len() == 0 {
        Err("Revset resolved to no commits".to_owned())
    } else {
        Err(
            "Revset '".to_owned().concat(rev).concat(
                "' resolved to multiple commits, expected single commit",
            ),
        )
    }
}

// ---------------------------------------------------------------------------
// Bookmarks in a range
// ---------------------------------------------------------------------------

/// A local bookmark and the commits that it points at.
pub struct LocalBookmark {
    pub name: String,
    pub targets: Vec<Vec<u8>>,
}

/// What each identifier holds.
pub open spec fn id_views(ids: Seq<Vec<u8>>) -> Seq<Seq<u8>> {
    ids.map_values(|id: Vec<u8>| id@)
}

/// Whether a bookmark points at one of the commits.
pub open spec fn points_into(bookmark: LocalBookmark, commits: Seq<Seq<u8>>) -> bool {
    exists|i: int|
        0 <= i < bookmark.targets@.len() && commits.contains(#[trigger] bookmark.targets@[i]@)
}

/// The first bookmark that points at one of the commits.
pub open spec fn bookmark_in(
    bookmarks: Seq<LocalBookmark>,
    commits: Seq<Seq<u8>>,
) -> Option<Seq<char>>
    decreases bookmarks.len(),
{
    if bookmarks.len() == 0 {
        None
    } else if points_into(bookmarks[0], commits) {
        Some(bookmarks[0].name@)
    } else {
        bookmark_in(bookmarks.skip(1), commits)
    }
}

/// Where some bookmark points into the range, one that does is found.
pub proof fn law_existing_bookmarks_are_found(
    bookmarks: Seq<LocalBookmark>,
    commits: Seq<Seq<u8>>,
)
    ensures
        bookmark_in(bookmarks, commits) is None <==> forall|i: int|
            0 <= i < bookmarks.len() ==> !points_into(#[trigger] bookmarks[i], commits),
        bookmark_in(bookmarks, commits) matches Some(name) ==> exists|i: int|
            {
                &&& 0 <= i < bookmarks.len()
                &&& points_into(#[trigger] bookmarks[i], commits)
                &&& bookmarks[i].name@ == name
            },
    decreases bookmarks.len(),
{
    if bookmarks.len() > 0 && !points_into(bookmarks[0], commits) {
        let rest = bookmarks.skip(1);
        law_existing_bookmarks_are_found(rest, commits);
        assert forall|i: int| 0 <= i < rest.len() implies #[trigger] rest[i] == bookmarks[i + 1] by {}
        if bookmark_in(rest, commits) is None {
            assert forall|i: int| 0 <= i < bookmarks.len() implies !points_into(
                #[trigger] bookmarks[i],
                commits,
            ) by {
                if i > 0 {
                    assert(rest[i - 1] == bookmarks[i]);
                }
            }
        } else {
            let i = choose|i: int|
                {
                    &&& 0 <= i < rest.len()
                    &&& points_into(#[trigger] rest[i], commits)
                    &&& rest[i].name@ == bookmark_in(rest, commits)->0
                };
            assert(bookmarks[i + 1] == rest[i]);
        }
    } else if bookmarks.len() > 0 {
        assert(points_into(bookmarks[0], commits));
    }
}

/// Whether an identifier is among the identifiers.
fn is_known(ids: &Vec<Vec<u8>>, id: &Vec<u8>) -> (r: bool)
    ensures
        r == id_views(ids@).contains(id@),
{
    let ghost model = id_views(ids@);
    let mut i: usize = 0;
    while i < ids.len()
        invariant
            i <= ids@.len(),
            model == id_views(ids@),
            forall|k: int| 0 <= k < i ==> #[trigger] model[k] != id@,
        decreases ids@.len() - i,
    {
        assert(model[i as int] == ids@[i as int]@);
        if same_bytes(&ids[i], id) {
            return true;
        }
        i += 1;
    }
    false
}

/// Whether a bookmark points at one of the commits.
fn is_in_range(bookmark: &LocalBookmark, commits: &Vec<Vec<u8>>) -> (r: bool)
    ensures
        r == points_into(*bookmark, id_views(commits@)),
{
    let mut i: usize = 0;
    while i < bookmark.targets.len()
        invariant
            i <= bookmark.targets@.len(),
            forall|k: int|
                0 <= k < i ==> !id_views(commits@).contains(#[trigger] bookmark.targets@[k]@),
        decreases bookmark.targets@.len() - i,
    {
        if is_known(commits, &bookmark.targets[i]) {
            return true;
        }
        i += 1;
    }
    false
}

/// The first of the local bookmarks that points at one of the commits of a range.
pub fn find_existing_bookmark_in_range(
    bookmarks: &Vec<LocalBookmark>,
    commits: &Vec<Vec<u8>>,
) -> (r: Option<String>)
    ensures
        bookmark_in(bookmarks@, id_views(commits@)) == match r {
            Some(name) => Some(name@),
            None => None,
        },
{
    let mut i: usize = 0;
    assert(bookmarks@.skip(0) =~= bookmarks@);
    while i < bookmarks.len()
        invariant
            i <= bookmarks@.len(),
            bookmark_in(bookmarks@, id_views(commits@)) == bookmark_in(
                bookmarks@.skip(i as int),
                id_views(commits@),
            ),
        decreases bookmarks@.len() - i,
    {
        assert(bookmarks@.skip(i as int)[0] == bookmarks@[i as int]);
        assert(bookmarks@.skip(i as int).skip(1) =~= bookmarks@.skip(i + 1));
        if is_in_range(&bookmarks[i], commits) {
            return Some(bookmarks[i].name.clone());
        }
        i += 1;
    }
    None
}

// ---------------------------------------------------------------------------
// Summaries of commits
// ---------------------------------------------------------------------------

/// A title of at most 120 characters: what is longer is cut.
pub open spec fn cut_title(title: Seq<char>) -> Seq<char> {
    if title.len() > 120 {
        title.take(120) + "..."@
    } else {
        title
    }
}

/// The summary of a commit: its title; none where it has no description.
pub open spec fn summary_of(description: Seq<char>) -> Option<Seq<char>> {
    let text = trim(description);
    if text.len() == 0 {
        None
    } else {
        Some("- "@ + cut_title(lines(text)[0]))
    }
}

/// The summaries of the commits that have one.
pub open spec fn summaries_of(descriptions: Seq<Seq<char>>) -> Seq<Seq<char>>
    decreases descriptions.len(),
{
    if descriptions.len() == 0 {
        seq![]
    } else {
        match summary_of(descriptions.last()) {
            Some(summary) => summaries_of(descriptions.drop_last()).push(summary),
            None => summaries_of(descriptions.drop_last()),
        }
    }
}

/// The branches that are tried are `develop`, `main`, `master` and `trunk`, in this order, and each
/// at `origin` before the local one.
pub proof fn law_base_branches(origin: Seq<Seq<char>>, local: Seq<Seq<char>>)
    ensures
        default_base(default_base_branches(), origin, local) == if origin.contains("develop"@) {
            Some("develop"@ + "@origin"@)
        } else if local.contains("develop"@) {
            Some("develop"@)
        } else if origin.contains("main"@) {
            Some("main"@ + "@origin"@)
        } else if local.contains("main"@) {
            Some("main"@)
        } else if origin.contains("master"@) {
            Some("master"@ + "@origin"@)
        } else if local.contains("master"@) {
            Some("master"@)
        } else if origin.contains("trunk"@) {
            Some("trunk"@ + "@origin"@)
        } else if local.contains("trunk"@) {
            Some("trunk"@)
        } else {
            None
        },
        join(default_base_branches(), ", "@) == "develop"@ + ", "@ + "main"@ + ", "@ + "master"@
            + ", "@ + "trunk"@,
{
    reveal_with_fuel(default_base, 5);
    reveal_with_fuel(join, 5);
    let names = default_base_branches();
    assert(names.skip(1).skip(1)[0] == names[2]);
    assert(names.skip(1).skip(1).skip(1)[0] == names[3]);
}

/// A commit is empty exactly where it has no description at all and its tree is that of its parent.
pub proof fn law_empty_commits(description: Seq<char>, same_tree: Option<bool>)
    ensures
        is_empty_commit(description, same_tree) <==> description == Seq::<char>::empty() && same_tree
            == Some(true),
{
    if description.len() == 0 {
        assert(description =~= Seq::<char>::empty());
    }
}

/// The first bookmark that points at a commit of the range is found, by its name.
pub proof fn law_the_first_bookmark_in_the_range_is_found(
    bookmarks: Seq<LocalBookmark>,
    commits: Seq<Seq<u8>>,
    n: nat,
)
    requires
        n <= bookmarks.len(),
        forall|i: int, k: int|
            0 <= i < n && 0 <= k < bookmarks[i].targets@.len() ==> !commits.contains(
                #[trigger] bookmarks[i].targets@[k]@,
            ),
        n < bookmarks.len() ==> exists|k: int|
            0 <= k < bookmarks[n as int].targets@.len() && commits.contains(
                #[trigger] bookmarks[n as int].targets@[k]@,
            ),
    ensures
        bookmark_in(bookmarks, commits) == if n < bookmarks.len() {
            Some(bookmarks[n as int].name@)
        } else {
            None
        },
    decreases n,
{
    if n > 0 {
        let rest = bookmarks.skip(1);
        assert(!points_into(bookmarks[0], commits));
        assert forall|i: int, k: int|
            0 <= i < n - 1 && 0 <= k < rest[i].targets@.len() implies !commits.contains(
            #[trigger] rest[i].targets@[k]@,
        ) by {
            assert(rest[i] == bookmarks[i + 1]);
            assert(!commits.contains(bookmarks[i + 1].targets@[k]@));
        }
        if n < bookmarks.len() {
            assert(rest[n - 1] == bookmarks[n as int]);
        }
        law_the_first_bookmark_in_the_range_is_found(rest, commits, (n - 1) as nat);
    } else if bookmarks.len() > 0 {
        assert(points_into(bookmarks[0], commits));
    }
}

/// A commit is summarized by the first line of its description, behind a dash; of a longer one by
/// the first 120 characters and dots.
pub proof fn law_titles_are_summaries(
    front: Seq<char>,
    title: Seq<char>,
    rest: Seq<char>,
    back: Seq<char>,
)
    requires
        forall|i: int| 0 <= i < front.len() ==> is_white(#[trigger] front[i]),
        forall|i: int| 0 <= i < back.len() ==> is_white(#[trigger] back[i]),
        title.len() > 0 && !is_white(title[0]),
        !title.contains('\n'),
        rest.len() == 0 ==> !is_white(title.last()),
        rest.len() > 0 ==> title.last() != '\r' && rest[0] == '\n' && !is_white(rest.last()),
    ensures
        summary_of(front + (title + rest) + back) == Some(
            if title.len() <= 120 {
                "- "@ + title
            } else {
                "- "@ + (title.take(120) + "..."@)
            },
        ),
        summary_of(front) is None,
{
    let text = title + rest;
    law_trim_takes_the_ends(front, text, back);
    law_trim_takes_the_ends(front, seq![], seq![]);
    assert(front + Seq::<char>::empty() + Seq::<char>::empty() =~= front);
    if rest.len() == 0 {
        assert(text =~= title);
        law_lines_end_at_newlines(title, seq![]);
    } else {
        assert(text =~= title + seq!['\n'] + rest.skip(1));
        law_lines_end_at_newlines(title, rest.skip(1));
    }
}

/// The summaries stand in the order of the commits, and commits without a description have none.
pub proof fn law_summaries_keep_the_order(descriptions: Seq<Seq<char>>, description: Seq<char>)
    ensures
        summaries_of(Seq::<Seq<char>>::empty()) == Seq::<Seq<char>>::empty(),
        summaries_of(descriptions.push(description)) == match summary_of(description) {
            Some(summary) => summaries_of(descriptions).push(summary),
            None => summaries_of(descriptions),
        },
{
    assert(descriptions.push(description).drop_last() =~= descriptions);
}

/// No summary is longer than a mark, 120 characters and dots.
pub proof fn law_summaries_are_short(description: Seq<char>)
    ensures
        summary_of(description) matches Some(summary) ==> summary.len() <= 125,
{
    reveal_strlit("- ");
    reveal_strlit("...");
}

/// The summary of a commit.
fn summary(description: &str) -> (r: Option<String>)
    ensures
        summary_of(description@) == match r {
            Some(text) => Some(text@),
            None => None,
        },
{
    let text = trimmed(description);
    if text.as_str().is_empty() {
        return None;
    }
    let all = lines_of(text.as_str());
    assert(views(all@).len() == all@.len());
    if all.len() == 0 {
        assert(lines(text@).len() > 0);
        return None;
    }
    assert(views(all@)[0] == all@[0]@);
    let title = chars(all[0].as_str());
    let cut = if title.len() > 120 {
        assert(title@.subrange(0, 120) =~= title@.take(120));
        text_of(&title, 0, 120).concat("...")
    } else {
        all[0].clone()
    };
    Some("- ".to_owned().concat(cut.as_str()))
}

/// The summaries of commits with these descriptions, one on each line.
pub fn get_commit_summaries(descriptions: &Vec<String>) -> (r: String)
    ensures
        r@ == join(summaries_of(views(descriptions@)), "\n"@),
{
    broadcast use lemma_views_push;

    let ghost model = views(descriptions@);
    let mut found: Vec<String> = Vec::new();
    let mut i: usize = 0;
    assert(views(found@) =~= summaries_of(model.take(0)));
    while i < descriptions.len()
        invariant
            i <= descriptions@.len(),
            model == views(descriptions@),
            views(found@) == summaries_of(model.take(i as int)),
        decreases descriptions@.len() - i,
    {
        assert(model.take(i + 1).drop_last() =~= model.take(i as int));
        assert(model.take(i + 1).last() == descriptions@[i as int]@);
        if let Some(text) = summary(descriptions[i].as_str()) {
            found.push(text);
        }
        i += 1;
    }
    assert(model.take(i as int) =~= model);
    joined(&found, "\n")
}

} // verus!
