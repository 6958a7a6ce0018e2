//! Where a workspace, its configuration and its ignored files are looked for.

use vstd::prelude::*;
use vstd::utf8::{decode_utf8, encode_utf8, valid_utf8};

use crate::paths::PathParts;
use crate::text::{
    chars, is_white, law_trim_takes_the_ends, starts_with, strict_text, text_of, trim, trimmed,
};

verus! {

/// What the paths are.
pub open spec fn path_views(paths: Seq<PathParts>) -> Seq<Seq<Seq<u8>>> {
    paths.map_values(|p: PathParts| p@)
}

// ---------------------------------------------------------------------------
// The root of a workspace
// ---------------------------------------------------------------------------

/// The number of the first mark that is set.
pub open spec fn first_set(marks: Seq<bool>) -> Option<nat>
    decreases marks.len(),
{
    if marks.len() == 0 {
        None
    } else if marks[0] {
        Some(0)
    } else {
        match first_set(marks.skip(1)) {
            Some(n) => Some(n + 1),
            None => None,
        }
    }
}

proof fn lemma_first_set(marks: Seq<bool>)
    ensures
        match first_set(marks) {
            Some(n) => n < marks.len() && marks[n as int] && forall|i: int|
                0 <= i < n ==> !#[trigger] marks[i],
            None => forall|i: int| 0 <= i < marks.len() ==> !#[trigger] marks[i],
        },
    decreases marks.len(),
{
    if marks.len() > 0 && !marks[0] {
        let rest = marks.skip(1);
        lemma_first_set(rest);
        match first_set(rest) {
            Some(n) => {
                assert(rest[n as int] == marks[n as int + 1]);
                assert forall|i: int| 0 <= i < n + 1 implies !#[trigger] marks[i] by {
                    if i > 0 {
                        assert(rest[i - 1] == marks[i]);
                    }
                }
            },
            None => {
                assert forall|i: int| 0 <= i < marks.len() implies !#[trigger] marks[i] by {
                    if i > 0 {
                        assert(rest[i - 1] == marks[i]);
                    }
                }
            },
        }
    }
}

/// The workspace that is found is the nearest one: no directory between the start and it has one.
pub proof fn law_nearest_workspace_is_found(marks: Seq<bool>, i: int)
    requires
        0 <= i < marks.len(),
        marks[i],
    ensures
        first_set(marks) matches Some(n) && n <= i && marks[n as int] && forall|k: int|
            0 <= k < n ==> !#[trigger] marks[k],
{
    lemma_first_set(marks);
}

/// Where no directory has a workspace, none is found.
pub proof fn law_no_workspace_is_made_up(marks: Seq<bool>)
    requires
        forall|i: int| 0 <= i < marks.len() ==> !#[trigger] marks[i],
    ensures
        first_set(marks) is None,
{
    lemma_first_set(marks);
}

/// The number of the first mark that is set.
pub fn first_marked(marks: &Vec<bool>) -> (r: Option<usize>)
    ensures
        first_set(marks@) == match r {
            Some(n) => Some(n as nat),
            None => None,
        },
{
    let mut i: usize = 0;
    proof {
        lemma_first_set(marks@);
    }
    while i < marks.len()
        invariant
            i <= marks@.len(),
            forall|k: int| 0 <= k < i ==> !#[trigger] marks@[k],
            match first_set(marks@) {
                Some(n) => n < marks@.len() && marks@[n as int] && forall|k: int|
                    0 <= k < n ==> !#[trigger] marks@[k],
                None => forall|k: int| 0 <= k < marks@.len() ==> !#[trigger] marks@[k],
            },
        decreases marks@.len() - i,
    {
        if marks[i] {
            assert(marks@[i as int]);
            return Some(i);
        }
        i += 1;
    }
    None
}

/// Which of the directories from the start upwards is the root of the workspace: the first that
/// has a `.jj` directory, as the marks say. `start` is how the first one is displayed.
pub fn find_workspace(has_jj: &Vec<bool>, start: &str) -> (r: Result<usize, String>)
    ensures
        match first_set(has_jj@) {
            Some(n) => r matches Ok(k) && k == n,
            None => r matches Err(message) && message@ == "No Jujutsu workspace found in '"@
                + start@ + "' or any parent directory"@,
        },
{
    match first_marked(has_jj) {
        Some(n) => Ok(n),
        None => Err(
            "No Jujutsu workspace found in '".to_owned().concat(start).concat(
                "' or any parent directory",
            ),
        ),
    }
}

/// Whether the git repository of a workspace is in the same directory as the workspace itself: the
/// two paths are equal, or their canonical forms are.
pub fn is_colocated_git_workspace(
    git_workdir: Option<&PathParts>,
    workspace_root: &PathParts,
    canonical: Option<(PathParts, PathParts)>,
) -> (r: bool)
    ensures
        r == match git_workdir {
            Some(dir) => dir@ == workspace_root@ || (canonical matches Some(pair) && pair.0@
                == pair.1@),
            None => false,
        },
{
    match git_workdir {
        Some(dir) => {
            if dir.same(workspace_root) {
                return true;
            }
            match canonical {
                Some((git_workdir, workspace_root)) => git_workdir.same(&workspace_root),
                None => false,
            }
        },
        None => false,
    }
}

// ---------------------------------------------------------------------------
// Configuration
// ---------------------------------------------------------------------------

/// Where the user's configuration is looked for.
pub open spec fn config_candidates(
    home: Option<Seq<Seq<u8>>>,
    config: Option<Seq<Seq<u8>>>,
) -> Seq<Seq<Seq<u8>>> {
    let in_home = match home {
        Some(dir) => seq![
            dir.push(encode_utf8(".jjconfig.toml"@)),
            dir.push(encode_utf8(".config"@)).push(encode_utf8("jj"@)).push(
                encode_utf8("config.toml"@),
            ),
        ],
        None => seq![],
    };
    let in_config = match config {
        Some(dir) => seq![dir.push(encode_utf8("jj"@)).push(encode_utf8("config.toml"@))],
        None => seq![],
    };
    in_home + in_config
}

/// What an optional path is.
pub open spec fn opt_path(path: Option<PathParts>) -> Option<Seq<Seq<u8>>> {
    match path {
        Some(path) => Some(path@),
        None => None,
    }
}

/// Where the user's configuration is looked for, in the order in which the files are loaded.
pub fn user_config_candidates(home: Option<PathParts>, config_dir: Option<PathParts>) -> (r: Vec<
    PathParts,
>)
    ensures
        path_views(r@) == config_candidates(opt_path(home), opt_path(config_dir)),
{
    let mut r: Vec<PathParts> = Vec::new();
    if let Some(dir) = &home {
        r.push(dir.join(".jjconfig.toml"));
        r.push(dir.join(".config").join("jj").join("config.toml"));
    }
    if let Some(dir) = &config_dir {
        r.push(dir.join("jj").join("config.toml"));
    }
    assert(path_views(r@) =~= config_candidates(opt_path(home), opt_path(config_dir)));
    r
}

// ---------------------------------------------------------------------------
// Ignored files
// ---------------------------------------------------------------------------

/// The file that `git` is configured with for what is ignored everywhere.
pub enum ExcludesFile {
    /// A path below the home directory.
    InHome(String),
    /// A path as it is.
    Given(String),
}

/// What an excludes file is: its path, and whether that is below the home directory.
pub open spec fn excludes_view(file: Option<ExcludesFile>) -> Option<(bool, Seq<char>)> {
    match file {
        Some(ExcludesFile::InHome(path)) => Some((true, path@)),
        Some(ExcludesFile::Given(path)) => Some((false, path@)),
        None => None,
    }
}

/// The excludes file in what `git` printed: none where it failed, or printed nothing or no text.
pub open spec fn printed_excludes(
    success: bool,
    stdout: Seq<u8>,
    has_home: bool,
) -> Option<(bool, Seq<char>)> {
    if success && valid_utf8(stdout) && trim(decode_utf8(stdout)).len() > 0 {
        let path = trim(decode_utf8(stdout));
        if has_home && "~/"@.is_prefix_of(path) {
            Some((true, path.skip(2)))
        } else {
            Some((false, path))
        }
    } else {
        None
    }
}

/// The excludes file in what `git` printed. A path that begins with `~/` is below the home
/// directory where there is one.
pub fn configured_excludes(success: bool, stdout: &Vec<u8>, has_home: bool) -> (r: Option<
    ExcludesFile,
>)
    ensures
        excludes_view(r) == printed_excludes(success, stdout@, has_home),
{
    if !success {
        return None;
    }
    let text = match strict_text(stdout) {
        Some(text) => text,
        None => {
            return None;
        },
    };
    let path = trimmed(text.as_str());
    if path.as_str().is_empty() {
        return None;
    }
    if has_home && starts_with(path.as_str(), "~/") {
        proof {
            reveal_strlit("~/");
        }
        let v = chars(path.as_str());
        let rest = text_of(&v, 2, v.len());
        assert(rest@ =~= path@.skip(2));
        Some(ExcludesFile::InHome(rest))
    } else {
        Some(ExcludesFile::Given(path))
    }
}

/// The user's configuration is looked for in `.jjconfig.toml` and `.config/jj/config.toml` below
/// the home directory, and then in `jj/config.toml` below the directory for configuration.
pub proof fn law_configuration_files(home: Seq<Seq<u8>>, config: Seq<Seq<u8>>)
    ensures
        config_candidates(Some(home), Some(config)) == seq![
            home + seq![encode_utf8(".jjconfig.toml"@)],
            home + seq![encode_utf8(".config"@), encode_utf8("jj"@), encode_utf8("config.toml"@)],
            config + seq![encode_utf8("jj"@), encode_utf8("config.toml"@)],
        ],
        config_candidates(Some(home), None) == seq![
            home + seq![encode_utf8(".jjconfig.toml"@)],
            home + seq![encode_utf8(".config"@), encode_utf8("jj"@), encode_utf8("config.toml"@)],
        ],
        config_candidates(None, Some(config)) == seq![
            config + seq![encode_utf8("jj"@), encode_utf8("config.toml"@)],
        ],
        config_candidates(None, None) == Seq::<Seq<Seq<u8>>>::empty(),
{
    assert(home.push(encode_utf8(".jjconfig.toml"@)) =~= home + seq![
        encode_utf8(".jjconfig.toml"@),
    ]);
    assert(home.push(encode_utf8(".config"@)).push(encode_utf8("jj"@)).push(
        encode_utf8("config.toml"@),
    ) =~= home + seq![encode_utf8(".config"@), encode_utf8("jj"@), encode_utf8("config.toml"@)]);
    assert(config.push(encode_utf8("jj"@)).push(encode_utf8("config.toml"@)) =~= config + seq![
        encode_utf8("jj"@),
        encode_utf8("config.toml"@),
    ]);
}

/// What `git` prints is the path of the excludes file, without the white space around it; a path
/// that begins with `~/` is below the home directory where there is one. There is none where `git`
/// failed or printed nothing but white space.
pub proof fn law_printed_paths_are_read(
    stdout: Seq<u8>,
    front: Seq<char>,
    path: Seq<char>,
    back: Seq<char>,
    has_home: bool,
)
    requires
        valid_utf8(stdout),
        decode_utf8(stdout) == front + path + back,
        forall|i: int| 0 <= i < front.len() ==> is_white(#[trigger] front[i]),
        forall|i: int| 0 <= i < back.len() ==> is_white(#[trigger] back[i]),
        path.len() > 0 ==> !is_white(path[0]) && !is_white(path.last()),
    ensures
        printed_excludes(false, stdout, has_home) is None,
        printed_excludes(true, stdout, has_home) == if path.len() == 0 {
            None
        } else if has_home && path.len() >= 2 && path[0] == '~' && path[1] == '/' {
            Some((true, path.subrange(2, path.len() as int)))
        } else {
            Some((false, path))
        },
{
    reveal_strlit("~/");
    law_trim_takes_the_ends(front, path, back);
    if path.len() >= 2 && path[0] == '~' && path[1] == '/' {
        assert("~/"@ =~= path.subrange(0, 2));
        assert(path.skip(2) =~= path.subrange(2, path.len() as int));
    } else if "~/"@.is_prefix_of(path) {
        assert("~/"@ == path.subrange(0, 2));
        assert(path.subrange(0, 2)[0] == path[0] && path.subrange(0, 2)[1] == path[1]);
    }
}

/// Where the excludes file is looked for if `git` is not configured with one: below the directory
/// for configuration, where that is set and not empty, and then below the home directory.
pub fn excludes_candidates(
    xdg_config: Option<PathParts>,
    xdg_is_empty: bool,
    home: Option<PathParts>,
) -> (r: Vec<PathParts>)
    ensures
        path_views(r@) == match opt_path(xdg_config) {
            Some(dir) => if xdg_is_empty {
                seq![]
            } else {
                seq![dir.push(encode_utf8("git"@)).push(encode_utf8("ignore"@))]
            },
            None => seq![],
        } + match opt_path(home) {
            Some(dir) => seq![
                dir.push(encode_utf8(".config"@)).push(encode_utf8("git"@)).push(
                    encode_utf8("ignore"@),
                ),
            ],
            None => seq![],
        },
{
    let mut r: Vec<PathParts> = Vec::new();
    if let Some(dir) = &xdg_config {
        if !xdg_is_empty {
            r.push(dir.join("git").join("ignore"));
        }
    }
    if let Some(dir) = &home {
        r.push(dir.join(".config").join("git").join("ignore"));
    }
    assert(path_views(r@) =~= match opt_path(xdg_config) {
        Some(dir) => if xdg_is_empty {
            seq![]
        } else {
            seq![dir.push(encode_utf8("git"@)).push(encode_utf8("ignore"@))]
        },
        None => seq![],
    } + match opt_path(home) {
        Some(dir) => seq![
            dir.push(encode_utf8(".config"@)).push(encode_utf8("git"@)).push(
                encode_utf8("ignore"@),
            ),
        ],
        None => seq![],
    });
    r
}

} // verus!
