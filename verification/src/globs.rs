//! Sets of glob patterns that are matched against paths.

use vstd::prelude::*;

use crate::text::views;

verus! {

/// A compiled glob of `globset`.
#[verifier::external_type_specification]
#[verifier::external_body]
pub struct ExGlob(globset::Glob);

/// A collection of globs of `globset` that is still growing.
#[verifier::external_type_specification]
#[verifier::external_body]
pub struct ExGlobSetBuilder(globset::GlobSetBuilder);

/// A set of globs of `globset`.
#[verifier::external_type_specification]
#[verifier::external_body]
pub struct ExGlobSet(globset::GlobSet);

/// Whether `globset` accepts a pattern.
pub uninterp spec fn glob_is_valid(pattern: Seq<char>) -> bool;

/// The pattern that a glob was made from.
pub uninterp spec fn glob_pattern(glob: globset::Glob) -> Seq<char>;

/// The patterns of the globs that a builder holds, in the order in which they were added.
pub uninterp spec fn builder_patterns(builder: globset::GlobSetBuilder) -> Seq<Seq<char>>;

/// Whether `globset` can compile a set of globs with these patterns.
pub uninterp spec fn globs_compile(patterns: Seq<Seq<char>>) -> bool;

/// The patterns of the globs of a set, in the order in which they were added.
pub uninterp spec fn set_patterns(set: globset::GlobSet) -> Seq<Seq<char>>;

/// Whether the glob with this pattern matches a path.
pub uninterp spec fn glob_matches(pattern: Seq<char>, path: Seq<char>) -> bool;

/// `globset::Glob::new`: compiles a pattern, with the default options. Whether it is accepted
/// follows from the pattern (and the platform that the program is built for).
#[verifier::external_body]
fn new_glob(pattern: &str) -> (r: Option<globset::Glob>)
    ensures
        r is Some <==> glob_is_valid(pattern@),
        r matches Some(glob) ==> glob_pattern(glob) == pattern@,
{
    globset::Glob::new(pattern).ok()
}

/// `globset::GlobSetBuilder::new`: a builder without globs.
#[verifier::external_body]
fn new_builder() -> (r: globset::GlobSetBuilder)
    ensures
        builder_patterns(r) == Seq::<Seq<char>>::empty(),
{
    globset::GlobSetBuilder::new()
}

/// `globset::GlobSetBuilder::add`: adds a glob behind those that the builder holds.
#[verifier::external_body]
fn add_glob(builder: &mut globset::GlobSetBuilder, glob: globset::Glob)
    ensures
        builder_patterns(*final(builder)) == builder_patterns(*old(builder)).push(
            glob_pattern(glob),
        ),
{
    builder.add(glob);
}

/// `globset::GlobSetBuilder::build`: the set of the globs that the builder holds. It fails where
/// they cannot be compiled together, for instance because they are too large.
#[verifier::external_body]
fn build_set(builder: &globset::GlobSetBuilder) -> (r: Option<globset::GlobSet>)
    ensures
        r is Some <==> globs_compile(builder_patterns(*builder)),
        r matches Some(set) ==> set_patterns(set) == builder_patterns(*builder),
{
    builder.build().ok()
}

/// `globset::GlobSet::is_match`: whether any glob of the set matches the path. The globs of the
/// set were compiled with the default options.
#[verifier::external_body]
fn set_is_match(set: &globset::GlobSet, path: &str) -> (r: bool)
    ensures
        r == any_matches(set_patterns(*set), path@),
{
    set.is_match(path)
}

/// `globset::GlobSet::matches`: the numbers of the globs of the set that match the path, in
/// ascending order. The globs of the set were compiled with the default options.
#[verifier::external_body]
fn set_matches(set: &globset::GlobSet, path: &str) -> (r: Vec<usize>)
    ensures
        forall|i: int, j: int| 0 <= i < j < r@.len() ==> r@[i] < r@[j],
        forall|i: int|
            0 <= i < r@.len() ==> (#[trigger] r@[i]) < set_patterns(*set).len() && glob_matches(
                set_patterns(*set)[r@[i] as int],
                path@,
            ),
        forall|k: usize|
            k < set_patterns(*set).len() && glob_matches(
                #[trigger] set_patterns(*set)[k as int],
                path@,
            ) ==> r@.contains(k),
{
    set.matches(path)
}

/// A glob with the default options.
pub struct PathGlob {
    glob: globset::Glob,
}

impl PathGlob {
    /// The pattern of the glob.
    pub closed spec fn pattern(self) -> Seq<char> {
        glob_pattern(self.glob)
    }

    /// Compiles a pattern; `None` where it is not valid.
    pub fn new(pattern: &str) -> (r: Option<PathGlob>)
        ensures
            r is Some <==> glob_is_valid(pattern@),
            r matches Some(glob) ==> glob.pattern() == pattern@,
    {
        match new_glob(pattern) {
            Some(glob) => Some(PathGlob { glob }),
            None => None,
        }
    }
}

/// What the patterns of the globs are.
pub open spec fn patterns_of(globs: Seq<PathGlob>) -> Seq<Seq<char>> {
    globs.map_values(|g: PathGlob| g.pattern())
}

/// A set of globs with the default options.
pub struct PathMatcher {
    set: globset::GlobSet,
}

/// Whether one of the globs with these patterns matches a path.
pub open spec fn any_matches(patterns: Seq<Seq<char>>, path: Seq<char>) -> bool {
    exists|i: int| 0 <= i < patterns.len() && glob_matches(#[trigger] patterns[i], path)
}

/// The number of the first of the globs with these patterns that matches a path.
pub open spec fn first_match(patterns: Seq<Seq<char>>, path: Seq<char>) -> Option<nat>
    decreases patterns.len(),
{
    if patterns.len() == 0 {
        None
    } else if glob_matches(patterns[0], path) {
        Some(0)
    } else {
        match first_match(patterns.skip(1), path) {
            Some(i) => Some(i + 1),
            None => None,
        }
    }
}

pub proof fn lemma_first_match(patterns: Seq<Seq<char>>, path: Seq<char>)
    ensures
        match first_match(patterns, path) {
            Some(n) => {
                &&& n < patterns.len()
                &&& glob_matches(patterns[n as int], path)
                &&& forall|i: int| 0 <= i < n ==> !glob_matches(#[trigger] patterns[i], path)
            },
            None => !any_matches(patterns, path),
        },
    decreases patterns.len(),
{
    if patterns.len() > 0 && !glob_matches(patterns[0], path) {
        let rest = patterns.skip(1);
        lemma_first_match(rest, path);
        match first_match(rest, path) {
            Some(n) => {
                assert forall|i: int| 0 <= i < n + 1 implies !glob_matches(
                    #[trigger] patterns[i],
                    path,
                ) by {
                    if i > 0 {
                        assert(patterns[i] == rest[i - 1]);
                    }
                }
            },
            None => {
                assert forall|i: int| 0 <= i < patterns.len() implies !glob_matches(
                    #[trigger] patterns[i],
                    path,
                ) by {
                    if i > 0 {
                        assert(patterns[i] == rest[i - 1]);
                    }
                }
            },
        }
    }
}

impl PathMatcher {
    #[verifier::type_invariant]
    spec fn is_countable(self) -> bool {
        set_patterns(self.set).len() <= usize::MAX
    }

    /// The patterns of the globs, in the order in which they were added.
    pub closed spec fn patterns(self) -> Seq<Seq<char>> {
        set_patterns(self.set)
    }

    /// The set of the globs; `None` where they cannot be compiled together.
    pub fn build(globs: Vec<PathGlob>) -> (r: Option<PathMatcher>)
        ensures
            r is Some <==> globs_compile(patterns_of(globs@)),
            r matches Some(matcher) ==> matcher.patterns() == patterns_of(globs@),
    {
        let ghost all = patterns_of(globs@);
        let ghost given = globs@;
        assert(globs.len() == given.len());
        let mut builder = new_builder();
        for glob in it: globs
            invariant
                it.seq() == given,
                all == patterns_of(given),
                builder_patterns(builder) == all.take(it.index() as int),
        {
            let ghost k = it.index() as int;
            assert(all.take(k + 1) == all.take(k).push(all[k]));
            assert(all[k] == glob.pattern());
            add_glob(&mut builder, glob.glob);
        }
        assert(builder_patterns(builder) == all);
        match build_set(&builder) {
            Some(set) => Some(PathMatcher { set }),
            None => None,
        }
    }

    /// Whether one of the globs matches the path.
    pub fn is_match(&self, path: &str) -> (r: bool)
        ensures
            r == any_matches(self.patterns(), path@),
    {
        set_is_match(&self.set, path)
    }

    /// The number of the first glob that matches the path.
    pub fn first(&self, path: &str) -> (r: Option<usize>)
        ensures
            match r {
                Some(i) => first_match(self.patterns(), path@) == Some(i as nat),
                None => first_match(self.patterns(), path@) is None,
            },
    {
        let found = set_matches(&self.set, path);
        proof {
            use_type_invariant(self);
            lemma_first_match(self.patterns(), path@);
        }
        if found.len() == 0 {
            proof {
                if let Some(n) = first_match(self.patterns(), path@) {
                    let k = n as usize;
                    assert(glob_matches(set_patterns(self.set)[k as int], path@));
                    assert(found@.contains(k));
                }
            }
            None
        } else {
            let k: usize = found[0];
            proof {
                let n = first_match(self.patterns(), path@)->0;
                assert(glob_matches(set_patterns(self.set)[k as int], path@));
                assert(n <= k) by {
                    if k < n {
                        assert(!glob_matches(self.patterns()[k as int], path@));
                    }
                }
                assert(glob_matches(set_patterns(self.set)[(n as usize) as int], path@));
                assert(found@.contains(n as usize));
                let p = choose|p: int| 0 <= p < found@.len() && found@[p] == n as usize;
                if p > 0 {
                    assert(found@[0] < found@[p]);
                }
            }
            Some(k)
        }
    }
}

/// The patterns that `globset` accepts.
pub open spec fn valid_patterns(patterns: Seq<Seq<char>>) -> Seq<Seq<char>>
    decreases patterns.len(),
{
    if patterns.len() == 0 {
        seq![]
    } else if glob_is_valid(patterns.last()) {
        valid_patterns(patterns.drop_last()).push(patterns.last())
    } else {
        valid_patterns(patterns.drop_last())
    }
}

/// The valid patterns are kept, in their order.
pub proof fn law_valid_patterns_are_kept(patterns: Seq<Seq<char>>, pattern: Seq<char>)
    ensures
        valid_patterns(Seq::<Seq<char>>::empty()) == Seq::<Seq<char>>::empty(),
        valid_patterns(patterns.push(pattern)) == if glob_is_valid(pattern) {
            valid_patterns(patterns).push(pattern)
        } else {
            valid_patterns(patterns)
        },
{
    assert(patterns.push(pattern).drop_last() =~= patterns);
}

/// A matcher for those of the patterns that are valid. There is none where there are no patterns,
/// or where they cannot be compiled together.
pub fn build_collapse_matcher(patterns: &[String]) -> (r: Option<PathMatcher>)
    ensures
        r is Some <==> patterns@.len() > 0 && globs_compile(valid_patterns(views(patterns@))),
        r matches Some(matcher) ==> matcher.patterns() == valid_patterns(views(patterns@)),
{
    if patterns.len() == 0 {
        return None;
    }
    let ghost all = views(patterns@);
    let mut globs: Vec<PathGlob> = Vec::new();
    let mut i: usize = 0;
    while i < patterns.len()
        invariant
            i <= patterns@.len(),
            all == views(patterns@),
            patterns_of(globs@) == valid_patterns(all.take(i as int)),
        decreases patterns@.len() - i,
    {
        let ghost before = patterns_of(globs@);
        assert(all.take(i + 1).drop_last() == all.take(i as int));
        assert(all.take(i + 1).last() == patterns@[i as int]@);
        if let Some(glob) = PathGlob::new(patterns[i].as_str()) {
            globs.push(glob);
            assert(patterns_of(globs@) == before.push(glob.pattern()));
        }
        i += 1;
    }
    assert(all.take(i as int) == all);
    PathMatcher::build(globs)
}

} // verus!
