//! File-system paths, as far as the library decides anything about them.

use vstd::prelude::*;
use vstd::utf8::encode_utf8;

verus! {

/// A path as the sequence of its components, each in the byte encoding of the platform.
#[derive(Debug, PartialEq, Eq)]
pub struct PathParts {
    pub parts: Vec<Vec<u8>>,
}

impl View for PathParts {
    type V = Seq<Seq<u8>>;

    open spec fn view(&self) -> Seq<Seq<u8>> {
        self.parts@.map_values(|p: Vec<u8>| p@)
    }
}

/// Whether `a` and `b` hold the same bytes.
pub fn same_bytes(a: &Vec<u8>, b: &Vec<u8>) -> (r: bool)
    ensures
        r == (a@ == b@),
{
    if a.len() != b.len() {
        return false;
    }
    let mut i: usize = 0;
    while i < a.len()
        invariant
            i <= a@.len() == b@.len(),
            forall|j: int| 0 <= j < i ==> a@[j] == b@[j],
        decreases a@.len() - i,
    {
        if a[i] != b[i] {
            return false;
        }
        i += 1;
    }
    assert(a@ == b@);
    true
}

/// A copy of the bytes.
fn copy_bytes(a: &Vec<u8>) -> (r: Vec<u8>)
    ensures
        r@ == a@,
{
    vstd::slice::slice_to_vec(a.as_slice())
}

impl PathParts {
    /// The path with the one component `name`.
    pub fn single(name: &str) -> (r: PathParts)
        ensures
            r@ == seq![encode_utf8(name@)],
    {
        let mut parts: Vec<Vec<u8>> = Vec::new();
        parts.push(name.as_bytes_vec());
        let r = PathParts { parts };
        assert(r@ == seq![encode_utf8(name@)]);
        r
    }

    /// A copy of the path.
    pub fn copy(&self) -> (r: PathParts)
        ensures
            r@ == self@,
    {
        let mut parts: Vec<Vec<u8>> = Vec::new();
        let mut i: usize = 0;
        while i < self.parts.len()
            invariant
                i <= self.parts@.len(),
                parts@.len() == i,
                forall|j: int| 0 <= j < i ==> #[trigger] parts@[j]@ == self.parts@[j]@,
            decreases self.parts@.len() - i,
        {
            parts.push(copy_bytes(&self.parts[i]));
            i += 1;
        }
        let r = PathParts { parts };
        assert(r@ =~= self@);
        r
    }

    /// The path of `name` in the directory `self`.
    pub fn join(&self, name: &str) -> (r: PathParts)
        ensures
            r@ == self@.push(encode_utf8(name@)),
    {
        let mut r = self.copy();
        let ghost before = r@;
        r.parts.push(name.as_bytes_vec());
        assert(r@ == before.push(encode_utf8(name@)));
        r
    }

    /// Whether `self` is `base` or lies below it: only whole components count.
    pub fn starts_with(&self, base: &PathParts) -> (r: bool)
        ensures
            r == base@.is_prefix_of(self@),
    {
        if base.parts.len() > self.parts.len() {
            return false;
        }
        let mut i: usize = 0;
        while i < base.parts.len()
            invariant
                i <= base.parts@.len() <= self.parts@.len(),
                forall|j: int| 0 <= j < i ==> base@[j] == self@[j],
            decreases base.parts@.len() - i,
        {
            if !same_bytes(&base.parts[i], &self.parts[i]) {
                assert(base@[i as int] != self@[i as int]);
                return false;
            }
            assert(base@[i as int] == self@[i as int]);
            i += 1;
        }
        assert(base@ =~= self@.subrange(0, base@.len() as int));
        true
    }

    /// Whether the two paths have the same components.
    pub fn same(&self, other: &PathParts) -> (r: bool)
        ensures
            r == (self@ == other@),
    {
        if self.parts.len() == other.parts.len() && self.starts_with(other) {
            assert(self@ =~= self@.subrange(0, other@.len() as int));
            true
        } else {
            assert(self@ == other@ ==> other@.is_prefix_of(self@)) by {
                assert(self@ =~= self@.subrange(0, self@.len() as int));
            }
            false
        }
    }
}

} // verus!
