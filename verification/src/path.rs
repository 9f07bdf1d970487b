//! Paths as sequences of components.

use vstd::prelude::*;

verus! {

/// A path: its components in order, each a file name.
#[derive(Clone, Debug, PartialEq, Eq)]
pub struct FilePath {
    pub components: Vec<Vec<u8>>,
}

/// What a list of file names holds: the bytes of each, in order.
pub open spec fn names_view(names: Seq<Vec<u8>>) -> Seq<Seq<u8>> {
    names.map_values(|name: Vec<u8>| name@)
}

/// What a list of paths holds: the components of each, in order.
pub open spec fn paths_view(paths: Seq<FilePath>) -> Seq<Seq<Seq<u8>>> {
    paths.map_values(|path: FilePath| path@)
}

impl View for FilePath {
    type V = Seq<Seq<u8>>;

    open spec fn view(&self) -> Seq<Seq<u8>> {
        names_view(self.components@)
    }
}

/// One more name at the end of the list is one more byte string at the end of what
/// it holds.
pub proof fn lemma_names_push(names: Seq<Vec<u8>>, name: Vec<u8>)
    ensures
        names_view(names.push(name)) == names_view(names).push(name@),
{
}

/// One more path at the end of the list is one more component sequence at the end
/// of what it holds.
pub proof fn lemma_paths_push(paths: Seq<FilePath>, path: FilePath)
    ensures
        paths_view(paths.push(path)) == paths_view(paths).push(path@),
{
}

/// `prefix` is the start of `path`, component by component.
pub open spec fn starts_with(path: Seq<Seq<u8>>, prefix: Seq<Seq<u8>>) -> bool {
    prefix.len() <= path.len() && path.subrange(0, prefix.len() as int) == prefix
}

/// A copy of a file name.
pub fn copy_name(name: &Vec<u8>) -> (r: Vec<u8>)
    ensures
        r@ == name@,
{
    let mut out: Vec<u8> = Vec::new();
    let mut i: usize = 0;
    while i < name.len()
        invariant
            i <= name.len(),
            out@ == name@.subrange(0, i as int),
        decreases name.len() - i,
    {
        out.push(name[i]);
        i += 1;
    }
    out
}

/// Whether two file names hold the same bytes.
pub fn same_name(a: &Vec<u8>, b: &Vec<u8>) -> (r: bool)
    ensures
        r == (a@ == b@),
{
    if a.len() != b.len() {
        return false;
    }
    let mut i: usize = 0;
    while i < a.len()
        invariant
            a.len() == b.len(),
            i <= a.len(),
            forall|k: int| 0 <= k < i ==> a[k] == b[k],
        decreases a.len() - i,
    {
        if a[i] != b[i] {
            return false;
        }
        i += 1;
    }
    assert(a@ =~= b@);
    true
}

impl FilePath {
    /// The path without components.
    pub fn new() -> (r: FilePath)
        ensures
            r@ == Seq::<Seq<u8>>::empty(),
    {
        FilePath { components: Vec::new() }
    }

    /// The number of components.
    pub fn len(&self) -> (r: usize)
        ensures
            r == self@.len(),
    {
        self.components.len()
    }

    /// A copy of the path.
    pub fn duplicate(&self) -> (r: FilePath)
        ensures
            r@ == self@,
    {
        self.prefix(self.components.len())
    }

    /// A copy of the first `n` components.
    pub fn prefix(&self, n: usize) -> (r: FilePath)
        requires
            n <= self@.len(),
        ensures
            r@ == self@.subrange(0, n as int),
    {
        self.range(0, n)
    }

    /// A copy of the components from `from` up to `to`.
    pub fn range(&self, from: usize, to: usize) -> (r: FilePath)
        requires
            from <= to <= self@.len(),
        ensures
            r@ == self@.subrange(from as int, to as int),
    {
        let mut out: Vec<Vec<u8>> = Vec::new();
        let mut i: usize = from;
        while i < to
            invariant
                from <= i <= to <= self.components.len(),
                names_view(out@) == self@.subrange(from as int, i as int),
            decreases to - i,
        {
            let name = copy_name(&self.components[i]);
            proof {
                lemma_names_push(out@, name);
            }
            out.push(name);
            i += 1;
        }
        FilePath { components: out }
    }

    /// The path with `name` as one more component.
    pub fn join(&self, name: &Vec<u8>) -> (r: FilePath)
        ensures
            r@ == self@.push(name@),
    {
        let mut out = self.duplicate();
        let last = copy_name(name);
        out.components.push(last);
        out
    }

    /// The path followed by the components of `tail`.
    pub fn concat(&self, tail: &FilePath) -> (r: FilePath)
        ensures
            r@ == self@ + tail@,
    {
        let mut out = self.duplicate();
        let mut i: usize = 0;
        while i < tail.components.len()
            invariant
                i <= tail.components.len(),
                out@ == self@ + tail@.subrange(0, i as int),
            decreases tail.components.len() - i,
        {
            let name = copy_name(&tail.components[i]);
            proof {
                lemma_names_push(out.components@, name);
            }
            out.components.push(name);
            i += 1;
        }
        out
    }

    /// Whether `prefix` is the start of the path, component by component.
    pub fn starts_with(&self, prefix: &FilePath) -> (r: bool)
        ensures
            r == starts_with(self@, prefix@),
    {
        if prefix.components.len() > self.components.len() {
            return false;
        }
        let mut i: usize = 0;
        while i < prefix.components.len()
            invariant
                i <= prefix.components.len() <= self.components.len(),
                forall|k: int| 0 <= k < i ==> self@[k] == prefix@[k],
            decreases prefix.components.len() - i,
        {
            if !same_name(&self.components[i], &prefix.components[i]) {
                assert(self@.subrange(0, prefix@.len() as int)[i as int] != prefix@[i as int]);
                return false;
            }
            i += 1;
        }
        assert(self@.subrange(0, prefix@.len() as int) =~= prefix@);
        true
    }

    /// Whether two paths hold the same components.
    pub fn same(&self, other: &FilePath) -> (r: bool)
        ensures
            r == (self@ == other@),
    {
        if self.components.len() != other.components.len() {
            return false;
        }
        let r = self.starts_with(other);
        assert(self@.subrange(0, self@.len() as int) =~= self@);
        r
    }
}

} // verus!
