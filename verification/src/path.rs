//! Paths as plain data: a root, given by the caller as raw bytes, and the
//! names of the entries walked through beneath it.

use vstd::prelude::*;

verus! {

/// The mathematical value of a [`TreePath`].
pub struct PathView {
    pub root: Seq<u8>,
    pub rel: Seq<Seq<u8>>,
}

impl PathView {
    /// The path of the entry `name` inside the directory `self`.
    pub open spec fn child(self, name: Seq<u8>) -> PathView {
        PathView { root: self.root, rel: self.rel.push(name) }
    }

    /// The path reached from `self` by walking down through `names`.
    pub open spec fn descend(self, names: Seq<Seq<u8>>) -> PathView {
        PathView { root: self.root, rel: self.rel + names }
    }

    /// The directory that holds `self`; meaningful when `self.rel` is not empty.
    pub open spec fn parent(self) -> PathView {
        PathView { root: self.root, rel: self.rel.drop_last() }
    }

    /// `self` is `dir` or lies somewhere beneath it.
    pub open spec fn is_within(self, dir: PathView) -> bool {
        &&& self.root == dir.root
        &&& dir.rel.len() <= self.rel.len()
        &&& self.rel.subrange(0, dir.rel.len() as int) == dir.rel
    }
}

/// The names held by `names`, each as a sequence of bytes.
pub open spec fn names_view(names: Seq<Vec<u8>>) -> Seq<Seq<u8>> {
    Seq::new(names.len(), |i: int| names[i]@)
}

/// A path: the bytes of a root path as the operating system takes them, and
/// below it one name per directory level. The driver turns it into a native
/// path by joining the names onto the root one after the other.
#[derive(Debug, PartialEq, Eq)]
pub struct TreePath {
    pub root: Vec<u8>,
    pub rel: Vec<Vec<u8>>,
}

impl View for TreePath {
    type V = PathView;

    open spec fn view(&self) -> PathView {
        PathView { root: self.root@, rel: names_view(self.rel@) }
    }
}

/// Appending a name to a list of names appends its bytes to the list's view.
pub proof fn lemma_names_push(names: Seq<Vec<u8>>, name: Vec<u8>)
    ensures
        names_view(names.push(name)) == names_view(names).push(name@),
{
    assert(names_view(names.push(name)) =~= names_view(names).push(name@));
}

/// An empty list of names has the empty view.
pub proof fn lemma_names_empty()
    ensures
        names_view(Seq::<Vec<u8>>::empty()) == Seq::<Seq<u8>>::empty(),
{
    assert(names_view(Seq::<Vec<u8>>::empty()) =~= Seq::<Seq<u8>>::empty());
}

/// A copy of `bytes`.
pub fn clone_bytes(bytes: &Vec<u8>) -> (res: Vec<u8>)
    ensures
        res@ == bytes@,
{
    let mut res: Vec<u8> = Vec::new();
    let mut i: usize = 0;
    while i < bytes.len()
        invariant
            i <= bytes.len(),
            res@ == bytes@.subrange(0, i as int),
        decreases bytes.len() - i,
    {
        res.push(bytes[i]);
        i += 1;
    }
    proof {
        assert(bytes@.subrange(0, bytes@.len() as int) =~= bytes@);
    }
    res
}

/// A copy of `names`.
pub fn clone_names(names: &Vec<Vec<u8>>) -> (res: Vec<Vec<u8>>)
    ensures
        names_view(res@) == names_view(names@),
{
    let mut res: Vec<Vec<u8>> = Vec::new();
    let mut i: usize = 0;
    while i < names.len()
        invariant
            i <= names.len(),
            names_view(res@) == names_view(names@).subrange(0, i as int),
        decreases names.len() - i,
    {
        let name = clone_bytes(&names[i]);
        proof {
            lemma_names_push(res@, name);
            assert(names_view(names@).subrange(0, i + 1) =~= names_view(names@).subrange(
                0,
                i as int,
            ).push(names@[i as int]@));
        }
        res.push(name);
        i += 1;
    }
    proof {
        assert(names_view(names@).subrange(0, names@.len() as int) =~= names_view(names@));
    }
    res
}

impl TreePath {
    /// The path `root` itself, with nothing beneath it yet.
    pub fn new(root: Vec<u8>) -> (res: TreePath)
        ensures
            res@ == (PathView { root: root@, rel: Seq::empty() }),
    {
        proof {
            lemma_names_empty();
        }
        TreePath { root, rel: Vec::new() }
    }

    /// A copy of this path.
    pub fn duplicate(&self) -> (res: TreePath)
        ensures
            res@ == self@,
    {
        TreePath { root: clone_bytes(&self.root), rel: clone_names(&self.rel) }
    }

    /// The path reached from this one by walking down through `names`.
    pub fn descend(&self, names: &Vec<Vec<u8>>) -> (res: TreePath)
        ensures
            res@ == self@.descend(names_view(names@)),
    {
        let mut rel = clone_names(&self.rel);
        let mut i: usize = 0;
        while i < names.len()
            invariant
                i <= names.len(),
                names_view(rel@) == names_view(self.rel@) + names_view(names@).subrange(
                    0,
                    i as int,
                ),
            decreases names.len() - i,
        {
            let name = clone_bytes(&names[i]);
            proof {
                lemma_names_push(rel@, name);
                assert((names_view(self.rel@) + names_view(names@).subrange(0, i as int)).push(
                    names@[i as int]@,
                ) =~= names_view(self.rel@) + names_view(names@).subrange(0, i + 1));
            }
            rel.push(name);
            i += 1;
        }
        proof {
            assert(names_view(names@).subrange(0, names@.len() as int) =~= names_view(names@));
        }
        TreePath { root: clone_bytes(&self.root), rel }
    }

    /// The path of the entry `name` inside this directory.
    pub fn child(&self, name: &Vec<u8>) -> (res: TreePath)
        ensures
            res@ == self@.child(name@),
    {
        let mut rel = clone_names(&self.rel);
        let last = clone_bytes(name);
        proof {
            lemma_names_push(rel@, last);
        }
        rel.push(last);
        TreePath { root: clone_bytes(&self.root), rel }
    }
}

} // verus!
