//! Model of a subvolume's contents.
//!
//! A subvolume is a flat table of entries, one per path: a file with its
//! content bytes, a symbolic link with its target bytes, or a directory.
//! Paths are component sequences relative to the subvolume root.  The model's
//! notion of what a path holds is [`lookup`]: the first entry with that path,
//! if any.

use vstd::prelude::*;

use crate::bytes::clone_bytes;
use crate::bytes::clone_path;
use crate::bytes::path_eq;
use crate::bytes::path_view;

verus! {

/// What stands at one path: a regular file, a symbolic link (classified by its
/// own link metadata, never by its target's), or a directory.
#[derive(PartialEq, Eq, Debug, Clone)]
pub enum Node {
    File(Vec<u8>),
    Link(Vec<u8>),
    Dir,
}

/// The mathematical value of a [`Node`].
pub enum NodeV {
    File(Seq<u8>),
    Link(Seq<u8>),
    Dir,
}

impl View for Node {
    type V = NodeV;

    open spec fn view(&self) -> NodeV {
        match self {
            Node::File(c) => NodeV::File(c@),
            Node::Link(t) => NodeV::Link(t@),
            Node::Dir => NodeV::Dir,
        }
    }
}

/// One entry of a subvolume: a path and what stands there.
pub struct FsEntry {
    pub path: Vec<Vec<u8>>,
    pub node: Node,
}

/// The mathematical value of an [`FsEntry`].
#[verifier::ext_equal]
pub struct FsEntryV {
    pub path: Seq<Seq<u8>>,
    pub node: NodeV,
}

impl View for FsEntry {
    type V = FsEntryV;

    open spec fn view(&self) -> FsEntryV {
        FsEntryV { path: path_view(self.path), node: self.node@ }
    }
}

/// A subvolume's contents.
pub struct Fs {
    pub entries: Vec<FsEntry>,
}

impl View for Fs {
    type V = Seq<FsEntryV>;

    open spec fn view(&self) -> Seq<FsEntryV> {
        self.entries@.map_values(|e: FsEntry| e@)
    }
}

/// What stands at path `p`: the first entry of the table with that path.
pub open spec fn lookup(fs: Seq<FsEntryV>, p: Seq<Seq<u8>>) -> Option<NodeV>
    decreases fs.len(),
{
    if fs.len() == 0 {
        None
    } else if fs[0].path == p {
        Some(fs[0].node)
    } else {
        lookup(fs.drop_first(), p)
    }
}

/// Looking a path up in a table extended at the back finds the old entry
/// first, and the new one only where the old table had none.
pub proof fn lemma_lookup_push(fs: Seq<FsEntryV>, e: FsEntryV, p: Seq<Seq<u8>>)
    ensures
        lookup(fs.push(e), p) == if lookup(fs, p) is Some {
            lookup(fs, p)
        } else if e.path == p {
            Some(e.node)
        } else {
            None::<NodeV>
        },
    decreases fs.len(),
{
    if fs.len() == 0 {
        assert(fs.push(e).drop_first() =~= Seq::<FsEntryV>::empty());
    } else {
        assert(fs.push(e).drop_first() =~= fs.drop_first().push(e));
        lemma_lookup_push(fs.drop_first(), e, p);
    }
}

/// Looking up in a concatenation searches the front table first.
pub proof fn lemma_lookup_append(a: Seq<FsEntryV>, b: Seq<FsEntryV>, p: Seq<Seq<u8>>)
    ensures
        lookup(a + b, p) == if lookup(a, p) is Some {
            lookup(a, p)
        } else {
            lookup(b, p)
        },
    decreases b.len(),
{
    if b.len() == 0 {
        assert(a + b =~= a);
    } else {
        assert(a + b =~= (a + b.drop_last()).push(b.last()));
        assert(b =~= b.drop_last().push(b.last()));
        lemma_lookup_append(a, b.drop_last(), p);
        lemma_lookup_push(a + b.drop_last(), b.last(), p);
        lemma_lookup_push(b.drop_last(), b.last(), p);
    }
}

/// A path has an entry exactly when the lookup succeeds.
pub proof fn lemma_lookup_some_iff_exists(fs: Seq<FsEntryV>, p: Seq<Seq<u8>>)
    ensures
        (lookup(fs, p) is Some) == exists|i: int| 0 <= i < fs.len() && fs[i].path == p,
    decreases fs.len(),
{
    if fs.len() > 0 {
        lemma_lookup_some_iff_exists(fs.drop_first(), p);
        if fs[0].path != p {
            if exists|i: int| 0 <= i < fs.len() && fs[i].path == p {
                let i = choose|i: int| 0 <= i < fs.len() && fs[i].path == p;
                assert(fs.drop_first()[i - 1].path == p);
            }
        }
    }
}

/// A fresh copy of a node.
pub fn clone_node(n: &Node) -> (r: Node)
    ensures
        r@ == n@,
{
    match n {
        Node::File(c) => Node::File(clone_bytes(c)),
        Node::Link(t) => Node::Link(clone_bytes(t)),
        Node::Dir => Node::Dir,
    }
}

/// A fresh copy of an entry.
pub fn clone_entry(e: &FsEntry) -> (r: FsEntry)
    ensures
        r@ == e@,
{
    let r = FsEntry { path: clone_path(&e.path), node: clone_node(&e.node) };
    proof {
        assert(r@ =~= e@);
    }
    r
}

/// A fresh copy of a subvolume's contents.
pub fn clone_fs(fs: &Fs) -> (r: Fs)
    ensures
        r@ == fs@,
{
    let mut entries: Vec<FsEntry> = Vec::new();
    let mut i: usize = 0;
    while i < fs.entries.len()
        invariant
            i <= fs.entries.len(),
            entries.len() == i,
            forall|j: int| 0 <= j < i ==> entries@[j]@ == fs@[j],
        decreases fs.entries.len() - i,
    {
        entries.push(clone_entry(&fs.entries[i]));
        i += 1;
    }
    let r = Fs { entries };
    proof {
        assert(r@ =~= fs@);
    }
    r
}

/// Does some entry of `fs` stand at path `p`?
pub fn contains_path(fs: &Fs, p: &Vec<Vec<u8>>) -> (r: bool)
    ensures
        r == (lookup(fs@, path_view(*p)) is Some),
{
    let mut i: usize = 0;
    let mut found = false;
    while i < fs.entries.len()
        invariant
            i <= fs.entries.len(),
            found == exists|j: int| 0 <= j < i && fs@[j].path == path_view(*p),
        decreases fs.entries.len() - i,
    {
        proof {
            assert(fs@[i as int] == fs.entries@[i as int]@);
        }
        if path_eq(&fs.entries[i].path, p) {
            found = true;
        }
        i += 1;
    }
    proof {
        lemma_lookup_some_iff_exists(fs@, path_view(*p));
    }
    found
}

/// What stands at path `p`, as a fresh copy.
pub fn lookup_node(fs: &Fs, p: &Vec<Vec<u8>>) -> (r: Option<Node>)
    ensures
        match r {
            Some(n) => lookup(fs@, path_view(*p)) == Some(n@),
            None => lookup(fs@, path_view(*p)) is None,
        },
{
    let mut i: usize = 0;
    proof {
        assert(fs@.skip(0) =~= fs@);
    }
    while i < fs.entries.len()
        invariant
            i <= fs.entries.len(),
            forall|j: int| 0 <= j < i ==> fs@[j].path != path_view(*p),
            lookup(fs@, path_view(*p)) == lookup(fs@.skip(i as int), path_view(*p)),
        decreases fs.entries.len() - i,
    {
        proof {
            assert(fs@[i as int] == fs.entries@[i as int]@);
            assert(fs@.skip(i as int)[0] == fs@[i as int]);
        }
        if path_eq(&fs.entries[i].path, p) {
            return Some(clone_node(&fs.entries[i].node));
        }
        proof {
            assert(fs@.skip(i as int).drop_first() =~= fs@.skip(i + 1));
        }
        i += 1;
    }
    None
}

} // verus!
