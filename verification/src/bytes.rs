//! Byte strings and component paths.
//!
//! A name (one path component, a file's content, a symlink target) is a byte
//! string `Vec<u8>`.  A path is a sequence of components `Vec<Vec<u8>>`; the
//! root is the empty sequence.  Persistent-path sets are `Vec` of paths.

use vstd::prelude::*;

verus! {

/// The sequence of component views of a path.
pub open spec fn path_view(p: Vec<Vec<u8>>) -> Seq<Seq<u8>> {
    p@.map_values(|c: Vec<u8>| c@)
}

/// The sequence of path views of a set of paths.
pub open spec fn paths_view(ps: Vec<Vec<Vec<u8>>>) -> Seq<Seq<Seq<u8>>> {
    ps@.map_values(|p: Vec<Vec<u8>>| path_view(p))
}

/// `a` is a (not necessarily strict) prefix of `b`: `b` lies at or below `a`.
pub open spec fn is_prefix(a: Seq<Seq<u8>>, b: Seq<Seq<u8>>) -> bool {
    a.len() <= b.len() && a == b.take(a.len() as int)
}

/// `a` is a strict prefix of `b`: `b` lies strictly below `a`.
pub open spec fn is_strict_prefix(a: Seq<Seq<u8>>, b: Seq<Seq<u8>>) -> bool {
    a.len() < b.len() && a == b.take(a.len() as int)
}

/// Byte-for-byte equality of two byte strings.
pub fn bytes_eq(a: &Vec<u8>, b: &Vec<u8>) -> (r: bool)
    ensures
        r == (a@ == b@),
{
    if a.len() != b.len() {
        return false;
    }
    let mut i: usize = 0;
    while i < a.len()
        invariant
            i <= a.len(),
            a.len() == b.len(),
            forall|j: int| 0 <= j < i ==> a@[j] == b@[j],
        decreases a.len() - i,
    {
        if a[i] != b[i] {
            return false;
        }
        i += 1;
    }
    proof {
        assert(a@ =~= b@);
    }
    true
}

/// Component-for-component equality of two paths.
pub fn path_eq(a: &Vec<Vec<u8>>, b: &Vec<Vec<u8>>) -> (r: bool)
    ensures
        r == (path_view(*a) == path_view(*b)),
{
    if a.len() != b.len() {
        assert(path_view(*a).len() != path_view(*b).len());
        return false;
    }
    let mut i: usize = 0;
    while i < a.len()
        invariant
            i <= a.len(),
            a.len() == b.len(),
            forall|j: int| 0 <= j < i ==> path_view(*a)[j] == path_view(*b)[j],
        decreases a.len() - i,
    {
        if !bytes_eq(&a[i], &b[i]) {
            assert(path_view(*a)[i as int] != path_view(*b)[i as int]);
            return false;
        }
        i += 1;
    }
    proof {
        assert(path_view(*a) =~= path_view(*b));
    }
    true
}

/// Does `b` lie at or below `a`?
pub fn path_starts_with(b: &Vec<Vec<u8>>, a: &Vec<Vec<u8>>) -> (r: bool)
    ensures
        r == is_prefix(path_view(*a), path_view(*b)),
{
    if a.len() > b.len() {
        return false;
    }
    let mut i: usize = 0;
    while i < a.len()
        invariant
            i <= a.len(),
            a.len() <= b.len(),
            forall|j: int| 0 <= j < i ==> path_view(*a)[j] == path_view(*b)[j],
        decreases a.len() - i,
    {
        if !bytes_eq(&a[i], &b[i]) {
            assert(path_view(*a)[i as int] != path_view(*b).take(a.len() as int)[i as int]);
            return false;
        }
        i += 1;
    }
    proof {
        assert(path_view(*a) =~= path_view(*b).take(a.len() as int));
    }
    true
}

/// A fresh copy of a byte string.
pub fn clone_bytes(v: &Vec<u8>) -> (r: Vec<u8>)
    ensures
        r@ == v@,
{
    let mut r: Vec<u8> = Vec::new();
    let mut i: usize = 0;
    while i < v.len()
        invariant
            i <= v.len(),
            r@ == v@.take(i as int),
        decreases v.len() - i,
    {
        r.push(v[i]);
        proof {
            assert(v@.take(i + 1 as int) =~= v@.take(i as int).push(v@[i as int]));
        }
        i += 1;
    }
    proof {
        assert(v@.take(v.len() as int) =~= v@);
    }
    r
}

/// A fresh copy of a path.
pub fn clone_path(p: &Vec<Vec<u8>>) -> (r: Vec<Vec<u8>>)
    ensures
        path_view(r) == path_view(*p),
{
    let mut r: Vec<Vec<u8>> = Vec::new();
    let mut i: usize = 0;
    while i < p.len()
        invariant
            i <= p.len(),
            r.len() == i,
            forall|j: int| 0 <= j < i ==> path_view(r)[j] == path_view(*p)[j],
        decreases p.len() - i,
    {
        r.push(clone_bytes(&p[i]));
        i += 1;
    }
    proof {
        assert(path_view(r) =~= path_view(*p));
    }
    r
}

/// The byte string holding everything of `v` from index `from` on.
pub fn take_from(v: &Vec<u8>, from: usize) -> (r: Vec<u8>)
    requires
        from <= v.len(),
    ensures
        r@ == v@.skip(from as int),
{
    let mut r: Vec<u8> = Vec::new();
    let mut i: usize = from;
    while i < v.len()
        invariant
            from <= i <= v.len(),
            r@ == v@.subrange(from as int, i as int),
        decreases v.len() - i,
    {
        r.push(v[i]);
        proof {
            assert(v@.subrange(from as int, i + 1 as int)
                =~= v@.subrange(from as int, i as int).push(v@[i as int]));
        }
        i += 1;
    }
    r
}

} // verus!
