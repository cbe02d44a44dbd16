//! The persistent-path filter parser.
//!
//! A filter-rule file is plain text.  Only lines that begin with the include
//! marker `+ ` followed by an absolute path denote persistent paths; every
//! other line is ignored.  The marker is stripped and the remainder trimmed.
//! Paths ending in a separator or in a recursive-glob suffix express
//! directory-contents rules, which the merge engine does not interpret, and
//! are dropped.  A missing rule file is an empty set, not an error.

use vstd::prelude::*;

use crate::bytes::path_view;
use crate::bytes::take_from;

verus! {

/// Split a byte string at every occurrence of `sep`.  Splitting at `n`
/// separators gives `n + 1` pieces; the empty string gives one empty piece.
pub open spec fn split_by(s: Seq<u8>, sep: u8) -> Seq<Seq<u8>>
    decreases s.len(),
{
    if s.len() == 0 {
        seq![Seq::empty()]
    } else if s.last() == sep {
        split_by(s.drop_last(), sep).push(Seq::empty())
    } else {
        let rest = split_by(s.drop_last(), sep);
        rest.update(rest.len() - 1, rest.last().push(s.last()))
    }
}

/// Splitting gives at least one piece.
pub proof fn lemma_split_by_nonempty(s: Seq<u8>, sep: u8)
    ensures
        split_by(s, sep).len() >= 1,
    decreases s.len(),
{
    if s.len() > 0 {
        lemma_split_by_nonempty(s.drop_last(), sep);
    }
}

/// An ASCII whitespace byte, as trimming removes.
pub open spec fn is_space(b: u8) -> bool {
    b == 32 || (9 <= b <= 13)
}

/// The byte string without leading whitespace.
pub open spec fn trim_start(s: Seq<u8>) -> Seq<u8>
    decreases s.len(),
{
    if s.len() > 0 && is_space(s[0]) {
        trim_start(s.drop_first())
    } else {
        s
    }
}

/// The byte string without trailing whitespace.
pub open spec fn trim_end(s: Seq<u8>) -> Seq<u8>
    decreases s.len(),
{
    if s.len() > 0 && is_space(s.last()) {
        trim_end(s.drop_last())
    } else {
        s
    }
}

/// The byte string without leading or trailing whitespace.
pub open spec fn trim(s: Seq<u8>) -> Seq<u8> {
    trim_end(trim_start(s))
}

/// Does this line carry an include rule: `+ ` then an absolute path?
pub open spec fn line_keep(l: Seq<u8>) -> bool {
    l.len() >= 3 && l[0] == 43 && l[1] == 32 && l[2] == 47
}

/// The path an include line denotes: the marker stripped, the rest trimmed.
pub open spec fn line_path(l: Seq<u8>) -> Seq<u8> {
    trim(l.skip(2))
}

/// A path the parser honors: not a directory-contents rule, i.e. not ending
/// in a separator and not in a recursive-glob suffix.
pub open spec fn path_kept(p: Seq<u8>) -> bool {
    &&& !(p.len() > 0 && p.last() == 47)
    &&& !(p.len() >= 3 && p.skip(p.len() - 3) == seq![47u8, 42u8, 42u8])
}

/// The persistent paths a sequence of lines denotes.
pub open spec fn collect_rules(lines: Seq<Seq<u8>>) -> Seq<Seq<u8>>
    decreases lines.len(),
{
    if lines.len() == 0 {
        Seq::empty()
    } else {
        let rest = collect_rules(lines.drop_last());
        if line_keep(lines.last()) && path_kept(line_path(lines.last())) {
            rest.push(line_path(lines.last()))
        } else {
            rest
        }
    }
}

/// The persistent paths a rule file's content denotes.
pub open spec fn spec_parse(content: Seq<u8>) -> Seq<Seq<u8>> {
    collect_rules(split_by(content, 10))
}

/// The components of an absolute byte path: a leading separator is dropped,
/// the rest splits at every separator.
pub open spec fn spec_components(p: Seq<u8>) -> Seq<Seq<u8>> {
    if p.len() > 0 && p[0] == 47 {
        split_by(p.skip(1), 47)
    } else {
        split_by(p, 47)
    }
}

/// Split a byte string at every occurrence of `sep`.
pub fn split_bytes(content: &Vec<u8>, sep: u8) -> (r: Vec<Vec<u8>>)
    ensures
        r@.map_values(|p: Vec<u8>| p@) == split_by(content@, sep),
{
    let mut pieces: Vec<Vec<u8>> = Vec::new();
    let mut cur: Vec<u8> = Vec::new();
    let mut i: usize = 0;
    while i < content.len()
        invariant
            i <= content.len(),
            split_by(content@.take(i as int), sep) == pieces@.map_values(|p: Vec<u8>| p@).push(
                cur@,
            ),
        decreases content.len() - i,
    {
        proof {
            assert(content@.take(i + 1).drop_last() =~= content@.take(i as int));
            assert(content@.take(i + 1).last() == content@[i as int]);
            lemma_split_by_nonempty(content@.take(i as int), sep);
        }
        if content[i] == sep {
            pieces.push(cur);
            cur = Vec::new();
            proof {
                assert(split_by(content@.take(i + 1), sep) =~= pieces@.map_values(
                    |p: Vec<u8>| p@,
                ).push(cur@));
            }
        } else {
            let b = content[i];
            cur.push(b);
            proof {
                let prev = split_by(content@.take(i as int), sep);
                assert(prev.last() == cur@.drop_last());
                assert(split_by(content@.take(i + 1), sep) =~= pieces@.map_values(
                    |p: Vec<u8>| p@,
                ).push(cur@));
            }
        }
        i += 1;
    }
    proof {
        assert(content@.take(content@.len() as int) =~= content@);
    }
    pieces.push(cur);
    proof {
        assert(pieces@.map_values(|p: Vec<u8>| p@) =~= split_by(content@, sep));
    }
    pieces
}

/// Trim ASCII whitespace from both ends.
pub fn trim_bytes(v: &Vec<u8>) -> (r: Vec<u8>)
    ensures
        r@ == trim(v@),
{
    let mut lo: usize = 0;
    proof {
        assert(v@.skip(0) =~= v@);
    }
    while lo < v.len() && (v[lo] == 32 || (9 <= v[lo] && v[lo] <= 13))
        invariant
            lo <= v.len(),
            trim_start(v@) == trim_start(v@.skip(lo as int)),
        decreases v.len() - lo,
    {
        proof {
            assert(v@.skip(lo as int).drop_first() =~= v@.skip(lo + 1));
        }
        lo += 1;
    }
    proof {
        assert(trim_start(v@) == v@.skip(lo as int));
    }
    let mut hi: usize = v.len();
    while hi > lo && (v[hi - 1] == 32 || (9 <= v[hi - 1] && v[hi - 1] <= 13))
        invariant
            lo <= hi <= v.len(),
            trim_start(v@) == v@.skip(lo as int),
            trim_end(v@.skip(lo as int)) == trim_end(v@.subrange(lo as int, hi as int)),
        decreases hi,
    {
        proof {
            assert(v@.subrange(lo as int, hi as int).drop_last()
                =~= v@.subrange(lo as int, hi - 1 as int));
            assert(v@.subrange(lo as int, hi as int).last() == v@[hi - 1 as int]);
        }
        hi -= 1;
    }
    proof {
        assert(v@.skip(lo as int) =~= v@.subrange(lo as int, v@.len() as int));
        if hi > lo {
            assert(v@.subrange(lo as int, hi as int).last() == v@[hi - 1 as int]);
        }
        assert(trim_end(v@.subrange(lo as int, hi as int)) == v@.subrange(lo as int, hi as int));
    }
    let mut r: Vec<u8> = Vec::new();
    let mut i: usize = lo;
    while i < hi
        invariant
            lo <= i <= hi <= v.len(),
            r@ == v@.subrange(lo as int, i as int),
        decreases hi - i,
    {
        r.push(v[i]);
        proof {
            assert(v@.subrange(lo as int, i + 1) =~= v@.subrange(lo as int, i as int).push(
                v@[i as int],
            ));
        }
        i += 1;
    }
    r
}

/// Parse a rule file's content into the persistent byte paths it denotes.
pub fn parse_persistent_paths(content: &Vec<u8>) -> (r: Vec<Vec<u8>>)
    ensures
        r@.map_values(|p: Vec<u8>| p@) == spec_parse(content@),
{
    let lines = split_bytes(content, 10);
    let ghost linesv = lines@.map_values(|p: Vec<u8>| p@);
    let mut out: Vec<Vec<u8>> = Vec::new();
    let mut i: usize = 0;
    while i < lines.len()
        invariant
            i <= lines.len(),
            linesv == lines@.map_values(|p: Vec<u8>| p@),
            out@.map_values(|p: Vec<u8>| p@) == collect_rules(linesv.take(i as int)),
        decreases lines.len() - i,
    {
        proof {
            assert(linesv[i as int] == lines@[i as int]@);
            assert(linesv.take(i + 1).drop_last() =~= linesv.take(i as int));
            assert(linesv.take(i + 1).last() == linesv[i as int]);
        }
        let l = &lines[i];
        if l.len() >= 3 && l[0] == 43 && l[1] == 32 && l[2] == 47 {
            let path = trim_bytes(&take_from(l, 2));
            let ends_sep = path.len() > 0 && path[path.len() - 1] == 47;
            let ends_glob = path.len() >= 3 && path[path.len() - 3] == 47
                && path[path.len() - 2] == 42 && path[path.len() - 1] == 42;
            proof {
                assert(path@ == line_path(linesv[i as int]));
                if path@.len() >= 3 {
                    assert(ends_glob == (path@.skip(path@.len() - 3) =~= seq![
                        47u8,
                        42u8,
                        42u8,
                    ]));
                }
            }
            if !ends_sep && !ends_glob {
                out.push(path);
            }
        }
        proof {
            assert(out@.map_values(|p: Vec<u8>| p@) =~= collect_rules(linesv.take(i + 1)));
        }
        i += 1;
    }
    proof {
        assert(linesv.take(linesv.len() as int) =~= linesv);
    }
    out
}

/// Split an absolute byte path into its components.
pub fn split_abs_path(p: &Vec<u8>) -> (r: Vec<Vec<u8>>)
    ensures
        path_view(r) == spec_components(p@),
{
    if p.len() > 0 && p[0] == 47 {
        let rest = take_from(p, 1);
        let r = split_bytes(&rest, 47);
        proof {
            assert(path_view(r) =~= spec_components(p@));
        }
        r
    } else {
        let r = split_bytes(p, 47);
        proof {
            assert(path_view(r) =~= spec_components(p@));
        }
        r
    }
}

} // verus!
