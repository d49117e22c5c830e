//! Sorted directory listings for browsing a staged extraction: directories
//! first, then files, each group in case-insensitive name order.

use vstd::prelude::*;
use crate::fstree::DirTree;
use crate::text::spec_lex_le;
use crate::text::spec_lower;
use crate::text::lemma_lex_total;
use crate::text::lemma_lex_trans;
use crate::text::lower_char;

verus! {

/// One entry of a listing: a name and whether it is a directory.
#[derive(Debug)]
pub struct FileNode {
    pub name: String,
    pub is_dir: bool,
}

/// Lexicographic comparison of the ASCII-lowercase images of two names.
fn str_le_ci(a: &str, b: &str) -> (r: bool)
    ensures
        r == spec_lex_le(spec_lower(a@), spec_lower(b@)),
{
    let ghost la = spec_lower(a@);
    let ghost lb = spec_lower(b@);
    let a_len = a.unicode_len();
    let b_len = b.unicode_len();
    let mut i: usize = 0;
    proof {
        assert(la.skip(0) =~= la);
        assert(lb.skip(0) =~= lb);
    }
    while i < a_len && i < b_len
        invariant
            i <= a_len,
            i <= b_len,
            a_len == a@.len(),
            b_len == b@.len(),
            la == spec_lower(a@),
            lb == spec_lower(b@),
            spec_lex_le(la, lb) == spec_lex_le(la.skip(i as int), lb.skip(i as int)),
        decreases a_len - i,
    {
        let ca = lower_char(a.get_char(i));
        let cb = lower_char(b.get_char(i));
        proof {
            assert(la.skip(i as int)[0] == la[i as int]);
            assert(lb.skip(i as int)[0] == lb[i as int]);
            assert(la.skip(i as int).skip(1) =~= la.skip(i + 1));
            assert(lb.skip(i as int).skip(1) =~= lb.skip(i + 1));
        }
        if ca != cb {
            return ca < cb;
        }
        i = i + 1;
    }
    proof {
        if i >= a_len {
            assert(la.skip(i as int).len() == 0);
        } else {
            assert(lb.skip(i as int).len() == 0);
            assert(la.skip(i as int).len() > 0);
        }
    }
    a_len <= b_len
}

/// Listing order: directories before files; within a group, names compare
/// case-insensitively.
pub open spec fn spec_node_le(x: FileNode, y: FileNode) -> bool {
    if x.is_dir != y.is_dir {
        x.is_dir
    } else {
        spec_lex_le(spec_lower(x.name@), spec_lower(y.name@))
    }
}

proof fn lemma_node_le_total(x: FileNode, y: FileNode)
    ensures
        spec_node_le(x, y) || spec_node_le(y, x),
{
    if x.is_dir == y.is_dir {
        lemma_lex_total(spec_lower(x.name@), spec_lower(y.name@));
    }
}

proof fn lemma_node_le_trans(x: FileNode, y: FileNode, z: FileNode)
    requires
        spec_node_le(x, y),
        spec_node_le(y, z),
    ensures
        spec_node_le(x, z),
{
    if x.is_dir == y.is_dir && y.is_dir == z.is_dir {
        lemma_lex_trans(spec_lower(x.name@), spec_lower(y.name@), spec_lower(z.name@));
    }
}

fn node_le(x: &FileNode, y: &FileNode) -> (r: bool)
    ensures
        r == spec_node_le(*x, *y),
{
    if x.is_dir != y.is_dir {
        x.is_dir
    } else {
        str_le_ci(x.name.as_str(), y.name.as_str())
    }
}

/// The entries of one directory, unordered: its subdirectories, then its
/// files.
pub open spec fn spec_entry_nodes(t: DirTree) -> Seq<FileNode> {
    Seq::new(t.dirs@.len(), |i: int| FileNode { name: t.dirs@[i].name, is_dir: true }) + Seq::new(
        t.files@.len(),
        |i: int| FileNode { name: t.files@[i], is_dir: false },
    )
}

/// The first position whose node does not come at or before `x` (the length
/// when every node does).
fn node_insertion_point(out: &Vec<FileNode>, x: &FileNode) -> (p: usize)
    ensures
        p <= out@.len(),
        forall|k: int| 0 <= k < p ==> spec_node_le(#[trigger] out@[k], *x),
        p < out@.len() ==> !spec_node_le(out@[p as int], *x),
{
    let mut p: usize = 0;
    while p < out.len()
        invariant
            p <= out@.len(),
            forall|k: int| 0 <= k < p ==> spec_node_le(#[trigger] out@[k], *x),
        decreases out@.len() - p,
    {
        if !node_le(&out[p], x) {
            return p;
        }
        p = p + 1;
    }
    p
}

/// Lists a directory's entries in listing order: exactly its subdirectories
/// and files, directories first, each group ordered by name
/// case-insensitively.
pub fn list_entries(t: &DirTree) -> (r: Vec<FileNode>)
    ensures
        r@.to_multiset() == spec_entry_nodes(*t).to_multiset(),
        forall|a: int, b: int|
            0 <= a < b < r@.len() ==> spec_node_le(#[trigger] r@[a], #[trigger] r@[b]),
{
    let ghost nodes = spec_entry_nodes(*t);
    let mut raw: Vec<FileNode> = Vec::new();
    let mut i: usize = 0;
    while i < t.dirs.len()
        invariant
            i <= t.dirs@.len(),
            raw@.len() == i,
            forall|k: int| 0 <= k < i ==> raw@[k] == spec_entry_nodes(*t)[k],
        decreases t.dirs@.len() - i,
    {
        raw.push(FileNode { name: t.dirs[i].name.clone(), is_dir: true });
        i = i + 1;
    }
    let mut j: usize = 0;
    while j < t.files.len()
        invariant
            j <= t.files@.len(),
            i == t.dirs@.len(),
            raw@.len() == i + j,
            forall|k: int| 0 <= k < i + j ==> raw@[k] == spec_entry_nodes(*t)[k],
        decreases t.files@.len() - j,
    {
        raw.push(FileNode { name: t.files[j].clone(), is_dir: false });
        j = j + 1;
    }
    assert(raw@ =~= nodes);
    let ghost orig = raw@;
    let mut out: Vec<FileNode> = Vec::new();
    let mut n: usize = 0;
    proof {
        assert(out@ =~= orig.take(0));
    }
    while n < raw.len()
        invariant
            n <= raw@.len(),
            orig == raw@,
            out@.to_multiset() == orig.take(n as int).to_multiset(),
            forall|a: int, b: int|
                0 <= a < b < out@.len() ==> spec_node_le(#[trigger] out@[a], #[trigger] out@[b]),
        decreases raw@.len() - n,
    {
        let x = FileNode { name: raw[n].name.clone(), is_dir: raw[n].is_dir };
        proof {
            assert(x == orig[n as int]);
        }
        let p = node_insertion_point(&out, &x);
        let ghost before = out@;
        out.insert(p, x);
        proof {
            broadcast use vstd::seq_lib::group_to_multiset_ensures;
            broadcast use vstd::multiset::group_multiset_axioms;

            let x_g = orig[n as int];
            assert(out@ == before.insert(p as int, x_g));
            assert(before.insert(p as int, x_g).to_multiset() == before.to_multiset().insert(x_g));
            assert(orig.take(n + 1) =~= orig.take(n as int).push(x_g));
            assert(orig.take(n as int).push(x_g).to_multiset() == orig.take(
                n as int,
            ).to_multiset().insert(x_g));
            assert forall|a: int, b: int| 0 <= a < b < out@.len() implies spec_node_le(
                #[trigger] out@[a],
                #[trigger] out@[b],
            ) by {
                if b < p {
                    assert(out@[a] == before[a] && out@[b] == before[b]);
                } else if a < p && b == p {
                    assert(out@[a] == before[a]);
                } else if a < p && b > p {
                    assert(out@[a] == before[a] && out@[b] == before[b - 1]);
                } else if a == p {
                    assert(out@[b] == before[b - 1]);
                    assert(b - 1 >= p);
                    assert(!spec_node_le(before[p as int], x_g));
                    lemma_node_le_total(before[p as int], x_g);
                    if b - 1 > p {
                        assert(spec_node_le(before[p as int], before[b - 1]));
                        lemma_node_le_trans(x_g, before[p as int], before[b - 1]);
                    }
                } else {
                    assert(out@[a] == before[a - 1] && out@[b] == before[b - 1]);
                }
            }
        }
        n = n + 1;
    }
    proof {
        assert(orig.take(n as int) =~= orig);
    }
    out
}

} // verus!
