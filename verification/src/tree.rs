//! The labeled Merkle hash tree committing to a certification rule.
//!
//! `HashTree` is the node type of the protocol; `TreeV` is its mathematical
//! model. `spec_digest` states the canonical hashing rules; insertion keeps
//! labeled siblings sorted so that the shape is a function of what was
//! inserted, and `spec_witness` collapses subtrees off the queried path to
//! their digests without moving the root digest.

use vstd::prelude::*;
use crate::hashes::{sha256, sha256_of};

verus! {

/// A node of the labeled Merkle tree.
pub enum HashTree {
    Empty,
    Fork(Box<HashTree>, Box<HashTree>),
    Labeled(Vec<u8>, Box<HashTree>),
    Leaf(Vec<u8>),
    Pruned(Vec<u8>),
}

/// The mathematical model of a tree node, over byte sequences.
pub enum TreeV {
    Empty,
    Fork(Box<TreeV>, Box<TreeV>),
    Labeled(Seq<u8>, Box<TreeV>),
    Leaf(Seq<u8>),
    Pruned(Seq<u8>),
}

/// The model a tree value stands for.
pub open spec fn tree_v(t: HashTree) -> TreeV
    decreases t,
{
    match t {
        HashTree::Empty => TreeV::Empty,
        HashTree::Fork(l, r) => TreeV::Fork(Box::new(tree_v(*l)), Box::new(tree_v(*r))),
        HashTree::Labeled(l, sub) => TreeV::Labeled(l@, Box::new(tree_v(*sub))),
        HashTree::Leaf(v) => TreeV::Leaf(v@),
        HashTree::Pruned(d) => TreeV::Pruned(d@),
    }
}

impl View for HashTree {
    type V = TreeV;

    open spec fn view(&self) -> TreeV {
        tree_v(*self)
    }
}

/// Domain separator of an empty node: a length byte, then "ic-hashtree-empty".
pub open spec fn sep_empty() -> Seq<u8> {
    seq![
        17u8,
        105u8,
        99u8,
        45u8,
        104u8,
        97u8,
        115u8,
        104u8,
        116u8,
        114u8,
        101u8,
        101u8,
        45u8,
        101u8,
        109u8,
        112u8,
        116u8,
        121u8,
    ]
}

/// Domain separator of a fork node: a length byte, then "ic-hashtree-fork".
pub open spec fn sep_fork() -> Seq<u8> {
    seq![
        16u8,
        105u8,
        99u8,
        45u8,
        104u8,
        97u8,
        115u8,
        104u8,
        116u8,
        114u8,
        101u8,
        101u8,
        45u8,
        102u8,
        111u8,
        114u8,
        107u8,
    ]
}

/// Domain separator of a labeled node: a length byte, then
/// "ic-hashtree-labeled".
pub open spec fn sep_labeled() -> Seq<u8> {
    seq![
        19u8,
        105u8,
        99u8,
        45u8,
        104u8,
        97u8,
        115u8,
        104u8,
        116u8,
        114u8,
        101u8,
        101u8,
        45u8,
        108u8,
        97u8,
        98u8,
        101u8,
        108u8,
        101u8,
        100u8,
    ]
}

/// Domain separator of a leaf node: a length byte, then "ic-hashtree-leaf".
pub open spec fn sep_leaf() -> Seq<u8> {
    seq![
        16u8,
        105u8,
        99u8,
        45u8,
        104u8,
        97u8,
        115u8,
        104u8,
        116u8,
        114u8,
        101u8,
        101u8,
        45u8,
        108u8,
        101u8,
        97u8,
        102u8,
    ]
}

/// The canonical root digest of a tree: each node hashes its domain
/// separator and contents; a pruned node stands for the digest of what it
/// replaced.
pub open spec fn spec_digest(t: TreeV) -> Seq<u8>
    decreases t,
{
    match t {
        TreeV::Empty => sha256_of(sep_empty()),
        TreeV::Fork(l, r) => sha256_of(sep_fork() + spec_digest(*l) + spec_digest(*r)),
        TreeV::Labeled(lab, sub) => sha256_of(sep_labeled() + lab + spec_digest(*sub)),
        TreeV::Leaf(v) => sha256_of(sep_leaf() + v),
        TreeV::Pruned(d) => d,
    }
}

/// Append the contents of one byte vector to another.
pub fn append_bytes(dst: &mut Vec<u8>, src: &Vec<u8>)
    ensures
        final(dst)@ == old(dst)@ + src@,
{
    let mut i: usize = 0;
    while i < src.len()
        invariant
            i <= src.len(),
            dst@ == old(dst)@ + src@.take(i as int),
        decreases src.len() - i,
    {
        dst.push(src[i]);
        proof {
            assert(dst@ =~= old(dst)@ + src@.take(i + 1));
        }
        i = i + 1;
    }
    proof {
        assert(old(dst)@ + src@.take(src@.len() as int) =~= old(dst)@ + src@);
    }
}

/// A copy of a byte vector, equal in its view.
pub fn copy_bytes(v: &Vec<u8>) -> (r: Vec<u8>)
    ensures
        r@ == v@,
{
    let mut r: Vec<u8> = Vec::new();
    append_bytes(&mut r, v);
    proof {
        assert(Seq::<u8>::empty() + v@ =~= v@);
    }
    r
}

/// Indexing the views of a sequence of byte vectors.
proof fn lemma_views_index(s: Seq<Vec<u8>>, i: int)
    requires
        0 <= i < s.len(),
    ensures
        views_of(s).len() == s.len(),
        views_of(s)[i] == s[i]@,
{
}

fn sep_empty_bytes() -> (r: Vec<u8>)
    ensures
        r@ == sep_empty(),
{
    let r: Vec<u8> = vec![
        17u8, 105, 99, 45, 104, 97, 115, 104, 116, 114, 101, 101, 45, 101, 109, 112, 116, 121,
    ];
    proof {
        assert(r@ =~= sep_empty());
    }
    r
}

fn sep_fork_bytes() -> (r: Vec<u8>)
    ensures
        r@ == sep_fork(),
{
    let r: Vec<u8> = vec![
        16u8, 105, 99, 45, 104, 97, 115, 104, 116, 114, 101, 101, 45, 102, 111, 114, 107,
    ];
    proof {
        assert(r@ =~= sep_fork());
    }
    r
}

fn sep_labeled_bytes() -> (r: Vec<u8>)
    ensures
        r@ == sep_labeled(),
{
    let r: Vec<u8> = vec![
        19u8, 105, 99, 45, 104, 97, 115, 104, 116, 114, 101, 101, 45, 108, 97, 98, 101, 108, 101,
        100,
    ];
    proof {
        assert(r@ =~= sep_labeled());
    }
    r
}

fn sep_leaf_bytes() -> (r: Vec<u8>)
    ensures
        r@ == sep_leaf(),
{
    let r: Vec<u8> = vec![
        16u8, 105, 99, 45, 104, 97, 115, 104, 116, 114, 101, 101, 45, 108, 101, 97, 102,
    ];
    proof {
        assert(r@ =~= sep_leaf());
    }
    r
}

/// Compute the root digest of a tree.
pub fn digest(t: &HashTree) -> (r: Vec<u8>)
    ensures
        r@ == spec_digest(t@),
        !(t@ is Pruned) ==> r@.len() == 32,
    decreases *t,
{
    match t {
        HashTree::Empty => sha256(&sep_empty_bytes()),
        HashTree::Fork(l, r) => {
            let mut buf = sep_fork_bytes();
            let dl = digest(l);
            let dr = digest(r);
            append_bytes(&mut buf, &dl);
            append_bytes(&mut buf, &dr);
            sha256(&buf)
        },
        HashTree::Labeled(lab, sub) => {
            let mut buf = sep_labeled_bytes();
            append_bytes(&mut buf, lab);
            let ds = digest(sub);
            append_bytes(&mut buf, &ds);
            sha256(&buf)
        },
        HashTree::Leaf(v) => {
            let mut buf = sep_leaf_bytes();
            append_bytes(&mut buf, v);
            sha256(&buf)
        },
        HashTree::Pruned(d) => copy_bytes(d),
    }
}

/// Strict lexicographic order on byte strings.
pub open spec fn lex_lt(a: Seq<u8>, b: Seq<u8>) -> bool
    decreases a.len(),
{
    if b.len() == 0 {
        false
    } else if a.len() == 0 {
        true
    } else if a[0] < b[0] {
        true
    } else if a[0] > b[0] {
        false
    } else {
        lex_lt(a.skip(1), b.skip(1))
    }
}

/// The outcome of comparing two byte strings.
pub enum ByteOrd {
    Less,
    Equal,
    Greater,
}

/// If two byte strings agree below `i` and differ there (or the first ends),
/// the first is lexicographically smaller.
proof fn lemma_lex_from_prefix(a: Seq<u8>, b: Seq<u8>, i: int)
    requires
        0 <= i <= a.len(),
        i <= b.len(),
        forall|j: int| 0 <= j < i ==> a[j] == b[j],
        (i < a.len() && i < b.len() && a[i] < b[i]) || (i == a.len() && i < b.len()),
    ensures
        lex_lt(a, b),
    decreases i,
{
    if i == 0 {
    } else {
        lemma_lex_from_prefix(a.skip(1), b.skip(1), i - 1);
    }
}

/// The order is asymmetric, and strictly ordered strings differ.
pub proof fn lemma_lex_asym(a: Seq<u8>, b: Seq<u8>)
    ensures
        lex_lt(a, b) ==> !lex_lt(b, a),
        lex_lt(a, b) ==> a != b,
    decreases a.len(),
{
    if a.len() > 0 && b.len() > 0 && a[0] == b[0] {
        lemma_lex_asym(a.skip(1), b.skip(1));
        if a == b {
            assert(a.skip(1) =~= b.skip(1));
        }
    }
}

/// Compare two byte strings lexicographically.
pub fn bytes_cmp(a: &Vec<u8>, b: &Vec<u8>) -> (r: ByteOrd)
    ensures
        r is Less ==> lex_lt(a@, b@) && !lex_lt(b@, a@) && a@ != b@,
        r is Greater ==> lex_lt(b@, a@) && !lex_lt(a@, b@) && a@ != b@,
        r is Equal ==> a@ == b@,
{
    let mut i: usize = 0;
    while i < a.len() && i < b.len()
        invariant
            i <= a.len(),
            i <= b.len(),
            forall|j: int| 0 <= j < i ==> a@[j] == b@[j],
        decreases a.len() - i,
    {
        if a[i] < b[i] {
            proof {
                lemma_lex_from_prefix(a@, b@, i as int);
                lemma_lex_asym(a@, b@);
            }
            return ByteOrd::Less;
        }
        if a[i] > b[i] {
            proof {
                lemma_lex_from_prefix(b@, a@, i as int);
                lemma_lex_asym(b@, a@);
            }
            return ByteOrd::Greater;
        }
        i = i + 1;
    }
    if a.len() < b.len() {
        proof {
            lemma_lex_from_prefix(a@, b@, a@.len() as int);
            lemma_lex_asym(a@, b@);
        }
        ByteOrd::Less
    } else if b.len() < a.len() {
        proof {
            lemma_lex_from_prefix(b@, a@, b@.len() as int);
            lemma_lex_asym(b@, a@);
        }
        ByteOrd::Greater
    } else {
        proof {
            assert(a@ =~= b@);
        }
        ByteOrd::Equal
    }
}

/// The views of a sequence of byte vectors.
pub open spec fn views_of(s: Seq<Vec<u8>>) -> Seq<Seq<u8>> {
    s.map_values(|v: Vec<u8>| v@)
}

/// Inserting conflicting content at an already-terminal path fails.
#[derive(Debug)]
pub enum TreeError {
    Conflict,
}

/// Insert the leaf `path[last]` under the labels `path[i..last]`: labels are
/// kept sorted, an existing label is descended into, and anything terminal in
/// the way is a conflict (`None`).
pub open spec fn spec_insert(t: TreeV, path: Seq<Seq<u8>>, i: int) -> Option<TreeV>
    recommends
        path.len() >= 1,
        0 <= i < path.len(),
    decreases path.len() - i, t,
{
    let end = path.len() - 1;
    if i >= end {
        match t {
            TreeV::Empty => Some(TreeV::Leaf(path[end])),
            _ => None,
        }
    } else {
        let l = path[i];
        match t {
            TreeV::Empty => match spec_insert(TreeV::Empty, path, i + 1) {
                Some(sub) => Some(TreeV::Labeled(l, Box::new(sub))),
                None => None,
            },
            TreeV::Labeled(l2, sub) => if l == l2 {
                match spec_insert(*sub, path, i + 1) {
                    Some(s2) => Some(TreeV::Labeled(l2, Box::new(s2))),
                    None => None,
                }
            } else if lex_lt(l, l2) {
                match spec_insert(TreeV::Empty, path, i + 1) {
                    Some(s) => Some(
                        TreeV::Fork(
                            Box::new(TreeV::Labeled(l, Box::new(s))),
                            Box::new(TreeV::Labeled(l2, sub)),
                        ),
                    ),
                    None => None,
                }
            } else {
                match spec_insert(TreeV::Empty, path, i + 1) {
                    Some(s) => Some(
                        TreeV::Fork(
                            Box::new(TreeV::Labeled(l2, sub)),
                            Box::new(TreeV::Labeled(l, Box::new(s))),
                        ),
                    ),
                    None => None,
                }
            },
            TreeV::Fork(left, right) => match *left {
                TreeV::Labeled(l2, sub) => if l == l2 {
                    match spec_insert(*sub, path, i + 1) {
                        Some(s2) => Some(
                            TreeV::Fork(
                                Box::new(TreeV::Labeled(l2, Box::new(s2))),
                                right,
                            ),
                        ),
                        None => None,
                    }
                } else if lex_lt(l, l2) {
                    match spec_insert(TreeV::Empty, path, i + 1) {
                        Some(s) => Some(
                            TreeV::Fork(
                                Box::new(TreeV::Labeled(l, Box::new(s))),
                                Box::new(TreeV::Fork(left, right)),
                            ),
                        ),
                        None => None,
                    }
                } else {
                    match spec_insert(*right, path, i) {
                        Some(nr) => Some(TreeV::Fork(left, Box::new(nr))),
                        None => None,
                    }
                },
                _ => None,
            },
            TreeV::Leaf(_) => None,
            TreeV::Pruned(_) => None,
        }
    }
}

/// Insertion in executable form; on a conflict the tree comes back unchanged.
fn insert_at(t: HashTree, path: &Vec<Vec<u8>>, i: usize) -> (r: (HashTree, bool))
    requires
        path@.len() >= 1,
        i < path@.len(),
    ensures
        !r.1 ==> spec_insert(t@, views_of(path@), i as int) == Some(r.0@),
        r.1 ==> spec_insert(t@, views_of(path@), i as int) is None && r.0@ == t@,
    decreases path@.len() - i, t,
{
    let end = path.len() - 1;
    if i >= end {
        match t {
            HashTree::Empty => {
                proof {
                    lemma_views_index(path@, end as int);
                }
                (HashTree::Leaf(copy_bytes(&path[end])), false)
            },
            other => (other, true),
        }
    } else {
        proof {
            lemma_views_index(path@, i as int);
            reveal_with_fuel(spec_insert, 3);
            reveal_with_fuel(tree_v, 4);
        }
        match t {
            HashTree::Empty => {
                let (sub, err) = insert_at(HashTree::Empty, path, i + 1);
                if err {
                    (HashTree::Empty, true)
                } else {
                    (HashTree::Labeled(copy_bytes(&path[i]), Box::new(sub)), false)
                }
            },
            HashTree::Labeled(l2, sub) => {
                match bytes_cmp(&path[i], &l2) {
                    ByteOrd::Equal => {
                        let (s2, err) = insert_at(*sub, path, i + 1);
                        (HashTree::Labeled(l2, Box::new(s2)), err)
                    },
                    ByteOrd::Less => {
                        let (s, err) = insert_at(HashTree::Empty, path, i + 1);
                        if err {
                            (HashTree::Labeled(l2, sub), true)
                        } else {
                            (
                                HashTree::Fork(
                                    Box::new(HashTree::Labeled(copy_bytes(&path[i]), Box::new(s))),
                                    Box::new(HashTree::Labeled(l2, sub)),
                                ),
                                false,
                            )
                        }
                    },
                    ByteOrd::Greater => {
                        let (s, err) = insert_at(HashTree::Empty, path, i + 1);
                        if err {
                            (HashTree::Labeled(l2, sub), true)
                        } else {
                            (
                                HashTree::Fork(
                                    Box::new(HashTree::Labeled(l2, sub)),
                                    Box::new(HashTree::Labeled(copy_bytes(&path[i]), Box::new(s))),
                                ),
                                false,
                            )
                        }
                    },
                }
            },
            HashTree::Fork(left, right) => {
                let left_inner = *left;
                match left_inner {
                    HashTree::Labeled(l2, sub) => {
                        match bytes_cmp(&path[i], &l2) {
                            ByteOrd::Equal => {
                                let (s2, err) = insert_at(*sub, path, i + 1);
                                (
                                    HashTree::Fork(
                                        Box::new(HashTree::Labeled(l2, Box::new(s2))),
                                        right,
                                    ),
                                    err,
                                )
                            },
                            ByteOrd::Less => {
                                let (s, err) = insert_at(HashTree::Empty, path, i + 1);
                                if err {
                                    (
                                        HashTree::Fork(
                                            Box::new(HashTree::Labeled(l2, sub)),
                                            right,
                                        ),
                                        true,
                                    )
                                } else {
                                    (
                                        HashTree::Fork(
                                            Box::new(
                                                HashTree::Labeled(
                                                    copy_bytes(&path[i]),
                                                    Box::new(s),
                                                ),
                                            ),
                                            Box::new(
                                                HashTree::Fork(
                                                    Box::new(HashTree::Labeled(l2, sub)),
                                                    right,
                                                ),
                                            ),
                                        ),
                                        false,
                                    )
                                }
                            },
                            ByteOrd::Greater => {
                                let (nr, err) = insert_at(*right, path, i);
                                (
                                    HashTree::Fork(
                                        Box::new(HashTree::Labeled(l2, sub)),
                                        Box::new(nr),
                                    ),
                                    err,
                                )
                            },
                        }
                    },
                    other => (HashTree::Fork(Box::new(other), right), true),
                }
            },
            HashTree::Leaf(v) => (HashTree::Leaf(v), true),
            HashTree::Pruned(d) => (HashTree::Pruned(d), true),
        }
    }
}

/// The pruned witness for one queried path: nodes on the path and its
/// terminal leaf are kept verbatim, every subtree off the path collapses to
/// its digest. The final path segment is the leaf content, so the lookup
/// stops one segment early and keeps what it reached.
pub open spec fn spec_witness(t: TreeV, path: Seq<Seq<u8>>, i: int) -> TreeV
    decreases t,
{
    if i >= path.len() - 1 {
        t
    } else {
        match t {
            TreeV::Empty => TreeV::Empty,
            TreeV::Fork(a, b) => TreeV::Fork(
                Box::new(spec_witness(*a, path, i)),
                Box::new(spec_witness(*b, path, i)),
            ),
            TreeV::Labeled(l, sub) => if l == path[i] {
                TreeV::Labeled(l, Box::new(spec_witness(*sub, path, i + 1)))
            } else {
                TreeV::Pruned(spec_digest(TreeV::Labeled(l, sub)))
            },
            TreeV::Leaf(v) => TreeV::Pruned(spec_digest(TreeV::Leaf(v))),
            TreeV::Pruned(d) => TreeV::Pruned(d),
        }
    }
}

/// Pruning off-path subtrees to their digests never moves the root digest:
/// a witness certifies the same root as the full tree.
pub proof fn lemma_witness_digest(t: TreeV, path: Seq<Seq<u8>>, i: int)
    ensures
        spec_digest(spec_witness(t, path, i)) == spec_digest(t),
    decreases t,
{
    if i >= path.len() - 1 {
    } else {
        match t {
            TreeV::Fork(a, b) => {
                lemma_witness_digest(*a, path, i);
                lemma_witness_digest(*b, path, i);
            },
            TreeV::Labeled(l, sub) => {
                if l == path[i] {
                    lemma_witness_digest(*sub, path, i + 1);
                }
            },
            _ => {},
        }
    }
}

/// Executable witness construction.
pub fn witness(t: &HashTree, path: &Vec<Vec<u8>>, i: usize) -> (r: HashTree)
    ensures
        r@ == spec_witness(t@, views_of(path@), i as int),
    decreases *t,
{
    if path.len() == 0 || i >= path.len() - 1 {
        clone_tree(t)
    } else {
        proof {
            lemma_views_index(path@, i as int);
        }
        match t {
            HashTree::Empty => HashTree::Empty,
            HashTree::Fork(a, b) => HashTree::Fork(
                Box::new(witness(a, path, i)),
                Box::new(witness(b, path, i)),
            ),
            HashTree::Labeled(l, sub) => {
                match bytes_cmp(l, &path[i]) {
                    ByteOrd::Equal => HashTree::Labeled(
                        copy_bytes(l),
                        Box::new(witness(sub, path, i + 1)),
                    ),
                    _ => HashTree::Pruned(digest(t)),
                }
            },
            HashTree::Leaf(_) => HashTree::Pruned(digest(t)),
            HashTree::Pruned(d) => HashTree::Pruned(copy_bytes(d)),
        }
    }
}

/// Deep copy of a tree, equal to the original in its model.
fn clone_tree(t: &HashTree) -> (r: HashTree)
    ensures
        r@ == t@,
    decreases *t,
{
    match t {
        HashTree::Empty => HashTree::Empty,
        HashTree::Fork(a, b) => HashTree::Fork(
            Box::new(clone_tree(a)),
            Box::new(clone_tree(b)),
        ),
        HashTree::Labeled(l, sub) => HashTree::Labeled(copy_bytes(l), Box::new(clone_tree(sub))),
        HashTree::Leaf(v) => HashTree::Leaf(copy_bytes(v)),
        HashTree::Pruned(d) => HashTree::Pruned(copy_bytes(d)),
    }
}

/// The tree a certification attempt builds: labels along the declared path,
/// the last path segment as the leaf.
pub struct ExprTree {
    pub root: HashTree,
}

impl ExprTree {
    /// A fresh, empty tree.
    pub fn new() -> (r: ExprTree)
        ensures
            r.root@ == TreeV::Empty,
    {
        ExprTree { root: HashTree::Empty }
    }

    /// Insert a full path: every segment but the last is a label, the last
    /// is the leaf content. On a conflict the tree is left unchanged.
    pub fn insert(&mut self, path: &Vec<Vec<u8>>) -> (r: Result<(), TreeError>)
        requires
            path@.len() >= 1,
        ensures
            r is Ok ==> spec_insert(old(self).root@, views_of(path@), 0) == Some(
                final(self).root@,
            ),
            r is Err ==> spec_insert(old(self).root@, views_of(path@), 0) is None
                && final(self).root@ == old(self).root@,
    {
        let mut tmp = HashTree::Empty;
        core::mem::swap(&mut self.root, &mut tmp);
        let (nt, err) = insert_at(tmp, path, 0);
        self.root = nt;
        if err {
            Err(TreeError::Conflict)
        } else {
            Ok(())
        }
    }

    /// The certified data this tree commits to: its root digest.
    pub fn get_certified_data(&self) -> (r: Vec<u8>)
        ensures
            r@ == spec_digest(self.root@),
            !(self.root@ is Pruned) ==> r@.len() == 32,
    {
        digest(&self.root)
    }
}
} // verus!
