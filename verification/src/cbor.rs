//! Canonical binary encoding of trees and declared paths.
//!
//! The wire format is fixed by the protocol: a tree node is a small array
//! tagged by its variant number, byte strings and text strings carry a
//! definite-length header, and a serialized payload opens with the
//! self-describing tag.

use vstd::prelude::*;
use vstd::string::StrSliceExecFns;
use vstd::utf8::encode_utf8;
use crate::tree::{ExprTree, HashTree, TreeV, views_of, witness, spec_witness, spec_digest, append_bytes};

verus! {

/// Header of a definite-length item of the given major type (shifted tag).
pub open spec fn spec_cbor_header(major: u8, n: nat) -> Seq<u8>
    recommends
        n < 0x1_0000_0000,
{
    if n < 24 {
        seq![(major + n) as u8]
    } else if n < 0x100 {
        seq![(major + 24) as u8, n as u8]
    } else if n < 0x1_0000 {
        seq![(major + 25) as u8, (n / 0x100) as u8, (n % 0x100) as u8]
    } else {
        seq![
            (major + 26) as u8,
            ((n / 0x100_0000) % 0x100) as u8,
            ((n / 0x1_0000) % 0x100) as u8,
            ((n / 0x100) % 0x100) as u8,
            (n % 0x100) as u8,
        ]
    }
}

/// A byte string item: major type 2.
pub open spec fn spec_cbor_bytes(b: Seq<u8>) -> Seq<u8> {
    spec_cbor_header(0x40, b.len()) + b
}

/// A text string item: major type 3, over the text's UTF-8 bytes.
pub open spec fn spec_cbor_text(b: Seq<u8>) -> Seq<u8> {
    spec_cbor_header(0x60, b.len()) + b
}

/// The encoding of one tree node: an array whose first element numbers the
/// variant, then its contents.
pub open spec fn spec_cbor_tree(t: TreeV) -> Seq<u8>
    decreases t,
{
    match t {
        TreeV::Empty => seq![0x81u8, 0x00u8],
        TreeV::Fork(l, r) => seq![0x83u8, 0x01u8] + spec_cbor_tree(*l) + spec_cbor_tree(*r),
        TreeV::Labeled(lab, sub) => seq![0x83u8, 0x02u8] + spec_cbor_bytes(lab) + spec_cbor_tree(
            *sub,
        ),
        TreeV::Leaf(v) => seq![0x82u8, 0x03u8] + spec_cbor_bytes(v),
        TreeV::Pruned(d) => seq![0x82u8, 0x04u8] + spec_cbor_bytes(d),
    }
}

/// The self-describing tag that opens a serialized payload.
pub open spec fn spec_cbor_tag() -> Seq<u8> {
    seq![0xd9u8, 0xd9u8, 0xf7u8]
}

/// An array of text strings, one per path segment, over their UTF-8 bytes.
pub open spec fn spec_cbor_text_array(segs: Seq<Seq<u8>>) -> Seq<u8> {
    spec_cbor_header(0x80, segs.len()) + spec_cbor_texts(segs)
}

/// The concatenated text items of an array body.
pub open spec fn spec_cbor_texts(segs: Seq<Seq<u8>>) -> Seq<u8>
    decreases segs.len(),
{
    if segs.len() == 0 {
        Seq::<u8>::empty()
    } else {
        spec_cbor_text(segs[0]) + spec_cbor_texts(segs.skip(1))
    }
}

/// Emit a definite-length header for `n` items or bytes of major type
/// `major`.
fn push_cbor_header(out: &mut Vec<u8>, major: u8, n: usize)
    requires
        major == 0x40 || major == 0x60 || major == 0x80,
        n < 0x1_0000_0000,
    ensures
        final(out)@ == old(out)@ + spec_cbor_header(major, n as nat),
{
    if n < 24 {
        out.push(major + (n as u8));
        proof {
            assert(out@ =~= old(out)@ + spec_cbor_header(major, n as nat));
        }
    } else if n < 0x100 {
        out.push(major + 24);
        out.push(n as u8);
        proof {
            assert(out@ =~= old(out)@ + spec_cbor_header(major, n as nat));
        }
    } else if n < 0x1_0000 {
        out.push(major + 25);
        out.push((n / 0x100) as u8);
        out.push((n % 0x100) as u8);
        proof {
            assert(out@ =~= old(out)@ + spec_cbor_header(major, n as nat));
        }
    } else {
        out.push(major + 26);
        out.push(((n / 0x100_0000) % 0x100) as u8);
        out.push(((n / 0x1_0000) % 0x100) as u8);
        out.push(((n / 0x100) % 0x100) as u8);
        out.push((n % 0x100) as u8);
        proof {
            assert(out@ =~= old(out)@ + spec_cbor_header(major, n as nat));
        }
    }
}

/// Encode one tree node into the output buffer.
fn push_cbor_tree(out: &mut Vec<u8>, t: &HashTree)
    requires
        tree_small(*t),
    ensures
        final(out)@ == old(out)@ + spec_cbor_tree(t@),
    decreases *t,
{
    proof {
        reveal_with_fuel(crate::tree::tree_v, 3);
    }
    match t {
        HashTree::Empty => {
            out.push(0x81);
            out.push(0x00);
            proof {
                assert(out@ =~= old(out)@ + spec_cbor_tree(t@));
            }
        },
        HashTree::Fork(l, r) => {
            out.push(0x83);
            out.push(0x01);
            push_cbor_tree(out, l);
            push_cbor_tree(out, r);
            proof {
                assert(out@ =~= old(out)@ + spec_cbor_tree(t@));
            }
        },
        HashTree::Labeled(lab, sub) => {
            out.push(0x83);
            out.push(0x02);
            push_cbor_header(out, 0x40, lab.len());
            append_bytes(out, lab);
            push_cbor_tree(out, sub);
            proof {
                assert(out@ =~= old(out)@ + spec_cbor_tree(t@));
            }
        },
        HashTree::Leaf(v) => {
            out.push(0x82);
            out.push(0x03);
            push_cbor_header(out, 0x40, v.len());
            append_bytes(out, v);
            proof {
                assert(out@ =~= old(out)@ + spec_cbor_tree(t@));
            }
        },
        HashTree::Pruned(d) => {
            out.push(0x82);
            out.push(0x04);
            push_cbor_header(out, 0x40, d.len());
            append_bytes(out, d);
            proof {
                assert(out@ =~= old(out)@ + spec_cbor_tree(t@));
            }
        },
    }
}

/// Every label, leaf and digest in the tree fits a definite-length header.
pub open spec fn tree_small(t: HashTree) -> bool {
    tree_v_small(t@)
}

/// Encode a whole tree, opened by the self-describing tag.
pub fn tree_to_cbor(t: &HashTree) -> (r: Vec<u8>)
    requires
        tree_small(*t),
    ensures
        r@ == spec_cbor_tag() + spec_cbor_tree(t@),
{
    let mut out: Vec<u8> = Vec::new();
    out.push(0xd9);
    out.push(0xd9);
    out.push(0xf7);
    push_cbor_tree(&mut out, t);
    proof {
        assert(seq![0xd9u8, 0xd9u8, 0xf7u8] =~= spec_cbor_tag());
        assert(out@ =~= spec_cbor_tag() + spec_cbor_tree(t@));
    }
    out
}

/// Serialize a declared path to its canonical bytes: the self-describing
/// tag, then an array of text strings.
pub fn serialize_to_cbor(path: &Vec<String>) -> (r: Vec<u8>)
    requires
        path@.len() < 0x1_0000_0000,
        forall|j: int| 0 <= j < path@.len() ==> encode_utf8(path@[j]@).len() < 0x1_0000_0000,
    ensures
        r@ == spec_cbor_tag() + spec_cbor_text_array(string_bytes(path@)),
{
    let mut out: Vec<u8> = Vec::new();
    out.push(0xd9);
    out.push(0xd9);
    out.push(0xf7);
    push_cbor_header(&mut out, 0x80, path.len());
    proof {
        assert(out@ =~= spec_cbor_tag() + spec_cbor_header(0x80, path@.len() as nat));
        assert(string_bytes(path@).skip(0) =~= string_bytes(path@));
    }
    let mut j: usize = 0;
    while j < path.len()
        invariant
            j <= path@.len(),
            forall|k: int| 0 <= k < path@.len() ==> encode_utf8(path@[k]@).len() < 0x1_0000_0000,
            out@ == spec_cbor_tag() + spec_cbor_header(0x80, path@.len() as nat)
                + spec_cbor_texts_upto(string_bytes(path@), j as int),
        decreases path@.len() - j,
    {
        let bytes = path[j].as_str().as_bytes_vec();
        push_cbor_header(&mut out, 0x60, bytes.len());
        append_bytes(&mut out, &bytes);
        proof {
            lemma_cbor_texts_upto(string_bytes(path@), j + 1);
            assert(string_bytes(path@)[j as int] == encode_utf8(path@[j as int]@));
            assert(out@ =~= spec_cbor_tag() + spec_cbor_header(0x80, path@.len() as nat)
                + spec_cbor_texts_upto(string_bytes(path@), j + 1));
        }
        j = j + 1;
    }
    proof {
        lemma_cbor_texts_full(string_bytes(path@));
        assert(out@ =~= spec_cbor_tag() + spec_cbor_text_array(string_bytes(path@)));
    }
    out
}

/// The UTF-8 byte strings of a sequence of texts.
pub open spec fn string_bytes(s: Seq<String>) -> Seq<Seq<u8>> {
    s.map_values(|x: String| encode_utf8(x@))
}

/// The concatenated text items of the first `n` segments.
pub open spec fn spec_cbor_texts_upto(segs: Seq<Seq<u8>>, n: int) -> Seq<u8>
    decreases n,
{
    if n <= 0 {
        Seq::<u8>::empty()
    } else {
        spec_cbor_texts_upto(segs, n - 1) + spec_cbor_text(segs[n - 1])
    }
}

/// Unrolling the prefix encoding by one segment.
proof fn lemma_cbor_texts_upto(segs: Seq<Seq<u8>>, n: int)
    requires
        0 < n,
    ensures
        spec_cbor_texts_upto(segs, n) == spec_cbor_texts_upto(segs, n - 1) + spec_cbor_text(
            segs[n - 1],
        ),
{
}

/// The prefix encoding of all segments is the array body.
proof fn lemma_cbor_texts_full(segs: Seq<Seq<u8>>)
    ensures
        spec_cbor_texts_upto(segs, segs.len() as int) == spec_cbor_texts(segs),
    decreases segs.len(),
{
    lemma_cbor_texts_prefix(segs, segs.len() as int);
    assert(segs.take(segs.len() as int) =~= segs);
}

/// A prefix of the body equals the recursive front encoding.
proof fn lemma_cbor_texts_prefix(segs: Seq<Seq<u8>>, n: int)
    requires
        0 <= n <= segs.len(),
    ensures
        spec_cbor_texts_upto(segs, n) == spec_cbor_texts(segs.take(n)),
    decreases n,
{
    if n == 0 {
        assert(spec_cbor_texts(segs.take(0)) =~= Seq::<u8>::empty());
    } else {
        lemma_cbor_texts_prefix(segs, n - 1);
        assert(segs.take(n).skip(1) =~= segs.skip(1).take(n - 1));
        lemma_cbor_texts_front(segs.take(n));
        assert(segs.take(n)[0] == segs[0]);
        assert(segs.take(n - 1) =~= segs.take(n).take(n - 1));
        assert(spec_cbor_texts_upto(segs, n) =~= spec_cbor_texts(segs.take(n)));
    }
}

/// The body encoding splits off its last segment.
proof fn lemma_cbor_texts_front(segs: Seq<Seq<u8>>)
    requires
        segs.len() > 0,
    ensures
        spec_cbor_texts(segs) == spec_cbor_texts(segs.take(segs.len() - 1)) + spec_cbor_text(
            segs[segs.len() - 1],
        ),
    decreases segs.len(),
{
    if segs.len() == 1 {
        assert(spec_cbor_texts(segs.skip(1)) =~= Seq::<u8>::empty());
        assert(spec_cbor_texts(segs.take(0)) =~= Seq::<u8>::empty());
        assert(spec_cbor_texts(segs) =~= spec_cbor_texts(segs.take(0)) + spec_cbor_text(segs[0]));
    } else {
        lemma_cbor_texts_front(segs.skip(1));
        assert(segs.take(segs.len() - 1).skip(1) =~= segs.skip(1).take(segs.len() - 2));
        assert(segs.skip(1)[segs.len() - 2] == segs[segs.len() - 1]);
        assert(spec_cbor_texts(segs) =~= spec_cbor_texts(segs.take(segs.len() - 1))
            + spec_cbor_text(segs[segs.len() - 1]));
    }
}

impl ExprTree {
    /// Serialize the pruned witness for one declared path: nodes on the path
    /// verbatim, everything else collapsed to its digest.
    pub fn serialize_to_cbor(&self, path: &Vec<Vec<u8>>) -> (r: Vec<u8>)
        requires
            tree_small_witness(self.root@, views_of(path@), 0),
        ensures
            r@ == spec_cbor_tag() + spec_cbor_tree(spec_witness(self.root@, views_of(path@), 0)),
    {
        let w = witness(&self.root, path, 0);
        tree_to_cbor(&w)
    }
}

/// The witness of the tree fits definite-length headers.
pub open spec fn tree_small_witness(t: TreeV, path: Seq<Seq<u8>>, i: int) -> bool {
    tree_v_small(spec_witness(t, path, i))
}

/// Check that every byte string in the tree fits a definite-length header.
pub fn tree_is_small(t: &HashTree) -> (b: bool)
    ensures
        b == tree_v_small(t@),
    decreases *t,
{
    proof {
        reveal_with_fuel(crate::tree::tree_v, 2);
    }
    match t {
        HashTree::Empty => true,
        HashTree::Fork(l, r) => {
            let bl = tree_is_small(l);
            let br = tree_is_small(r);
            bl && br
        },
        HashTree::Labeled(lab, sub) => (lab.len() as u64) < 0x1_0000_0000u64 && tree_is_small(sub),
        HashTree::Leaf(v) => (v.len() as u64) < 0x1_0000_0000u64,
        HashTree::Pruned(d) => (d.len() as u64) < 0x1_0000_0000u64,
    }
}

/// Every byte string in a tree model fits a definite-length header.
pub open spec fn tree_v_small(t: TreeV) -> bool
    decreases t,
{
    match t {
        TreeV::Empty => true,
        TreeV::Fork(l, r) => tree_v_small(*l) && tree_v_small(*r),
        TreeV::Labeled(lab, sub) => lab.len() < 0x1_0000_0000 && tree_v_small(*sub),
        TreeV::Leaf(v) => v.len() < 0x1_0000_0000,
        TreeV::Pruned(d) => d.len() < 0x1_0000_0000,
    }
}

/// Decode a definite-length byte string item at `pos`.
pub open spec fn spec_cbor_decode_bytes(s: Seq<u8>, pos: int) -> Option<(Seq<u8>, int)> {
    if pos < 0 || pos >= s.len() {
        None
    } else {
        let b = s[pos];
        if 0x40 <= b && b < 0x58 {
            let n = b - 0x40;
            if pos + 1 + n <= s.len() {
                Some((s.subrange(pos + 1, pos + 1 + n), pos + 1 + n))
            } else {
                None
            }
        } else if b == 0x58 {
            if pos + 2 <= s.len() && pos + 2 + s[pos + 1] <= s.len() {
                Some((s.subrange(pos + 2, pos + 2 + s[pos + 1]), pos + 2 + s[pos + 1]))
            } else {
                None
            }
        } else if b == 0x59 {
            if pos + 3 <= s.len() {
                let n = s[pos + 1] * 0x100 + s[pos + 2];
                if pos + 3 + n <= s.len() {
                    Some((s.subrange(pos + 3, pos + 3 + n), pos + 3 + n))
                } else {
                    None
                }
            } else {
                None
            }
        } else if b == 0x5a {
            if pos + 5 <= s.len() {
                let n = s[pos + 1] * 0x100_0000 + s[pos + 2] * 0x1_0000 + s[pos + 3] * 0x100 + s[
                    pos + 4
                ];
                if pos + 5 + n <= s.len() {
                    Some((s.subrange(pos + 5, pos + 5 + n), pos + 5 + n))
                } else {
                    None
                }
            } else {
                None
            }
        } else {
            None
        }
    }
}

/// Decode one tree node at `pos`, spending one unit of recursion allowance
/// per node.
pub open spec fn spec_cbor_decode_tree(s: Seq<u8>, pos: int, fuel: nat) -> Option<(TreeV, int)>
    decreases fuel,
{
    if fuel == 0 || pos < 0 || pos + 2 > s.len() {
        None
    } else if s[pos] == 0x81 {
        if s[pos + 1] == 0x00 {
            Some((TreeV::Empty, pos + 2))
        } else {
            None
        }
    } else if s[pos] == 0x83 && s[pos + 1] == 0x01 {
        match spec_cbor_decode_tree(s, pos + 2, (fuel - 1) as nat) {
            Some((l, p2)) => match spec_cbor_decode_tree(s, p2, (fuel - 1) as nat) {
                Some((r, p3)) => Some((TreeV::Fork(Box::new(l), Box::new(r)), p3)),
                None => None,
            },
            None => None,
        }
    } else if s[pos] == 0x83 && s[pos + 1] == 0x02 {
        match spec_cbor_decode_bytes(s, pos + 2) {
            Some((lab, p2)) => match spec_cbor_decode_tree(s, p2, (fuel - 1) as nat) {
                Some((sub, p3)) => Some((TreeV::Labeled(lab, Box::new(sub)), p3)),
                None => None,
            },
            None => None,
        }
    } else if s[pos] == 0x82 && s[pos + 1] == 0x03 {
        match spec_cbor_decode_bytes(s, pos + 2) {
            Some((v, p2)) => Some((TreeV::Leaf(v), p2)),
            None => None,
        }
    } else if s[pos] == 0x82 && s[pos + 1] == 0x04 {
        match spec_cbor_decode_bytes(s, pos + 2) {
            Some((d, p2)) => Some((TreeV::Pruned(d), p2)),
            None => None,
        }
    } else {
        None
    }
}

/// Re-expansion of a serialized tree: the self-describing tag, then one
/// node covering the whole payload.
pub open spec fn spec_expand(s: Seq<u8>) -> Option<TreeV> {
    if s.len() >= 3 && s.subrange(0, 3) == spec_cbor_tag() {
        match spec_cbor_decode_tree(s, 3, s.len() as nat) {
            Some((t, end)) => if end == s.len() {
                Some(t)
            } else {
                None
            },
            None => None,
        }
    } else {
        None
    }
}

/// A subrange equal to a concatenation splits into subranges equal to the
/// parts.
proof fn lemma_subrange_split(s: Seq<u8>, pos: int, a: Seq<u8>, b: Seq<u8>)
    requires
        0 <= pos,
        pos + a.len() + b.len() <= s.len(),
        s.subrange(pos, pos + a.len() + b.len()) == a + b,
    ensures
        s.subrange(pos, pos + a.len()) == a,
        s.subrange(pos + a.len(), pos + a.len() + b.len()) == b,
{
    let whole = s.subrange(pos, pos + a.len() + b.len());
    assert forall|j: int| 0 <= j < a.len() implies s.subrange(pos, pos + a.len())[j] == a[j] by {
        assert(whole[j] == (a + b)[j]);
    }
    assert(s.subrange(pos, pos + a.len()) =~= a);
    assert forall|j: int| 0 <= j < b.len() implies s.subrange(
        pos + a.len(),
        pos + a.len() + b.len(),
    )[j] == b[j] by {
        assert(whole[a.len() + j] == (a + b)[a.len() + j]);
    }
    assert(s.subrange(pos + a.len(), pos + a.len() + b.len()) =~= b);
}

/// Decoding a byte string's encoding at its position returns the bytes and
/// the position right after them.
proof fn lemma_cbor_bytes_rt(b: Seq<u8>, s: Seq<u8>, pos: int)
    requires
        b.len() < 0x1_0000_0000,
        0 <= pos,
        pos + spec_cbor_bytes(b).len() <= s.len(),
        s.subrange(pos, pos + spec_cbor_bytes(b).len()) == spec_cbor_bytes(b),
    ensures
        spec_cbor_decode_bytes(s, pos) == Some((b, pos + spec_cbor_bytes(b).len())),
{
    let e = spec_cbor_bytes(b);
    let h = spec_cbor_header(0x40, b.len());
    let n = b.len() as int;
    lemma_subrange_split(s, pos, h, b);
    let hs = s.subrange(pos, pos + h.len());
    assert forall|j: int| pos <= j < pos + h.len() implies s[j] == h[j - pos] by {
        assert(hs[j - pos] == s[j]);
    }
    if n < 24 {
        assert(s[pos] == 0x40 + n);
    } else if n < 0x100 {
        assert(s[pos] == 0x58);
        assert(s[pos + 1] == n);
    } else if n < 0x1_0000 {
        assert(s[pos] == 0x59);
        assert(s[pos + 1] == n / 0x100);
        assert(s[pos + 2] == n % 0x100);
        assert((n / 0x100) * 0x100 + n % 0x100 == n);
    } else {
        let v = n as u32;
        assert(s[pos] == 0x5a);
        assert(s[pos + 1] == (n / 0x100_0000) % 0x100);
        assert(s[pos + 2] == (n / 0x1_0000) % 0x100);
        assert(s[pos + 3] == (n / 0x100) % 0x100);
        assert(s[pos + 4] == n % 0x100);
        assert(((v / 0x100_0000) % 0x100) * 0x100_0000 + ((v / 0x1_0000) % 0x100) * 0x1_0000 + ((v
            / 0x100) % 0x100) * 0x100 + v % 0x100 == v) by (bit_vector);
    }
}

/// The encoding of a node is at least two bytes long.
proof fn lemma_cbor_tree_len(t: TreeV)
    ensures
        spec_cbor_tree(t).len() >= 2,
    decreases t,
{
}

/// Decoding a node's encoding at its position, with at least as much
/// recursion allowance as the encoding is long, returns that node and the
/// position right after it.
proof fn lemma_cbor_tree_rt(t: TreeV, s: Seq<u8>, pos: int, fuel: nat)
    requires
        tree_v_small(t),
        0 <= pos,
        pos + spec_cbor_tree(t).len() <= s.len(),
        s.subrange(pos, pos + spec_cbor_tree(t).len()) == spec_cbor_tree(t),
        fuel >= spec_cbor_tree(t).len(),
    ensures
        spec_cbor_decode_tree(s, pos, fuel) == Some((t, pos + spec_cbor_tree(t).len())),
    decreases t,
{
    let e = spec_cbor_tree(t);
    match t {
        TreeV::Empty => {
            assert(s[pos] == e[0] && s[pos + 1] == e[1]) by {
                assert(s.subrange(pos, pos + e.len())[0] == s[pos]);
                assert(s.subrange(pos, pos + e.len())[1] == s[pos + 1]);
            }
        },
        TreeV::Fork(l, r) => {
            let el = spec_cbor_tree(*l);
            let er = spec_cbor_tree(*r);
            lemma_cbor_tree_len(*l);
            lemma_cbor_tree_len(*r);
            let head = seq![0x83u8, 0x01u8];
            assert(e =~= (head + el) + er);
            lemma_subrange_split(s, pos, head + el, er);
            lemma_subrange_split(s, pos, head, el);
            assert(s[pos] == 0x83 && s[pos + 1] == 0x01) by {
                assert(s.subrange(pos, pos + 2)[0] == s[pos]);
                assert(s.subrange(pos, pos + 2)[1] == s[pos + 1]);
            }
            lemma_cbor_tree_rt(*l, s, pos + 2, (fuel - 1) as nat);
            lemma_cbor_tree_rt(*r, s, pos + 2 + el.len(), (fuel - 1) as nat);
        },
        TreeV::Labeled(lab, sub) => {
            let eb = spec_cbor_bytes(lab);
            let es = spec_cbor_tree(*sub);
            lemma_cbor_tree_len(*sub);
            let head = seq![0x83u8, 0x02u8];
            assert(e =~= (head + eb) + es);
            lemma_subrange_split(s, pos, head + eb, es);
            lemma_subrange_split(s, pos, head, eb);
            assert(s[pos] == 0x83 && s[pos + 1] == 0x02) by {
                assert(s.subrange(pos, pos + 2)[0] == s[pos]);
                assert(s.subrange(pos, pos + 2)[1] == s[pos + 1]);
            }
            lemma_cbor_bytes_rt(lab, s, pos + 2);
            lemma_cbor_tree_rt(*sub, s, pos + 2 + eb.len(), (fuel - 1) as nat);
        },
        TreeV::Leaf(v) => {
            let eb = spec_cbor_bytes(v);
            let head = seq![0x82u8, 0x03u8];
            assert(e =~= head + eb);
            lemma_subrange_split(s, pos, head, eb);
            assert(s[pos] == 0x82 && s[pos + 1] == 0x03) by {
                assert(s.subrange(pos, pos + 2)[0] == s[pos]);
                assert(s.subrange(pos, pos + 2)[1] == s[pos + 1]);
            }
            lemma_cbor_bytes_rt(v, s, pos + 2);
        },
        TreeV::Pruned(d) => {
            let eb = spec_cbor_bytes(d);
            let head = seq![0x82u8, 0x04u8];
            assert(e =~= head + eb);
            lemma_subrange_split(s, pos, head, eb);
            assert(s[pos] == 0x82 && s[pos + 1] == 0x04) by {
                assert(s.subrange(pos, pos + 2)[0] == s[pos]);
                assert(s.subrange(pos, pos + 2)[1] == s[pos + 1]);
            }
            lemma_cbor_bytes_rt(d, s, pos + 2);
        },
    }
}

/// Serialization is sound: re-expanding a serialized witness yields the
/// witness itself, and the witness of any queried path carries the same
/// root digest as the full tree. Together: the root digest of the
/// re-expanded serialization equals the root digest of the original tree.
pub proof fn lemma_serialize_expand_round_trip(t: TreeV, path: Seq<Seq<u8>>)
    requires
        tree_v_small(spec_witness(t, path, 0)),
    ensures
        spec_expand(spec_cbor_tag() + spec_cbor_tree(spec_witness(t, path, 0))) == Some(
            spec_witness(t, path, 0),
        ),
        spec_digest(spec_witness(t, path, 0)) == spec_digest(t),
{
    let w = spec_witness(t, path, 0);
    let s = spec_cbor_tag() + spec_cbor_tree(w);
    assert(s.subrange(0, 3) =~= spec_cbor_tag());
    assert(s.subrange(3, 3 + spec_cbor_tree(w).len() as int) =~= spec_cbor_tree(w));
    lemma_cbor_tree_len(w);
    lemma_cbor_tree_rt(w, s, 3, s.len() as nat);
    crate::tree::lemma_witness_digest(t, path, 0);
}

/// Cut a region out of the input.
fn bytes_range(s: &Vec<u8>, from: usize, to: usize) -> (r: Vec<u8>)
    requires
        from <= to <= s@.len(),
    ensures
        r@ == s@.subrange(from as int, to as int),
{
    let mut r: Vec<u8> = Vec::new();
    let mut i = from;
    while i < to
        invariant
            from <= i <= to <= s@.len(),
            r@ == s@.subrange(from as int, i as int),
        decreases to - i,
    {
        r.push(s[i]);
        proof {
            assert(r@ =~= s@.subrange(from as int, i + 1));
        }
        i = i + 1;
    }
    r
}

/// Read a definite-length byte string item.
fn cbor_read_bytes(s: &Vec<u8>, pos: usize) -> (r: Option<(Vec<u8>, usize)>)
    ensures
        r matches Some(v) ==> spec_cbor_decode_bytes(s@, pos as int) == Some((v.0@, v.1 as int))
            && v.1 <= s@.len(),
        r is None ==> spec_cbor_decode_bytes(s@, pos as int) is None,
{
    if pos >= s.len() {
        return None;
    }
    let b = s[pos];
    if 0x40 <= b && b < 0x58 {
        let n = (b - 0x40) as usize;
        if n <= s.len() - (pos + 1) {
            Some((bytes_range(s, pos + 1, pos + 1 + n), pos + 1 + n))
        } else {
            None
        }
    } else if b == 0x58 {
        if s.len() < 2 || pos > s.len() - 2 {
            return None;
        }
        let n = s[pos + 1] as usize;
        if n <= s.len() - (pos + 2) {
            Some((bytes_range(s, pos + 2, pos + 2 + n), pos + 2 + n))
        } else {
            None
        }
    } else if b == 0x59 {
        if s.len() < 3 || pos > s.len() - 3 {
            return None;
        }
        let n: usize = (s[pos + 1] as usize) * 0x100 + (s[pos + 2] as usize);
        if n <= s.len() - (pos + 3) {
            Some((bytes_range(s, pos + 3, pos + 3 + n), pos + 3 + n))
        } else {
            None
        }
    } else if b == 0x5a {
        if s.len() < 5 || pos > s.len() - 5 {
            return None;
        }
        let n64: u64 = (s[pos + 1] as u64) * 0x100_0000 + (s[pos + 2] as u64) * 0x1_0000 + (s[pos
            + 3] as u64) * 0x100 + (s[pos + 4] as u64);
        let rem = s.len() - (pos + 5);
        if n64 <= rem as u64 {
            let n = n64 as usize;
            Some((bytes_range(s, pos + 5, pos + 5 + n), pos + 5 + n))
        } else {
            None
        }
    } else {
        None
    }
}

/// Read one tree node.
fn cbor_read_tree(s: &Vec<u8>, pos: usize, fuel: usize) -> (r: Option<(HashTree, usize)>)
    ensures
        r matches Some(v) ==> spec_cbor_decode_tree(s@, pos as int, fuel as nat) == Some(
            (v.0@, v.1 as int),
        ) && v.1 <= s@.len(),
        r is None ==> spec_cbor_decode_tree(s@, pos as int, fuel as nat) is None,
    decreases fuel,
{
    proof {
        reveal_with_fuel(crate::tree::tree_v, 2);
    }
    if fuel == 0 {
        return None;
    }
    if s.len() < 2 || pos > s.len() - 2 {
        return None;
    }
    let b0 = s[pos];
    let b1 = s[pos + 1];
    if b0 == 0x81 {
        if b1 == 0x00 {
            Some((HashTree::Empty, pos + 2))
        } else {
            None
        }
    } else if b0 == 0x83 && b1 == 0x01 {
        match cbor_read_tree(s, pos + 2, fuel - 1) {
            Some((l, p2)) => match cbor_read_tree(s, p2, fuel - 1) {
                Some((r, p3)) => Some((HashTree::Fork(Box::new(l), Box::new(r)), p3)),
                None => None,
            },
            None => None,
        }
    } else if b0 == 0x83 && b1 == 0x02 {
        match cbor_read_bytes(s, pos + 2) {
            Some((lab, p2)) => match cbor_read_tree(s, p2, fuel - 1) {
                Some((sub, p3)) => Some((HashTree::Labeled(lab, Box::new(sub)), p3)),
                None => None,
            },
            None => None,
        }
    } else if b0 == 0x82 && b1 == 0x03 {
        match cbor_read_bytes(s, pos + 2) {
            Some((v, p2)) => Some((HashTree::Leaf(v), p2)),
            None => None,
        }
    } else if b0 == 0x82 && b1 == 0x04 {
        match cbor_read_bytes(s, pos + 2) {
            Some((d, p2)) => Some((HashTree::Pruned(d), p2)),
            None => None,
        }
    } else {
        None
    }
}

/// Re-expand a serialized tree: the strict inverse of `tree_to_cbor`.
pub fn expand(bytes: &Vec<u8>) -> (r: Option<HashTree>)
    ensures
        r matches Some(t) ==> spec_expand(bytes@) == Some(t@),
        r is None ==> spec_expand(bytes@) is None,
{
    if bytes.len() < 3 || bytes[0] != 0xd9 || bytes[1] != 0xd9 || bytes[2] != 0xf7 {
        proof {
            if bytes@.len() >= 3 {
                if bytes@.subrange(0, 3) == spec_cbor_tag() {
                    assert(bytes@[0] == bytes@.subrange(0, 3)[0]);
                    assert(bytes@[1] == bytes@.subrange(0, 3)[1]);
                    assert(bytes@[2] == bytes@.subrange(0, 3)[2]);
                }
            }
        }
        return None;
    }
    proof {
        assert(bytes@.subrange(0, 3) =~= spec_cbor_tag());
    }
    match cbor_read_tree(bytes, 3, bytes.len()) {
        Some((t, end)) => {
            if end == bytes.len() {
                Some(t)
            } else {
                None
            }
        },
        None => None,
    }
}

/// Inserting one path into a fresh tree always succeeds and builds a bare
/// chain: the labels in order, ending in the leaf. The witness of that same
/// path is the whole chain (nothing is off the path, so nothing is pruned),
/// and the chain fits definite-length headers exactly when every path
/// segment does.
pub proof fn lemma_insert_into_empty(path: Seq<Seq<u8>>, i: int)
    requires
        0 <= i < path.len(),
    ensures
        crate::tree::spec_insert(TreeV::Empty, path, i) is Some,
        spec_witness(
            crate::tree::spec_insert(TreeV::Empty, path, i)->Some_0,
            path,
            i,
        ) == crate::tree::spec_insert(TreeV::Empty, path, i)->Some_0,
        tree_v_small(crate::tree::spec_insert(TreeV::Empty, path, i)->Some_0) <==> (forall|j: int|
            i <= j < path.len() ==> path[j].len() < 0x1_0000_0000),
        !(crate::tree::spec_insert(TreeV::Empty, path, i)->Some_0 is Pruned),
    decreases path.len() - i,
{
    let end = path.len() - 1;
    if i >= end {
        let res = crate::tree::spec_insert(TreeV::Empty, path, i)->Some_0;
        assert(res == TreeV::Leaf(path[end]));
    } else {
        lemma_insert_into_empty(path, i + 1);
        let sub = crate::tree::spec_insert(TreeV::Empty, path, i + 1)->Some_0;
        let res = crate::tree::spec_insert(TreeV::Empty, path, i)->Some_0;
        assert(res == TreeV::Labeled(path[i], Box::new(sub)));
        assert(spec_witness(res, path, i) == TreeV::Labeled(
            path[i],
            Box::new(spec_witness(sub, path, i + 1)),
        ));
        assert(tree_v_small(res) <==> (path[i].len() < 0x1_0000_0000 && tree_v_small(sub)));
        if tree_v_small(res) {
            assert(forall|j: int| i <= j < path.len() ==> path[j].len() < 0x1_0000_0000) by {
                assert(forall|j: int|
                    i + 1 <= j < path.len() ==> path[j].len() < 0x1_0000_0000);
            }
        }
    }
}

} // verus!
