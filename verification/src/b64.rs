//! Base-64 wrapping of the header's byte blobs.
//!
//! The codec works on ASCII byte strings: `spec_b64_encode` states the exact
//! output for every input, `spec_b64_decode` is its strict inverse, and
//! `lemma_b64_round_trip` proves that decoding an encoding returns the
//! original bytes.

use vstd::prelude::*;

verus! {

/// The byte code standing for one 6-bit group in the base-64 alphabet.
pub open spec fn spec_b64_code(x: u8) -> u8
    recommends
        x < 64,
{
    if x < 26 {
        (65 + x) as u8
    } else if x < 52 {
        (97 + (x - 26)) as u8
    } else if x < 62 {
        (48 + (x - 52)) as u8
    } else if x == 62 {
        43
    } else {
        47
    }
}

/// The 6-bit group a byte of the base-64 alphabet stands for, `None` outside
/// the alphabet (in particular for the padding byte `=`).
pub open spec fn spec_b64_val(c: u8) -> Option<u8> {
    if 65 <= c && c <= 90 {
        Some((c - 65) as u8)
    } else if 97 <= c && c <= 122 {
        Some((c - 97 + 26) as u8)
    } else if 48 <= c && c <= 57 {
        Some((c - 48 + 52) as u8)
    } else if c == 43 {
        Some(62u8)
    } else if c == 47 {
        Some(63u8)
    } else {
        None
    }
}

/// Base-64 encoding of a byte string, with `=` padding on the final group.
pub open spec fn spec_b64_encode(s: Seq<u8>) -> Seq<u8>
    decreases s.len(),
{
    if s.len() == 0 {
        Seq::<u8>::empty()
    } else if s.len() == 1 {
        let b0 = s[0];
        seq![
            spec_b64_code(b0 >> 2),
            spec_b64_code((b0 & 3) << 4),
            61u8,
            61u8,
        ]
    } else if s.len() == 2 {
        let b0 = s[0];
        let b1 = s[1];
        seq![
            spec_b64_code(b0 >> 2),
            spec_b64_code(((b0 & 3) << 4) | (b1 >> 4)),
            spec_b64_code((b1 & 15) << 2),
            61u8,
        ]
    } else {
        let b0 = s[0];
        let b1 = s[1];
        let b2 = s[2];
        seq![
            spec_b64_code(b0 >> 2),
            spec_b64_code(((b0 & 3) << 4) | (b1 >> 4)),
            spec_b64_code(((b1 & 15) << 2) | (b2 >> 6)),
            spec_b64_code(b2 & 63),
        ] + spec_b64_encode(s.skip(3))
    }
}

/// Strict base-64 decoding: `Some` exactly on canonical encodings, with
/// padding admitted only in the final group and forced padding bits zero.
pub open spec fn spec_b64_decode(s: Seq<u8>) -> Option<Seq<u8>>
    decreases s.len(),
{
    if s.len() == 0 {
        Some(Seq::<u8>::empty())
    } else if s.len() < 4 {
        None
    } else if s.len() == 4 {
        spec_b64_decode_last(s[0], s[1], s[2], s[3])
    } else {
        match (spec_b64_val(s[0]), spec_b64_val(s[1]), spec_b64_val(s[2]), spec_b64_val(s[3])) {
            (Some(v0), Some(v1), Some(v2), Some(v3)) => match spec_b64_decode(s.skip(4)) {
                Some(rest) => Some(
                    seq![
                        (v0 << 2) | (v1 >> 4),
                        ((v1 & 15) << 4) | (v2 >> 2),
                        ((v2 & 3) << 6) | v3,
                    ] + rest,
                ),
                None => None,
            },
            _ => None,
        }
    }
}

/// Decoding of the final group of four bytes, where padding may stand.
pub open spec fn spec_b64_decode_last(c0: u8, c1: u8, c2: u8, c3: u8) -> Option<Seq<u8>> {
    if c3 == 61 && c2 == 61 {
        match (spec_b64_val(c0), spec_b64_val(c1)) {
            (Some(v0), Some(v1)) => if v1 & 15 == 0 {
                Some(seq![(v0 << 2) | (v1 >> 4)])
            } else {
                None
            },
            _ => None,
        }
    } else if c3 == 61 {
        match (spec_b64_val(c0), spec_b64_val(c1), spec_b64_val(c2)) {
            (Some(v0), Some(v1), Some(v2)) => if v2 & 3 == 0 {
                Some(seq![(v0 << 2) | (v1 >> 4), ((v1 & 15) << 4) | (v2 >> 2)])
            } else {
                None
            },
            _ => None,
        }
    } else {
        match (spec_b64_val(c0), spec_b64_val(c1), spec_b64_val(c2), spec_b64_val(c3)) {
            (Some(v0), Some(v1), Some(v2), Some(v3)) => Some(
                seq![
                    (v0 << 2) | (v1 >> 4),
                    ((v1 & 15) << 4) | (v2 >> 2),
                    ((v2 & 3) << 6) | v3,
                ],
            ),
            _ => None,
        }
    }
}

/// A byte that base-64 encoding can emit: an alphabet byte or the padding `=`.
pub open spec fn is_b64_byte(c: u8) -> bool {
    spec_b64_val(c) is Some || c == 61
}

/// Every alphabet byte decodes back to the group it encodes, and no alphabet
/// byte collides with the padding byte.
pub proof fn lemma_b64_code_val(x: u8)
    requires
        x < 64,
    ensures
        spec_b64_val(spec_b64_code(x)) == Some(x),
        spec_b64_code(x) != 61,
{
}

/// Encoding emits only alphabet and padding bytes; none of them is a colon,
/// a comma, an equals sign other than padding, or any header punctuation.
pub proof fn lemma_b64_encode_bytes(s: Seq<u8>)
    ensures
        forall|i: int|
            0 <= i < spec_b64_encode(s).len() ==> (is_b64_byte(#[trigger] spec_b64_encode(s)[i])
                && spec_b64_encode(s)[i] != 58),
    decreases s.len(),
{
    let e = spec_b64_encode(s);
    if s.len() == 0 {
    } else if s.len() == 1 {
        lemma_group_vals(s[0], 0, 0);
        lemma_b64_code_val(s[0] >> 2);
        lemma_b64_code_val((s[0] & 3) << 4);
    } else if s.len() == 2 {
        lemma_group_vals(s[0], s[1], 0);
        lemma_b64_code_val(s[0] >> 2);
        lemma_b64_code_val(((s[0] & 3) << 4) | (s[1] >> 4));
        lemma_b64_code_val((s[1] & 15) << 2);
    } else {
        lemma_group_vals(s[0], s[1], s[2]);
        lemma_b64_code_val(s[0] >> 2);
        lemma_b64_code_val(((s[0] & 3) << 4) | (s[1] >> 4));
        lemma_b64_code_val(((s[1] & 15) << 2) | (s[2] >> 6));
        lemma_b64_code_val(s[2] & 63);
        lemma_b64_encode_bytes(s.skip(3));
        assert forall|i: int| 0 <= i < e.len() implies (is_b64_byte(#[trigger] e[i]) && e[i]
            != 58) by {
            if i >= 4 {
                assert(e[i] == spec_b64_encode(s.skip(3))[i - 4]);
            }
        }
    }
}

/// Encoded length: four bytes for every started group of three.
pub proof fn lemma_b64_encode_len(s: Seq<u8>)
    ensures
        spec_b64_encode(s).len() == 4 * ((s.len() + 2) / 3),
        spec_b64_encode(s).len() % 4 == 0,
    decreases s.len(),
{
    if s.len() >= 3 {
        lemma_b64_encode_len(s.skip(3));
    }
}

/// Strict decoding undoes encoding: the codec round-trips exactly.
pub proof fn lemma_b64_round_trip(b: Seq<u8>)
    ensures
        spec_b64_decode(spec_b64_encode(b)) == Some(b),
    decreases b.len(),
{
    let e = spec_b64_encode(b);
    if b.len() == 0 {
        assert(spec_b64_decode(e) == Some(b));
    } else if b.len() == 1 {
        let b0 = b[0];
        lemma_group_vals(b0, 0, 0);
        lemma_b64_code_val(b0 >> 2);
        lemma_b64_code_val((b0 & 3) << 4);
        assert(((b0 & 3) << 4) & 15 == 0) by (bit_vector);
        assert(((b0 >> 2) << 2) | ((((b0 & 3) << 4)) >> 4) == b0) by (bit_vector);
        assert(spec_b64_decode(e)->Some_0 =~= b);
    } else if b.len() == 2 {
        let b0 = b[0];
        let b1 = b[1];
        lemma_group_vals(b0, b1, 0);
        lemma_b64_code_val(b0 >> 2);
        lemma_b64_code_val(((b0 & 3) << 4) | (b1 >> 4));
        lemma_b64_code_val((b1 & 15) << 2);
        assert(((b1 & 15) << 2) & 3 == 0) by (bit_vector);
        assert(((b0 >> 2) << 2) | ((((b0 & 3) << 4) | (b1 >> 4)) >> 4) == b0) by (bit_vector);
        assert((((((b0 & 3) << 4) | (b1 >> 4)) & 15) << 4) | (((b1 & 15) << 2) >> 2) == b1)
            by (bit_vector);
        assert(spec_b64_decode(e)->Some_0 =~= b);
    } else {
        let b0 = b[0];
        let b1 = b[1];
        let b2 = b[2];
        let rest = b.skip(3);
        lemma_group_vals(b0, b1, b2);
        lemma_b64_code_val(b0 >> 2);
        lemma_b64_code_val(((b0 & 3) << 4) | (b1 >> 4));
        lemma_b64_code_val(((b1 & 15) << 2) | (b2 >> 6));
        lemma_b64_code_val(b2 & 63);
        lemma_b64_round_trip(rest);
        lemma_b64_encode_len(rest);
        assert(((b0 >> 2) << 2) | ((((b0 & 3) << 4) | (b1 >> 4)) >> 4) == b0) by (bit_vector);
        assert((((((b0 & 3) << 4) | (b1 >> 4)) & 15) << 4) | ((((b1 & 15) << 2) | (b2 >> 6)) >> 2)
            == b1) by (bit_vector);
        assert((((((b1 & 15) << 2) | (b2 >> 6)) & 3) << 6) | (b2 & 63) == b2) by (bit_vector);
        if rest.len() == 0 {
            assert(e.len() == 4);
            assert(spec_b64_decode_last(e[0], e[1], e[2], e[3])->Some_0 =~= b);
        } else {
            assert(e.len() > 4);
            assert(e.skip(4) =~= spec_b64_encode(rest));
            assert(spec_b64_decode(e)->Some_0 =~= b);
        }
    }
}

/// The 6-bit groups cut out of a three-byte chunk all lie below 64.
proof fn lemma_group_vals(b0: u8, b1: u8, b2: u8)
    ensures
        b0 >> 2 < 64,
        (b0 & 3) << 4 < 64,
        ((b0 & 3) << 4) | (b1 >> 4) < 64,
        (b1 & 15) << 2 < 64,
        ((b1 & 15) << 2) | (b2 >> 6) < 64,
        b2 & 63 < 64,
{
    assert(b0 >> 2 < 64 && (b0 & 3) << 4 < 64 && (((b0 & 3) << 4) | (b1 >> 4)) < 64 && (b1 & 15)
        << 2 < 64 && (((b1 & 15) << 2) | (b2 >> 6)) < 64 && b2 & 63 < 64) by (bit_vector);
}

fn b64_code(x: u8) -> (r: u8)
    requires
        x < 64,
    ensures
        r == spec_b64_code(x),
{
    if x < 26 {
        65 + x
    } else if x < 52 {
        97 + (x - 26)
    } else if x < 62 {
        48 + (x - 52)
    } else if x == 62 {
        43
    } else {
        47
    }
}

fn b64_val(c: u8) -> (r: Option<u8>)
    ensures
        r == spec_b64_val(c),
{
    if 65 <= c && c <= 90 {
        Some(c - 65)
    } else if 97 <= c && c <= 122 {
        Some(c - 97 + 26)
    } else if 48 <= c && c <= 57 {
        Some(c - 48 + 52)
    } else if c == 43 {
        Some(62)
    } else if c == 47 {
        Some(63)
    } else {
        None
    }
}

/// `spec_b64_encode` splits over a prefix of whole groups.
proof fn lemma_b64_encode_append(a: Seq<u8>, b: Seq<u8>)
    requires
        a.len() % 3 == 0,
    ensures
        spec_b64_encode(a + b) == spec_b64_encode(a) + spec_b64_encode(b),
    decreases a.len(),
{
    if a.len() == 0 {
        assert(a + b =~= b);
        assert(spec_b64_encode(a) + spec_b64_encode(b) =~= spec_b64_encode(b));
    } else {
        assert((a + b).skip(3) =~= a.skip(3) + b);
        lemma_b64_encode_append(a.skip(3), b);
        if b.len() == 0 {
            assert(a + b =~= a);
        } else {
            assert((a + b).len() >= 3);
        }
        assert(spec_b64_encode(a + b) =~= spec_b64_encode(a) + spec_b64_encode(b));
    }
}

/// Base-64 encode a byte string.
pub fn b64_encode(s: &Vec<u8>) -> (r: Vec<u8>)
    ensures
        r@ == spec_b64_encode(s@),
{
    let mut out: Vec<u8> = Vec::new();
    let mut i: usize = 0;
    while s.len() - i >= 3
        invariant
            i % 3 == 0,
            i <= s.len(),
            out@ == spec_b64_encode(s@.take(i as int)),
        decreases s.len() - i,
    {
        let b0 = s[i];
        let b1 = s[i + 1];
        let b2 = s[i + 2];
        proof {
            lemma_group_vals(b0, b1, b2);
        }
        out.push(b64_code(b0 >> 2));
        out.push(b64_code(((b0 & 3) << 4) | (b1 >> 4)));
        out.push(b64_code(((b1 & 15) << 2) | (b2 >> 6)));
        out.push(b64_code(b2 & 63));
        proof {
            let chunk = s@.subrange(i as int, i + 3);
            lemma_b64_encode_append(s@.take(i as int), chunk);
            assert(s@.take(i + 3) =~= s@.take(i as int) + chunk);
            assert(chunk[0] == s@[i as int]);
            assert(chunk[1] == s@[i + 1]);
            assert(chunk[2] == s@[i + 2]);
            assert(chunk.skip(3) =~= Seq::<u8>::empty());
            assert(spec_b64_encode(chunk.skip(3)) == Seq::<u8>::empty());
            assert(spec_b64_encode(chunk) =~= seq![
                spec_b64_code(b0 >> 2),
                spec_b64_code(((b0 & 3) << 4) | (b1 >> 4)),
                spec_b64_code(((b1 & 15) << 2) | (b2 >> 6)),
                spec_b64_code(b2 & 63),
            ]);
            assert(out@ =~= spec_b64_encode(s@.take(i + 3)));
        }
        i = i + 3;
    }
    proof {
        lemma_b64_encode_append(s@.take(i as int), s@.skip(i as int));
        assert(s@ =~= s@.take(i as int) + s@.skip(i as int));
    }
    let n = s.len();
    if n - i == 1 {
        let b0 = s[i];
        proof {
            lemma_group_vals(b0, 0, 0);
        }
        out.push(b64_code(b0 >> 2));
        out.push(b64_code((b0 & 3) << 4));
        out.push(61);
        out.push(61);
        proof {
            assert(s@.skip(i as int).len() == 1);
            assert(s@.skip(i as int)[0] == s@[i as int]);
            assert(out@ =~= spec_b64_encode(s@.take(i as int)) + spec_b64_encode(s@.skip(i as int)));
        }
    } else if n - i == 2 {
        let b0 = s[i];
        let b1 = s[i + 1];
        proof {
            lemma_group_vals(b0, b1, 0);
        }
        out.push(b64_code(b0 >> 2));
        out.push(b64_code(((b0 & 3) << 4) | (b1 >> 4)));
        out.push(b64_code((b1 & 15) << 2));
        out.push(61);
        proof {
            assert(s@.skip(i as int).len() == 2);
            assert(s@.skip(i as int)[0] == s@[i as int]);
            assert(s@.skip(i as int)[1] == s@[i + 1]);
            assert(out@ =~= spec_b64_encode(s@.take(i as int)) + spec_b64_encode(s@.skip(i as int)));
        }
    } else {
        proof {
            assert(s@.skip(i as int).len() == 0);
            assert(out@ =~= spec_b64_encode(s@.take(i as int)) + spec_b64_encode(s@.skip(i as int)));
        }
    }
    out
}

/// Strictly base-64 decode a byte string; `None` on anything that is not a
/// canonical encoding.
pub fn b64_decode(s: &Vec<u8>) -> (r: Option<Vec<u8>>)
    ensures
        r matches Some(v) ==> spec_b64_decode(s@) == Some(v@),
        r is None ==> spec_b64_decode(s@) is None,
{
    let n = s.len();
    let mut out: Vec<u8> = Vec::new();
    let mut i: usize = 0;
    proof {
        assert(s@.skip(0) =~= s@);
        match spec_b64_decode(s@) {
            Some(rest) => {
                assert(Seq::<u8>::empty() + rest =~= rest);
            },
            None => {},
        }
    }
    loop
        invariant
            i % 4 == 0,
            i <= n,
            n == s.len(),
            spec_b64_decode(s@) == (match spec_b64_decode(s@.skip(i as int)) {
                Some(rest) => Some(out@ + rest),
                None => None::<Seq<u8>>,
            }),
        ensures
            i <= n,
            n - i <= 4,
            n == s.len(),
            spec_b64_decode(s@) == (match spec_b64_decode(s@.skip(i as int)) {
                Some(rest) => Some(out@ + rest),
                None => None::<Seq<u8>>,
            }),
        decreases n - i,
    {
        if n - i > 4 {
            let v0 = b64_val(s[i]);
            let v1 = b64_val(s[i + 1]);
            let v2 = b64_val(s[i + 2]);
            let v3 = b64_val(s[i + 3]);
            match (v0, v1, v2, v3) {
                (Some(v0), Some(v1), Some(v2), Some(v3)) => {
                    let ghost out0 = out@;
                    out.push((v0 << 2) | (v1 >> 4));
                    out.push(((v1 & 15) << 4) | (v2 >> 2));
                    out.push(((v2 & 3) << 6) | v3);
                    proof {
                        let rem = s@.skip(i as int);
                        assert(rem.len() > 4);
                        assert(rem[0] == s@[i as int]);
                        assert(rem[1] == s@[i + 1]);
                        assert(rem[2] == s@[i + 2]);
                        assert(rem[3] == s@[i + 3]);
                        assert(rem.skip(4) =~= s@.skip(i + 4));
                        let group = seq![
                            ((v0 << 2) | (v1 >> 4)),
                            (((v1 & 15) << 4) | (v2 >> 2)),
                            (((v2 & 3) << 6) | v3),
                        ];
                        assert(out@ =~= out0 + group);
                        match spec_b64_decode(s@.skip(i + 4)) {
                            Some(rest) => {
                                assert(out0 + (group + rest) =~= out@ + rest);
                            },
                            None => {},
                        }
                    }
                    i = i + 4;
                },
                _ => {
                    proof {
                        let rem = s@.skip(i as int);
                        assert(rem[0] == s@[i as int]);
                        assert(rem[1] == s@[i + 1]);
                        assert(rem[2] == s@[i + 2]);
                        assert(rem[3] == s@[i + 3]);
                    }
                    return None;
                },
            }
        } else {
            break;
        }
    }
    let rem = n - i;
    if rem == 0 {
        proof {
            assert(s@.skip(i as int).len() == 0);
            assert(out@ + Seq::<u8>::empty() =~= out@);
        }
        Some(out)
    } else if rem < 4 {
        None
    } else {
        let c0 = s[i];
        let c1 = s[i + 1];
        let c2 = s[i + 2];
        let c3 = s[i + 3];
        proof {
            let remseq = s@.skip(i as int);
            assert(remseq.len() == 4);
            assert(remseq[0] == s@[i as int]);
            assert(remseq[1] == s@[i + 1]);
            assert(remseq[2] == s@[i + 2]);
            assert(remseq[3] == s@[i + 3]);
        }
        if c3 == 61 && c2 == 61 {
            match (b64_val(c0), b64_val(c1)) {
                (Some(v0), Some(v1)) => {
                    if v1 & 15 == 0 {
                        let ghost out0 = out@;
                        out.push((v0 << 2) | (v1 >> 4));
                        proof {
                            let last = spec_b64_decode_last(c0, c1, c2, c3)->Some_0;
                            assert(out@ =~= out0 + last);
                        }
                        Some(out)
                    } else {
                        None
                    }
                },
                _ => None,
            }
        } else if c3 == 61 {
            match (b64_val(c0), b64_val(c1), b64_val(c2)) {
                (Some(v0), Some(v1), Some(v2)) => {
                    if v2 & 3 == 0 {
                        let ghost out0 = out@;
                        out.push((v0 << 2) | (v1 >> 4));
                        out.push(((v1 & 15) << 4) | (v2 >> 2));
                        proof {
                            let last = spec_b64_decode_last(c0, c1, c2, c3)->Some_0;
                            assert(out@ =~= out0 + last);
                        }
                        Some(out)
                    } else {
                        None
                    }
                },
                _ => None,
            }
        } else {
            match (b64_val(c0), b64_val(c1), b64_val(c2), b64_val(c3)) {
                (Some(v0), Some(v1), Some(v2), Some(v3)) => {
                    let ghost out0 = out@;
                    out.push((v0 << 2) | (v1 >> 4));
                    out.push(((v1 & 15) << 4) | (v2 >> 2));
                    out.push(((v2 & 3) << 6) | v3);
                    proof {
                        let last = spec_b64_decode_last(c0, c1, c2, c3)->Some_0;
                        assert(out@ =~= out0 + last);
                    }
                    Some(out)
                },
                _ => None,
            }
        }
    }
}

} // verus!
