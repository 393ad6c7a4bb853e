//! The versioned certification header: composition of the serialized
//! certificate, the serialized tree and the declared path into one header
//! string, and its strict inverse.
//!
//! The wire shape is fixed: `certificate=:B64:, tree=:B64:,
//! expr_path=:B64:, version=N`, where an earlier revision omits the
//! `expr_path` field. Decoding is exact: truncated, reordered or
//! unknown-version headers are refused.

use vstd::prelude::*;
use vstd::arithmetic::div_mod::{lemma_div_denominator, lemma_fundamental_div_mod};
use vstd::string::StrSliceExecFns;
use vstd::string::StringSliceAdditionalSpecFns;
use vstd::utf8::encode_utf8;
use crate::b64::{
    b64_decode,
    b64_encode,
    is_b64_byte,
    lemma_b64_encode_bytes,
    lemma_b64_round_trip,
    spec_b64_decode,
    spec_b64_encode,
};
use crate::tree::append_bytes;

verus! {

/// Why a header failed to decode.
#[derive(Debug)]
pub enum HeaderFormatError {
    /// The header text does not have the required shape.
    Malformed,
    /// The header declares a version this decoder does not understand.
    UnsupportedVersion,
    /// A version-2 header without its declared path.
    MissingExprPath,
}

/// A decoded certification header.
pub struct CertificateHeader {
    pub certificate: Vec<u8>,
    pub tree: Vec<u8>,
    pub expr_path: Option<Vec<u8>>,
    pub version: u8,
}

/// The bytes of `certificate=:`.
pub open spec fn lit_certificate() -> Seq<u8> {
    seq![99u8, 101u8, 114u8, 116u8, 105u8, 102u8, 105u8, 99u8, 97u8, 116u8, 101u8, 61u8, 58u8]
}

/// The bytes of `:, tree=:`.
pub open spec fn lit_tree() -> Seq<u8> {
    seq![58u8, 44u8, 32u8, 116u8, 114u8, 101u8, 101u8, 61u8, 58u8]
}

/// The bytes of `:, expr_path=:`.
pub open spec fn lit_expr_path() -> Seq<u8> {
    seq![
        58u8,
        44u8,
        32u8,
        101u8,
        120u8,
        112u8,
        114u8,
        95u8,
        112u8,
        97u8,
        116u8,
        104u8,
        61u8,
        58u8,
    ]
}

/// The bytes of `:, version=`.
pub open spec fn lit_version() -> Seq<u8> {
    seq![58u8, 44u8, 32u8, 118u8, 101u8, 114u8, 115u8, 105u8, 111u8, 110u8, 61u8]
}

/// The decimal digits of a number, most significant first.
pub open spec fn dec_of(n: nat) -> Seq<u8>
    decreases n,
{
    if n < 10 {
        seq![(48 + n) as u8]
    } else {
        dec_of(n / 10) + seq![(48 + n % 10) as u8]
    }
}

/// The exact header bytes for the given components.
pub open spec fn spec_header_bytes(
    cert: Seq<u8>,
    tree: Seq<u8>,
    path: Option<Seq<u8>>,
    version: u8,
) -> Seq<u8> {
    lit_certificate() + spec_b64_encode(cert) + lit_tree() + spec_b64_encode(tree) + (match path {
        Some(p) => lit_expr_path() + spec_b64_encode(p),
        None => Seq::<u8>::empty(),
    }) + lit_version() + dec_of(version as nat)
}

/// The first colon at or after `pos`, or the length if there is none.
pub open spec fn spec_find_colon(s: Seq<u8>, pos: int) -> int
    decreases s.len() - pos,
{
    if pos < 0 || pos >= s.len() {
        s.len() as int
    } else if s[pos] == 58 {
        pos
    } else {
        spec_find_colon(s, pos + 1)
    }
}

/// Whether `lit` stands at `pos` in `s`.
pub open spec fn spec_starts_with(s: Seq<u8>, pos: int, lit: Seq<u8>) -> bool {
    0 <= pos && pos + lit.len() <= s.len() && s.subrange(pos, pos + lit.len()) == lit
}

/// The value of the decimal digits from `pos` to the end, `None` on a
/// non-digit or a value above 255.
pub open spec fn spec_digits(s: Seq<u8>, pos: int, acc: int) -> Option<u8>
    decreases s.len() - pos,
{
    if pos < 0 || pos >= s.len() {
        Some(acc as u8)
    } else if 48 <= s[pos] <= 57 {
        if acc * 10 + (s[pos] - 48) > 255 {
            None
        } else {
            spec_digits(s, pos + 1, acc * 10 + (s[pos] - 48))
        }
    } else {
        None
    }
}

/// The version field: at least one digit, fitting in a byte.
pub open spec fn spec_version_at(s: Seq<u8>, pos: int) -> Option<u8> {
    if pos < s.len() && 48 <= s[pos] <= 57 {
        spec_digits(s, pos, 0)
    } else {
        None
    }
}

/// The exact decoding of a header byte string.
pub open spec fn spec_decode_header(s: Seq<u8>) -> Result<
    (Seq<u8>, Seq<u8>, Option<Seq<u8>>, u8),
    HeaderFormatError,
> {
    if !spec_starts_with(s, 0, lit_certificate()) {
        Err(HeaderFormatError::Malformed)
    } else {
        let p1 = lit_certificate().len() as int;
        let e1 = spec_find_colon(s, p1);
        match spec_b64_decode(s.subrange(p1, e1)) {
            None => Err(HeaderFormatError::Malformed),
            Some(cert) => if !spec_starts_with(s, e1, lit_tree()) {
                Err(HeaderFormatError::Malformed)
            } else {
                let p2 = e1 + lit_tree().len();
                let e2 = spec_find_colon(s, p2);
                match spec_b64_decode(s.subrange(p2, e2)) {
                    None => Err(HeaderFormatError::Malformed),
                    Some(tree) => if spec_starts_with(s, e2, lit_expr_path()) {
                        let p3 = e2 + lit_expr_path().len();
                        let e3 = spec_find_colon(s, p3);
                        match spec_b64_decode(s.subrange(p3, e3)) {
                            None => Err(HeaderFormatError::Malformed),
                            Some(path) => if !spec_starts_with(s, e3, lit_version()) {
                                Err(HeaderFormatError::Malformed)
                            } else {
                                spec_finish_header(
                                    s,
                                    e3 + lit_version().len(),
                                    cert,
                                    tree,
                                    Some(path),
                                )
                            },
                        }
                    } else if spec_starts_with(s, e2, lit_version()) {
                        spec_finish_header(s, e2 + lit_version().len(), cert, tree, None)
                    } else {
                        Err(HeaderFormatError::Malformed)
                    },
                }
            },
        }
    }
}

/// Read the version from `pos` to the end and apply the version rules: a
/// version above 2 is refused, version 2 requires the declared path,
/// version 1 forbids it, and nothing below 1 is a version.
pub open spec fn spec_finish_header(
    s: Seq<u8>,
    pos: int,
    cert: Seq<u8>,
    tree: Seq<u8>,
    path: Option<Seq<u8>>,
) -> Result<(Seq<u8>, Seq<u8>, Option<Seq<u8>>, u8), HeaderFormatError> {
    match spec_version_at(s, pos) {
        None => Err(HeaderFormatError::Malformed),
        Some(v) => if v > 2 {
            Err(HeaderFormatError::UnsupportedVersion)
        } else if v == 0 {
            Err(HeaderFormatError::UnsupportedVersion)
        } else if v == 2 && path is None {
            Err(HeaderFormatError::MissingExprPath)
        } else if v == 1 && path is Some {
            Err(HeaderFormatError::Malformed)
        } else {
            Ok((cert, tree, path, v))
        },
    }
}

/// All bytes are ASCII.
pub open spec fn all_ascii(s: Seq<u8>) -> bool {
    forall|i: int| 0 <= i < s.len() ==> s[i] < 128
}

/// ASCII survives concatenation.
proof fn lemma_ascii_concat(a: Seq<u8>, b: Seq<u8>)
    requires
        all_ascii(a),
        all_ascii(b),
    ensures
        all_ascii(a + b),
{
    assert forall|i: int| 0 <= i < (a + b).len() implies (a + b)[i] < 128 by {
        if i < a.len() {
            assert((a + b)[i] == a[i]);
        } else {
            assert((a + b)[i] == b[i - a.len()]);
        }
    }
}

/// Base-64 output is ASCII.
proof fn lemma_b64_ascii(s: Seq<u8>)
    ensures
        all_ascii(spec_b64_encode(s)),
{
    lemma_b64_encode_bytes(s);
    assert forall|i: int| 0 <= i < spec_b64_encode(s).len() implies spec_b64_encode(s)[i]
        < 128 by {
        assert(is_b64_byte(spec_b64_encode(s)[i]));
    }
}

/// Decimal digits are ASCII.
proof fn lemma_dec_ascii(n: nat)
    ensures
        all_ascii(dec_of(n)),
        dec_of(n).len() >= 1,
    decreases n,
{
    if n < 10 {
    } else {
        lemma_dec_ascii(n / 10);
        lemma_ascii_concat(dec_of(n / 10), seq![(48 + n % 10) as u8]);
    }
}

/// The header bytes are ASCII throughout.
pub proof fn lemma_header_ascii(cert: Seq<u8>, tree: Seq<u8>, path: Option<Seq<u8>>, version: u8)
    ensures
        all_ascii(spec_header_bytes(cert, tree, path, version)),
{
    lemma_b64_ascii(cert);
    lemma_b64_ascii(tree);
    lemma_dec_ascii(version as nat);
    lemma_ascii_concat(lit_certificate(), spec_b64_encode(cert));
    lemma_ascii_concat(lit_certificate() + spec_b64_encode(cert), lit_tree());
    lemma_ascii_concat(
        lit_certificate() + spec_b64_encode(cert) + lit_tree(),
        spec_b64_encode(tree),
    );
    let head = lit_certificate() + spec_b64_encode(cert) + lit_tree() + spec_b64_encode(tree);
    let mid = (match path {
        Some(p) => lit_expr_path() + spec_b64_encode(p),
        None => Seq::<u8>::empty(),
    });
    match path {
        Some(p) => {
            lemma_b64_ascii(p);
            lemma_ascii_concat(lit_expr_path(), spec_b64_encode(p));
        },
        None => {},
    }
    lemma_ascii_concat(head, mid);
    lemma_ascii_concat(head + mid, lit_version());
    lemma_ascii_concat(head + mid + lit_version(), dec_of(version as nat));
    assert(spec_header_bytes(cert, tree, path, version) =~= head + mid + lit_version() + dec_of(
        version as nat,
    ));
}

/// Relies on String::from_utf8: ASCII bytes decode to the string whose
/// UTF-8 encoding is exactly those bytes.
#[verifier::external_body]
fn ascii_to_string(v: &Vec<u8>) -> (r: String)
    requires
        all_ascii(v@),
    ensures
        encode_utf8(r@) == v@,
        r@.len() == v@.len(),
        forall|i: int| 0 <= i < v@.len() ==> r@[i] == v@[i] as char,
{
    String::from_utf8(v.clone()).unwrap()
}

fn lit_certificate_bytes() -> (r: Vec<u8>)
    ensures
        r@ == lit_certificate(),
{
    let r: Vec<u8> = vec![99u8, 101, 114, 116, 105, 102, 105, 99, 97, 116, 101, 61, 58];
    proof {
        assert(r@ =~= lit_certificate());
    }
    r
}

fn lit_tree_bytes() -> (r: Vec<u8>)
    ensures
        r@ == lit_tree(),
{
    let r: Vec<u8> = vec![58u8, 44, 32, 116, 114, 101, 101, 61, 58];
    proof {
        assert(r@ =~= lit_tree());
    }
    r
}

fn lit_expr_path_bytes() -> (r: Vec<u8>)
    ensures
        r@ == lit_expr_path(),
{
    let r: Vec<u8> = vec![58u8, 44, 32, 101, 120, 112, 114, 95, 112, 97, 116, 104, 61, 58];
    proof {
        assert(r@ =~= lit_expr_path());
    }
    r
}

fn lit_version_bytes() -> (r: Vec<u8>)
    ensures
        r@ == lit_version(),
{
    let r: Vec<u8> = vec![58u8, 44, 32, 118, 101, 114, 115, 105, 111, 110, 61];
    proof {
        assert(r@ =~= lit_version());
    }
    r
}

/// Compose the header string for the given serialized certificate, tree and
/// declared path under the given version marker.
pub fn create_versioned_certificate_header(
    certificate: &Vec<u8>,
    tree: &Vec<u8>,
    expr_path: &Vec<u8>,
    version: u8,
) -> (r: String)
    ensures
        encode_utf8(r@) == spec_header_bytes(certificate@, tree@, Some(expr_path@), version),
{
    let mut buf = lit_certificate_bytes();
    let ec = b64_encode(certificate);
    append_bytes(&mut buf, &ec);
    let lt = lit_tree_bytes();
    append_bytes(&mut buf, &lt);
    let et = b64_encode(tree);
    append_bytes(&mut buf, &et);
    let lp = lit_expr_path_bytes();
    append_bytes(&mut buf, &lp);
    let ep = b64_encode(expr_path);
    append_bytes(&mut buf, &ep);
    let lv = lit_version_bytes();
    append_bytes(&mut buf, &lv);
    push_decimal(&mut buf, version);
    proof {
        assert(buf@ =~= spec_header_bytes(certificate@, tree@, Some(expr_path@), version));
        lemma_header_ascii(certificate@, tree@, Some(expr_path@), version);
    }
    ascii_to_string(&buf)
}

/// Emit the decimal digits of a byte value.
fn push_decimal(out: &mut Vec<u8>, v: u8)
    ensures
        final(out)@ == old(out)@ + dec_of(v as nat),
{
    if v < 10 {
        out.push(48 + v);
        proof {
            assert(out@ =~= old(out)@ + dec_of(v as nat));
        }
    } else if v < 100 {
        out.push(48 + v / 10);
        out.push(48 + v % 10);
        proof {
            assert(dec_of((v / 10) as nat) =~= seq![(48 + v / 10) as u8]);
            assert(out@ =~= old(out)@ + dec_of(v as nat));
        }
    } else {
        out.push(48 + v / 100);
        out.push(48 + (v / 10) % 10);
        out.push(48 + v % 10);
        proof {
            assert(v / 10 / 10 == v / 100) by (nonlinear_arith);
            assert(dec_of((v / 100) as nat) =~= seq![(48 + v / 100) as u8]);
            assert(dec_of((v / 10) as nat) =~= dec_of((v / 100) as nat) + seq![
                (48 + (v / 10) % 10) as u8,
            ]);
            assert(out@ =~= old(out)@ + dec_of(v as nat));
        }
    }
}

/// The first colon at or after `pos`.
fn find_colon_from(s: &Vec<u8>, pos: usize) -> (r: usize)
    requires
        pos <= s@.len(),
    ensures
        r == spec_find_colon(s@, pos as int),
        pos <= r <= s@.len(),
{
    let mut i = pos;
    while i < s.len()
        invariant
            pos <= i <= s@.len(),
            spec_find_colon(s@, pos as int) == spec_find_colon(s@, i as int),
        decreases s@.len() - i,
    {
        if s[i] == 58 {
            return i;
        }
        i = i + 1;
    }
    i
}

/// Whether the literal stands at `pos`.
fn starts_with_at(s: &Vec<u8>, pos: usize, lit: &Vec<u8>) -> (r: bool)
    ensures
        r == spec_starts_with(s@, pos as int, lit@),
{
    if pos > s.len() || lit.len() > s.len() - pos {
        proof {
            assert(!spec_starts_with(s@, pos as int, lit@));
        }
        return false;
    }
    let n = s.len();
    let mut k: usize = 0;
    while k < lit.len()
        invariant
            k <= lit@.len(),
            pos + lit@.len() <= s@.len(),
            n == s@.len(),
            forall|j: int| 0 <= j < k ==> s@[pos + j] == lit@[j],
        decreases lit@.len() - k,
    {
        if s[pos + k] != lit[k] {
            proof {
                assert(s@.subrange(pos as int, pos + lit@.len())[k as int] != lit@[k as int]);
            }
            return false;
        }
        k = k + 1;
    }
    proof {
        assert(s@.subrange(pos as int, pos + lit@.len()) =~= lit@);
    }
    true
}

/// The version digits from `pos` to the end.
fn parse_version_at(s: &Vec<u8>, pos: usize) -> (r: Option<u8>)
    requires
        pos <= s@.len(),
    ensures
        r == spec_version_at(s@, pos as int),
{
    if pos >= s.len() {
        return None;
    }
    if !(48 <= s[pos] && s[pos] <= 57) {
        return None;
    }
    let mut i = pos;
    let mut acc: u32 = 0;
    while i < s.len()
        invariant
            pos <= i <= s@.len(),
            acc <= 255,
            spec_digits(s@, pos as int, 0) == spec_digits(s@, i as int, acc as int),
        decreases s@.len() - i,
    {
        let c = s[i];
        if !(48 <= c && c <= 57) {
            return None;
        }
        let next: u32 = acc * 10 + ((c - 48) as u32);
        if next > 255 {
            return None;
        }
        acc = next;
        i = i + 1;
    }
    Some(acc as u8)
}

/// Cut out a region of the input.
fn subrange_vec(s: &Vec<u8>, from: usize, to: usize) -> (r: Vec<u8>)
    requires
        from <= to <= s@.len(),
    ensures
        r@ == s@.subrange(from as int, to as int),
{
    let mut r: Vec<u8> = Vec::new();
    let mut i = from;
    while i < to
        invariant
            from <= i <= to <= s@.len(),
            r@ == s@.subrange(from as int, i as int),
        decreases to - i,
    {
        r.push(s[i]);
        proof {
            assert(r@ =~= s@.subrange(from as int, i + 1));
        }
        i = i + 1;
    }
    r
}

/// Decompose a header string; the strict inverse of composition.
pub fn decode_certificate_header(header: &str) -> (r: Result<
    CertificateHeader,
    HeaderFormatError,
>)
    ensures
        r matches Ok(h) ==> spec_decode_header(header.spec_bytes()) == Ok::<
            (Seq<u8>, Seq<u8>, Option<Seq<u8>>, u8),
            HeaderFormatError,
        >(
            (
                h.certificate@,
                h.tree@,
                match h.expr_path {
                    Some(p) => Some(p@),
                    None => None::<Seq<u8>>,
                },
                h.version,
            ),
        ),
        r matches Err(e) ==> spec_decode_header(header.spec_bytes()) == Err::<
            (Seq<u8>, Seq<u8>, Option<Seq<u8>>, u8),
            HeaderFormatError,
        >(e),
{
    let s = header.as_bytes_vec();
    let l1 = lit_certificate_bytes();
    if !starts_with_at(&s, 0, &l1) {
        return Err(HeaderFormatError::Malformed);
    }
    let p1 = l1.len();
    let e1 = find_colon_from(&s, p1);
    let cert = match b64_decode(&subrange_vec(&s, p1, e1)) {
        Some(c) => c,
        None => {
            return Err(HeaderFormatError::Malformed);
        },
    };
    let l2 = lit_tree_bytes();
    if !starts_with_at(&s, e1, &l2) {
        return Err(HeaderFormatError::Malformed);
    }
    let p2 = e1 + l2.len();
    let e2 = find_colon_from(&s, p2);
    let tree = match b64_decode(&subrange_vec(&s, p2, e2)) {
        Some(t) => t,
        None => {
            return Err(HeaderFormatError::Malformed);
        },
    };
    let l3 = lit_expr_path_bytes();
    let l4 = lit_version_bytes();
    if starts_with_at(&s, e2, &l3) {
        let p3 = e2 + l3.len();
        let e3 = find_colon_from(&s, p3);
        let path = match b64_decode(&subrange_vec(&s, p3, e3)) {
            Some(p) => p,
            None => {
                return Err(HeaderFormatError::Malformed);
            },
        };
        if !starts_with_at(&s, e3, &l4) {
            return Err(HeaderFormatError::Malformed);
        }
        finish_header(&s, e3 + l4.len(), cert, tree, Some(path))
    } else if starts_with_at(&s, e2, &l4) {
        finish_header(&s, e2 + l4.len(), cert, tree, None)
    } else {
        Err(HeaderFormatError::Malformed)
    }
}

/// Apply the version rules to a parsed header tail.
fn finish_header(
    s: &Vec<u8>,
    pos: usize,
    cert: Vec<u8>,
    tree: Vec<u8>,
    path: Option<Vec<u8>>,
) -> (r: Result<CertificateHeader, HeaderFormatError>)
    requires
        pos <= s@.len(),
    ensures
        r matches Ok(h) ==> spec_finish_header(
            s@,
            pos as int,
            cert@,
            tree@,
            match path {
                Some(p) => Some(p@),
                None => None::<Seq<u8>>,
            },
        ) == Ok::<_, HeaderFormatError>(
            (
                h.certificate@,
                h.tree@,
                match h.expr_path {
                    Some(p) => Some(p@),
                    None => None::<Seq<u8>>,
                },
                h.version,
            ),
        ),
        r matches Err(e) ==> spec_finish_header(
            s@,
            pos as int,
            cert@,
            tree@,
            match path {
                Some(p) => Some(p@),
                None => None::<Seq<u8>>,
            },
        ) == Err::<(Seq<u8>, Seq<u8>, Option<Seq<u8>>, u8), HeaderFormatError>(e),
{
    let v = match parse_version_at(s, pos) {
        Some(v) => v,
        None => {
            return Err(HeaderFormatError::Malformed);
        },
    };
    if v > 2 {
        Err(HeaderFormatError::UnsupportedVersion)
    } else if v == 0 {
        Err(HeaderFormatError::UnsupportedVersion)
    } else if v == 2 && matches!(path, None) {
        Err(HeaderFormatError::MissingExprPath)
    } else if v == 1 && matches!(path, Some(_)) {
        Err(HeaderFormatError::Malformed)
    } else {
        Ok(CertificateHeader { certificate: cert, tree, expr_path: path, version: v })
    }
}

/// The first colon in `s` at or after `pos` stands at `k`.
proof fn lemma_find_colon_at(s: Seq<u8>, pos: int, k: int)
    requires
        0 <= pos <= k < s.len(),
        forall|j: int| pos <= j < k ==> s[j] != 58,
        s[k] == 58,
    ensures
        spec_find_colon(s, pos) == k,
    decreases k - pos,
{
    if pos < k {
        lemma_find_colon_at(s, pos + 1, k);
    }
}

/// Parsing the decimal rendering of a byte value, standing alone at the end
/// of the input, returns that value.
proof fn lemma_parse_dec(s: Seq<u8>, pos: int, v: u8)
    requires
        0 <= pos,
        s.len() == pos + dec_of(v as nat).len(),
        forall|j: int| 0 <= j < dec_of(v as nat).len() ==> s[pos + j] == dec_of(v as nat)[j],
    ensures
        spec_version_at(s, pos) == Some(v),
{
    if v < 10 {
        assert(s[pos + 0] == dec_of(v as nat)[0]);
        assert(s[pos] == 48 + v);
        assert(spec_digits(s, pos, 0) == spec_digits(s, pos + 1, v as int));
    } else if v < 100 {
        let hi = (v / 10) as int;
        let lo = (v % 10) as int;
        assert(dec_of((v / 10) as nat) =~= seq![(48 + v / 10) as u8]);
        assert(dec_of(v as nat) =~= seq![(48 + v / 10) as u8, (48 + v % 10) as u8]);
        assert(s[pos + 0] == dec_of(v as nat)[0]);
        assert(s[pos + 1] == dec_of(v as nat)[1]);
        assert(s[pos] == 48 + hi);
        assert(hi * 10 + lo == v);
        assert(spec_digits(s, pos, 0) == spec_digits(s, pos + 1, hi));
        assert(spec_digits(s, pos + 1, hi) == spec_digits(s, pos + 2, v as int));
    } else {
        let d0 = (v / 100) as int;
        let d1 = ((v / 10) % 10) as int;
        let d2 = (v % 10) as int;
        assert(v / 10 / 10 == v / 100) by {
            lemma_div_denominator(v as int, 10, 10);
        }
        assert(dec_of((v / 100) as nat) =~= seq![(48 + v / 100) as u8]);
        assert(dec_of((v / 10) as nat) =~= seq![(48 + v / 100) as u8, (48 + (v / 10) % 10) as u8]);
        assert(dec_of(v as nat) =~= seq![
            (48 + v / 100) as u8,
            (48 + (v / 10) % 10) as u8,
            (48 + v % 10) as u8,
        ]);
        assert(s[pos + 0] == dec_of(v as nat)[0]);
        assert(s[pos + 1] == dec_of(v as nat)[1]);
        assert(s[pos + 2] == dec_of(v as nat)[2]);
        assert(s[pos] == 48 + d0);
        assert(d0 * 10 + d1 == v / 10) by {
            lemma_div_denominator(v as int, 10, 10);
            lemma_fundamental_div_mod((v as int) / 10, 10);
        }
        assert((v / 10) * 10 + d2 == v);
        assert(spec_digits(s, pos, 0) == spec_digits(s, pos + 1, d0));
        assert(spec_digits(s, pos + 1, d0) == spec_digits(s, pos + 2, d0 * 10 + d1));
        assert(spec_digits(s, pos + 2, (v / 10) as int) == spec_digits(s, pos + 3, v as int));
    }
}

/// Decoding the composed header parses back exactly the components that
/// were put in, then applies the version rules to them.
#[verifier::rlimit(80)]
proof fn lemma_header_parse(cert: Seq<u8>, tree: Seq<u8>, path: Seq<u8>, v: u8)
    ensures
        spec_decode_header(spec_header_bytes(cert, tree, Some(path), v)) == spec_finish_header(
            spec_header_bytes(cert, tree, Some(path), v),
            spec_header_bytes(cert, tree, Some(path), v).len() - dec_of(v as nat).len(),
            cert,
            tree,
            Some(path),
        ),
        spec_version_at(
            spec_header_bytes(cert, tree, Some(path), v),
            spec_header_bytes(cert, tree, Some(path), v).len() - dec_of(v as nat).len(),
        ) == Some(v),
{
    let s = spec_header_bytes(cert, tree, Some(path), v);
    let ec = spec_b64_encode(cert);
    let et = spec_b64_encode(tree);
    let ep = spec_b64_encode(path);
    let d = dec_of(v as nat);
    lemma_b64_encode_bytes(cert);
    lemma_b64_encode_bytes(tree);
    lemma_b64_encode_bytes(path);
    lemma_dec_ascii(v as nat);
    assert(s =~= lit_certificate() + ec + lit_tree() + et + lit_expr_path() + ep + lit_version()
        + d);
    let p1 = lit_certificate().len() as int;
    let e1 = p1 + ec.len();
    let p2 = e1 + lit_tree().len();
    let e2 = p2 + et.len();
    let p3 = e2 + lit_expr_path().len();
    let e3 = p3 + ep.len();
    let p4 = e3 + lit_version().len();
    assert(s.len() == p4 + d.len());
    assert(s.subrange(0, p1) =~= lit_certificate());
    assert(spec_starts_with(s, 0, lit_certificate()));
    assert forall|j: int| p1 <= j < e1 implies s[j] == ec[j - p1] && s[j] != 58 by {
        assert(is_b64_byte(ec[j - p1]));
    }
    assert(s[e1] == lit_tree()[0]);
    lemma_find_colon_at(s, p1, e1);
    assert(s.subrange(p1, e1) =~= ec);
    lemma_b64_round_trip(cert);
    assert(s.subrange(e1, e1 + lit_tree().len()) =~= lit_tree());
    assert(spec_starts_with(s, e1, lit_tree()));
    assert forall|j: int| p2 <= j < e2 implies s[j] == et[j - p2] && s[j] != 58 by {
        assert(is_b64_byte(et[j - p2]));
    }
    assert(s[e2] == lit_expr_path()[0]);
    lemma_find_colon_at(s, p2, e2);
    assert(s.subrange(p2, e2) =~= et);
    lemma_b64_round_trip(tree);
    assert(s.subrange(e2, e2 + lit_expr_path().len()) =~= lit_expr_path());
    assert(spec_starts_with(s, e2, lit_expr_path()));
    assert forall|j: int| p3 <= j < e3 implies s[j] == ep[j - p3] && s[j] != 58 by {
        assert(is_b64_byte(ep[j - p3]));
    }
    assert(s[e3] == lit_version()[0]);
    lemma_find_colon_at(s, p3, e3);
    assert(s.subrange(p3, e3) =~= ep);
    lemma_b64_round_trip(path);
    assert(s.subrange(e3, e3 + lit_version().len()) =~= lit_version());
    assert(spec_starts_with(s, e3, lit_version()));
    assert forall|j: int| 0 <= j < d.len() implies s[p4 + j] == d[j] by {}
    lemma_parse_dec(s, p4, v);
}

/// Composing a version-2 header and decomposing it returns exactly the
/// certificate bytes, the tree bytes, the declared path and the version.
pub proof fn lemma_header_round_trip(cert: Seq<u8>, tree: Seq<u8>, path: Seq<u8>)
    ensures
        spec_decode_header(spec_header_bytes(cert, tree, Some(path), 2)) == Ok::<
            (Seq<u8>, Seq<u8>, Option<Seq<u8>>, u8),
            HeaderFormatError,
        >((cert, tree, Some(path), 2u8)),
{
    lemma_header_parse(cert, tree, path, 2);
}

/// A header declaring a version above 2 is refused outright, never accepted
/// with some default reading.
pub proof fn lemma_future_version_rejected(cert: Seq<u8>, tree: Seq<u8>, path: Seq<u8>, v: u8)
    requires
        v > 2,
    ensures
        spec_decode_header(spec_header_bytes(cert, tree, Some(path), v)) == Err::<
            (Seq<u8>, Seq<u8>, Option<Seq<u8>>, u8),
            HeaderFormatError,
        >(HeaderFormatError::UnsupportedVersion),
{
    lemma_header_parse(cert, tree, path, v);
}

} // verus!
