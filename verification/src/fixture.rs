//! End-to-end assembly of a certification attempt: the declared path, the
//! tree committing to it, and the versioned header carrying the serialized
//! parts.
//!
//! The committed path is fixed by the protocol: the `http_expr` root
//! segment, the declared segments, the `<$>` selector, the rule digest, and
//! the optional request and response digests, the last present segment
//! standing as the leaf. The external signer that issues the certificate is
//! a collaborator: its outputs (a public root key and the serialized
//! certificate) come in as plain byte strings and are packaged here.

use vstd::prelude::*;
use vstd::string::StrSliceExecFns;
use vstd::string::StringSliceAdditionalSpecFns;
use vstd::utf8::encode_utf8;
use crate::cbor::{
    lemma_insert_into_empty,
    lemma_serialize_expand_round_trip,
    serialize_to_cbor,
    spec_cbor_tag,
    spec_cbor_text_array,
    spec_cbor_tree,
    spec_expand,
    string_bytes,
    tree_to_cbor,
    tree_v_small,
};
use crate::hashes::{hash, sha256_of};
use crate::header::{create_versioned_certificate_header, spec_header_bytes};
use crate::tree::{
    copy_bytes,
    spec_digest,
    spec_insert,
    spec_witness,
    views_of,
    witness,
    ExprTree,
    TreeError,
    TreeV,
};

verus! {

/// The serialized witness of a certification tree and the certified data it
/// commits to.
pub struct V2TreeFixture {
    pub tree_cbor: Vec<u8>,
    pub certified_data: Vec<u8>,
}

/// The external signer's answer: a public root key and the serialized
/// certificate it issued.
pub struct V2CertificateFixture {
    pub root_key: Vec<u8>,
    pub certificate_cbor: Vec<u8>,
}

/// A complete certification fixture: the root key to verify against and the
/// header to present.
pub struct V2Fixture {
    pub root_key: Vec<u8>,
    pub certificate_header: String,
}

/// The bytes of the protocol's `http_expr` root segment.
pub open spec fn http_expr_label() -> Seq<u8> {
    seq![104u8, 116u8, 116u8, 112u8, 95u8, 101u8, 120u8, 112u8, 114u8]
}

/// The bytes of the protocol's `<$>` selector segment.
pub open spec fn selector_label() -> Seq<u8> {
    seq![60u8, 36u8, 62u8]
}

/// The full tree path for a rule: the `http_expr` root, the declared
/// segments, the `<$>` selector, the rule digest, then the optional request
/// and response digests; the last segment stands as the leaf.
pub open spec fn spec_expr_tree_path(
    expr_path: Seq<Seq<u8>>,
    cel_hash: Seq<u8>,
    req_hash: Option<Seq<u8>>,
    res_hash: Option<Seq<u8>>,
) -> Seq<Seq<u8>> {
    seq![http_expr_label()] + expr_path + seq![selector_label()] + seq![cel_hash] + (
    match req_hash {
        Some(r) => seq![r],
        None => Seq::<Seq<u8>>::empty(),
    }) + (match res_hash {
        Some(r) => seq![r],
        None => Seq::<Seq<u8>>::empty(),
    })
}

fn http_expr_bytes() -> (r: Vec<u8>)
    ensures
        r@ == http_expr_label(),
{
    let r: Vec<u8> = vec![104u8, 116, 116, 112, 95, 101, 120, 112, 114];
    proof {
        assert(r@ =~= http_expr_label());
    }
    r
}

fn selector_bytes() -> (r: Vec<u8>)
    ensures
        r@ == selector_label(),
{
    let r: Vec<u8> = vec![60u8, 36, 62];
    proof {
        assert(r@ =~= selector_label());
    }
    r
}

/// Build the full tree path for a rule digest and the optional
/// request/response digests.
pub fn create_expr_tree_path(
    expr_path: &Vec<Vec<u8>>,
    cel_hash: &Vec<u8>,
    req_hash: Option<&Vec<u8>>,
    res_hash: Option<&Vec<u8>>,
) -> (r: Vec<Vec<u8>>)
    ensures
        views_of(r@) == spec_expr_tree_path(
            views_of(expr_path@),
            cel_hash@,
            match req_hash {
                Some(h) => Some(h@),
                None => None::<Seq<u8>>,
            },
            match res_hash {
                Some(h) => Some(h@),
                None => None::<Seq<u8>>,
            },
        ),
        r@.len() >= 1,
{
    let mut path: Vec<Vec<u8>> = Vec::new();
    path.push(http_expr_bytes());
    let mut i: usize = 0;
    while i < expr_path.len()
        invariant
            i <= expr_path@.len(),
            path@.len() == i + 1,
            path@[0]@ == http_expr_label(),
            forall|j: int| 0 <= j < i ==> path@[j + 1]@ == expr_path@[j]@,
        decreases expr_path@.len() - i,
    {
        path.push(copy_bytes(&expr_path[i]));
        i = i + 1;
    }
    path.push(selector_bytes());
    path.push(copy_bytes(cel_hash));
    match req_hash {
        Some(h) => {
            path.push(copy_bytes(h));
        },
        None => {},
    }
    match res_hash {
        Some(h) => {
            path.push(copy_bytes(h));
        },
        None => {},
    }
    proof {
        assert(views_of(path@) =~= spec_expr_tree_path(
            views_of(expr_path@),
            cel_hash@,
            match req_hash {
                Some(h) => Some(h@),
                None => None::<Seq<u8>>,
            },
            match res_hash {
                Some(h) => Some(h@),
                None => None::<Seq<u8>>,
            },
        ));
    }
    path
}

/// The declared tree path of a rule: the protocol root, the segments' UTF-8
/// bytes, the selector, the rule digest, and the optional request/response
/// digests.
pub open spec fn spec_declared_path(
    expr_path: Seq<String>,
    cel_expr: Seq<char>,
    req_hash: Option<Seq<u8>>,
    res_hash: Option<Seq<u8>>,
) -> Seq<Seq<u8>> {
    spec_expr_tree_path(
        string_bytes(expr_path),
        sha256_of(encode_utf8(cel_expr)),
        req_hash,
        res_hash,
    )
}

/// The wire-format limit on the certification inputs: every declared
/// segment and every given digest fits a definite-length header.
pub open spec fn segments_fit(
    expr_path: Seq<String>,
    req_hash: Option<Seq<u8>>,
    res_hash: Option<Seq<u8>>,
) -> bool {
    &&& forall|j: int| 0 <= j < expr_path.len() ==> encode_utf8(#[trigger] expr_path[j]@).len()
        < 0x1_0000_0000
    &&& match req_hash {
        Some(h) => h.len() < 0x1_0000_0000,
        None => true,
    }
    &&& match res_hash {
        Some(h) => h.len() < 0x1_0000_0000,
        None => true,
    }
}

/// What a successful tree fixture commits to: the tree holds exactly the
/// declared path ending in the rule digest; the certified data is that
/// tree's 32-byte root digest; the serialized bytes are the witness for the
/// declared path, re-expandable to a tree with the same root digest.
pub open spec fn tree_fixture_ok(
    f: V2TreeFixture,
    expr_path: Seq<String>,
    cel_expr: Seq<char>,
    req_hash: Option<Seq<u8>>,
    res_hash: Option<Seq<u8>>,
) -> bool {
    let dpath = spec_declared_path(expr_path, cel_expr, req_hash, res_hash);
    let ins = spec_insert(TreeV::Empty, dpath, 0);
    &&& ins is Some
    &&& f.certified_data@ == spec_digest(ins->Some_0)
    &&& f.certified_data@.len() == 32
    &&& f.tree_cbor@ == spec_cbor_tag() + spec_cbor_tree(spec_witness(ins->Some_0, dpath, 0))
    &&& tree_v_small(spec_witness(ins->Some_0, dpath, 0))
    &&& spec_expand(f.tree_cbor@) == Some(spec_witness(ins->Some_0, dpath, 0))
    &&& spec_digest(spec_witness(ins->Some_0, dpath, 0)) == f.certified_data@
}

/// Build the certification tree for one rule: hash the rule text, insert it
/// at its declared path, and hand back the certified data and the witness
/// serialized for that same path. Under the wire-format limit the attempt
/// always succeeds.
pub fn create_v2_tree_fixture(
    cel_expr: &str,
    expr_path: &Vec<String>,
    req_hash: Option<&Vec<u8>>,
    res_hash: Option<&Vec<u8>>,
) -> (r: Result<V2TreeFixture, TreeError>)
    requires
        segments_fit(
            expr_path@,
            match req_hash {
                Some(h) => Some(h@),
                None => None::<Seq<u8>>,
            },
            match res_hash {
                Some(h) => Some(h@),
                None => None::<Seq<u8>>,
            },
        ),
    ensures
        r is Ok,
        r matches Ok(f) ==> tree_fixture_ok(
            f,
            expr_path@,
            cel_expr@,
            match req_hash {
                Some(h) => Some(h@),
                None => None::<Seq<u8>>,
            },
            match res_hash {
                Some(h) => Some(h@),
                None => None::<Seq<u8>>,
            },
        ),
{
    let ghost rq = (match req_hash {
        Some(h) => Some(h@),
        None => None::<Seq<u8>>,
    });
    let ghost rs = (match res_hash {
        Some(h) => Some(h@),
        None => None::<Seq<u8>>,
    });
    let ghost dpath = spec_declared_path(expr_path@, cel_expr@, rq, rs);
    let cel_expr_hash = hash(cel_expr);
    let mut seg_bytes: Vec<Vec<u8>> = Vec::new();
    let mut i: usize = 0;
    while i < expr_path.len()
        invariant
            i <= expr_path@.len(),
            seg_bytes@.len() == i,
            forall|j: int| 0 <= j < i ==> seg_bytes@[j]@ == encode_utf8(expr_path@[j]@),
        decreases expr_path@.len() - i,
    {
        let b = expr_path[i].as_str().as_bytes_vec();
        seg_bytes.push(b);
        i = i + 1;
    }
    proof {
        assert(views_of(seg_bytes@) =~= string_bytes(expr_path@));
    }
    let expr_tree_path = create_expr_tree_path(&seg_bytes, &cel_expr_hash, req_hash, res_hash);
    proof {
        assert(views_of(expr_tree_path@) == dpath);
        lemma_insert_into_empty(dpath, 0);
        let n = string_bytes(expr_path@).len() as int;
        assert forall|j: int| 0 <= j < dpath.len() implies (#[trigger] dpath[j]).len()
            < 0x1_0000_0000 by {
            if j == 0 {
                assert(dpath[j] == http_expr_label());
            } else if j <= n {
                assert(dpath[j] == string_bytes(expr_path@)[j - 1]);
                assert(string_bytes(expr_path@)[j - 1] == encode_utf8(expr_path@[j - 1]@));
            } else if j == n + 1 {
                assert(dpath[j] == selector_label());
            } else if j == n + 2 {
                assert(dpath[j] == sha256_of(encode_utf8(cel_expr@)));
            } else if j == n + 3 {
                match rq {
                    Some(h) => {
                        assert(dpath[j] == h);
                    },
                    None => {
                        assert(dpath[j] == rs->Some_0);
                    },
                }
            } else {
                assert(dpath[j] == rs->Some_0);
            }
        }
    }
    let mut expr_tree = ExprTree::new();
    match expr_tree.insert(&expr_tree_path) {
        Ok(()) => {},
        Err(e) => {
            proof {
                assert(false);
            }
            return Err(e);
        },
    }
    let certified_data = expr_tree.get_certified_data();
    let w = witness(&expr_tree.root, &expr_tree_path, 0);
    proof {
        let root = spec_insert(TreeV::Empty, dpath, 0)->Some_0;
        assert(expr_tree.root@ == root);
        assert(w@ == spec_witness(root, dpath, 0));
        assert(w@ == root);
        assert(tree_v_small(root));
        lemma_serialize_expand_round_trip(root, dpath);
    }
    let tree_cbor = tree_to_cbor(&w);
    Ok(V2TreeFixture { tree_cbor, certified_data })
}

/// Compose the version-2 header for a serialized certificate and tree: the
/// declared path is prefixed with its protocol root segment, serialized to
/// its canonical bytes, and packed beside the other two parts.
pub fn create_v2_header(
    expr_path: &Vec<String>,
    certificate_cbor: &Vec<u8>,
    tree_cbor: &Vec<u8>,
) -> (r: String)
    requires
        expr_path@.len() < 0xffff_ffff,
        forall|j: int| 0 <= j < expr_path@.len() ==> encode_utf8(expr_path@[j]@).len()
            < 0x1_0000_0000,
    ensures
        encode_utf8(r@) == spec_header_bytes(
            certificate_cbor@,
            tree_cbor@,
            Some(
                spec_cbor_tag() + spec_cbor_text_array(
                    seq![encode_utf8("http_expr"@)] + string_bytes(expr_path@),
                ),
            ),
            2,
        ),
{
    let mut full_expr_path: Vec<String> = Vec::new();
    full_expr_path.push(String::from_str("http_expr"));
    let mut i: usize = 0;
    while i < expr_path.len()
        invariant
            i <= expr_path@.len(),
            full_expr_path@.len() == i + 1,
            full_expr_path@[0]@ == "http_expr"@,
            forall|j: int| 0 <= j < i ==> full_expr_path@[j + 1]@ == expr_path@[j]@,
        decreases expr_path@.len() - i,
    {
        let s = expr_path[i].as_str();
        full_expr_path.push(String::from_str(s));
        i = i + 1;
    }
    proof {
        assert(string_bytes(full_expr_path@) =~= seq![encode_utf8("http_expr"@)] + string_bytes(
            expr_path@,
        ));
        reveal_strlit("http_expr");
        assert(vstd::utf8::is_ascii_chars("http_expr"@));
        vstd::utf8::is_ascii_chars_encode_utf8("http_expr"@);
        assert(encode_utf8("http_expr"@).len() == 9);
        assert forall|j: int| 0 <= j < full_expr_path@.len() implies encode_utf8(
            full_expr_path@[j]@,
        ).len() < 0x1_0000_0000 by {
            if j > 0 {
                assert(full_expr_path@[j]@ == expr_path@[j - 1]@);
            }
        }
    }
    let path_cbor = serialize_to_cbor(&full_expr_path);
    create_versioned_certificate_header(certificate_cbor, tree_cbor, &path_cbor, 2)
}

/// Assemble a full certification fixture. The external signer's outputs for
/// this tree's certified data come in as plain values: the public root key
/// and the serialized certificate, both returned unchanged inside the
/// result. Under the wire-format limit the attempt always succeeds.
pub fn create_v2_fixture(
    cel_expr: &str,
    expr_path: &Vec<String>,
    root_key: Vec<u8>,
    certificate_cbor: &Vec<u8>,
    req_hash: Option<&Vec<u8>>,
    res_hash: Option<&Vec<u8>>,
) -> (r: Result<(V2TreeFixture, V2Fixture), TreeError>)
    requires
        expr_path@.len() < 0xffff_ffff,
        segments_fit(
            expr_path@,
            match req_hash {
                Some(h) => Some(h@),
                None => None::<Seq<u8>>,
            },
            match res_hash {
                Some(h) => Some(h@),
                None => None::<Seq<u8>>,
            },
        ),
    ensures
        r is Ok,
        r matches Ok(f) ==> tree_fixture_ok(
            f.0,
            expr_path@,
            cel_expr@,
            match req_hash {
                Some(h) => Some(h@),
                None => None::<Seq<u8>>,
            },
            match res_hash {
                Some(h) => Some(h@),
                None => None::<Seq<u8>>,
            },
        ),
        r matches Ok(f) ==> f.1.root_key@ == root_key@,
        r matches Ok(f) ==> encode_utf8(f.1.certificate_header@) == spec_header_bytes(
            certificate_cbor@,
            f.0.tree_cbor@,
            Some(
                spec_cbor_tag() + spec_cbor_text_array(
                    seq![encode_utf8("http_expr"@)] + string_bytes(expr_path@),
                ),
            ),
            2,
        ),
{
    let tree_fixture = match create_v2_tree_fixture(cel_expr, expr_path, req_hash, res_hash) {
        Ok(f) => f,
        Err(e) => {
            proof {
                assert(false);
            }
            return Err(e);
        },
    };
    let certificate_header = create_v2_header(
        expr_path,
        certificate_cbor,
        &tree_fixture.tree_cbor,
    );
    Ok((tree_fixture, V2Fixture { root_key, certificate_header }))
}

} // verus!
