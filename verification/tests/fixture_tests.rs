use response_certification::fixture::{create_expr_tree_path, create_v2_fixture, create_v2_header, create_v2_tree_fixture};
use response_certification::hashes::hash;
use response_certification::header::decode_certificate_header;
use response_certification::tree::ExprTree;
use sha2::{Digest as Sha2Digest, Sha256};

fn sha_cat(parts: &[&[u8]]) -> Vec<u8> {
    let mut hasher = Sha256::new();
    for p in parts {
        hasher.update(p);
    }
    hasher.finalize().to_vec()
}

fn sep(tag: &str) -> Vec<u8> {
    let mut v = vec![tag.len() as u8];
    v.extend_from_slice(tag.as_bytes());
    v
}

#[test]
fn expr_tree_path_has_root_selector_and_hashes_in_order() {
    let segs: Vec<Vec<u8>> = vec![b"assets".to_vec()];
    let cel = vec![1u8; 32];
    let req = vec![2u8; 32];
    let res = vec![3u8; 32];
    let p = create_expr_tree_path(&segs, &cel, Some(&req), Some(&res));
    assert_eq!(
        p,
        vec![
            b"http_expr".to_vec(),
            b"assets".to_vec(),
            b"<$>".to_vec(),
            cel.clone(),
            req,
            res
        ]
    );
    let p2 = create_expr_tree_path(&segs, &cel, None, None);
    assert_eq!(
        p2,
        vec![
            b"http_expr".to_vec(),
            b"assets".to_vec(),
            b"<$>".to_vec(),
            cel
        ]
    );
}

#[test]
fn tree_fixture_commits_to_the_declared_path() {
    let rule = "default_certification(ValidationArgs{no_certification:Empty{}})";
    let fixture = create_v2_tree_fixture(rule, &vec!["assets".to_string()], None, None).unwrap();

    // the same insertion done by hand gives the same certified data
    let rule_hash = hash(rule);
    let path: Vec<Vec<u8>> = vec![
        b"http_expr".to_vec(),
        b"assets".to_vec(),
        b"<$>".to_vec(),
        rule_hash,
    ];
    let mut tree = ExprTree::new();
    tree.insert(&path).unwrap();
    assert_eq!(fixture.certified_data, tree.get_certified_data());
    assert_eq!(fixture.certified_data.len(), 32);
    // the serialized witness opens with the self-describing tag
    assert_eq!(&fixture.tree_cbor[0..3], &[0xd9, 0xd9, 0xf7]);
}

#[test]
fn empty_expr_path_fixture_matches_manual_depth_two_digest() {
    let rule = r#"
        default_certification (
            ValidationArgs {
                certification: Certification {
                    no_request_certification: Empty {},
                    response_certification: ResponseCertification {
                        response_header_exclusions: ResponseHeaderList {
                            headers: ["Server","Date"]
                        }
                    }
                }
            }
        )
    "#;
    let fixture = create_v2_tree_fixture(rule, &Vec::new(), None, None).unwrap();

    let rule_hash = hash(rule);
    let leaf = sha_cat(&[&sep("ic-hashtree-leaf"), &rule_hash]);
    let inner = sha_cat(&[&sep("ic-hashtree-labeled"), b"<$>", &leaf]);
    let root = sha_cat(&[&sep("ic-hashtree-labeled"), b"http_expr", &inner]);
    assert_eq!(fixture.certified_data, root);
}

#[test]
fn v2_header_carries_its_parts_and_the_rooted_path() {
    let cert: Vec<u8> = vec![9, 9, 9];
    let tree: Vec<u8> = vec![0xd9, 0xd9, 0xf7, 0x81, 0x00];
    let header = create_v2_header(
        &vec!["assets".to_string(), "<$>".to_string()],
        &cert,
        &tree,
    );
    let decoded = decode_certificate_header(&header).unwrap();
    assert_eq!(decoded.certificate, cert);
    assert_eq!(decoded.tree, tree);
    assert_eq!(decoded.version, 2);
    // the declared path is serialized as a tagged array of the root segment
    // and the given segments
    let expected_path: Vec<u8> = vec![
        0xd9, 0xd9, 0xf7, // self-describing tag
        0x83, // array of three texts
        0x69, b'h', b't', b't', b'p', b'_', b'e', b'x', b'p', b'r',
        0x66, b'a', b's', b's', b'e', b't', b's',
        0x63, b'<', b'$', b'>',
    ];
    assert_eq!(decoded.expr_path, Some(expected_path));
}

#[test]
fn full_fixture_packages_signer_outputs() {
    let rule = "default_certification(ValidationArgs{no_certification:Empty{}})";
    let root_key = vec![7u8; 96];
    let certificate_cbor = vec![0xd9, 0xd9, 0xf7, 0xa1, 0x60, 0x40];
    let (tree_fixture, fixture) = create_v2_fixture(
        rule,
        &vec!["assets".to_string()],
        root_key.clone(),
        &certificate_cbor,
        None,
        None,
    )
    .unwrap();
    assert_eq!(fixture.root_key, root_key);
    let decoded = decode_certificate_header(&fixture.certificate_header).unwrap();
    assert_eq!(decoded.certificate, certificate_cbor);
    assert_eq!(decoded.tree, tree_fixture.tree_cbor);
    assert_eq!(decoded.version, 2);
}
