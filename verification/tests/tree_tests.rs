use response_certification::cbor::{expand, tree_to_cbor};
use response_certification::hashes::hash;
use response_certification::tree::{digest, witness, ExprTree, HashTree};
use sha2::{Digest as Sha2Digest, Sha256};

fn sha_cat(parts: &[&[u8]]) -> Vec<u8> {
    let mut hasher = Sha256::new();
    for p in parts {
        hasher.update(p);
    }
    hasher.finalize().to_vec()
}

fn sep(tag: &str) -> Vec<u8> {
    let mut v = vec![tag.len() as u8];
    v.extend_from_slice(tag.as_bytes());
    v
}

#[test]
fn depth_two_tree_digest_matches_manual_computation() {
    let rule = r#"
        default_certification (
            ValidationArgs {
                certification: Certification {
                    no_request_certification: Empty {},
                    response_certification: ResponseCertification {
                        response_header_exclusions: ResponseHeaderList {
                            headers: ["Server","Date"]
                        }
                    }
                }
            }
        )
    "#;
    let rule_hash = hash(rule);

    let path: Vec<Vec<u8>> = vec![
        b"http_expr".to_vec(),
        b"<$>".to_vec(),
        rule_hash.clone(),
    ];
    let mut tree = ExprTree::new();
    tree.insert(&path).unwrap();
    let certified_data = tree.get_certified_data();

    let leaf = sha_cat(&[&sep("ic-hashtree-leaf"), &rule_hash]);
    let inner = sha_cat(&[&sep("ic-hashtree-labeled"), b"<$>", &leaf]);
    let root = sha_cat(&[&sep("ic-hashtree-labeled"), b"http_expr", &inner]);
    assert_eq!(certified_data, root);
}

#[test]
fn single_bit_flip_changes_root_digest() {
    let mut leaf = vec![0u8; 32];
    let path1: Vec<Vec<u8>> = vec![b"http_expr".to_vec(), b"<$>".to_vec(), leaf.clone()];
    leaf[0] ^= 1;
    let path2: Vec<Vec<u8>> = vec![b"http_expr".to_vec(), b"<$>".to_vec(), leaf];

    let mut t1 = ExprTree::new();
    t1.insert(&path1).unwrap();
    let mut t2 = ExprTree::new();
    t2.insert(&path2).unwrap();
    assert_ne!(t1.get_certified_data(), t2.get_certified_data());
}

#[test]
fn insertion_order_does_not_change_root_digest() {
    let pa: Vec<Vec<u8>> = vec![b"http_expr".to_vec(), b"a".to_vec(), vec![1u8; 32]];
    let pb: Vec<Vec<u8>> = vec![b"http_expr".to_vec(), b"b".to_vec(), vec![2u8; 32]];
    let pc: Vec<Vec<u8>> = vec![b"http_expr".to_vec(), b"c".to_vec(), vec![3u8; 32]];

    let mut t1 = ExprTree::new();
    t1.insert(&pa).unwrap();
    t1.insert(&pb).unwrap();
    t1.insert(&pc).unwrap();

    let mut t2 = ExprTree::new();
    t2.insert(&pc).unwrap();
    t2.insert(&pa).unwrap();
    t2.insert(&pb).unwrap();

    assert_eq!(t1.get_certified_data(), t2.get_certified_data());
}

#[test]
fn conflicting_insert_fails_and_leaves_tree_unchanged() {
    let p1: Vec<Vec<u8>> = vec![b"x".to_vec(), b"leaf".to_vec()];
    let p2: Vec<Vec<u8>> = vec![b"x".to_vec(), b"leaf".to_vec(), b"deeper".to_vec()];
    let mut t = ExprTree::new();
    t.insert(&p1).unwrap();
    let before = t.get_certified_data();
    assert!(t.insert(&p2).is_err());
    assert_eq!(t.get_certified_data(), before);
}

#[test]
fn witness_preserves_root_digest_and_prunes_siblings() {
    let pa: Vec<Vec<u8>> = vec![b"a".to_vec(), vec![1u8; 32]];
    let pb: Vec<Vec<u8>> = vec![b"b".to_vec(), vec![2u8; 32]];
    let mut t = ExprTree::new();
    t.insert(&pa).unwrap();
    t.insert(&pb).unwrap();
    let root = t.get_certified_data();

    let w = witness(&t.root, &pa, 0);
    assert_eq!(digest(&w), root);
    // the sibling under "b" must be collapsed to a digest
    match &w {
        HashTree::Fork(_, right) => match &**right {
            HashTree::Pruned(d) => assert_eq!(d.len(), 32),
            other => panic!("sibling not pruned: {:?}", tag_of(other)),
        },
        other => panic!("unexpected witness shape: {:?}", tag_of(other)),
    }
}

#[test]
fn expanding_a_serialized_witness_preserves_the_root_digest() {
    let pa: Vec<Vec<u8>> = vec![b"http_expr".to_vec(), b"a".to_vec(), vec![1u8; 32]];
    let pb: Vec<Vec<u8>> = vec![b"http_expr".to_vec(), b"b".to_vec(), vec![2u8; 32]];
    let mut t = ExprTree::new();
    t.insert(&pa).unwrap();
    t.insert(&pb).unwrap();
    let root = t.get_certified_data();

    let serialized = t.serialize_to_cbor(&pa);
    let reexpanded = expand(&serialized).unwrap();
    assert_eq!(digest(&reexpanded), root);
    // and the codec round-trips the full tree too
    let full = expand(&tree_to_cbor(&t.root)).unwrap();
    assert_eq!(digest(&full), root);
}

fn tag_of(t: &HashTree) -> &'static str {
    match t {
        HashTree::Empty => "empty",
        HashTree::Fork(_, _) => "fork",
        HashTree::Labeled(_, _) => "labeled",
        HashTree::Leaf(_) => "leaf",
        HashTree::Pruned(_) => "pruned",
    }
}
