use response_certification::b64::{b64_decode, b64_encode};
use response_certification::header::{
    create_versioned_certificate_header, decode_certificate_header, HeaderFormatError,
};

#[test]
fn base64_round_trips_and_is_not_identity() {
    let cases: Vec<Vec<u8>> = vec![
        vec![],
        vec![0],
        vec![255, 0],
        vec![1, 2, 3],
        vec![1, 2, 3, 4],
        (0u8..=255).collect(),
    ];
    for case in cases {
        let e = b64_encode(&case);
        assert_eq!(b64_decode(&e).unwrap(), case);
        if !case.is_empty() {
            assert_ne!(e, case);
        }
    }
    assert_eq!(b64_encode(&b"hi".to_vec()), b"aGk=".to_vec());
}

#[test]
fn base64_rejects_non_canonical_input() {
    assert!(b64_decode(&b"a".to_vec()).is_none());
    assert!(b64_decode(&b"a===".to_vec()).is_none());
    assert!(b64_decode(&b"aGk*".to_vec()).is_none());
    // padding bits must be zero for a canonical encoding
    assert!(b64_decode(&b"aGk=".to_vec()).is_some());
    assert!(b64_decode(&b"aGl=".to_vec()).is_none());
}

#[test]
fn header_encode_decode_round_trips_exactly() {
    let cert: Vec<u8> = vec![1, 2, 3, 255, 0, 77];
    let tree: Vec<u8> = vec![0xd9, 0xd9, 0xf7, 0x81, 0x00];
    let path: Vec<u8> = vec![0xd9, 0xd9, 0xf7, 0x80];
    let header = create_versioned_certificate_header(&cert, &tree, &path, 2);
    let decoded = decode_certificate_header(&header).unwrap();
    assert_eq!(decoded.certificate, cert);
    assert_eq!(decoded.tree, tree);
    assert_eq!(decoded.expr_path, Some(path));
    assert_eq!(decoded.version, 2);
}

#[test]
fn header_has_expected_text_shape() {
    let header = create_versioned_certificate_header(
        &b"cert".to_vec(),
        &b"tree".to_vec(),
        &b"path".to_vec(),
        2,
    );
    assert_eq!(
        header,
        "certificate=:Y2VydA==:, tree=:dHJlZQ==:, expr_path=:cGF0aA==:, version=2"
    );
}

#[test]
fn future_version_header_is_rejected() {
    let header = create_versioned_certificate_header(
        &b"cert".to_vec(),
        &b"tree".to_vec(),
        &b"path".to_vec(),
        3,
    );
    match decode_certificate_header(&header) {
        Err(HeaderFormatError::UnsupportedVersion) => {},
        _ => panic!("a version-3 header must be refused"),
    }
}

#[test]
fn version_one_header_without_expr_path_decodes() {
    let header = "certificate=:Y2VydA==:, tree=:dHJlZQ==:, version=1";
    let decoded = decode_certificate_header(header).unwrap();
    assert_eq!(decoded.certificate, b"cert".to_vec());
    assert_eq!(decoded.tree, b"tree".to_vec());
    assert_eq!(decoded.expr_path, None);
    assert_eq!(decoded.version, 1);
}

#[test]
fn malformed_headers_are_rejected() {
    assert!(decode_certificate_header("").is_err());
    assert!(decode_certificate_header("certificate=:Y2VydA==:").is_err());
    assert!(decode_certificate_header("tree=:dHJlZQ==:, certificate=:Y2VydA==:, version=2").is_err());
    assert!(decode_certificate_header("certificate=:!!!:, tree=:dHJlZQ==:, version=1").is_err());
    assert!(decode_certificate_header("certificate=:Y2VydA==:, tree=:dHJlZQ==:, version=").is_err());
    // a version-2 header must carry its declared path
    match decode_certificate_header("certificate=:Y2VydA==:, tree=:dHJlZQ==:, version=2") {
        Err(HeaderFormatError::MissingExprPath) => {},
        _ => panic!("a version-2 header without a path must be refused"),
    }
    // a version-1 header must not carry one
    assert!(decode_certificate_header(
        "certificate=:Y2VydA==:, tree=:dHJlZQ==:, expr_path=:cGF0aA==:, version=1"
    )
    .is_err());
}
