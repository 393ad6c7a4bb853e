use response_certification::cel::{parse_cel_expression, remove_whitespace};
use response_certification::mapper::{
    map_cel_ast, CelExpression, DefaultCertification, DefaultRequestCertification,
    DefaultResponseCertification,
};

#[test]
fn parses_no_certification_expression() {
    let cel_expression = r#"
        default_certification (
            ValidationArgs {
                no_certification: Empty { }
            }
        )
    "#
    .to_string();
    let expected_result = CelExpression::DefaultCertification(None);

    let parsed_cel_expr = parse_cel_expression(&cel_expression).unwrap();
    let result = map_cel_ast(&parsed_cel_expr).unwrap();

    let minified_cel_expression = remove_whitespace(&cel_expression);
    let parsed_min_cel_expr = parse_cel_expression(&minified_cel_expression).unwrap();
    let minified_result = map_cel_ast(&parsed_min_cel_expr).unwrap();

    assert_eq!(&result, &expected_result);
    assert_eq!(&minified_result, &expected_result);
}

#[test]
fn parses_no_request_certification_expression() {
    let cel_expression = r#"
        default_certification (
            ValidationArgs {
                certification: Certification {
                    no_request_certification: Empty {},
                    response_certification: ResponseCertification {
                        response_header_exclusions: ResponseHeaderList {
                            headers: ["Server","Date","X-Cache-Status"]
                        }
                    }
                }
            }
        )
    "#
    .to_string();
    let expected_result = CelExpression::DefaultCertification(Some(DefaultCertification {
        request_certification: None,
        response_certification: DefaultResponseCertification::ResponseHeaderExclusions(vec![
            "Server".to_string(),
            "Date".to_string(),
            "X-Cache-Status".to_string(),
        ]),
    }));

    let parsed_cel_expr = parse_cel_expression(&cel_expression).unwrap();
    let result = map_cel_ast(&parsed_cel_expr).unwrap();

    let minified_cel_expression = remove_whitespace(&cel_expression);
    let parsed_min_cel_expr = parse_cel_expression(&minified_cel_expression).unwrap();
    let minified_result = map_cel_ast(&parsed_min_cel_expr).unwrap();

    assert_eq!(&result, &expected_result);
    assert_eq!(&minified_result, &expected_result);
}

#[test]
fn parses_full_certification_expression() {
    let cel_expression = r#"
        default_certification (
            ValidationArgs {
                certification: Certification {
                    request_certification: RequestCertification {
                        certified_request_headers: ["host"],
                        certified_query_parameters: ["filter"]
                    },
                    response_certification: ResponseCertification {
                        response_header_exclusions: ResponseHeaderList {
                            headers: ["Content-Type","X-Frame-Options","Content-Security-Policy","Strict-Transport-Security","Referrer-Policy","Permissions-Policy"]
                        }
                    }
                }
            }
        )
    "#.to_string();
    let expected_result = CelExpression::DefaultCertification(Some(DefaultCertification {
        request_certification: Some(DefaultRequestCertification {
            headers: vec!["host".to_string()],
            query_parameters: vec!["filter".to_string()],
        }),
        response_certification: DefaultResponseCertification::ResponseHeaderExclusions(vec![
            "Content-Type".to_string(),
            "X-Frame-Options".to_string(),
            "Content-Security-Policy".to_string(),
            "Strict-Transport-Security".to_string(),
            "Referrer-Policy".to_string(),
            "Permissions-Policy".to_string(),
        ]),
    }));

    let parsed_cel_expr = parse_cel_expression(&cel_expression).unwrap();
    let result = map_cel_ast(&parsed_cel_expr).unwrap();

    let minified_cel_expression = remove_whitespace(&cel_expression);
    let parsed_min_cel_expr = parse_cel_expression(&minified_cel_expression).unwrap();
    let minified_result = map_cel_ast(&parsed_min_cel_expr).unwrap();

    assert_eq!(&result, &expected_result);
    assert_eq!(&minified_result, &expected_result);
}

#[test]
fn rejects_conflicting_response_certification() {
    let cel_expression = r#"
        default_certification (
            ValidationArgs {
                certification: Certification {
                    no_request_certification: Empty {},
                    response_certification: ResponseCertification {
                        response_header_exclusions: ResponseHeaderList {
                            headers: ["Server"]
                        },
                        certified_response_headers: ResponseHeaderList {
                            headers: ["Content-Type"]
                        }
                    }
                }
            }
        )
    "#
    .to_string();
    let parsed = parse_cel_expression(&cel_expression).unwrap();
    assert!(map_cel_ast(&parsed).is_err());
}

#[test]
fn rejects_unknown_field() {
    let cel_expression = "default_certification(ValidationArgs{surprise:Empty{}})";
    let parsed = parse_cel_expression(cel_expression).unwrap();
    assert!(map_cel_ast(&parsed).is_err());
}

#[test]
fn rejects_malformed_rule_text() {
    assert!(parse_cel_expression("default_certification(").is_err());
    assert!(parse_cel_expression("default_certification(ValidationArgs{no_certification Empty{}})").is_err());
    assert!(parse_cel_expression("@@@").is_err());
    assert!(parse_cel_expression("default_certification(ValidationArgs{x:\"unterminated})").is_err());
}
