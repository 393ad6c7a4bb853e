//! Lowering of the generic syntax tree into the typed certification rule.
//!
//! The mapper is strict where the parser is permissive: it checks the
//! function and record names, rejects unknown fields, enforces that exactly
//! one variant of each pair is declared, and normalizes the literal lists
//! into the typed ordered sequences.

use vstd::prelude::*;
use crate::cel::{AstFieldsV, AstValueV, CelAst, CelAstV, AstFields, AstValue, chars_to_string};

verus! {

/// A field of the rule language that the mapper reasons about.
#[derive(Debug)]
pub enum FieldName {
    NoCertification,
    Certification,
    NoRequestCertification,
    RequestCertification,
    CertifiedRequestHeaders,
    CertifiedQueryParameters,
    ResponseCertification,
    ResponseHeaderExclusions,
    CertifiedResponseHeaders,
    Headers,
}

/// A semantically invalid rule, named after what offends.
#[derive(Debug)]
pub enum MappingError {
    /// The top-level construct is not the expected certification call.
    UnknownFunction,
    /// The call's argument is not the expected record.
    InvalidArgument,
    /// A record lacks a required field.
    MissingField(FieldName),
    /// Two mutually exclusive fields are both declared.
    Conflict(FieldName, FieldName),
    /// A record declares a field this rule language does not know.
    UnknownField,
    /// A field's value does not have the required shape.
    InvalidFieldValue(FieldName),
}

/// The typed rule: what parts of a request/response pair must be certified.
#[derive(Debug, PartialEq, Eq)]
pub enum CelExpression {
    DefaultCertification(Option<DefaultCertification>),
}

/// A default-certification rule: the optional request half and the
/// mandatory response half.
#[derive(Debug, PartialEq, Eq)]
pub struct DefaultCertification {
    pub request_certification: Option<DefaultRequestCertification>,
    pub response_certification: DefaultResponseCertification,
}

/// The request half: certified header names and query parameter names, in
/// declaration order.
#[derive(Debug, PartialEq, Eq)]
pub struct DefaultRequestCertification {
    pub headers: Vec<String>,
    pub query_parameters: Vec<String>,
}

/// The response half: exactly one of the two header selections.
#[derive(Debug, PartialEq, Eq)]
pub enum DefaultResponseCertification {
    CertifiedResponseHeaders(Vec<String>),
    ResponseHeaderExclusions(Vec<String>),
}

/// Model of the typed rule.
pub enum CelExpressionV {
    DefaultCertification(Option<DefaultCertificationV>),
}

/// Model of a default-certification rule.
pub struct DefaultCertificationV {
    pub request_certification: Option<DefaultRequestCertificationV>,
    pub response_certification: DefaultResponseCertificationV,
}

/// Model of the request half.
pub struct DefaultRequestCertificationV {
    pub headers: Seq<Seq<char>>,
    pub query_parameters: Seq<Seq<char>>,
}

/// Model of the response half.
pub enum DefaultResponseCertificationV {
    CertifiedResponseHeaders(Seq<Seq<char>>),
    ResponseHeaderExclusions(Seq<Seq<char>>),
}

/// The views of a list of texts.
pub open spec fn strings_v(s: Seq<String>) -> Seq<Seq<char>> {
    s.map_values(|x: String| x@)
}

/// The model of a typed rule value.
pub open spec fn expression_v(e: CelExpression) -> CelExpressionV {
    match e {
        CelExpression::DefaultCertification(inner) => CelExpressionV::DefaultCertification(
            match inner {
                Some(c) => Some(
                    DefaultCertificationV {
                        request_certification: match c.request_certification {
                            Some(r) => Some(
                                DefaultRequestCertificationV {
                                    headers: strings_v(r.headers@),
                                    query_parameters: strings_v(r.query_parameters@),
                                },
                            ),
                            None => None,
                        },
                        response_certification: match c.response_certification {
                            DefaultResponseCertification::CertifiedResponseHeaders(h) => {
                                DefaultResponseCertificationV::CertifiedResponseHeaders(
                                    strings_v(h@),
                                )
                            },
                            DefaultResponseCertification::ResponseHeaderExclusions(h) => {
                                DefaultResponseCertificationV::ResponseHeaderExclusions(
                                    strings_v(h@),
                                )
                            },
                        },
                    },
                ),
                None => None,
            },
        ),
    }
}

/// The first value declared under the given field name.
pub open spec fn spec_find_field(f: AstFieldsV, name: Seq<char>) -> Option<AstValueV>
    decreases f,
{
    match f {
        AstFieldsV::Nil => None,
        AstFieldsV::Cons(n, v, rest) => if n == name {
            Some(*v)
        } else {
            spec_find_field(*rest, name)
        },
    }
}

/// Every declared field name is among the allowed ones.
pub open spec fn spec_fields_among(f: AstFieldsV, allowed: Seq<Seq<char>>) -> bool
    decreases f,
{
    match f {
        AstFieldsV::Nil => true,
        AstFieldsV::Cons(n, _, rest) => allowed.contains(n) && spec_fields_among(*rest, allowed),
    }
}

/// An `Empty { }` marker record.
pub open spec fn spec_is_empty_record(v: AstValueV) -> bool {
    v matches AstValueV::Record(n, fields) && n == "Empty"@ && *fields is Nil
}

/// Map a generic syntax tree to the typed rule, or fail naming the offense.
pub open spec fn spec_map(ast: CelAstV) -> Result<CelExpressionV, MappingError> {
    if ast.name != "default_certification"@ {
        Err(MappingError::UnknownFunction)
    } else {
        match ast.arg {
            AstValueV::Record(rname, fields) => if rname != "ValidationArgs"@ {
                Err(MappingError::InvalidArgument)
            } else {
                spec_map_validation_args(*fields)
            },
            _ => Err(MappingError::InvalidArgument),
        }
    }
}

/// The body of `ValidationArgs`: either the explicit no-certification
/// marker, or one certification record; declaring both or neither fails.
pub open spec fn spec_map_validation_args(fields: AstFieldsV) -> Result<
    CelExpressionV,
    MappingError,
> {
    if !spec_fields_among(fields, seq!["no_certification"@, "certification"@]) {
        Err(MappingError::UnknownField)
    } else {
        let no_cert = spec_find_field(fields, "no_certification"@);
        let cert = spec_find_field(fields, "certification"@);
        if no_cert is Some && cert is Some {
            Err(MappingError::Conflict(FieldName::NoCertification, FieldName::Certification))
        } else {
            match no_cert {
                Some(v) => if spec_is_empty_record(v) {
                    Ok(CelExpressionV::DefaultCertification(None))
                } else {
                    Err(MappingError::InvalidFieldValue(FieldName::NoCertification))
                },
                None => match cert {
                    Some(v) => match v {
                        AstValueV::Record(cn, cf) => if cn == "Certification"@ {
                            spec_map_certification(*cf)
                        } else {
                            Err(MappingError::InvalidFieldValue(FieldName::Certification))
                        },
                        _ => Err(MappingError::InvalidFieldValue(FieldName::Certification)),
                    },
                    None => Err(MappingError::MissingField(FieldName::Certification)),
                },
            }
        }
    }
}

/// The body of a `Certification` record: one of the two request markers,
/// and the mandatory response half.
pub open spec fn spec_map_certification(fields: AstFieldsV) -> Result<
    CelExpressionV,
    MappingError,
> {
    if !spec_fields_among(
        fields,
        seq![
            "no_request_certification"@,
            "request_certification"@,
            "response_certification"@,
        ],
    ) {
        Err(MappingError::UnknownField)
    } else {
        let no_req = spec_find_field(fields, "no_request_certification"@);
        let req = spec_find_field(fields, "request_certification"@);
        if no_req is Some && req is Some {
            Err(
                MappingError::Conflict(
                    FieldName::NoRequestCertification,
                    FieldName::RequestCertification,
                ),
            )
        } else if no_req is None && req is None {
            Err(MappingError::MissingField(FieldName::RequestCertification))
        } else if no_req matches Some(v) && !spec_is_empty_record(v) {
            Err(MappingError::InvalidFieldValue(FieldName::NoRequestCertification))
        } else {
            let request = match req {
                Some(v) => match spec_map_request(v) {
                    Ok(r) => Ok(Some(r)),
                    Err(e) => Err(e),
                },
                None => Ok(None::<DefaultRequestCertificationV>),
            };
            match request {
                Err(e) => Err(e),
                Ok(request) => match spec_find_field(fields, "response_certification"@) {
                    None => Err(MappingError::MissingField(FieldName::ResponseCertification)),
                    Some(rv) => match spec_map_response(rv) {
                        Ok(response) => Ok(
                            CelExpressionV::DefaultCertification(
                                Some(
                                    DefaultCertificationV {
                                        request_certification: request,
                                        response_certification: response,
                                    },
                                ),
                            ),
                        ),
                        Err(e) => Err(e),
                    },
                },
            }
        }
    }
}

/// A `RequestCertification` record: its two mandatory lists.
pub open spec fn spec_map_request(v: AstValueV) -> Result<
    DefaultRequestCertificationV,
    MappingError,
> {
    match v {
        AstValueV::Record(n, fields) => if n != "RequestCertification"@ {
            Err(MappingError::InvalidFieldValue(FieldName::RequestCertification))
        } else if !spec_fields_among(
            *fields,
            seq!["certified_request_headers"@, "certified_query_parameters"@],
        ) {
            Err(MappingError::UnknownField)
        } else {
            match spec_find_field(*fields, "certified_request_headers"@) {
                Some(AstValueV::List(headers)) => match spec_find_field(
                    *fields,
                    "certified_query_parameters"@,
                ) {
                    Some(AstValueV::List(params)) => Ok(
                        DefaultRequestCertificationV {
                            headers: headers,
                            query_parameters: params,
                        },
                    ),
                    Some(_) => Err(
                        MappingError::InvalidFieldValue(FieldName::CertifiedQueryParameters),
                    ),
                    None => Err(MappingError::MissingField(FieldName::CertifiedQueryParameters)),
                },
                Some(_) => Err(MappingError::InvalidFieldValue(FieldName::CertifiedRequestHeaders)),
                None => Err(MappingError::MissingField(FieldName::CertifiedRequestHeaders)),
            }
        },
        _ => Err(MappingError::InvalidFieldValue(FieldName::RequestCertification)),
    }
}

/// A `ResponseCertification` record: exactly one of the two header
/// selections, each wrapping a `ResponseHeaderList` with its `headers`
/// list.
pub open spec fn spec_map_response(v: AstValueV) -> Result<
    DefaultResponseCertificationV,
    MappingError,
> {
    match v {
        AstValueV::Record(n, fields) => if n != "ResponseCertification"@ {
            Err(MappingError::InvalidFieldValue(FieldName::ResponseCertification))
        } else if !spec_fields_among(
            *fields,
            seq!["response_header_exclusions"@, "certified_response_headers"@],
        ) {
            Err(MappingError::UnknownField)
        } else {
            let excl = spec_find_field(*fields, "response_header_exclusions"@);
            let incl = spec_find_field(*fields, "certified_response_headers"@);
            if excl is Some && incl is Some {
                Err(
                    MappingError::Conflict(
                        FieldName::ResponseHeaderExclusions,
                        FieldName::CertifiedResponseHeaders,
                    ),
                )
            } else {
                match excl {
                    Some(ev) => match spec_header_list(ev) {
                        Ok(h) => Ok(DefaultResponseCertificationV::ResponseHeaderExclusions(h)),
                        Err(e) => Err(e),
                    },
                    None => match incl {
                        Some(iv) => match spec_header_list(iv) {
                            Ok(h) => Ok(
                                DefaultResponseCertificationV::CertifiedResponseHeaders(h),
                            ),
                            Err(e) => Err(e),
                        },
                        None => Err(
                            MappingError::MissingField(FieldName::CertifiedResponseHeaders),
                        ),
                    },
                }
            }
        },
        _ => Err(MappingError::InvalidFieldValue(FieldName::ResponseCertification)),
    }
}

/// A `ResponseHeaderList { headers: [...] }` record.
pub open spec fn spec_header_list(v: AstValueV) -> Result<Seq<Seq<char>>, MappingError> {
    match v {
        AstValueV::Record(n, fields) => if n != "ResponseHeaderList"@ {
            Err(MappingError::InvalidFieldValue(FieldName::Headers))
        } else if !spec_fields_among(*fields, seq!["headers"@]) {
            Err(MappingError::UnknownField)
        } else {
            match spec_find_field(*fields, "headers"@) {
                Some(AstValueV::List(h)) => Ok(h),
                Some(_) => Err(MappingError::InvalidFieldValue(FieldName::Headers)),
                None => Err(MappingError::MissingField(FieldName::Headers)),
            }
        },
        _ => Err(MappingError::InvalidFieldValue(FieldName::Headers)),
    }
}

/// Whether a character vector spells the given literal.
fn ident_is(v: &Vec<char>, lit: &str) -> (r: bool)
    ensures
        r == (v@ == lit@),
{
    let n = lit.unicode_len();
    if v.len() != n {
        return false;
    }
    let mut i: usize = 0;
    while i < n
        invariant
            i <= n,
            n == lit@.len(),
            n == v@.len(),
            forall|j: int| 0 <= j < i ==> v@[j] == lit@[j],
        decreases n - i,
    {
        if v[i] != lit.get_char(i) {
            return false;
        }
        i = i + 1;
    }
    proof {
        assert(v@ =~= lit@);
    }
    true
}

/// The first value declared under the given field name.
fn find_field<'a>(f: &'a AstFields, name: &str) -> (r: Option<&'a AstValue>)
    ensures
        r matches Some(v) ==> spec_find_field(crate::cel::fields_v(*f), name@) == Some(v@),
        r is None ==> spec_find_field(crate::cel::fields_v(*f), name@) is None,
    decreases *f,
{
    match f {
        AstFields::Nil => None,
        AstFields::Cons(n, v, rest) => {
            if ident_is(n, name) {
                Some(v)
            } else {
                find_field(rest, name)
            }
        },
    }
}

/// Every declared field is among the two allowed names.
fn fields_among2(f: &AstFields, a: &str, b: &str) -> (r: bool)
    ensures
        r == spec_fields_among(crate::cel::fields_v(*f), seq![a@, b@]),
    decreases *f,
{
    match f {
        AstFields::Nil => true,
        AstFields::Cons(n, _, rest) => {
            let ok = ident_is(n, a) || ident_is(n, b);
            proof {
                let names = seq![a@, b@];
                if n@ == a@ {
                    assert(names[0] == n@);
                    assert(names.contains(n@));
                }
                if n@ == b@ {
                    assert(names[1] == n@);
                    assert(names.contains(n@));
                }
                if n@ != a@ && n@ != b@ {
                    assert(forall|k: int| 0 <= k < names.len() ==> names[k] != n@);
                    assert(!names.contains(n@));
                }
            }
            ok && fields_among2(rest, a, b)
        },
    }
}

/// Every declared field is among the three allowed names.
fn fields_among3(f: &AstFields, a: &str, b: &str, c: &str) -> (r: bool)
    ensures
        r == spec_fields_among(crate::cel::fields_v(*f), seq![a@, b@, c@]),
    decreases *f,
{
    match f {
        AstFields::Nil => true,
        AstFields::Cons(n, _, rest) => {
            let ok = ident_is(n, a) || ident_is(n, b) || ident_is(n, c);
            proof {
                let names = seq![a@, b@, c@];
                if n@ == a@ {
                    assert(names[0] == n@);
                    assert(names.contains(n@));
                }
                if n@ == b@ {
                    assert(names[1] == n@);
                    assert(names.contains(n@));
                }
                if n@ == c@ {
                    assert(names[2] == n@);
                    assert(names.contains(n@));
                }
                if n@ != a@ && n@ != b@ && n@ != c@ {
                    assert(forall|k: int| 0 <= k < names.len() ==> names[k] != n@);
                    assert(!names.contains(n@));
                }
            }
            ok && fields_among3(rest, a, b, c)
        },
    }
}

/// Every declared field is the one allowed name.
fn fields_among1(f: &AstFields, a: &str) -> (r: bool)
    ensures
        r == spec_fields_among(crate::cel::fields_v(*f), seq![a@]),
    decreases *f,
{
    match f {
        AstFields::Nil => true,
        AstFields::Cons(n, _, rest) => {
            let ok = ident_is(n, a);
            proof {
                let names = seq![a@];
                if n@ == a@ {
                    assert(names[0] == n@);
                    assert(names.contains(n@));
                }
                if n@ != a@ {
                    assert(forall|k: int| 0 <= k < names.len() ==> names[k] != n@);
                    assert(!names.contains(n@));
                }
            }
            ok && fields_among1(rest, a)
        },
    }
}

/// An `Empty { }` marker record.
fn is_empty_record(v: &AstValue) -> (r: bool)
    ensures
        r == spec_is_empty_record(v@),
{
    match v {
        AstValue::Record(n, fields) => {
            let is_empty_name = ident_is(n, "Empty");
            is_empty_name && matches!(&**fields, AstFields::Nil)
        },
        _ => false,
    }
}

/// Convert a list of character vectors to texts.
fn to_strings(items: &Vec<Vec<char>>) -> (r: Vec<String>)
    ensures
        strings_v(r@) == items@.map_values(|x: Vec<char>| x@),
{
    let mut r: Vec<String> = Vec::new();
    let mut i: usize = 0;
    while i < items.len()
        invariant
            i <= items@.len(),
            r@.len() == i,
            forall|j: int| 0 <= j < i ==> r@[j]@ == items@[j]@,
        decreases items@.len() - i,
    {
        r.push(chars_to_string(&items[i]));
        i = i + 1;
    }
    proof {
        assert(strings_v(r@) =~= items@.map_values(|x: Vec<char>| x@));
    }
    r
}

/// Extract the list behind a value, if it is one.
fn value_list<'a>(v: &'a AstValue) -> (r: Option<&'a Vec<Vec<char>>>)
    ensures
        r matches Some(items) ==> v@ == crate::cel::AstValueV::List(
            items@.map_values(|x: Vec<char>| x@),
        ),
        r is None ==> !(v@ is List),
{
    match v {
        AstValue::List(items) => Some(items),
        _ => None,
    }
}

/// Map `ResponseHeaderList { headers: [...] }` to its list.
fn header_list(v: &AstValue) -> (r: Result<Vec<String>, MappingError>)
    ensures
        r matches Ok(h) ==> spec_header_list(v@) == Ok::<_, MappingError>(strings_v(h@)),
        r matches Err(e) ==> spec_header_list(v@) == Err::<Seq<Seq<char>>, MappingError>(e),
{
    match v {
        AstValue::Record(n, fields) => {
            if !ident_is(n, "ResponseHeaderList") {
                return Err(MappingError::InvalidFieldValue(FieldName::Headers));
            }
            if !fields_among1(fields, "headers") {
                return Err(MappingError::UnknownField);
            }
            match find_field(fields, "headers") {
                Some(hv) => match value_list(hv) {
                    Some(items) => Ok(to_strings(items)),
                    None => Err(MappingError::InvalidFieldValue(FieldName::Headers)),
                },
                None => Err(MappingError::MissingField(FieldName::Headers)),
            }
        },
        _ => Err(MappingError::InvalidFieldValue(FieldName::Headers)),
    }
}

/// Map a `RequestCertification` record.
fn map_request(v: &AstValue) -> (r: Result<DefaultRequestCertification, MappingError>)
    ensures
        r matches Ok(q) ==> spec_map_request(v@) == Ok::<_, MappingError>(
            (DefaultRequestCertificationV {
                headers: strings_v(q.headers@),
                query_parameters: strings_v(q.query_parameters@),
            }),
        ),
        r matches Err(e) ==> spec_map_request(v@) == Err::<DefaultRequestCertificationV,
            MappingError,
        >(e),
{
    match v {
        AstValue::Record(n, fields) => {
            if !ident_is(n, "RequestCertification") {
                return Err(MappingError::InvalidFieldValue(FieldName::RequestCertification));
            }
            if !fields_among2(fields, "certified_request_headers", "certified_query_parameters") {
                return Err(MappingError::UnknownField);
            }
            match find_field(fields, "certified_request_headers") {
                Some(hv) => match value_list(hv) {
                    Some(headers) => match find_field(fields, "certified_query_parameters") {
                        Some(pv) => match value_list(pv) {
                            Some(params) => Ok(
                                DefaultRequestCertification {
                                    headers: to_strings(headers),
                                    query_parameters: to_strings(params),
                                },
                            ),
                            None => Err(
                                MappingError::InvalidFieldValue(
                                    FieldName::CertifiedQueryParameters,
                                ),
                            ),
                        },
                        None => Err(
                            MappingError::MissingField(FieldName::CertifiedQueryParameters),
                        ),
                    },
                    None => Err(
                        MappingError::InvalidFieldValue(FieldName::CertifiedRequestHeaders),
                    ),
                },
                None => Err(MappingError::MissingField(FieldName::CertifiedRequestHeaders)),
            }
        },
        _ => Err(MappingError::InvalidFieldValue(FieldName::RequestCertification)),
    }
}

/// Map a `ResponseCertification` record.
fn map_response(v: &AstValue) -> (r: Result<DefaultResponseCertification, MappingError>)
    ensures
        r matches Ok(q) ==> spec_map_response(v@) == Ok::<_, MappingError>(
            (match q {
                DefaultResponseCertification::CertifiedResponseHeaders(h) => {
                    DefaultResponseCertificationV::CertifiedResponseHeaders(strings_v(h@))
                },
                DefaultResponseCertification::ResponseHeaderExclusions(h) => {
                    DefaultResponseCertificationV::ResponseHeaderExclusions(strings_v(h@))
                },
            }),
        ),
        r matches Err(e) ==> spec_map_response(v@) == Err::<DefaultResponseCertificationV,
            MappingError,
        >(e),
{
    match v {
        AstValue::Record(n, fields) => {
            if !ident_is(n, "ResponseCertification") {
                return Err(MappingError::InvalidFieldValue(FieldName::ResponseCertification));
            }
            if !fields_among2(
                fields,
                "response_header_exclusions",
                "certified_response_headers",
            ) {
                return Err(MappingError::UnknownField);
            }
            let excl = find_field(fields, "response_header_exclusions");
            let incl = find_field(fields, "certified_response_headers");
            match (excl, incl) {
                (Some(_), Some(_)) => Err(
                    MappingError::Conflict(
                        FieldName::ResponseHeaderExclusions,
                        FieldName::CertifiedResponseHeaders,
                    ),
                ),
                (Some(ev), None) => match header_list(ev) {
                    Ok(h) => Ok(DefaultResponseCertification::ResponseHeaderExclusions(h)),
                    Err(e) => Err(e),
                },
                (None, Some(iv)) => match header_list(iv) {
                    Ok(h) => Ok(DefaultResponseCertification::CertifiedResponseHeaders(h)),
                    Err(e) => Err(e),
                },
                (None, None) => Err(
                    MappingError::MissingField(FieldName::CertifiedResponseHeaders),
                ),
            }
        },
        _ => Err(MappingError::InvalidFieldValue(FieldName::ResponseCertification)),
    }
}

/// Lower a parsed rule into the typed certification rule, or fail with the
/// offending field.
pub fn map_cel_ast(ast: &CelAst) -> (r: Result<CelExpression, MappingError>)
    ensures
        r matches Ok(e) ==> spec_map(ast@) == Ok::<_, MappingError>(expression_v(e)),
        r matches Err(e) ==> spec_map(ast@) == Err::<CelExpressionV, MappingError>(e),
{
    if !ident_is(&ast.name, "default_certification") {
        return Err(MappingError::UnknownFunction);
    }
    match &ast.arg {
        AstValue::Record(rname, fields) => {
            if !ident_is(rname, "ValidationArgs") {
                return Err(MappingError::InvalidArgument);
            }
            if !fields_among2(fields, "no_certification", "certification") {
                return Err(MappingError::UnknownField);
            }
            let no_cert = find_field(fields, "no_certification");
            let cert = find_field(fields, "certification");
            match (no_cert, cert) {
                (Some(_), Some(_)) => Err(
                    MappingError::Conflict(
                        FieldName::NoCertification,
                        FieldName::Certification,
                    ),
                ),
                (Some(v), None) => {
                    if is_empty_record(v) {
                        Ok(CelExpression::DefaultCertification(None))
                    } else {
                        Err(MappingError::InvalidFieldValue(FieldName::NoCertification))
                    }
                },
                (None, Some(v)) => map_certification_value(v),
                (None, None) => Err(MappingError::MissingField(FieldName::Certification)),
            }
        },
        _ => Err(MappingError::InvalidArgument),
    }
}

/// Map the value declared under `certification`.
fn map_certification_value(v: &AstValue) -> (r: Result<CelExpression, MappingError>)
    ensures
        r matches Ok(e) ==> (match v@ {
            AstValueV::Record(cn, cf) => if cn == "Certification"@ {
                spec_map_certification(*cf)
            } else {
                Err(MappingError::InvalidFieldValue(FieldName::Certification))
            },
            _ => Err(MappingError::InvalidFieldValue(FieldName::Certification)),
        }) == Ok::<_, MappingError>(expression_v(e)),
        r matches Err(e) ==> (match v@ {
            AstValueV::Record(cn, cf) => if cn == "Certification"@ {
                spec_map_certification(*cf)
            } else {
                Err(MappingError::InvalidFieldValue(FieldName::Certification))
            },
            _ => Err(MappingError::InvalidFieldValue(FieldName::Certification)),
        }) == Err::<CelExpressionV, MappingError>(e),
{
    match v {
        AstValue::Record(cn, cf) => {
            if !ident_is(cn, "Certification") {
                return Err(MappingError::InvalidFieldValue(FieldName::Certification));
            }
            if !fields_among3(
                cf,
                "no_request_certification",
                "request_certification",
                "response_certification",
            ) {
                return Err(MappingError::UnknownField);
            }
            let no_req = find_field(cf, "no_request_certification");
            let req = find_field(cf, "request_certification");
            if matches!((no_req, req), (Some(_), Some(_))) {
                return Err(
                    MappingError::Conflict(
                        FieldName::NoRequestCertification,
                        FieldName::RequestCertification,
                    ),
                );
            }
            if matches!((no_req, req), (None, None)) {
                return Err(MappingError::MissingField(FieldName::RequestCertification));
            }
            match no_req {
                Some(nv) => {
                    if !is_empty_record(nv) {
                        return Err(
                            MappingError::InvalidFieldValue(FieldName::NoRequestCertification),
                        );
                    }
                },
                None => {},
            }
            let request = match req {
                Some(rv) => match map_request(rv) {
                    Ok(q) => Some(q),
                    Err(e) => {
                        return Err(e);
                    },
                },
                None => None,
            };
            match find_field(cf, "response_certification") {
                None => Err(MappingError::MissingField(FieldName::ResponseCertification)),
                Some(rv) => match map_response(rv) {
                    Ok(response) => Ok(
                        CelExpression::DefaultCertification(
                            Some(
                                DefaultCertification {
                                    request_certification: request,
                                    response_certification: response,
                                },
                            ),
                        ),
                    ),
                    Err(e) => Err(e),
                },
            }
        },
        _ => Err(MappingError::InvalidFieldValue(FieldName::Certification)),
    }
}

/// A rule declaring only the explicit no-certification marker maps to the
/// typed rule that requests nothing, exactly.
pub proof fn lemma_no_certification_maps_to_none(ast: CelAstV)
    requires
        ast.name == "default_certification"@,
        ast.arg is Record,
        ast.arg->Record_0 == "ValidationArgs"@,
        (*ast.arg->Record_1) matches AstFieldsV::Cons(n, v, rest) && n == "no_certification"@
            && spec_is_empty_record(*v) && *rest is Nil,
    ensures
        spec_map(ast) == Ok::<_, MappingError>(CelExpressionV::DefaultCertification(None)),
{
    reveal_strlit("no_certification");
    reveal_strlit("certification");
    reveal_with_fuel(spec_fields_among, 3);
    reveal_with_fuel(spec_find_field, 3);
    let fields = ast.arg->Record_1;
    let names = seq!["no_certification"@, "certification"@];
    assert(names[0] == "no_certification"@);
    assert(names.contains("no_certification"@));
    assert("no_certification"@ != "certification"@);
    assert(spec_fields_among(*fields, names));
    assert(spec_find_field(*fields, "no_certification"@) is Some);
    assert(spec_find_field(*fields, "certification"@) is None);
}

/// A response record declaring both header selections fails mapping with
/// the conflict of those two fields, whatever else the rule holds.
pub proof fn lemma_conflicting_response_certification(v: AstValueV)
    requires
        v matches AstValueV::Record(n, fields) && n == "ResponseCertification"@,
        spec_find_field(*v->Record_1, "response_header_exclusions"@) is Some,
        spec_find_field(*v->Record_1, "certified_response_headers"@) is Some,
        spec_fields_among(
            *v->Record_1,
            seq!["response_header_exclusions"@, "certified_response_headers"@],
        ),
    ensures
        spec_map_response(v) == Err::<DefaultResponseCertificationV, MappingError>(
            MappingError::Conflict(
                FieldName::ResponseHeaderExclusions,
                FieldName::CertifiedResponseHeaders,
            ),
        ),
{
}

} // verus!
