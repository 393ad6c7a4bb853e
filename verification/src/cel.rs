//! The rule language: tokens, generic syntax tree, and parsing.
//!
//! Rule text is tokenized into identifiers, string literals and
//! punctuation; whitespace only separates tokens. The parser recognizes one
//! call-like construct wrapping a named-field record and is purely
//! grammatical: semantic checks live in the mapper.

use vstd::prelude::*;
use vstd::string::StrSliceExecFns;

verus! {

/// A token of the rule language, over character sequences.
pub enum TokenV {
    Ident(Seq<char>),
    StrLit(Seq<char>),
    LParen,
    RParen,
    LBrace,
    RBrace,
    LBracket,
    RBracket,
    Colon,
    Comma,
}

/// A token of the rule language.
pub enum Token {
    Ident(Vec<char>),
    StrLit(Vec<char>),
    LParen,
    RParen,
    LBrace,
    RBrace,
    LBracket,
    RBracket,
    Colon,
    Comma,
}

impl View for Token {
    type V = TokenV;

    open spec fn view(&self) -> TokenV {
        match self {
            Token::Ident(v) => TokenV::Ident(v@),
            Token::StrLit(v) => TokenV::StrLit(v@),
            Token::LParen => TokenV::LParen,
            Token::RParen => TokenV::RParen,
            Token::LBrace => TokenV::LBrace,
            Token::RBrace => TokenV::RBrace,
            Token::LBracket => TokenV::LBracket,
            Token::RBracket => TokenV::RBracket,
            Token::Colon => TokenV::Colon,
            Token::Comma => TokenV::Comma,
        }
    }
}

/// The views of a token sequence.
pub open spec fn token_views(s: Seq<Token>) -> Seq<TokenV> {
    s.map_values(|t: Token| t@)
}

/// Whitespace: space, tab, newline, carriage return.
pub open spec fn is_ws(c: char) -> bool {
    c == ' ' || c == '\t' || c == '\n' || c == '\r'
}

/// A character of an identifier: a letter, a digit or an underscore.
pub open spec fn is_ident_char(c: char) -> bool {
    (48 <= c as u32 <= 57) || (65 <= c as u32 <= 90) || (97 <= c as u32 <= 122) || c as u32 == 95
}

/// The end of the identifier starting at `i`.
pub open spec fn spec_ident_end(s: Seq<char>, i: int) -> int
    decreases s.len() - i,
{
    if i < 0 || i >= s.len() {
        i
    } else if is_ident_char(s[i]) {
        spec_ident_end(s, i + 1)
    } else {
        i
    }
}

/// The position of the closing quote at or after `i`, or the length.
pub open spec fn spec_quote_end(s: Seq<char>, i: int) -> int
    decreases s.len() - i,
{
    if i < 0 || i >= s.len() {
        s.len() as int
    } else if s[i] == '"' {
        i
    } else {
        spec_quote_end(s, i + 1)
    }
}

/// The identifier run stays within the text and moves forward.
pub proof fn lemma_ident_end(s: Seq<char>, i: int)
    requires
        0 <= i <= s.len(),
    ensures
        i <= spec_ident_end(s, i) <= s.len(),
    decreases s.len() - i,
{
    if i < s.len() && is_ident_char(s[i]) {
        lemma_ident_end(s, i + 1);
    }
}

/// The closing quote search stays within the text and moves forward.
pub proof fn lemma_quote_end(s: Seq<char>, i: int)
    requires
        0 <= i <= s.len(),
    ensures
        i <= spec_quote_end(s, i) <= s.len(),
    decreases s.len() - i,
{
    if i < s.len() && s[i] != '"' {
        lemma_quote_end(s, i + 1);
    }
}

/// Tokenize from position `i`: `Err` carries the position of the offending
/// character (an unterminated literal reports its opening quote).
pub open spec fn spec_tokenize(s: Seq<char>, i: int) -> Result<Seq<TokenV>, int>
    decreases s.len() - i,
    via spec_tokenize_dec
{
    if i < 0 || i >= s.len() {
        Ok(Seq::<TokenV>::empty())
    } else if is_ws(s[i]) {
        spec_tokenize(s, i + 1)
    } else if s[i] == '(' {
        spec_cons(TokenV::LParen, spec_tokenize(s, i + 1))
    } else if s[i] == ')' {
        spec_cons(TokenV::RParen, spec_tokenize(s, i + 1))
    } else if s[i] == '{' {
        spec_cons(TokenV::LBrace, spec_tokenize(s, i + 1))
    } else if s[i] == '}' {
        spec_cons(TokenV::RBrace, spec_tokenize(s, i + 1))
    } else if s[i] == '[' {
        spec_cons(TokenV::LBracket, spec_tokenize(s, i + 1))
    } else if s[i] == ']' {
        spec_cons(TokenV::RBracket, spec_tokenize(s, i + 1))
    } else if s[i] == ':' {
        spec_cons(TokenV::Colon, spec_tokenize(s, i + 1))
    } else if s[i] == ',' {
        spec_cons(TokenV::Comma, spec_tokenize(s, i + 1))
    } else if s[i] == '"' {
        let j = spec_quote_end(s, i + 1);
        if j >= s.len() {
            Err(i)
        } else {
            spec_cons(TokenV::StrLit(s.subrange(i + 1, j)), spec_tokenize(s, j + 1))
        }
    } else if is_ident_char(s[i]) {
        let j = spec_ident_end(s, i);
        spec_cons(TokenV::Ident(s.subrange(i, j)), spec_tokenize(s, j))
    } else {
        Err(i)
    }
}

/// Prepend a token to a tokenization outcome.
pub open spec fn spec_cons(t: TokenV, r: Result<Seq<TokenV>, int>) -> Result<Seq<TokenV>, int> {
    match r {
        Ok(ts) => Ok(seq![t] + ts),
        Err(e) => Err(e),
    }
}

#[via_fn]
proof fn spec_tokenize_dec(s: Seq<char>, i: int) {
    if 0 <= i < s.len() {
        lemma_quote_end(s, i + 1);
        if is_ident_char(s[i]) {
            lemma_ident_end(s, i);
            assert(spec_ident_end(s, i) == spec_ident_end(s, i + 1));
            lemma_ident_end(s, i + 1);
        }
    }
}

/// A lexically ill-formed rule text, with the position of the offending
/// character.
#[derive(Debug)]
pub struct SyntaxError {
    pub pos: usize,
}

fn tokenize(s: &str) -> (r: Result<Vec<Token>, SyntaxError>)
    ensures
        r matches Ok(ts) ==> spec_tokenize(s@, 0) == Ok::<_, int>(token_views(ts@)),
        r matches Err(e) ==> spec_tokenize(s@, 0) == Err::<Seq<TokenV>, int>(e.pos as int),
{
    let n = s.unicode_len();
    let mut out: Vec<Token> = Vec::new();
    let mut i: usize = 0;
    proof {
        assert(token_views(out@) =~= Seq::<TokenV>::empty());
    }
    loop
        invariant
            i <= n,
            n == s@.len(),
            spec_tokenize(s@, 0) == (match spec_tokenize(s@, i as int) {
                Ok(rest) => Ok::<Seq<TokenV>, int>(token_views(out@) + rest),
                Err(e) => Err::<Seq<TokenV>, int>(e),
            }),
        ensures
            i >= n,
            n == s@.len(),
            spec_tokenize(s@, 0) == (match spec_tokenize(s@, i as int) {
                Ok(rest) => Ok::<Seq<TokenV>, int>(token_views(out@) + rest),
                Err(e) => Err::<Seq<TokenV>, int>(e),
            }),
        decreases n - i,
    {
        if i >= n {
            break;
        }
        let c = s.get_char(i);
        if c == ' ' || c == '\t' || c == '\n' || c == '\r' {
            i = i + 1;
        } else if c == '(' || c == ')' || c == '{' || c == '}' || c == '[' || c == ']' || c == ':'
            || c == ',' {
            let ghost out0 = out@;
            if c == '(' {
                out.push(Token::LParen);
            } else if c == ')' {
                out.push(Token::RParen);
            } else if c == '{' {
                out.push(Token::LBrace);
            } else if c == '}' {
                out.push(Token::RBrace);
            } else if c == '[' {
                out.push(Token::LBracket);
            } else if c == ']' {
                out.push(Token::RBracket);
            } else if c == ':' {
                out.push(Token::Colon);
            } else {
                out.push(Token::Comma);
            }
            proof {
                let tok = out@[out@.len() - 1]@;
                assert(token_views(out@) =~= token_views(out0).push(tok));
                match spec_tokenize(s@, i + 1) {
                    Ok(rest) => {
                        assert(token_views(out0) + (seq![tok] + rest) =~= token_views(out@)
                            + rest);
                    },
                    Err(_) => {},
                }
            }
            i = i + 1;
        } else if c == '"' {
            let mut j = i + 1;
            loop
                invariant
                    i + 1 <= j <= n,
                    n == s@.len(),
                    spec_quote_end(s@, i + 1) == spec_quote_end(s@, j as int),
                ensures
                    i + 1 <= j <= n,
                    n == s@.len(),
                    j < n ==> spec_quote_end(s@, i + 1) == j,
                    j >= n ==> spec_quote_end(s@, i + 1) == n,
                decreases n - j,
            {
                if j >= n {
                    break;
                }
                if s.get_char(j) == '"' {
                    break;
                }
                j = j + 1;
            }
            if j >= n {
                proof {
                    assert(spec_quote_end(s@, i + 1) == n);
                }
                return Err(SyntaxError { pos: i });
            }
            let mut lit: Vec<char> = Vec::new();
            let mut k = i + 1;
            while k < j
                invariant
                    i + 1 <= k <= j <= n,
                    n == s@.len(),
                    lit@ == s@.subrange(i + 1, k as int),
                decreases j - k,
            {
                lit.push(s.get_char(k));
                proof {
                    assert(lit@ =~= s@.subrange(i + 1, k + 1));
                }
                k = k + 1;
            }
            let ghost out0 = out@;
            out.push(Token::StrLit(lit));
            proof {
                let tok = TokenV::StrLit(s@.subrange(i + 1, j as int));
                assert(token_views(out@) =~= token_views(out0).push(tok));
                match spec_tokenize(s@, j + 1) {
                    Ok(rest) => {
                        assert(token_views(out0) + (seq![tok] + rest) =~= token_views(out@)
                            + rest);
                    },
                    Err(_) => {},
                }
            }
            i = j + 1;
        } else if (48 <= c as u32 && c as u32 <= 57) || (65 <= c as u32 && c as u32 <= 90) || (97
            <= c as u32 && c as u32 <= 122) || c as u32 == 95 {
            let mut j = i;
            proof {
                assert(is_ident_char(s@[i as int]));
                assert(spec_ident_end(s@, i as int) == spec_ident_end(s@, i + 1));
                lemma_ident_end(s@, i + 1);
            }
            loop
                invariant
                    i <= j <= n,
                    n == s@.len(),
                    spec_ident_end(s@, i as int) == spec_ident_end(s@, j as int),
                ensures
                    i <= j <= n,
                    n == s@.len(),
                    spec_ident_end(s@, i as int) == j,
                decreases n - j,
            {
                if j >= n {
                    break;
                }
                let cj = s.get_char(j);
                if !((48 <= cj as u32 && cj as u32 <= 57) || (65 <= cj as u32 && cj as u32 <= 90)
                    || (97 <= cj as u32 && cj as u32 <= 122) || cj as u32 == 95) {
                    break;
                }
                j = j + 1;
            }
            let mut name: Vec<char> = Vec::new();
            let mut k = i;
            while k < j
                invariant
                    i <= k <= j <= n,
                    n == s@.len(),
                    name@ == s@.subrange(i as int, k as int),
                decreases j - k,
            {
                name.push(s.get_char(k));
                proof {
                    assert(name@ =~= s@.subrange(i as int, k + 1));
                }
                k = k + 1;
            }
            let ghost out0 = out@;
            out.push(Token::Ident(name));
            proof {
                let tok = TokenV::Ident(s@.subrange(i as int, j as int));
                assert(token_views(out@) =~= token_views(out0).push(tok));
                match spec_tokenize(s@, j as int) {
                    Ok(rest) => {
                        assert(token_views(out0) + (seq![tok] + rest) =~= token_views(out@)
                            + rest);
                    },
                    Err(_) => {},
                }
            }
            i = j;
        } else {
            return Err(SyntaxError { pos: i });
        }
    }
    proof {
        assert(token_views(out@) + Seq::<TokenV>::empty() =~= token_views(out@));
    }
    Ok(out)
}

/// A value of the generic syntax tree: a named record of fields, or a list
/// of string literals.
pub enum AstValue {
    Record(Vec<char>, Box<AstFields>),
    List(Vec<Vec<char>>),
}

/// The fields of a record, in declaration order.
pub enum AstFields {
    Nil,
    Cons(Vec<char>, Box<AstValue>, Box<AstFields>),
}

/// The parsed top-level construct: a call-like wrapper around one value.
pub struct CelAst {
    pub name: Vec<char>,
    pub arg: AstValue,
}

/// Model of a syntax-tree value.
pub enum AstValueV {
    Record(Seq<char>, Box<AstFieldsV>),
    List(Seq<Seq<char>>),
}

/// Model of a record's fields.
pub enum AstFieldsV {
    Nil,
    Cons(Seq<char>, Box<AstValueV>, Box<AstFieldsV>),
}

/// Model of the top-level construct.
pub struct CelAstV {
    pub name: Seq<char>,
    pub arg: AstValueV,
}

/// The model of a syntax-tree value.
pub open spec fn value_v(v: AstValue) -> AstValueV
    decreases v,
{
    match v {
        AstValue::Record(n, f) => AstValueV::Record(n@, Box::new(fields_v(*f))),
        AstValue::List(items) => AstValueV::List(items@.map_values(|x: Vec<char>| x@)),
    }
}

/// The model of a record's fields.
pub open spec fn fields_v(f: AstFields) -> AstFieldsV
    decreases f,
{
    match f {
        AstFields::Nil => AstFieldsV::Nil,
        AstFields::Cons(n, v, rest) => AstFieldsV::Cons(
            n@,
            Box::new(value_v(*v)),
            Box::new(fields_v(*rest)),
        ),
    }
}

impl View for AstValue {
    type V = AstValueV;

    open spec fn view(&self) -> AstValueV {
        value_v(*self)
    }
}

impl View for CelAst {
    type V = CelAstV;

    open spec fn view(&self) -> CelAstV {
        (CelAstV { name: self.name@, arg: value_v(self.arg) })
    }
}

/// Parse a value at token `i` with the given recursion allowance: a record
/// `Name { fields }` or a list of string literals. `Err` carries the token
/// index where parsing failed.
pub open spec fn spec_parse_value(ts: Seq<TokenV>, i: int, fuel: nat) -> Result<
    (AstValueV, int),
    int,
>
    decreases fuel,
{
    if fuel == 0 {
        Err(i)
    } else if i < 0 || i >= ts.len() {
        Err(i)
    } else {
        match ts[i] {
            TokenV::Ident(name) => if i + 1 < ts.len() && ts[i + 1] is LBrace {
                match spec_parse_fields(ts, i + 2, (fuel - 1) as nat) {
                    Ok((fields, j)) => if j < ts.len() && ts[j] is RBrace {
                        Ok((AstValueV::Record(name, Box::new(fields)), j + 1))
                    } else {
                        Err(j)
                    },
                    Err(e) => Err(e),
                }
            } else {
                Err(i + 1)
            },
            TokenV::LBracket => match spec_parse_strings(ts, i + 1) {
                Ok((items, j)) => Ok((AstValueV::List(items), j + 1)),
                Err(e) => Err(e),
            },
            _ => Err(i),
        }
    }
}

/// Parse record fields up to (not including) the closing brace.
pub open spec fn spec_parse_fields(ts: Seq<TokenV>, i: int, fuel: nat) -> Result<
    (AstFieldsV, int),
    int,
>
    decreases fuel,
{
    if fuel == 0 {
        Err(i)
    } else if i < 0 || i >= ts.len() {
        Err(i)
    } else if ts[i] is RBrace {
        Ok((AstFieldsV::Nil, i))
    } else {
        match ts[i] {
            TokenV::Ident(name) => if i + 1 < ts.len() && ts[i + 1] is Colon {
                match spec_parse_value(ts, i + 2, (fuel - 1) as nat) {
                    Ok((v, j)) => if j < ts.len() && ts[j] is Comma {
                        match spec_parse_fields(ts, j + 1, (fuel - 1) as nat) {
                            Ok((rest, k)) => Ok(
                                (AstFieldsV::Cons(name, Box::new(v), Box::new(rest)), k),
                            ),
                            Err(e) => Err(e),
                        }
                    } else if j < ts.len() && ts[j] is RBrace {
                        Ok((AstFieldsV::Cons(name, Box::new(v), Box::new(AstFieldsV::Nil)), j))
                    } else {
                        Err(j)
                    },
                    Err(e) => Err(e),
                }
            } else {
                Err(i + 1)
            },
            _ => Err(i),
        }
    }
}

/// Parse the string literals of a list, returning the position of the
/// closing bracket.
pub open spec fn spec_parse_strings(ts: Seq<TokenV>, i: int) -> Result<(Seq<Seq<char>>, int), int>
    decreases ts.len() - i,
{
    if i < 0 || i >= ts.len() {
        Err(i)
    } else if ts[i] is RBracket {
        Ok((Seq::<Seq<char>>::empty(), i))
    } else {
        match ts[i] {
            TokenV::StrLit(x) => if i + 1 < ts.len() && ts[i + 1] is Comma {
                match spec_parse_strings(ts, i + 2) {
                    Ok((rest, j)) => Ok((seq![x] + rest, j)),
                    Err(e) => Err(e),
                }
            } else if i + 1 < ts.len() && ts[i + 1] is RBracket {
                Ok((seq![x], i + 1))
            } else {
                Err(i + 1)
            },
            _ => Err(i),
        }
    }
}

/// Parse a whole token sequence: one call-like construct wrapping a value,
/// with nothing after it.
pub open spec fn spec_parse_tokens(ts: Seq<TokenV>) -> Result<CelAstV, int> {
    if ts.len() < 2 {
        Err(0)
    } else {
        match ts[0] {
            TokenV::Ident(name) => if ts[1] is LParen {
                match spec_parse_value(ts, 2, ts.len() as nat) {
                    Ok((v, j)) => if j < ts.len() && ts[j] is RParen && j + 1 == ts.len() {
                        Ok(CelAstV { name: name, arg: v })
                    } else {
                        Err(j)
                    },
                    Err(e) => Err(e),
                }
            } else {
                Err(1)
            },
            _ => Err(0),
        }
    }
}

/// Parse rule text: tokenize, then parse the tokens. The error position is
/// a character index for a lexical fault, a token index for a grammatical
/// one.
pub open spec fn spec_parse(s: Seq<char>) -> Result<CelAstV, int> {
    match spec_tokenize(s, 0) {
        Ok(ts) => spec_parse_tokens(ts),
        Err(e) => Err(e),
    }
}

fn parse_value(ts: &Vec<Token>, i: usize, fuel: usize) -> (r: Result<(AstValue, usize), usize>)
    ensures
        r matches Ok(v) ==> spec_parse_value(token_views(ts@), i as int, fuel as nat) == Ok::<
            (AstValueV, int),
            int,
        >((v.0@, v.1 as int)) && v.1 <= ts@.len(),
        r matches Err(e) ==> spec_parse_value(token_views(ts@), i as int, fuel as nat) == Err::<
            (AstValueV, int),
            int,
        >(e as int),
    decreases fuel,
{
    proof {
        lemma_token_views_index(ts@, i as int);
    }
    if fuel == 0 {
        return Err(i);
    }
    if i >= ts.len() {
        return Err(i);
    }
    match &ts[i] {
        Token::Ident(name) => {
            proof {
                lemma_token_views_index(ts@, i + 1);
            }
            if i + 1 < ts.len() && matches!(&ts[i + 1], Token::LBrace) {
                match parse_fields(ts, i + 2, fuel - 1) {
                    Ok((fields, j)) => {
                        proof {
                            lemma_token_views_index(ts@, j as int);
                        }
                        if j < ts.len() && matches!(&ts[j], Token::RBrace) {
                            Ok(
                                (
                                    AstValue::Record(
                                        copy_chars(name),
                                        Box::new(fields),
                                    ),
                                    j + 1,
                                ),
                            )
                        } else {
                            Err(j)
                        }
                    },
                    Err(e) => Err(e),
                }
            } else {
                Err(i + 1)
            }
        },
        Token::LBracket => {
            match parse_strings(ts, i + 1) {
                Ok((items, j)) => Ok((AstValue::List(items), j + 1)),
                Err(e) => Err(e),
            }
        },
        _ => Err(i),
    }
}

fn parse_fields(ts: &Vec<Token>, i: usize, fuel: usize) -> (r: Result<(AstFields, usize), usize>)
    ensures
        r matches Ok(v) ==> spec_parse_fields(token_views(ts@), i as int, fuel as nat) == Ok::<
            (AstFieldsV, int),
            int,
        >((fields_v(v.0), v.1 as int)) && v.1 < ts@.len(),
        r matches Err(e) ==> spec_parse_fields(token_views(ts@), i as int, fuel as nat) == Err::<
            (AstFieldsV, int),
            int,
        >(e as int),
    decreases fuel,
{
    proof {
        lemma_token_views_index(ts@, i as int);
        reveal_with_fuel(fields_v, 3);
    }
    if fuel == 0 {
        return Err(i);
    }
    if i >= ts.len() {
        return Err(i);
    }
    if matches!(&ts[i], Token::RBrace) {
        return Ok((AstFields::Nil, i));
    }
    match &ts[i] {
        Token::Ident(name) => {
            proof {
                lemma_token_views_index(ts@, i + 1);
            }
            if i + 1 < ts.len() && matches!(&ts[i + 1], Token::Colon) {
                match parse_value(ts, i + 2, fuel - 1) {
                    Ok((v, j)) => {
                        proof {
                            lemma_token_views_index(ts@, j as int);
                        }
                        if j < ts.len() && matches!(&ts[j], Token::Comma) {
                            match parse_fields(ts, j + 1, fuel - 1) {
                                Ok((rest, k)) => Ok(
                                    (
                                        AstFields::Cons(
                                            copy_chars(name),
                                            Box::new(v),
                                            Box::new(rest),
                                        ),
                                        k,
                                    ),
                                ),
                                Err(e) => Err(e),
                            }
                        } else if j < ts.len() && matches!(&ts[j], Token::RBrace) {
                            Ok(
                                (
                                    AstFields::Cons(
                                        copy_chars(name),
                                        Box::new(v),
                                        Box::new(AstFields::Nil),
                                    ),
                                    j,
                                ),
                            )
                        } else {
                            Err(j)
                        }
                    },
                    Err(e) => Err(e),
                }
            } else {
                Err(i + 1)
            }
        },
        _ => Err(i),
    }
}

fn parse_strings(ts: &Vec<Token>, i: usize) -> (r: Result<(Vec<Vec<char>>, usize), usize>)
    ensures
        r matches Ok(v) ==> spec_parse_strings(token_views(ts@), i as int) == Ok::<
            (Seq<Seq<char>>, int),
            int,
        >((v.0@.map_values(|x: Vec<char>| x@), v.1 as int)) && v.1 < ts@.len(),
        r matches Err(e) ==> spec_parse_strings(token_views(ts@), i as int) == Err::<
            (Seq<Seq<char>>, int),
            int,
        >(e as int),
    decreases ts@.len() - i,
{
    proof {
        lemma_token_views_index(ts@, i as int);
    }
    if i >= ts.len() {
        return Err(i);
    }
    if matches!(&ts[i], Token::RBracket) {
        let empty: Vec<Vec<char>> = Vec::new();
        proof {
            assert(empty@.map_values(|x: Vec<char>| x@) =~= Seq::<Seq<char>>::empty());
        }
        return Ok((empty, i));
    }
    match &ts[i] {
        Token::StrLit(x) => {
            proof {
                lemma_token_views_index(ts@, i + 1);
            }
            if i + 1 < ts.len() && matches!(&ts[i + 1], Token::Comma) {
                match parse_strings(ts, i + 2) {
                    Ok((rest, j)) => {
                        let mut items: Vec<Vec<char>> = Vec::new();
                        items.push(copy_chars(x));
                        let mut k: usize = 0;
                        while k < rest.len()
                            invariant
                                k <= rest@.len(),
                                items@.len() == k + 1,
                                items@[0]@ == x@,
                                forall|m: int| 0 <= m < k ==> items@[m + 1]@ == rest@[m]@,
                            decreases rest@.len() - k,
                        {
                            items.push(copy_chars(&rest[k]));
                            k = k + 1;
                        }
                        proof {
                            assert(items@.map_values(|y: Vec<char>| y@) =~= seq![x@]
                                + rest@.map_values(|y: Vec<char>| y@));
                        }
                        Ok((items, j))
                    },
                    Err(e) => Err(e),
                }
            } else if i + 1 < ts.len() && matches!(&ts[i + 1], Token::RBracket) {
                let mut items: Vec<Vec<char>> = Vec::new();
                items.push(copy_chars(x));
                proof {
                    assert(items@.map_values(|y: Vec<char>| y@) =~= seq![x@]);
                }
                Ok((items, i + 1))
            } else {
                Err(i + 1)
            }
        },
        _ => Err(i),
    }
}

/// A copy of a character vector, equal in its view.
fn copy_chars(v: &Vec<char>) -> (r: Vec<char>)
    ensures
        r@ == v@,
{
    let mut r: Vec<char> = Vec::new();
    let mut i: usize = 0;
    while i < v.len()
        invariant
            i <= v@.len(),
            r@ == v@.take(i as int),
        decreases v@.len() - i,
    {
        r.push(v[i]);
        proof {
            assert(r@ =~= v@.take(i + 1));
        }
        i = i + 1;
    }
    proof {
        assert(v@.take(v@.len() as int) =~= v@);
    }
    r
}

/// Indexing the views of a token sequence.
proof fn lemma_token_views_index(s: Seq<Token>, i: int)
    ensures
        token_views(s).len() == s.len(),
        0 <= i < s.len() ==> token_views(s)[i] == s[i]@,
{
}

/// Parse rule text into the generic syntax tree, or fail with the position
/// of the offending character or token.
pub fn parse_cel_expression(s: &str) -> (r: Result<CelAst, SyntaxError>)
    ensures
        r matches Ok(ast) ==> spec_parse(s@) == Ok::<CelAstV, int>(ast@),
        r matches Err(e) ==> spec_parse(s@) is Err && spec_parse(s@) == Err::<CelAstV, int>(
            e.pos as int,
        ),
{
    let ts = match tokenize(s) {
        Ok(ts) => ts,
        Err(e) => {
            return Err(e);
        },
    };
    proof {
        lemma_token_views_index(ts@, 0);
        lemma_token_views_index(ts@, 1);
    }
    if ts.len() < 2 {
        return Err(SyntaxError { pos: 0 });
    }
    match &ts[0] {
        Token::Ident(name) => {
            if matches!(&ts[1], Token::LParen) {
                match parse_value(&ts, 2, ts.len()) {
                    Ok((v, j)) => {
                        proof {
                            lemma_token_views_index(ts@, j as int);
                        }
                        if j < ts.len() && matches!(&ts[j], Token::RParen) && j + 1 == ts.len() {
                            Ok(CelAst { name: copy_chars(name), arg: v })
                        } else {
                            Err(SyntaxError { pos: j })
                        }
                    },
                    Err(e) => Err(SyntaxError { pos: e }),
                }
            } else {
                Err(SyntaxError { pos: 1 })
            }
        },
        _ => Err(SyntaxError { pos: 0 }),
    }
}

/// Relies on String's FromIterator over chars: the collected string holds
/// exactly the given characters.
#[verifier::external_body]
pub(crate) fn chars_to_string(v: &Vec<char>) -> (r: String)
    ensures
        r@ == v@,
{
    v.iter().collect()
}

/// Strip every whitespace character from a text: rule texts differing only
/// in whitespace strip to the same text.
pub fn remove_whitespace(s: &str) -> (r: String)
    ensures
        r@ == s@.filter(|c: char| !is_ws(c)),
{
    let n = s.unicode_len();
    let mut out: Vec<char> = Vec::new();
    let mut i: usize = 0;
    proof {
        assert(s@.take(0).filter(|c: char| !is_ws(c)) =~= Seq::<char>::empty()) by {
            reveal(Seq::filter);
        }
    }
    while i < n
        invariant
            i <= n,
            n == s@.len(),
            out@ == s@.take(i as int).filter(|c: char| !is_ws(c)),
        decreases n - i,
    {
        let c = s.get_char(i);
        let keep = !(c == ' ' || c == '\t' || c == '\n' || c == '\r');
        if keep {
            out.push(c);
        }
        proof {
            reveal(Seq::filter);
            let pred = |ch: char| !is_ws(ch);
            assert(s@.take(i + 1).drop_last() =~= s@.take(i as int));
            assert(s@.take(i + 1).last() == s@[i as int]);
            assert(s@.take(i + 1).filter(pred) == s@.take(i as int).filter(pred) + (if pred(
                s@[i as int],
            ) {
                seq![s@[i as int]]
            } else {
                Seq::<char>::empty()
            }));
            if keep {
                assert(out@ =~= s@.take(i + 1).filter(pred));
            } else {
                assert(out@ =~= s@.take(i + 1).filter(pred));
            }
        }
        i = i + 1;
    }
    proof {
        assert(s@.take(n as int) =~= s@);
    }
    chars_to_string(&out)
}

/// Texts that tokenize identically parse identically: whitespace only
/// separates tokens, so any two rule texts differing in token-separating
/// whitespace alone have the same tokens and hence the same parse.
pub proof fn lemma_parse_depends_only_on_tokens(t1: Seq<char>, t2: Seq<char>)
    requires
        spec_tokenize(t1, 0) == spec_tokenize(t2, 0),
    ensures
        spec_parse(t1) == spec_parse(t2),
{
}

/// Whitespace before a token never changes the tokens.
pub proof fn lemma_leading_ws_ignored(s: Seq<char>, i: int)
    requires
        0 <= i < s.len(),
        is_ws(s[i]),
    ensures
        spec_tokenize(s, i) == spec_tokenize(s, i + 1),
{
}

} // verus!
