//! The parser: tokens to a syntax tree, by recursive descent.
//!
//! Each spec function below reads the tokens from a position and gives the
//! tree it builds with how many tokens it used after the first one (a
//! statement or an expression always takes at least one), or the error.
use vstd::prelude::*;
use crate::ast::{
    ASTNode, ASTBuilder, Ast, VariableDeclarationNode, view_node, view_all, lemma_view_args,
    lemma_view_params, lemma_view_body,
};
use crate::number::{literal_value, parse_literal};
use crate::text::{chars_of, text_is};
use crate::tokens::{Token, TokenType};
use crate::tokenizer::token_views;

verus! {

/// Why a token sequence could not be parsed.
#[derive(Debug, Clone, Copy, PartialEq, Eq, Structural)]
pub enum ParseError {
    ExpectedExpression,
    ExpectedStatement,
    UnexpectedToken(TokenType),
    ExpectedParenthesis(char),
    ExpectedBrace(char),
    ExpectedTokenType(TokenType),
    ExpectedFunctionName,
    ExpectedVariableName,
    KeywordParameter,
    MalformedNumber,
}

pub type Toks = Seq<(TokenType, Seq<char>)>;

pub open spec fn left(toks: Toks, p: int) -> int {
    if p <= toks.len() { toks.len() - p } else { 0 }
}

pub open spec fn is_tok(toks: Toks, p: int, kind: TokenType, t: Seq<char>) -> bool {
    0 <= p < toks.len() && toks[p].0 == kind && toks[p].1 == t
}

/// The parenthesis `c` at `p`.
pub open spec fn expect_paren(toks: Toks, p: int, c: char) -> Result<(), ParseError> {
    if is_tok(toks, p, TokenType::Parenthesis, seq![c]) {
        Ok(())
    } else {
        Err(ParseError::ExpectedParenthesis(c))
    }
}

/// The brace `c` at `p`.
pub open spec fn expect_brace_at(toks: Toks, p: int, c: char) -> Result<(), ParseError> {
    if is_tok(toks, p, TokenType::Brace, seq![c]) {
        Ok(())
    } else {
        Err(ParseError::ExpectedBrace(c))
    }
}

/// A token of kind `k` at `p`.
pub open spec fn expect_kind(toks: Toks, p: int, k: TokenType) -> Result<(), ParseError> {
    if 0 <= p < toks.len() && toks[p].0 == k {
        Ok(())
    } else {
        Err(ParseError::ExpectedTokenType(k))
    }
}

pub open spec fn is_keyword(k: TokenType) -> bool {
    k == TokenType::OwO || k == TokenType::Print || k == TokenType::FunctionDef || k
        == TokenType::VarDecl || k == TokenType::Return || k == TokenType::KindOf || k
        == TokenType::Bool
}

pub open spec fn bin(op: Seq<char>, l: Ast, r: Ast) -> Ast {
    Ast::BinaryExpression(op, Box::new(l), Box::new(r))
}

/// expression := additive
pub open spec fn p_expr(toks: Toks, p: int) -> Result<(Ast, nat), ParseError>
    decreases left(toks, p), 6int,
{
    p_add(toks, p)
}

/// additive := multiplicative (('+' | '-') multiplicative)*
pub open spec fn p_add(toks: Toks, p: int) -> Result<(Ast, nat), ParseError>
    decreases left(toks, p), 5int,
{
    match p_mul(toks, p) {
        Err(e) => Err(e),
        Ok((l, x)) => match p_add_rest(toks, p + 1 + x, l) {
            Err(e) => Err(e),
            Ok((n, c)) => Ok((n, x + c)),
        },
    }
}

/// The operators and operands that follow `lhs` in an additive expression;
/// gives the tree and how many tokens they take.
pub open spec fn p_add_rest(toks: Toks, q: int, lhs: Ast) -> Result<(Ast, nat), ParseError>
    decreases left(toks, q), 4int,
{
    if 0 <= q < toks.len() && toks[q].0 == TokenType::Operator && (toks[q].1 == "+"@
        || toks[q].1 == "-"@) {
        match p_mul(toks, q + 1) {
            Err(e) => Err(e),
            Ok((r, x)) => match p_add_rest(toks, q + 2 + x, bin(toks[q].1, lhs, r)) {
                Err(e) => Err(e),
                Ok((n, c)) => Ok((n, 2 + x + c)),
            },
        }
    } else {
        Ok((lhs, 0))
    }
}

/// multiplicative := primary (('*' | '/') primary)*
pub open spec fn p_mul(toks: Toks, p: int) -> Result<(Ast, nat), ParseError>
    decreases left(toks, p), 4int,
{
    match p_primary(toks, p) {
        Err(e) => Err(e),
        Ok((l, x)) => match p_mul_rest(toks, p + 1 + x, l) {
            Err(e) => Err(e),
            Ok((n, c)) => Ok((n, x + c)),
        },
    }
}

pub open spec fn p_mul_rest(toks: Toks, q: int, lhs: Ast) -> Result<(Ast, nat), ParseError>
    decreases left(toks, q), 3int,
{
    if 0 <= q < toks.len() && toks[q].0 == TokenType::Operator && (toks[q].1 == "*"@
        || toks[q].1 == "/"@) {
        match p_primary(toks, q + 1) {
            Err(e) => Err(e),
            Ok((r, x)) => match p_mul_rest(toks, q + 2 + x, bin(toks[q].1, lhs, r)) {
                Err(e) => Err(e),
                Ok((n, c)) => Ok((n, 2 + x + c)),
            },
        }
    } else {
        Ok((lhs, 0))
    }
}

/// primary := number | string | boolean | identifier-expression
///          | '(' expression ')' | type-query
pub open spec fn p_primary(toks: Toks, p: int) -> Result<(Ast, nat), ParseError>
    decreases left(toks, p), 3int,
{
    if p < 0 || p >= toks.len() {
        Err(ParseError::ExpectedExpression)
    } else {
        let (k, t) = toks[p];
        if k == TokenType::Number {
            match literal_value(t) {
                Some(n) => Ok((Ast::NumberLiteral(n), 0)),
                None => Err(ParseError::MalformedNumber),
            }
        } else if k == TokenType::String {
            Ok((Ast::StringLiteral(t), 0))
        } else if k == TokenType::Bool {
            Ok((Ast::BoolLiteral(if t == "twue"@ { 1i8 } else { 0i8 }), 0))
        } else if k == TokenType::Identifier {
            p_ident(toks, p)
        } else if k == TokenType::Parenthesis && t == "("@ {
            match p_expr(toks, p + 1) {
                Err(e) => Err(e),
                Ok((e, x)) => match expect_paren(toks, p + 2 + x, ')') {
                    Err(err) => Err(err),
                    Ok(()) => Ok((e, x + 2)),
                },
            }
        } else if k == TokenType::KindOf {
            match p_wrapped(toks, p) {
                Err(e) => Err(e),
                Ok((e, x)) => Ok((Ast::KindOf(Box::new(e)), x)),
            }
        } else {
            Err(ParseError::UnexpectedToken(k))
        }
    }
}

/// An identifier: a call when an opening parenthesis follows it, else a
/// variable reference.
pub open spec fn p_ident(toks: Toks, p: int) -> Result<(Ast, nat), ParseError>
    decreases left(toks, p), 2int,
{
    if p < 0 || p >= toks.len() {
        Err(ParseError::ExpectedExpression)
    } else if is_tok(toks, p + 1, TokenType::Parenthesis, "("@) {
        match p_args(toks, p + 2, Seq::empty()) {
            Err(e) => Err(e),
            Ok((args, c)) => Ok((Ast::FunctionCall(toks[p].1, args), 1 + c)),
        }
    } else {
        Ok((Ast::VariableReference(toks[p].1), 0))
    }
}

/// Call arguments from `q` on, after those in `acc`, up to and with the
/// closing parenthesis; commas are skipped.
pub open spec fn p_args(toks: Toks, q: int, acc: Seq<Ast>) -> Result<(Seq<Ast>, nat), ParseError>
    decreases left(toks, q), 7int,
{
    if q < 0 || q >= toks.len() {
        Err(ParseError::ExpectedParenthesis(')'))
    } else if is_tok(toks, q, TokenType::Parenthesis, ")"@) {
        Ok((acc, 1))
    } else if toks[q].0 == TokenType::Comma {
        match p_args(toks, q + 1, acc) {
            Err(e) => Err(e),
            Ok((a, c)) => Ok((a, 1 + c)),
        }
    } else {
        match p_expr(toks, q) {
            Err(e) => Err(e),
            Ok((e, x)) => match p_args(toks, q + 1 + x, acc.push(e)) {
                Err(err) => Err(err),
                Ok((a, c)) => Ok((a, 1 + x + c)),
            },
        }
    }
}

/// A keyword followed by a parenthesised expression; gives the expression.
pub open spec fn p_wrapped(toks: Toks, p: int) -> Result<(Ast, nat), ParseError>
    decreases left(toks, p), 1int,
{
    if p < 0 || p >= toks.len() {
        Err(ParseError::ExpectedExpression)
    } else {
        match expect_paren(toks, p + 1, '(') {
            Err(e) => Err(e),
            Ok(()) => match p_expr(toks, p + 2) {
                Err(e) => Err(e),
                Ok((e, x)) => match expect_paren(toks, p + 3 + x, ')') {
                    Err(err) => Err(err),
                    Ok(()) => Ok((e, x + 3)),
                },
            },
        }
    }
}

/// var-declaration := keyword identifier '=' expression
pub open spec fn p_var(toks: Toks, p: int) -> Result<(Ast, nat), ParseError>
    decreases left(toks, p), 1int,
{
    if p < 0 || p + 1 >= toks.len() {
        Err(ParseError::ExpectedVariableName)
    } else if toks[p + 1].0 != TokenType::Identifier {
        Err(ParseError::ExpectedVariableName)
    } else {
        match expect_kind(toks, p + 2, TokenType::Equal) {
            Err(e) => Err(e),
            Ok(()) => match p_expr(toks, p + 3) {
                Err(e) => Err(e),
                Ok((e, x)) => Ok((Ast::VariableDeclaration(toks[p + 1].1, Box::new(e)), x + 3)),
            },
        }
    }
}

/// Parameter names from `q` on, up to and with the closing parenthesis.
pub open spec fn p_params(toks: Toks, q: int, acc: Seq<Ast>) -> Result<(Seq<Ast>, nat), ParseError>
    decreases left(toks, q), 0int,
{
    if q < 0 || q >= toks.len() {
        Err(ParseError::ExpectedParenthesis(')'))
    } else if is_tok(toks, q, TokenType::Parenthesis, ")"@) {
        Ok((acc, 1))
    } else if is_keyword(toks[q].0) {
        Err(ParseError::KeywordParameter)
    } else if toks[q].0 == TokenType::Identifier || toks[q].0 == TokenType::Comma {
        let acc2 = if toks[q].0 == TokenType::Identifier {
            acc.push(Ast::VariableDeclaration(toks[q].1, Box::new(Ast::NoValue)))
        } else {
            acc
        };
        match p_params(toks, q + 1, acc2) {
            Err(e) => Err(e),
            Ok((a, c)) => Ok((a, 1 + c)),
        }
    } else {
        Err(ParseError::UnexpectedToken(toks[q].0))
    }
}

/// Body statements from `q` on, up to and with the closing brace.
pub open spec fn p_body(toks: Toks, q: int, acc: Seq<Ast>) -> Result<(Seq<Ast>, nat), ParseError>
    decreases left(toks, q), 9int,
{
    if q < 0 || q >= toks.len() {
        Err(ParseError::ExpectedBrace('}'))
    } else if is_tok(toks, q, TokenType::Brace, "}"@) {
        Ok((acc, 1))
    } else {
        let st = if toks[q].0 == TokenType::Return {
            p_return(toks, q)
        } else {
            p_stmt(toks, q)
        };
        match st {
            Err(e) => Err(e),
            Ok((s, x)) => match p_body(toks, q + 1 + x, acc.push(s)) {
                Err(e) => Err(e),
                Ok((a, c)) => Ok((a, 1 + x + c)),
            },
        }
    }
}

/// return := keyword expression
pub open spec fn p_return(toks: Toks, q: int) -> Result<(Ast, nat), ParseError>
    decreases left(toks, q), 1int,
{
    if q < 0 || q >= toks.len() {
        Err(ParseError::ExpectedExpression)
    } else {
        match p_expr(toks, q + 1) {
            Err(e) => Err(e),
            Ok((e, x)) => Ok((Ast::Return(Box::new(e)), x + 1)),
        }
    }
}

/// function-declaration := keyword identifier '(' parameters ')' '{' body '}'
pub open spec fn p_fn(toks: Toks, p: int) -> Result<(Ast, nat), ParseError>
    decreases left(toks, p), 1int,
{
    if p < 0 || p + 1 >= toks.len() {
        Err(ParseError::ExpectedFunctionName)
    } else if toks[p + 1].0 != TokenType::Identifier {
        Err(ParseError::ExpectedFunctionName)
    } else {
        match expect_paren(toks, p + 2, '(') {
            Err(e) => Err(e),
            Ok(()) => match p_params(toks, p + 3, Seq::empty()) {
                Err(e) => Err(e),
                Ok((params, c)) => match expect_brace_at(toks, p + 3 + c, '{') {
                    Err(e) => Err(e),
                    Ok(()) => match p_body(toks, p + 4 + c, Seq::empty()) {
                        Err(e) => Err(e),
                        Ok((body, c2)) => Ok(
                            (Ast::FunctionDeclaration(toks[p + 1].1, params, body), 3 + c + c2),
                        ),
                    },
                },
            },
        }
    }
}

/// A statement, chosen by the kind of its first token.
pub open spec fn p_stmt(toks: Toks, p: int) -> Result<(Ast, nat), ParseError>
    decreases left(toks, p), 8int,
{
    if p < 0 || p >= toks.len() {
        Err(ParseError::ExpectedStatement)
    } else {
        let k = toks[p].0;
        if k == TokenType::Print || k == TokenType::OwO || k == TokenType::KindOf {
            match p_wrapped(toks, p) {
                Err(e) => Err(e),
                Ok((e, x)) => Ok(
                    (
                        if k == TokenType::Print {
                            Ast::Print(Box::new(e))
                        } else if k == TokenType::OwO {
                            Ast::OwO(Box::new(e))
                        } else {
                            Ast::KindOf(Box::new(e))
                        },
                        x,
                    ),
                ),
            }
        } else if k == TokenType::FunctionDef {
            p_fn(toks, p)
        } else if k == TokenType::VarDecl {
            p_var(toks, p)
        } else if k == TokenType::Identifier {
            p_ident(toks, p)
        } else {
            Err(ParseError::UnexpectedToken(k))
        }
    }
}

/// The top-level statements from `p` on.
pub open spec fn p_program(toks: Toks, p: int) -> Result<Seq<Ast>, ParseError>
    decreases left(toks, p),
{
    if p < 0 || p >= toks.len() {
        Ok(Seq::empty())
    } else {
        match p_stmt(toks, p) {
            Err(e) => Err(e),
            Ok((s, x)) => match p_program(toks, p + 1 + x) {
                Err(e) => Err(e),
                Ok(rest) => Ok(seq![s] + rest),
            },
        }
    }
}

pub open spec fn node_outcome(
    r: Result<ASTNode, ParseError>,
    before: int,
    after: int,
    s: Result<(Ast, nat), ParseError>,
) -> bool {
    match s {
        Ok((a, x)) => r is Ok && view_node(r->Ok_0) == a && after == before + 1 + x,
        Err(e) => r == Err::<ASTNode, ParseError>(e),
    }
}

pub open spec fn rest_outcome(
    r: Result<ASTNode, ParseError>,
    before: int,
    after: int,
    s: Result<(Ast, nat), ParseError>,
) -> bool {
    match s {
        Ok((a, c)) => r is Ok && view_node(r->Ok_0) == a && after == before + c,
        Err(e) => r == Err::<ASTNode, ParseError>(e),
    }
}

pub open spec fn unit_outcome(
    r: Result<(), ParseError>,
    before: int,
    after: int,
    s: Result<(), ParseError>,
) -> bool {
    match s {
        Ok(()) => r is Ok && after == before + 1,
        Err(e) => r == Err::<(), ParseError>(e),
    }
}

pub open spec fn list_outcome(
    r: Result<(), ParseError>,
    before: int,
    after: int,
    got: Seq<Ast>,
    s: Result<(Seq<Ast>, nat), ParseError>,
) -> bool {
    match s {
        Ok((a, c)) => r is Ok && got == a && after == before + c,
        Err(e) => r == Err::<(), ParseError>(e),
    }
}

/// Whether `s` holds exactly the one character `c`.
fn is_char_text(s: &String, c: char) -> (r: bool)
    ensures
        r == (s@ == seq![c]),
{
    let v = chars_of(s.as_str());
    if v.len() == 1 && v[0] == c {
        assert(v@ =~= seq![c]);
        true
    } else {
        false
    }
}

fn tok_is(tokens: &[Token], p: usize, kind: TokenType, c: char) -> (r: bool)
    ensures
        r == is_tok(token_views(tokens@), p as int, kind, seq![c]),
{
    p < tokens.len() && tokens[p].token_type == kind && is_char_text(&tokens[p].value, c)
}

/// Consumes a token of kind `expected`.
pub fn expect_token_type(tokens: &[Token], current: &mut usize, expected: TokenType) -> (r: Result<(), ParseError>)
    ensures
        unit_outcome(r, *old(current) as int, *final(current) as int, expect_kind(token_views(tokens@), *old(current) as int, expected)),
        r is Ok ==> *final(current) <= tokens@.len(),
        r is Err ==> *final(current) == *old(current),
{
    if *current >= tokens.len() || tokens[*current].token_type != expected {
        return Err(ParseError::ExpectedTokenType(expected));
    }
    *current = *current + 1;
    Ok(())
}

/// Consumes the parenthesis `expected`.
pub fn expect_parenthesis(tokens: &[Token], current: &mut usize, expected: char) -> (r: Result<(), ParseError>)
    ensures
        unit_outcome(r, *old(current) as int, *final(current) as int, expect_paren(token_views(tokens@), *old(current) as int, expected)),
        r is Ok ==> *final(current) <= tokens@.len(),
        r is Err ==> *final(current) == *old(current),
{
    if *current >= tokens.len() || !tok_is(tokens, *current, TokenType::Parenthesis, expected) {
        return Err(ParseError::ExpectedParenthesis(expected));
    }
    *current = *current + 1;
    Ok(())
}

/// Consumes the brace `expected`.
pub fn expect_brace(tokens: &[Token], current: &mut usize, expected: char) -> (r: Result<(), ParseError>)
    ensures
        unit_outcome(r, *old(current) as int, *final(current) as int, expect_brace_at(token_views(tokens@), *old(current) as int, expected)),
        r is Ok ==> *final(current) <= tokens@.len(),
        r is Err ==> *final(current) == *old(current),
{
    if *current >= tokens.len() || !tok_is(tokens, *current, TokenType::Brace, expected) {
        return Err(ParseError::ExpectedBrace(expected));
    }
    *current = *current + 1;
    Ok(())
}

fn parse_expression(tokens: &[Token], current: &mut usize) -> (r: Result<ASTNode, ParseError>)
    requires
        *old(current) <= tokens@.len(),
    ensures
        node_outcome(r, *old(current) as int, *final(current) as int, p_expr(token_views(tokens@), *old(current) as int)),
        *final(current) <= tokens@.len(),
    decreases left(token_views(tokens@), *old(current) as int), 6int,
{
    parse_additive_expression(tokens, current)
}

fn parse_additive_expression(tokens: &[Token], current: &mut usize) -> (r: Result<ASTNode, ParseError>)
    requires
        *old(current) <= tokens@.len(),
    ensures
        node_outcome(r, *old(current) as int, *final(current) as int, p_add(token_views(tokens@), *old(current) as int)),
        *final(current) <= tokens@.len(),
    decreases left(token_views(tokens@), *old(current) as int), 5int,
{
    let node = parse_multiplicative_expression(tokens, current);
    match node {
        Err(e) => Err(e),
        Ok(node) => parse_additive_rest(tokens, current, node),
    }
}

fn parse_additive_rest(tokens: &[Token], current: &mut usize, lhs: ASTNode) -> (r: Result<ASTNode, ParseError>)
    requires
        *old(current) <= tokens@.len(),
    ensures
        rest_outcome(r, *old(current) as int, *final(current) as int, p_add_rest(token_views(tokens@), *old(current) as int, view_node(lhs))),
        *final(current) <= tokens@.len(),
    decreases left(token_views(tokens@), *old(current) as int), 4int,
{
    proof {
        reveal_strlit("+");
        assert("+"@ =~= seq!['+']);
        reveal_strlit("-");
        assert("-"@ =~= seq!['-']);
    }
    if *current < tokens.len() && tokens[*current].token_type == TokenType::Operator && (
    is_char_text(&tokens[*current].value, '+') || is_char_text(&tokens[*current].value, '-')) {
        let operator = tokens[*current].value.clone();
        *current = *current + 1;
        match parse_multiplicative_expression(tokens, current) {
            Err(e) => Err(e),
            Ok(right) => {
                let node = ASTBuilder::create_binary_expression_node(operator, lhs, right);
                parse_additive_rest(tokens, current, node)
            },
        }
    } else {
        Ok(lhs)
    }
}

fn parse_multiplicative_expression(tokens: &[Token], current: &mut usize) -> (r: Result<ASTNode, ParseError>)
    requires
        *old(current) <= tokens@.len(),
    ensures
        node_outcome(r, *old(current) as int, *final(current) as int, p_mul(token_views(tokens@), *old(current) as int)),
        *final(current) <= tokens@.len(),
    decreases left(token_views(tokens@), *old(current) as int), 4int,
{
    let node = parse_primary_expression(tokens, current);
    match node {
        Err(e) => Err(e),
        Ok(node) => parse_multiplicative_rest(tokens, current, node),
    }
}

fn parse_multiplicative_rest(tokens: &[Token], current: &mut usize, lhs: ASTNode) -> (r: Result<ASTNode, ParseError>)
    requires
        *old(current) <= tokens@.len(),
    ensures
        rest_outcome(r, *old(current) as int, *final(current) as int, p_mul_rest(token_views(tokens@), *old(current) as int, view_node(lhs))),
        *final(current) <= tokens@.len(),
    decreases left(token_views(tokens@), *old(current) as int), 3int,
{
    proof {
        reveal_strlit("*");
        assert("*"@ =~= seq!['*']);
        reveal_strlit("/");
        assert("/"@ =~= seq!['/']);
    }
    if *current < tokens.len() && tokens[*current].token_type == TokenType::Operator && (
    is_char_text(&tokens[*current].value, '*') || is_char_text(&tokens[*current].value, '/')) {
        let operator = tokens[*current].value.clone();
        *current = *current + 1;
        match parse_primary_expression(tokens, current) {
            Err(e) => Err(e),
            Ok(right) => {
                let node = ASTBuilder::create_binary_expression_node(operator, lhs, right);
                parse_multiplicative_rest(tokens, current, node)
            },
        }
    } else {
        Ok(lhs)
    }
}

fn parse_primary_expression(tokens: &[Token], current: &mut usize) -> (r: Result<ASTNode, ParseError>)
    requires
        *old(current) <= tokens@.len(),
    ensures
        node_outcome(r, *old(current) as int, *final(current) as int, p_primary(token_views(tokens@), *old(current) as int)),
        *final(current) <= tokens@.len(),
    decreases left(token_views(tokens@), *old(current) as int), 3int,
{
    proof {
        reveal_strlit("twue");
        reveal_strlit("(");
        assert("("@ =~= seq!['(']);
    }
    if *current >= tokens.len() {
        return Err(ParseError::ExpectedExpression);
    }
    let token = &tokens[*current];
    match token.token_type {
        TokenType::Number => {
            let t = chars_of(token.value.as_str());
            match parse_literal(&t) {
                Some(n) => {
                    *current = *current + 1;
                    Ok(ASTBuilder::create_number_literal_node(n))
                },
                None => Err(ParseError::MalformedNumber),
            }
        },
        TokenType::String => {
            *current = *current + 1;
            Ok(ASTBuilder::create_string_literal_node(token.value.clone()))
        },
        TokenType::Bool => {
            *current = *current + 1;
            if text_is(&token.value, "twue") {
                Ok(ASTBuilder::create_bool_literal_node(1))
            } else {
                Ok(ASTBuilder::create_bool_literal_node(0))
            }
        },
        TokenType::Identifier => parse_identifier(tokens, current),
        TokenType::Parenthesis => {
            if is_char_text(&token.value, '(') {
                *current = *current + 1;
                match parse_expression(tokens, current) {
                    Err(e) => Err(e),
                    Ok(expr) => match expect_parenthesis(tokens, current, ')') {
                        Err(e) => Err(e),
                        Ok(()) => Ok(expr),
                    },
                }
            } else {
                Err(ParseError::UnexpectedToken(TokenType::Parenthesis))
            }
        },
        TokenType::KindOf => match parse_wrapped(tokens, current) {
            Err(e) => Err(e),
            Ok(expr) => Ok(ASTBuilder::create_kind_of_node(expr)),
        },
        other => Err(ParseError::UnexpectedToken(other)),
    }
}

fn parse_identifier(tokens: &[Token], current: &mut usize) -> (r: Result<ASTNode, ParseError>)
    requires
        *old(current) <= tokens@.len(),
    ensures
        node_outcome(r, *old(current) as int, *final(current) as int, p_ident(token_views(tokens@), *old(current) as int)),
        *final(current) <= tokens@.len(),
    decreases left(token_views(tokens@), *old(current) as int), 2int,
{
    proof {
        reveal_strlit("(");
        assert("("@ =~= seq!['(']);
    }
    if *current >= tokens.len() {
        return Err(ParseError::ExpectedExpression);
    }
    let name = tokens[*current].value.clone();
    if tok_is(tokens, *current + 1, TokenType::Parenthesis, '(') {
        *current = *current + 2;
        let mut arguments: Vec<ASTNode> = Vec::new();
        assert(view_all(arguments@) =~= Seq::empty());
        match parse_arguments(tokens, current, &mut arguments) {
            Err(e) => Err(e),
            Ok(()) => {
                let node = ASTBuilder::create_function_call_node(name, arguments);
                proof {
                    lemma_view_args(node, 0);
                    assert(view_all(arguments@).subrange(0, arguments@.len() as int) =~= view_all(arguments@));
                }
                Ok(node)
            },
        }
    } else {
        *current = *current + 1;
        Ok(ASTBuilder::create_variable_reference_node(name))
    }
}

fn parse_arguments(tokens: &[Token], current: &mut usize, args: &mut Vec<ASTNode>) -> (r: Result<(), ParseError>)
    requires
        *old(current) <= tokens@.len(),
    ensures
        list_outcome(r, *old(current) as int, *final(current) as int, view_all(final(args)@), p_args(token_views(tokens@), *old(current) as int, view_all(old(args)@))),
        *final(current) <= tokens@.len(),
    decreases left(token_views(tokens@), *old(current) as int), 7int,
{
    proof {
        reveal_strlit(")");
        assert(")"@ =~= seq![')']);
    }
    if *current >= tokens.len() {
        return Err(ParseError::ExpectedParenthesis(')'));
    }
    if tok_is(tokens, *current, TokenType::Parenthesis, ')') {
        *current = *current + 1;
        return Ok(());
    }
    if tokens[*current].token_type == TokenType::Comma {
        *current = *current + 1;
        return parse_arguments(tokens, current, args);
    }
    match parse_expression(tokens, current) {
        Err(e) => Err(e),
        Ok(e) => {
            let ghost ev = view_node(e);
            let ghost before = view_all(args@);
            args.push(e);
            assert(view_all(args@) =~= before.push(ev));
            parse_arguments(tokens, current, args)
        },
    }
}

/// A keyword followed by a parenthesised expression: gives the expression.
fn parse_wrapped(tokens: &[Token], current: &mut usize) -> (r: Result<ASTNode, ParseError>)
    requires
        *old(current) <= tokens@.len(),
    ensures
        node_outcome(r, *old(current) as int, *final(current) as int, p_wrapped(token_views(tokens@), *old(current) as int)),
        *final(current) <= tokens@.len(),
    decreases left(token_views(tokens@), *old(current) as int), 1int,
{
    if *current >= tokens.len() {
        return Err(ParseError::ExpectedExpression);
    }
    *current = *current + 1;
    match expect_parenthesis(tokens, current, '(') {
        Err(e) => Err(e),
        Ok(()) => match parse_expression(tokens, current) {
            Err(e) => Err(e),
            Ok(expr) => match expect_parenthesis(tokens, current, ')') {
                Err(e) => Err(e),
                Ok(()) => Ok(expr),
            },
        },
    }
}

fn parse_variable_declaration(tokens: &[Token], current: &mut usize) -> (r: Result<ASTNode, ParseError>)
    requires
        *old(current) <= tokens@.len(),
    ensures
        node_outcome(r, *old(current) as int, *final(current) as int, p_var(token_views(tokens@), *old(current) as int)),
        *final(current) <= tokens@.len(),
    decreases left(token_views(tokens@), *old(current) as int), 1int,
{
    if tokens.len() - *current < 2 {
        return Err(ParseError::ExpectedVariableName);
    }
    *current = *current + 1;
    let name_token = &tokens[*current];
    if name_token.token_type != TokenType::Identifier {
        return Err(ParseError::ExpectedVariableName);
    }
    let name = name_token.value.clone();
    *current = *current + 1;
    match expect_token_type(tokens, current, TokenType::Equal) {
        Err(e) => Err(e),
        Ok(()) => match parse_expression(tokens, current) {
            Err(e) => Err(e),
            Ok(value) => Ok(ASTBuilder::create_variable_declaration_node(name, value)),
        },
    }
}

fn parse_return(tokens: &[Token], current: &mut usize) -> (r: Result<ASTNode, ParseError>)
    requires
        *old(current) <= tokens@.len(),
    ensures
        node_outcome(r, *old(current) as int, *final(current) as int, p_return(token_views(tokens@), *old(current) as int)),
        *final(current) <= tokens@.len(),
    decreases left(token_views(tokens@), *old(current) as int), 1int,
{
    if *current >= tokens.len() {
        return Err(ParseError::ExpectedExpression);
    }
    *current = *current + 1;
    match parse_expression(tokens, current) {
        Err(e) => Err(e),
        Ok(value) => Ok(ASTBuilder::create_return_node(value)),
    }
}

fn parse_parameters(tokens: &[Token], current: &mut usize, params: &mut Vec<ASTNode>) -> (r: Result<(), ParseError>)
    requires
        *old(current) <= tokens@.len(),
    ensures
        list_outcome(r, *old(current) as int, *final(current) as int, view_all(final(params)@), p_params(token_views(tokens@), *old(current) as int, view_all(old(params)@))),
        *final(current) <= tokens@.len(),
    decreases left(token_views(tokens@), *old(current) as int), 0int,
{
    proof {
        reveal_strlit(")");
        assert(")"@ =~= seq![')']);
    }
    if *current >= tokens.len() {
        return Err(ParseError::ExpectedParenthesis(')'));
    }
    if tok_is(tokens, *current, TokenType::Parenthesis, ')') {
        *current = *current + 1;
        return Ok(());
    }
    let kind = tokens[*current].token_type;
    assert(token_views(tokens@)[*current as int].0 == kind);
    if kind == TokenType::OwO || kind == TokenType::Print || kind == TokenType::FunctionDef || kind
        == TokenType::VarDecl || kind == TokenType::Return || kind == TokenType::KindOf || kind
        == TokenType::Bool {
        return Err(ParseError::KeywordParameter);
    }
    match kind {
        TokenType::Identifier => {
            let param = ASTNode::VariableDeclaration(
                VariableDeclarationNode {
                    name: tokens[*current].value.clone(),
                    value: Box::new(ASTNode::NoValue),
                },
            );
            let ghost pv = view_node(param);
            let ghost before = view_all(params@);
            assert(view_node(ASTNode::NoValue) == Ast::NoValue);
            assert(pv == Ast::VariableDeclaration(
                token_views(tokens@)[*current as int].1,
                Box::new(Ast::NoValue),
            ));
            params.push(param);
            assert(view_all(params@) =~= before.push(pv));
            *current = *current + 1;
            parse_parameters(tokens, current, params)
        },
        TokenType::Comma => {
            *current = *current + 1;
            parse_parameters(tokens, current, params)
        },
        other => Err(ParseError::UnexpectedToken(other)),
    }
}

#[verifier::spinoff_prover]
fn parse_body(tokens: &[Token], current: &mut usize, body: &mut Vec<ASTNode>) -> (r: Result<(), ParseError>)
    requires
        *old(current) <= tokens@.len(),
    ensures
        list_outcome(r, *old(current) as int, *final(current) as int, view_all(final(body)@), p_body(token_views(tokens@), *old(current) as int, view_all(old(body)@))),
        *final(current) <= tokens@.len(),
    decreases left(token_views(tokens@), *old(current) as int), 9int,
{
    proof {
        reveal_strlit("}");
        assert("}"@ =~= seq!['}']);
    }
    if *current >= tokens.len() {
        return Err(ParseError::ExpectedBrace('}'));
    }
    if tok_is(tokens, *current, TokenType::Brace, '}') {
        *current = *current + 1;
        return Ok(());
    }
    let st = if tokens[*current].token_type == TokenType::Return {
        parse_return(tokens, current)
    } else {
        walk(tokens, current)
    };
    match st {
        Err(e) => Err(e),
        Ok(s) => {
            let ghost sv = view_node(s);
            let ghost before = view_all(body@);
            body.push(s);
            assert(view_all(body@) =~= before.push(sv));
            parse_body(tokens, current, body)
        },
    }
}

#[verifier::spinoff_prover]
#[verifier::rlimit(40)]
fn parse_function_declaration(tokens: &[Token], current: &mut usize) -> (r: Result<ASTNode, ParseError>)
    requires
        *old(current) <= tokens@.len(),
    ensures
        node_outcome(r, *old(current) as int, *final(current) as int, p_fn(token_views(tokens@), *old(current) as int)),
        *final(current) <= tokens@.len(),
    decreases left(token_views(tokens@), *old(current) as int), 1int,
{
    if tokens.len() - *current < 2 {
        return Err(ParseError::ExpectedFunctionName);
    }
    *current = *current + 1;
    let name_token = &tokens[*current];
    if name_token.token_type != TokenType::Identifier {
        return Err(ParseError::ExpectedFunctionName);
    }
    let name = name_token.value.clone();
    *current = *current + 1;
    match expect_parenthesis(tokens, current, '(') {
        Err(e) => {
            return Err(e);
        },
        Ok(()) => {},
    }
    let mut params: Vec<ASTNode> = Vec::new();
    assert(view_all(params@) =~= Seq::empty());
    match parse_parameters(tokens, current, &mut params) {
        Err(e) => {
            return Err(e);
        },
        Ok(()) => {},
    }
    match expect_brace(tokens, current, '{') {
        Err(e) => {
            return Err(e);
        },
        Ok(()) => {},
    }
    let mut body: Vec<ASTNode> = Vec::new();
    assert(view_all(body@) =~= Seq::empty());
    match parse_body(tokens, current, &mut body) {
        Err(e) => {
            return Err(e);
        },
        Ok(()) => {},
    }
    let node = ASTBuilder::create_function_declaration_node(name, params, body);
    proof {
        lemma_view_params(node, 0);
        lemma_view_body(node, 0);
        assert(view_all(params@).subrange(0, params@.len() as int) =~= view_all(params@));
        assert(view_all(body@).subrange(0, body@.len() as int) =~= view_all(body@));
    }
    Ok(node)
}

/// Parses one statement, chosen by the kind of its first token.
fn walk(tokens: &[Token], current: &mut usize) -> (r: Result<ASTNode, ParseError>)
    requires
        *old(current) <= tokens@.len(),
    ensures
        node_outcome(r, *old(current) as int, *final(current) as int, p_stmt(token_views(tokens@), *old(current) as int)),
        *final(current) <= tokens@.len(),
    decreases left(token_views(tokens@), *old(current) as int), 8int,
{
    if *current >= tokens.len() {
        return Err(ParseError::ExpectedStatement);
    }
    match tokens[*current].token_type {
        TokenType::Print => match parse_wrapped(tokens, current) {
            Err(e) => Err(e),
            Ok(expr) => Ok(ASTBuilder::create_print_node(expr)),
        },
        TokenType::OwO => match parse_wrapped(tokens, current) {
            Err(e) => Err(e),
            Ok(expr) => Ok(ASTBuilder::create_owo_node(expr)),
        },
        TokenType::KindOf => match parse_wrapped(tokens, current) {
            Err(e) => Err(e),
            Ok(expr) => Ok(ASTBuilder::create_kind_of_node(expr)),
        },
        TokenType::FunctionDef => parse_function_declaration(tokens, current),
        TokenType::VarDecl => parse_variable_declaration(tokens, current),
        TokenType::Identifier => parse_identifier(tokens, current),
        other => Err(ParseError::UnexpectedToken(other)),
    }
}

/// Parses a whole token sequence into its top-level statements.
pub fn parse(tokens: &[Token]) -> (r: Result<Vec<ASTNode>, ParseError>)
    ensures
        r matches Ok(v) ==> p_program(token_views(tokens@), 0) == Ok::<_, ParseError>(view_all(v@)),
        r matches Err(e) ==> p_program(token_views(tokens@), 0) == Err::<Seq<Ast>, _>(e),
{
    let ghost toks = token_views(tokens@);
    let mut ast: Vec<ASTNode> = Vec::new();
    let mut current: usize = 0;
    proof {
        assert(view_all(ast@) =~= Seq::empty());
        if let Ok(rest) = p_program(toks, 0) {
            assert(view_all(ast@) + rest =~= rest);
        }
    }
    while current < tokens.len()
        invariant
            toks == token_views(tokens@),
            current <= tokens@.len(),
            p_program(toks, 0) == match p_program(toks, current as int) {
                Ok(rest) => Ok(view_all(ast@) + rest),
                Err(e) => Err::<Seq<Ast>, ParseError>(e),
            },
        decreases tokens@.len() - current,
    {
        let ghost before = view_all(ast@);
        match walk(tokens, &mut current) {
            Err(e) => {
                return Err(e);
            },
            Ok(node) => {
                let ghost nv = view_node(node);
                ast.push(node);
                proof {
                    assert(view_all(ast@) =~= before.push(nv));
                    if let Ok(rest) = p_program(toks, current as int) {
                        assert(before + (seq![nv] + rest) =~= before.push(nv) + rest);
                    }
                }
            },
        }
    }
    proof {
        assert(view_all(ast@) + Seq::empty() =~= view_all(ast@));
    }
    Ok(ast)
}

} // verus!
