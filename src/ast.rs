//! Recursive-descent parser from tokens to syntax trees.
//!
//! Grammar, from lowest to highest precedence:
//!
//! ```text
//! statement  := "var" IDENTIFIER "=" expression ";" | expression
//! expression := term (("+" | "-") term)*
//! term       := factor (("*" | "/") factor)*
//! factor     := NUMBER | IDENTIFIER | "(" expression ")"
//! ```
use vstd::prelude::*;

use crate::ast_node::{ASTNode, AstView};
use crate::text::{i64_text, is_single, parse_i64, same_text};
use crate::token::{views, Token, TokenType, TokenView};

verus! {

/// What the parser expected and did not find.
#[derive(Clone, Copy, PartialEq, Eq, Structural, Debug)]
pub enum ParseErrorKind {
    /// No identifier after `var`.
    ExpectedIdentifier,
    /// No `=` after the declared name.
    ExpectedAssignment,
    /// No `;` after a declaration.
    ExpectedSemicolon,
    /// No `)` after a parenthesized expression.
    ExpectedClosingParen,
    /// A token that cannot start an operand.
    UnexpectedToken,
    /// The tokens ran out where an operand was needed.
    UnexpectedEnd,
    /// A number token whose text is no `i64`.
    InvalidNumber,
}

/// A syntax error: its kind, the token found instead (none at the end), and
/// that token's index.
#[derive(Clone, Debug, PartialEq)]
pub struct ParseError {
    pub kind: ParseErrorKind,
    pub found: Option<Token>,
    pub position: usize,
}

pub struct ParseErrorView {
    pub kind: ParseErrorKind,
    pub found: Option<TokenView>,
    pub position: int,
}

impl View for ParseError {
    type V = ParseErrorView;

    open spec fn view(&self) -> ParseErrorView {
        ParseErrorView {
            kind: self.kind,
            found: match self.found {
                Some(t) => Some(t@),
                None => None,
            },
            position: self.position as int,
        }
    }
}

/// A parse outcome: the tree and how many tokens it took, or the error.
pub type ParseResult = Result<(AstView, nat), ParseErrorView>;

pub open spec fn token_at(toks: Seq<TokenView>, pos: nat) -> Option<TokenView> {
    if pos < toks.len() {
        Some(toks[pos as int])
    } else {
        None
    }
}

pub open spec fn failure(kind: ParseErrorKind, toks: Seq<TokenView>, pos: nat) -> ParseErrorView {
    ParseErrorView { kind, found: token_at(toks, pos), position: pos as int }
}

pub open spec fn is_operator(t: TokenView, c: char) -> bool {
    t.kind == TokenType::OPERATOR && t.text == seq![c]
}

pub open spec fn is_additive(t: TokenView) -> bool {
    is_operator(t, '+') || is_operator(t, '-')
}

pub open spec fn is_multiplicative(t: TokenView) -> bool {
    is_operator(t, '*') || is_operator(t, '/')
}

pub open spec fn is_var_keyword(t: TokenView) -> bool {
    t.kind == TokenType::KEYWORD && t.text == "var"@
}

/// `r` with `k` more tokens counted as taken.
pub open spec fn taking_more(r: ParseResult, k: nat) -> ParseResult {
    match r {
        Ok((n, used)) => Ok((n, used + k)),
        Err(e) => Err(e),
    }
}

/// Tokens left from `pos` on.
pub open spec fn remaining(toks: Seq<TokenView>, pos: nat) -> nat {
    if pos < toks.len() {
        (toks.len() - pos) as nat
    } else {
        0
    }
}

pub open spec fn binary(left: AstView, op: TokenView, right: AstView) -> AstView {
    AstView::BinaryOp { left: Box::new(left), op, right: Box::new(right) }
}

/// `factor` at `pos`.
pub open spec fn factor(toks: Seq<TokenView>, pos: nat) -> ParseResult
    decreases remaining(toks, pos), 0nat,
{
    if pos >= toks.len() {
        Err(failure(ParseErrorKind::UnexpectedEnd, toks, pos))
    } else {
        let t = toks[pos as int];
        if t.kind == TokenType::NUMBER {
            match i64_text(t.text) {
                Some(v) => Ok((AstView::Number(v), 1)),
                None => Err(failure(ParseErrorKind::InvalidNumber, toks, pos)),
            }
        } else if t.kind == TokenType::IDENTIFIER {
            Ok((AstView::Identifier(t.text), 1))
        } else if t.kind == TokenType::LPAREN {
            match expression(toks, pos + 1) {
                Err(e) => Err(e),
                Ok((inner, used)) => {
                    let close = pos + 1 + used;
                    if close < toks.len() && toks[close as int].kind == TokenType::RPAREN {
                        Ok((inner, used + 2))
                    } else {
                        Err(failure(ParseErrorKind::ExpectedClosingParen, toks, close))
                    }
                },
            }
        } else {
            Err(failure(ParseErrorKind::UnexpectedToken, toks, pos))
        }
    }
}

/// The `(("*" | "/") factor)*` part of a term whose operands so far fold
/// into `left`.
pub open spec fn term_tail(toks: Seq<TokenView>, left: AstView, pos: nat) -> ParseResult
    decreases remaining(toks, pos), 1nat,
{
    if pos < toks.len() && is_multiplicative(toks[pos as int]) {
        match factor(toks, pos + 1) {
            Err(e) => Err(e),
            Ok((right, used)) => taking_more(
                term_tail(toks, binary(left, toks[pos as int], right), pos + 1 + used),
                1 + used,
            ),
        }
    } else {
        Ok((left, 0))
    }
}

/// `term` at `pos`.
pub open spec fn term(toks: Seq<TokenView>, pos: nat) -> ParseResult
    decreases remaining(toks, pos), 2nat,
{
    if pos >= toks.len() {
        Err(failure(ParseErrorKind::UnexpectedEnd, toks, pos))
    } else {
        match factor(toks, pos) {
            Err(e) => Err(e),
            Ok((left, used)) => taking_more(term_tail(toks, left, pos + used), used),
        }
    }
}

/// The `(("+" | "-") term)*` part of an expression whose operands so far
/// fold into `left`.
pub open spec fn expression_tail(toks: Seq<TokenView>, left: AstView, pos: nat) -> ParseResult
    decreases remaining(toks, pos), 1nat,
{
    if pos < toks.len() && is_additive(toks[pos as int]) {
        match term(toks, pos + 1) {
            Err(e) => Err(e),
            Ok((right, used)) => taking_more(
                expression_tail(toks, binary(left, toks[pos as int], right), pos + 1 + used),
                1 + used,
            ),
        }
    } else {
        Ok((left, 0))
    }
}

/// `expression` at `pos`.
pub open spec fn expression(toks: Seq<TokenView>, pos: nat) -> ParseResult
    decreases remaining(toks, pos), 3nat,
{
    if pos >= toks.len() {
        Err(failure(ParseErrorKind::UnexpectedEnd, toks, pos))
    } else {
        match term(toks, pos) {
            Err(e) => Err(e),
            Ok((left, used)) => taking_more(expression_tail(toks, left, pos + used), used),
        }
    }
}

/// `"var" IDENTIFIER "=" expression ";"` at `pos`, where `var` stands.
pub open spec fn declaration(toks: Seq<TokenView>, pos: nat) -> ParseResult {
    let name = pos + 1;
    let assign = pos + 2;
    if !(name < toks.len() && toks[name as int].kind == TokenType::IDENTIFIER) {
        Err(failure(ParseErrorKind::ExpectedIdentifier, toks, name))
    } else if !(assign < toks.len() && toks[assign as int].kind == TokenType::ASSIGNMENT
        && toks[assign as int].text == seq!['=']) {
        Err(failure(ParseErrorKind::ExpectedAssignment, toks, assign))
    } else {
        match expression(toks, pos + 3) {
            Err(e) => Err(e),
            Ok((value, used)) => {
                let semicolon = pos + 3 + used;
                if semicolon < toks.len() && toks[semicolon as int].kind == TokenType::SEMICOLON {
                    Ok(
                        (
                            AstView::VariableDeclaration {
                                identifier: toks[name as int].text,
                                value: Box::new(value),
                            },
                            used + 4,
                        ),
                    )
                } else {
                    Err(failure(ParseErrorKind::ExpectedSemicolon, toks, semicolon))
                }
            },
        }
    }
}

/// One top-level statement at `pos`.
pub open spec fn statement(toks: Seq<TokenView>, pos: nat) -> ParseResult {
    if pos < toks.len() && is_var_keyword(toks[pos as int]) {
        declaration(toks, pos)
    } else {
        expression(toks, pos)
    }
}

/// `r` is what `spec` describes, for a parse that moved from `start` to
/// `end`.
pub open spec fn outcome_is(
    r: Result<ASTNode, ParseError>,
    spec: ParseResult,
    start: nat,
    end: nat,
) -> bool {
    match spec {
        Ok((n, used)) => r matches Ok(node) && node@ == n && end == start + used,
        Err(e) => r matches Err(err) && err@ == e,
    }
}

/// Parser over a token sequence, with a read position that each call of
/// `parse` moves past one statement.
pub struct Parser {
    tokens: Vec<Token>,
    position: usize,
}

impl Parser {
    pub closed spec fn wf(&self) -> bool {
        self.position <= self.tokens@.len()
    }

    /// The tokens, as models.
    pub closed spec fn tokens_view(&self) -> Seq<TokenView> {
        views(self.tokens@)
    }

    /// Index of the next token to read.
    pub closed spec fn pos(&self) -> nat {
        self.position as nat
    }

    pub fn new(tokens: Vec<Token>) -> (r: Self)
        ensures
            r.wf(),
            r.tokens_view() == views(tokens@),
            r.pos() == 0,
    {
        Parser { tokens, position: 0 }
    }

    fn current_token(&self) -> (r: Option<&Token>)
        ensures
            match r {
                Some(t) => self.position < self.tokens@.len() && *t == self.tokens@[self.position as int],
                None => self.position >= self.tokens@.len(),
            },
    {
        if self.position < self.tokens.len() {
            Some(&self.tokens[self.position])
        } else {
            None
        }
    }

    fn advance(&mut self)
        requires
            old(self).position < old(self).tokens@.len(),
        ensures
            final(self).position == old(self).position + 1,
            final(self).tokens@ == old(self).tokens@,
    {
        let n = self.tokens.len();
        assert(self.position < n);
        self.position = self.position + 1;
    }

    /// The error of kind `kind` at the current position.
    fn failure_here(&self, kind: ParseErrorKind) -> (r: ParseError)
        ensures
            r@ == failure(kind, views(self.tokens@), self.position as nat),
    {
        let found = match self.current_token() {
            Some(t) => Some(t.duplicate()),
            None => None,
        };
        ParseError { kind, found, position: self.position }
    }

    /// Parses one statement: a declaration when the next token is `var`,
    /// otherwise an expression.
    pub fn parse(&mut self) -> (r: Result<ASTNode, ParseError>)
        requires
            old(self).wf(),
        ensures
            final(self).wf(),
            final(self).tokens_view() == old(self).tokens_view(),
            outcome_is(r, statement(old(self).tokens_view(), old(self).pos()), old(self).pos(), final(self).pos()),
    {
        if let Some(token) = self.current_token() {
            if token._type == TokenType::KEYWORD && same_text(token.value.as_str(), "var") {
                return self.parse_variable_declaration();
            }
        }
        self.parse_expression()
    }

    fn parse_variable_declaration(&mut self) -> (r: Result<ASTNode, ParseError>)
        requires
            old(self).wf(),
            old(self).position < old(self).tokens@.len(),
        ensures
            final(self).wf(),
            final(self).tokens@ == old(self).tokens@,
            outcome_is(r, declaration(views(old(self).tokens@), old(self).pos()), old(self).pos(), final(self).pos()),
    {
        self.advance();
        let name = match self.current_token() {
            Some(t) => if t._type == TokenType::IDENTIFIER {
                t.value.clone()
            } else {
                return Err(self.failure_here(ParseErrorKind::ExpectedIdentifier));
            },
            None => {
                return Err(self.failure_here(ParseErrorKind::ExpectedIdentifier));
            },
        };
        self.advance();
        match self.current_token() {
            Some(t) => if !(t._type == TokenType::ASSIGNMENT && is_single(t.value.as_str(), '=')) {
                return Err(self.failure_here(ParseErrorKind::ExpectedAssignment));
            },
            None => {
                return Err(self.failure_here(ParseErrorKind::ExpectedAssignment));
            },
        }
        self.advance();
        let value = match self.parse_expression() {
            Ok(n) => n,
            Err(e) => {
                return Err(e);
            },
        };
        match self.current_token() {
            Some(t) => if t._type != TokenType::SEMICOLON {
                return Err(self.failure_here(ParseErrorKind::ExpectedSemicolon));
            },
            None => {
                return Err(self.failure_here(ParseErrorKind::ExpectedSemicolon));
            },
        }
        self.advance();
        Ok(ASTNode::VariableDeclaration { identifier: name, value: Box::new(value) })
    }

    fn parse_expression(&mut self) -> (r: Result<ASTNode, ParseError>)
        requires
            old(self).wf(),
        ensures
            final(self).wf(),
            final(self).tokens@ == old(self).tokens@,
            outcome_is(r, expression(views(old(self).tokens@), old(self).pos()), old(self).pos(), final(self).pos()),
        decreases remaining(views(old(self).tokens@), old(self).pos()), 3nat,
    {
        let ghost toks = views(self.tokens@);
        let ghost start = self.position as nat;
        if self.position >= self.tokens.len() {
            return Err(self.failure_here(ParseErrorKind::UnexpectedEnd));
        }
        let mut left = match self.parse_term() {
            Ok(n) => n,
            Err(e) => {
                return Err(e);
            },
        };
        while self.position < self.tokens.len() && self.at_operator2('+', '-')
            invariant
                self.wf(),
                self.tokens@ == old(self).tokens@,
                toks == views(old(self).tokens@),
                start == old(self).pos(),
                start < toks.len(),
                start < self.position,
                expression(toks, start) == taking_more(
                    expression_tail(toks, left@, self.position as nat),
                    (self.position - start) as nat,
                ),
            decreases toks.len() - self.position,
        {
            let op = self.tokens[self.position].duplicate();
            self.advance();
            let right = match self.parse_term() {
                Ok(n) => n,
                Err(e) => {
                    return Err(e);
                },
            };
            left = ASTNode::BinaryOp { left: Box::new(left), op, right: Box::new(right) };
        }
        Ok(left)
    }

    fn parse_term(&mut self) -> (r: Result<ASTNode, ParseError>)
        requires
            old(self).wf(),
        ensures
            final(self).wf(),
            final(self).tokens@ == old(self).tokens@,
            outcome_is(r, term(views(old(self).tokens@), old(self).pos()), old(self).pos(), final(self).pos()),
        decreases remaining(views(old(self).tokens@), old(self).pos()), 2nat,
    {
        let ghost toks = views(self.tokens@);
        let ghost start = self.position as nat;
        if self.position >= self.tokens.len() {
            return Err(self.failure_here(ParseErrorKind::UnexpectedEnd));
        }
        let mut left = match self.parse_factor() {
            Ok(n) => n,
            Err(e) => {
                return Err(e);
            },
        };
        while self.position < self.tokens.len() && self.at_operator2('*', '/')
            invariant
                self.wf(),
                self.tokens@ == old(self).tokens@,
                toks == views(old(self).tokens@),
                start == old(self).pos(),
                start < toks.len(),
                start < self.position,
                term(toks, start) == taking_more(
                    term_tail(toks, left@, self.position as nat),
                    (self.position - start) as nat,
                ),
            decreases toks.len() - self.position,
        {
            let op = self.tokens[self.position].duplicate();
            self.advance();
            let right = match self.parse_factor() {
                Ok(n) => n,
                Err(e) => {
                    return Err(e);
                },
            };
            left = ASTNode::BinaryOp { left: Box::new(left), op, right: Box::new(right) };
        }
        Ok(left)
    }

    /// Whether the current token is the operator `a` or the operator `b`.
    fn at_operator2(&self, a: char, b: char) -> (r: bool)
        requires
            self.position < self.tokens@.len(),
        ensures
            r == (is_operator(views(self.tokens@)[self.position as int], a) || is_operator(
                views(self.tokens@)[self.position as int],
                b,
            )),
    {
        let t = &self.tokens[self.position];
        t._type == TokenType::OPERATOR && (is_single(t.value.as_str(), a) || is_single(
            t.value.as_str(),
            b,
        ))
    }

    fn parse_factor(&mut self) -> (r: Result<ASTNode, ParseError>)
        requires
            old(self).wf(),
        ensures
            final(self).wf(),
            final(self).tokens@ == old(self).tokens@,
            outcome_is(r, factor(views(old(self).tokens@), old(self).pos()), old(self).pos(), final(self).pos()),
        decreases remaining(views(old(self).tokens@), old(self).pos()), 0nat,
    {
        if self.position >= self.tokens.len() {
            return Err(self.failure_here(ParseErrorKind::UnexpectedEnd));
        }
        let kind = self.tokens[self.position]._type;
        if kind == TokenType::NUMBER {
            match parse_i64(self.tokens[self.position].value.as_str()) {
                Some(v) => {
                    self.advance();
                    Ok(ASTNode::Number(v))
                },
                None => Err(self.failure_here(ParseErrorKind::InvalidNumber)),
            }
        } else if kind == TokenType::IDENTIFIER {
            let name = self.tokens[self.position].value.clone();
            self.advance();
            Ok(ASTNode::Identifier(name))
        } else if kind == TokenType::LPAREN {
            self.advance();
            let inner = match self.parse_expression() {
                Ok(n) => n,
                Err(e) => {
                    return Err(e);
                },
            };
            match self.current_token() {
                Some(t) => if t._type != TokenType::RPAREN {
                    return Err(self.failure_here(ParseErrorKind::ExpectedClosingParen));
                },
                None => {
                    return Err(self.failure_here(ParseErrorKind::ExpectedClosingParen));
                },
            }
            self.advance();
            Ok(inner)
        } else {
            Err(self.failure_here(ParseErrorKind::UnexpectedToken))
        }
    }
}

} // verus!
