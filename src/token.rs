//! Lexical units shared by the tokenizer and the parser.
use vstd::prelude::*;

verus! {

/// The closed set of token kinds.
#[derive(Clone, Copy, PartialEq, Eq, Structural, Debug)]
pub enum TokenType {
    KEYWORD,
    IDENTIFIER,
    NUMBER,
    STRING,
    ASSIGNMENT,
    OPERATOR,
    SEMICOLON,
    COMMA,
    LPAREN,
    RPAREN,
    LBRACKET,
    RBRACKET,
    EOF,
}

/// A token: its kind and the exact lexeme.
#[derive(Clone, PartialEq, Debug)]
pub struct Token {
    pub _type: TokenType,
    pub value: String,
}

/// Mathematical model of a token.
pub struct TokenView {
    pub kind: TokenType,
    pub text: Seq<char>,
}

impl View for Token {
    type V = TokenView;

    open spec fn view(&self) -> TokenView {
        TokenView { kind: self._type, text: self.value@ }
    }
}

/// The model of a token sequence.
pub open spec fn views(v: Seq<Token>) -> Seq<TokenView> {
    v.map_values(|t: Token| t@)
}

/// The token of kind `kind` with text `text`.
pub open spec fn token_view(kind: TokenType, text: Seq<char>) -> TokenView {
    TokenView { kind, text }
}

impl Token {
    pub fn new(_type: TokenType, value: String) -> (r: Token)
        ensures
            r@ == (TokenView { kind: _type, text: value@ }),
    {
        Token { _type, value }
    }

    /// A copy of this token with the same kind and text.
    pub(crate) fn duplicate(&self) -> (r: Token)
        ensures
            r@ == self@,
    {
        Token { _type: self._type, value: self.value.clone() }
    }
}

} // verus!
