//! The tokenizer: classifies the codepoints of a text into tokens.
use vstd::prelude::*;

use crate::lexer_cursor::{
    column_at, lemma_line_column_bounds, lemma_skip_white_space, line_at, skip_white_space,
    LexerCursor,
};
use crate::text::{
    alphabetic, alphanumeric, is_alphabetic, is_alphanumeric, is_decimal_digit, is_digit,
    push_char, same_text, white_space,
};
use crate::token::{token_view, views, Token, TokenType, TokenView};

verus! {

/// Why tokenization stopped, with the line and column of the offending
/// codepoint.
#[derive(Clone, Copy, PartialEq, Eq, Structural, Debug)]
pub enum LexError {
    /// A codepoint that starts no token.
    InvalidCharacter { character: char, line: usize, column: usize },
    /// A string literal whose closing delimiter never comes; the position is
    /// that of the opening delimiter.
    UnterminatedString { delimiter: char, line: usize, column: usize },
}

pub open spec fn is_identifier_char(c: char) -> bool {
    alphanumeric(c) || c == '_'
}

pub open spec fn is_number_char(c: char) -> bool {
    is_decimal_digit(c) || c == '.' || c == '_'
}

/// Length of the run of identifier codepoints starting at `i`.
pub open spec fn identifier_run(s: Seq<char>, i: int) -> nat
    decreases s.len() - i,
{
    if 0 <= i < s.len() && is_identifier_char(s[i]) {
        1 + identifier_run(s, i + 1)
    } else {
        0
    }
}

/// Length of the run of number codepoints starting at `i`.
pub open spec fn number_run(s: Seq<char>, i: int) -> nat
    decreases s.len() - i,
{
    if 0 <= i < s.len() && is_number_char(s[i]) {
        1 + number_run(s, i + 1)
    } else {
        0
    }
}

/// Length of the run of codepoints other than `delim` starting at `i`.
pub open spec fn string_run(s: Seq<char>, i: int, delim: char) -> nat
    decreases s.len() - i,
{
    if 0 <= i < s.len() && s[i] != delim {
        1 + string_run(s, i + 1, delim)
    } else {
        0
    }
}

pub proof fn lemma_run_bounds(s: Seq<char>, i: int, delim: char)
    requires
        0 <= i <= s.len(),
    ensures
        i + identifier_run(s, i) <= s.len(),
        i + number_run(s, i) <= s.len(),
        i + string_run(s, i, delim) <= s.len(),
    decreases s.len() - i,
{
    if i < s.len() {
        lemma_run_bounds(s, i + 1, delim);
    }
}

/// `t` with every underscore removed.
pub open spec fn without_underscores(t: Seq<char>) -> Seq<char>
    decreases t.len(),
{
    if t.len() == 0 {
        t
    } else {
        let rest = without_underscores(t.drop_last());
        if t.last() == '_' {
            rest
        } else {
            rest.push(t.last())
        }
    }
}

/// The kind of a token made of the single codepoint `c`, if it is one.
pub open spec fn single_char_kind(c: char) -> Option<TokenType> {
    if c == '+' || c == '-' || c == '*' || c == '/' || c == '<' || c == '>' {
        Some(TokenType::OPERATOR)
    } else if c == '(' {
        Some(TokenType::LPAREN)
    } else if c == ')' {
        Some(TokenType::RPAREN)
    } else if c == '{' {
        Some(TokenType::LBRACKET)
    } else if c == '}' {
        Some(TokenType::RBRACKET)
    } else if c == ',' {
        Some(TokenType::COMMA)
    } else if c == ';' {
        Some(TokenType::SEMICOLON)
    } else {
        None
    }
}

/// An operator that an immediately following `=` turns into a compound
/// assignment.
pub open spec fn is_compound_prefix(c: char) -> bool {
    c == '+' || c == '-' || c == '*' || c == '/'
}

pub open spec fn is_keyword_text(t: Seq<char>) -> bool {
    t == "função"@ || t == "var"@ || t == "para"@ || t == "retorne"@
}

/// Tokens of `s` from index `i` on, appended to `toks`.
pub open spec fn scan(s: Seq<char>, i: int, toks: Seq<TokenView>) -> Result<
    Seq<TokenView>,
    LexError,
>
    decreases s.len() - i,
{
    if i < 0 || i >= s.len() {
        Ok(toks)
    } else {
        let c = s[i];
        if white_space(c) {
            scan(s, i + 1, toks)
        } else if c == '=' {
            if i > 0 && is_compound_prefix(s[i - 1]) && toks.len() > 0 {
                let merged = token_view(TokenType::ASSIGNMENT, toks.last().text.push('='));
                scan(s, i + 1, toks.drop_last().push(merged))
            } else {
                scan(s, i + 1, toks.push(token_view(TokenType::ASSIGNMENT, seq!['='])))
            }
        } else if single_char_kind(c) is Some {
            scan(s, i + 1, toks.push(token_view(single_char_kind(c)->0, seq![c])))
        } else if alphabetic(c) || c == '_' {
            proof {
                lemma_run_bounds(s, i + 1, c);
            }
            let end = i + 1 + identifier_run(s, i + 1);
            let text = s.subrange(i, end);
            let kind = if is_keyword_text(text) {
                TokenType::KEYWORD
            } else {
                TokenType::IDENTIFIER
            };
            scan(s, end, toks.push(token_view(kind, text)))
        } else if is_decimal_digit(c) {
            proof {
                lemma_run_bounds(s, i + 1, c);
            }
            let end = i + 1 + number_run(s, i + 1);
            scan(s, end, toks.push(token_view(TokenType::NUMBER, without_underscores(s.subrange(i, end)))))
        } else if c == '"' || c == '\'' {
            let close = i + 1 + string_run(s, i + 1, c);
            if close >= s.len() {
                Err(
                    LexError::UnterminatedString {
                        delimiter: c,
                        line: line_at(s, i) as usize,
                        column: column_at(s, i) as usize,
                    },
                )
            } else {
                scan(s, close + 1, toks.push(token_view(TokenType::STRING, s.subrange(i + 1, close))))
            }
        } else {
            Err(
                LexError::InvalidCharacter {
                    character: c,
                    line: line_at(s, i) as usize,
                    column: column_at(s, i) as usize,
                },
            )
        }
    }
}

/// Whitespace before the next token changes nothing.
pub proof fn lemma_scan_skips_white_space(s: Seq<char>, i: int, toks: Seq<TokenView>)
    requires
        0 <= i <= s.len(),
    ensures
        scan(s, i, toks) == scan(s, skip_white_space(s, i), toks),
    decreases s.len() - i,
{
    if i < s.len() && white_space(s[i]) {
        lemma_scan_skips_white_space(s, i + 1, toks);
    }
}

/// Codepoints that tokenization accepts outside string literals: letters,
/// decimal digits, underscore, whitespace, `=`, and the operator and
/// punctuation codepoints.
pub open spec fn is_supported_char(c: char) -> bool {
    alphabetic(c) || is_decimal_digit(c) || c == '_' || white_space(c) || c == '='
        || single_char_kind(c) is Some
}

proof fn lemma_supported_from(s: Seq<char>, i: int, toks: Seq<TokenView>)
    requires
        0 <= i,
        forall|k: int| 0 <= k < s.len() ==> is_supported_char(#[trigger] s[k]),
    ensures
        scan(s, i, toks) is Ok,
    decreases s.len() - i,
{
    if i < s.len() {
        let c = s[i];
        lemma_run_bounds(s, i + 1, c);
        if white_space(c) || c == '=' || single_char_kind(c) is Some {
            if white_space(c) {
                lemma_supported_from(s, i + 1, toks);
            } else if c == '=' && i > 0 && is_compound_prefix(s[i - 1]) && toks.len() > 0 {
                let merged = token_view(TokenType::ASSIGNMENT, toks.last().text.push('='));
                lemma_supported_from(s, i + 1, toks.drop_last().push(merged));
            } else if c == '=' {
                lemma_supported_from(s, i + 1, toks.push(token_view(TokenType::ASSIGNMENT, seq!['='])));
            } else {
                lemma_supported_from(s, i + 1, toks.push(token_view(single_char_kind(c)->0, seq![c])));
            }
        } else if alphabetic(c) || c == '_' {
            let end = i + 1 + identifier_run(s, i + 1);
            let text = s.subrange(i, end);
            let kind = if is_keyword_text(text) {
                TokenType::KEYWORD
            } else {
                TokenType::IDENTIFIER
            };
            lemma_supported_from(s, end, toks.push(token_view(kind, text)));
        } else {
            let end = i + 1 + number_run(s, i + 1);
            lemma_supported_from(
                s,
                end,
                toks.push(token_view(TokenType::NUMBER, without_underscores(s.subrange(i, end)))),
            );
        }
    }
}

/// Text made only of letters, decimal digits, underscores, whitespace and
/// the operator and punctuation codepoints always tokenizes.
pub proof fn lemma_supported_text_tokenizes(s: Seq<char>)
    requires
        forall|k: int| 0 <= k < s.len() ==> is_supported_char(#[trigger] s[k]),
    ensures
        scan(s, 0, seq![]) is Ok,
{
    lemma_supported_from(s, 0, seq![]);
}

proof fn lemma_full_runs(s: Seq<char>, i: int, delim: char)
    requires
        0 <= i <= s.len(),
    ensures
        (forall|k: int| i <= k < s.len() ==> is_identifier_char(#[trigger] s[k])) ==> identifier_run(
            s,
            i,
        ) == s.len() - i,
        (forall|k: int| i <= k < s.len() ==> #[trigger] s[k] != delim) ==> string_run(s, i, delim)
            == s.len() - i,
    decreases s.len() - i,
{
    if i < s.len() {
        lemma_full_runs(s, i + 1, delim);
    }
}

/// The tokenizer reads an identifier when it lands on `c`.
pub open spec fn starts_identifier(c: char) -> bool {
    !white_space(c) && c != '=' && single_char_kind(c) is None && (alphabetic(c) || c == '_')
}

/// A text that is one run of identifier codepoints (letters and digits of
/// any script, and underscores) tokenizes as a single identifier token that
/// holds exactly the codepoints of the text.
pub proof fn lemma_identifier_text_is_one_token(s: Seq<char>)
    requires
        s.len() > 0,
        starts_identifier(s[0]),
        forall|k: int| 1 <= k < s.len() ==> is_identifier_char(#[trigger] s[k]),
        !is_keyword_text(s),
    ensures
        scan(s, 0, seq![]) == Ok::<Seq<TokenView>, LexError>(
            seq![token_view(TokenType::IDENTIFIER, s)],
        ),
{
    let only = seq![token_view(TokenType::IDENTIFIER, s)];
    lemma_full_runs(s, 1, '_');
    assert(s.subrange(0, s.len() as int) =~= s);
    assert(Seq::<TokenView>::empty().push(token_view(TokenType::IDENTIFIER, s)) =~= only);
    assert(scan(s, s.len() as int, only) == Ok::<Seq<TokenView>, LexError>(only));
}

/// A codepoint that starts no token and cannot stand inside an identifier or
/// a number.
pub open spec fn is_unsupported_char(c: char) -> bool {
    &&& !white_space(c)
    &&& !alphabetic(c)
    &&& !alphanumeric(c)
    &&& !is_number_char(c)
    &&& c != '='
    &&& single_char_kind(c) is None
    &&& c != '"'
    &&& c != '\''
}

proof fn lemma_runs_stop_at(s: Seq<char>, i: int, k: int)
    requires
        0 <= i <= k < s.len(),
    ensures
        !is_identifier_char(s[k]) ==> i + identifier_run(s, i) <= k,
        !is_number_char(s[k]) ==> i + number_run(s, i) <= k,
    decreases k - i,
{
    if i < k {
        lemma_runs_stop_at(s, i + 1, k);
    }
}

proof fn lemma_unsupported_from(s: Seq<char>, k: int, i: int, toks: Seq<TokenView>)
    requires
        0 <= i <= k < s.len(),
        is_unsupported_char(s[k]),
        forall|j: int| 0 <= j < s.len() ==> #[trigger] s[j] != '"' && s[j] != '\'',
    ensures
        scan(s, i, toks) is Err,
    decreases k - i,
{
    let c = s[i];
    if i < k {
        lemma_runs_stop_at(s, i + 1, k);
        if white_space(c) {
            lemma_unsupported_from(s, k, i + 1, toks);
        } else if c == '=' {
            if i > 0 && is_compound_prefix(s[i - 1]) && toks.len() > 0 {
                let merged = token_view(TokenType::ASSIGNMENT, toks.last().text.push('='));
                lemma_unsupported_from(s, k, i + 1, toks.drop_last().push(merged));
            } else {
                lemma_unsupported_from(s, k, i + 1, toks.push(token_view(TokenType::ASSIGNMENT, seq!['='])));
            }
        } else if single_char_kind(c) is Some {
            lemma_unsupported_from(s, k, i + 1, toks.push(token_view(single_char_kind(c)->0, seq![c])));
        } else if alphabetic(c) || c == '_' {
            let end = i + 1 + identifier_run(s, i + 1);
            let text = s.subrange(i, end);
            let kind = if is_keyword_text(text) {
                TokenType::KEYWORD
            } else {
                TokenType::IDENTIFIER
            };
            lemma_unsupported_from(s, k, end, toks.push(token_view(kind, text)));
        } else if is_decimal_digit(c) {
            let end = i + 1 + number_run(s, i + 1);
            lemma_unsupported_from(
                s,
                k,
                end,
                toks.push(token_view(TokenType::NUMBER, without_underscores(s.subrange(i, end)))),
            );
        }
    }
}

/// A text without string delimiters that holds a codepoint which starts no
/// token and belongs to no identifier or number fails to tokenize.
pub proof fn lemma_unsupported_char_fails(s: Seq<char>, k: int)
    requires
        0 <= k < s.len(),
        is_unsupported_char(s[k]),
        forall|j: int| 0 <= j < s.len() ==> #[trigger] s[j] != '"' && s[j] != '\'',
    ensures
        scan(s, 0, seq![]) is Err,
{
    lemma_unsupported_from(s, k, 0, seq![]);
}

/// Once tokenization reaches a string delimiter at `i` that never comes
/// again, it fails with an unterminated-string error at the line and column
/// of that opening delimiter.
pub proof fn lemma_unterminated_string(s: Seq<char>, i: int, toks: Seq<TokenView>)
    requires
        0 <= i < s.len(),
        s[i] == '"' || s[i] == '\'',
        !white_space(s[i]),
        !alphabetic(s[i]),
        forall|k: int| i < k < s.len() ==> #[trigger] s[k] != s[i],
    ensures
        scan(s, i, toks) == Err::<Seq<TokenView>, LexError>(
            LexError::UnterminatedString {
                delimiter: s[i],
                line: line_at(s, i) as usize,
                column: column_at(s, i) as usize,
            },
        ),
{
    lemma_full_runs(s, i + 1, s[i]);
}

/// An operator among `+ - * /` directly followed by `=` yields one
/// assignment token holding both codepoints.
pub proof fn lemma_compound_assignment(s: Seq<char>, i: int, toks: Seq<TokenView>)
    requires
        0 <= i,
        i + 1 < s.len(),
        is_compound_prefix(s[i]),
        s[i + 1] == '=',
        !white_space(s[i]),
        !white_space('='),
    ensures
        scan(s, i, toks) == scan(
            s,
            i + 2,
            toks.push(token_view(TokenType::ASSIGNMENT, seq![s[i], '='])),
        ),
{
    let c = s[i];
    let pushed = toks.push(token_view(TokenType::OPERATOR, seq![c]));
    assert(scan(s, i, toks) == scan(s, i + 1, pushed));
    assert(pushed.drop_last() =~= toks);
    assert(seq![c].push('=') =~= seq![c, '=']);
}

/// A `=` that does not follow one of `+ - * /` yields a one-codepoint
/// assignment token.
pub proof fn lemma_bare_assignment(s: Seq<char>, i: int, toks: Seq<TokenView>)
    requires
        0 <= i < s.len(),
        s[i] == '=',
        !white_space('='),
        i == 0 || !is_compound_prefix(s[i - 1]),
    ensures
        scan(s, i, toks) == scan(s, i + 1, toks.push(token_view(TokenType::ASSIGNMENT, seq!['=']))),
{
}

/// Tokenizer over one text buffer.
pub struct Lexer {
    cursor: LexerCursor,
}

impl Lexer {
    pub closed spec fn wf(&self) -> bool {
        self.cursor.wf()
    }

    /// The text being tokenized.
    pub closed spec fn source(&self) -> Seq<char> {
        self.cursor.input@
    }

    /// Number of codepoints consumed so far.
    pub closed spec fn consumed(&self) -> int {
        self.cursor.consumed()
    }

    /// Index of the codepoint the lexer rests on, if `on_char`.
    pub closed spec fn index(&self) -> int {
        self.cursor.position as int
    }

    pub closed spec fn on_char(&self) -> bool {
        self.cursor.on_char()
    }

    pub fn new(input: String) -> (r: Self)
        requires
            input@.len() < usize::MAX,
        ensures
            r.wf(),
            r.source() == input@,
            r.consumed() == 0,
    {
        Lexer { cursor: LexerCursor::new(input) }
    }

    pub fn is_keyword(&self, value: String) -> (r: bool)
        ensures
            r == is_keyword_text(value@),
    {
        let v = value.as_str();
        same_text(v, "função") || same_text(v, "var") || same_text(v, "para") || same_text(
            v,
            "retorne",
        )
    }

    fn push_token(&mut self, _type: TokenType, value: char, tokens: &mut Vec<Token>)
        ensures
            *final(self) == *old(self),
            views(final(tokens)@) == views(old(tokens)@).push(token_view(_type, seq![value])),
    {
        let mut text = String::new();
        push_char(&mut text, value);
        tokens.push(Token::new(_type, text));
        proof {
            assert(views(final(tokens)@) =~= views(old(tokens)@).push(token_view(_type, seq![value])));
        }
    }

    /// Reads the identifier that starts at the current codepoint and leaves
    /// the cursor on its last codepoint.
    pub fn read_identifier(&mut self) -> (r: Token)
        requires
            old(self).wf(),
            old(self).on_char(),
            is_identifier_char(old(self).source()[old(self).index()]),
        ensures
            final(self).wf(),
            final(self).source() == old(self).source(),
            ({
                let i = old(self).index();
                let end = i + identifier_run(old(self).source(), i);
                &&& r@ == token_view(TokenType::IDENTIFIER, old(self).source().subrange(i, end))
                &&& final(self).consumed() == end
            }),
    {
        let ghost s = self.cursor.input@;
        let ghost i = self.cursor.position as int;
        let mut identifier = String::new();
        proof {
            lemma_run_bounds(s, i, '_');
        }
        while !self.cursor.eof && (is_alphanumeric(self.cursor.current_char)
            || self.cursor.current_char == '_')
            invariant
                self.cursor.wf(),
                self.cursor.input@ == s,
                self.cursor.line != 0,
                0 <= i <= self.scan_end(),
                !self.cursor.eof ==> self.cursor.position == self.scan_end(),
                identifier@ == s.subrange(i, self.scan_end()),
                identifier_run(s, i) == (self.scan_end() - i) + identifier_run(s, self.scan_end()),
            decreases s.len() - self.scan_end(),
        {
            push_char(&mut identifier, self.cursor.current_char);
            self.cursor.next();
            assert(identifier@ =~= s.subrange(i, self.scan_end()));
        }
        if !self.cursor.eof {
            self.cursor.previous();
        }
        Token::new(TokenType::IDENTIFIER, identifier)
    }

    /// Index of the codepoint under examination while scanning a run: the
    /// current one, or the length once past the end.
    closed spec fn scan_end(&self) -> int {
        if self.cursor.eof {
            self.cursor.input@.len() as int
        } else {
            self.cursor.position as int
        }
    }

    /// Reads the number that starts at the current codepoint, dropping its
    /// underscores, and leaves the cursor on its last codepoint.
    pub fn read_number(&mut self) -> (r: Token)
        requires
            old(self).wf(),
            old(self).on_char(),
            is_number_char(old(self).source()[old(self).index()]),
        ensures
            final(self).wf(),
            final(self).source() == old(self).source(),
            ({
                let i = old(self).index();
                let end = i + number_run(old(self).source(), i);
                &&& r@ == token_view(
                    TokenType::NUMBER,
                    without_underscores(old(self).source().subrange(i, end)),
                )
                &&& final(self).consumed() == end
            }),
    {
        let ghost s = self.cursor.input@;
        let ghost i = self.cursor.position as int;
        let mut number = String::new();
        proof {
            lemma_run_bounds(s, i, '_');
            assert(s.subrange(i, i) =~= Seq::<char>::empty());
        }
        while !self.cursor.eof && (is_digit(self.cursor.current_char) || self.cursor.current_char
            == '.' || self.cursor.current_char == '_')
            invariant
                self.cursor.wf(),
                self.cursor.input@ == s,
                self.cursor.line != 0,
                0 <= i <= self.scan_end(),
                !self.cursor.eof ==> self.cursor.position == self.scan_end(),
                number@ == without_underscores(s.subrange(i, self.scan_end())),
                number_run(s, i) == (self.scan_end() - i) + number_run(s, self.scan_end()),
            decreases s.len() - self.scan_end(),
        {
            let ghost k = self.scan_end();
            let c = self.cursor.current_char;
            if c != '_' {
                push_char(&mut number, c);
            }
            self.cursor.next();
            assert(s.subrange(i, k + 1).drop_last() =~= s.subrange(i, k));
        }
        if !self.cursor.eof {
            self.cursor.previous();
        }
        Token::new(TokenType::NUMBER, number)
    }

    /// Reads the string literal whose opening delimiter is the current
    /// codepoint and leaves the cursor on its closing delimiter.
    pub fn read_string(&mut self) -> (r: Result<Token, LexError>)
        requires
            old(self).wf(),
            old(self).on_char(),
        ensures
            final(self).wf(),
            final(self).source() == old(self).source(),
            ({
                let s = old(self).source();
                let i = old(self).index();
                let delim = s[i];
                let close = i + 1 + string_run(s, i + 1, delim);
                if close < s.len() {
                    &&& r matches Ok(t)
                    &&& t@ == token_view(TokenType::STRING, s.subrange(i + 1, close))
                    &&& final(self).consumed() == close + 1
                } else {
                    r == Err::<Token, LexError>(
                        LexError::UnterminatedString {
                            delimiter: delim,
                            line: line_at(s, i) as usize,
                            column: column_at(s, i) as usize,
                        },
                    )
                }
            }),
    {
        let ghost s = self.cursor.input@;
        let ghost i = self.cursor.position as int;
        let mut string = String::new();
        let delim = self.cursor.current_char;
        let initial_line = self.cursor.line;
        let initial_column = self.cursor.column;
        proof {
            lemma_run_bounds(s, i + 1, delim);
        }
        self.cursor.next();
        assert(string@ =~= s.subrange(i + 1, self.scan_end()));
        while !self.cursor.eof && self.cursor.current_char != delim
            invariant
                self.cursor.wf(),
                self.cursor.input@ == s,
                self.cursor.line != 0,
                i + 1 <= self.scan_end(),
                !self.cursor.eof ==> self.cursor.position == self.scan_end(),
                string@ == s.subrange(i + 1, self.scan_end()),
                string_run(s, i + 1, delim) == (self.scan_end() - i - 1) + string_run(
                    s,
                    self.scan_end(),
                    delim,
                ),
            decreases s.len() - self.scan_end(),
        {
            push_char(&mut string, self.cursor.current_char);
            self.cursor.next();
            assert(string@ =~= s.subrange(i + 1, self.scan_end()));
        }
        if self.cursor.eof {
            return Err(
                LexError::UnterminatedString {
                    delimiter: delim,
                    line: initial_line,
                    column: initial_column,
                },
            );
        }
        Ok(Token::new(TokenType::STRING, string))
    }

    /// Tokenizes the rest of the text: the whole of it for a new lexer.
    pub fn tokenize(&mut self) -> (r: Result<Vec<Token>, LexError>)
        requires
            old(self).wf(),
        ensures
            final(self).wf(),
            final(self).source() == old(self).source(),
            match r {
                Ok(v) => scan(old(self).source(), old(self).consumed(), seq![]) == Ok::<
                    Seq<TokenView>,
                    LexError,
                >(views(v@)),
                Err(e) => scan(old(self).source(), old(self).consumed(), seq![]) == Err::<
                    Seq<TokenView>,
                    LexError,
                >(e),
            },
    {
        let ghost s = self.cursor.input@;
        let ghost total = scan(s, self.cursor.consumed(), seq![]);
        if self.cursor.eof {
            let empty: Vec<Token> = Vec::new();
            assert(views(empty@) =~= seq![]);
            return Ok(empty);
        }
        let mut tokens: Vec<Token> = Vec::new();
        proof {
            lemma_skip_white_space(s, self.cursor.consumed());
            lemma_scan_skips_white_space(s, self.cursor.consumed(), seq![]);
            assert(views(tokens@) =~= seq![]);
        }
        self.cursor.next_skip_whitespace();
        while !self.cursor.eof
            invariant
                self.cursor.wf(),
                self.cursor.input@ == s,
                s == old(self).source(),
                total == scan(old(self).source(), old(self).consumed(), seq![]),
                !self.cursor.eof ==> self.cursor.on_char() && !white_space(
                    s[self.cursor.position as int],
                ) && total == scan(s, self.cursor.position as int, views(tokens@)),
                self.cursor.eof ==> total == Ok::<Seq<TokenView>, LexError>(views(tokens@)),
            decreases s.len() - self.cursor.consumed() + if self.cursor.eof {
                0int
            } else {
                1int
            },
        {
            let step = self.read_token(&mut tokens);
            if let Err(e) = step {
                return Err(e);
            }
            proof {
                lemma_skip_white_space(s, self.cursor.consumed());
                lemma_scan_skips_white_space(s, self.cursor.consumed(), views(tokens@));
            }
            self.cursor.next_skip_whitespace();
        }
        Ok(tokens)
    }

    /// Reads the token that starts at the current codepoint, which is not
    /// whitespace, and appends it to `tokens` (or merges a compound
    /// assignment into the last one).
    fn read_token(&mut self, tokens: &mut Vec<Token>) -> (r: Result<(), LexError>)
        requires
            old(self).wf(),
            old(self).on_char(),
            !white_space(old(self).source()[old(self).index()]),
        ensures
            final(self).wf(),
            final(self).source() == old(self).source(),
            match r {
                Ok(_) => {
                    &&& old(self).index() < final(self).consumed()
                    &&& scan(old(self).source(), old(self).index(), views(old(tokens)@)) == scan(
                        final(self).source(),
                        final(self).consumed(),
                        views(final(tokens)@),
                    )
                },
                Err(e) => scan(old(self).source(), old(self).index(), views(old(tokens)@))
                    == Err::<Seq<TokenView>, LexError>(e),
            },
    {
        let ghost s = self.cursor.input@;
        proof {
            lemma_run_bounds(s, self.cursor.position + 1, self.cursor.current_char);
        }
        let c = self.cursor.current_char;
        if c == '=' {
            let merge = self.cursor.previous_is('+') || self.cursor.previous_is('-')
                || self.cursor.previous_is('*') || self.cursor.previous_is('/');
            if merge && tokens.len() > 0 {
                let ghost before = tokens@;
                let mut previous = tokens.pop().unwrap();
                push_char(&mut previous.value, c);
                tokens.push(Token::new(TokenType::ASSIGNMENT, previous.value));
                proof {
                    assert(views(before).last() == before.last()@);
                    assert(views(tokens@) =~= views(before).drop_last().push(
                        token_view(TokenType::ASSIGNMENT, views(before).last().text.push('=')),
                    ));
                }
            } else {
                self.push_token(TokenType::ASSIGNMENT, c, tokens);
            }
        } else if c == '+' || c == '-' || c == '*' || c == '/' || c == '<' || c == '>' {
            self.push_token(TokenType::OPERATOR, c, tokens);
        } else if c == '(' {
            self.push_token(TokenType::LPAREN, c, tokens);
        } else if c == ')' {
            self.push_token(TokenType::RPAREN, c, tokens);
        } else if c == '{' {
            self.push_token(TokenType::LBRACKET, c, tokens);
        } else if c == '}' {
            self.push_token(TokenType::RBRACKET, c, tokens);
        } else if c == ',' {
            self.push_token(TokenType::COMMA, c, tokens);
        } else if c == ';' {
            self.push_token(TokenType::SEMICOLON, c, tokens);
        } else if is_alphabetic(c) || c == '_' {
            let ghost before = tokens@;
            let mut token = self.read_identifier();
            if self.is_keyword(token.value.clone()) {
                token._type = TokenType::KEYWORD;
            }
            tokens.push(token);
            proof {
                assert(views(tokens@) =~= views(before).push(tokens@.last()@));
            }
        } else if is_digit(c) {
            let ghost before = tokens@;
            let token = self.read_number();
            tokens.push(token);
            proof {
                assert(views(tokens@) =~= views(before).push(tokens@.last()@));
            }
        } else if c == '"' || c == '\'' {
            let ghost before = tokens@;
            let read = self.read_string();
            match read {
                Ok(token) => {
                    tokens.push(token);
                    proof {
                        assert(views(tokens@) =~= views(before).push(tokens@.last()@));
                    }
                },
                Err(e) => {
                    return Err(e);
                },
            }
        } else {
            return Err(
                LexError::InvalidCharacter {
                    character: c,
                    line: self.cursor.line,
                    column: self.cursor.column,
                },
            );
        }
        Ok(())
    }
}

} // verus!
