//! A cursor over a text buffer that moves one codepoint at a time and keeps
//! track of the line and column of the codepoint it rests on.
use vstd::prelude::*;

use crate::text::{is_whitespace, white_space};

verus! {

/// Number of newlines among `s[0..=i]`.
pub open spec fn newlines_through(s: Seq<char>, i: int) -> nat
    decreases i + 1,
{
    if i < 0 {
        0
    } else {
        newlines_through(s, i - 1) + if s[i] == '\n' {
            1nat
        } else {
            0nat
        }
    }
}

/// Line of the codepoint at index `i`: a newline counts as the first
/// codepoint of the line it opens.
pub open spec fn line_at(s: Seq<char>, i: int) -> int {
    1 + newlines_through(s, i) as int
}

/// Column of the codepoint at index `i`: 1 for the first codepoint and for
/// every newline, one more than the previous codepoint otherwise.
pub open spec fn column_at(s: Seq<char>, i: int) -> int
    decreases i,
{
    if i <= 0 || s[i] == '\n' {
        1
    } else {
        column_at(s, i - 1) + 1
    }
}

/// First index at or after `i` that does not hold whitespace, or the length.
pub open spec fn skip_white_space(s: Seq<char>, i: int) -> int
    decreases s.len() - i,
{
    if 0 <= i < s.len() && white_space(s[i]) {
        skip_white_space(s, i + 1)
    } else {
        i
    }
}

pub proof fn lemma_line_column_bounds(s: Seq<char>, i: int)
    requires
        0 <= i,
    ensures
        newlines_through(s, i) <= i + 1,
        1 <= column_at(s, i) <= i + 1,
    decreases i,
{
    assert(newlines_through(s, -1) == 0);
    if i > 0 {
        lemma_line_column_bounds(s, i - 1);
    }
}

pub proof fn lemma_skip_white_space(s: Seq<char>, i: int)
    requires
        0 <= i <= s.len(),
    ensures
        i <= skip_white_space(s, i) <= s.len(),
        skip_white_space(s, i) < s.len() ==> !white_space(s[skip_white_space(s, i)]),
        forall|k: int| i <= k < skip_white_space(s, i) ==> white_space(#[trigger] s[k]),
    decreases s.len() - i,
{
    if i < s.len() && white_space(s[i]) {
        lemma_skip_white_space(s, i + 1);
    }
}

/// Cursor over `input`. Before the first step it rests on no codepoint
/// (`line == 0`); after that it rests on the codepoint at `position`, with
/// `eof` set once a step has run past the last one.
#[derive(Clone, Debug)]
pub struct LexerCursor {
    pub input: String,
    pub current_char: char,
    pub position: usize,
    pub line: usize,
    pub column: usize,
    pub eof: bool,
}

impl LexerCursor {
    pub open spec fn wf(&self) -> bool {
        let s = self.input@;
        &&& s.len() < usize::MAX
        &&& if self.line == 0 {
            &&& self.position == 0
            &&& self.column == 0
            &&& self.current_char == '\0'
            &&& self.eof == (s.len() == 0)
        } else {
            self.rests_on(self.position as int) && (self.eof ==> self.position + 1 == s.len())
        }
    }

    /// The cursor sits on index `i`, with the line and column of that index.
    pub open spec fn rests_on(&self, i: int) -> bool {
        let s = self.input@;
        &&& 0 <= i < s.len()
        &&& self.position == i
        &&& self.current_char == s[i]
        &&& self.line == line_at(s, i)
        &&& self.column == column_at(s, i)
    }

    /// Number of codepoints consumed so far.
    pub open spec fn consumed(&self) -> int {
        if self.eof {
            self.input@.len() as int
        } else if self.line == 0 {
            0
        } else {
            self.position + 1
        }
    }

    /// The cursor sits on a codepoint and has not run past the end.
    pub open spec fn on_char(&self) -> bool {
        self.line != 0 && !self.eof
    }

    pub open spec fn same_state(&self, other: &LexerCursor) -> bool {
        &&& self.input@ == other.input@
        &&& self.current_char == other.current_char
        &&& self.position == other.position
        &&& self.line == other.line
        &&& self.column == other.column
        &&& self.eof == other.eof
    }

    pub fn new(input: String) -> (r: Self)
        requires
            input@.len() < usize::MAX,
        ensures
            r.wf(),
            r.input@ == input@,
            r.line == 0,
            r.consumed() == 0,
    {
        let empty = input.as_str().unicode_len() == 0;
        LexerCursor { input, current_char: '\0', position: 0, line: 0, column: 0, eof: empty }
    }

    /// Puts the cursor back before the first codepoint.
    pub fn reset_cursor(&mut self)
        requires
            old(self).wf(),
        ensures
            final(self).wf(),
            final(self).input@ == old(self).input@,
            final(self).line == 0,
            final(self).consumed() == 0,
    {
        self.position = 0;
        self.line = 0;
        self.column = 0;
        self.eof = self.input.as_str().unicode_len() == 0;
        self.current_char = '\0';
    }

    fn snapshot(&self) -> (r: Self)
        ensures
            r.same_state(self),
    {
        LexerCursor {
            input: self.input.clone(),
            current_char: self.current_char,
            position: self.position,
            line: self.line,
            column: self.column,
            eof: self.eof,
        }
    }

    /// Index of the codepoint the next step lands on.
    fn next_index(&self) -> (r: usize)
        requires
            self.wf(),
        ensures
            r == self.consumed(),
    {
        if self.eof {
            self.input.as_str().unicode_len()
        } else if self.line == 0 {
            0
        } else {
            self.position + 1
        }
    }

    /// Steps onto the next codepoint; past the last one, sets `eof` and
    /// leaves the rest as it was. Returns a copy of the new state.
    pub fn next(&mut self) -> (r: Self)
        requires
            old(self).wf(),
        ensures
            final(self).wf(),
            r.same_state(final(self)),
            final(self).input@ == old(self).input@,
            old(self).consumed() < old(self).input@.len() ==> final(self).rests_on(old(self).consumed())
                && !final(self).eof,
            old(self).consumed() >= old(self).input@.len() ==> final(self).eof
                && final(self).line == old(self).line
                && final(self).position == old(self).position
                && final(self).column == old(self).column
                && final(self).current_char == old(self).current_char,
    {
        let ghost s = self.input@;
        let n = self.input.as_str().unicode_len();
        let i = self.next_index();
        if i >= n {
            self.eof = true;
            return self.snapshot();
        }
        proof {
            lemma_line_column_bounds(s, i as int);
            lemma_line_column_bounds(s, self.position as int);
            assert(newlines_through(s, i as int) == newlines_through(s, i - 1) + if s[i as int]
                == '\n' {
                1nat
            } else {
                0nat
            });
            assert(newlines_through(s, -1) == 0);
        }
        let c = self.input.as_str().get_char(i);
        if self.line == 0 {
            self.line = 1;
            self.column = 1;
        } else {
            self.line = self.line;
            self.column = self.column + 1;
        }
        self.position = i;
        self.current_char = c;
        if c == '\n' {
            self.column = 1;
            self.line = self.line + 1;
        }
        self.snapshot()
    }

    /// Steps over every whitespace codepoint ahead, then once more: lands on
    /// the first non-whitespace codepoint not consumed yet, or at the end.
    pub fn next_skip_whitespace(&mut self) -> (r: Self)
        requires
            old(self).wf(),
        ensures
            final(self).wf(),
            r.same_state(final(self)),
            final(self).input@ == old(self).input@,
            ({
                let s = old(self).input@;
                let j = skip_white_space(s, old(self).consumed());
                &&& j < s.len() ==> final(self).rests_on(j) && !final(self).eof
                &&& j >= s.len() ==> final(self).eof
            }),
    {
        let ghost s = self.input@;
        let ghost start = self.consumed();
        proof {
            lemma_skip_white_space(s, start);
        }
        let n = self.input.as_str().unicode_len();
        loop
            invariant
                self.wf(),
                self.input@ == s,
                n == s.len(),
                start <= self.consumed() <= skip_white_space(s, start),
                skip_white_space(s, self.consumed()) == skip_white_space(s, start),
            ensures
                self.wf(),
                self.input@ == s,
                self.consumed() == skip_white_space(s, start),
            decreases s.len() - self.consumed(),
        {
            let i = self.next_index();
            if i >= n {
                break;
            }
            if !is_whitespace(self.input.as_str().get_char(i)) {
                break;
            }
            proof {
                lemma_skip_white_space(s, i + 1);
            }
            self.next();
        }
        self.next()
    }

    /// Steps back onto the previous codepoint and clears `eof`; does nothing
    /// at index 0. Returns a copy of the new state.
    pub fn previous(&mut self) -> (r: Self)
        requires
            old(self).wf(),
        ensures
            final(self).wf(),
            r.same_state(final(self)),
            final(self).input@ == old(self).input@,
            old(self).position == 0 ==> final(self).same_state(old(self)),
            old(self).position > 0 ==> final(self).rests_on(old(self).position - 1)
                && !final(self).eof,
    {
        let ghost s = self.input@;
        if self.position == 0 {
            return self.snapshot();
        }
        let passed = self.current_char;
        let p = self.position - 1;
        self.position = p;
        self.current_char = self.input.as_str().get_char(p);
        proof {
            lemma_line_column_bounds(s, p as int);
        }
        if passed == '\n' {
            self.line = self.line - 1;
            self.column = self.column_of(p);
        } else {
            self.column = self.column - 1;
        }
        self.eof = false;
        self.snapshot()
    }

    /// Column of index `i`, counted back to the last newline.
    fn column_of(&self, i: usize) -> (r: usize)
        requires
            i < self.input@.len() < usize::MAX,
        ensures
            r == column_at(self.input@, i as int),
    {
        let ghost s = self.input@;
        let mut k: usize = i;
        let mut count: usize = 1;
        while k > 0 && self.input.as_str().get_char(k) != '\n'
            invariant
                s == self.input@,
                k <= i < s.len() < usize::MAX,
                count == i - k + 1,
                column_at(s, i as int) == column_at(s, k as int) + (i - k),
            decreases k,
        {
            k = k - 1;
            count = count + 1;
        }
        count
    }

    /// Whether the codepoint after the current one is `expected`.
    pub fn next_is(&self, expected: char) -> (r: bool)
        requires
            self.wf(),
        ensures
            r == (self.position + 1 < self.input@.len() && self.input@[self.position + 1]
                == expected),
    {
        let n = self.input.as_str().unicode_len();
        self.position + 1 < n && self.input.as_str().get_char(self.position + 1) == expected
    }

    /// Whether the codepoint before the current one is `expected`.
    pub fn previous_is(&self, expected: char) -> (r: bool)
        requires
            self.wf(),
        ensures
            r == (self.position > 0 && self.input@[self.position - 1] == expected),
    {
        self.position > 0 && self.input.as_str().get_char(self.position - 1) == expected
    }
}

} // verus!
