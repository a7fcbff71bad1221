//! An immutable-snapshot cursor over source text.
//!
//! The reader owns the full source as a sequence of characters and a movable
//! cursor (character offset plus 1-based line/column position).  Backtracking
//! combinators copy the cursor state with [`Reader::snapshot`] before an
//! attempt and put it back with [`Reader::restore`] on recoverable failure;
//! no operation panics and the cursor advances only on success.

use vstd::prelude::*;

verus! {

/// A 1-based line/column position in the source text, advanced per consumed
/// character (a newline starts the next line at column 1).
#[derive(Debug, Clone, Copy, PartialEq, Eq, Structural)]
pub struct Pos {
    pub line: usize,
    pub column: usize,
}

/// Saturating increment: positions stop growing at `usize::MAX` rather than
/// wrapping, so position bookkeeping can never overflow.
pub open spec fn sat_inc(n: int) -> int {
    if n < usize::MAX {
        n + 1
    } else {
        n
    }
}

/// The line (1-based) of the position reached after consuming the first `n`
/// characters of `s`.
pub open spec fn line_at(s: Seq<char>, n: int) -> int
    decreases n,
{
    if n <= 0 {
        1
    } else if s[n - 1] == '\n' {
        sat_inc(line_at(s, n - 1))
    } else {
        line_at(s, n - 1)
    }
}

/// The column (1-based) of the position reached after consuming the first `n`
/// characters of `s`.
pub open spec fn col_at(s: Seq<char>, n: int) -> int
    decreases n,
{
    if n <= 0 {
        1
    } else if s[n - 1] == '\n' {
        1
    } else {
        sat_inc(col_at(s, n - 1))
    }
}

/// The position reached after consuming the first `n` characters of `s`.
pub open spec fn pos_at(s: Seq<char>, n: int) -> Pos {
    Pos { line: line_at(s, n) as usize, column: col_at(s, n) as usize }
}

/// Lines and columns stay within `usize` bounds.
pub proof fn lemma_pos_in_range(s: Seq<char>, n: int)
    ensures
        1 <= line_at(s, n) <= usize::MAX,
        1 <= col_at(s, n) <= usize::MAX,
    decreases n,
{
    if n > 0 {
        lemma_pos_in_range(s, n - 1);
    }
}

/// A saved cursor state: offset plus the position it corresponds to.
/// Cheap to copy; used by backtracking combinators.
#[derive(Debug, Clone, Copy, PartialEq, Eq, Structural)]
pub struct ReaderState {
    pub cursor: usize,
    pub pos: Pos,
}

/// A state is well formed for a given source when its offset is in bounds and
/// its position is the one reached by consuming that many characters.
pub open spec fn state_wf(s: Seq<char>, st: ReaderState) -> bool {
    &&& st.cursor <= s.len()
    &&& st.pos == pos_at(s, st.cursor as int)
}

/// The cursor over the source text.
pub struct Reader {
    buffer: Vec<char>,
    state: ReaderState,
}

impl Reader {
    /// The full source text.
    pub closed spec fn text(&self) -> Seq<char> {
        self.buffer@
    }

    /// The current character offset.
    pub closed spec fn cursor(&self) -> int {
        self.state.cursor as int
    }

    /// Cursor in bounds, position consistent with the offset.
    pub closed spec fn wf(&self) -> bool {
        state_wf(self.buffer@, self.state)
    }

    /// A reader positioned at the first character of `s`.
    pub fn new(s: &str) -> (r: Reader)
        ensures
            r.wf(),
            r.text() == s@,
            r.cursor() == 0,
    {
        let n = s.unicode_len();
        let mut buffer: Vec<char> = Vec::new();
        let mut i: usize = 0;
        while i < n
            invariant
                i <= n,
                n == s@.len(),
                buffer@ == s@.subrange(0, i as int),
            decreases n - i,
        {
            buffer.push(s.get_char(i));
            proof {
                assert(buffer@ =~= s@.subrange(0, i + 1));
            }
            i += 1;
        }
        proof {
            assert(buffer@ =~= s@);
        }
        Reader { buffer, state: ReaderState { cursor: 0, pos: Pos { line: 1, column: 1 } } }
    }

    /// True when the whole source has been consumed.
    pub fn is_eof(&self) -> (r: bool)
        requires
            self.wf(),
        ensures
            r == (self.cursor() == self.text().len()),
            0 <= self.cursor() <= self.text().len(),
    {
        self.state.cursor == self.buffer.len()
    }

    /// The next character, without consuming it.
    pub fn peek(&self) -> (r: Option<char>)
        requires
            self.wf(),
        ensures
            self.cursor() < self.text().len() ==> r == Some(self.text()[self.cursor()]),
            self.cursor() == self.text().len() ==> r is None,
            0 <= self.cursor() <= self.text().len(),
    {
        if self.state.cursor < self.buffer.len() {
            Some(self.buffer[self.state.cursor])
        } else {
            None
        }
    }

    /// The character `k` places after the cursor, without consuming anything.
    pub fn peek_ahead(&self, k: usize) -> (r: Option<char>)
        requires
            self.wf(),
        ensures
            self.cursor() + k < self.text().len() ==> r == Some(
                self.text()[self.cursor() + k],
            ),
            self.cursor() + k >= self.text().len() ==> r is None,
            0 <= self.cursor() <= self.text().len(),
    {
        if k < self.buffer.len() - self.state.cursor {
            Some(self.buffer[self.state.cursor + k])
        } else {
            None
        }
    }

    /// Consume one character, advancing the position; `None` at end of input.
    pub fn read(&mut self) -> (r: Option<char>)
        requires
            old(self).wf(),
        ensures
            final(self).wf(),
            final(self).text() == old(self).text(),
            0 <= old(self).cursor() <= old(self).text().len(),
            old(self).cursor() == old(self).text().len() ==> r is None && *final(self) == *old(
                self,
            ),
            old(self).cursor() < old(self).text().len() ==> r == Some(
                old(self).text()[old(self).cursor()],
            ) && final(self).cursor() == old(self).cursor() + 1,
    {
        if self.state.cursor < self.buffer.len() {
            let c = self.buffer[self.state.cursor];
            proof {
                lemma_pos_in_range(self.buffer@, self.state.cursor as int);
            }
            let newpos = if c == '\n' {
                Pos { line: sat_inc_usize(self.state.pos.line), column: 1 }
            } else {
                Pos { line: self.state.pos.line, column: sat_inc_usize(self.state.pos.column) }
            };
            self.state = ReaderState { cursor: self.state.cursor + 1, pos: newpos };
            Some(c)
        } else {
            None
        }
    }

    /// Copy the cursor state, for later [`Reader::restore`].
    pub fn snapshot(&self) -> (st: ReaderState)
        requires
            self.wf(),
        ensures
            st.cursor as int == self.cursor(),
            st.pos == pos_at(self.text(), self.cursor()),
            state_wf(self.text(), st),
            0 <= self.cursor() <= self.text().len(),
    {
        self.state
    }

    /// Rewind to a previously saved state of this reader.
    pub fn restore(&mut self, st: ReaderState)
        requires
            old(self).wf(),
            state_wf(old(self).text(), st),
        ensures
            final(self).wf(),
            final(self).text() == old(self).text(),
            final(self).cursor() == st.cursor as int,
            0 <= final(self).cursor() <= final(self).text().len(),
    {
        self.state = st;
    }

    /// The position of the cursor, for diagnostics.
    pub fn current_pos(&self) -> (p: Pos)
        requires
            self.wf(),
        ensures
            p == pos_at(self.text(), self.cursor()),
    {
        self.state.pos
    }
}

/// A well-formed reader's cursor is within its text.
pub proof fn lemma_wf(r: &Reader)
    requires
        r.wf(),
    ensures
        0 <= r.cursor() <= r.text().len(),
{
}

/// Saturating increment on a machine word.
fn sat_inc_usize(n: usize) -> (r: usize)
    ensures
        r as int == sat_inc(n as int),
{
    if n < usize::MAX {
        n + 1
    } else {
        n
    }
}

} // verus!
