//! The scan cursor: a position in a source text together with the
//! character at that position, advanced one character at a time or
//! repositioned absolutely for backtracking.

use vstd::prelude::*;

verus! {

/// Whether a character counts as whitespace, as the Unicode `White_Space`
/// property defines it.
pub uninterp spec fn is_whitespace_char(c: char) -> bool;

/// Relies on char::is_whitespace: whether the character has the Unicode
/// `White_Space` property, a function of the character alone.
pub assume_specification[ char::is_whitespace ](c: char) -> (r: bool)
    ensures
        r == is_whitespace_char(c),
;

/// The position the cursor reaches when it skips whitespace from `pos`:
/// the first position at or after `pos` that holds a non-whitespace
/// character, or the end of the text. A position already past the end is
/// left where it is.
pub open spec fn skip_result(code: Seq<char>, pos: int) -> int
    decreases code.len() - pos,
{
    if pos < 0 || pos >= code.len() {
        pos
    } else if is_whitespace_char(code[pos]) {
        skip_result(code, pos + 1)
    } else {
        pos
    }
}

/// Mutable scan state over a source text. The cursor is always
/// consistent: `current_char` is `None` exactly when `position` is at or
/// past the end of the text, and otherwise holds the character at
/// `position`.
pub struct Cursor {
    /// The text being scanned.
    pub code: String,
    /// The current position, as a character index.
    pub position: usize,
    /// The character at `position`, or `None` once the text is exhausted.
    pub current_char: Option<char>,
}

impl Cursor {
    /// The cursor's consistency invariant: the position never strays more
    /// than one past the end, and `current_char` mirrors it.
    pub open spec fn wf(&self) -> bool {
        &&& self.code@.len() < usize::MAX
        &&& self.position <= self.code@.len() + 1
        &&& (self.position < self.code@.len() ==> self.current_char == Some(
            self.code@[self.position as int],
        ))
        &&& (self.position >= self.code@.len() ==> self.current_char is None)
    }

    /// Creates a cursor at the start of the given text.
    pub fn new(code: &str) -> (c: Cursor)
        requires
            code@.len() < usize::MAX,
        ensures
            c.wf(),
            c.code@ == code@,
            c.position == 0,
    {
        let len = code.unicode_len();
        let current_char = if len > 0 {
            Some(code.get_char(0))
        } else {
            None
        };
        Cursor { code: code.to_owned(), position: 0, current_char }
    }

    /// Moves one character forward. From the last character the cursor
    /// becomes exhausted, ending exactly at the text's length; once
    /// exhausted it stays where it is.
    pub fn advance(&mut self)
        requires
            old(self).wf(),
        ensures
            final(self).wf(),
            final(self).code == old(self).code,
            old(self).position < old(self).code@.len() ==> final(self).position == old(self).position + 1,
            old(self).position >= old(self).code@.len() ==> final(self).position == old(self).position,
            old(self).position + 1 < old(self).code@.len() ==> final(self).current_char == Some(
                old(self).code@[old(self).position + 1],
            ),
            old(self).position + 1 >= old(self).code@.len() ==> final(self).current_char is None,
    {
        let len = self.code.as_str().unicode_len();
        if self.position < len {
            self.position = self.position + 1;
            if self.position < len {
                self.current_char = Some(self.code.as_str().get_char(self.position));
            } else {
                self.current_char = None;
            }
        } else {
            self.current_char = None;
        }
    }

    /// Jumps to an absolute position, used for backtracking. An in-bounds
    /// target lands on its character; an out-of-bounds target leaves the
    /// cursor exhausted, one past the end of the text.
    pub fn jump_to(&mut self, position: usize)
        requires
            old(self).wf(),
        ensures
            final(self).wf(),
            final(self).code == old(self).code,
            position < old(self).code@.len() ==> final(self).position == position && final(self).current_char == Some(old(self).code@[position as int]),
            position >= old(self).code@.len() ==> final(self).position == old(self).code@.len()
                + 1 && final(self).current_char is None,
    {
        let len = self.code.as_str().unicode_len();
        if position < len {
            self.position = position;
            self.current_char = Some(self.code.as_str().get_char(position));
        } else {
            self.position = len + 1;
            self.current_char = None;
        }
    }

    /// Repositions the cursor exactly, recomputing the character: unlike
    /// `jump_to`, a position at or past the end is kept as it is. The
    /// engine uses this to hand a failed consuming rule's position back
    /// unchanged.
    pub(crate) fn restore(&mut self, position: usize)
        requires
            old(self).wf(),
            position <= old(self).code@.len() + 1,
        ensures
            final(self).wf(),
            final(self).code == old(self).code,
            final(self).position == position,
    {
        let len = self.code.as_str().unicode_len();
        self.position = position;
        if position < len {
            self.current_char = Some(self.code.as_str().get_char(position));
        } else {
            self.current_char = None;
        }
    }

    /// Advances past every whitespace character from the current
    /// position.
    pub(crate) fn skip_ws(&mut self)
        requires
            old(self).wf(),
        ensures
            final(self).wf(),
            final(self).code == old(self).code,
            final(self).position == skip_result(old(self).code@, old(self).position as int),
    {
        loop
            invariant
                self.wf(),
                self.code == old(self).code,
                skip_result(self.code@, self.position as int) == skip_result(
                    old(self).code@,
                    old(self).position as int,
                ),
            ensures
                self.wf(),
                self.code == old(self).code,
                skip_result(self.code@, self.position as int) == skip_result(
                    old(self).code@,
                    old(self).position as int,
                ),
                self.position >= self.code@.len() || !is_whitespace_char(
                    self.code@[self.position as int],
                ),
            decreases self.code@.len() + 2 - self.position,
        {
            match self.current_char {
                Some(c) => {
                    if c.is_whitespace() {
                        self.advance();
                    } else {
                        break ;
                    }
                },
                None => {
                    break ;
                },
            }
        }
    }
}

} // verus!
