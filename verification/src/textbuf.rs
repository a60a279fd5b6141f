//! A single-line editable text buffer with a cursor and a validity mark.

use vstd::prelude::*;

verus! {

/// One line of editable text. `cursor` is a position between characters,
/// from 0 (before the first) to `chars.len()` (after the last). `mark`
/// records the last validity check shown to the user: `None` until the
/// first check, then `Some(valid)`.
pub struct TextBuf {
    pub chars: Vec<char>,
    pub cursor: usize,
    pub mark: Option<bool>,
}

impl TextBuf {
    /// The cursor never points past the end of the text.
    pub open spec fn wf(&self) -> bool {
        self.cursor <= self.chars@.len()
    }

    /// The buffer's content as a sequence of characters.
    pub open spec fn text(&self) -> Seq<char> {
        self.chars@
    }

    pub fn new() -> (r: TextBuf)
        ensures
            r.wf(),
            r.text() == Seq::<char>::empty(),
            r.cursor == 0,
            r.mark is None,
    {
        TextBuf { chars: Vec::new(), cursor: 0, mark: None }
    }

    /// A buffer holding the given text, with the cursor after the last
    /// character.
    pub fn from_chars(chars: Vec<char>) -> (r: TextBuf)
        ensures
            r.wf(),
            r.text() == chars@,
            r.cursor == chars@.len(),
            r.mark is None,
    {
        let n = chars.len();
        TextBuf { chars, cursor: n, mark: None }
    }

    /// A copy with the same text, cursor and mark.
    pub fn duplicate(&self) -> (r: TextBuf)
        ensures
            r.text() == self.text(),
            r.cursor == self.cursor,
            r.mark == self.mark,
    {
        TextBuf {
            chars: crate::strconv::copy_chars(&self.chars),
            cursor: self.cursor,
            mark: self.mark,
        }
    }

    /// Insert a character at the cursor; the cursor moves past it.
    pub fn insert_char(&mut self, c: char)
        requires
            old(self).wf(),
        ensures
            final(self).wf(),
            final(self).text() == old(self).text().insert(old(self).cursor as int, c),
            final(self).cursor == old(self).cursor + 1,
            final(self).mark == old(self).mark,
    {
        self.chars.insert(self.cursor, c);
        let n = self.chars.len();
        assert(self.cursor < n);
        self.cursor = self.cursor + 1;
    }

    /// Delete the character before the cursor, if any.
    pub fn delete_char(&mut self)
        requires
            old(self).wf(),
        ensures
            final(self).wf(),
            final(self).mark == old(self).mark,
            old(self).cursor == 0 ==> final(self).text() == old(self).text()
                && final(self).cursor == 0,
            old(self).cursor > 0 ==> final(self).text() == old(self).text().remove(
                old(self).cursor - 1,
            ) && final(self).cursor == old(self).cursor - 1,
    {
        if self.cursor > 0 {
            self.chars.remove(self.cursor - 1);
            self.cursor = self.cursor - 1;
        }
    }

    /// Move the cursor one position forward, stopping at the end.
    pub fn cursor_forward(&mut self)
        requires
            old(self).wf(),
        ensures
            final(self).wf(),
            final(self).text() == old(self).text(),
            final(self).mark == old(self).mark,
            final(self).cursor == if old(self).cursor < old(self).text().len() {
                old(self).cursor + 1
            } else {
                old(self).cursor as int
            },
    {
        if self.cursor < self.chars.len() {
            self.cursor = self.cursor + 1;
        }
    }

    /// Move the cursor one position back, stopping at the start.
    pub fn cursor_back(&mut self)
        requires
            old(self).wf(),
        ensures
            final(self).wf(),
            final(self).text() == old(self).text(),
            final(self).mark == old(self).mark,
            final(self).cursor == if old(self).cursor > 0 {
                old(self).cursor - 1
            } else {
                0int
            },
    {
        if self.cursor > 0 {
            self.cursor = self.cursor - 1;
        }
    }

    /// Move the cursor after the last character.
    pub fn cursor_end(&mut self)
        requires
            old(self).wf(),
        ensures
            final(self).wf(),
            final(self).text() == old(self).text(),
            final(self).mark == old(self).mark,
            final(self).cursor == old(self).text().len(),
    {
        self.cursor = self.chars.len();
    }

    /// Replace the whole text; the cursor moves after the last character.
    pub fn set_text(&mut self, chars: Vec<char>)
        ensures
            final(self).wf(),
            final(self).text() == chars@,
            final(self).cursor == chars@.len(),
            final(self).mark == old(self).mark,
    {
        let n = chars.len();
        self.chars = chars;
        self.cursor = n;
    }

    /// Record the outcome of a validity check.
    pub fn set_mark(&mut self, valid: bool)
        requires
            old(self).wf(),
        ensures
            final(self).wf(),
            final(self).text() == old(self).text(),
            final(self).cursor == old(self).cursor,
            final(self).mark == Some(valid),
    {
        self.mark = Some(valid);
    }

    /// The current text as an owned vector of characters.
    pub fn text_chars(&self) -> (r: Vec<char>)
        ensures
            r@ == self.text(),
    {
        crate::strconv::copy_chars(&self.chars)
    }
}

} // verus!
