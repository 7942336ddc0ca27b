use vstd::prelude::*;

use crate::input::{Cursor, Input, cursor_after, lemma_cursor_after_bound};

verus! {

/// A text held in memory as a sequence of characters, read from the start.
pub struct FileInput {
    chars: Vec<char>,
    index: usize,
    cursor: Cursor,
}

impl FileInput {
    /// A reader positioned at the first of `chars`.
    pub fn from_chars(chars: Vec<char>) -> (r: Self)
        ensures
            r.wf(),
            r.chars() == chars@,
            r.pos() == 0,
    {
        let r = FileInput { chars, index: 0, cursor: Cursor { line: 0, column: 0 } };
        assert(r.chars@.take(0) =~= Seq::<char>::empty());
        r
    }
}

impl Input for FileInput {
    closed spec fn chars(&self) -> Seq<char> {
        self.chars@
    }

    closed spec fn pos(&self) -> int {
        self.index as int
    }

    closed spec fn wf(&self) -> bool {
        &&& self.index <= self.chars@.len()
        &&& self.cursor@ == cursor_after(self.chars@.take(self.index as int))
    }

    proof fn lemma_wf(&self) {
    }

    fn peek(&self) -> (r: Option<char>) {
        if self.index < self.chars.len() {
            Some(self.chars[self.index])
        } else {
            None
        }
    }

    fn advance(&mut self) {
        if self.index < self.chars.len() {
            let c = self.chars[self.index];
            let ghost before = self.chars@.take(self.index as int);
            proof {
                lemma_cursor_after_bound(before);
            }
            self.index = self.index + 1;
            let ghost after = self.chars@.take(self.index as int);
            assert(after.drop_last() =~= before);
            if c == '\n' {
                self.cursor.line = self.cursor.line + 1;
                self.cursor.column = 0;
            } else {
                self.cursor.column = self.cursor.column + 1;
            }
        }
    }

    fn is_eof(&self) -> (r: bool) {
        self.index >= self.chars.len()
    }

    fn cursor(&self) -> (c: Cursor) {
        self.cursor
    }
}

} // verus!
