pub mod file_input;

use vstd::prelude::*;

verus! {

/// A position in the source text: zero-based line and column.
#[derive(Debug, Default, Copy, Clone, PartialEq, Eq)]
pub struct Cursor {
    pub line: usize,
    pub column: usize,
}

impl View for Cursor {
    type V = (nat, nat);

    open spec fn view(&self) -> (nat, nat) {
        (self.line as nat, self.column as nat)
    }
}

/// The line and column reached after reading `s` from the start of a text:
/// a newline moves to column 0 of the next line, any other character one
/// column to the right.
pub open spec fn cursor_after(s: Seq<char>) -> (nat, nat)
    decreases s.len(),
{
    if s.len() == 0 {
        (0, 0)
    } else {
        let (line, column) = cursor_after(s.drop_last());
        if s.last() == '\n' {
            (line + 1, 0)
        } else {
            (line, column + 1)
        }
    }
}

/// Line and column together never exceed the number of characters read.
pub proof fn lemma_cursor_after_bound(s: Seq<char>)
    ensures
        cursor_after(s).0 + cursor_after(s).1 <= s.len(),
    decreases s.len(),
{
    if s.len() > 0 {
        lemma_cursor_after_bound(s.drop_last());
    }
}

/// Reading characters other than newlines stays on the same line and moves
/// one column per character.
pub proof fn lemma_cursor_after_same_line(chars: Seq<char>, a: int, b: int)
    requires
        0 <= a <= b <= chars.len(),
        forall|k: int| a <= k < b ==> chars[k] != '\n',
    ensures
        cursor_after(chars.take(b)) == (
            cursor_after(chars.take(a)).0,
            cursor_after(chars.take(a)).1 + (b - a) as nat,
        ),
    decreases b - a,
{
    if b > a {
        lemma_cursor_after_same_line(chars, a, b - 1);
        assert(chars.take(b).drop_last() =~= chars.take(b - 1));
        assert(chars.take(b).last() == chars[b - 1]);
    }
}

/// A text without newlines stays on line 0, one column per character; a
/// newline moves to the start of the next line: the cursor after `a`, a
/// newline and a newline-free `b` is one line below the cursor after `a`, at
/// column `b.len()`.
pub proof fn lemma_cursor_after_lines(a: Seq<char>, b: Seq<char>)
    requires
        forall|k: int| 0 <= k < b.len() ==> b[k] != '\n',
    ensures
        cursor_after(b) == (0nat, b.len()),
        cursor_after(a + seq!['\n'] + b) == (cursor_after(a).0 + 1, b.len()),
    decreases b.len(),
{
    if b.len() == 0 {
        assert((a + seq!['\n'] + b).drop_last() =~= a);
    } else {
        lemma_cursor_after_lines(a, b.drop_last());
        assert((a + seq!['\n'] + b).drop_last() =~= a + seq!['\n'] + b.drop_last());
    }
}

/// A source of characters read one at a time.
///
/// Its model is the whole text (`chars`) and the number of characters
/// already consumed (`pos`).
pub trait Input {
    spec fn chars(&self) -> Seq<char>;

    spec fn pos(&self) -> int;

    spec fn wf(&self) -> bool;

    proof fn lemma_wf(&self)
        requires
            self.wf(),
        ensures
            0 <= self.pos() <= self.chars().len(),
    ;

    /// The character under the cursor, if any.
    fn peek(&self) -> (r: Option<char>)
        requires
            self.wf(),
        ensures
            r == (if self.pos() < self.chars().len() {
                Some(self.chars()[self.pos()])
            } else {
                None
            }),
    ;

    /// Moves the cursor one character forward; does nothing at the end.
    fn advance(&mut self)
        requires
            old(self).wf(),
        ensures
            final(self).wf(),
            final(self).chars() == old(self).chars(),
            final(self).pos() == (if old(self).pos() < old(self).chars().len() {
                old(self).pos() + 1
            } else {
                old(self).pos()
            }),
    ;

    /// Whether every character has been consumed.
    fn is_eof(&self) -> (r: bool)
        requires
            self.wf(),
        ensures
            r == (self.pos() >= self.chars().len()),
    ;

    /// The line and column of the cursor.
    fn cursor(&self) -> (c: Cursor)
        requires
            self.wf(),
        ensures
            c@ == cursor_after(self.chars().take(self.pos())),
    ;
}

} // verus!
