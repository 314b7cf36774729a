//! The input line of the terminal client: a text buffer with a cursor.
//!
//! The cursor is a byte offset into the buffer and always sits on a
//! character boundary; every edit keeps it there.
use vstd::prelude::*;
use crate::bytes::{
    byte_offset, char_index, char_index_of, char_width, is_boundary, lemma_char_index,
    lemma_offset_strict,
    lemma_take_all, lemma_take_step, lemma_utf8_len_concat, str_byte_len, utf8_len, width_of,
};
use crate::text::{chars_of, push_char, string_from_range};

verus! {

/// The input bar state.
pub struct InputWidget {
    /// Current input text.
    pub buffer: String,
    /// Cursor position in bytes (on a character boundary).
    pub cursor: usize,
}

/// The characters `v[0..lo]` followed by `v[hi..]`, as a `String`.
fn without_range(v: &Vec<char>, lo: usize, hi: usize) -> (s: String)
    requires
        lo <= hi <= v.len(),
    ensures
        s@ == v@.subrange(0, lo as int) + v@.subrange(hi as int, v.len() as int),
{
    let mut s = string_from_range(v, 0, lo);
    let rest = string_from_range(v, hi, v.len());
    s.append(rest.as_str());
    s
}

/// Text and cursor after typing `c` at byte offset `cursor` of `b`: the
/// character goes in at the cursor's index and the cursor moves past it.
pub open spec fn inserted(b: Seq<char>, cursor: int, c: char) -> (Seq<char>, int) {
    (b.insert(char_index(b, cursor), c), cursor + char_width(c))
}

/// Text and cursor after a backspace at byte offset `cursor` of `b`: the
/// character before the cursor goes and the cursor moves to where it
/// started; at the start of the text nothing changes.
pub open spec fn backspaced(b: Seq<char>, cursor: int) -> (Seq<char>, int) {
    if cursor > 0 {
        let k = char_index(b, cursor);
        (b.remove(k - 1), byte_offset(b, k - 1) as int)
    } else {
        (b, cursor)
    }
}

impl InputWidget {
    /// The cursor sits on a character boundary of the buffer, whose length
    /// stays within what a `String` can hold.
    pub open spec fn wf(&self) -> bool {
        &&& is_boundary(self.buffer@, self.cursor as int)
        &&& utf8_len(self.buffer@) <= isize::MAX
    }

    /// The index of the character the cursor stands before.
    pub open spec fn pos(&self) -> int {
        char_index(self.buffer@, self.cursor as int)
    }

    /// An empty input line.
    pub fn new() -> (w: Self)
        ensures
            w.wf(),
            w.buffer@ == Seq::<char>::empty(),
            w.cursor == 0,
    {
        let w = InputWidget { buffer: String::new(), cursor: 0 };
        proof {
            lemma_take_all(w.buffer@);
            lemma_char_index(w.buffer@, 0);
        }
        w
    }

    /// Inserts `c` at the cursor and moves the cursor past it.
    pub fn insert_char(&mut self, c: char)
        requires
            old(self).wf(),
            utf8_len(old(self).buffer@) + char_width(c) <= isize::MAX,
        ensures
            final(self).wf(),
            (final(self).buffer@, final(self).cursor as int) == inserted(
                old(self).buffer@,
                old(self).cursor as int,
                c,
            ),
            final(self).pos() == old(self).pos() + 1,
    {
        let v = chars_of(self.buffer.as_str());
        let k = char_index_of(&v, self.cursor);
        let mut s = string_from_range(&v, 0, k);
        push_char(&mut s, c);
        let rest = string_from_range(&v, k, v.len());
        s.append(rest.as_str());
        let w = width_of(c);
        proof {
            let old_b = v@;
            let new_b = s@;
            assert(new_b =~= old_b.insert(k as int, c));
            assert(new_b.take(k + 1).drop_last() =~= old_b.take(k as int));
            assert(new_b.take(k + 1).last() == c);
            assert(old_b =~= old_b.take(k as int) + old_b.subrange(k as int, old_b.len() as int));
            lemma_utf8_len_concat(old_b.take(k as int), old_b.subrange(k as int, old_b.len() as int));
            assert(new_b =~= new_b.take(k + 1) + old_b.subrange(k as int, old_b.len() as int));
            lemma_utf8_len_concat(new_b.take(k + 1), old_b.subrange(k as int, old_b.len() as int));
            assert(byte_offset(new_b, k + 1) == byte_offset(old_b, k as int) + char_width(c));
            lemma_char_index(new_b, k + 1);
        }
        self.buffer = s;
        self.cursor = self.cursor + w;
    }

    /// Deletes the character before the cursor.
    pub fn backspace(&mut self)
        requires
            old(self).wf(),
        ensures
            final(self).wf(),
            (final(self).buffer@, final(self).cursor as int) == backspaced(
                old(self).buffer@,
                old(self).cursor as int,
            ),
    {
        if self.cursor > 0 {
            let v = chars_of(self.buffer.as_str());
            let k = char_index_of(&v, self.cursor);
            proof {
                lemma_take_all(v@);
            }
            let prev = self.cursor - width_of(v[k - 1]);
            let s = without_range(&v, k - 1, k);
            proof {
                let old_b = v@;
                let new_b = s@;
                lemma_take_step(old_b, k - 1);
                assert(new_b =~= old_b.remove(k - 1));
                assert(new_b.take(k - 1) =~= old_b.take(k - 1));
                lemma_char_index(new_b, k - 1);
                assert(old_b =~= old_b.take(k - 1) + old_b.subrange(k - 1, old_b.len() as int));
                lemma_utf8_len_concat(old_b.take(k - 1), old_b.subrange(k - 1, old_b.len() as int));
                assert(old_b.subrange(k - 1, old_b.len() as int) =~= seq![old_b[k - 1]]
                    + old_b.subrange(k as int, old_b.len() as int));
                lemma_utf8_len_concat(seq![old_b[k - 1]], old_b.subrange(k as int, old_b.len() as int));
                assert(seq![old_b[k - 1]].drop_last() =~= Seq::<char>::empty());
                assert(new_b =~= old_b.take(k - 1) + old_b.subrange(k as int, old_b.len() as int));
                lemma_utf8_len_concat(old_b.take(k - 1), old_b.subrange(k as int, old_b.len() as int));
            }
            self.buffer = s;
            self.cursor = prev;
        }
    }

    /// Deletes the character at the cursor.
    pub fn delete(&mut self)
        requires
            old(self).wf(),
        ensures
            final(self).wf(),
            final(self).cursor == old(self).cursor,
            old(self).pos() < old(self).buffer@.len() ==> final(self).buffer@ == old(self).buffer@.remove(old(self).pos()),
            old(self).pos() == old(self).buffer@.len() ==> final(self).buffer@ == old(self).buffer@,
    {
        let len = str_byte_len(self.buffer.as_str());
        let v = chars_of(self.buffer.as_str());
        let k = char_index_of(&v, self.cursor);
        proof {
            lemma_take_all(v@);
            if k < v.len() {
                lemma_take_step(v@, k as int);
                lemma_offset_strict(v@, k + 1, v.len() as int);
            }
        }
        if self.cursor < len {
            let s = without_range(&v, k, k + 1);
            proof {
                let old_b = v@;
                let new_b = s@;
                assert(new_b =~= old_b.remove(k as int));
                assert(new_b.take(k as int) =~= old_b.take(k as int));
                lemma_char_index(new_b, k as int);
                assert(old_b =~= old_b.take(k as int) + old_b.subrange(k as int, old_b.len() as int));
                lemma_utf8_len_concat(old_b.take(k as int), old_b.subrange(k as int, old_b.len() as int));
                assert(old_b.subrange(k as int, old_b.len() as int) =~= seq![old_b[k as int]]
                    + old_b.subrange(k + 1, old_b.len() as int));
                lemma_utf8_len_concat(seq![old_b[k as int]], old_b.subrange(k + 1, old_b.len() as int));
                assert(seq![old_b[k as int]].drop_last() =~= Seq::<char>::empty());
                assert(new_b =~= old_b.take(k as int) + old_b.subrange(k + 1, old_b.len() as int));
                lemma_utf8_len_concat(old_b.take(k as int), old_b.subrange(k + 1, old_b.len() as int));
            }
            self.buffer = s;
        }
    }

    /// Moves the cursor one character to the left.
    pub fn cursor_left(&mut self)
        requires
            old(self).wf(),
        ensures
            final(self).wf(),
            final(self).buffer@ == old(self).buffer@,
            old(self).cursor > 0 ==> final(self).cursor == byte_offset(
                old(self).buffer@,
                old(self).pos() - 1,
            ),
            old(self).cursor == 0 ==> final(self).cursor == 0,
    {
        if self.cursor > 0 {
            self.cursor = self.prev_char_boundary();
            proof {
                lemma_char_index(self.buffer@, old(self).pos() - 1);
            }
        }
    }

    /// Moves the cursor one character to the right.
    pub fn cursor_right(&mut self)
        requires
            old(self).wf(),
        ensures
            final(self).wf(),
            final(self).buffer@ == old(self).buffer@,
            old(self).pos() < old(self).buffer@.len() ==> final(self).cursor == byte_offset(
                old(self).buffer@,
                old(self).pos() + 1,
            ),
            old(self).pos() == old(self).buffer@.len() ==> final(self).cursor == old(self).cursor,
    {
        let len = str_byte_len(self.buffer.as_str());
        proof {
            let k = self.pos();
            lemma_take_all(self.buffer@);
            if k < self.buffer@.len() {
                lemma_take_step(self.buffer@, k);
                lemma_offset_strict(self.buffer@, k + 1, self.buffer@.len() as int);
            }
        }
        if self.cursor < len {
            self.cursor = self.next_char_boundary();
            proof {
                lemma_char_index(self.buffer@, old(self).pos() + 1);
            }
        }
    }

    /// Moves the cursor to the start (from any position).
    pub fn cursor_home(&mut self)
        ensures
            final(self).wf(),
            final(self).buffer@ == old(self).buffer@,
            final(self).cursor == 0,
    {
        let _len: usize = str_byte_len(self.buffer.as_str());
        self.cursor = 0;
        proof {
            lemma_take_all(self.buffer@);
            lemma_char_index(self.buffer@, 0);
        }
    }

    /// Moves the cursor to the end (from any position).
    pub fn cursor_end(&mut self)
        ensures
            final(self).wf(),
            final(self).buffer@ == old(self).buffer@,
            final(self).cursor == utf8_len(old(self).buffer@),
    {
        self.cursor = str_byte_len(self.buffer.as_str());
        proof {
            lemma_take_all(self.buffer@);
            lemma_char_index(self.buffer@, self.buffer@.len() as int);
        }
    }

    /// Empties the buffer.
    pub fn clear(&mut self)
        ensures
            final(self).wf(),
            final(self).buffer@ == Seq::<char>::empty(),
            final(self).cursor == 0,
    {
        self.buffer = String::new();
        self.cursor = 0;
        proof {
            lemma_take_all(self.buffer@);
            lemma_char_index(self.buffer@, 0);
        }
    }

    /// Returns the buffer's text and empties it.
    pub fn take(&mut self) -> (text: String)
        ensures
            text@ == old(self).buffer@,
            final(self).wf(),
            final(self).buffer@ == Seq::<char>::empty(),
            final(self).cursor == 0,
    {
        let text = self.buffer.clone();
        self.clear();
        text
    }

    /// Byte offset of the character boundary before the cursor (or 0).
    pub fn prev_char_boundary(&self) -> (r: usize)
        requires
            self.wf(),
        ensures
            self.cursor == 0 ==> r == 0,
            self.cursor > 0 ==> r == byte_offset(self.buffer@, self.pos() - 1),
    {
        if self.cursor == 0 {
            return 0;
        }
        let v = chars_of(self.buffer.as_str());
        let k = char_index_of(&v, self.cursor);
        proof {
            lemma_take_all(v@);
            lemma_take_step(v@, k - 1);
        }
        self.cursor - width_of(v[k - 1])
    }

    /// Byte offset of the character boundary after the cursor, or one past
    /// the cursor when it is at the end.
    pub fn next_char_boundary(&self) -> (r: usize)
        requires
            self.wf(),
        ensures
            self.pos() < self.buffer@.len() ==> r == byte_offset(self.buffer@, self.pos() + 1),
            self.pos() == self.buffer@.len() ==> r == self.cursor + 1,
    {
        let v = chars_of(self.buffer.as_str());
        let k = char_index_of(&v, self.cursor);
        proof {
            lemma_take_all(v@);
            lemma_offset_strict(v@, k as int, v.len() as int);
        }
        if k < v.len() {
            proof {
                lemma_take_step(v@, k as int);
            }
            self.cursor + width_of(v[k])
        } else {
            self.cursor + 1
        }
    }
}

/// Undo law: typing a character and then pressing backspace gives back the
/// text and the cursor from before, for any text, any cursor on a character
/// boundary and any character.
pub proof fn lemma_backspace_undoes_insert(b: Seq<char>, cursor: int, c: char)
    requires
        is_boundary(b, cursor),
    ensures
        backspaced(inserted(b, cursor, c).0, inserted(b, cursor, c).1) == (b, cursor),
{
    let k = char_index(b, cursor);
    let bi = b.insert(k, c);
    assert(bi.remove(k) =~= b);
    assert(bi.take(k) =~= b.take(k));
    lemma_take_step(bi, k);
    assert(bi.take(k + 1).drop_last() =~= b.take(k));
    lemma_char_index(bi, k + 1);
}

/// How the input line shows its cursor.
pub enum CursorView {
    /// The cursor is after the text.
    AtEnd(String),
    /// The cursor stands on the character `at`, between `before` and `after`.
    Inside { before: String, at: String, after: String },
}

impl InputWidget {
    /// Splits the text around the cursor for display: at the end, the whole
    /// text; otherwise the text before the cursor, the character under it,
    /// and the rest.
    pub fn cursor_view(&self) -> (r: CursorView)
        requires
            self.wf(),
        ensures
            self.pos() == self.buffer@.len() ==> (r matches CursorView::AtEnd(t) && t@
                == self.buffer@),
            self.pos() < self.buffer@.len() ==> (r matches CursorView::Inside { before, at, after }
                && before@ == self.buffer@.take(self.pos()) && at@ == seq![self.buffer@[self.pos()]]
                && after@ == self.buffer@.skip(self.pos() + 1)),
    {
        let v = chars_of(self.buffer.as_str());
        let k = char_index_of(&v, self.cursor);
        if k == v.len() {
            CursorView::AtEnd(string_from_range(&v, 0, v.len()))
        } else {
            let before = string_from_range(&v, 0, k);
            let at = string_from_range(&v, k, k + 1);
            let after = string_from_range(&v, k + 1, v.len());
            proof {
                assert(v@.subrange(k as int, k + 1) =~= seq![v@[k as int]]);
            }
            CursorView::Inside { before, at, after }
        }
    }
}

} // verus!
