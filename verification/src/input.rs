//! The line editor behind the input box: a character buffer, a cursor, and
//! an input mode. The front end feeds it key strokes and renders it; all
//! editing logic lives here, on characters, so no cursor move or deletion
//! can ever split or overrun the buffer.

use vstd::prelude::*;

use crate::message::ForwardPayload;

verus! {

/// Whether key strokes scroll the view or edit the input line.
#[derive(Clone, Copy, PartialEq, Eq, Structural, Debug)]
pub enum InputMode {
    Normal,
    Editing,
}

/// Characters that count as blank when deciding whether there is anything
/// to submit: the Unicode white-space set, the same characters that string
/// trimming strips.
pub open spec fn is_blank_char(c: char) -> bool {
    ||| c == ' '
    ||| ('\t' <= c && c <= '\r')
    ||| c == '\u{0085}'
    ||| c == '\u{00A0}'
    ||| c == '\u{1680}'
    ||| ('\u{2000}' <= c && c <= '\u{200A}')
    ||| c == '\u{2028}'
    ||| c == '\u{2029}'
    ||| c == '\u{202F}'
    ||| c == '\u{205F}'
    ||| c == '\u{3000}'
}

/// Decide [`is_blank_char`] for one character.
fn blank_char(c: char) -> (r: bool)
    ensures
        r == is_blank_char(c),
{
    c == ' ' || (c >= '\t' && c <= '\r') || c == '\u{0085}' || c == '\u{00A0}' || c
        == '\u{1680}' || (c >= '\u{2000}' && c <= '\u{200A}') || c == '\u{2028}' || c
        == '\u{2029}' || c == '\u{202F}' || c == '\u{205F}' || c == '\u{3000}'
}

/// A sequence with nothing to submit: every character blank.
pub open spec fn all_blank(s: Seq<char>) -> bool {
    forall|i: int| 0 <= i < s.len() ==> is_blank_char(#[trigger] s[i])
}

/// State of the input line.
#[derive(Debug)]
pub struct InputEditor {
    /// Current value of the input box.
    pub input: Vec<char>,
    /// Position of the cursor in the editor area, in characters.
    pub character_index: usize,
    /// Current input mode.
    pub input_mode: InputMode,
}

impl InputEditor {
    /// The cursor always sits on a character boundary of the buffer.
    pub open spec fn wf(&self) -> bool {
        self.character_index <= self.input@.len()
    }

    /// An empty editor in normal mode.
    pub fn new() -> (r: InputEditor)
        ensures
            r.input@ == Seq::<char>::empty(),
            r.character_index == 0,
            r.input_mode == InputMode::Normal,
            r.wf(),
    {
        InputEditor { input: Vec::new(), character_index: 0, input_mode: InputMode::Normal }
    }

    /// Clamp a prospective cursor position into the buffer.
    pub fn clamp_cursor(&self, new_cursor_pos: usize) -> (r: usize)
        ensures
            r == if new_cursor_pos <= self.input@.len() {
                new_cursor_pos as int
            } else {
                self.input@.len() as int
            },
    {
        if new_cursor_pos <= self.input.len() {
            new_cursor_pos
        } else {
            self.input.len()
        }
    }

    /// Move the cursor one character left, stopping at the start.
    pub fn move_cursor_left(&mut self)
        requires
            old(self).wf(),
        ensures
            final(self).input == old(self).input,
            final(self).input_mode == old(self).input_mode,
            final(self).character_index == if old(self).character_index > 0 {
                old(self).character_index - 1
            } else {
                0
            },
            final(self).wf(),
    {
        let moved = if self.character_index > 0 {
            self.character_index - 1
        } else {
            0
        };
        self.character_index = self.clamp_cursor(moved);
    }

    /// Move the cursor one character right, stopping at the end.
    pub fn move_cursor_right(&mut self)
        requires
            old(self).wf(),
        ensures
            final(self).input == old(self).input,
            final(self).input_mode == old(self).input_mode,
            final(self).character_index == if old(self).character_index < old(self).input@.len() {
                old(self).character_index + 1
            } else {
                old(self).input@.len() as int
            },
            final(self).wf(),
    {
        let moved = if self.character_index < self.input.len() {
            self.character_index + 1
        } else {
            self.input.len()
        };
        self.character_index = self.clamp_cursor(moved);
    }

    /// Insert a character at the cursor and step the cursor past it.
    pub fn enter_char(&mut self, new_char: char)
        requires
            old(self).wf(),
        ensures
            final(self).input@ == old(self).input@.insert(
                old(self).character_index as int,
                new_char,
            ),
            final(self).character_index == old(self).character_index + 1,
            final(self).input_mode == old(self).input_mode,
            final(self).wf(),
    {
        self.input.insert(self.character_index, new_char);
        self.move_cursor_right();
    }

    /// Delete the character before the cursor, if any, and move the cursor
    /// onto the gap it leaves.
    pub fn delete_char(&mut self)
        requires
            old(self).wf(),
        ensures
            final(self).input_mode == old(self).input_mode,
            old(self).character_index == 0 ==> final(self).input == old(self).input
                && final(self).character_index == 0,
            old(self).character_index > 0 ==> final(self).input@ == old(self).input@.remove(
                old(self).character_index - 1,
            ) && final(self).character_index == old(self).character_index - 1,
            final(self).wf(),
    {
        if self.character_index != 0 {
            self.input.remove(self.character_index - 1);
            self.character_index = self.character_index - 1;
        }
    }

    /// Delete the character at the cursor (forward delete); the cursor
    /// keeps its logical position.
    pub fn delete_forward(&mut self)
        requires
            old(self).wf(),
        ensures
            final(self).input_mode == old(self).input_mode,
            final(self).character_index == old(self).character_index,
            old(self).character_index >= old(self).input@.len() ==> final(self).input
                == old(self).input,
            old(self).character_index < old(self).input@.len() ==> final(self).input@
                == old(self).input@.remove(old(self).character_index as int),
            final(self).wf(),
    {
        if self.character_index < self.input.len() {
            self.input.remove(self.character_index);
        }
    }

    /// Put the cursor back at the start of the line.
    pub fn reset_cursor(&mut self)
        ensures
            final(self).input == old(self).input,
            final(self).input_mode == old(self).input_mode,
            final(self).character_index == 0,
            final(self).wf(),
    {
        self.character_index = 0;
    }

    /// Take the submitted line: `None`, with the buffer cleared, when it
    /// holds only blanks; otherwise the buffer's text as a user payload,
    /// with the buffer cleared and the cursor reset.
    pub fn submit_message(&mut self) -> (r: Option<ForwardPayload>)
        requires
            old(self).wf(),
        ensures
            final(self).input@ == Seq::<char>::empty(),
            final(self).character_index == 0,
            final(self).input_mode == old(self).input_mode,
            final(self).wf(),
            all_blank(old(self).input@) ==> r is None,
            !all_blank(old(self).input@) ==> (r matches Some(f) && f@
                == crate::message::ForwardPayloadView::Text(old(self).input@)),
    {
        let mut blank = true;
        let mut i: usize = 0;
        while i < self.input.len()
            invariant
                i <= self.input@.len(),
                blank <==> all_blank(self.input@.take(i as int)),
            decreases self.input@.len() - i,
        {
            let c = self.input[i];
            if !blank_char(c) {
                blank = false;
            }
            proof {
                assert(self.input@.take(i + 1).drop_last() =~= self.input@.take(i as int));
                assert(self.input@.take(i + 1).last() == c);
                if !blank {
                    assert(!all_blank(self.input@.take(i + 1))) by {
                        if is_blank_char(c) {
                            assert(exists|k: int|
                                0 <= k < i && !is_blank_char(#[trigger] self.input@.take(
                                    i as int,
                                )[k]));
                            let k = choose|k: int|
                                0 <= k < i && !is_blank_char(#[trigger] self.input@.take(
                                    i as int,
                                )[k]);
                            assert(!is_blank_char(self.input@.take(i + 1)[k]));
                        } else {
                            assert(!is_blank_char(self.input@.take(i + 1)[i as int]));
                        }
                    }
                } else {
                    assert(all_blank(self.input@.take(i + 1)));
                }
            }
            i = i + 1;
        }
        proof {
            assert(self.input@.take(self.input@.len() as int) =~= self.input@);
        }
        let r = if blank {
            None
        } else {
            let text = string_from_chars(&self.input);
            Some(ForwardPayload::Text(text))
        };
        self.input.clear();
        self.reset_cursor();
        r
    }
}

/// Relies on `String`'s `FromIterator` over characters: collecting yields
/// the string of exactly those characters, in order.
#[verifier::external_body]
fn string_from_chars(v: &Vec<char>) -> (r: String)
    ensures
        r@ == v@,
{
    v.iter().collect()
}

} // verus!
