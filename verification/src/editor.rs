//! Code-point-aware text editor: a buffer of Unicode code points and a
//! cursor measured in code points, never in storage bytes.

use vstd::prelude::*;
use crate::keys::Key;

verus! {

/// What the caller should do after one key was fed to the editor:
/// keep editing, commit, or abandon the edit.
#[derive(Clone, Copy, PartialEq, Eq, Structural, Debug)]
pub enum AfterAction {
    Enter,
    Cancel,
    Continue,
}

/// The buffer after one editing key: insertion at the cursor, cursor
/// moves clamped to `[0, len]`, backspace before the cursor, delete at
/// it; every other key leaves the buffer alone.
pub open spec fn edited_buffer(s: Seq<char>, index: int, keyev: Key) -> Seq<char> {
    match keyev {
        Key::Char(c) => s.insert(index, c),
        Key::Backspace => if index > 0 {
            s.remove(index - 1)
        } else {
            s
        },
        Key::Delete => if index < s.len() {
            s.remove(index)
        } else {
            s
        },
        _ => s,
    }
}

/// The cursor after one editing key.
pub open spec fn edited_cursor(s: Seq<char>, index: int, keyev: Key) -> int {
    match keyev {
        Key::Char(_) => index + 1,
        Key::Left => if index > 0 {
            index - 1
        } else {
            0
        },
        Key::Right => if index < s.len() {
            index + 1
        } else {
            index
        },
        Key::Home => 0,
        Key::End => s.len() as int,
        Key::Backspace => if index > 0 {
            index - 1
        } else {
            index
        },
        _ => index,
    }
}

/// Feed one key to the editor. Enter and Escape terminate the edit and
/// touch nothing; Up, Down and Tab are reported back unconsumed so a
/// multi-field form can move focus; everything else edits in place.
pub fn input_string(string: &mut Vec<char>, index: &mut usize, keyev: &Key) -> (r: AfterAction)
    requires
        old(index)@ <= old(string)@.len(),
    ensures
        final(string)@ == edited_buffer(old(string)@, old(index)@ as int, *keyev),
        final(index)@ == edited_cursor(old(string)@, old(index)@ as int, *keyev),
        final(index)@ <= final(string)@.len(),
        r == (match keyev {
            Key::Enter => AfterAction::Enter,
            Key::Esc => AfterAction::Cancel,
            _ => AfterAction::Continue,
        }),
{
    match keyev {
        Key::Char(chr) => {
            string.insert(*index, *chr);
            let n = string.len();
            *index += 1;
        },
        Key::Left => {
            if *index > 0 {
                *index -= 1;
            }
        },
        Key::Right => {
            if *index < string.len() {
                *index += 1;
            }
        },
        Key::Home => {
            *index = 0;
        },
        Key::End => {
            *index = string.len();
        },
        Key::Backspace => {
            if *index > 0 {
                string.remove(*index - 1);
                *index -= 1;
            }
        },
        Key::Delete => {
            if *index < string.len() {
                string.remove(*index);
            }
        },
        Key::Enter => {
            return AfterAction::Enter;
        },
        Key::Esc => {
            return AfterAction::Cancel;
        },
        _ => {},
    }
    AfterAction::Continue
}

/// Inserting a code point and immediately erasing it with backspace
/// restores both the buffer and the cursor.
pub proof fn lemma_insert_backspace_round_trip(s: Seq<char>, index: int, c: char)
    requires
        0 <= index <= s.len(),
    ensures
        ({
            let s1 = edited_buffer(s, index, Key::Char(c));
            let i1 = edited_cursor(s, index, Key::Char(c));
            &&& edited_buffer(s1, i1, Key::Backspace) == s
            &&& edited_cursor(s1, i1, Key::Backspace) == index
        }),
{
    let s1 = s.insert(index, c);
    assert(s1.remove(index) =~= s);
}

} // verus!
