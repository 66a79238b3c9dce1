//! The picker on the screen: its keys and its status line.
use crate::text;
use crate::text::{chars_of, decimal_text, text_of};
use vstd::prelude::*;
use vstd::slice::slice_subrange;

verus! {

/// The width that lines are wrapped at: the right edge of the terminal is left out.
pub open spec fn wrap_width(layout_width: nat) -> nat {
    if layout_width > 1 {
        (layout_width - 1) as nat
    } else {
        layout_width
    }
}

pub fn visible_wrap_width(layout_width: usize) -> (r: usize)
    ensures
        r == wrap_width(layout_width as nat),
{
    if layout_width > 1 {
        layout_width - 1
    } else {
        layout_width
    }
}

/// A key on the keyboard.
#[derive(Clone, Copy, Debug, PartialEq, Eq, Structural)]
pub enum Key {
    Escape,
    Backspace,
    Character(char),
    /// Any other key.
    Other,
}

/// The character that a key stands for in the picker.
pub open spec fn char_of_key(key: Key, control: bool) -> Option<char> {
    if control {
        match key {
            Key::Character(c) => if c == 'c' || c == 'C' {
                Some('\u{3}')
            } else {
                None
            },
            _ => None,
        }
    } else {
        match key {
            Key::Escape => Some('\u{1b}'),
            Key::Backspace => Some('\u{7f}'),
            Key::Character(c) => Some(c),
            Key::Other => None,
        }
    }
}

pub fn key_to_char(key: Key, control: bool) -> (r: Option<char>)
    ensures
        r == char_of_key(key, control),
{
    if control {
        match key {
            Key::Character(c) => if c == 'c' || c == 'C' {
                Some('\u{3}')
            } else {
                None
            },
            _ => None,
        }
    } else {
        match key {
            Key::Escape => Some('\u{1b}'),
            Key::Backspace => Some('\u{7f}'),
            Key::Character(c) => Some(c),
            Key::Other => None,
        }
    }
}

/// What has been typed, as it is shown.
pub open spec fn shown_input(input: Seq<char>) -> Seq<char> {
    if input.len() == 0 {
        "-"@
    } else {
        input
    }
}

/// The status line where there is room for it.
pub open spec fn full_status(files: nat, input: Seq<char>) -> Seq<char> {
    " download  files:"@ + text::decimal(files) + "  input:"@ + shown_input(input)
        + "  esc:close "@
}

/// The status line where there is little room.
pub open spec fn compact_status(files: nat, input: Seq<char>) -> Seq<char> {
    " download files:"@ + text::decimal(files) + " input:"@ + shown_input(input) + " "@
}

/// The status line of a given width: the full one if it fits, or as much of the compact one as
/// fits.
pub open spec fn status(files: nat, input: Seq<char>, width: nat) -> Seq<char> {
    let full = full_status(files, input);
    let compact = compact_status(files, input);
    if full.len() <= width {
        full
    } else if compact.len() <= width {
        compact
    } else {
        compact.take(width as int)
    }
}

/// Writes the status line.
pub fn status_text(files: usize, input: &str, width: usize) -> (r: String)
    ensures
        r@ == status(files as nat, input@, width as nat),
{
    let shown = if input.is_empty() {
        "-"
    } else {
        input
    };
    let number = decimal_text(files as u128);
    let mut full = " download  files:".to_owned();
    full.append(number.as_str());
    full.append("  input:");
    full.append(shown);
    full.append("  esc:close ");
    assert(full@ == full_status(files as nat, input@));
    let full_chars = chars_of(full.as_str());
    if full_chars.len() <= width {
        return full;
    }
    let mut compact = " download files:".to_owned();
    compact.append(number.as_str());
    compact.append(" input:");
    compact.append(shown);
    compact.append(" ");
    assert(compact@ == compact_status(files as nat, input@));
    let chars = chars_of(compact.as_str());
    if chars.len() <= width {
        return compact;
    }
    let cut = slice_subrange(&chars, 0, width);
    assert(cut@ =~= compact@.take(width as int));
    text_of(cut)
}

/// A status line fits into its width.
pub proof fn law_status_fits(files: nat, input: Seq<char>, width: nat)
    ensures
        status(files, input, width).len() <= width,
{
}

/// How the screen is divided: the rows for the text, and the row of the status line, which is the
/// last one.
pub open spec fn layout(top: nat, height: nat) -> (nat, Option<nat>) {
    if height == 0 {
        (0, None)
    } else {
        ((height - 1) as nat, Some((top + height - 1) as nat))
    }
}

/// Divides the screen.
pub fn screen_layout(top: u16, height: u16) -> (r: (usize, Option<u16>))
    requires
        top + height <= u16::MAX,
    ensures
        ({
            let (rows, row) = r;
            layout(top as nat, height as nat) == (
                rows as nat,
                match row {
                    Some(row) => Some(row as nat),
                    None => None,
                },
            )
        }),
{
    if height == 0 {
        (0, None)
    } else {
        ((height - 1) as usize, Some(top + (height - 1)))
    }
}

// ---------------------------------------------------------------------------------------------
// Laws

/// Without the control key a character stands for itself; with it, only the one that interrupts
/// stands for anything.
pub proof fn law_characters_stand_for_themselves(c: char)
    ensures
        char_of_key(Key::Character(c), false) == Some(c),
        char_of_key(Key::Escape, false) == Some('\u{1b}'),
        char_of_key(Key::Backspace, false) == Some('\u{7f}'),
        char_of_key(Key::Other, false) is None,
        char_of_key(Key::Character('c'), true) == Some('\u{3}'),
        char_of_key(Key::Character('C'), true) == Some('\u{3}'),
        c != 'c' && c != 'C' ==> char_of_key(Key::Character(c), true) is None,
        char_of_key(Key::Escape, true) is None,
        char_of_key(Key::Backspace, true) is None,
        char_of_key(Key::Other, true) is None,
{
}

/// Lines are wrapped one column before the right edge, but there is always a column.
pub proof fn law_right_edge_is_left_out(width: nat)
    ensures
        width > 1 ==> wrap_width(width) + 1 == width,
        wrap_width(1) == 1,
        wrap_width(0) == 0,
{
}

/// A status line tells the number of files and what was typed, where there is room: the full one is
/// shown where it fits, the compact one where only that fits, and else the front of the compact one.
pub proof fn law_status_tells_files_and_input(files: nat, input: Seq<char>, width: nat)
    requires
        input.len() > 0,
    ensures
        ({
            let full = " download  files:"@ + text::decimal(files) + "  input:"@ + input
                + "  esc:close "@;
            let compact = " download files:"@ + text::decimal(files) + " input:"@ + input + " "@;
            let shown = status(files, input, width);
            &&& full.len() <= width ==> shown == full
            &&& full.len() > width && compact.len() <= width ==> shown == compact
            &&& compact.len() > width ==> shown.len() == width && compact == shown + compact.skip(
                width as int,
            )
        }),
        status(files, seq![], width) == status(files, "-"@, width),
{
    reveal_strlit("-");
    reveal_strlit(" download  files:");
    reveal_strlit("  input:");
    reveal_strlit("  esc:close ");
    reveal_strlit(" download files:");
    reveal_strlit(" input:");
    reveal_strlit(" ");
    let compact = " download files:"@ + text::decimal(files) + " input:"@ + input + " "@;
    if compact.len() > width {
        assert(compact =~= compact.take(width as int) + compact.skip(width as int));
    }
}

/// The text and the status line share the screen: the status line has its last row, and the text all
/// others.
pub proof fn law_rows_are_shared(top: nat, height: nat)
    ensures
        height > 0 ==> (layout(top, height).1 matches Some(row) && row + 1 == top + height
            && top + layout(top, height).0 == row),
        layout(top, 0) == (0nat, None::<nat>),
{
}

} // verus!
