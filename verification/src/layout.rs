//! What the screen needs from the session besides its state: where the text
//! cursor falls in a field, and how long texts are cut for a list.

use crate::text::{clamped, to_chars, to_string_range};
use vstd::prelude::*;

verus! {

/// The number of terminal columns that a text takes, as
/// `unicode_width::UnicodeWidthStr::width` counts them.
pub uninterp spec fn display_width(s: Seq<char>) -> usize;

/// The number of terminal columns that `s` takes.
///
/// Calls `unicode_width::UnicodeWidthStr::width`, which counts the columns by
/// the tables of the crate, each character taken with its neighbours; the
/// result depends on the text alone.
#[verifier::external_body]
pub(crate) fn text_width(s: &str) -> (w: usize)
    ensures
        w == display_width(s@),
{
    unicode_width::UnicodeWidthStr::width(s)
}

/// A rectangle of the screen, in cells.
#[derive(Debug, Clone, Copy, PartialEq, Eq, Structural)]
pub struct Area {
    pub x: u16,
    pub y: u16,
    pub width: u16,
    pub height: u16,
}

/// The column and the row of the cell that lies `width` columns into a text
/// that fills `area` row by row; the width counts modulo 65536.
pub open spec fn cell_at(width: int, area: Area) -> (int, int) {
    let w = width % 0x1_0000;
    (area.x + w % (area.width as int), area.y + w / (area.width as int))
}

/// The cell `cell_at(width, area)` lies within `area` and on the screen.
pub open spec fn cell_is_shown(width: int, area: Area) -> bool {
    &&& area.width > 0
    &&& cell_at(width, area).0 <= u16::MAX
    &&& cell_at(width, area).1 <= u16::MAX
    &&& cell_at(width, area).1 < area.y + area.height
}

/// The cell that lies `width` columns into a text that fills `area` row by
/// row, if that cell lies within the area.
pub fn cell_for_width(width: usize, area: Area) -> (r: Option<(u16, u16)>)
    ensures
        match r {
            Some(cell) => cell_is_shown(width as int, area) && cell.0 == cell_at(
                width as int,
                area,
            ).0 && cell.1 == cell_at(width as int, area).1,
            None => !cell_is_shown(width as int, area),
        },
{
    if area.width == 0 {
        return None;
    }
    let w: u32 = (width % 0x1_0000) as u32;
    let across: u32 = area.width as u32;
    let column: u32 = area.x as u32 + w % across;
    let row: u32 = area.y as u32 + w / across;
    if column <= 0xFFFF && row <= 0xFFFF && row < area.y as u32 + area.height as u32 {
        Some((column as u16, row as u16))
    } else {
        None
    }
}

/// The cell of the text cursor in a field that shows `text` in `area`, the
/// cursor standing before the character at position `cursor`.
pub fn cursor_cell(text: &str, cursor: usize, area: Area) -> (r: Option<(u16, u16)>)
    ensures
        ({
            let before = text@.take(clamped(cursor as int, text@.len() as int));
            let width = display_width(before) as int;
            match r {
                Some(cell) => cell_is_shown(width, area) && cell.0 == cell_at(width, area).0
                    && cell.1 == cell_at(width, area).1,
                None => !cell_is_shown(width, area),
            }
        }),
{
    let chars = to_chars(text);
    let n = chars.len();
    let at = if cursor < n {
        cursor
    } else {
        n
    };
    let before = to_string_range(&chars, 0, at);
    assert(chars@.subrange(0, at as int) =~= text@.take(at as int));
    cell_for_width(text_width(before.as_str()), area)
}

/// What a list shows of a text: the text itself where it has at most `limit`
/// characters, else its first `keep` characters and three dots.
pub open spec fn preview_of(text: Seq<char>, limit: int, keep: int) -> Seq<char> {
    if text.len() > limit {
        text.take(clamped(keep, text.len() as int)) + "..."@
    } else {
        text
    }
}

/// What a list shows of `text`.
pub fn preview(text: &str, limit: usize, keep: usize) -> (r: String)
    ensures
        r@ == preview_of(text@, limit as int, keep as int),
{
    let chars = to_chars(text);
    let n = chars.len();
    if n > limit {
        let at = if keep < n {
            keep
        } else {
            n
        };
        let mut r = to_string_range(&chars, 0, at);
        assert(chars@.subrange(0, at as int) =~= text@.take(at as int));
        r.append("...");
        r
    } else {
        let r = to_string_range(&chars, 0, n);
        assert(chars@.subrange(0, n as int) =~= text@);
        r
    }
}

} // verus!
