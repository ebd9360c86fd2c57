//! Proportional scrolling window over an ordered list.
//!
//! The same windowing is used for vertical record lists and for the
//! horizontal character columns of an overflowing text field.

use vstd::prelude::*;

verus! {

/// Start of the visible window: when the list overflows the window, the
/// window is placed proportionally to the selection, scrollbar-like, so a
/// selection near the end of the list pushes the window to the end;
/// clamped so the window never runs past the list.
pub open spec fn viewport_start(size: int, length: int, selected: int) -> int {
    if length <= size {
        0
    } else {
        let raw = ((selected + 1) * (length - size)) / length;
        if raw > length - size {
            length - size
        } else {
            raw
        }
    }
}

/// Half-open index range `[start, end)` of the list slots that are visible
/// in a window of `size` rows over a list of `length` items with
/// `selected` highlighted.
///
/// If the whole list fits, the range is `[0, length)`; otherwise it has
/// length exactly `size`, starts at the proportional position and stays
/// inside `[0, length)`. `selected` may be one past the last slot: the
/// horizontal use puts the text cursor there at end of text, and the
/// window is then the last one.
pub fn visible_scrolled(size: usize, length: usize, selected: usize) -> (r: (usize, usize))
    requires
        length > 0 ==> selected <= length,
    ensures
        r.0 == viewport_start(size as int, length as int, selected as int),
        length <= size ==> r == (0usize, length),
        length > size ==> r.1 == r.0 + size,
        r.0 <= r.1 <= length,
        r.1 - r.0 == if size <= length { size as int } else { length as int },
{
    if length <= size {
        (0, length)
    } else {
        let sel1: u128 = selected as u128 + 1;
        let gap128: u128 = (length - size) as u128;
        proof {
            assert(sel1 * gap128 <= 0xffffffffffffffffffffffffffffffff) by (nonlinear_arith)
                requires
                    sel1 <= 0x10000000000000000,
                    gap128 < 0x10000000000000000,
            ;
        }
        let wide: u128 = sel1 * gap128 / (length as u128);
        let gap: usize = length - size;
        let start: usize = if wide > gap as u128 {
            gap
        } else {
            wide as usize
        };
        (start, start + size)
    }
}

/// Column at which a centered string of width `width` starts on a row of
/// width `center`: half the leftover space, zero when the string
/// overflows the row.
pub fn center_offset(center: u16, width: u16) -> (r: u16)
    ensures
        r == if width <= center { (center - width) / 2 } else { 0int },
{
    if width <= center {
        (center - width) / 2
    } else {
        0
    }
}

} // verus!
