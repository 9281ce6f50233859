//! Scroll anchors and how they move.
//!
//! An anchor is `Some(n)` when line `n` is pinned to the top of the viewport,
//! and `None` while the viewport follows the tail of the buffer.

use vstd::prelude::*;

verus! {

/// Rows moved by a page key, and the look-behind kept above a line that the
/// pager jumps to.
pub const PAGE_SIZE: usize = 10;

/// The larger of `x` and zero.
pub open spec fn floor_at_zero(x: int) -> int {
    if x < 0 {
        0
    } else {
        x
    }
}

/// Where an anchor lands after scrolling by `offset` rows.
///
/// A zero offset changes nothing. Scrolling down from a pinned line moves the
/// anchor down, and lets go of it once it would pass the last line. There is
/// nothing below the tail. Scrolling up from a pinned line stops at line zero;
/// scrolling up from the tail starts counting at the top edge of the last full
/// viewport, or at the end of the buffer while it is shorter than a viewport.
pub open spec fn scrolled(anchor: Option<usize>, n_lines: int, n_rows: int, offset: int) -> Option<
    usize,
> {
    if offset == 0 {
        anchor
    } else if offset > 0 {
        match anchor {
            None => None,
            Some(a) => if a + offset >= n_lines {
                None
            } else {
                Some((a + offset) as usize)
            },
        }
    } else {
        match anchor {
            Some(a) => Some(floor_at_zero(a + offset) as usize),
            None => if n_lines < n_rows {
                Some(floor_at_zero(n_lines + offset) as usize)
            } else {
                Some(floor_at_zero(n_lines - n_rows + offset) as usize)
            },
        }
    }
}

/// The anchor that keeps `target` in view with `look_behind` lines above it.
pub open spec fn with_look_behind(target: Option<usize>, look_behind: int) -> Option<usize> {
    match target {
        Some(n) => Some(floor_at_zero(n - look_behind) as usize),
        None => None,
    }
}

/// Moves an anchor by a signed number of rows.
///
/// `n_lines` is the number of lines in the buffer and `n_rows` the capacity of
/// the viewport.
pub fn get_pos(pos: Option<usize>, n_lines: usize, n_rows: usize, requested_offset: i32) -> (r:
    Option<usize>)
    ensures
        r == scrolled(pos, n_lines as int, n_rows as int, requested_offset as int),
{
    if requested_offset == 0 {
        pos
    } else if requested_offset > 0 {
        let step: u64 = requested_offset as u64;
        match pos {
            None => None,
            Some(n) => {
                if n >= n_lines {
                    None
                } else if step >= (n_lines - n) as u64 {
                    None
                } else {
                    Some(n + step as usize)
                }
            },
        }
    } else {
        let step: u64 = (-(requested_offset as i64)) as u64;
        match pos {
            Some(n) => {
                if (n as u64) < step {
                    Some(0)
                } else {
                    Some(n - step as usize)
                }
            },
            None => {
                let base: usize = if n_lines < n_rows {
                    n_lines
                } else {
                    n_lines - n_rows
                };
                if (base as u64) < step {
                    Some(0)
                } else {
                    Some(base - step as usize)
                }
            },
        }
    }
}

/// Pins the viewport `page_up_size` lines above `pos`, or at line zero where
/// fewer lines precede it. Following the tail stays following the tail.
pub fn pos_with_in_view(pos: Option<usize>, page_up_size: usize) -> (r: Option<usize>)
    ensures
        r == with_look_behind(pos, page_up_size as int),
{
    match pos {
        Some(n) => {
            if n >= page_up_size {
                Some(n - page_up_size)
            } else {
                Some(0)
            }
        },
        None => None,
    }
}

/// Scrolling by zero rows leaves every anchor where it is.
pub proof fn lemma_zero_offset_is_identity(anchor: Option<usize>, n_lines: int, n_rows: int)
    ensures
        scrolled(anchor, n_lines, n_rows, 0) == anchor,
{
}

/// Scrolling down from a pinned line either lands on a line of the buffer or
/// lets go of the anchor; it never pins the viewport past the end.
pub proof fn lemma_scrolling_down_stays_inside(
    anchor: Option<usize>,
    n_lines: int,
    n_rows: int,
    offset: int,
)
    requires
        offset > 0,
    ensures
        scrolled(anchor, n_lines, n_rows, offset) matches Some(a) ==> a < n_lines,
        anchor is None ==> scrolled(anchor, n_lines, n_rows, offset) is None,
{
}

/// Scrolling up never moves a pinned anchor down, and always pins the view.
pub proof fn lemma_scrolling_up_pins(anchor: Option<usize>, n_lines: nat, n_rows: nat, offset: int)
    requires
        offset < 0,
        n_lines <= usize::MAX,
    ensures
        scrolled(anchor, n_lines as int, n_rows as int, offset) is Some,
        anchor matches Some(a) ==> scrolled(anchor, n_lines as int, n_rows as int, offset)->0 <= a,
        anchor is None ==> scrolled(anchor, n_lines as int, n_rows as int, offset)->0 <= n_lines,
{
}

} // verus!
