//! Shared building blocks for the interactive views: key predicates, the
//! arithmetic of panes and boxes, and what the widgets decide before they are
//! drawn. The terminal itself, and drawing into it, belong to the program.

pub mod difffeed;
pub mod difftool;
pub mod highlight;
pub mod input;
pub mod shade;
pub mod widgets;

use vstd::prelude::*;

verus! {

/// `a - b`, or zero when `b` is larger: what `saturating_sub` gives.
pub open spec fn sat_sub(a: int, b: int) -> int {
    if a > b {
        a - b
    } else {
        0
    }
}

pub open spec fn min(a: int, b: int) -> int {
    if a < b {
        a
    } else {
        b
    }
}

pub open spec fn max(a: int, b: int) -> int {
    if a < b {
        b
    } else {
        a
    }
}

/// `a * b` as a `u16`, stopping at its largest value.
pub open spec fn sat_mul16(a: int, b: int) -> u16 {
    if a * b > u16::MAX {
        u16::MAX
    } else {
        (a * b) as u16
    }
}

pub open spec fn sat_add16(a: int, b: int) -> u16 {
    if a + b > u16::MAX {
        u16::MAX
    } else {
        (a + b) as u16
    }
}

/// `a * b`, stopping at the largest `u16`: what `saturating_mul` gives.
pub fn mul_sat(a: u16, b: u16) -> (r: u16)
    ensures
        r == sat_mul16(a as int, b as int),
{
    assert((a as int) * (b as int) <= 65535 * 65535) by (nonlinear_arith)
        requires
            a <= 65535,
            b <= 65535,
            0 <= a,
            0 <= b,
    ;
    let wide: u32 = (a as u32) * (b as u32);
    if wide > 65535 {
        65535
    } else {
        wide as u16
    }
}

/// How often a view comes back to draw while a pane is still being filled,
/// in milliseconds.
pub const FRAME_MS: u64 = 50;

/// How long a view waits for a key before it draws again, in milliseconds:
/// while rows are still arriving, a frame, or less when a note is due to go
/// sooner; while only a note is up, until it is due; with neither, `None`,
/// blocking on the key and leaving the CPU alone.
pub fn poll_wait(filling: bool, note_left: Option<u64>) -> (w: Option<u64>)
    ensures
        w == match (filling, note_left) {
            (true, Some(left)) => Some(min(left as int, FRAME_MS as int) as u64),
            (true, None) => Some(FRAME_MS),
            (false, left) => left,
        },
{
    match (filling, note_left) {
        (true, Some(left)) => Some(if left < FRAME_MS {
            left
        } else {
            FRAME_MS
        }),
        (true, None) => Some(FRAME_MS),
        (false, left) => left,
    }
}

/// What is left of a note's time in the footer, in milliseconds, at `now`
/// when it went up at `shown_at`; nothing once it is due.
pub fn note_left(shown_at: u64, now: u64) -> (r: u64)
    ensures
        r == sat_sub(crate::tui::widgets::NOTE_MS as int, sat_sub(now as int, shown_at as int)),
{
    crate::tui::widgets::NOTE_MS.saturating_sub(now.saturating_sub(shown_at))
}

/// The furthest a scroll offset may go: the last of `total` lines, counted up
/// to what a `u16` holds, at the bottom of a viewport `viewport` rows tall.
pub open spec fn scroll_limit(total: int, viewport: int) -> int {
    sat_sub(min(total, u16::MAX as int), viewport)
}

/// Inner width of a pane on a screen `screen` columns wide, taken as 120 when
/// the terminal could not say.
pub fn pane_width(screen: Option<u16>) -> (w: u16)
    ensures
        w == match screen {
            Some(s) => sat_sub(s as int, 2),
            None => 120,
        },
{
    match screen {
        Some(s) => s.saturating_sub(2),
        None => 120,
    }
}

/// Inner height of the lower (~60%) pane - the diff viewport, in rows - on a
/// screen `screen` rows tall; 20 when the terminal could not say.
pub fn pane_height(screen: Option<u16>) -> (h: u16)
    ensures
        h == match screen {
            Some(s) => max(sat_sub(s * 6 / 10, 2), 1),
            None => 20,
        },
{
    match screen {
        Some(s) => {
            let six: u32 = (s as u32) * 6 / 10;
            let inner = if six > 2 {
                six - 2
            } else {
                0
            };
            if inner < 1 {
                1
            } else {
                inner as u16
            }
        },
        None => 20,
    }
}

/// Inner height of the upper (~40%) pane - the list a level's plain keys
/// drive, and what PageUp/PageDown move it by; 14 when the terminal could not
/// say.
pub fn upper_pane_height(screen: Option<u16>) -> (h: u16)
    ensures
        h == match screen {
            Some(s) => max(sat_sub(s * 4 / 10, 2), 1),
            None => 14,
        },
{
    match screen {
        Some(s) => {
            let four: u32 = (s as u32) * 4 / 10;
            let inner = if four > 2 {
                four - 2
            } else {
                0
            };
            if inner < 1 {
                1
            } else {
                inner as u16
            }
        },
        None => 14,
    }
}

/// Half the height of the lower pane, for vim Ctrl-d/Ctrl-u, never less than
/// one row.
pub fn half_page(screen: Option<u16>) -> (h: u16)
    ensures
        h == max(pane_height_of(screen) / 2, 1),
{
    let p = pane_height(screen);
    if p / 2 < 1 {
        1
    } else {
        p / 2
    }
}

pub open spec fn pane_height_of(screen: Option<u16>) -> int {
    match screen {
        Some(s) => max(sat_sub(s * 6 / 10, 2), 1),
        None => 20,
    }
}

/// Clamp a scroll offset so the last line can't scroll above the viewport -
/// stops you from scrolling off the bottom into empty space.
pub fn clamp_scroll(scroll: u16, total_lines: usize, viewport: u16) -> (r: u16)
    ensures
        r == min(scroll as int, scroll_limit(total_lines as int, viewport as int)),
{
    let capped: u16 = if total_lines < 65535 {
        total_lines as u16
    } else {
        65535
    };
    let max = capped.saturating_sub(viewport);
    if scroll < max {
        scroll
    } else {
        max
    }
}

/// Clamp horizontal scroll so you can't pan past the longest line. `cell_w` is
/// roughly one side's visible width.
pub fn clamp_hscroll(hscroll: u16, max_line: usize, cell_w: u16) -> (r: u16)
    ensures
        r == min(hscroll as int, scroll_limit(max_line as int, cell_w as int)),
{
    let capped: u16 = if max_line < 65535 {
        max_line as u16
    } else {
        65535
    };
    let max = capped.saturating_sub(cell_w);
    if hscroll < max {
        hscroll
    } else {
        max
    }
}

/// A clamped offset is already in range: clamping it again changes nothing,
/// and it never moves the view further down than it was.
pub proof fn lemma_clamp_settles(scroll: int, total: int, viewport: int)
    ensures
        min(min(scroll, scroll_limit(total, viewport)), scroll_limit(total, viewport)) == min(
            scroll,
            scroll_limit(total, viewport),
        ),
        min(scroll, scroll_limit(total, viewport)) <= scroll,
        total <= viewport && 0 <= scroll ==> min(scroll, scroll_limit(total, viewport)) == 0,
{
}

} // verus!
