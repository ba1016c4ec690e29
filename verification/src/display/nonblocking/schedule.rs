//! The time for which each LED is lit.
//!
//! With the timer counting and every interrupt handled at its tick, the
//! display passes through one window of `CYCLE_TICKS` ticks for each row in
//! turn. This module proves what the driver is for: within the window of
//! its row an LED of brightness `b` is lit from the first tick for
//! `slice_end(b)` ticks (for the whole window at the maximum, and not at
//! all at 0), and outside its row's window it is dark.
use vstd::prelude::*;
use crate::bits::{has_bit, subset_of, lemma_bit_and, lemma_bit_not, lemma_subset_bits,
    lemma_zero_has_no_bit};
use crate::display::nonblocking::{DisplayState, CYCLE_TICKS, GREYSCALE_TIMINGS, slice_end,
    next_level, lemma_next_level, lemma_slice_ends, lemma_event_keeps_wf};
use crate::display::nonblocking::image::Render;
use crate::display::nonblocking::matrix::{RowPlan, position, lit_in, lemma_layout,
    lemma_ending_is_brightness};
use crate::gpio::{IMAGE_COLS, IMAGE_ROWS};

verus! {

/// The tick of a row's window at which an LED of brightness `b` goes dark:
/// the end of its level's slice, and the end of the window for the maximum.
pub open spec fn dark_from(b: int) -> int {
    if b <= 0 {
        0
    } else if b <= 8 {
        slice_end(b) as int
    } else {
        CYCLE_TICKS as int
    }
}

/// The highest brightness level up to `top` whose slice has ended `k` ticks
/// into the window; 0 if none has.
pub open spec fn ended_up_to(k: int, top: int) -> int
    decreases top,
{
    if top <= 0 {
        0
    } else if slice_end(top) <= k {
        top
    } else {
        ended_up_to(k, top - 1)
    }
}

/// The highest brightness level whose slice has ended `k` ticks into the
/// window; 0 if none has.
pub open spec fn ended(k: int) -> int {
    ended_up_to(k, 8)
}

/// `ended(k)` is the level such that the slices up to it have ended by
/// tick `k` and those above it have not.
pub proof fn lemma_ended(k: int)
    ensures
        0 <= ended(k) <= 8,
        forall|b: int| 1 <= b <= 8 ==> (#[trigger] slice_end(b) <= k <==> b <= ended(k)),
{
    let t = GREYSCALE_TIMINGS;
    assert(t[0] == 2 && t[1] == 4 && t[2] == 8 && t[3] == 15 && t[4] == 28 && t[5] == 53 && t[6]
        == 102 && t[7] == 199);
    reveal_with_fuel(ended_up_to, 9);
}

/// Whether the display is `k` ticks into the window of its row: the timer
/// counts through its primary cycle and stands at `k`, the alarms of the
/// levels that have ended by now have been handled, and the alarm of the
/// next level that ends for some LED of the row is set.
pub open spec fn in_window(s: DisplayState, k: int) -> bool {
    &&& s.wf()
    &&& s.timer.running
    &&& s.timer.cc0 == CYCLE_TICKS
    &&& s.timer.compare0_clear
    &&& s.timer.inten_compare0
    &&& s.timer.events_compare0 == 0
    &&& 0 <= k < CYCLE_TICKS
    &&& s.timer.counter == k
    &&& s.level == next_level(s.plan, ended(k))
    &&& s.level != 0 ==> s.timer.cc1 == slice_end(s.level) && s.timer.events_compare1 == 0
}

/// Where nothing ends from above `low` up to `high`, the next level to end
/// is the same from both.
proof fn lemma_next_level_skip(plan: RowPlan, low: int, high: int)
    requires
        0 <= low <= high <= 8,
        forall|b: int| low < b <= high ==> #[trigger] plan.ending_at(b) == 0,
    ensures
        next_level(plan, low) == next_level(plan, high),
    decreases high - low,
{
    if low < high {
        assert(plan.ending_at(low + 1) == 0);
        lemma_next_level_skip(plan, low + 1, high);
    }
}

/// One tick within a window: the display stays with its row and is one
/// tick further into the window.
pub proof fn lemma_tick_in_window(s: DisplayState, k: int)
    requires
        in_window(s, k),
        k + 1 < CYCLE_TICKS,
    ensures
        in_window(s.after_tick(), k + 1),
        s.after_tick().board == s.board,
        s.after_tick().row == s.row,
        s.after_tick().plan == s.plan,
        s.after_tick().frame == s.frame,
{
    let ticked = DisplayState { timer: s.timer.ticked(), ..s };
    let e = ended(k);
    let e1 = ended(k + 1);
    lemma_ended(k);
    lemma_ended(k + 1);
    lemma_next_level(s.plan, e);
    lemma_next_level(s.plan, e1);
    assert(e <= e1) by {
        if e >= 1 {
            assert(slice_end(e) <= k);
        }
    }
    assert(ticked.wf());
    if s.level != 0 {
        assert(slice_end(s.level) > k);
        if k + 1 == s.timer.cc1 {
            lemma_event_keeps_wf(ticked);
            assert(e1 == s.level) by {
                if s.level < 8 {
                    lemma_slice_ends(s.level, s.level + 1);
                }
            }
            let t = ticked.after_event();
            lemma_next_level(s.plan, s.level);
        } else {
            assert(e1 < s.level);
            lemma_next_level_skip(s.plan, e, e1);
        }
    } else {
        assert(next_level(s.plan, e1) == 0);
    }
}

/// The tick that ends a window begins the window of the next row.
pub proof fn lemma_tick_ends_window(s: DisplayState)
    requires
        in_window(s, CYCLE_TICKS - 1),
    ensures
        in_window(s.after_tick(), 0),
        s.after_tick().board == s.board,
        s.after_tick().row == s.next_row(),
        s.after_tick().plan == s.frame.plan(s.next_row()),
        s.after_tick().frame == s.frame,
{
    let ticked = DisplayState { timer: s.timer.ticked(), ..s };
    assert(ticked.wf());
    lemma_event_keeps_wf(ticked);
    lemma_ended(0);
    lemma_slice_ends(1, 2);
    assert(slice_end(1) > 0);
    assert(ended(0) == 0);
    let t = ticked.after_event();
    assert(ticked.primary_fired());
    assert(t == ticked.after_row_switch());
    lemma_next_level(t.plan, 0);
}

/// `k` ticks into a window: the display is still with the row of the
/// window, as it was planned when the window began.
pub proof fn lemma_ticks_in_window(s: DisplayState, k: nat)
    requires
        in_window(s, 0),
        k < CYCLE_TICKS,
    ensures
        in_window(s.after_ticks(k), k as int),
        s.after_ticks(k).board == s.board,
        s.after_ticks(k).row == s.row,
        s.after_ticks(k).plan == s.plan,
        s.after_ticks(k).frame == s.frame,
    decreases k,
{
    if k > 0 {
        lemma_ticks_in_window(s, (k - 1) as nat);
        lemma_tick_in_window(s.after_ticks((k - 1) as nat), k - 1);
    }
}

/// A window takes `CYCLE_TICKS` ticks: then the window of the next row
/// begins, planned from the frame.
pub proof fn lemma_next_window(s: DisplayState)
    requires
        in_window(s, 0),
    ensures
        in_window(s.after_ticks(CYCLE_TICKS as nat), 0),
        s.after_ticks(CYCLE_TICKS as nat).board == s.board,
        s.after_ticks(CYCLE_TICKS as nat).row == s.next_row(),
        s.after_ticks(CYCLE_TICKS as nat).plan == s.frame.plan(s.next_row()),
        s.after_ticks(CYCLE_TICKS as nat).frame == s.frame,
{
    lemma_ticks_in_window(s, (CYCLE_TICKS - 1) as nat);
    lemma_tick_ends_window(s.after_ticks((CYCLE_TICKS - 1) as nat));
}

/// Which LEDs are lit `k` ticks into a window: none of another row, and of
/// the row of the window those whose time is not up. An LED that goes dark
/// with level `b` (its column is in `ending_at(b)`: its brightness is `b`)
/// is lit exactly while `k` is below `dark_from(b)`, and an LED that is
/// not lit at level 1 (its brightness is 0) is dark.
pub proof fn lemma_lit_in_window(s: DisplayState, k: int, r: int, c: int, b: int)
    requires
        in_window(s, k),
        0 <= r < s.board.rows(),
        0 <= c < s.board.cols(),
    ensures
        r != s.row ==> !s.gpio.ports.led_on(s.board, r, c),
        !has_bit(s.plan.level(1), c as u32) ==> !s.gpio.ports.led_on(s.board, r, c),
        1 <= b <= 9 && has_bit(s.plan.ending_at(b), c as u32) ==> (s.gpio.ports.led_on(
            s.board,
            s.row,
            c,
        ) <==> k < dark_from(b)),
{
    let plan = s.plan;
    let phase = s.phase();
    lemma_ended(k);
    lemma_next_level(plan, ended(k));
    assert(s.gpio.ports.led_on(s.board, r, c) <==> r == s.row && has_bit(
        plan.level(phase),
        c as u32,
    ));
    if has_bit(plan.level(phase), c as u32) {
        lemma_level_below(plan, 1, phase, c);
    }
    if 1 <= b <= 9 && has_bit(plan.ending_at(b), c as u32) {
        lemma_bit_and(plan.level(b), !plan.level(b + 1), c as u32);
        lemma_bit_not(plan.level(b + 1), c as u32);
        if b <= 8 {
            assert(plan.ending_at(b) != 0) by {
                if plan.ending_at(b) == 0 {
                    lemma_zero_has_no_bit(c as u32);
                }
            }
        }
        if phase <= b {
            lemma_level_below(plan, phase, b, c);
        } else if has_bit(plan.level(phase), c as u32) {
            lemma_level_below(plan, b + 1, phase, c);
        }
    }
}

/// In a nested plan a column that is lit at a level is lit at every level
/// below it.
proof fn lemma_level_below(plan: RowPlan, low: int, high: int, c: int)
    requires
        plan.nested(),
        1 <= low <= high <= 10,
        0 <= c < 32,
        has_bit(plan.level(high), c as u32),
    ensures
        has_bit(plan.level(low), c as u32),
    decreases high - low,
{
    if low < high {
        let below = high - 1;
        assert(subset_of(plan.level(below + 1), plan.level(below)));
        lemma_subset_bits(plan.level(high), plan.level(below));
        lemma_level_below(plan, low, high - 1, c);
    }
}

/// The time for which each LED is lit.
///
/// Let a window begin for a row that was planned from a frame that holds
/// `image`. Then `k` ticks into the window, for every tick of the window,
/// the LED at (`x`, `y`) is lit exactly if it belongs to that row and `k`
/// is below `dark_from` of its brightness: an LED of brightness `b` is lit
/// for the first `slice_end(b)` ticks of its row's window, for all of it at
/// the maximum (or above), and never at 0.
pub proof fn lemma_led_lit_time<R: Render>(s: DisplayState, image: &R, k: nat, x: int, y: int)
    requires
        in_window(s, 0),
        s.frame.shows(s.board, image),
        s.plan == s.frame.plan(s.row),
        k < CYCLE_TICKS,
        0 <= x < IMAGE_COLS,
        0 <= y < IMAGE_ROWS,
    ensures
        ({
            let (col, row) = position(s.board, x, y);
            s.after_ticks(k).gpio.ports.led_on(s.board, row, col) <==> row == s.row && k
                < dark_from(image.brightness(x, y) as int)
        }),
{
    let board = s.board;
    let (col, row) = position(board, x, y);
    let t = s.after_ticks(k);
    let v = image.brightness(x, y) as int;
    let b = if v > 9 {
        9
    } else {
        v
    };
    lemma_layout(board);
    lemma_ticks_in_window(s, k);
    lemma_lit_in_window(t, k as int, row, col, b);
    if row == s.row {
        assert(has_bit(s.frame.level(row, 1), col as u32) <==> lit_in(board, image, row, col, 1));
        if v >= 1 {
            lemma_ending_is_brightness(s.frame, board, image, row, b, col);
        }
    }
}

} // verus!
