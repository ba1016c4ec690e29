//! Non-blocking support for the 5×5 LED display.
//!
//! The display is driven from the interrupt of one timer and gives each
//! LED one of ten levels of brightness.
//!
//! # Greyscale model
//!
//! The driver lights one matrix row at a time, each for one primary cycle
//! of the timer. When a row's window begins, every LED of the row that is
//! not off is lit; an LED of brightness `b` below the maximum goes dark
//! again [`slice_end`]`(b)` ticks into the window, at a secondary alarm, and
//! an LED of the maximum brightness stays lit for the whole window. The time
//! slice for each level above 1 is approximately 1.9× the slice for the
//! previous level. Alarms are programmed only for the levels that the row
//! being shown holds.
//!
//! [`schedule`] proves that this gives each LED its time: an LED of
//! brightness `b` is lit for the first `slice_end(b)` ticks of each window
//! of its row.
//!
//! # Parts
//!
//! - [`image`]: 5×5 images, [`GreyscaleImage`] and [`BitImage`].
//! - [`matrix`]: the layout of the LED matrix and [`MicrobitFrame`], an
//!   image compiled for it.
//! - [`timer`]: the timer's registers, as the driver programs them.
//! - [`pins`], [`ports`], [`control`]: the pins of the matrix, the register
//!   writes that light it, and the GPIO side that makes them.
//!
//! # Usage
//!
//! Create a [`Display`] for the board. In the interrupt handler of the
//! timer, copy the timer's event registers in with
//! [`Display::load_events`], call [`Display::handle_display_event`], and
//! copy the registers that the driver programmed out to the device: the
//! timer's from [`Display::timer`], the ports' from [`Display::gpio`]. To
//! change what is displayed, pass an image to [`Display::show`] or a
//! prepared frame to [`Display::show_frame`].
use vstd::prelude::*;
use crate::bits::{has_bit, subset_of, lemma_bit_and, lemma_bit_not, lemma_subset_bits,
    lemma_zero_has_no_bit, lemma_some_bit};
use crate::gpio::{Revision, MAX_ROWS};
use crate::display::nonblocking::control::{MicrobitGpio, GpioState, performed};
use crate::display::nonblocking::ports::{PortWrite, initialise_writes, display_row_writes,
    column_writes, lemma_initialise_writes, lemma_column_writes, lemma_display_row_leds};
use crate::display::nonblocking::image::Render;
use crate::display::nonblocking::matrix::{MicrobitMatrix, RowPlan, position,
    lemma_blank_frames_equal, lemma_ending_is_brightness, lemma_layout};
use crate::display::nonblocking::timer::{MicrobitDisplayTimer, TimerRegisters, display_prescaler};

pub mod control;
pub mod image;
pub mod matrix;
pub mod pins;
pub mod ports;
pub mod schedule;
pub mod timer;

pub use crate::display::nonblocking::image::{BitImage, GreyscaleImage, MAX_BRIGHTNESS};
pub use crate::display::nonblocking::matrix::MicrobitFrame;

verus! {

/// The length of the primary cycle, in ticks: the window of one row.
pub const CYCLE_TICKS: u16 = 375;

/// For each brightness level from 1 to 8, the number of ticks for which an
/// LED of that brightness is lit in its row's window.
pub const GREYSCALE_TIMINGS: [u16; 8] = [2, 4, 8, 15, 28, 53, 102, 199];

/// The tick of a row's window at which the time slice of brightness level
/// `level` ends, for the levels from 1 to 8.
pub open spec fn slice_end(level: int) -> u16 {
    GREYSCALE_TIMINGS[level - 1]
}

/// A brighter level has the later end of its slice: no two levels end at
/// the same tick, and every slice ends within the primary cycle.
pub proof fn lemma_slice_ends(dim: int, bright: int)
    requires
        1 <= dim < bright <= 8,
    ensures
        0 < slice_end(dim) < slice_end(bright) < CYCLE_TICKS,
{
    let t = GREYSCALE_TIMINGS;
    assert(t[0] == 2 && t[1] == 4 && t[2] == 8 && t[3] == 15 && t[4] == 28 && t[5] == 53 && t[6]
        == 102 && t[7] == 199);
}

/// The first brightness level above `after`, up to 8, at whose end an LED
/// of `plan` goes dark; 0 if there is none.
pub open spec fn next_level(plan: RowPlan, after: int) -> int
    decreases 8 - after,
{
    if after < 0 || after >= 8 {
        0
    } else if plan.ending_at(after + 1) != 0 {
        after + 1
    } else {
        next_level(plan, after + 1)
    }
}

/// `next_level` finds the first level after `after` that ends for some
/// LED: nothing ends in between, and nothing at all if it finds none.
pub proof fn lemma_next_level(plan: RowPlan, after: int)
    requires
        0 <= after <= 8,
    ensures
        ({
            let next = next_level(plan, after);
            &&& next == 0 || after < next <= 8
            &&& next != 0 ==> plan.ending_at(next) != 0
            &&& forall|b: int|
                after < b <= 8 && (next == 0 || b < next) ==> #[trigger] plan.ending_at(b) == 0
        }),
    decreases 8 - after,
{
    if after < 8 && plan.ending_at(after + 1) == 0 {
        lemma_next_level(plan, after + 1);
    }
}

/// Where a plan is nested and nothing ends from level `low` up to below
/// `high`, the same columns are lit at both levels.
pub proof fn lemma_level_steady(plan: RowPlan, low: int, high: int)
    requires
        plan.nested(),
        1 <= low <= high <= 9,
        forall|b: int| low <= b < high ==> #[trigger] plan.ending_at(b) == 0,
    ensures
        plan.level(low) == plan.level(high),
    decreases high - low,
{
    if low < high {
        lemma_level_steady(plan, low + 1, high);
        let a = plan.level(low);
        let b = plan.level(low + 1);
        assert(plan.ending_at(low) == 0);
        assert(subset_of(plan.level(low + 1), plan.level(low)));
        assert(a == b) by (bit_vector)
            requires
                a & !b == 0,
                b & !a == 0,
        ;
    }
}

/// The timer's registers once the secondary alarm has been set for the end
/// of `level`'s slice, or switched off where `level` is 0. `enable` says
/// whether the alarm's interrupt is switched on along with it.
pub open spec fn alarm_set(timer: TimerRegisters, level: int, enable: bool) -> TimerRegisters {
    if level == 0 {
        TimerRegisters { inten_compare1: false, ..timer }
    } else {
        TimerRegisters {
            cc1: slice_end(level) as u32,
            inten_compare1: enable || timer.inten_compare1,
            ..timer
        }
    }
}

/// What a [`Display`] stands for.
pub struct DisplayState {
    /// The board.
    pub board: Revision,
    /// The matrix row that is being displayed.
    pub row: int,
    /// The brightness level whose slice the secondary alarm will end; 0 if
    /// no alarm is due in this row's window.
    pub level: int,
    /// The plan of the row that is being displayed, as it was when the
    /// row's window began.
    pub plan: RowPlan,
    /// The frame that is displayed.
    pub frame: MicrobitFrame,
    /// The timer's registers.
    pub timer: TimerRegisters,
    /// The ports' registers and the last writes to them.
    pub gpio: GpioState,
}

impl DisplayState {
    /// Whether a new primary cycle has begun.
    pub open spec fn primary_fired(self) -> bool {
        self.timer.events_compare0 != 0
    }

    /// Whether the secondary alarm has fired.
    pub open spec fn secondary_fired(self) -> bool {
        self.timer.events_compare1 != 0
    }

    /// The timer's registers once both events have been polled.
    pub open spec fn polled(self) -> TimerRegisters {
        TimerRegisters { events_compare0: 0, events_compare1: 0, ..self.timer }
    }

    /// The row after the one that is displayed: the next one, and the first
    /// after the last.
    pub open spec fn next_row(self) -> int {
        if self.row + 1 >= self.board.rows() {
            0
        } else {
            self.row + 1
        }
    }

    /// The level that the LEDs lit at this moment are lit at: the pending
    /// level or, where no alarm is due any more, the maximum.
    pub open spec fn phase(self) -> int {
        if self.level == 0 {
            9
        } else {
            self.level
        }
    }

    /// The gpio after an operation that made the register writes `writes`.
    pub open spec fn gpio_after(self, writes: Seq<PortWrite>) -> GpioState {
        GpioState { board: self.gpio.board, ports: self.gpio.ports.after_all(writes), writes }
    }

    /// The state after the events have been polled and a new primary cycle
    /// has begun: the next row is displayed with every LED lit that is not
    /// off, and the secondary alarm is set for the first level that ends in
    /// this row, or switched off.
    pub open spec fn after_row_switch(self) -> DisplayState {
        let row = self.next_row();
        let plan = self.frame.plan(row);
        let level = next_level(plan, 0);
        DisplayState {
            row,
            plan,
            level,
            timer: alarm_set(self.polled(), level, true),
            gpio: self.gpio_after(display_row_writes(self.board, row, plan.level(1))),
            ..self
        }
    }

    /// The state after the events have been polled and the secondary alarm
    /// has ended the slice of the pending level: the LEDs of that brightness
    /// are dark, and the alarm is set for the next level that ends in this
    /// row, or switched off.
    pub open spec fn after_row_update(self) -> DisplayState {
        let level = next_level(self.plan, self.level);
        DisplayState {
            level,
            timer: alarm_set(self.polled(), level, false),
            gpio: self.gpio_after(column_writes(self.board, self.plan.ending_at(self.level), false)),
            ..self
        }
    }

    /// The state after the display has handled the timer's events. A new
    /// primary cycle comes before a secondary alarm that fired along with
    /// it, and an alarm that nothing was waiting for changes nothing: no
    /// register of the ports is written then.
    pub open spec fn after_event(self) -> DisplayState {
        if self.primary_fired() {
            self.after_row_switch()
        } else if self.secondary_fired() && self.level != 0 {
            self.after_row_update()
        } else {
            DisplayState { timer: self.polled(), gpio: self.gpio_after(Seq::empty()), ..self }
        }
    }

    /// The state one tick of the timer's clock later, the events having
    /// been handled if the timer raised its interrupt at that tick.
    pub open spec fn after_tick(self) -> DisplayState {
        let ticked = DisplayState { timer: self.timer.ticked(), ..self };
        if ticked.timer.interrupt_pending() {
            ticked.after_event()
        } else {
            ticked
        }
    }

    /// The state `n` ticks later, with every interrupt handled at its tick.
    pub open spec fn after_ticks(self, n: nat) -> DisplayState
        decreases n,
    {
        if n == 0 {
            self
        } else {
            self.after_ticks((n - 1) as nat).after_tick()
        }
    }

    /// The state with the given frame to display.
    pub open spec fn with_frame(self, frame: MicrobitFrame) -> DisplayState {
        DisplayState { frame, ..self }
    }

    /// The state once the timer's event registers hold the given values.
    pub open spec fn with_events(self, events_compare0: u32, events_compare1: u32) -> DisplayState {
        DisplayState {
            timer: TimerRegisters { events_compare0, events_compare1, ..self.timer },
            ..self
        }
    }

    /// Whether exactly the LEDs are lit that the plan of the displayed row
    /// holds at the level of the moment.
    pub open spec fn lit_as_planned(self) -> bool {
        forall|r: int, c: int|
            0 <= r < self.board.rows() && 0 <= c < self.board.cols() ==> (
            #[trigger] self.gpio.ports.led_on(self.board, r, c) <==> r == self.row && has_bit(
                self.plan.level(self.phase()),
                c as u32,
            ))
    }

    /// What holds of the display between any two operations.
    pub open spec fn wf(self) -> bool {
        &&& 0 <= self.row < self.board.rows()
        &&& 0 <= self.level <= 8
        &&& self.gpio.board == self.board
        &&& self.frame.nested()
        &&& self.plan.nested()
        &&& self.timer.inten_compare1 == (self.level != 0)
        &&& self.lit_as_planned()
    }
}

/// Handling the timer's events keeps the display in order: afterwards
/// exactly the LEDs of the displayed row are lit whose brightness reaches
/// the level of the moment, and the secondary alarm is on exactly when a
/// level is pending.
pub proof fn lemma_event_keeps_wf(s: DisplayState)
    requires
        s.wf(),
    ensures
        s.after_event().wf(),
{
    let board = s.board;
    if s.primary_fired() {
        let t = s.after_row_switch();
        let cols = t.plan.level(1);
        let writes = display_row_writes(board, t.row, cols);
        lemma_next_level(t.plan, 0);
        assert(t.plan.nested()) by {
            assert(s.frame.plan(t.row).nested());
        }
        lemma_display_row_leds(board, s.gpio.ports, t.row, cols, writes.len() as int);
        assert(writes.take(writes.len() as int) == writes);
        lemma_level_steady(t.plan, 1, t.phase());
    } else if s.secondary_fired() && s.level != 0 {
        let t = s.after_row_update();
        let ending = s.plan.ending_at(s.level);
        lemma_next_level(s.plan, s.level);
        lemma_column_writes(board, s.gpio.ports, ending, false);
        lemma_level_steady(s.plan, s.level + 1, t.phase());
        let here = s.plan.level(s.level);
        let above = s.plan.level(s.level + 1);
        assert(subset_of(above, here));
        lemma_subset_bits(above, here);
        assert forall|r: int, c: int| 0 <= r < board.rows() && 0 <= c < board.cols() implies (
        #[trigger] t.gpio.ports.led_on(board, r, c) <==> r == t.row && has_bit(
            t.plan.level(t.phase()),
            c as u32,
        )) by {
            lemma_bit_and(here, !above, c as u32);
            lemma_bit_not(above, c as u32);
            assert(t.gpio.ports.row_high(board, r) == s.gpio.ports.row_high(board, r));
            assert(t.gpio.ports.col_high(board, c) == (s.gpio.ports.col_high(board, c) || has_bit(
                ending,
                c as u32,
            )));
            assert(s.gpio.ports.led_on(board, r, c) <==> r == s.row && has_bit(here, c as u32));
        }
    } else {
    }
}

/// Calls `tiny_led_matrix::initialise_control`, which makes one call of the
/// control's `initialise_for_display` and does nothing else.
#[verifier::external_body]
fn initialise_control(control: &mut MicrobitGpio)
    ensures
        performed(old(control)@, final(control)@, initialise_writes(old(control)@.board)),
{
    tiny_led_matrix::initialise_control(control)
}

/// Calls `tiny_led_matrix::initialise_timer`, which starts the timer by one
/// call of its `initialise_cycle` with that crate's cycle length, 375
/// ticks, and does nothing else.
#[verifier::external_body]
fn initialise_timer<T>(timer: &mut MicrobitDisplayTimer<T>)
    ensures
        final(timer).same_device(old(timer)),
        final(timer)@ == old(timer)@.cycle_started(display_prescaler(old(timer).revision()), 375),
{
    tiny_led_matrix::initialise_timer(timer)
}

/// Non-blocking interface to the on board 5×5 LED display.
///
/// `T` is the timer peripheral and `P` the set of display pins that the
/// display takes ownership of; it hands both back in [`Display::free`].
pub struct Display<T, P> {
    timer: MicrobitDisplayTimer<T>,
    pins: P,
    gpio: MicrobitGpio,
    matrix: MicrobitMatrix,
    frame: MicrobitFrame,
    // index of the row being displayed
    row_strobe: usize,
    // brightness level whose slice ends at the next secondary alarm
    next_brightness: u8,
    current_plan: RowPlan,
}

impl<T, P> View for Display<T, P> {
    type V = DisplayState;

    closed spec fn view(&self) -> DisplayState {
        DisplayState {
            board: self.matrix.board,
            row: self.row_strobe as int,
            level: self.next_brightness as int,
            plan: self.current_plan,
            frame: self.frame,
            timer: self.timer@,
            gpio: self.gpio@,
        }
    }
}

impl<T, P> Display<T, P> {
    /// The timer peripheral that the display owns.
    pub closed spec fn peripheral(&self) -> T {
        self.timer.peripheral()
    }

    /// The display pins that the display owns.
    pub closed spec fn display_pins(&self) -> P {
        self.pins
    }

    /// Whether the display is in order: its state is, and its parts are
    /// those of one board.
    pub closed spec fn wf(&self) -> bool {
        &&& self@.wf()
        &&& self.timer.revision() == self.matrix.board
    }

    /// A display that is in order is in a state that is in order.
    pub proof fn lemma_wf_state(&self)
        requires
            self.wf(),
        ensures
            self@.wf(),
    {
    }

    /// Whether the two displays own the same peripherals.
    pub open spec fn same_device(&self, other: &Self) -> bool {
        self.peripheral() == other.peripheral() && self.display_pins() == other.display_pins()
    }

    /// Creates the display driver for the given board and initialises the
    /// ports and the timer: every pin of the display becomes an output, no
    /// LED is lit, and the timer runs its primary cycle of `CYCLE_TICKS`
    /// ticks. The display holds a blank image and stands at row 0, the
    /// secondary alarm is off.
    pub fn new(timer: T, pins: P, board: Revision) -> (display: Display<T, P>)
        ensures
            display.wf(),
            display.peripheral() == timer,
            display.display_pins() == pins,
            display@.board == board,
            display@.row == 0,
            display@.level == 0,
            display@.frame.is_blank(),
            forall|b: int| #[trigger] display@.plan.level(b) == 0,
            display@.timer == TimerRegisters::reset().cycle_started(
                display_prescaler(board),
                CYCLE_TICKS,
            ),
            performed(MicrobitGpio::reset_state(board), display@.gpio, initialise_writes(board)),
            schedule::in_window(display@, 0),
    {
        let mut display = Display {
            timer: MicrobitDisplayTimer::new(timer, board),
            pins,
            gpio: MicrobitGpio::new(board),
            matrix: MicrobitMatrix::new(board),
            frame: MicrobitFrame::default(),
            row_strobe: 0,
            next_brightness: 0,
            current_plan: RowPlan::default(),
        };
        display.initialise();
        proof {
            lemma_initialise_writes(board, MicrobitGpio::reset_state(board).ports);
            assert forall|c: u32| c < 32 implies !#[trigger] has_bit(
                display@.plan.level(display@.phase()),
                c,
            ) by {
                lemma_zero_has_no_bit(c);
            }
            assert forall|b: int| 1 <= b <= 8 implies #[trigger] display@.plan.ending_at(b) == 0 by {
                assert(0u32 & !0u32 == 0) by (bit_vector);
            }
            lemma_steady_row(display@.plan);
            schedule::lemma_ended(0);
            lemma_slice_ends(1, 2);
        }
        display
    }

    /// Releases the timer and the pins.
    pub fn free(self) -> (parts: (T, P))
        ensures
            parts.0 == self.peripheral(),
            parts.1 == self.display_pins(),
    {
        (self.timer.free(), self.pins)
    }

    /// Initialises the ports and the timer.
    fn initialise(&mut self)
        ensures
            final(self).same_device(old(self)),
            final(self).matrix == old(self).matrix,
            final(self).timer.revision() == old(self).timer.revision(),
            final(self)@ == (DisplayState {
                timer: old(self)@.timer.cycle_started(
                    display_prescaler(old(self).timer.revision()),
                    CYCLE_TICKS,
                ),
                gpio: old(self)@.gpio_after(initialise_writes(old(self)@.gpio.board)),
                ..old(self)@
            }),
    {
        initialise_control(&mut self.gpio);
        initialise_timer(&mut self.timer);
    }
}

impl<T, P> Display<T, P> {
    /// The timer, with the registers that the driver has programmed.
    pub fn timer(&self) -> (timer: &MicrobitDisplayTimer<T>)
        ensures
            timer@ == self@.timer,
            timer.peripheral() == self.peripheral(),
    {
        &self.timer
    }

    /// The display pins that the display owns.
    pub fn pins(&self) -> (pins: &P)
        ensures
            *pins == self.display_pins(),
    {
        &self.pins
    }

    /// The GPIO side, with the ports' registers and the writes of the last
    /// operation.
    pub fn gpio(&self) -> (gpio: &MicrobitGpio)
        ensures
            gpio@ == self@.gpio,
    {
        &self.gpio
    }

    /// The matrix row that is being displayed.
    pub fn row(&self) -> (row: usize)
        ensures
            row == self@.row,
    {
        self.row_strobe
    }

    /// The brightness level whose time slice the secondary alarm will end;
    /// 0 if no alarm is due in this row's window.
    pub fn pending_level(&self) -> (level: u8)
        ensures
            level == self@.level,
    {
        self.next_brightness
    }

    /// The frame that is displayed.
    pub fn frame(&self) -> (frame: &MicrobitFrame)
        ensures
            *frame == self@.frame,
    {
        &self.frame
    }

    /// Takes over what the timer's two event registers hold.
    pub fn load_events(&mut self, events_compare0: u32, events_compare1: u32)
        requires
            old(self).wf(),
        ensures
            final(self).wf(),
            final(self).same_device(old(self)),
            final(self)@ == old(self)@.with_events(events_compare0, events_compare1),
    {
        self.timer.load_events(events_compare0, events_compare1);
    }

    /// Lets one tick of the timer's clock pass on the image of the timer,
    /// for running the display without a device.
    pub fn tick(&mut self)
        requires
            old(self).wf(),
        ensures
            final(self).wf(),
            final(self).same_device(old(self)),
            final(self)@ == (DisplayState { timer: old(self)@.timer.ticked(), ..old(self)@ }),
    {
        self.timer.tick();
    }

    /// Lets one tick of the timer's clock pass on the image of the timer and
    /// handles the timer's events if that tick raises the interrupt.
    pub fn run_tick(&mut self)
        requires
            old(self).wf(),
        ensures
            final(self).wf(),
            final(self).same_device(old(self)),
            final(self)@ == old(self)@.after_tick(),
    {
        self.tick();
        if self.timer.interrupt_pending() {
            self.handle_display_event();
        }
    }

    /// Updates the LED display and the timer for the events of the timer.
    ///
    /// Call this in the interrupt handler of the timer. It polls and clears
    /// both events. If a new primary cycle has begun, the next row is
    /// displayed; otherwise, if the secondary alarm has fired, the LEDs
    /// whose time slice has ended go dark. Either way the secondary alarm is
    /// set for the next level that ends in the row, or switched off.
    pub fn handle_display_event(&mut self)
        requires
            old(self).wf(),
        ensures
            final(self).wf(),
            final(self).same_device(old(self)),
            final(self)@ == old(self)@.after_event(),
    {
        proof {
            lemma_event_keeps_wf(self@);
        }
        let row_timer_fired = self.timer.check_primary();
        let brightness_timer_fired = self.timer.check_secondary();
        if row_timer_fired {
            self.render_row();
        } else if brightness_timer_fired && self.next_brightness != 0 {
            self.render_subrow();
        } else {
            self.gpio.rest();
        }
    }

    /// Updates the display for the start of a new primary cycle.
    fn render_row(&mut self)
        requires
            old(self)@.row < old(self)@.board.rows(),
            old(self)@.gpio.board == old(self)@.board,
        ensures
            final(self).same_device(old(self)),
            final(self).matrix == old(self).matrix,
            final(self).timer.revision() == old(self).timer.revision(),
            final(self)@ == ({
                let row = old(self)@.next_row();
                let plan = old(self)@.frame.plan(row);
                let level = next_level(plan, 0);
                DisplayState {
                    row,
                    plan,
                    level,
                    timer: alarm_set(old(self)@.timer, level, true),
                    gpio: old(self)@.gpio_after(
                        display_row_writes(old(self)@.board, row, plan.level(1)),
                    ),
                    ..old(self)@
                }
            }),
    {
        self.row_strobe += 1;
        if self.row_strobe >= self.matrix.matrix_rows() {
            self.row_strobe = 0;
        }
        let plan = *self.frame.row_plan(self.row_strobe);
        let lit_cols = plan.lit_cols(1);
        self.gpio.display_row_leds(self.row_strobe, lit_cols);
        // The plan is copied so that the rest of this row's window does not
        // change if a new frame is shown part way through.
        self.current_plan = plan;
        self.next_brightness = 0;
        self.program_next_brightness(true);
    }

    /// Updates the display for the end of the pending level's time slice.
    fn render_subrow(&mut self)
        requires
            1 <= old(self)@.level <= 8,
        ensures
            final(self).same_device(old(self)),
            final(self).matrix == old(self).matrix,
            final(self).timer.revision() == old(self).timer.revision(),
            final(self)@ == ({
                let level = next_level(old(self)@.plan, old(self)@.level);
                DisplayState {
                    level,
                    timer: alarm_set(old(self)@.timer, level, false),
                    gpio: old(self)@.gpio_after(
                        column_writes(
                            old(self)@.gpio.board,
                            old(self)@.plan.ending_at(old(self)@.level),
                            false,
                        ),
                    ),
                    ..old(self)@
                }
            }),
    {
        let ending_cols = self.current_plan.ending_cols(self.next_brightness);
        self.gpio.darken_current_row_leds(ending_cols);
        self.program_next_brightness(false);
    }

    /// Moves on to the next brightness level that ends for some LED of the
    /// current row and sets the secondary alarm for it; if there is none,
    /// switches the alarm off.
    fn program_next_brightness(&mut self, enable: bool)
        requires
            old(self)@.level <= 8,
        ensures
            final(self).same_device(old(self)),
            final(self).matrix == old(self).matrix,
            final(self).timer.revision() == old(self).timer.revision(),
            final(self)@ == (DisplayState {
                level: next_level(old(self)@.plan, old(self)@.level),
                timer: alarm_set(
                    old(self)@.timer,
                    next_level(old(self)@.plan, old(self)@.level),
                    enable,
                ),
                ..old(self)@
            }),
    {
        let ghost plan = self.current_plan;
        let ghost target = next_level(plan, self.next_brightness as int);
        let mut level: u8 = self.next_brightness;
        let mut found: u8 = 0;
        while level < 8 && found == 0
            invariant
                level <= 8,
                self.current_plan == plan,
                found == 0 ==> next_level(plan, level as int) == target,
                found != 0 ==> found == target && 1 <= found <= 8,
            decreases 8 - level + (if found == 0 { 1int } else { 0int }),
        {
            level += 1;
            if self.current_plan.ending_cols(level) != 0 {
                found = level;
            }
        }
        if found != 0 {
            self.timer.program_secondary(GREYSCALE_TIMINGS[(found - 1) as usize]);
            if enable {
                self.timer.enable_secondary();
            }
            self.next_brightness = found;
        } else {
            self.timer.disable_secondary();
            self.next_brightness = 0;
        }
    }

    /// Shows a new image.
    pub fn show<R: Render>(&mut self, image: &R)
        requires
            old(self).wf(),
        ensures
            final(self).wf(),
            final(self).same_device(old(self)),
            final(self)@.frame.shows(old(self)@.board, image),
            final(self)@ == old(self)@.with_frame(final(self)@.frame),
    {
        let mut frame = MicrobitFrame::default();
        frame.set(&self.matrix, image);
        self.set_frame(&frame);
    }

    /// Clears the display: shows a blank frame.
    pub fn clear(&mut self)
        requires
            old(self).wf(),
        ensures
            final(self).wf(),
            final(self).same_device(old(self)),
            final(self)@.frame.is_blank(),
            final(self)@ == old(self)@.with_frame(final(self)@.frame),
    {
        let frame = MicrobitFrame::default();
        self.set_frame(&frame);
    }

    /// Shows a new frame.
    ///
    /// This is like [`show`](Display::show) but takes a frame that was
    /// filled beforehand, so that only this call has to be kept from
    /// interrupting the handling of an event.
    pub fn show_frame(&mut self, frame: &MicrobitFrame)
        requires
            old(self).wf(),
            frame.nested(),
        ensures
            final(self).wf(),
            final(self).same_device(old(self)),
            final(self)@ == old(self)@.with_frame(*frame),
    {
        self.set_frame(frame);
    }

    /// Accepts a new frame to be displayed. The frame is copied; the row
    /// whose window is running is finished as it was begun.
    pub fn set_frame(&mut self, frame: &MicrobitFrame)
        requires
            old(self).wf(),
            frame.nested(),
        ensures
            final(self).wf(),
            final(self).same_device(old(self)),
            final(self)@ == old(self)@.with_frame(*frame),
    {
        self.frame = *frame;
    }
}

/// Clearing the display twice is the same as clearing it once: whichever
/// blank frames are shown one after the other, the display is in the state
/// in which the first one left it, with every LED of the frame off.
pub proof fn lemma_clear_is_idempotent(s: DisplayState, first: MicrobitFrame, second: MicrobitFrame)
    requires
        first.is_blank(),
        second.is_blank(),
    ensures
        s.with_frame(first).with_frame(second) == s.with_frame(first),
        s.with_frame(first).frame.is_blank(),
{
    lemma_blank_frames_equal(first, second);
}

/// Showing a frame twice is the same as showing it once.
pub proof fn lemma_show_is_idempotent(s: DisplayState, frame: MicrobitFrame)
    ensures
        s.with_frame(frame).with_frame(frame) == s.with_frame(frame),
{
}

/// Whether `after` may follow `before` when a new primary cycle begins:
/// the row is the one that the display switches to. Everything else, the
/// frame too, may have changed in between.
pub open spec fn row_switched(before: DisplayState, after: DisplayState) -> bool {
    &&& before.primary_fired()
    &&& after.board == before.board
    &&& after.row == before.after_event().row
}

/// Whether one of the states after the first of `trace` displays `row`.
pub open spec fn visits(trace: Seq<DisplayState>, row: int) -> bool {
    exists|i: int| 1 <= i < trace.len() && (#[trigger] trace[i]).row == row
}

/// The rows come round in a cycle: over as many primary cycles as the
/// board has rows, whatever is shown meanwhile, the display visits every
/// row exactly once and is back at the row it started from.
///
/// `trace` holds the state before each primary event and the state at the
/// end.
pub proof fn lemma_row_cycling(trace: Seq<DisplayState>)
    requires
        trace.len() == trace[0].board.rows() + 1,
        0 <= trace[0].row < trace[0].board.rows(),
        forall|i: int| 0 <= i < trace.len() - 1 ==> row_switched(#[trigger] trace[i], trace[i + 1]),
    ensures
        trace.last().row == trace[0].row,
        forall|row: int| 0 <= row < trace[0].board.rows() ==> #[trigger] visits(trace, row),
        forall|i: int, j: int|
            1 <= i < j < trace.len() ==> (#[trigger] trace[i]).row != (#[trigger] trace[j]).row,
{
    let board = trace[0].board;
    let n = board.rows() as int;
    let start = trace[0].row;
    assert forall|i: int| 0 <= i < trace.len() implies (#[trigger] trace[i]).board == board
        && trace[i].row == (if start + i >= n {
        start + i - n
    } else {
        start + i
    }) by {
        lemma_row_after(trace, i);
    }
    assert forall|row: int| 0 <= row < n implies #[trigger] visits(trace, row) by {
        let i = if row > start {
            row - start
        } else {
            row - start + n
        };
        assert(trace[i].row == row);
    }
}

/// The row of the `i`-th state of a trace of primary cycles.
proof fn lemma_row_after(trace: Seq<DisplayState>, i: int)
    requires
        trace.len() == trace[0].board.rows() + 1,
        0 <= trace[0].row < trace[0].board.rows(),
        forall|i: int| 0 <= i < trace.len() - 1 ==> row_switched(#[trigger] trace[i], trace[i + 1]),
        0 <= i < trace.len(),
    ensures
        trace[i].board == trace[0].board,
        trace[i].row == (if trace[0].row + i >= trace[0].board.rows() {
            trace[0].row + i - trace[0].board.rows()
        } else {
            trace[0].row + i
        }),
    decreases i,
{
    if i > 0 {
        lemma_row_after(trace, i - 1);
        assert(row_switched(trace[i - 1], trace[i]));
    }
}

/// In a row in which the slice of one level only ends for some LED, the
/// secondary alarm is set once in the row's window, for that level: when
/// the window begins; once it has fired, no further alarm is due.
pub proof fn lemma_single_level_row(plan: RowPlan, level: int)
    requires
        1 <= level <= 8,
        forall|b: int| 1 <= b <= 8 ==> (#[trigger] plan.ending_at(b) != 0) == (b == level),
    ensures
        next_level(plan, 0) == level,
        next_level(plan, level) == 0,
{
    lemma_next_level(plan, 0);
    lemma_next_level(plan, level);
    let first = next_level(plan, 0);
    if first == 0 || first > level {
        assert(plan.ending_at(level) == 0);
    }
}

/// In a row in which no slice ends before the window does (every LED is
/// off or at the maximum), no secondary alarm is set at all.
pub proof fn lemma_steady_row(plan: RowPlan)
    requires
        forall|b: int| 1 <= b <= 8 ==> #[trigger] plan.ending_at(b) == 0,
    ensures
        next_level(plan, 0) == 0,
{
    lemma_next_level(plan, 0);
}

/// Where one LED only has a brightness between the two ends (every other
/// LED is off or at the maximum), the secondary alarm is set once in each
/// window of that LED's row, for its brightness, and in the windows of the
/// other rows not at all.
pub proof fn lemma_one_dim_led<R: Render>(
    frame: MicrobitFrame,
    board: Revision,
    image: &R,
    x: int,
    y: int,
)
    requires
        frame.shows(board, image),
        0 <= x < 5,
        0 <= y < 5,
        1 <= image.brightness(x, y) <= 8,
        forall|u: int, v: int|
            0 <= u < 5 && 0 <= v < 5 && !(u == x && v == y) ==> #[trigger] image.brightness(u, v)
                == 0 || image.brightness(u, v) >= 9,
    ensures
        ({
            let row = position(board, x, y).1;
            let level = image.brightness(x, y) as int;
            &&& next_level(frame.plan(row), 0) == level
            &&& next_level(frame.plan(row), level) == 0
            &&& forall|other: int|
                0 <= other < MAX_ROWS && other != row ==> next_level(
                    #[trigger] frame.plan(other),
                    0,
                ) == 0
        }),
{
    lemma_layout(board);
    let (col, row) = position(board, x, y);
    let level = image.brightness(x, y) as int;
    assert forall|r: int, b: int| 0 <= r < MAX_ROWS && 1 <= b <= 8 implies (
    #[trigger] frame.plan(r).ending_at(b) != 0) == (r == row && b == level) by {
        let ending = frame.plan(r).ending_at(b);
        if ending != 0 {
            let c = lemma_some_bit(ending);
            lemma_ending_is_brightness(frame, board, image, r, b, c as int);
        }
        if r == row && b == level {
            lemma_ending_is_brightness(frame, board, image, r, b, col);
            if ending == 0 {
                lemma_zero_has_no_bit(col as u32);
            }
        }
    }
    lemma_single_level_row(frame.plan(row), level);
    assert forall|other: int| 0 <= other < MAX_ROWS && other != row implies next_level(
        #[trigger] frame.plan(other),
        0,
    ) == 0 by {
        lemma_steady_row(frame.plan(other));
    }
}

} // verus!
