//! The timer that paces the display.
//!
//! One TIMER peripheral gives the display both of its events: compare
//! channel 0 ends the primary cycle (and clears the counter, so that the
//! cycle repeats), compare channel 1 is the secondary alarm within the
//! cycle. [`MicrobitDisplayTimer`] keeps an image of the registers that
//! the driver programs; the owner of the peripheral copies the event
//! registers in and the programmed registers out.
use vstd::prelude::*;
use crate::gpio::Revision;

verus! {

/// The width that the counter is set to.
pub const COUNTER_BITS: u32 = 16;

/// The registers of a TIMER peripheral that the display uses.
#[derive(Clone, Copy, Debug, PartialEq, Eq, Structural)]
pub struct TimerRegisters {
    /// Whether the counter runs (`TASKS_START`, `TASKS_STOP`).
    pub running: bool,
    /// The counter (`TASKS_CLEAR` sets it to zero).
    pub counter: u32,
    /// `BITMODE`, as the counter's width in bits.
    pub bitmode: u32,
    /// `PRESCALER`: the counter runs at 16 MHz / 2^prescaler.
    pub prescaler: u32,
    /// `CC[0]`: the length of the primary cycle, in ticks.
    pub cc0: u32,
    /// `CC[1]`: the tick of the secondary alarm.
    pub cc1: u32,
    /// `SHORTS.COMPARE0_CLEAR`: a match of channel 0 clears the counter.
    pub compare0_clear: bool,
    /// `INTEN.COMPARE0`: a match of channel 0 raises the interrupt.
    pub inten_compare0: bool,
    /// `INTEN.COMPARE1`: a match of channel 1 raises the interrupt.
    pub inten_compare1: bool,
    /// `EVENTS_COMPARE[0]`: not zero once channel 0 has matched.
    pub events_compare0: u32,
    /// `EVENTS_COMPARE[1]`: not zero once channel 1 has matched.
    pub events_compare1: u32,
}

impl TimerRegisters {
    /// The registers after a system reset.
    pub open spec fn reset() -> TimerRegisters {
        TimerRegisters {
            running: false,
            counter: 0,
            bitmode: COUNTER_BITS,
            prescaler: 4,
            cc0: 0,
            cc1: 0,
            compare0_clear: false,
            inten_compare0: false,
            inten_compare1: false,
            events_compare0: 0,
            events_compare1: 0,
        }
    }

    /// The registers once the primary cycle has been started: the counter
    /// restarts from zero in 16-bit mode at the given prescaler, channel 0
    /// holds the cycle length, clears the counter on a match and raises the
    /// interrupt. Channel 1 and the event registers are as before.
    pub open spec fn cycle_started(self, prescaler: u32, ticks: u16) -> TimerRegisters {
        TimerRegisters {
            running: true,
            counter: 0,
            bitmode: COUNTER_BITS,
            prescaler,
            cc0: ticks as u32,
            compare0_clear: true,
            inten_compare0: true,
            ..self
        }
    }

    /// The registers one tick of the timer's clock later, as the peripheral
    /// counts: a running counter goes up by one within its 16 bits, a
    /// channel whose value it reaches signals its event, and the match of
    /// channel 0 clears the counter where the shortcut is on.
    pub open spec fn ticked(self) -> TimerRegisters {
        if !self.running {
            self
        } else {
            let counter: u32 = if self.counter >= 0xffff {
                0
            } else {
                (self.counter + 1) as u32
            };
            TimerRegisters {
                counter: if counter == self.cc0 && self.compare0_clear {
                    0
                } else {
                    counter
                },
                events_compare0: if counter == self.cc0 {
                    1
                } else {
                    self.events_compare0
                },
                events_compare1: if counter == self.cc1 {
                    1
                } else {
                    self.events_compare1
                },
                ..self
            }
        }
    }

    /// The registers `n` ticks of the timer's clock later, if nothing is
    /// written to them meanwhile.
    pub open spec fn ticked_by(self, n: nat) -> TimerRegisters
        decreases n,
    {
        if n == 0 {
            self
        } else {
            self.ticked_by((n - 1) as nat).ticked()
        }
    }

    /// Whether the interrupt line of the timer is raised.
    pub open spec fn interrupt_pending(self) -> bool {
        (self.inten_compare0 && self.events_compare0 != 0) || (self.inten_compare1
            && self.events_compare1 != 0)
    }
}

/// The prescaler that gives the board its display tick.
pub open spec fn display_prescaler(board: Revision) -> u32 {
    match board {
        Revision::V1 => 8,
        Revision::V2 => 7,
    }
}

/// A TIMER peripheral programmed to pace the display.
///
/// Channel 0 is the primary cycle, channel 1 the secondary alarm. On the
/// first revision a tick is 16 µs and the primary cycle takes 6 ms; on the
/// second a tick is 8 µs and the cycle takes 3 ms.
pub struct MicrobitDisplayTimer<T> {
    timer: T,
    board: Revision,
    registers: TimerRegisters,
}

impl<T> View for MicrobitDisplayTimer<T> {
    type V = TimerRegisters;

    closed spec fn view(&self) -> TimerRegisters {
        self.registers
    }
}

impl<T> MicrobitDisplayTimer<T> {
    /// The peripheral that was handed in.
    pub closed spec fn peripheral(&self) -> T {
        self.timer
    }

    /// The board that the timer paces.
    pub closed spec fn revision(&self) -> Revision {
        self.board
    }

    /// Whether only the registers differ between `self` and `other`.
    pub open spec fn same_device(&self, other: &Self) -> bool {
        self.peripheral() == other.peripheral() && self.revision() == other.revision()
    }

    /// Returns a new `MicrobitDisplayTimer` that takes ownership of the
    /// TIMER peripheral, with the registers as they are after a system
    /// reset.
    pub fn new(timer: T, board: Revision) -> (this: MicrobitDisplayTimer<T>)
        ensures
            this.peripheral() == timer,
            this.revision() == board,
            this@ == TimerRegisters::reset(),
    {
        MicrobitDisplayTimer {
            timer,
            board,
            registers: TimerRegisters {
                running: false,
                counter: 0,
                bitmode: COUNTER_BITS,
                prescaler: 4,
                cc0: 0,
                cc1: 0,
                compare0_clear: false,
                inten_compare0: false,
                inten_compare1: false,
                events_compare0: 0,
                events_compare1: 0,
            },
        }
    }

    /// Gives the underlying TIMER peripheral back.
    pub fn free(self) -> (timer: T)
        ensures
            timer == self.peripheral(),
    {
        self.timer
    }

    /// The TIMER peripheral that the image stands for.
    pub fn device(&self) -> (timer: &T)
        ensures
            *timer == self.peripheral(),
    {
        &self.timer
    }

    /// The image of the registers.
    pub fn registers(&self) -> (registers: TimerRegisters)
        ensures
            registers == self@,
    {
        self.registers
    }

    /// Takes over what the peripheral's two event registers hold.
    pub fn load_events(&mut self, events_compare0: u32, events_compare1: u32)
        ensures
            final(self).same_device(old(self)),
            final(self)@ == (TimerRegisters { events_compare0, events_compare1, ..old(self)@ }),
    {
        self.registers.events_compare0 = events_compare0;
        self.registers.events_compare1 = events_compare1;
    }

    /// Lets one tick of the timer's clock pass on the image, as it would on
    /// the peripheral. This is for running the display against the image
    /// alone, without a device.
    pub fn tick(&mut self)
        ensures
            final(self).same_device(old(self)),
            final(self)@ == old(self)@.ticked(),
    {
        if self.registers.running {
            let counter: u32 = if self.registers.counter >= 0xffff {
                0
            } else {
                self.registers.counter + 1
            };
            self.registers.counter = counter;
            if counter == self.registers.cc1 {
                self.registers.events_compare1 = 1;
            }
            if counter == self.registers.cc0 {
                self.registers.events_compare0 = 1;
                if self.registers.compare0_clear {
                    self.registers.counter = 0;
                }
            }
        }
    }

    /// Says whether the timer's interrupt line is raised: an event is
    /// signalled whose interrupt is enabled.
    pub fn interrupt_pending(&self) -> (pending: bool)
        ensures
            pending == self@.interrupt_pending(),
    {
        (self.registers.inten_compare0 && self.registers.events_compare0 != 0) || (
        self.registers.inten_compare1 && self.registers.events_compare1 != 0)
    }

    /// Starts the primary cycle of `ticks` ticks.
    pub fn initialise_cycle(&mut self, ticks: u16)
        ensures
            final(self).same_device(old(self)),
            final(self)@ == old(self)@.cycle_started(
                display_prescaler(old(self).revision()),
                ticks,
            ),
    {
        // stop and reset the timer
        self.registers.running = false;
        self.registers.counter = 0;
        // 16 bits wide
        self.registers.bitmode = COUNTER_BITS;
        // 62500 Hz on the first revision, twice that on the second
        self.registers.prescaler = match self.board {
            Revision::V1 => 8,
            Revision::V2 => 7,
        };
        self.registers.cc0 = ticks as u32;
        self.registers.compare0_clear = true;
        self.registers.inten_compare0 = true;
        self.registers.running = true;
    }

    /// Enables the interrupt of the secondary alarm.
    pub fn enable_secondary(&mut self)
        ensures
            final(self).same_device(old(self)),
            final(self)@ == (TimerRegisters { inten_compare1: true, ..old(self)@ }),
    {
        self.registers.inten_compare1 = true;
    }

    /// Disables the interrupt of the secondary alarm.
    pub fn disable_secondary(&mut self)
        ensures
            final(self).same_device(old(self)),
            final(self)@ == (TimerRegisters { inten_compare1: false, ..old(self)@ }),
    {
        self.registers.inten_compare1 = false;
    }

    /// Sets the tick of the primary cycle at which the secondary alarm
    /// fires.
    pub fn program_secondary(&mut self, ticks: u16)
        ensures
            final(self).same_device(old(self)),
            final(self)@ == (TimerRegisters { cc1: ticks as u32, ..old(self)@ }),
    {
        self.registers.cc1 = ticks as u32;
    }

    /// Says whether a new primary cycle has begun since the last call, and
    /// clears the event.
    pub fn check_primary(&mut self) -> (fired: bool)
        ensures
            fired == (old(self)@.events_compare0 != 0),
            final(self).same_device(old(self)),
            final(self)@ == (TimerRegisters { events_compare0: 0, ..old(self)@ }),
    {
        let fired = self.registers.events_compare0 != 0;
        if fired {
            self.registers.events_compare0 = 0;
        }
        fired
    }

    /// Says whether the secondary alarm has fired since the last call, and
    /// clears the event.
    pub fn check_secondary(&mut self) -> (fired: bool)
        ensures
            fired == (old(self)@.events_compare1 != 0),
            final(self).same_device(old(self)),
            final(self)@ == (TimerRegisters { events_compare1: 0, ..old(self)@ }),
    {
        let fired = self.registers.events_compare1 != 0;
        if fired {
            self.registers.events_compare1 = 0;
        }
        fired
    }
}

/// `MicrobitDisplayTimer` is a display timer in the sense of
/// `tiny-led-matrix`.
impl<T> tiny_led_matrix::DisplayTimer for MicrobitDisplayTimer<T> {
    fn initialise_cycle(&mut self, ticks: u16)
        ensures
            final(self).same_device(old(self)),
            final(self)@ == old(self)@.cycle_started(
                display_prescaler(old(self).revision()),
                ticks,
            ),
    {
        MicrobitDisplayTimer::initialise_cycle(self, ticks)
    }

    fn enable_secondary(&mut self)
        ensures
            final(self).same_device(old(self)),
            final(self)@ == (TimerRegisters { inten_compare1: true, ..old(self)@ }),
    {
        MicrobitDisplayTimer::enable_secondary(self)
    }

    fn disable_secondary(&mut self)
        ensures
            final(self).same_device(old(self)),
            final(self)@ == (TimerRegisters { inten_compare1: false, ..old(self)@ }),
    {
        MicrobitDisplayTimer::disable_secondary(self)
    }

    fn program_secondary(&mut self, ticks: u16)
        ensures
            final(self).same_device(old(self)),
            final(self)@ == (TimerRegisters { cc1: ticks as u32, ..old(self)@ }),
    {
        MicrobitDisplayTimer::program_secondary(self, ticks)
    }

    fn check_primary(&mut self) -> (fired: bool)
        ensures
            fired == (old(self)@.events_compare0 != 0),
            final(self).same_device(old(self)),
            final(self)@ == (TimerRegisters { events_compare0: 0, ..old(self)@ }),
    {
        MicrobitDisplayTimer::check_primary(self)
    }

    fn check_secondary(&mut self) -> (fired: bool)
        ensures
            fired == (old(self)@.events_compare1 != 0),
            final(self).same_device(old(self)),
            final(self)@ == (TimerRegisters { events_compare1: 0, ..old(self)@ }),
    {
        MicrobitDisplayTimer::check_secondary(self)
    }
}

/// The primary cycle: a timer that runs from zero with the shortcut of
/// channel 0 on signals the primary event once in every `cc0` ticks, at the
/// end of the cycle, when the counter starts again from zero; within the
/// cycle it signals the event of channel 1 once, at tick `cc1`, if that
/// tick lies in the cycle at all. No other register changes.
pub proof fn lemma_primary_cycle(timer: TimerRegisters, n: nat)
    requires
        timer.running,
        timer.compare0_clear,
        timer.counter == 0,
        0 < timer.cc0 <= 0xffff,
        n <= timer.cc0,
    ensures
        timer.ticked_by(n) == (TimerRegisters {
            counter: if n == timer.cc0 {
                0
            } else {
                n as u32
            },
            events_compare0: if n == timer.cc0 {
                1
            } else {
                timer.events_compare0
            },
            events_compare1: if 1 <= timer.cc1 <= n {
                1
            } else {
                timer.events_compare1
            },
            ..timer
        }),
    decreases n,
{
    if n > 0 {
        lemma_primary_cycle(timer, (n - 1) as nat);
    }
}

} // verus!
