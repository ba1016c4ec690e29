//! Control of the LED matrix through the GPIO ports.
//!
//! [`MicrobitGpio`] keeps an image of the ports' direction and output
//! registers and the list of register writes of its last operation, in the
//! order in which they have to reach the hardware. The list has a fixed
//! capacity, so that no operation allocates.
use vstd::prelude::*;
use crate::bits::has_bit;
use crate::gpio::Revision;
use crate::display::nonblocking::pins::{col_pins, col_mask, row_pins, p0_col_pins, p1_col_pins,
    pins_in_port, lemma_pinout, p0_rows};
use crate::display::nonblocking::ports::{display_row_writes, column_writes, output_writes,
    initialise_writes, lemma_after_two, lemma_after_four, lemma_after_push, lemma_after_concat,
    lemma_display_row_leds, lemma_column_writes, lemma_initialise_writes};

pub use crate::display::nonblocking::pins::{Port, pin_bits, column_pins, split_cols, p0_cols,
    p1_cols};
pub use crate::display::nonblocking::ports::{PortWrite, PortImage, Ports};

verus! {

/// What a [`MicrobitGpio`] stands for.
pub struct GpioState {
    /// The board whose pins are driven.
    pub board: Revision,
    /// The ports' registers.
    pub ports: Ports,
    /// The register writes of the last operation, first to last.
    pub writes: Seq<PortWrite>,
}

/// The largest number of register writes that one operation makes.
pub const MAX_WRITES: usize = 16;

/// The GPIO side of the display: an image of the ports' registers, and the
/// register writes of the last operation in the order in which they have to
/// reach the hardware.
pub struct MicrobitGpio {
    board: Revision,
    ports: Ports,
    // the writes of the last operation are the first `count` entries
    log: [PortWrite; 16],
    count: usize,
}

impl View for MicrobitGpio {
    type V = GpioState;

    closed spec fn view(&self) -> GpioState {
        GpioState {
            board: self.board,
            ports: self.ports,
            writes: self.log@.take(
                if self.count <= MAX_WRITES {
                    self.count as int
                } else {
                    MAX_WRITES as int
                },
            ),
        }
    }
}

/// Whether `post` is `pre` after an operation that made the register writes
/// `writes`, in that order, and no others.
pub open spec fn performed(pre: GpioState, post: GpioState, writes: Seq<PortWrite>) -> bool {
    &&& post.board == pre.board
    &&& post.writes == writes
    &&& post.ports == pre.ports.after_all(writes)
}

impl MicrobitGpio {
    /// The ports of a board after a system reset, with no write made: every
    /// pin is an input, every output level is low.
    pub open spec fn reset_state(board: Revision) -> GpioState {
        GpioState {
            board,
            ports: Ports { p0: PortImage { dir: 0, out: 0 }, p1: PortImage { dir: 0, out: 0 } },
            writes: Seq::empty(),
        }
    }

    /// The GPIO side of the display of the given board, with the ports as
    /// they are after a system reset.
    pub fn new(board: Revision) -> (gpio: MicrobitGpio)
        ensures
            gpio@ == MicrobitGpio::reset_state(board),
    {
        let gpio = MicrobitGpio {
            board,
            ports: Ports { p0: PortImage { dir: 0, out: 0 }, p1: PortImage { dir: 0, out: 0 } },
            log: [PortWrite::Low { port: Port::Port0, bits: 0 };16],
            count: 0,
        };
        assert(gpio@.writes =~= Seq::empty());
        gpio
    }

    /// The board whose pins are driven.
    pub fn board(&self) -> (board: Revision)
        ensures
            board == self@.board,
    {
        self.board
    }

    /// The image of the ports' registers.
    pub fn ports(&self) -> (ports: Ports)
        ensures
            ports == self@.ports,
    {
        self.ports
    }

    /// The register writes of the last operation, in the order in which
    /// they have to reach the hardware.
    pub fn writes(&self) -> (writes: &[PortWrite])
        ensures
            writes@ == self@.writes,
    {
        let count = if self.count <= MAX_WRITES {
            self.count
        } else {
            MAX_WRITES
        };
        vstd::slice::slice_subrange(&self.log, 0, count)
    }

    /// Makes no register write: the list of writes is empty afterwards.
    pub fn rest(&mut self)
        ensures
            performed(old(self)@, final(self)@, Seq::empty()),
    {
        self.count = 0;
        assert(self@.writes =~= Seq::empty());
    }

    /// The number of writes that the list holds.
    closed spec fn noted(&self) -> int {
        self.count as int
    }

    /// Empties the list of writes.
    fn begin(&mut self)
        ensures
            final(self)@.board == old(self)@.board,
            final(self)@.ports == old(self)@.ports,
            final(self)@.writes == Seq::<PortWrite>::empty(),
            final(self).noted() == 0,
    {
        self.count = 0;
        assert(self@.writes =~= Seq::empty());
    }

    /// Performs one register write on the image and notes it.
    fn emit(&mut self, write: PortWrite)
        requires
            write matches PortWrite::Output { port, pin } ==> pin < 32,
            old(self).noted() < MAX_WRITES,
        ensures
            final(self)@.board == old(self)@.board,
            final(self)@.ports == old(self)@.ports.after(write),
            final(self)@.writes == old(self)@.writes.push(write),
            final(self).noted() == old(self).noted() + 1,
    {
        match write {
            PortWrite::Output { port, pin } => {
                match port {
                    Port::Port0 => {
                        self.ports.p0.dir |= 1u32 << (pin as u32);
                    },
                    Port::Port1 => {
                        self.ports.p1.dir |= 1u32 << (pin as u32);
                    },
                }
            },
            PortWrite::High { port, bits } => {
                match port {
                    Port::Port0 => {
                        self.ports.p0.out |= bits;
                    },
                    Port::Port1 => {
                        self.ports.p1.out |= bits;
                    },
                }
            },
            PortWrite::Low { port, bits } => {
                match port {
                    Port::Port0 => {
                        self.ports.p0.out &= !bits;
                    },
                    Port::Port1 => {
                        self.ports.p1.out &= !bits;
                    },
                }
            },
        }
        self.log[self.count] = write;
        self.count += 1;
        assert(self@.writes =~= old(self)@.writes.push(write));
    }

    /// Makes each of `pins` an output of `port`.
    fn make_outputs(&mut self, port: Port, pins: &[usize])
        requires
            pins_in_port(pins@),
            old(self).noted() + pins.len() <= MAX_WRITES,
        ensures
            final(self)@.board == old(self)@.board,
            final(self)@.ports == old(self)@.ports.after_all(output_writes(port, pins@)),
            final(self)@.writes == old(self)@.writes + output_writes(port, pins@),
            final(self).noted() == old(self).noted() + pins.len(),
    {
        let ghost start = self@;
        let ghost noted = self.noted();
        let mut i: usize = 0;
        while i < pins.len()
            invariant
                i <= pins.len(),
                pins_in_port(pins@),
                noted + pins.len() <= MAX_WRITES,
                self.noted() == noted + i,
                self@.board == start.board,
                self@.ports == start.ports.after_all(output_writes(port, pins@.take(i as int))),
                self@.writes == start.writes + output_writes(port, pins@.take(i as int)),
            decreases pins.len() - i,
        {
            proof {
                let done = output_writes(port, pins@.take(i as int));
                let write = PortWrite::Output { port, pin: pins[i as int] };
                assert(output_writes(port, pins@.take(i + 1)) == done.push(write));
                lemma_after_push(start.ports, done, write);
                assert((start.writes + done).push(write) == start.writes + done.push(write));
            }
            self.emit(PortWrite::Output { port, pin: pins[i] });
            i += 1;
        }
        assert(pins@.take(i as int) == pins@);
    }
}

impl MicrobitGpio {
    /// Prepares the ports for the display: configures every row and column
    /// pin as an output and drives every column pin high, so that no LED is
    /// lit.
    pub fn initialise_for_display(&mut self)
        ensures
            performed(old(self)@, final(self)@, initialise_writes(old(self)@.board)),
            forall|port: Port, p: u32|
                p < 32 ==> (#[trigger] has_bit(final(self)@.ports.image(port).dir, p) <==> has_bit(
                    old(self)@.ports.image(port).dir,
                    p,
                ) || Ports::is_display_pin(old(self)@.board, port, p as usize)),
            forall|port: Port, p: u32|
                p < 32 ==> (#[trigger] has_bit(final(self)@.ports.image(port).out, p) <==> has_bit(
                    old(self)@.ports.image(port).out,
                    p,
                ) || col_pins(old(self)@.board, port).contains(p as usize)),
            forall|r: int, c: int|
                0 <= r < old(self)@.board.rows() && 0 <= c < old(self)@.board.cols()
                    ==> !#[trigger] final(self)@.ports.led_on(old(self)@.board, r, c),
    {
        let board = self.board;
        let ghost start = self@;
        proof {
            lemma_pinout(board);
            lemma_initialise_writes(board, start.ports);
        }
        self.begin();
        self.make_outputs(Port::Port0, p0_cols(board));
        self.make_outputs(Port::Port0, p0_rows(board));
        let ghost w12 = self@.writes;
        self.emit(PortWrite::High { port: Port::Port0, bits: pin_bits(p0_cols(board)) });
        proof {
            let w1 = output_writes(Port::Port0, p0_col_pins(board));
            let w2 = output_writes(Port::Port0, row_pins(board));
            let h0 = PortWrite::High { port: Port::Port0, bits: col_mask(board, Port::Port0) };
            assert(w12 == w1 + w2);
            lemma_after_concat(start.ports, w1, w2);
            lemma_after_push(start.ports, w12, h0);
            assert(w12.push(h0) == w1 + w2 + seq![h0]);
        }
        match board {
            Revision::V1 => {
                assert(self@.writes == initialise_writes(board));
                assert(self@.ports == start.ports.after_all(initialise_writes(board)));
            },
            Revision::V2 => {
                let ghost w123 = self@.writes;
                self.make_outputs(Port::Port1, p1_cols(board));
                let ghost w1234 = self@.writes;
                self.emit(PortWrite::High { port: Port::Port1, bits: pin_bits(p1_cols(board)) });
                proof {
                    let w3 = output_writes(Port::Port1, p1_col_pins(board));
                    let h1 = PortWrite::High { port: Port::Port1, bits: col_mask(board, Port::Port1) };
                    lemma_after_concat(start.ports, w123, w3);
                    lemma_after_push(start.ports, w1234, h1);
                    assert(w1234.push(h1) == w123 + w3 + seq![h1]);
                    assert(self@.writes == initialise_writes(board));
                    assert(self@.ports == start.ports.after_all(initialise_writes(board)));
                }
            },
        }
    }
}

impl MicrobitGpio {
    /// Lights exactly the LEDs `cols` of matrix row `row` (bit 0 of `cols`
    /// is column 0) and turns off the LEDs of every other row.
    ///
    /// The writes go out so that no LED is lit by accident on the way: the
    /// other rows and the columns to light go low first, the new row and the
    /// columns to turn off go high last (see [`lemma_display_row_leds`]).
    pub fn display_row_leds(&mut self, row: usize, cols: u32)
        requires
            row < old(self)@.board.rows(),
        ensures
            performed(
                old(self)@,
                final(self)@,
                display_row_writes(old(self)@.board, row as int, cols),
            ),
            final(self)@.ports.same_elsewhere(old(self)@.board, old(self)@.ports),
            forall|r: int|
                0 <= r < old(self)@.board.rows() ==> (#[trigger] final(self)@.ports.row_high(
                    old(self)@.board,
                    r,
                ) <==> r == row),
            forall|c: int|
                0 <= c < old(self)@.board.cols() ==> (#[trigger] final(self)@.ports.col_high(
                    old(self)@.board,
                    c,
                ) <==> !has_bit(cols, c as u32)),
            forall|r: int, c: int|
                0 <= r < old(self)@.board.rows() && 0 <= c < old(self)@.board.cols() ==> (
                #[trigger] final(self)@.ports.led_on(old(self)@.board, r, c) <==> r == row
                    && has_bit(cols, c as u32)),
    {
        let board = self.board;
        let ghost start = self@;
        let ghost writes = display_row_writes(board, row as int, cols);
        proof {
            lemma_pinout(board);
            lemma_display_row_leds(board, start.ports, row as int, cols, writes.len() as int);
            assert(writes.take(writes.len() as int) == writes);
        }
        let (p0cols, p1cols) = split_cols(board, cols);
        let rows = p0_rows(board);
        // To light an LED, its row goes high and its column goes low.
        let rows_to_set = 1u32 << (rows[row] as u32);
        let rows_to_clear = pin_bits(rows) ^ rows_to_set;
        let p0_clear = column_pins(p0cols, p0_cols(board));
        let p0_set = pin_bits(p0_cols(board)) ^ p0_clear;
        self.begin();
        self.emit(PortWrite::Low { port: Port::Port0, bits: rows_to_clear | p0_clear });
        let ghost w1 = PortWrite::Low { port: Port::Port0, bits: rows_to_clear | p0_clear };
        let ghost w4 = PortWrite::High { port: Port::Port0, bits: rows_to_set | p0_set };
        match board {
            Revision::V1 => {
                self.emit(PortWrite::High { port: Port::Port0, bits: rows_to_set | p0_set });
                proof {
                    lemma_after_two(start.ports, w1, w4);
                    assert(self@.writes == writes);
                }
            },
            Revision::V2 => {
                let p1_clear = column_pins(p1cols, p1_cols(board));
                let p1_set = pin_bits(p1_cols(board)) ^ p1_clear;
                self.emit(PortWrite::High { port: Port::Port1, bits: p1_set });
                self.emit(PortWrite::Low { port: Port::Port1, bits: p1_clear });
                self.emit(PortWrite::High { port: Port::Port0, bits: rows_to_set | p0_set });
                proof {
                    let w2 = PortWrite::High { port: Port::Port1, bits: p1_set };
                    let w3 = PortWrite::Low { port: Port::Port1, bits: p1_clear };
                    lemma_after_four(start.ports, w1, w2, w3, w4);
                    assert(self@.writes == writes);
                }
            },
        }
    }

    /// Lights the LEDs `cols` of the current row in addition to those that
    /// are lit, and leaves the rows as they are.
    pub fn light_current_row_leds(&mut self, cols: u32)
        ensures
            performed(old(self)@, final(self)@, column_writes(old(self)@.board, cols, true)),
            final(self)@.ports.same_elsewhere(old(self)@.board, old(self)@.ports),
            forall|r: int|
                0 <= r < old(self)@.board.rows() ==> #[trigger] final(self)@.ports.row_high(
                    old(self)@.board,
                    r,
                ) == old(self)@.ports.row_high(old(self)@.board, r),
            forall|c: int|
                0 <= c < old(self)@.board.cols() ==> #[trigger] final(self)@.ports.col_high(
                    old(self)@.board,
                    c,
                ) == (old(self)@.ports.col_high(old(self)@.board, c) && !has_bit(cols, c as u32)),
    {
        self.write_columns(cols, true);
    }

    /// Turns off the LEDs `cols` of the current row, and leaves the other
    /// LEDs and the rows as they are.
    pub fn darken_current_row_leds(&mut self, cols: u32)
        ensures
            performed(old(self)@, final(self)@, column_writes(old(self)@.board, cols, false)),
            final(self)@.ports.same_elsewhere(old(self)@.board, old(self)@.ports),
            forall|r: int|
                0 <= r < old(self)@.board.rows() ==> #[trigger] final(self)@.ports.row_high(
                    old(self)@.board,
                    r,
                ) == old(self)@.ports.row_high(old(self)@.board, r),
            forall|c: int|
                0 <= c < old(self)@.board.cols() ==> #[trigger] final(self)@.ports.col_high(
                    old(self)@.board,
                    c,
                ) == (old(self)@.ports.col_high(old(self)@.board, c) || has_bit(cols, c as u32)),
    {
        self.write_columns(cols, false);
    }

    /// Drives the column pins of `cols` low (`light`) or high.
    fn write_columns(&mut self, cols: u32, light: bool)
        ensures
            performed(old(self)@, final(self)@, column_writes(old(self)@.board, cols, light)),
            final(self)@.ports.same_elsewhere(old(self)@.board, old(self)@.ports),
            forall|r: int|
                0 <= r < old(self)@.board.rows() ==> #[trigger] final(self)@.ports.row_high(
                    old(self)@.board,
                    r,
                ) == old(self)@.ports.row_high(old(self)@.board, r),
            forall|c: int|
                0 <= c < old(self)@.board.cols() ==> #[trigger] final(self)@.ports.col_high(
                    old(self)@.board,
                    c,
                ) == (if light {
                    old(self)@.ports.col_high(old(self)@.board, c) && !has_bit(cols, c as u32)
                } else {
                    old(self)@.ports.col_high(old(self)@.board, c) || has_bit(cols, c as u32)
                }),
    {
        let board = self.board;
        let ghost start = self@;
        proof {
            lemma_pinout(board);
            lemma_column_writes(board, start.ports, cols, light);
        }
        let (p0cols, p1cols) = split_cols(board, cols);
        let p0 = column_pins(p0cols, p0_cols(board));
        let first = if light {
            PortWrite::Low { port: Port::Port0, bits: p0 }
        } else {
            PortWrite::High { port: Port::Port0, bits: p0 }
        };
        self.begin();
        self.emit(first);
        match board {
            Revision::V1 => {
                proof {
                    lemma_after_two(start.ports, first, first);
                    assert(self@.writes == column_writes(board, cols, light));
                }
            },
            Revision::V2 => {
                let p1 = column_pins(p1cols, p1_cols(board));
                let second = if light {
                    PortWrite::Low { port: Port::Port1, bits: p1 }
                } else {
                    PortWrite::High { port: Port::Port1, bits: p1 }
                };
                self.emit(second);
                proof {
                    lemma_after_two(start.ports, first, second);
                    assert(self@.writes == column_writes(board, cols, light));
                }
            },
        }
    }
}

/// `MicrobitGpio` is a display control in the sense of `tiny-led-matrix`.
///
/// A row that the board does not have is ignored by `display_row_leds`.
impl tiny_led_matrix::DisplayControl for MicrobitGpio {
    fn initialise_for_display(&mut self)
        ensures
            performed(old(self)@, final(self)@, initialise_writes(old(self)@.board)),
    {
        MicrobitGpio::initialise_for_display(self)
    }

    fn display_row_leds(&mut self, row: usize, cols: u32)
        ensures
            row < old(self)@.board.rows() ==> performed(
                old(self)@,
                final(self)@,
                display_row_writes(old(self)@.board, row as int, cols),
            ),
            row >= old(self)@.board.rows() ==> final(self)@ == old(self)@,
    {
        if row < self.board.num_rows() {
            MicrobitGpio::display_row_leds(self, row, cols)
        }
    }

    fn light_current_row_leds(&mut self, cols: u32)
        ensures
            performed(old(self)@, final(self)@, column_writes(old(self)@.board, cols, true)),
    {
        MicrobitGpio::light_current_row_leds(self, cols)
    }
}



} // verus!
