//! The GPIO ports as the display sees them.
//!
//! A port is a direction register and an output register; a write sets or
//! clears bits of one of them. An LED is lit while its row pin is high and
//! its column pin is low. This module says which writes each operation of
//! the display makes, in which order, and proves what they do to the LEDs:
//! at the end, and on the way.
use vstd::prelude::*;
use crate::bits::{has_bit, bit, lemma_bit_or, lemma_bit_single, lemma_bit_and, lemma_bit_not,
    lemma_bit_xor};
use crate::gpio::Revision;
use crate::display::nonblocking::pins::{Port, col_pins, col_port, col_pin, row_pin, row_pins,
    p0_col_pins, p1_col_pins, col_word, col_mask, row_mask, pin_mask, pins_in_port,
    lemma_pinout, lemma_pin_mask_bits, lemma_col_word_bits, lemma_col_selected};

verus! {

/// One write to a GPIO register.
#[derive(Clone, Copy, Debug, PartialEq, Eq, Structural)]
pub enum PortWrite {
    /// Configures pin `pin` as an output (one write to its `PIN_CNF`).
    Output { port: Port, pin: usize },
    /// Writes `bits` to `OUTSET`: drives the pins set in `bits` high.
    High { port: Port, bits: u32 },
    /// Writes `bits` to `OUTCLR`: drives the pins set in `bits` low.
    Low { port: Port, bits: u32 },
}

/// The registers of one GPIO port that the display uses.
#[derive(Clone, Copy, Debug, PartialEq, Eq, Structural)]
pub struct PortImage {
    /// `DIR`: a set bit makes the pin an output.
    pub dir: u32,
    /// `OUT`: the level that each output pin is driven to.
    pub out: u32,
}

/// The registers of both GPIO ports.
#[derive(Clone, Copy, Debug, PartialEq, Eq, Structural)]
pub struct Ports {
    /// Port 0.
    pub p0: PortImage,
    /// Port 1; the first revision has none, and nothing is written to it.
    pub p1: PortImage,
}

impl PortImage {
    /// The image of a port once `write` has reached it.
    pub open spec fn after(self, write: PortWrite) -> PortImage {
        match write {
            PortWrite::Output { port, pin } => PortImage { dir: self.dir | bit(pin as u32), out: self.out },
            PortWrite::High { port, bits } => PortImage { dir: self.dir, out: self.out | bits },
            PortWrite::Low { port, bits } => PortImage { dir: self.dir, out: self.out & !bits },
        }
    }
}

impl PortWrite {
    /// The port that the write goes to.
    pub open spec fn port(self) -> Port {
        match self {
            PortWrite::Output { port, pin } => port,
            PortWrite::High { port, bits } => port,
            PortWrite::Low { port, bits } => port,
        }
    }
}

impl Ports {
    /// The image of the given port.
    pub open spec fn image(self, port: Port) -> PortImage {
        match port {
            Port::Port0 => self.p0,
            Port::Port1 => self.p1,
        }
    }

    /// The ports once `write` has reached the hardware.
    pub open spec fn after(self, write: PortWrite) -> Ports {
        match write.port() {
            Port::Port0 => Ports { p0: self.p0.after(write), p1: self.p1 },
            Port::Port1 => Ports { p0: self.p0, p1: self.p1.after(write) },
        }
    }

    /// The ports once all of `writes` have reached the hardware, first to
    /// last.
    pub open spec fn after_all(self, writes: Seq<PortWrite>) -> Ports
        decreases writes.len(),
    {
        if writes.len() == 0 {
            self
        } else {
            self.after_all(writes.drop_last()).after(writes.last())
        }
    }

    /// Whether the row pin of matrix row `row` is driven high.
    pub open spec fn row_high(self, board: Revision, row: int) -> bool {
        has_bit(self.p0.out, row_pin(board, row) as u32)
    }

    /// Whether the column pin of matrix column `col` is driven high.
    pub open spec fn col_high(self, board: Revision, col: int) -> bool {
        has_bit(self.image(col_port(board, col)).out, col_pin(board, col) as u32)
    }

    /// Whether the LED at matrix position (`row`, `col`) is lit: its row is
    /// high and its column is low.
    pub open spec fn led_on(self, board: Revision, row: int, col: int) -> bool {
        self.row_high(board, row) && !self.col_high(board, col)
    }

    /// Whether pin `pin` of `port` is wired to the LED matrix.
    pub open spec fn is_display_pin(board: Revision, port: Port, pin: usize) -> bool {
        col_pins(board, port).contains(pin) || (port == Port::Port0 && row_pins(board).contains(pin))
    }

    /// Whether the two states agree on everything but the output levels of
    /// the display's pins.
    pub open spec fn same_elsewhere(self, board: Revision, other: Ports) -> bool {
        &&& self.p0.dir == other.p0.dir
        &&& self.p1.dir == other.p1.dir
        &&& forall|port: Port, p: u32|
            p < 32 && !Ports::is_display_pin(board, port, p as usize) ==> #[trigger] has_bit(
                self.image(port).out,
                p,
            ) == has_bit(other.image(port).out, p)
    }
}

/// The register writes that light exactly the columns `cols` of row `row`:
/// the rows and columns that go low first, the new row last.
pub open spec fn display_row_writes(board: Revision, row: int, cols: u32) -> Seq<PortWrite> {
    let rows_to_set = bit(row_pin(board, row) as u32);
    let rows_to_clear = row_mask(board) ^ rows_to_set;
    let p0_clear = col_word(board, Port::Port0, cols);
    let p0_set = col_mask(board, Port::Port0) ^ p0_clear;
    let p1_clear = col_word(board, Port::Port1, cols);
    let p1_set = col_mask(board, Port::Port1) ^ p1_clear;
    match board {
        Revision::V1 => seq![
            PortWrite::Low { port: Port::Port0, bits: rows_to_clear | p0_clear },
            PortWrite::High { port: Port::Port0, bits: rows_to_set | p0_set },
        ],
        Revision::V2 => seq![
            PortWrite::Low { port: Port::Port0, bits: rows_to_clear | p0_clear },
            PortWrite::High { port: Port::Port1, bits: p1_set },
            PortWrite::Low { port: Port::Port1, bits: p1_clear },
            PortWrite::High { port: Port::Port0, bits: rows_to_set | p0_set },
        ],
    }
}

/// The register writes that apply `cols` to the columns of the current row:
/// `OUTCLR` to light them, `OUTSET` to turn them off.
pub open spec fn column_writes(board: Revision, cols: u32, light: bool) -> Seq<PortWrite> {
    let p0 = col_word(board, Port::Port0, cols);
    let p1 = col_word(board, Port::Port1, cols);
    let first = if light {
        PortWrite::Low { port: Port::Port0, bits: p0 }
    } else {
        PortWrite::High { port: Port::Port0, bits: p0 }
    };
    let second = if light {
        PortWrite::Low { port: Port::Port1, bits: p1 }
    } else {
        PortWrite::High { port: Port::Port1, bits: p1 }
    };
    match board {
        Revision::V1 => seq![first],
        Revision::V2 => seq![first, second],
    }
}

/// Two writes in a row.
pub proof fn lemma_after_two(ports: Ports, a: PortWrite, b: PortWrite)
    ensures
        ports.after_all(seq![a, b]) == ports.after(a).after(b),
        ports.after_all(seq![a]) == ports.after(a),
        ports.after_all(Seq::empty()) == ports,
{
    reveal_with_fuel(Ports::after_all, 3);
    assert(seq![a, b].drop_last() == seq![a]);
    assert(seq![a].drop_last() == Seq::<PortWrite>::empty());
}

/// One more write after a list of writes.
pub proof fn lemma_after_push(ports: Ports, writes: Seq<PortWrite>, write: PortWrite)
    ensures
        ports.after_all(writes.push(write)) == ports.after_all(writes).after(write),
{
    assert(writes.push(write).drop_last() == writes);
}

/// One list of writes after another.
pub proof fn lemma_after_concat(ports: Ports, first: Seq<PortWrite>, second: Seq<PortWrite>)
    ensures
        ports.after_all(first + second) == ports.after_all(first).after_all(second),
    decreases second.len(),
{
    if second.len() == 0 {
        assert(first + second == first);
    } else {
        lemma_after_concat(ports, first, second.drop_last());
        assert((first + second).drop_last() == first + second.drop_last());
    }
}

/// Four writes in a row.
pub proof fn lemma_after_four(ports: Ports, a: PortWrite, b: PortWrite, c: PortWrite, d: PortWrite)
    ensures
        ports.after_all(seq![a, b, c, d]) == ports.after(a).after(b).after(c).after(d),
        ports.after_all(seq![a, b, c]) == ports.after(a).after(b).after(c),
{
    reveal_with_fuel(Ports::after_all, 3);
    lemma_after_two(ports, a, b);
    assert(seq![a, b, c, d].drop_last() == seq![a, b, c]);
    assert(seq![a, b, c].drop_last() == seq![a, b]);
}

/// The bits of the words that `display_row_writes` writes, pin by pin.
proof fn lemma_row_words(board: Revision, row: int, cols: u32, port: Port, p: u32)
    requires
        0 <= row < board.rows(),
        p < 32,
    ensures
        has_bit(bit(row_pin(board, row) as u32), p) <==> p == row_pin(board, row),
        has_bit(row_mask(board) ^ bit(row_pin(board, row) as u32), p) <==> (row_pins(
            board,
        ).contains(p as usize) && p != row_pin(board, row)),
        has_bit(col_word(board, port, cols), p) ==> col_pins(board, port).contains(p as usize),
        has_bit(col_mask(board, port) ^ col_word(board, port, cols), p) <==> (col_pins(
            board,
            port,
        ).contains(p as usize) && !has_bit(col_word(board, port, cols), p)),
{
    lemma_pinout(board);
    let rp = row_pin(board, row);
    assert(row_pins(board)[row] == rp);
    lemma_bit_single(rp as u32, p);
    lemma_pin_mask_bits(row_pins(board), p);
    lemma_bit_xor(row_mask(board), bit(rp as u32), p);
    lemma_col_word_bits(board, port, cols, p);
    lemma_pin_mask_bits(col_pins(board, port), p);
    lemma_bit_xor(col_mask(board, port), col_word(board, port, cols), p);
}

/// What one write does to one pin.
proof fn lemma_write_bit(image: PortImage, write: PortWrite, p: u32)
    requires
        p < 32,
    ensures
        write matches PortWrite::High { port, bits } ==> (has_bit(image.after(write).out, p) <==> (
        has_bit(image.out, p) || has_bit(bits, p))),
        write matches PortWrite::Low { port, bits } ==> (has_bit(image.after(write).out, p) <==> (
        has_bit(image.out, p) && !has_bit(bits, p))),
{
    match write {
        PortWrite::High { port, bits } => {
            lemma_bit_or(image.out, bits, p);
        },
        PortWrite::Low { port, bits } => {
            lemma_bit_and(image.out, !bits, p);
            lemma_bit_not(bits, p);
        },
        PortWrite::Output { port, pin } => {},
    }
}

/// Whether pin `p` of `port` has, after the first `k` writes of
/// `display_row_writes`, the level that its wiring calls for.
spec fn row_step_pin(
    board: Revision,
    ports: Ports,
    row: int,
    cols: u32,
    k: int,
    port: Port,
    p: u32,
) -> bool {
    let writes = display_row_writes(board, row, cols);
    let mid = ports.after_all(writes.take(k));
    let old_high = has_bit(ports.image(port).out, p);
    let high = has_bit(mid.image(port).out, p);
    let selected = has_bit(col_word(board, port, cols), p);
    let is_col = col_pins(board, port).contains(p as usize);
    let is_row = port == Port::Port0 && row_pins(board).contains(p as usize);
    let last = k == writes.len();
    &&& mid.p0.dir == ports.p0.dir
    &&& mid.p1.dir == ports.p1.dir
    &&& (!is_col && !is_row ==> high == old_high)
    &&& (is_row && p != row_pin(board, row) ==> high == (k == 0 && old_high))
    &&& (is_row && p == row_pin(board, row) ==> high == (last || old_high))
    &&& (is_col && selected ==> high == (old_high && (k == 0 || (port == Port::Port1 && k <= 2))))
    &&& (is_col && !selected ==> high == (old_high || last || (port == Port::Port1 && k >= 2)))
}

/// Every pin has that level after every number of the writes.
proof fn lemma_row_step_pin(
    board: Revision,
    ports: Ports,
    row: int,
    cols: u32,
    k: int,
    port: Port,
    p: u32,
)
    requires
        0 <= row < board.rows(),
        0 <= k <= display_row_writes(board, row, cols).len(),
        p < 32,
    ensures
        row_step_pin(board, ports, row, cols, k, port, p),
{
    lemma_pinout(board);
    lemma_row_words(board, row, cols, Port::Port0, p);
    lemma_row_words(board, row, cols, Port::Port1, p);
    let writes = display_row_writes(board, row, cols);
    let rows_to_set = bit(row_pin(board, row) as u32);
    let rows_to_clear = row_mask(board) ^ rows_to_set;
    let p0_clear = col_word(board, Port::Port0, cols);
    let p0_set = col_mask(board, Port::Port0) ^ p0_clear;
    let p1_clear = col_word(board, Port::Port1, cols);
    let p1_set = col_mask(board, Port::Port1) ^ p1_clear;
    let w1 = PortWrite::Low { port: Port::Port0, bits: rows_to_clear | p0_clear };
    let w2 = PortWrite::High { port: Port::Port1, bits: p1_set };
    let w3 = PortWrite::Low { port: Port::Port1, bits: p1_clear };
    let w4 = PortWrite::High { port: Port::Port0, bits: rows_to_set | p0_set };
    lemma_bit_or(rows_to_clear, p0_clear, p);
    lemma_bit_or(rows_to_set, p0_set, p);
    let s1 = ports.after(w1);
    lemma_write_bit(ports.p0, w1, p);
    assert(row_pins(board).contains(row_pin(board, row))) by {
        assert(row_pins(board)[row] == row_pin(board, row));
    }
    if p0_col_pins(board).contains(p as usize) && row_pins(board).contains(p as usize) {
        let r = choose|r: int| 0 <= r < row_pins(board).len() && row_pins(board)[r] == p as usize;
        assert(row_pin(board, r) == p as usize);
    }
    match board {
        Revision::V1 => {
            lemma_after_two(ports, w1, w4);
            assert(writes == seq![w1, w4]);
            assert(p1_col_pins(board).len() == 0);
            lemma_write_bit(s1.p0, w4, p);
            if k == 0 {
                assert(writes.take(0) == Seq::<PortWrite>::empty());
            } else if k == 1 {
                assert(writes.take(1) == seq![w1]);
            } else {
                assert(writes.take(2) == writes);
            }
        },
        Revision::V2 => {
            lemma_after_two(ports, w1, w2);
            lemma_after_four(ports, w1, w2, w3, w4);
            assert(writes == seq![w1, w2, w3, w4]);
            let s2 = s1.after(w2);
            let s3 = s2.after(w3);
            lemma_write_bit(s1.p1, w2, p);
            lemma_write_bit(s2.p1, w3, p);
            lemma_write_bit(s3.p0, w4, p);
            if k == 0 {
                assert(writes.take(0) == Seq::<PortWrite>::empty());
            } else if k == 1 {
                assert(writes.take(1) == seq![w1]);
            } else if k == 2 {
                assert(writes.take(2) == seq![w1, w2]);
            } else if k == 3 {
                assert(writes.take(3) == seq![w1, w2, w3]);
            } else {
                assert(writes.take(4) == writes);
            }
        },
    }
}

/// Lighting a row never lights an LED by accident.
///
/// After any number `k` of the writes of `display_row_writes`, an LED is lit
/// only if it was lit before or is meant to be lit, and no pin outside the
/// display has changed. Where the new row was dark before, nothing at all is
/// lit between the first write and the last. After the last write exactly
/// the LEDs `cols` of row `row` are lit: that row's pin is the only row pin
/// that is high, and a column pin is low exactly when its column is in
/// `cols`.
pub proof fn lemma_display_row_leds(board: Revision, ports: Ports, row: int, cols: u32, k: int)
    requires
        0 <= row < board.rows(),
        0 <= k <= display_row_writes(board, row, cols).len(),
    ensures
        ({
            let writes = display_row_writes(board, row, cols);
            let mid = ports.after_all(writes.take(k));
            &&& mid.same_elsewhere(board, ports)
            &&& forall|r: int, c: int|
                0 <= r < board.rows() && 0 <= c < board.cols() && #[trigger] mid.led_on(board, r, c)
                    ==> (r == row && has_bit(cols, c as u32)) || ports.led_on(board, r, c)
            &&& !ports.row_high(board, row) && 0 < k < writes.len() ==> forall|r: int, c: int|
                0 <= r < board.rows() && 0 <= c < board.cols() ==> !#[trigger] mid.led_on(
                    board,
                    r,
                    c,
                )
            &&& k == writes.len() ==> {
                &&& forall|r: int|
                    0 <= r < board.rows() ==> (#[trigger] mid.row_high(board, r) <==> r == row)
                &&& forall|c: int|
                    0 <= c < board.cols() ==> (#[trigger] mid.col_high(board, c) <==> !has_bit(
                        cols,
                        c as u32,
                    ))
                &&& forall|r: int, c: int|
                    0 <= r < board.rows() && 0 <= c < board.cols() ==> (#[trigger] mid.led_on(
                        board,
                        r,
                        c,
                    ) <==> r == row && has_bit(cols, c as u32))
            }
        }),
{
    lemma_pinout(board);
    let writes = display_row_writes(board, row, cols);
    let mid = ports.after_all(writes.take(k));
    assert forall|port: Port, p: u32|
        p < 32 && !Ports::is_display_pin(board, port, p as usize) implies #[trigger] has_bit(
        mid.image(port).out,
        p,
    ) == has_bit(ports.image(port).out, p) by {
        lemma_row_step_pin(board, ports, row, cols, k, port, p);
    }
    lemma_row_step_pin(board, ports, row, cols, k, Port::Port0, 0);
    assert forall|r: int| 0 <= r < board.rows() implies row_step_pin(
        board,
        ports,
        row,
        cols,
        k,
        Port::Port0,
        #[trigger] row_pin(board, r) as u32,
    ) && row_pins(board).contains(row_pin(board, r)) && (row_pin(board, r) == row_pin(board, row)
        <==> r == row) by {
        lemma_row_step_pin(board, ports, row, cols, k, Port::Port0, row_pin(board, r) as u32);
        assert(row_pins(board)[r] == row_pin(board, r));
    }
    assert forall|c: int| 0 <= c < board.cols() implies row_step_pin(
        board,
        ports,
        row,
        cols,
        k,
        col_port(board, c),
        #[trigger] col_pin(board, c) as u32,
    ) && (has_bit(col_word(board, col_port(board, c), cols), col_pin(board, c) as u32) <==> has_bit(
        cols,
        c as u32,
    )) by {
        lemma_row_step_pin(
            board,
            ports,
            row,
            cols,
            k,
            col_port(board, c),
            col_pin(board, c) as u32,
        );
        lemma_col_selected(board, cols, c);
    }
    assert forall|c: int| 0 <= c < board.cols() implies !(col_port(board, c) == Port::Port0
        && row_pins(board).contains(#[trigger] col_pin(board, c))) by {
        if col_port(board, c) == Port::Port0 && row_pins(board).contains(col_pin(board, c)) {
            let r = choose|r: int|
                0 <= r < row_pins(board).len() && row_pins(board)[r] == col_pin(board, c);
            assert(row_pin(board, r) == col_pin(board, c));
        }
    }
}

/// Applying `cols` to the columns of the current row changes the column
/// pins of the columns in `cols` and nothing else: lighting drives them low,
/// the opposite drives them high.
pub proof fn lemma_column_writes(board: Revision, ports: Ports, cols: u32, light: bool)
    ensures
        ({
            let after = ports.after_all(column_writes(board, cols, light));
            &&& after.same_elsewhere(board, ports)
            &&& forall|r: int|
                0 <= r < board.rows() ==> #[trigger] after.row_high(board, r) == ports.row_high(
                    board,
                    r,
                )
            &&& forall|c: int|
                0 <= c < board.cols() ==> #[trigger] after.col_high(board, c) == (if light {
                    ports.col_high(board, c) && !has_bit(cols, c as u32)
                } else {
                    ports.col_high(board, c) || has_bit(cols, c as u32)
                })
        }),
{
    lemma_pinout(board);
    let p0 = col_word(board, Port::Port0, cols);
    let p1 = col_word(board, Port::Port1, cols);
    let first = if light {
        PortWrite::Low { port: Port::Port0, bits: p0 }
    } else {
        PortWrite::High { port: Port::Port0, bits: p0 }
    };
    let second = if light {
        PortWrite::Low { port: Port::Port1, bits: p1 }
    } else {
        PortWrite::High { port: Port::Port1, bits: p1 }
    };
    lemma_after_two(ports, first, second);
    let after = ports.after_all(column_writes(board, cols, light));
    assert(board == Revision::V1 ==> column_writes(board, cols, light) == seq![first]);
    assert(board == Revision::V2 ==> column_writes(board, cols, light) == seq![first, second]);
    assert forall|port: Port, p: u32| p < 32 implies (#[trigger] has_bit(after.image(port).out, p)
        == (if !has_bit(col_word(board, port, cols), p) {
        has_bit(ports.image(port).out, p)
    } else {
        !light
    })) && (has_bit(col_word(board, port, cols), p) ==> col_pins(board, port).contains(
        p as usize,
    )) by {
        lemma_write_bit(ports.p0, first, p);
        lemma_write_bit(ports.p1, second, p);
        lemma_col_word_bits(board, port, cols, p);
    }
    assert forall|r: int| 0 <= r < board.rows() implies #[trigger] after.row_high(board, r)
        == ports.row_high(board, r) by {
        let p = row_pin(board, r);
        assert(has_bit(after.image(Port::Port0).out, p as u32) == has_bit(ports.image(Port::Port0).out, p as u32));
    }
    assert forall|c: int| 0 <= c < board.cols() implies #[trigger] after.col_high(board, c) == (
    if light {
        ports.col_high(board, c) && !has_bit(cols, c as u32)
    } else {
        ports.col_high(board, c) || has_bit(cols, c as u32)
    }) by {
        lemma_col_selected(board, cols, c);
        let port = col_port(board, c);
        let p = col_pin(board, c) as u32;
        assert(has_bit(after.image(port).out, p) == (if !has_bit(col_word(board, port, cols), p) {
            has_bit(ports.image(port).out, p)
        } else {
            !light
        }));
    }
}

/// The writes that make each of `pins` an output of `port`, in order.
pub open spec fn output_writes(port: Port, pins: Seq<usize>) -> Seq<PortWrite> {
    Seq::new(pins.len(), |i: int| PortWrite::Output { port, pin: pins[i] })
}

/// The register writes that prepare the ports for the display: every row
/// and column pin becomes an output, and every column pin goes high.
pub open spec fn initialise_writes(board: Revision) -> Seq<PortWrite> {
    let p0 = output_writes(Port::Port0, p0_col_pins(board)) + output_writes(
        Port::Port0,
        row_pins(board),
    ) + seq![PortWrite::High { port: Port::Port0, bits: col_mask(board, Port::Port0) }];
    match board {
        Revision::V1 => p0,
        Revision::V2 => p0 + output_writes(Port::Port1, p1_col_pins(board)) + seq![
            PortWrite::High { port: Port::Port1, bits: col_mask(board, Port::Port1) },
        ],
    }
}

/// Making pins outputs sets their direction bits and changes nothing else.
proof fn lemma_output_writes(ports: Ports, port: Port, pins: Seq<usize>)
    requires
        pins_in_port(pins),
    ensures
        ({
            let after = ports.after_all(output_writes(port, pins));
            &&& after.image(port).dir == ports.image(port).dir | pin_mask(pins)
            &&& after.image(port).out == ports.image(port).out
            &&& forall|other: Port| other != port ==> after.image(other) == ports.image(other)
        }),
    decreases pins.len(),
{
    let d = ports.image(port).dir;
    if pins.len() == 0 {
        assert(output_writes(port, pins) == Seq::<PortWrite>::empty());
        assert(d | 0 == d) by (bit_vector);
    } else {
        let front = pins.drop_last();
        lemma_output_writes(ports, port, front);
        assert(output_writes(port, pins).drop_last() == output_writes(port, front));
        let m = pin_mask(front);
        let b = bit(pins.last() as u32);
        assert((d | m) | b == d | (m | b)) by (bit_vector);
    }
}

/// Preparing the ports makes every pin of the display an output and turns
/// every LED off: each column pin goes high, and no other level changes.
pub proof fn lemma_initialise_writes(board: Revision, ports: Ports)
    ensures
        ({
            let after = ports.after_all(initialise_writes(board));
            &&& forall|port: Port, p: u32|
                p < 32 ==> (#[trigger] has_bit(after.image(port).dir, p) <==> has_bit(
                    ports.image(port).dir,
                    p,
                ) || Ports::is_display_pin(board, port, p as usize))
            &&& forall|port: Port, p: u32|
                p < 32 ==> (#[trigger] has_bit(after.image(port).out, p) <==> has_bit(
                    ports.image(port).out,
                    p,
                ) || col_pins(board, port).contains(p as usize))
            &&& forall|c: int| 0 <= c < board.cols() ==> #[trigger] after.col_high(board, c)
            &&& forall|r: int, c: int|
                0 <= r < board.rows() && 0 <= c < board.cols() ==> !#[trigger] after.led_on(
                    board,
                    r,
                    c,
                )
        }),
{
    lemma_pinout(board);
    let w1 = output_writes(Port::Port0, p0_col_pins(board));
    let w2 = output_writes(Port::Port0, row_pins(board));
    let h0 = PortWrite::High { port: Port::Port0, bits: col_mask(board, Port::Port0) };
    let w3 = output_writes(Port::Port1, p1_col_pins(board));
    let h1 = PortWrite::High { port: Port::Port1, bits: col_mask(board, Port::Port1) };
    let s1 = ports.after_all(w1);
    let s2 = s1.after_all(w2);
    let s3 = s2.after(h0);
    let s4 = s3.after_all(w3);
    let s5 = s4.after(h1);
    lemma_output_writes(ports, Port::Port0, p0_col_pins(board));
    lemma_output_writes(s1, Port::Port0, row_pins(board));
    lemma_output_writes(s3, Port::Port1, p1_col_pins(board));
    assert(s1.image(Port::Port1) == ports.image(Port::Port1));
    assert(s2.image(Port::Port1) == s1.image(Port::Port1));
    assert(s4.image(Port::Port0) == s3.image(Port::Port0));
    assert(s3.p1 == ports.p1 && s3.p0.dir == s2.p0.dir);
    assert(s4.image(Port::Port1).dir == s3.image(Port::Port1).dir | pin_mask(p1_col_pins(board)));
    assert(s2.image(Port::Port0).dir == s1.image(Port::Port0).dir | pin_mask(row_pins(board)));
    assert(s1.image(Port::Port0).dir == ports.image(Port::Port0).dir | pin_mask(p0_col_pins(board)));
    lemma_after_concat(ports, w1, w2);
    lemma_after_push(ports, w1 + w2, h0);
    assert(w1 + w2 + seq![h0] == (w1 + w2).push(h0));
    assert(ports.after_all(w1 + w2 + seq![h0]) == s3);
    lemma_after_concat(ports, w1 + w2 + seq![h0], w3);
    lemma_after_push(ports, w1 + w2 + seq![h0] + w3, h1);
    assert(w1 + w2 + seq![h0] + w3 + seq![h1] == (w1 + w2 + seq![h0] + w3).push(h1));
    assert(board == Revision::V2 ==> ports.after_all(initialise_writes(board)) == s5);
    assert(board == Revision::V1 ==> ports.after_all(initialise_writes(board)) == s3);
    let after = ports.after_all(initialise_writes(board));
    assert forall|port: Port, p: u32| p < 32 implies (#[trigger] has_bit(after.image(port).dir, p)
        <==> has_bit(ports.image(port).dir, p) || Ports::is_display_pin(board, port, p as usize)) by {
        lemma_pin_mask_bits(p0_col_pins(board), p);
        lemma_pin_mask_bits(p1_col_pins(board), p);
        lemma_pin_mask_bits(row_pins(board), p);
        lemma_bit_or(ports.p0.dir, pin_mask(p0_col_pins(board)), p);
        lemma_bit_or(s1.p0.dir, pin_mask(row_pins(board)), p);
        lemma_bit_or(s3.p1.dir, pin_mask(p1_col_pins(board)), p);
        if board == Revision::V1 {
            assert(p1_col_pins(board).len() == 0);
        }
    }
    assert forall|port: Port, p: u32| p < 32 implies (#[trigger] has_bit(after.image(port).out, p)
        <==> has_bit(ports.image(port).out, p) || col_pins(board, port).contains(p as usize)) by {
        lemma_pin_mask_bits(p0_col_pins(board), p);
        lemma_pin_mask_bits(p1_col_pins(board), p);
        lemma_write_bit(s2.p0, h0, p);
        lemma_write_bit(s4.p1, h1, p);
        if board == Revision::V1 {
            assert(p1_col_pins(board).len() == 0);
        }
    }
    assert forall|c: int| 0 <= c < board.cols() implies #[trigger] after.col_high(board, c) by {
        let port = col_port(board, c);
        let p = col_pin(board, c) as u32;
        assert(has_bit(after.image(port).out, p) <==> has_bit(ports.image(port).out, p) || col_pins(
            board,
            port,
        ).contains(p as usize));
    }
}

} // verus!
