//! The pins of the LED matrix.
//!
//! Each matrix row and each matrix column is wired to one GPIO pin. The
//! first revision has all of them on its one port; the second has column 3
//! on port 1 and the rest on port 0. The tables list the pins, and
//! [`lemma_pinout`] says what the drivers need of them: every pin is a bit
//! of its port, none is listed twice, and none is both a row and a column.
use vstd::prelude::*;
use crate::bits::{has_bit, bit, lemma_bit_or, lemma_bit_single, lemma_zero_has_no_bit,
    lemma_bit_shl, lemma_bit_shr, lemma_low_bit};
use crate::gpio::Revision;

verus! {

/// Column pins of the first revision, by matrix column.
pub const V1_P0_COLS: [usize; 9] = [4, 5, 6, 7, 8, 9, 10, 11, 12];

/// Row pins of the first revision, by matrix row.
pub const V1_P0_ROWS: [usize; 3] = [13, 14, 15];

/// Column pins of the second revision on port 0: columns 0, 1, 2 and 4.
pub const V2_P0_COLS: [usize; 4] = [28, 11, 31, 30];

/// Column pins of the second revision on port 1: column 3.
pub const V2_P1_COLS: [usize; 1] = [5];

/// Row pins of the second revision, by matrix row.
pub const V2_P0_ROWS: [usize; 5] = [21, 22, 15, 24, 19];

/// The word with a bit set for each pin of `pins`.
pub open spec fn pin_mask(pins: Seq<usize>) -> u32
    decreases pins.len(),
{
    if pins.len() == 0 {
        0
    } else {
        pin_mask(pins.drop_last()) | bit(pins.last() as u32)
    }
}

/// Bit `i` of `cols` as a word, 0 or 1; a word has no bit from 32 on.
pub open spec fn selector(cols: u32, i: int) -> u32 {
    if 0 <= i < 32 {
        (cols >> (i as u32)) & 1
    } else {
        0
    }
}

/// The word in which the pin `pins[i]` is set for each bit `i` set in `cols`.
pub open spec fn spread(cols: u32, pins: Seq<usize>) -> u32
    decreases pins.len(),
{
    if pins.len() == 0 {
        0
    } else {
        spread(cols, pins.drop_last()) | (selector(cols, pins.len() - 1) << (pins.last() as u32))
    }
}

/// Whether every pin of `pins` is a bit position of a 32-bit port.
pub open spec fn pins_in_port(pins: Seq<usize>) -> bool {
    forall|i: int| 0 <= i < pins.len() ==> #[trigger] pins[i] < 32
}

/// `pin_mask` has exactly the bits of the listed pins.
pub proof fn lemma_pin_mask_bits(pins: Seq<usize>, p: u32)
    requires
        pins_in_port(pins),
        p < 32,
    ensures
        has_bit(pin_mask(pins), p) <==> pins.contains(p as usize),
    decreases pins.len(),
{
    if pins.len() == 0 {
        lemma_zero_has_no_bit(p);
    } else {
        let front = pins.drop_last();
        lemma_pin_mask_bits(front, p);
        lemma_bit_or(pin_mask(front), bit(pins.last() as u32), p);
        lemma_bit_single(pins.last() as u32, p);
        if pins.contains(p as usize) {
            let i = choose|i: int| 0 <= i < pins.len() && pins[i] == p as usize;
            if i < pins.len() - 1 {
                assert(front[i] == p as usize);
            }
        }
        if front.contains(p as usize) {
            let i = choose|i: int| 0 <= i < front.len() && front[i] == p as usize;
            assert(pins[i] == p as usize);
        }
        if pins.last() == p as usize {
            assert(pins[pins.len() - 1] == p as usize);
        }
    }
}

/// `spread` sets pin `p` exactly when `p` is listed at an index whose bit is
/// set in `cols`.
pub proof fn lemma_spread_bits(cols: u32, pins: Seq<usize>, p: u32)
    requires
        pins_in_port(pins),
        p < 32,
    ensures
        has_bit(spread(cols, pins), p) <==> exists|i: int|
            0 <= i < pins.len() && i < 32 && #[trigger] pins[i] == p as usize && has_bit(
                cols,
                i as u32,
            ),
    decreases pins.len(),
{
    if pins.len() == 0 {
        lemma_zero_has_no_bit(p);
    } else {
        let front = pins.drop_last();
        let k = pins.len() - 1;
        let pin: u32 = pins.last() as u32;
        let low: u32 = selector(cols, k);
        lemma_spread_bits(cols, front, p);
        lemma_bit_or(spread(cols, front), low << pin, p);
        lemma_bit_shl(low, pin, p);
        if k < 32 {
            lemma_low_bit(cols >> (k as u32));
            lemma_bit_shr(cols, k as u32, 0);
        }
        assert(low == 0 || low == 1);
        assert(low == 1 <==> k < 32 && has_bit(cols, k as u32));
        if p >= pin {
            // bit `p - pin` of a word that is 0 or 1
            if p > pin {
                let d: u32 = (p - pin) as u32;
                assert((low >> d) & 1 == 0) by (bit_vector)
                    requires
                        low == 0 || low == 1,
                        0 < d < 32,
                ;
            } else {
                assert((low >> 0u32) & 1 == 1 <==> low == 1) by (bit_vector)
                    requires
                        low == 0 || low == 1,
                ;
            }
        }
        assert(has_bit(low << pin, p) <==> (p == pin && low == 1));
        if has_bit(spread(cols, pins), p) {
            if has_bit(spread(cols, front), p) {
                let i = choose|i: int|
                    0 <= i < front.len() && i < 32 && #[trigger] front[i] == p as usize && has_bit(
                        cols,
                        i as u32,
                    );
                assert(pins[i] == p as usize);
            } else {
                assert(pins[k] == p as usize);
            }
        }
        if exists|i: int|
            0 <= i < pins.len() && i < 32 && #[trigger] pins[i] == p as usize && has_bit(
                cols,
                i as u32,
            ) {
            let i = choose|i: int|
                0 <= i < pins.len() && i < 32 && #[trigger] pins[i] == p as usize && has_bit(
                    cols,
                    i as u32,
                );
            if i < pins.len() - 1 {
                assert(front[i] == p as usize);
            }
        }
    }
}

/// Returns the word with a bit set for each of the given pins.
pub fn pin_bits(pins: &[usize]) -> (bits: u32)
    requires
        pins_in_port(pins@),
    ensures
        bits == pin_mask(pins@),
        forall|p: u32| p < 32 ==> (has_bit(bits, p) <==> pins@.contains(p as usize)),
{
    let mut i: usize = 0;
    let mut bits: u32 = 0;
    while i < pins.len()
        invariant
            i <= pins.len(),
            pins_in_port(pins@),
            bits == pin_mask(pins@.take(i as int)),
        decreases pins.len() - i,
    {
        assert(pins@.take(i + 1).drop_last() == pins@.take(i as int));
        bits |= 1u32 << (pins[i] as u32);
        i += 1;
    }
    proof {
        assert(pins@.take(i as int) == pins@);
        assert forall|p: u32| p < 32 implies (has_bit(bits, p) <==> pins@.contains(p as usize)) by {
            lemma_pin_mask_bits(pins@, p);
        }
    }
    bits
}

/// Returns the GPIO pins that correspond to the columns set in `cols`: bit
/// `i` of `cols` selects the pin `px_cols[i]`.
pub fn column_pins(cols: u32, px_cols: &[usize]) -> (pins: u32)
    requires
        pins_in_port(px_cols@),
    ensures
        pins == spread(cols, px_cols@),
        forall|p: u32|
            p < 32 ==> (has_bit(pins, p) <==> exists|i: int|
                0 <= i < px_cols.len() && i < 32 && #[trigger] px_cols[i] == p as usize
                    && has_bit(cols, i as u32)),
{
    let mut rest: u32 = cols;
    let mut result: u32 = 0;
    let mut i: usize = 0;
    assert(cols == cols >> 0u32) by (bit_vector);
    while i < px_cols.len()
        invariant
            i <= px_cols.len(),
            pins_in_port(px_cols@),
            result == spread(cols, px_cols@.take(i as int)),
            i < 32 ==> rest == cols >> (i as u32),
            i >= 32 ==> rest == 0,
        decreases px_cols.len() - i,
    {
        let pin = px_cols[i];
        proof {
            assert(px_cols@.take(i + 1).drop_last() == px_cols@.take(i as int));
            let r: u32 = rest;
            if i < 31 {
                let k: u32 = i as u32;
                assert((r >> 1) == cols >> ((k + 1) as u32)) by (bit_vector)
                    requires
                        r == cols >> k,
                        k < 31,
                ;
            } else if i == 31 {
                assert((r >> 1) == 0) by (bit_vector)
                    requires
                        r == cols >> 31u32,
                ;
            } else {
                assert(0u32 >> 1 == 0 && 0u32 & 1 == 0) by (bit_vector);
            }
            assert(rest & 1 == selector(cols, i as int));
        }
        result |= (rest & 1) << (pin as u32);
        rest >>= 1;
        i += 1;
    }
    proof {
        assert(px_cols@.take(i as int) == px_cols@);
        assert forall|p: u32| p < 32 implies (has_bit(result, p) <==> exists|i: int|
            0 <= i < px_cols.len() && i < 32 && #[trigger] px_cols[i] == p as usize && has_bit(
                cols,
                i as u32,
            )) by {
            lemma_spread_bits(cols, px_cols@, p);
        }
    }
    result
}

/// One of the GPIO ports.
#[derive(Clone, Copy, Debug, PartialEq, Eq, Structural)]
pub enum Port {
    /// Port 0 (the only port of the first revision).
    Port0,
    /// Port 1 (second revision only).
    Port1,
}

/// The column pins on port 0, in the order of the bits that select them.
pub open spec fn p0_col_pins(board: Revision) -> Seq<usize> {
    match board {
        Revision::V1 => V1_P0_COLS@,
        Revision::V2 => V2_P0_COLS@,
    }
}

/// The column pins on port 1, in the order of the bits that select them.
pub open spec fn p1_col_pins(board: Revision) -> Seq<usize> {
    match board {
        Revision::V1 => Seq::empty(),
        Revision::V2 => V2_P1_COLS@,
    }
}

/// The row pins (all on port 0), by matrix row.
pub open spec fn row_pins(board: Revision) -> Seq<usize> {
    match board {
        Revision::V1 => V1_P0_ROWS@,
        Revision::V2 => V2_P0_ROWS@,
    }
}

/// The column pins on the given port.
pub open spec fn col_pins(board: Revision, port: Port) -> Seq<usize> {
    match port {
        Port::Port0 => p0_col_pins(board),
        Port::Port1 => p1_col_pins(board),
    }
}

/// The port that holds the pin of matrix column `col`.
pub open spec fn col_port(board: Revision, col: int) -> Port {
    if board == Revision::V2 && col == 3 {
        Port::Port1
    } else {
        Port::Port0
    }
}

/// The pin of matrix column `col`, on the port `col_port(board, col)`.
pub open spec fn col_pin(board: Revision, col: int) -> usize {
    match board {
        Revision::V1 => V1_P0_COLS@[col],
        Revision::V2 => if col == 3 {
            V2_P1_COLS@[0]
        } else if col == 4 {
            V2_P0_COLS@[3]
        } else {
            V2_P0_COLS@[col]
        },
    }
}

/// The pin of matrix row `row`, on port 0.
pub open spec fn row_pin(board: Revision, row: int) -> usize {
    row_pins(board)[row]
}

/// The column set `cols` as two words of selector bits, one for each port's
/// table of column pins.
pub open spec fn split(board: Revision, cols: u32) -> (u32, u32) {
    match board {
        Revision::V1 => (cols, 0u32),
        Revision::V2 => (((cols & 0b10000) >> 1) | (cols & 0b00111), (cols & 0b01000) >> 3),
    }
}

/// The pins of `port` that belong to the columns set in `cols`.
pub open spec fn col_word(board: Revision, port: Port, cols: u32) -> u32 {
    match port {
        Port::Port0 => spread(split(board, cols).0, p0_col_pins(board)),
        Port::Port1 => spread(split(board, cols).1, p1_col_pins(board)),
    }
}

/// All column pins of `port`.
pub open spec fn col_mask(board: Revision, port: Port) -> u32 {
    pin_mask(col_pins(board, port))
}

/// All row pins (port 0).
pub open spec fn row_mask(board: Revision) -> u32 {
    pin_mask(row_pins(board))
}

/// What the pin tables have to satisfy: every pin is a bit of its port, no
/// pin is listed twice, and no pin is both a row and a column.
pub proof fn lemma_pinout(board: Revision)
    ensures
        pins_in_port(p0_col_pins(board)),
        pins_in_port(p1_col_pins(board)),
        pins_in_port(row_pins(board)),
        row_pins(board).len() == board.rows(),
        forall|c: int| 0 <= c < board.cols() ==> (#[trigger] col_pin(board, c)) < 32,
        forall|c: int|
            0 <= c < board.cols() ==> col_pins(board, col_port(board, c)).contains(
                #[trigger] col_pin(board, c),
            ),
        forall|port: Port, p: usize| #[trigger]
            col_pins(board, port).contains(p) ==> exists|c: int|
                0 <= c < board.cols() && col_port(board, c) == port && col_pin(board, c) == p,
        forall|c: int, d: int|
            0 <= c < board.cols() && 0 <= d < board.cols() && c != d && col_port(board, c)
                == col_port(board, d) ==> #[trigger] col_pin(board, c) != #[trigger] col_pin(
                board,
                d,
            ),
        forall|r: int, q: int|
            0 <= r < board.rows() && 0 <= q < board.rows() && r != q ==> #[trigger] row_pin(
                board,
                r,
            ) != #[trigger] row_pin(board, q),
        forall|r: int| 0 <= r < board.rows() ==> !p0_col_pins(board).contains(#[trigger] row_pin(board, r)),
{
    match board {
        Revision::V1 => {
            let t = V1_P0_COLS@;
            assert(t[0] == 4 && t[1] == 5 && t[2] == 6 && t[3] == 7 && t[4] == 8 && t[5] == 9
                && t[6] == 10 && t[7] == 11 && t[8] == 12);
            let r = V1_P0_ROWS@;
            assert(r[0] == 13 && r[1] == 14 && r[2] == 15);
            assert forall|c: int| 0 <= c < board.cols() implies col_pins(
                board,
                col_port(board, c),
            ).contains(#[trigger] col_pin(board, c)) by {
                assert(t[c] == col_pin(board, c));
            }
            assert forall|port: Port, p: usize| #[trigger]
                col_pins(board, port).contains(p) implies exists|c: int|
                0 <= c < board.cols() && col_port(board, c) == port && col_pin(board, c) == p by {
                let i = choose|i: int| 0 <= i < col_pins(board, port).len() && col_pins(board, port)[i] == p;
                assert(col_port(board, i) == port && col_pin(board, i) == p);
            }
        },
        Revision::V2 => {
            let t = V2_P0_COLS@;
            assert(t[0] == 28 && t[1] == 11 && t[2] == 31 && t[3] == 30);
            let u = V2_P1_COLS@;
            assert(u[0] == 5);
            let r = V2_P0_ROWS@;
            assert(r[0] == 21 && r[1] == 22 && r[2] == 15 && r[3] == 24 && r[4] == 19);
            assert forall|c: int| 0 <= c < board.cols() implies col_pins(
                board,
                col_port(board, c),
            ).contains(#[trigger] col_pin(board, c)) by {
                if c == 3 {
                    assert(u[0] == col_pin(board, c));
                } else if c == 4 {
                    assert(t[3] == col_pin(board, c));
                } else {
                    assert(t[c] == col_pin(board, c));
                }
            }
            assert forall|port: Port, p: usize| #[trigger]
                col_pins(board, port).contains(p) implies exists|c: int|
                0 <= c < board.cols() && col_port(board, c) == port && col_pin(board, c) == p by {
                let i = choose|i: int| 0 <= i < col_pins(board, port).len() && col_pins(board, port)[i] == p;
                let c = if port == Port::Port1 { 3 } else if i == 3 { 4 } else { i };
                assert(col_port(board, c) == port && col_pin(board, c) == p);
            }
        },
    }
}

/// The column pins that `col_word` selects on a port are those of the
/// columns set in `cols`.
pub proof fn lemma_col_word_bits(board: Revision, port: Port, cols: u32, p: u32)
    requires
        p < 32,
    ensures
        has_bit(col_word(board, port, cols), p) <==> exists|c: int|
            0 <= c < board.cols() && col_port(board, c) == port && #[trigger] col_pin(board, c)
                == p as usize && has_bit(cols, c as u32),
{
    lemma_pinout(board);
    let sel: u32 = match port {
        Port::Port0 => split(board, cols).0,
        Port::Port1 => split(board, cols).1,
    };
    let pins = col_pins(board, port);
    lemma_spread_bits(sel, pins, p);
    // which selector bit stands for which column
    assert(forall|i: u32|
        i < 32 ==> (has_bit(((cols & 0b10000) >> 1) | (cols & 0b00111), i) <==> (i < 3 && has_bit(
            cols,
            i,
        )) || (i == 3 && has_bit(cols, 4)))) by {
        assert forall|i: u32| i < 32 implies (has_bit(
            ((cols & 0b10000) >> 1) | (cols & 0b00111),
            i,
        ) <==> (i < 3 && has_bit(cols, i)) || (i == 3 && has_bit(cols, 4))) by {
            assert(((((cols & 0b10000) >> 1) | (cols & 0b00111)) >> i) & 1 == 1 <==> (i < 3 && (cols
                >> i) & 1 == 1) || (i == 3 && (cols >> 4u32) & 1 == 1)) by (bit_vector)
                requires
                    i < 32,
            ;
        }
    }
    assert(forall|i: u32| i < 32 ==> (has_bit((cols & 0b01000) >> 3, i) <==> (i == 0 && has_bit(cols, 3))))
        by {
        assert forall|i: u32| i < 32 implies (has_bit((cols & 0b01000) >> 3, i) <==> (i == 0
            && has_bit(cols, 3))) by {
            assert((((cols & 0b01000) >> 3) >> i) & 1 == 1 <==> (i == 0 && (cols >> 3u32) & 1 == 1))
                by (bit_vector)
                requires
                    i < 32,
            ;
        }
    }
    if has_bit(col_word(board, port, cols), p) {
        let i = choose|i: int|
            0 <= i < pins.len() && #[trigger] pins[i] == p as usize && has_bit(sel, i as u32);
        let c: int = if board == Revision::V1 {
            i
        } else if port == Port::Port1 {
            3
        } else if i == 3 {
            4
        } else {
            i
        };
        assert(0 <= c < board.cols() && col_port(board, c) == port && col_pin(board, c)
            == p as usize && has_bit(cols, c as u32));
    }
    if exists|c: int|
        0 <= c < board.cols() && col_port(board, c) == port && #[trigger] col_pin(board, c)
            == p as usize && has_bit(cols, c as u32) {
        let c = choose|c: int|
            0 <= c < board.cols() && col_port(board, c) == port && #[trigger] col_pin(board, c)
                == p as usize && has_bit(cols, c as u32);
        let i: int = if board == Revision::V1 {
            c
        } else if c == 3 {
            0
        } else if c == 4 {
            3
        } else {
            c
        };
        assert(0 <= i < pins.len() && pins[i] == p as usize && has_bit(sel, i as u32));
    }
}

/// Splits a column set into the selector bits of each port's table of
/// column pins: the second revision has column 3 on port 1 and the others
/// on port 0.
pub fn split_cols(board: Revision, cols: u32) -> (parts: (u32, u32))
    ensures
        parts == split(board, cols),
{
    match board {
        Revision::V1 => (cols, 0u32),
        Revision::V2 => {
            // all except column 3
            let p0_cols = ((cols & 0b10000) >> 1) | (0b00111 & cols);
            // column 3
            let p1_cols = (cols & 0b01000) >> 3;
            assert(0b00111u32 & cols == cols & 0b00111u32) by (bit_vector);
            (p0_cols, p1_cols)
        },
    }
}

/// The pin of a column is among those that `col_word` selects exactly when
/// the column is set in `cols`.
pub proof fn lemma_col_selected(board: Revision, cols: u32, col: int)
    requires
        0 <= col < board.cols(),
    ensures
        has_bit(col_word(board, col_port(board, col), cols), col_pin(board, col) as u32)
            <==> has_bit(cols, col as u32),
{
    lemma_pinout(board);
    lemma_col_word_bits(board, col_port(board, col), cols, col_pin(board, col) as u32);
}

/// The column pins of port 0.
pub fn p0_cols(board: Revision) -> (pins: &'static [usize])
    ensures
        pins@ == p0_col_pins(board),
{
    match board {
        Revision::V1 => &V1_P0_COLS,
        Revision::V2 => &V2_P0_COLS,
    }
}

/// The column pins of port 1.
pub fn p1_cols(board: Revision) -> (pins: &'static [usize])
    ensures
        pins@ == p1_col_pins(board),
{
    match board {
        Revision::V1 => &[],
        Revision::V2 => &V2_P1_COLS,
    }
}

/// The row pins.
pub fn p0_rows(board: Revision) -> (pins: &'static [usize])
    ensures
        pins@ == row_pins(board),
{
    match board {
        Revision::V1 => &V1_P0_ROWS,
        Revision::V2 => &V2_P0_ROWS,
    }
}

} // verus!
