//! Blocking support for the 5×5 LED display.
//!
//! The blocking driver lights the matrix rows one after the other in a busy
//! loop, each for a fixed delay, and knows on and off only. This module
//! holds its arithmetic: how an image maps to the matrix, which columns to
//! light in each row, how long to hold a row and how often to scan. The
//! owner of the pins and of the delay runs the scan that
//! [`Display::show`] plans:
//!
//! for each of `loops` scans, for each matrix row in turn: drive the row
//! high, drive the columns in `row_cols` low, wait `hold_us` microseconds,
//! drive all columns high and the row low.
use vstd::prelude::*;
use crate::bits::{has_bit, bit, lemma_bit_or, lemma_bit_single, lemma_zero_has_no_bit};
use crate::gpio::{Revision, MAX_ROWS};
use crate::display::nonblocking::matrix::{MicrobitMatrix, layout, position, lemma_layout,
    V1_LED_POSITION};

verus! {

/// The time spent on each matrix row unless another is set, in ms.
pub const DEFAULT_DELAY_MS: u32 = 2;

/// What a call of [`Display::show`] asks the owner of the pins to do.
#[derive(Copy, Clone, Debug, PartialEq, Eq)]
pub struct Scan {
    /// The number of times to scan the whole matrix.
    pub loops: u32,
    /// The time to hold each row, in µs.
    pub hold_us: u32,
    /// For each matrix row, the columns to light (bit 0 is column 0).
    pub row_cols: [u32; 5],
}

/// Whether the LED at matrix position (`col`, `row`) is on in the image.
pub open spec fn led_is_on(board: Revision, image: [[u8; 5]; 5], row: int, col: int) -> bool {
    &&& 0 <= row < board.rows()
    &&& 0 <= col < board.cols()
    &&& layout(board, col, row) matches Some((x, y)) && image[y as int][x as int] > 0
}

/// Blocking interface to the on board LED display.
///
/// `P` is the set of display pins that the display takes ownership of.
pub struct Display<P> {
    delay_ms: u32,
    board: Revision,
    pins: P,
}

impl<P> Display<P> {
    /// The time spent on each matrix row, in ms.
    pub closed spec fn delay(&self) -> u32 {
        self.delay_ms
    }

    /// The board.
    pub closed spec fn revision(&self) -> Revision {
        self.board
    }

    /// The display pins that the display owns.
    pub closed spec fn display_pins(&self) -> P {
        self.pins
    }

    /// Creates the display driver for the given board, with the default
    /// delay.
    pub fn new(pins: P, board: Revision) -> (display: Display<P>)
        ensures
            display.delay() == DEFAULT_DELAY_MS,
            display.revision() == board,
            display.display_pins() == pins,
    {
        Display { delay_ms: DEFAULT_DELAY_MS, board, pins }
    }

    /// The display pins that the display owns.
    pub fn pins(&mut self) -> (pins: &mut P)
        ensures
            *pins == old(self).display_pins(),
            final(self).display_pins() == *final(pins),
            final(self).delay() == old(self).delay(),
            final(self).revision() == old(self).revision(),
    {
        &mut self.pins
    }

    /// Releases the pins.
    pub fn free(self) -> (pins: P)
        ensures
            pins == self.display_pins(),
    {
        self.pins
    }

    /// The time spent on each matrix row, in ms.
    pub fn delay_ms(&self) -> (delay_ms: u32)
        ensures
            delay_ms == self.delay(),
    {
        self.delay_ms
    }

    /// Sets the delay, the time spent on each matrix row, in ms.
    pub fn set_delay_ms(&mut self, delay_ms: u32)
        ensures
            final(self).delay() == delay_ms,
            final(self).revision() == old(self).revision(),
            final(self).display_pins() == old(self).display_pins(),
    {
        self.delay_ms = delay_ms;
    }

    /// Sets the refresh rate: the number of scans of the whole matrix in a
    /// second.
    pub fn set_refresh_rate(&mut self, freq_hz: u32)
        requires
            freq_hz > 0,
        ensures
            final(self).delay() == 1000int / (freq_hz as int) / (old(self).revision().rows() as int),
            final(self).revision() == old(self).revision(),
            final(self).display_pins() == old(self).display_pins(),
    {
        self.delay_ms = 1000 / freq_hz / (self.board.num_rows() as u32);
    }

    /// Converts a 5×5 image to the 3×9 matrix of the first revision: each
    /// LED's value stands at the LED's matrix position, and the two
    /// positions without an LED hold 0.
    pub fn image2matrix(led_image: [[u8; 5]; 5]) -> (led_matrix: [[u8; 9]; 3])
        ensures
            forall|x: int, y: int|
                0 <= x < 5 && 0 <= y < 5 ==> {
                    let (col, row) = #[trigger] position(Revision::V1, x, y);
                    led_matrix[row][col] == led_image[y][x]
                },
            forall|col: int, row: int|
                0 <= col < 9 && 0 <= row < 3 ==> (#[trigger] layout(Revision::V1, col, row)
                    is None ==> led_matrix[row][col] == 0),
    {
        let mut led_matrix: [[u8; 9]; 3] = [[0u8; 9]; 3];
        proof {
            lemma_layout(Revision::V1);
        }
        let mut y: usize = 0;
        while y < 5
            invariant
                y <= 5,
                forall|u: int, v: int|
                    0 <= u < 5 && 0 <= v < y ==> {
                        let (col, row) = #[trigger] position(Revision::V1, u, v);
                        led_matrix[row][col] == led_image[v][u]
                    },
                forall|col: int, row: int|
                    0 <= col < 9 && 0 <= row < 3 ==> (#[trigger] layout(Revision::V1, col, row)
                        matches Some((u, v)) ==> v < y || led_matrix[row][col] == 0),
                forall|col: int, row: int|
                    0 <= col < 9 && 0 <= row < 3 ==> (#[trigger] layout(Revision::V1, col, row)
                        is None ==> led_matrix[row][col] == 0),
            decreases 5 - y,
        {
            let mut x: usize = 0;
            while x < 5
                invariant
                    x <= 5,
                    y < 5,
                    forall|u: int, v: int|
                        0 <= u < 5 && 0 <= v < 5 && (v < y || (v == y && u < x)) ==> {
                            let (col, row) = #[trigger] position(Revision::V1, u, v);
                            led_matrix[row][col] == led_image[v][u]
                        },
                    forall|col: int, row: int|
                        0 <= col < 9 && 0 <= row < 3 ==> (#[trigger] layout(
                            Revision::V1,
                            col,
                            row,
                        ) matches Some((u, v)) ==> v < y || (v == y && u < x)
                            || led_matrix[row][col] == 0),
                    forall|col: int, row: int|
                        0 <= col < 9 && 0 <= row < 3 ==> (#[trigger] layout(
                            Revision::V1,
                            col,
                            row,
                        ) is None ==> led_matrix[row][col] == 0),
                decreases 5 - x,
            {
                let (row, col) = V1_LED_POSITION[y][x];
                proof {
                    lemma_layout(Revision::V1);
                    let at = position(Revision::V1, x as int, y as int);
                    assert(at == (col as int, row as int));
                }
                let ghost before = led_matrix;
                let mut line = led_matrix[row];
                line[col] = led_image[y][x];
                led_matrix[row] = line;
                proof {
                    assert forall|u: int, v: int|
                        0 <= u < 5 && 0 <= v < 5 && (v < y || (v == y && u < x + 1)) implies {
                        let (c, r) = #[trigger] position(Revision::V1, u, v);
                        led_matrix[r][c] == led_image[v][u]
                    } by {
                        let (c, r) = position(Revision::V1, u, v);
                        if !(u == x && v == y) {
                            assert(layout(Revision::V1, c, r) == Some((u as usize, v as usize)));
                            assert(!(c == col && r == row));
                            assert(led_matrix[r][c] == before[r][c]);
                        }
                    }
                }
                x += 1;
            }
            y += 1;
        }
        led_matrix
    }

    /// Plans the display of a 5×5 image for `duration_ms` milliseconds: the
    /// matrix is scanned `duration_ms / (rows × delay)` times, each row is
    /// held for the delay, and a row lights the columns of its LEDs whose
    /// value in the image is not 0.
    pub fn show(&self, led_display: [[u8; 5]; 5], duration_ms: u32) -> (scan: Scan)
        requires
            self.delay() > 0,
            self.delay() * 1000 <= u32::MAX,
        ensures
            scan.loops == (duration_ms as int) / (self.revision().rows() * self.delay()),
            scan.hold_us == self.delay() * 1000,
            forall|row: int, col: u32|
                0 <= row < MAX_ROWS && col < 32 ==> (#[trigger] has_bit(scan.row_cols[row], col)
                    <==> led_is_on(self.revision(), led_display, row, col as int)),
    {
        let matrix = MicrobitMatrix::new(self.board);
        let rows = matrix.matrix_rows();
        let cols = matrix.matrix_cols();
        let loops = duration_ms / (rows as u32 * self.delay_ms);
        let mut row_cols: [u32; 5] = [0u32; 5];
        let mut row: usize = 0;
        proof {
            assert forall|c: u32| c < 32 implies !has_bit(0, c) by {
                lemma_zero_has_no_bit(c);
            }
        }
        while row < rows
            invariant
                row <= rows,
                rows == self.board.rows(),
                cols == self.board.cols(),
                matrix.board == self.board,
                forall|r: int, c: u32|
                    0 <= r < MAX_ROWS && c < 32 ==> (#[trigger] has_bit(row_cols[r], c) <==> r < row
                        && led_is_on(self.board, led_display, r, c as int)),
            decreases rows - row,
        {
            let mut lit: u32 = 0;
            let mut col: usize = 0;
            proof {
                assert forall|c: u32| c < 32 implies !has_bit(0, c) by {
                    lemma_zero_has_no_bit(c);
                }
            }
            while col < cols
                invariant
                    col <= cols,
                    row < rows,
                    rows == self.board.rows(),
                    cols == self.board.cols(),
                    matrix.board == self.board,
                    forall|c: u32|
                        c < 32 ==> (#[trigger] has_bit(lit, c) <==> c < col && led_is_on(
                            self.board,
                            led_display,
                            row as int,
                            c as int,
                        )),
                decreases cols - col,
            {
                if let Some((x, y)) = matrix.image_coordinates(col, row) {
                    if led_display[y][x] > 0 {
                        let ghost before = lit;
                        lit |= 1u32 << (col as u32);
                        proof {
                            assert forall|c: u32| c < 32 implies (#[trigger] has_bit(lit, c)
                                <==> has_bit(before, c) || c == col) by {
                                lemma_bit_or(before, bit(col as u32), c);
                                lemma_bit_single(col as u32, c);
                            }
                        }
                    }
                }
                col += 1;
            }
            row_cols[row] = lit;
            row += 1;
        }
        Scan { loops, hold_us: self.delay_ms * 1000, row_cols }
    }
}

} // verus!
