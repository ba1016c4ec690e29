//! The layout of the LED matrix, and frames: images compiled for it.
//!
//! The pins address the LEDs as a matrix of rows and columns that need not
//! match what is seen. [`MicrobitMatrix`] says which LED of the 5×5 image
//! sits at each matrix position; a [`MicrobitFrame`] holds an image in the
//! form that the display driver reads, one [`RowPlan`] for each matrix row.
use vstd::prelude::*;
use crate::bits::{has_bit, bit, subset_of, lemma_bit_or, lemma_bit_single, lemma_zero_has_no_bit,
    lemma_same_bits, lemma_bit_and, lemma_bit_not};
use crate::gpio::{Revision, IMAGE_COLS, IMAGE_ROWS, MAX_ROWS, MAX_COLS};
use crate::display::nonblocking::image::{Render, MAX_BRIGHTNESS};

verus! {

/// The image coordinates (x, y) of the LED at each matrix position of the
/// first revision, by column and row. Two positions hold no LED: their
/// entry lies outside the image.
pub const V1_LED_LAYOUT: [[(usize, usize); 3]; 9] = [
    [(0, 0), (4, 2), (2, 4)],
    [(2, 0), (0, 2), (4, 4)],
    [(4, 0), (2, 2), (0, 4)],
    [(4, 3), (1, 0), (0, 1)],
    [(3, 3), (3, 0), (1, 1)],
    [(2, 3), (3, 4), (2, 1)],
    [(1, 3), (1, 4), (3, 1)],
    [(0, 3), (5, 5), (4, 1)],
    [(1, 2), (5, 5), (3, 2)],
];

/// The matrix position (row, column) of each LED of the first revision, by
/// image row y and image column x.
pub const V1_LED_POSITION: [[(usize, usize); 5]; 5] = [
    [(0, 0), (1, 3), (0, 1), (1, 4), (0, 2)],
    [(2, 3), (2, 4), (2, 5), (2, 6), (2, 7)],
    [(1, 1), (0, 8), (1, 2), (2, 8), (1, 0)],
    [(0, 7), (0, 6), (0, 5), (0, 4), (0, 3)],
    [(2, 2), (1, 6), (2, 0), (1, 5), (2, 1)],
];

/// The image coordinates (x, y) of the LED at matrix position (`col`,
/// `row`), if there is one.
pub open spec fn layout(board: Revision, col: int, row: int) -> Option<(usize, usize)> {
    match board {
        Revision::V1 => {
            let (x, y) = V1_LED_LAYOUT[col][row];
            if x < 5 && y < 5 {
                Some((x, y))
            } else {
                None
            }
        },
        Revision::V2 => Some((col as usize, row as usize)),
    }
}

/// The matrix position (column, row) of the LED at image coordinates
/// (`x`, `y`).
pub open spec fn position(board: Revision, x: int, y: int) -> (int, int) {
    match board {
        Revision::V1 => (V1_LED_POSITION[y][x].1 as int, V1_LED_POSITION[y][x].0 as int),
        Revision::V2 => (x, y),
    }
}

/// Every LED of the image sits at exactly one matrix position, and every
/// matrix position holds an LED of the image or none.
pub proof fn lemma_layout(board: Revision)
    ensures
        forall|x: int, y: int|
            0 <= x < 5 && 0 <= y < 5 ==> {
                let (col, row) = #[trigger] position(board, x, y);
                &&& 0 <= col < board.cols()
                &&& 0 <= row < board.rows()
                &&& layout(board, col, row) == Some((x as usize, y as usize))
            },
        forall|col: int, row: int|
            0 <= col < board.cols() && 0 <= row < board.rows() ==> (
            #[trigger] layout(board, col, row) matches Some((x, y)) ==> x < 5 && y < 5 && position(
                board,
                x as int,
                y as int,
            ) == (col, row)),
{
    match board {
        Revision::V1 => {
            assert forall|x: int, y: int| 0 <= x < 5 && 0 <= y < 5 implies {
                let (col, row) = #[trigger] position(board, x, y);
                &&& 0 <= col < board.cols()
                &&& 0 <= row < board.rows()
                &&& layout(board, col, row) == Some((x as usize, y as usize))
            } by {
                let t = V1_LED_POSITION;
                let l = V1_LED_LAYOUT;
                assert(t[y][x] == t[y][x]);
            }
            assert forall|col: int, row: int|
                0 <= col < board.cols() && 0 <= row < board.rows() implies (#[trigger] layout(
                board,
                col,
                row,
            ) matches Some((x, y)) ==> x < 5 && y < 5 && position(board, x as int, y as int) == (
                col,
                row,
            )) by {
                let l = V1_LED_LAYOUT;
                assert(l[col][row] == l[col][row]);
            }
        },
        Revision::V2 => {},
    }
}

/// The LED matrix of a board.
#[derive(Copy, Clone, Debug)]
pub struct MicrobitMatrix {
    /// The board whose matrix this is.
    pub board: Revision,
}

impl MicrobitMatrix {
    /// The matrix of the given board.
    pub fn new(board: Revision) -> (matrix: MicrobitMatrix)
        ensures
            matrix.board == board,
    {
        MicrobitMatrix { board }
    }

    /// The number of pins connected to LED columns.
    pub fn matrix_cols(&self) -> (n: usize)
        ensures
            n == self.board.cols(),
            0 < n <= MAX_COLS,
    {
        self.board.num_cols()
    }

    /// The number of pins connected to LED rows.
    pub fn matrix_rows(&self) -> (n: usize)
        ensures
            n == self.board.rows(),
            0 < n <= MAX_ROWS,
    {
        self.board.num_rows()
    }

    /// Returns the image coordinates (x, y) of the LED at matrix position
    /// (`col`, `row`), or `None` if that position holds no LED.
    pub fn image_coordinates(&self, col: usize, row: usize) -> (led: Option<(usize, usize)>)
        requires
            col < self.board.cols(),
            row < self.board.rows(),
        ensures
            led == layout(self.board, col as int, row as int),
            led matches Some((x, y)) ==> x < IMAGE_COLS && y < IMAGE_ROWS,
    {
        proof {
            lemma_layout(self.board);
        }
        match self.board {
            Revision::V1 => {
                let (x, y) = V1_LED_LAYOUT[col][row];
                if x < 5 && y < 5 {
                    Some((x, y))
                } else {
                    None
                }
            },
            Revision::V2 => Some((col, row)),
        }
    }

    /// Returns the matrix position (column, row) of the LED at image
    /// coordinates (`x`, `y`).
    pub fn matrix_position(&self, x: usize, y: usize) -> (at: (usize, usize))
        requires
            x < IMAGE_COLS,
            y < IMAGE_ROWS,
        ensures
            (at.0 as int, at.1 as int) == position(self.board, x as int, y as int),
            at.0 < self.board.cols(),
            at.1 < self.board.rows(),
            layout(self.board, at.0 as int, at.1 as int) == Some((x, y)),
    {
        proof {
            lemma_layout(self.board);
            let at = position(self.board, x as int, y as int);
        }
        match self.board {
            Revision::V1 => {
                let (row, col) = V1_LED_POSITION[y][x];
                (col, row)
            },
            Revision::V2 => (x, y),
        }
    }
}

/// The part of an image that one matrix row shows, compiled for the
/// driver: for each brightness level from 1 to `MAX_BRIGHTNESS`, the set
/// of columns whose LED is at least that bright, and so still lit when the
/// time slice of that level runs.
#[derive(Copy, Clone, Debug)]
pub struct RowPlan {
    lit: [u32; 9],
}

impl RowPlan {
    /// The columns that are lit at brightness level `b`, as a bit set (bit
    /// 0 is column 0). Level 1 is the whole row as it is lit at the start
    /// of its window, and levels below 1 stand for it too; above
    /// `MAX_BRIGHTNESS` nothing is lit.
    pub closed spec fn level(&self, b: int) -> u32 {
        if b < 1 {
            self.lit[0]
        } else if b <= 9 {
            self.lit[b - 1]
        } else {
            0
        }
    }

    /// The columns that are lit at level `b` and not above: their LED has
    /// brightness `b` exactly (or at least `MAX_BRIGHTNESS`, for
    /// `b == MAX_BRIGHTNESS`).
    pub open spec fn ending_at(&self, b: int) -> u32 {
        self.level(b) & !self.level(b + 1)
    }

    /// Whether each level is lit within the level below it.
    pub open spec fn nested(&self) -> bool {
        forall|b: int| 1 <= b <= 9 ==> subset_of(#[trigger] self.level(b + 1), self.level(b))
    }

    /// Returns a new `RowPlan` with all LEDs at brightness 0.
    pub fn default() -> (plan: RowPlan)
        ensures
            forall|b: int| #[trigger] plan.level(b) == 0,
            plan.nested(),
    {
        let plan = RowPlan { lit: [0u32; 9] };
        proof {
            assert(0u32 & !0u32 == 0) by (bit_vector);
        }
        plan
    }

    /// Says which columns are lit at brightness level `brightness`.
    pub fn lit_cols(&self, brightness: u8) -> (cols: u32)
        requires
            1 <= brightness <= MAX_BRIGHTNESS,
        ensures
            cols == self.level(brightness as int),
    {
        self.lit[(brightness - 1) as usize]
    }

    /// Says which columns go dark when the time slice of level `brightness`
    /// ends.
    pub fn ending_cols(&self, brightness: u8) -> (cols: u32)
        requires
            1 <= brightness <= MAX_BRIGHTNESS,
        ensures
            cols == self.ending_at(brightness as int),
    {
        let above: u32 = if brightness < MAX_BRIGHTNESS {
            self.lit[brightness as usize]
        } else {
            0
        };
        self.lit[(brightness - 1) as usize] & !above
    }

    /// Sets the LED of column `col` to the given brightness, where it was
    /// off: it is lit at every level up to `brightness`.
    fn light_col(&mut self, brightness: u8, col: usize)
        requires
            col < 32,
        ensures
            forall|b: int, c: u32|
                1 <= b <= 9 && c < 32 ==> (#[trigger] has_bit(final(self).level(b), c) <==> has_bit(
                    old(self).level(b),
                    c,
                ) || (c == col && brightness >= b)),
    {
        let ghost before = *self;
        let mut level: u8 = 1;
        while level <= MAX_BRIGHTNESS
            invariant
                1 <= level <= 10,
                col < 32,
                forall|b: int, c: u32|
                    1 <= b <= 9 && c < 32 ==> (#[trigger] has_bit(self.level(b), c) <==> has_bit(
                        before.level(b),
                        c,
                    ) || (c == col && brightness >= b && b < level)),
            decreases 10 - level,
        {
            if brightness >= level {
                let ghost prev = *self;
                let i = (level - 1) as usize;
                let word = self.lit[i];
                self.lit[i] = word | (1u32 << (col as u32));
                proof {
                    assert forall|b: int, c: u32| 1 <= b <= 9 && c < 32 implies (#[trigger] has_bit(
                        self.level(b),
                        c,
                    ) <==> has_bit(before.level(b), c) || (c == col && brightness >= b && b < level
                        + 1)) by {
                        assert(has_bit(prev.level(b), c) <==> has_bit(before.level(b), c) || (c
                            == col && brightness >= b && b < level));
                        if b == level {
                            lemma_bit_or(word, bit(col as u32), c);
                            lemma_bit_single(col as u32, c);
                        } else {
                            assert(self.level(b) == prev.level(b));
                        }
                    }
                }
            }
            level += 1;
        }
    }
}

/// Whether the LED at matrix position (`col`, `row`) is lit at brightness
/// level `b` when `image` is shown: there is an LED at that position, and
/// the image gives it a brightness of at least `b`.
pub open spec fn lit_in<R: Render>(board: Revision, image: &R, row: int, col: int, b: int) -> bool {
    &&& 0 <= row < board.rows()
    &&& 0 <= col < board.cols()
    &&& layout(board, col, row) matches Some((x, y)) && image.brightness(x as int, y as int) >= b
}

/// A 'compiled' representation of a 5×5 image to be displayed: one
/// [`RowPlan`] for each matrix row.
///
/// Use [`MicrobitFrame::set`] to store an image in the frame.
#[derive(Copy, Clone, Debug)]
pub struct MicrobitFrame {
    plans: [RowPlan; 5],
}

impl MicrobitFrame {
    /// The plan of matrix row `row`.
    pub closed spec fn plan(&self, row: int) -> RowPlan {
        self.plans[row]
    }

    /// The columns of matrix row `row` that are lit at brightness level
    /// `b`, as a bit set.
    pub open spec fn level(&self, row: int, b: int) -> u32 {
        self.plan(row).level(b)
    }

    /// The columns of matrix row `row` that are lit when the row's window
    /// begins: those of every LED that is not off.
    pub open spec fn base_mask(&self, row: int) -> u32 {
        self.level(row, 1)
    }

    /// Whether all LEDs are off.
    pub open spec fn is_blank(&self) -> bool {
        forall|row: int, b: int| 0 <= row < MAX_ROWS ==> #[trigger] self.level(row, b) == 0
    }

    /// Whether, in every row, each level is lit within the level below it.
    pub open spec fn nested(&self) -> bool {
        forall|row: int| 0 <= row < MAX_ROWS ==> (#[trigger] self.plan(row)).nested()
    }

    /// Whether the frame holds `image`, compiled for the matrix of `board`:
    /// a column is set at a level exactly where its LED is lit at that level.
    pub open spec fn shows<R: Render>(&self, board: Revision, image: &R) -> bool {
        forall|row: int, b: int, col: u32|
            0 <= row < MAX_ROWS && 1 <= b <= 9 && col < 32 ==> (#[trigger] has_bit(
                self.level(row, b),
                col,
            ) <==> lit_in(board, image, row, col as int, b))
    }

    /// Whether the two frames light the same LEDs at every level.
    pub open spec fn same_as(&self, other: &MicrobitFrame) -> bool {
        forall|row: int, b: int| 0 <= row < MAX_ROWS ==> #[trigger] self.level(row, b) == other.level(row, b)
    }

    /// Returns a new frame, initially blank.
    pub fn default() -> (frame: MicrobitFrame)
        ensures
            frame.is_blank(),
            frame.nested(),
    {
        MicrobitFrame { plans: [RowPlan::default(); 5] }
    }

    /// Returns the plan of matrix row `row`.
    pub fn row_plan(&self, row: usize) -> (plan: &RowPlan)
        requires
            row < MAX_ROWS,
        ensures
            *plan == self.plan(row as int),
    {
        &self.plans[row]
    }

    /// Stores a new image into the frame, for the given matrix.
    ///
    /// Afterwards a column is set at brightness level `b` of a row exactly
    /// where the matrix has an LED there to which the image gives a
    /// brightness of at least `b`.
    pub fn set<R: Render>(&mut self, matrix: &MicrobitMatrix, image: &R)
        ensures
            final(self).shows(matrix.board, image),
            final(self).nested(),
    {
        let board = matrix.board;
        let rows = matrix.matrix_rows();
        let cols = matrix.matrix_cols();
        let mut row: usize = 0;
        while row < MAX_ROWS
            invariant
                row <= MAX_ROWS,
                rows == board.rows(),
                cols == board.cols(),
                matrix.board == board,
                forall|r: int, b: int, c: u32|
                    0 <= r < row && 1 <= b <= 9 && c < 32 ==> (#[trigger] has_bit(
                        self.level(r, b),
                        c,
                    ) <==> lit_in(board, image, r, c as int, b)),
            decreases MAX_ROWS - row,
        {
            let mut plan = RowPlan::default();
            proof {
                assert forall|b: int, c: u32| 1 <= b <= 9 && c < 32 implies !#[trigger] has_bit(
                    plan.level(b),
                    c,
                ) by {
                    lemma_zero_has_no_bit(c);
                }
            }
            if row < rows {
                let mut col: usize = 0;
                while col < cols
                    invariant
                        col <= cols,
                        row < rows,
                        rows == board.rows(),
                        cols == board.cols(),
                        matrix.board == board,
                        forall|b: int, c: u32|
                            1 <= b <= 9 && c < 32 ==> (#[trigger] has_bit(plan.level(b), c) <==> c
                                < col && lit_in(board, image, row as int, c as int, b)),
                    decreases cols - col,
                {
                    if let Some((x, y)) = matrix.image_coordinates(col, row) {
                        let brightness = image.brightness_at(x, y);
                        plan.light_col(brightness, col);
                    }
                    col += 1;
                }
            }
            let ghost before = *self;
            self.plans[row] = plan;
            proof {
                assert forall|r: int, b: int, c: u32|
                    0 <= r < row + 1 && 1 <= b <= 9 && c < 32 implies (#[trigger] has_bit(
                    self.level(r, b),
                    c,
                ) <==> lit_in(board, image, r, c as int, b)) by {
                    if r < row {
                        assert(self.plan(r) == before.plan(r));
                        assert(has_bit(before.level(r, b), c) <==> lit_in(
                            board,
                            image,
                            r,
                            c as int,
                            b,
                        ));
                    } else {
                        assert(self.plan(r) == plan);
                    }
                }
            }
            row += 1;
        }
        proof {
            lemma_shown_is_nested(*self, board, image);
        }
    }
}

impl Default for MicrobitFrame {
    /// Returns a new frame, initially blank.
    fn default() -> (frame: MicrobitFrame)
        ensures
            frame.is_blank(),
            frame.nested(),
    {
        MicrobitFrame::default()
    }
}

/// A frame that holds an image is nested: whatever is lit at one level is
/// lit at the level below, so that a brighter LED stays on at least as long
/// as a dimmer one.
pub proof fn lemma_shown_is_nested<R: Render>(frame: MicrobitFrame, board: Revision, image: &R)
    requires
        frame.shows(board, image),
    ensures
        frame.nested(),
        forall|row: int, b: int|
            0 <= row < MAX_ROWS && 0 <= b <= 9 ==> subset_of(
                #[trigger] frame.level(row, b + 1),
                frame.level(row, b),
            ),
{
    assert forall|row: int, b: int| 0 <= row < MAX_ROWS && 0 <= b <= 9 implies subset_of(
        #[trigger] frame.level(row, b + 1),
        frame.level(row, b),
    ) by {
        let upper = frame.level(row, b + 1);
        let lower = frame.level(row, b);
        if b == 0 {
            assert(upper == lower);
            assert(upper & !upper == 0) by (bit_vector);
        } else if b == 9 {
            assert(upper == 0);
            assert(0u32 & !lower == 0) by (bit_vector);
        } else {
            assert forall|c: u32| c < 32 && has_bit(upper, c) implies has_bit(lower, c) by {
                assert(lit_in(board, image, row, c as int, b + 1));
            }
            crate::bits::lemma_subset_bits(upper, lower);
        }
    }
    assert forall|row: int| 0 <= row < MAX_ROWS implies (#[trigger] frame.plan(row)).nested() by {
        assert forall|b: int| 1 <= b <= 9 implies subset_of(
            #[trigger] frame.plan(row).level(b + 1),
            frame.plan(row).level(b),
        ) by {
            assert(subset_of(frame.level(row, b + 1), frame.level(row, b)));
        }
    }
}

/// An LED is lit when its row's window begins exactly when the image has
/// that LED on: for every LED (`x`, `y`) of the image, the column of its
/// matrix position is in the base mask of its matrix row exactly when its
/// brightness is above 0.
pub proof fn lemma_base_mask_round_trip<R: Render>(
    frame: MicrobitFrame,
    board: Revision,
    image: &R,
    x: int,
    y: int,
)
    requires
        frame.shows(board, image),
        0 <= x < IMAGE_COLS,
        0 <= y < IMAGE_ROWS,
    ensures
        ({
            let (col, row) = position(board, x, y);
            &&& 0 <= col < board.cols()
            &&& 0 <= row < board.rows()
            &&& has_bit(frame.base_mask(row), col as u32) <==> image.brightness(x, y) > 0
        }),
{
    lemma_layout(board);
    let (col, row) = position(board, x, y);
    assert(has_bit(frame.level(row, 1), col as u32) <==> lit_in(board, image, row, col, 1));
}

/// There is one blank frame only.
pub proof fn lemma_blank_frames_equal(first: MicrobitFrame, second: MicrobitFrame)
    requires
        first.is_blank(),
        second.is_blank(),
    ensures
        first == second,
{
    assert forall|row: int| 0 <= row < 5 implies first.plans[row] == second.plans[row] by {
        let a = first.plans[row];
        let b = second.plans[row];
        assert forall|i: int| 0 <= i < 9 implies a.lit[i] == b.lit[i] by {
            assert(first.level(row, i + 1) == 0);
            assert(second.level(row, i + 1) == 0);
        }
        assert(a.lit =~= b.lit);
    }
    assert(first.plans =~= second.plans);
}

/// A frame that holds an image with every LED off is blank.
pub proof fn lemma_blank_image_shows_blank<R: Render>(
    frame: MicrobitFrame,
    board: Revision,
    image: &R,
)
    requires
        frame.shows(board, image),
        forall|x: int, y: int| 0 <= x < 5 && 0 <= y < 5 ==> #[trigger] image.brightness(x, y) == 0,
    ensures
        frame.is_blank(),
{
    lemma_layout(board);
    assert forall|row: int, b: int| 0 <= row < MAX_ROWS implies #[trigger] frame.level(row, b)
        == 0 by {
        if b > 9 {
        } else {
            let k = if b < 1 {
                1
            } else {
                b
            };
            assert(frame.level(row, b) == frame.level(row, k));
            assert forall|c: u32| c < 32 implies has_bit(frame.level(row, k), c) == has_bit(0, c) by {
                lemma_zero_has_no_bit(c);
                assert(has_bit(frame.level(row, k), c) <==> lit_in(board, image, row, c as int, k));
            }
            lemma_same_bits(frame.level(row, k), 0);
        }
    }
}

/// In a frame that holds an image, the columns that go dark at the end of
/// a level's slice are those of the LEDs of exactly that brightness (of at
/// least that brightness, for the maximum).
pub proof fn lemma_ending_is_brightness<R: Render>(
    frame: MicrobitFrame,
    board: Revision,
    image: &R,
    row: int,
    b: int,
    col: int,
)
    requires
        frame.shows(board, image),
        0 <= row < MAX_ROWS,
        1 <= b <= 9,
        0 <= col < 32,
    ensures
        has_bit(frame.plan(row).ending_at(b), col as u32) <==> lit_in(board, image, row, col, b) && (
        b == 9 || !lit_in(board, image, row, col, b + 1)),
{
    let here = frame.level(row, b);
    let above = frame.level(row, b + 1);
    lemma_bit_and(here, !above, col as u32);
    lemma_bit_not(above, col as u32);
    assert(has_bit(here, col as u32) <==> lit_in(board, image, row, col, b));
    if b < 9 {
        assert(has_bit(above, col as u32) <==> lit_in(board, image, row, col, b + 1));
    } else {
        lemma_zero_has_no_bit(col as u32);
    }
}

} // verus!
