use microbit::display::nonblocking::control::{MicrobitGpio, Ports};
use microbit::display::nonblocking::pins::{
    V1_P0_COLS, V1_P0_ROWS, V2_P0_COLS, V2_P0_ROWS, V2_P1_COLS,
};
use microbit::display::nonblocking::image::GreyscaleImage;
use microbit::display::nonblocking::matrix::MicrobitMatrix;
use microbit::display::nonblocking::timer::MicrobitDisplayTimer;
use microbit::display::nonblocking::Display;
use microbit::gpio::Revision;
use tiny_led_matrix::{Event, Frame, Matrix, RowPlan};

struct MatrixV1;

impl Matrix for MatrixV1 {
    const MATRIX_COLS: usize = 9;
    const MATRIX_ROWS: usize = 3;
    const IMAGE_COLS: usize = 5;
    const IMAGE_ROWS: usize = 5;
    fn image_coordinates(col: usize, row: usize) -> Option<(usize, usize)> {
        MicrobitMatrix::new(Revision::V1).image_coordinates(col, row)
    }
}

struct MatrixV2;

impl Matrix for MatrixV2 {
    const MATRIX_COLS: usize = 5;
    const MATRIX_ROWS: usize = 5;
    const IMAGE_COLS: usize = 5;
    const IMAGE_ROWS: usize = 5;
    fn image_coordinates(col: usize, row: usize) -> Option<(usize, usize)> {
        MicrobitMatrix::new(Revision::V2).image_coordinates(col, row)
    }
}

#[derive(Copy, Clone)]
struct FrameV1([RowPlan; 3]);

impl Default for FrameV1 {
    fn default() -> FrameV1 {
        FrameV1([RowPlan::default(); 3])
    }
}

impl Frame for FrameV1 {
    type Mtx = MatrixV1;
    fn row_plan(&self, row: usize) -> &RowPlan {
        &self.0[row]
    }
    fn row_plan_mut(&mut self, row: usize) -> &mut RowPlan {
        &mut self.0[row]
    }
}

#[derive(Copy, Clone)]
struct FrameV2([RowPlan; 5]);

impl Default for FrameV2 {
    fn default() -> FrameV2 {
        FrameV2([RowPlan::default(); 5])
    }
}

impl Frame for FrameV2 {
    type Mtx = MatrixV2;
    fn row_plan(&self, row: usize) -> &RowPlan {
        &self.0[row]
    }
    fn row_plan_mut(&mut self, row: usize) -> &mut RowPlan {
        &mut self.0[row]
    }
}

const IMAGE: [[u8; 5]; 5] = [
    [0, 1, 2, 3, 4],
    [5, 6, 7, 8, 9],
    [9, 0, 3, 0, 1],
    [2, 2, 2, 2, 2],
    [8, 8, 0, 9, 9],
];

/// Adds one tick to the count of every LED that is lit.
fn count_lit(board: Revision, ports: &Ports, ticks_lit: &mut [[u32; 5]; 5]) {
    let matrix = MicrobitMatrix::new(board);
    for row in 0..matrix.matrix_rows() {
        let row_pin = match board {
            Revision::V1 => V1_P0_ROWS[row],
            Revision::V2 => V2_P0_ROWS[row],
        };
        if ports.p0.out & (1 << row_pin) == 0 {
            continue;
        }
        for col in 0..matrix.matrix_cols() {
            let (word, pin) = match (board, col) {
                (Revision::V1, _) => (ports.p0.out, V1_P0_COLS[col]),
                (Revision::V2, 3) => (ports.p1.out, V2_P1_COLS[0]),
                (Revision::V2, 4) => (ports.p0.out, V2_P0_COLS[3]),
                (Revision::V2, _) => (ports.p0.out, V2_P0_COLS[col]),
            };
            if word & (1 << pin) == 0 {
                if let Some((x, y)) = matrix.image_coordinates(col, row) {
                    ticks_lit[y][x] += 1;
                }
            }
        }
    }
}

/// The ticks for which each LED is lit in one scan of the matrix, with the
/// engine of tiny-led-matrix on the library's timer and ports.
fn scan_with_tiny<F: Frame>(board: Revision) -> [[u32; 5]; 5] {
    let mut timer = MicrobitDisplayTimer::new((), board);
    let mut gpio = MicrobitGpio::new(board);
    tiny_led_matrix::initialise_control(&mut gpio);
    tiny_led_matrix::initialise_timer(&mut timer);
    let mut display = tiny_led_matrix::Display::<F>::new();
    let mut frame = F::default();
    frame.set(&GreyscaleImage::new(&IMAGE));
    display.set_frame(&frame);
    let rows = MicrobitMatrix::new(board).matrix_rows();
    let mut ticks_lit = [[0u32; 5]; 5];
    let mut switches = 0;
    for tick in 0..(2 * rows * 375) {
        // count the second scan: the first begins with a row of the blank
        // frame
        if tick >= rows * 375 {
            count_lit(board, &gpio.ports(), &mut ticks_lit);
        }
        timer.tick();
        if timer.interrupt_pending() {
            if display.handle_event(&mut timer, &mut gpio) == Event::SwitchedRow {
                switches += 1;
            }
        }
    }
    assert_eq!(switches, 2 * rows);
    ticks_lit
}

/// The same with the library's own display.
fn scan_with_library(board: Revision) -> [[u32; 5]; 5] {
    let mut display = Display::new((), (), board);
    display.show(&GreyscaleImage::new(&IMAGE));
    let rows = MicrobitMatrix::new(board).matrix_rows();
    let mut ticks_lit = [[0u32; 5]; 5];
    for tick in 0..(2 * rows * 375) {
        if tick >= rows * 375 {
            count_lit(board, &display.gpio().ports(), &mut ticks_lit);
        }
        display.run_tick();
    }
    ticks_lit
}

#[test]
fn library_timer_and_ports_serve_the_engine_of_tiny_led_matrix() {
    let expected = [
        [0, 2, 4, 8, 15],
        [28, 53, 102, 199, 375],
        [375, 0, 8, 0, 2],
        [4, 4, 4, 4, 4],
        [199, 199, 0, 375, 375],
    ];
    assert_eq!(scan_with_tiny::<FrameV2>(Revision::V2), expected);
    assert_eq!(scan_with_tiny::<FrameV1>(Revision::V1), expected);
}

#[test]
fn each_led_is_lit_as_long_as_with_tiny_led_matrix() {
    assert_eq!(scan_with_library(Revision::V2), scan_with_tiny::<FrameV2>(Revision::V2));
    assert_eq!(scan_with_library(Revision::V1), scan_with_tiny::<FrameV1>(Revision::V1));
}
