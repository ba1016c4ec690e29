use microbit::display::nonblocking::image::{BitImage, GreyscaleImage};
use microbit::display::nonblocking::matrix::{MicrobitFrame, MicrobitMatrix, RowPlan};
use microbit::gpio::Revision;

const GREY: [[u8; 5]; 5] = [
    [0, 9, 0, 9, 0],
    [9, 5, 9, 5, 9],
    [9, 5, 5, 5, 9],
    [0, 9, 5, 9, 0],
    [0, 0, 9, 0, 0],
];

#[test]
fn revisions_have_their_matrix_sizes() {
    assert_eq!((Revision::V1.num_rows(), Revision::V1.num_cols()), (3, 9));
    assert_eq!((Revision::V2.num_rows(), Revision::V2.num_cols()), (5, 5));
    let matrix = MicrobitMatrix::new(Revision::V1);
    assert_eq!((matrix.matrix_rows(), matrix.matrix_cols()), (3, 9));
}

#[test]
fn first_revision_layout_is_the_wiring_table() {
    let matrix = MicrobitMatrix::new(Revision::V1);
    assert_eq!(matrix.image_coordinates(0, 0), Some((0, 0)));
    assert_eq!(matrix.image_coordinates(0, 1), Some((4, 2)));
    assert_eq!(matrix.image_coordinates(0, 2), Some((2, 4)));
    assert_eq!(matrix.image_coordinates(3, 0), Some((4, 3)));
    assert_eq!(matrix.image_coordinates(6, 2), Some((3, 1)));
    assert_eq!(matrix.image_coordinates(7, 1), None);
    assert_eq!(matrix.image_coordinates(8, 1), None);
    assert_eq!(matrix.image_coordinates(8, 2), Some((3, 2)));
    assert_eq!(matrix.matrix_position(1, 0), (3, 1));
    assert_eq!(matrix.matrix_position(3, 2), (8, 2));
}

#[test]
fn every_led_has_one_matrix_position() {
    for board in [Revision::V1, Revision::V2] {
        let matrix = MicrobitMatrix::new(board);
        let mut leds = 0;
        for col in 0..matrix.matrix_cols() {
            for row in 0..matrix.matrix_rows() {
                if let Some((x, y)) = matrix.image_coordinates(col, row) {
                    leds += 1;
                    assert!(x < 5 && y < 5);
                    assert_eq!(matrix.matrix_position(x, y), (col, row));
                }
            }
        }
        assert_eq!(leds, 25);
    }
    let matrix = MicrobitMatrix::new(Revision::V2);
    assert_eq!(matrix.image_coordinates(3, 1), Some((3, 1)));
}

#[test]
fn default_frame_and_plan_are_blank() {
    let frame = MicrobitFrame::default();
    let other: MicrobitFrame = Default::default();
    let plan = RowPlan::default();
    for level in 1..=9 {
        assert_eq!(plan.lit_cols(level), 0);
        assert_eq!(plan.ending_cols(level), 0);
        for row in 0..5 {
            assert_eq!(frame.row_plan(row).lit_cols(level), 0);
            assert_eq!(other.row_plan(row).lit_cols(level), 0);
        }
    }
}

#[test]
fn frame_holds_for_each_level_the_leds_at_least_that_bright() {
    let mut frame = MicrobitFrame::default();
    frame.set(&MicrobitMatrix::new(Revision::V2), &GreyscaleImage::new(&GREY));
    // image row 1 is 9 5 9 5 9
    let plan = frame.row_plan(1);
    for level in 1..=5 {
        assert_eq!(plan.lit_cols(level), 0b11111);
    }
    for level in 6..=9 {
        assert_eq!(plan.lit_cols(level), 0b10101);
    }
    assert_eq!(plan.ending_cols(5), 0b01010);
    assert_eq!(plan.ending_cols(9), 0b10101);
    assert_eq!(plan.ending_cols(4), 0);
    // image row 3 is 0 9 5 9 0
    let plan = frame.row_plan(3);
    assert_eq!(plan.lit_cols(1), 0b01110);
    assert_eq!(plan.lit_cols(5), 0b01110);
    assert_eq!(plan.lit_cols(6), 0b01010);
    assert_eq!(plan.lit_cols(9), 0b01010);
}

#[test]
fn frame_levels_are_nested() {
    let image = GreyscaleImage::new(&[
        [0, 1, 2, 3, 4],
        [5, 6, 7, 8, 9],
        [9, 8, 7, 6, 5],
        [4, 3, 2, 1, 0],
        [1, 9, 0, 9, 1],
    ]);
    for board in [Revision::V1, Revision::V2] {
        let mut frame = MicrobitFrame::default();
        frame.set(&MicrobitMatrix::new(board), &image);
        for row in 0..5 {
            let plan = frame.row_plan(row);
            for level in 1..9 {
                assert_eq!(plan.lit_cols(level + 1) & !plan.lit_cols(level), 0);
            }
        }
    }
}

#[test]
fn base_mask_has_exactly_the_leds_that_are_on() {
    let image = GreyscaleImage::new(&GREY);
    for board in [Revision::V1, Revision::V2] {
        let matrix = MicrobitMatrix::new(board);
        let mut frame = MicrobitFrame::default();
        frame.set(&matrix, &image);
        for y in 0..5 {
            for x in 0..5 {
                let (col, row) = matrix.matrix_position(x, y);
                let in_base = frame.row_plan(row).lit_cols(1) & (1 << col) != 0;
                assert_eq!(in_base, GREY[y][x] > 0);
                for level in 1..=9u8 {
                    let lit = frame.row_plan(row).lit_cols(level) & (1 << col) != 0;
                    assert_eq!(lit, GREY[y][x] >= level);
                }
            }
        }
    }
}

#[test]
fn first_revision_frame_uses_three_rows_of_nine() {
    let mut frame = MicrobitFrame::default();
    frame.set(&MicrobitMatrix::new(Revision::V1), &BitImage::new(&[[1; 5]; 5]));
    assert_eq!(frame.row_plan(0).lit_cols(9), 0b1_1111_1111);
    assert_eq!(frame.row_plan(1).lit_cols(9), 0b0_0111_1111);
    assert_eq!(frame.row_plan(2).lit_cols(1), 0b1_1111_1111);
    assert_eq!(frame.row_plan(3).lit_cols(1), 0);
    assert_eq!(frame.row_plan(4).lit_cols(1), 0);
}

#[test]
fn set_replaces_what_the_frame_held() {
    let matrix = MicrobitMatrix::new(Revision::V2);
    let mut frame = MicrobitFrame::default();
    frame.set(&matrix, &GreyscaleImage::new(&[[9; 5]; 5]));
    frame.set(&matrix, &GreyscaleImage::new(&[[0, 0, 3, 0, 0]; 5]));
    for row in 0..5 {
        assert_eq!(frame.row_plan(row).lit_cols(3), 0b00100);
        assert_eq!(frame.row_plan(row).lit_cols(4), 0);
    }
    frame.set(&matrix, &BitImage::blank());
    for row in 0..5 {
        assert_eq!(frame.row_plan(row).lit_cols(1), 0);
    }
}

#[test]
fn a_value_above_the_maximum_is_shown_as_the_maximum() {
    let matrix = MicrobitMatrix::new(Revision::V2);
    let mut frame = MicrobitFrame::default();
    frame.set(&matrix, &GreyscaleImage::new(&[[200, 0, 0, 0, 10]; 5]));
    assert_eq!(frame.row_plan(0).lit_cols(9), 0b10001);
    assert_eq!(frame.row_plan(0).ending_cols(8), 0);
}
