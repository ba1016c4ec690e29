use microbit::display::blocking::{Display, DEFAULT_DELAY_MS};
use microbit::gpio::Revision;

const ARROW: [[u8; 5]; 5] = [
    [0, 0, 1, 0, 0],
    [0, 1, 1, 1, 0],
    [1, 0, 1, 0, 1],
    [0, 0, 1, 0, 0],
    [0, 0, 1, 0, 0],
];

#[test]
fn blocking_display_starts_with_the_default_delay() {
    let display = Display::new("pins", Revision::V1);
    assert_eq!(DEFAULT_DELAY_MS, 2);
    assert_eq!(display.delay_ms(), 2);
    assert_eq!(display.free(), "pins");
}

#[test]
fn refresh_rate_sets_the_delay_of_a_row() {
    let mut display = Display::new((), Revision::V1);
    display.set_refresh_rate(60);
    assert_eq!(display.delay_ms(), 5);
    display.set_refresh_rate(1);
    assert_eq!(display.delay_ms(), 333);
    display.set_refresh_rate(1001);
    assert_eq!(display.delay_ms(), 0);
    let mut display = Display::new((), Revision::V2);
    display.set_refresh_rate(60);
    assert_eq!(display.delay_ms(), 3);
    display.set_delay_ms(7);
    assert_eq!(display.delay_ms(), 7);
}

#[test]
fn image2matrix_places_each_led_at_its_matrix_position() {
    let mut image = [[0u8; 5]; 5];
    for y in 0..5 {
        for x in 0..5 {
            image[y][x] = (10 * y + x + 1) as u8;
        }
    }
    assert_eq!(
        Display::<()>::image2matrix(image),
        [
            [1, 3, 5, 35, 34, 33, 32, 31, 22],
            [25, 21, 23, 2, 4, 44, 42, 0, 0],
            [43, 45, 41, 11, 12, 13, 14, 15, 24],
        ]
    );
}

#[test]
fn show_plans_the_scan() {
    let display = Display::new((), Revision::V2);
    let scan = display.show(ARROW, 1000);
    assert_eq!(scan.loops, 100);
    assert_eq!(scan.hold_us, 2000);
    assert_eq!(scan.row_cols, [0b00100, 0b01110, 0b10101, 0b00100, 0b00100]);

    let mut display = Display::new((), Revision::V1);
    display.set_delay_ms(3);
    let scan = display.show(ARROW, 1000);
    assert_eq!(scan.loops, 111);
    assert_eq!(scan.hold_us, 3000);
    // matrix rows of the first revision: see image2matrix
    let matrix = Display::<()>::image2matrix(ARROW);
    for row in 0..3 {
        for col in 0..9 {
            assert_eq!(scan.row_cols[row] & (1 << col) != 0, matrix[row][col] > 0);
        }
    }
    assert_eq!(scan.row_cols[3], 0);
    assert_eq!(scan.row_cols[4], 0);
    assert_eq!(display.show([[0; 5]; 5], 5).loops, 0);
}

#[test]
fn pins_stay_with_the_display() {
    let mut display = Display::new(vec![1, 2], Revision::V2);
    display.pins().push(3);
    display.set_delay_ms(1);
    assert_eq!(display.free(), vec![1, 2, 3]);
}
