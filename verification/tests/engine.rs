use microbit::display::nonblocking::control::{Port, PortWrite, Ports};
use microbit::display::nonblocking::pins::{
    V1_P0_COLS, V1_P0_ROWS, V2_P0_COLS, V2_P0_ROWS, V2_P1_COLS,
};
use microbit::display::nonblocking::image::{BitImage, GreyscaleImage};
use microbit::display::nonblocking::matrix::{MicrobitFrame, MicrobitMatrix};
use microbit::display::nonblocking::{Display, CYCLE_TICKS, GREYSCALE_TIMINGS};
use microbit::gpio::Revision;

fn row_pin(board: Revision, row: usize) -> usize {
    match board {
        Revision::V1 => V1_P0_ROWS[row],
        Revision::V2 => V2_P0_ROWS[row],
    }
}

fn col_level(board: Revision, ports: &Ports, col: usize) -> bool {
    let (word, pin) = match board {
        Revision::V1 => (ports.p0.out, V1_P0_COLS[col]),
        Revision::V2 => match col {
            3 => (ports.p1.out, V2_P1_COLS[0]),
            4 => (ports.p0.out, V2_P0_COLS[3]),
            _ => (ports.p0.out, V2_P0_COLS[col]),
        },
    };
    word & (1 << pin) != 0
}

/// The LEDs that are lit, as (row, column) pairs in order.
fn lit(board: Revision, ports: &Ports) -> Vec<(usize, usize)> {
    let (rows, cols) = match board {
        Revision::V1 => (3, 9),
        Revision::V2 => (5, 5),
    };
    let mut leds = Vec::new();
    for row in 0..rows {
        for col in 0..cols {
            let row_high = ports.p0.out & (1 << row_pin(board, row)) != 0;
            if row_high && !col_level(board, ports, col) {
                leds.push((row, col));
            }
        }
    }
    leds
}

fn primary(display: &mut Display<(), ()>) {
    display.load_events(1, 0);
    display.handle_display_event();
}

fn secondary(display: &mut Display<(), ()>) {
    display.load_events(0, 1);
    display.handle_display_event();
}

#[test]
fn new_display_is_initialised_and_dark() {
    for board in [Revision::V1, Revision::V2] {
        let display = Display::new((), (), board);
        let registers = display.timer().registers();
        assert!(registers.running);
        assert_eq!(registers.cc0, 375);
        assert_eq!(registers.cc0, CYCLE_TICKS as u32);
        assert_eq!(registers.bitmode, 16);
        assert_eq!(registers.prescaler, if board == Revision::V1 { 8 } else { 7 });
        assert!(registers.compare0_clear);
        assert!(registers.inten_compare0);
        assert!(!registers.inten_compare1);
        assert_eq!(display.row(), 0);
        assert_eq!(display.pending_level(), 0);
        let ports = display.gpio().ports();
        assert_eq!(lit(board, &ports), vec![]);
        match board {
            Revision::V1 => {
                assert_eq!(ports.p0.dir, 0x0000_fff0);
                assert_eq!(ports.p0.out, 0x0000_1ff0);
                assert_eq!(ports.p1.dir, 0);
                assert_eq!(display.gpio().writes().len(), 13);
            }
            Revision::V2 => {
                assert_eq!(ports.p0.dir, 0xd168_8800);
                assert_eq!(ports.p0.out, 0xd000_0800);
                assert_eq!(ports.p1.dir, 0x20);
                assert_eq!(ports.p1.out, 0x20);
                assert_eq!(display.gpio().writes().len(), 12);
            }
        }
    }
}

#[test]
fn free_hands_the_peripherals_back() {
    let display = Display::new(17u8, "pins", Revision::V2);
    assert_eq!(display.free(), (17u8, "pins"));
}

#[test]
fn rows_cycle_whatever_is_shown() {
    for board in [Revision::V1, Revision::V2] {
        let rows = if board == Revision::V1 { 3 } else { 5 };
        let mut display = Display::new((), (), board);
        let mut visited = Vec::new();
        for n in 0..rows {
            if n == 1 {
                display.show(&GreyscaleImage::new(&[[3, 0, 9, 1, 5]; 5]));
            }
            primary(&mut display);
            visited.push(display.row());
        }
        assert_eq!(display.row(), 0);
        visited.sort();
        assert_eq!(visited, (0..rows).collect::<Vec<usize>>());
    }
}

#[test]
fn all_max_brightness_lights_every_column_without_an_alarm() {
    let mut display = Display::new((), (), Revision::V2);
    display.show(&GreyscaleImage::new(&[[9; 5]; 5]));
    for _ in 0..10 {
        primary(&mut display);
        let row = display.row();
        assert_eq!(
            lit(Revision::V2, &display.gpio().ports()),
            (0..5).map(|col| (row, col)).collect::<Vec<_>>()
        );
        assert_eq!(display.pending_level(), 0);
        assert!(!display.timer().registers().inten_compare1);
    }
}

#[test]
fn all_dark_lights_nothing_and_never_enables_the_alarm() {
    for board in [Revision::V1, Revision::V2] {
        let mut display = Display::new((), (), board);
        display.show(&GreyscaleImage::blank());
        for _ in 0..10 {
            primary(&mut display);
            assert_eq!(lit(board, &display.gpio().ports()), vec![]);
            assert_eq!(display.pending_level(), 0);
            assert!(!display.timer().registers().inten_compare1);
            // the row is displayed with an empty column set: on the second
            // revision no column pin goes low
            if board == Revision::V2 {
                let row_pin = V2_P0_ROWS[display.row()];
                let other_rows = 0x0168_8000 ^ (1 << row_pin);
                assert_eq!(
                    display.gpio().writes(),
                    &vec![
                        PortWrite::Low { port: Port::Port0, bits: other_rows },
                        PortWrite::High { port: Port::Port1, bits: 0x20 },
                        PortWrite::Low { port: Port::Port1, bits: 0 },
                        PortWrite::High { port: Port::Port0, bits: (1 << row_pin) | 0xd000_0800 },
                    ]
                );
            }
        }
    }
}

#[test]
fn one_led_of_brightness_5_takes_one_alarm_in_its_row_only() {
    let mut data = [[0u8; 5]; 5];
    data[3][1] = 5;
    let mut display = Display::new((), (), Revision::V2);
    display.show(&GreyscaleImage::new(&data));
    let mut alarms = 0;
    for _ in 0..5 {
        primary(&mut display);
        let registers = display.timer().registers();
        if display.row() == 3 {
            assert_eq!(lit(Revision::V2, &display.gpio().ports()), vec![(3, 1)]);
            assert_eq!(display.pending_level(), 5);
            assert!(registers.inten_compare1);
            assert_eq!(registers.cc1, 28);
            alarms += 1;
            secondary(&mut display);
            assert_eq!(lit(Revision::V2, &display.gpio().ports()), vec![]);
            assert_eq!(display.pending_level(), 0);
            assert!(!display.timer().registers().inten_compare1);
            assert_eq!(
                display.gpio().writes(),
                &vec![
                    PortWrite::High { port: Port::Port0, bits: 1 << 11 },
                    PortWrite::High { port: Port::Port1, bits: 0 },
                ]
            );
        } else {
            assert_eq!(lit(Revision::V2, &display.gpio().ports()), vec![]);
            assert_eq!(display.pending_level(), 0);
            assert!(!registers.inten_compare1);
        }
    }
    assert_eq!(alarms, 1);
}

#[test]
fn dimmest_led_goes_dark_two_ticks_into_its_row() {
    let mut data = [[0u8; 5]; 5];
    data[2][2] = 1;
    let mut display = Display::new((), (), Revision::V2);
    display.show(&GreyscaleImage::new(&data));
    primary(&mut display);
    primary(&mut display);
    assert_eq!(display.row(), 2);
    assert_eq!(lit(Revision::V2, &display.gpio().ports()), vec![(2, 2)]);
    assert_eq!(display.pending_level(), 1);
    assert_eq!(display.timer().registers().cc1, 2);
    assert!(display.timer().registers().inten_compare1);
    secondary(&mut display);
    assert_eq!(display.row(), 2);
    assert_eq!(lit(Revision::V2, &display.gpio().ports()), vec![]);
    assert_eq!(
        display.gpio().writes(),
        &vec![
            PortWrite::High { port: Port::Port0, bits: 1 << 31 },
            PortWrite::High { port: Port::Port1, bits: 0 },
        ]
    );
    assert!(!display.timer().registers().inten_compare1);
}

#[test]
fn leds_go_dark_in_the_order_of_their_brightness() {
    let mut display = Display::new((), (), Revision::V2);
    display.show(&GreyscaleImage::new(&[[0; 5], [7, 2, 9, 2, 4], [0; 5], [0; 5], [0; 5]]));
    primary(&mut display);
    assert_eq!(display.row(), 1);
    let ports = display.gpio().ports();
    assert_eq!(lit(Revision::V2, &ports), vec![(1, 0), (1, 1), (1, 2), (1, 3), (1, 4)]);
    assert_eq!(display.pending_level(), 2);
    assert_eq!(display.timer().registers().cc1, 4);
    secondary(&mut display);
    assert_eq!(lit(Revision::V2, &display.gpio().ports()), vec![(1, 0), (1, 2), (1, 4)]);
    assert_eq!(display.pending_level(), 4);
    assert_eq!(display.timer().registers().cc1, 15);
    secondary(&mut display);
    assert_eq!(lit(Revision::V2, &display.gpio().ports()), vec![(1, 0), (1, 2)]);
    assert_eq!(display.pending_level(), 7);
    assert_eq!(display.timer().registers().cc1, 102);
    secondary(&mut display);
    assert_eq!(lit(Revision::V2, &display.gpio().ports()), vec![(1, 2)]);
    assert_eq!(display.pending_level(), 0);
    assert!(!display.timer().registers().inten_compare1);
    // an alarm that nothing waits for changes nothing
    let before = display.gpio().ports();
    secondary(&mut display);
    assert_eq!(display.gpio().ports(), before);
    assert_eq!(display.row(), 1);
}

#[test]
fn a_new_cycle_comes_before_an_alarm_that_fired_with_it() {
    let mut display = Display::new((), (), Revision::V2);
    display.show(&GreyscaleImage::new(&[[3; 5]; 5]));
    primary(&mut display);
    assert_eq!(display.pending_level(), 3);
    display.load_events(1, 1);
    display.handle_display_event();
    assert_eq!(display.row(), 2);
    assert_eq!(display.pending_level(), 3);
    assert_eq!(lit(Revision::V2, &display.gpio().ports()).len(), 5);
    let registers = display.timer().registers();
    assert_eq!((registers.events_compare0, registers.events_compare1), (0, 0));
}

#[test]
fn events_are_cleared_when_nothing_fired() {
    let mut display = Display::new((), (), Revision::V1);
    let before = display.timer().registers();
    display.load_events(0, 0);
    display.handle_display_event();
    assert_eq!(display.timer().registers(), before);
    assert_eq!(display.row(), 0);
}

#[test]
fn clearing_twice_is_clearing_once() {
    let mut display = Display::new((), (), Revision::V2);
    display.show(&BitImage::new(&[[1; 5]; 5]));
    primary(&mut display);
    display.clear();
    let blank = MicrobitFrame::default();
    for row in 0..5 {
        for level in 1..=9 {
            assert_eq!(display.frame().row_plan(row).lit_cols(level), 0);
            assert_eq!(blank.row_plan(row).lit_cols(level), 0);
        }
    }
    let (ports, registers, row) =
        (display.gpio().ports(), display.timer().registers(), display.row());
    display.clear();
    display.show(&GreyscaleImage::blank());
    display.show(&BitImage::blank());
    for r in 0..5 {
        for level in 1..=9 {
            assert_eq!(display.frame().row_plan(r).lit_cols(level), 0);
        }
    }
    assert_eq!(
        (display.gpio().ports(), display.timer().registers(), display.row()),
        (ports, registers, row)
    );
}

#[test]
fn a_new_frame_waits_for_the_next_row() {
    let mut display = Display::new((), (), Revision::V2);
    display.show(&GreyscaleImage::new(&[[6; 5]; 5]));
    primary(&mut display);
    let mut frame = MicrobitFrame::default();
    frame.set(&MicrobitMatrix::new(Revision::V2), &GreyscaleImage::blank());
    display.show_frame(&frame);
    assert_eq!(display.pending_level(), 6);
    secondary(&mut display);
    assert_eq!(lit(Revision::V2, &display.gpio().ports()), vec![]);
    primary(&mut display);
    assert_eq!(lit(Revision::V2, &display.gpio().ports()), vec![]);
    assert_eq!(display.pending_level(), 0);
}

#[test]
fn tick_alone_handles_nothing() {
    let mut display = Display::new((), (), Revision::V2);
    for _ in 0..375 {
        display.tick();
    }
    assert!(display.timer().interrupt_pending());
    assert_eq!(display.timer().registers().events_compare0, 1);
    assert_eq!(display.timer().registers().counter, 0);
    assert_eq!(display.row(), 0);
    display.handle_display_event();
    assert!(!display.timer().interrupt_pending());
    assert_eq!(display.row(), 1);
}

#[test]
fn greyscale_timings_grow_by_about_1_9() {
    assert_eq!(GREYSCALE_TIMINGS, [2, 4, 8, 15, 28, 53, 102, 199]);
    for pair in GREYSCALE_TIMINGS.windows(2) {
        assert!(pair[0] < pair[1]);
        assert!(pair[1] < CYCLE_TICKS);
    }
}

#[test]
fn each_led_is_lit_for_the_ticks_of_its_brightness() {
    // Run the display against the timer image for two full scans and count
    // for how many ticks each LED is lit.
    let data = [
        [0, 1, 2, 3, 4],
        [5, 6, 7, 8, 9],
        [9, 0, 3, 0, 1],
        [2, 2, 2, 2, 2],
        [8, 8, 0, 9, 9],
    ];
    for board in [Revision::V1, Revision::V2] {
        let matrix = MicrobitMatrix::new(board);
        let rows = matrix.matrix_rows();
        let mut display = Display::new((), (), board);
        display.show(&GreyscaleImage::new(&data));
        let mut ticks_lit = [[0u32; 5]; 5];
        for _ in 0..(2 * rows * 375) {
            for (row, col) in lit(board, &display.gpio().ports()) {
                let (x, y) = matrix.image_coordinates(col, row).unwrap();
                ticks_lit[y][x] += 1;
            }
            display.run_tick();
        }
        for y in 0..5 {
            for x in 0..5 {
                let expected = match data[y][x] {
                    0 => 0,
                    9 => 375,
                    b => GREYSCALE_TIMINGS[b as usize - 1] as u32,
                };
                // the first scan starts dark until each row's first window
                let row = matrix.matrix_position(x, y).1;
                let windows = if row == 0 { 1 } else { 2 };
                assert_eq!(ticks_lit[y][x], windows * expected, "LED ({}, {})", x, y);
            }
        }
    }
}
