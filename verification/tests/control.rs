use microbit::display::nonblocking::control::{
    column_pins, pin_bits, split_cols, MicrobitGpio, Port, PortImage, PortWrite, Ports,
};
use microbit::display::nonblocking::pins::{
    V1_P0_COLS, V1_P0_ROWS, V2_P0_COLS, V2_P0_ROWS, V2_P1_COLS,
};
use microbit::gpio::Revision;

#[test]
fn pin_bits_sets_one_bit_for_each_pin() {
    assert_eq!(pin_bits(&[]), 0);
    assert_eq!(pin_bits(&[0]), 1);
    assert_eq!(pin_bits(&[31, 0, 4]), 0x8000_0011);
    assert_eq!(pin_bits(&[7, 7]), 0x80);
    assert_eq!(pin_bits(&V1_P0_COLS), 0x0000_1ff0);
    assert_eq!(pin_bits(&V1_P0_ROWS), 0x0000_e000);
    assert_eq!(pin_bits(&V2_P0_COLS), 0xd000_0800);
    assert_eq!(pin_bits(&V2_P1_COLS), 0x0000_0020);
    assert_eq!(pin_bits(&V2_P0_ROWS), 0x0168_8000);
}

#[test]
fn column_pins_maps_each_selected_column_to_its_pin() {
    assert_eq!(column_pins(0, &V1_P0_COLS), 0);
    assert_eq!(column_pins(0b101, &V1_P0_COLS), (1 << 4) | (1 << 6));
    assert_eq!(column_pins(0x1ff, &V1_P0_COLS), 0x0000_1ff0);
    // bits beyond the table select nothing
    assert_eq!(column_pins(0xffff_fe00, &V1_P0_COLS), 0);
    assert_eq!(column_pins(0b1010, &V2_P0_COLS), (1 << 11) | (1 << 30));
    assert_eq!(column_pins(1, &V2_P1_COLS), 1 << 5);
    assert_eq!(column_pins(0xffff_ffff, &[]), 0);
    // a table longer than the word: the columns from 32 on are never set
    let mut long = [0usize; 40];
    long[39] = 7;
    assert_eq!(column_pins(0xffff_ffff, &long), 1);
    assert_eq!(column_pins(0x8000_0000, &[3; 32]), 1 << 3);
}

#[test]
fn split_cols_puts_column_3_on_port_1() {
    assert_eq!(split_cols(Revision::V2, 0b00000), (0, 0));
    assert_eq!(split_cols(Revision::V2, 0b11111), (0b1111, 1));
    assert_eq!(split_cols(Revision::V2, 0b01000), (0, 1));
    assert_eq!(split_cols(Revision::V2, 0b10000), (0b1000, 0));
    assert_eq!(split_cols(Revision::V2, 0b00101), (0b0101, 0));
    assert_eq!(split_cols(Revision::V1, 0b1_0110_1001), (0b1_0110_1001, 0));
}

#[test]
fn new_gpio_is_in_reset_state() {
    let gpio = MicrobitGpio::new(Revision::V2);
    assert_eq!(gpio.board(), Revision::V2);
    let reset = PortImage { dir: 0, out: 0 };
    assert_eq!(gpio.ports(), Ports { p0: reset, p1: reset });
    assert!(gpio.writes().is_empty());
}

#[test]
fn initialise_for_display_makes_outputs_and_columns_high() {
    let mut gpio = MicrobitGpio::new(Revision::V1);
    gpio.initialise_for_display();
    let mut expected: Vec<PortWrite> = Vec::new();
    for pin in 4..=12 {
        expected.push(PortWrite::Output { port: Port::Port0, pin });
    }
    for pin in 13..=15 {
        expected.push(PortWrite::Output { port: Port::Port0, pin });
    }
    expected.push(PortWrite::High { port: Port::Port0, bits: 0x1ff0 });
    assert_eq!(gpio.writes(), &expected);
    assert_eq!(gpio.ports().p0, PortImage { dir: 0xfff0, out: 0x1ff0 });
    assert_eq!(gpio.ports().p1, PortImage { dir: 0, out: 0 });

    let mut gpio = MicrobitGpio::new(Revision::V2);
    gpio.initialise_for_display();
    let mut expected: Vec<PortWrite> = Vec::new();
    for pin in [28, 11, 31, 30, 21, 22, 15, 24, 19] {
        expected.push(PortWrite::Output { port: Port::Port0, pin });
    }
    expected.push(PortWrite::High { port: Port::Port0, bits: 0xd000_0800 });
    expected.push(PortWrite::Output { port: Port::Port1, pin: 5 });
    expected.push(PortWrite::High { port: Port::Port1, bits: 0x20 });
    assert_eq!(gpio.writes(), &expected);
    assert_eq!(gpio.ports().p0, PortImage { dir: 0xd168_8800, out: 0xd000_0800 });
    assert_eq!(gpio.ports().p1, PortImage { dir: 0x20, out: 0x20 });
}

#[test]
fn display_row_leds_clears_before_it_sets() {
    let mut gpio = MicrobitGpio::new(Revision::V2);
    gpio.initialise_for_display();
    gpio.display_row_leds(2, 0b01010);
    assert_eq!(
        gpio.writes(),
        &vec![
            PortWrite::Low { port: Port::Port0, bits: 0x0168_0000 | (1 << 11) },
            PortWrite::High { port: Port::Port1, bits: 0 },
            PortWrite::Low { port: Port::Port1, bits: 1 << 5 },
            PortWrite::High { port: Port::Port0, bits: (1 << 15) | 0xd000_0000 },
        ]
    );
    assert_eq!(gpio.ports().p0.out, (1 << 15) | 0xd000_0000);
    assert_eq!(gpio.ports().p1.out, 0);
    assert_eq!(gpio.ports().p0.dir, 0xd168_8800);

    let mut gpio = MicrobitGpio::new(Revision::V1);
    gpio.initialise_for_display();
    gpio.display_row_leds(0, 0b1_0000_0001);
    assert_eq!(
        gpio.writes(),
        &vec![
            PortWrite::Low { port: Port::Port0, bits: 0xc000 | 0x1010 },
            PortWrite::High { port: Port::Port0, bits: 0x2000 | 0x0fe0 },
        ]
    );
    assert_eq!(gpio.ports().p0.out, 0x2fe0);
    gpio.display_row_leds(2, 0);
    assert_eq!(gpio.ports().p0.out, 0x8000 | 0x1ff0);
}

#[test]
fn display_row_leds_leaves_other_pins_alone() {
    let mut gpio = MicrobitGpio::new(Revision::V1);
    gpio.initialise_for_display();
    gpio.display_row_leds(1, 0x1ff);
    let out = gpio.ports().p0.out;
    assert_eq!(out, 0x4000);
    // columns beyond the matrix are ignored
    gpio.display_row_leds(1, 0xffff_ffff);
    assert_eq!(gpio.ports().p0.out, 0x4000);
}

#[test]
fn light_and_darken_change_the_given_columns_only() {
    let mut gpio = MicrobitGpio::new(Revision::V2);
    gpio.initialise_for_display();
    gpio.display_row_leds(4, 0b00001);
    let row = 1 << 19;
    assert_eq!(gpio.ports().p0.out, row | (1 << 11) | (1 << 31) | (1 << 30));
    gpio.light_current_row_leds(0b11000);
    assert_eq!(
        gpio.writes(),
        &vec![
            PortWrite::Low { port: Port::Port0, bits: 1 << 30 },
            PortWrite::Low { port: Port::Port1, bits: 1 << 5 },
        ]
    );
    assert_eq!(gpio.ports().p0.out, row | (1 << 11) | (1 << 31));
    assert_eq!(gpio.ports().p1.out, 0);
    gpio.darken_current_row_leds(0b01001);
    assert_eq!(
        gpio.writes(),
        &vec![
            PortWrite::High { port: Port::Port0, bits: 1 << 28 },
            PortWrite::High { port: Port::Port1, bits: 1 << 5 },
        ]
    );
    assert_eq!(gpio.ports().p0.out, row | (1 << 28) | (1 << 11) | (1 << 31));
    assert_eq!(gpio.ports().p1.out, 1 << 5);
    gpio.rest();
    assert!(gpio.writes().is_empty());
    assert_eq!(gpio.ports().p1.out, 1 << 5);
}

#[test]
fn gpio_serves_as_display_control_of_tiny_led_matrix() {
    let mut gpio = MicrobitGpio::new(Revision::V2);
    tiny_led_matrix::initialise_control(&mut gpio);
    assert_eq!(gpio.writes().len(), 12);
    assert_eq!(gpio.ports().p1, PortImage { dir: 0x20, out: 0x20 });
    tiny_led_matrix::DisplayControl::display_row_leds(&mut gpio, 0, 0b11111);
    assert_eq!(gpio.ports().p0.out, 1 << 21);
    assert_eq!(gpio.ports().p1.out, 0);
    // a row that the board does not have is ignored
    let before = gpio.ports();
    tiny_led_matrix::DisplayControl::display_row_leds(&mut gpio, 5, 0);
    assert_eq!(gpio.ports(), before);
    tiny_led_matrix::DisplayControl::display_row_leds(&mut gpio, 1, 0);
    tiny_led_matrix::DisplayControl::light_current_row_leds(&mut gpio, 0b00100);
    assert_eq!(gpio.ports().p0.out, (1 << 22) | (1 << 28) | (1 << 11) | (1 << 30));
}
