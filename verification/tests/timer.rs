use microbit::display::nonblocking::timer::{MicrobitDisplayTimer, TimerRegisters};
use microbit::gpio::Revision;

fn reset() -> TimerRegisters {
    TimerRegisters {
        running: false,
        counter: 0,
        bitmode: 16,
        prescaler: 4,
        cc0: 0,
        cc1: 0,
        compare0_clear: false,
        inten_compare0: false,
        inten_compare1: false,
        events_compare0: 0,
        events_compare1: 0,
    }
}

#[test]
fn new_timer_holds_the_peripheral_and_reset_registers() {
    let timer = MicrobitDisplayTimer::new("TIMER1", Revision::V1);
    assert_eq!(timer.registers(), reset());
    assert_eq!(*timer.device(), "TIMER1");
    assert_eq!(timer.free(), "TIMER1");
}

#[test]
fn initialise_cycle_programs_channel_0() {
    let mut timer = MicrobitDisplayTimer::new((), Revision::V1);
    timer.program_secondary(99);
    timer.load_events(0, 7);
    timer.initialise_cycle(375);
    assert_eq!(
        timer.registers(),
        TimerRegisters {
            running: true,
            prescaler: 8,
            cc0: 375,
            cc1: 99,
            compare0_clear: true,
            inten_compare0: true,
            events_compare1: 7,
            ..reset()
        }
    );
    let mut timer = MicrobitDisplayTimer::new((), Revision::V2);
    timer.initialise_cycle(1000);
    assert_eq!(timer.registers().prescaler, 7);
    assert_eq!(timer.registers().cc0, 1000);
}

#[test]
fn secondary_alarm_is_programmed_enabled_and_disabled() {
    let mut timer = MicrobitDisplayTimer::new((), Revision::V2);
    timer.program_secondary(53);
    assert_eq!(timer.registers(), TimerRegisters { cc1: 53, ..reset() });
    timer.enable_secondary();
    assert_eq!(timer.registers(), TimerRegisters { cc1: 53, inten_compare1: true, ..reset() });
    timer.disable_secondary();
    assert_eq!(timer.registers(), TimerRegisters { cc1: 53, ..reset() });
    timer.program_secondary(u16::MAX);
    assert_eq!(timer.registers().cc1, 0xffff);
}

#[test]
fn checks_report_and_clear_their_own_event() {
    let mut timer = MicrobitDisplayTimer::new((), Revision::V2);
    assert!(!timer.check_primary());
    assert!(!timer.check_secondary());
    timer.load_events(1, 0x8000_0000);
    assert!(timer.check_primary());
    assert_eq!(timer.registers().events_compare0, 0);
    assert_eq!(timer.registers().events_compare1, 0x8000_0000);
    assert!(!timer.check_primary());
    assert!(timer.check_secondary());
    assert!(!timer.check_secondary());
    assert_eq!(timer.registers(), reset());
}

#[test]
fn primary_event_comes_once_in_each_cycle() {
    let mut timer = MicrobitDisplayTimer::new((), Revision::V1);
    timer.tick();
    assert_eq!(timer.registers(), reset());
    timer.initialise_cycle(375);
    timer.program_secondary(28);
    let mut primaries = Vec::new();
    let mut secondaries = Vec::new();
    for tick in 1..=1000 {
        timer.tick();
        // the primary event alone raises the interrupt
        assert_eq!(timer.interrupt_pending(), timer.registers().events_compare0 != 0);
        if timer.check_primary() {
            primaries.push(tick);
        }
        if timer.check_secondary() {
            secondaries.push(tick);
        }
    }
    assert_eq!(primaries, vec![375, 750]);
    assert_eq!(secondaries, vec![28, 403, 778]);
    assert_eq!(timer.registers().counter, 250);
}

#[test]
fn counter_wraps_at_16_bits() {
    let mut timer = MicrobitDisplayTimer::new((), Revision::V2);
    timer.initialise_cycle(0);
    for _ in 0..0xffff {
        timer.tick();
        assert!(!timer.check_primary());
    }
    assert_eq!(timer.registers().counter, 0xffff);
    timer.tick();
    assert_eq!(timer.registers().counter, 0);
    assert!(timer.check_primary());
}

#[test]
fn timer_serves_as_display_timer_of_tiny_led_matrix() {
    let mut timer = MicrobitDisplayTimer::new((), Revision::V2);
    tiny_led_matrix::initialise_timer(&mut timer);
    assert_eq!(
        timer.registers(),
        TimerRegisters {
            running: true,
            prescaler: 7,
            cc0: 375,
            compare0_clear: true,
            inten_compare0: true,
            ..reset()
        }
    );
    tiny_led_matrix::DisplayTimer::program_secondary(&mut timer, 4);
    tiny_led_matrix::DisplayTimer::enable_secondary(&mut timer);
    assert!(timer.registers().inten_compare1);
    assert_eq!(timer.registers().cc1, 4);
    timer.load_events(0, 1);
    assert!(!tiny_led_matrix::DisplayTimer::check_primary(&mut timer));
    assert!(tiny_led_matrix::DisplayTimer::check_secondary(&mut timer));
    tiny_led_matrix::DisplayTimer::disable_secondary(&mut timer);
    assert!(!timer.registers().inten_compare1);
}
