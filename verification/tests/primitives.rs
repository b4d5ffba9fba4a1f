use coopcore::cell::GuardedCell;
use coopcore::channel::Channel;
use coopcore::control::{
    apply_led_command, buzzer_duty, cycle_step, light_duty, next_duty, parse_net_command,
    rgb_compare, CycleColor, LedColor, LedCommand, NetCommand,
};
use coopcore::sensor::{calculate_temperature, raw_reading};

#[test]
fn empty_cell_reads_empty_twice() {
    let cell: GuardedCell<u32> = GuardedCell::empty();
    assert!(cell.peek().is_none());
    assert!(cell.peek().is_none());
    assert!(cell.is_empty());
}

#[test]
fn replace_twice_same_value_equals_once() {
    let mut once: GuardedCell<u32> = GuardedCell::empty();
    let mut twice: GuardedCell<u32> = GuardedCell::empty();
    once.replace(7);
    twice.replace(7);
    twice.replace(7);
    assert_eq!(*once.peek(), Some(7));
    assert_eq!(*twice.peek(), Some(7));
}

#[test]
fn cell_replace_returns_previous() {
    let mut cell: GuardedCell<u32> = GuardedCell::with_value(1);
    assert_eq!(cell.replace(2), Some(1));
    assert_eq!(cell.take(), Some(2));
    assert_eq!(cell.take(), None);
}

#[test]
fn channel_is_fifo() {
    let mut ch: Channel<u32> = Channel::new(3);
    assert!(ch.try_send(10).is_ok());
    assert!(ch.try_send(20).is_ok());
    assert!(ch.try_send(30).is_ok());
    assert_eq!(ch.try_recv(), Some(10));
    assert_eq!(ch.try_recv(), Some(20));
    assert!(ch.try_send(40).is_ok());
    assert_eq!(ch.try_recv(), Some(30));
    assert_eq!(ch.try_recv(), Some(40));
    assert_eq!(ch.try_recv(), None);
}

#[test]
fn channel_full_reports_would_block() {
    let mut ch: Channel<u32> = Channel::new(1);
    assert!(ch.try_send(5).is_ok());
    assert!(ch.is_full());
    assert_eq!(ch.try_send(6), Err(6));
    assert_eq!(ch.len(), 1);
    assert_eq!(ch.try_recv(), Some(5));
    assert!(ch.is_empty());
    assert_eq!(ch.try_recv(), None);
}

#[test]
fn channel_length_never_exceeds_capacity() {
    let mut ch: Channel<u32> = Channel::new(2);
    for v in 0..10u32 {
        let _ = ch.try_send(v);
        assert!(ch.len() <= ch.capacity());
    }
    assert_eq!(ch.len(), 2);
    assert_eq!(ch.try_recv(), Some(0));
    assert_eq!(ch.try_recv(), Some(1));
}

#[test]
fn raw_reading_assembles_twenty_bits() {
    assert_eq!(raw_reading(0x81, 0x23, 0x45), 528948);
    assert_eq!(raw_reading(0, 0, 0), 0);
    assert_eq!(raw_reading(0xFF, 0xFF, 0xFF), 0xFFFFF);
}

#[test]
fn temperature_formula_exact_values() {
    assert_eq!(calculate_temperature(0), -16653);
    assert_eq!(calculate_temperature(440064), 0);
    assert_eq!(calculate_temperature(529191), 2502);
    assert_eq!(calculate_temperature(519888), 2241);
    assert_eq!(calculate_temperature(0xFFFFF), 11142);
}

#[test]
fn led_command_steps_by_tenth_of_top() {
    let top: u16 = 0x8000;
    let mid: u16 = top / 2;
    let up = apply_led_command(mid, top, LedCommand::IncreaseI);
    assert_eq!(up, mid + top / 10);
    let down = apply_led_command(mid, top, LedCommand::DecreaseI);
    assert_eq!(down, mid - top / 10);
}

#[test]
fn duty_saturates_at_top() {
    let top: u16 = 0x8000;
    let interval: u16 = top / 10;
    assert_eq!(next_duty(top / 4, interval, top), top / 4 + interval);
    assert_eq!(next_duty(top, interval, top), top);
    assert_eq!(next_duty(top - 1, interval, top), top);
}

#[test]
fn colour_cycle_visits_red_yellow_blue() {
    let top: u16 = 0x8000;
    let (next, r, g, b) = cycle_step(CycleColor::Red, top);
    assert_eq!((next, r, g, b), (CycleColor::Yellow, top, 0, 0));
    let (next, r, g, b) = cycle_step(next, top);
    assert_eq!((next, r, g, b), (CycleColor::Blue, top, top, 0));
    let (next, r, g, b) = cycle_step(next, top);
    assert_eq!((next, r, g, b), (CycleColor::Red, 0, 0, top));
}

#[test]
fn rgb_compare_scales_selected_colour() {
    let top: u16 = 0x8000;
    assert_eq!(rgb_compare(Some(LedColor::Red), top, 4095), (32760, 0, 0));
    assert_eq!(rgb_compare(Some(LedColor::Green), top, 1000), (0, 8000, 0));
    assert_eq!(rgb_compare(Some(LedColor::Blue), top, 0), (0, 0, 0));
    assert_eq!(rgb_compare(None, top, 4095), (0, 0, 0));
}

#[test]
fn brighter_room_means_dimmer_led() {
    let top: u16 = 0x8000;
    assert_eq!(light_duty(top, 4095), 80);
    assert_eq!(light_duty(top, 100), 3270);
    assert!(light_duty(top, 100) > light_duty(top, 200));
}

#[test]
fn buzzer_sounds_only_above_threshold() {
    let top: u16 = 0x8000;
    assert_eq!(buzzer_duty(2502, top), top / 2);
    assert_eq!(buzzer_duty(2500, top), top / 2);
    assert_eq!(buzzer_duty(2499, top), 0);
    assert_eq!(buzzer_duty(0, top), 0);
    assert_eq!(buzzer_duty(-16653, top), 0);
}

#[test]
fn net_command_parses_trimmed_text() {
    assert_eq!(parse_net_command(b"led:on"), NetCommand::LedOn);
    assert_eq!(parse_net_command(b"led:off"), NetCommand::LedOff);
    assert_eq!(parse_net_command(b"  led:on\r\n"), NetCommand::LedOn);
    assert_eq!(parse_net_command(b"\tled:off \n"), NetCommand::LedOff);
    assert_eq!(parse_net_command(b"led:onx"), NetCommand::Other);
    assert_eq!(parse_net_command(b"LED:ON"), NetCommand::Other);
    assert_eq!(parse_net_command(b""), NetCommand::Other);
    assert_eq!(parse_net_command(b"   "), NetCommand::Other);
}
