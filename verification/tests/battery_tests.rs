use lib::battery::{detect_step, ec_ready, level_step, BatteryDriver, ProbeStep};

#[test]
fn probe_takes_the_emulator_level_first() {
    assert_eq!(detect_step(57, None, None), ProbeStep::Present(true));
    assert_eq!(level_step(57, None, None, None), ProbeStep::Level(57));
}

#[test]
fn probe_asks_the_controller_then_the_cmos() {
    assert_eq!(detect_step(0, None, None), ProbeStep::ReadEcStatus);
    assert_eq!(detect_step(101, Some(0x10), None), ProbeStep::Present(true));
    assert_eq!(detect_step(0, Some(0xFF), None), ProbeStep::ReadCmos);
    assert_eq!(detect_step(0, Some(0x00), Some(0x00)), ProbeStep::Present(true));
    assert_eq!(detect_step(0, Some(0x00), Some(0x04)), ProbeStep::Present(false));
}

#[test]
fn level_comes_from_the_controller_or_the_cmos() {
    assert_eq!(level_step(0, None, None, None), ProbeStep::ReadEcStatus);
    assert_eq!(level_step(0, Some(0x10), None, None), ProbeStep::ReadEcLevel);
    assert_eq!(level_step(0, Some(0x10), Some(42), None), ProbeStep::Level(42));
    assert_eq!(level_step(0, Some(0x10), Some(200), None), ProbeStep::ReadCmos);
    assert_eq!(level_step(0, Some(0x10), Some(200), Some(0x00)), ProbeStep::Level(100));
    assert_eq!(level_step(0, Some(0xFF), None, Some(0x04)), ProbeStep::Level(10));
}

#[test]
fn controller_ready_when_input_buffer_empty() {
    assert!(ec_ready(0x00));
    assert!(ec_ready(0x01));
    assert!(!ec_ready(0x02));
}

#[test]
fn driver_keeps_its_first_probe_and_updates_only_with_a_battery() {
    let mut d = BatteryDriver::new();
    assert!(d.needs_init());
    assert_eq!(d.shown_level(), None);
    d.init(true, 80);
    assert!(!d.needs_init());
    assert!(d.has_battery());
    assert_eq!(d.get_level(), 80);
    d.init(false, 5);
    assert_eq!(d.get_level(), 80);
    d.update(70);
    assert_eq!(d.shown_level(), Some(70));
    let mut e = BatteryDriver::new();
    e.init(false, 5);
    e.update(30);
    assert_eq!(e.get_level(), 100);
    assert_eq!(e.shown_level(), None);
}
