use lib::color::{blend_rgb, lerp_rgb};
use lib::rtc::{bcd_to_bin, convert, read_time, RawTime, RtcTime};
use lib::system::{
    apply_timezone, days_in_month, get_gmt_offset, is_leap, set_gmt_offset, set_mouse_scale,
    toggle_theme, SystemState,
};
use lib::textfmt::{eq_ignore_case, split_first_word, write_i8, write_two, write_u32, write_u64};
use lib::window::{close_rect, drag_header_rect, header_rect, hit, maximize_rect, minimize_rect};

fn t(hour: u8, min: u8, sec: u8, day: u8, month: u8, year: u16) -> RtcTime {
    RtcTime { hour, min, sec, day, month, year }
}

#[test]
fn leap_years() {
    assert!(is_leap(2024));
    assert!(!is_leap(2023));
    assert!(!is_leap(1900));
    assert!(is_leap(2000));
}

#[test]
fn month_lengths() {
    assert_eq!(days_in_month(2024, 2), 29);
    assert_eq!(days_in_month(2023, 2), 28);
    assert_eq!(days_in_month(2023, 4), 30);
    assert_eq!(days_in_month(2023, 12), 31);
    assert_eq!(days_in_month(2023, 13), 31);
}

#[test]
fn timezone_rolls_forward_over_year() {
    let r = apply_timezone(t(23, 30, 0, 31, 12, 2024), 3);
    assert!(r == t(2, 30, 0, 1, 1, 2025));
}

#[test]
fn timezone_rolls_back_over_leap_day() {
    let r = apply_timezone(t(1, 0, 0, 1, 3, 2024), -5);
    assert!(r == t(20, 0, 0, 29, 2, 2024));
    let r = apply_timezone(t(1, 0, 0, 1, 3, 2023), -5);
    assert!(r == t(20, 0, 0, 28, 2, 2023));
}

#[test]
fn timezone_zero_keeps_time() {
    let now = t(12, 1, 2, 15, 6, 2024);
    assert!(apply_timezone(now, 0) == now);
}

#[test]
fn theme_toggles_twice_back() {
    let mut s = SystemState::new();
    let before = s;
    assert!(toggle_theme(&mut s));
    assert!(!toggle_theme(&mut s));
    assert!(s == before);
}

#[test]
fn mouse_scale_is_clamped() {
    let mut s = SystemState::new();
    set_mouse_scale(&mut s, 9);
    assert_eq!(s.ui.mouse_scale, 4);
    set_mouse_scale(&mut s, -3);
    assert_eq!(s.ui.mouse_scale, 1);
    set_mouse_scale(&mut s, 3);
    assert_eq!(s.ui.mouse_scale, 3);
}

#[test]
fn gmt_offset_round_trip() {
    let mut s = SystemState::new();
    set_gmt_offset(&mut s, -7);
    assert_eq!(get_gmt_offset(&s), -7);
}

#[test]
fn bcd_decoding() {
    assert_eq!(bcd_to_bin(0x59), 59);
    assert_eq!(bcd_to_bin(0x00), 0);
    assert_eq!(bcd_to_bin(0x12), 12);
}

#[test]
fn raw_clock_conversion() {
    // BCD, 12-hour clock, 11 PM.
    let raw = RawTime { sec: 0x45, min: 0x30, hour: 0x80 | 0x11, day: 0x07, month: 0x03, year: 0x24, status_b: 0 };
    assert!(convert(raw) == t(23, 30, 45, 7, 3, 2024));
    // Binary, 24-hour clock.
    let raw = RawTime { sec: 5, min: 6, hour: 7, day: 8, month: 9, year: 25, status_b: 0x06 };
    assert!(convert(raw) == t(7, 6, 5, 8, 9, 2025));
    // 12 AM in 12-hour mode is hour 0.
    let raw = RawTime { sec: 0, min: 0, hour: 0x12, day: 1, month: 1, year: 0, status_b: 0 };
    assert_eq!(convert(raw).hour, 0);
}

#[test]
fn clock_read_needs_two_equal_snapshots() {
    let a = RawTime { sec: 1, min: 2, hour: 3, day: 4, month: 5, year: 6, status_b: 0x06 };
    let b = RawTime { sec: 2, ..a };
    assert!(read_time(&[Some((a, b)), Some((b, b))]) == Some(t(3, 2, 2, 4, 5, 2006)));
    assert!(read_time(&[None, Some((b, b))]).is_none());
    assert!(read_time(&[Some((a, b)); 9]).is_none());
    assert!(read_time(&[]).is_none());
}

#[test]
fn decimal_writers() {
    let mut v = Vec::new();
    write_u64(&mut v, 1234567890123);
    assert_eq!(v, b"1234567890123".to_vec());
    let mut v = b"x=".to_vec();
    write_u32(&mut v, 0);
    write_two(&mut v, 7);
    write_i8(&mut v, -3);
    write_i8(&mut v, 12);
    assert_eq!(v, b"x=00712".to_vec());
}

#[test]
fn words_and_case() {
    assert!(eq_ignore_case(b"HeLLo", b"hello"));
    assert!(!eq_ignore_case(b"hello", b"hell"));
    let (w, rest) = split_first_word(b"   copy  some text", 18);
    assert_eq!(w, b"copy");
    assert_eq!(rest, b"some text");
    let (w, rest) = split_first_word(b"echo hi", 4);
    assert_eq!(w, b"echo");
    assert_eq!(rest, b"");
}

#[test]
fn colour_blending() {
    assert_eq!(blend_rgb(0x00102030, 0x00FFFFFF, 0), 0x00102030);
    assert_eq!(blend_rgb(0x00102030, 0x00FFFFFF, 255), 0x00FFFFFF);
    assert_eq!(lerp_rgb(0x00000000, 0x00FF0000, 0, 10), 0x00000000);
    assert_eq!(lerp_rgb(0x00000000, 0x00FF0000, 10, 10), 0x00FF0000);
    assert_eq!(lerp_rgb(0x00000000, 0x00640000, 5, 10), 0x00320000);
}

#[test]
fn window_buttons() {
    assert_eq!(close_rect(100, 50, 300), (100 + 300 - 32, 60, 22, 22));
    assert_eq!(maximize_rect(100, 50, 300), (100 + 300 - 32 - 28, 60, 22, 22));
    assert_eq!(minimize_rect(100, 50, 300), (100 + 300 - 32 - 56, 60, 22, 22));
    let d = drag_header_rect(100, 50, 300);
    assert_eq!(d.0, 112);
    assert_eq!(d.2, (100 + 300 - 32 - 56 - 6) - 112);
    assert_eq!(header_rect(1, 2, 3), (1, 2, 3, 42));
    assert!(hit(10, 10, (10, 10, 1, 1)));
    assert!(!hit(11, 10, (10, 10, 1, 1)));
    assert!(!hit(9, 10, (10, 10, 1, 1)));
}
