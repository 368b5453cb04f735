use lib::clipboard::Clipboard;
use lib::commands::{command_is_safe, execute_command, CommandResult, ConsoleAction, LineType};
use lib::rtc::RtcTime;
use lib::system::SystemState;

struct Env {
    rand: u32,
    sys: SystemState,
    clip: Clipboard,
}

fn env() -> Env {
    Env { rand: 1, sys: SystemState::new(), clip: Clipboard::new() }
}

fn run(e: &mut Env, cmd: &[u8], now: Option<RtcTime>) -> CommandResult {
    assert!(command_is_safe(cmd, cmd.len(), &e.sys, now));
    execute_command(cmd, cmd.len(), &mut e.rand, 1024, 768, &mut e.sys, &mut e.clip, now)
}

fn line(r: &CommandResult, i: usize) -> &[u8] {
    r.lines[i].as_slice()
}

#[test]
fn command_empty_line_does_nothing() {
    let mut e = env();
    let r = run(&mut e, b"   ", None);
    assert_eq!(r.count(), 0);
    assert!(r.action == ConsoleAction::Idle);
}

#[test]
fn command_help_lists_commands() {
    let mut e = env();
    let r = run(&mut e, b"help", None);
    assert_eq!(r.count(), 5);
    assert_eq!(line(&r, 0), b"=== Available Commands ===");
    assert!(r.types[0] == LineType::Info);
    assert!(r.types[1] == LineType::Normal);
}

#[test]
fn command_is_case_insensitive() {
    let mut e = env();
    let r = run(&mut e, b"PiNg", None);
    assert_eq!(line(&r, 0), b"pong");
    assert!(r.types[0] == LineType::Success);
}

#[test]
fn command_echo_repeats_rest() {
    let mut e = env();
    let r = run(&mut e, b"echo hello world", None);
    assert_eq!(r.count(), 1);
    assert_eq!(line(&r, 0), b"hello world");
    let r = run(&mut e, b"echo", None);
    assert_eq!(r.count(), 1);
    assert_eq!(line(&r, 0), b"");
}

#[test]
fn command_resolution_line() {
    let mut e = env();
    let r = run(&mut e, b"res", None);
    assert_eq!(line(&r, 0), b"Resolution: 1024x768");
    assert_eq!(line(&r, 1), b"Display mode active");
}

#[test]
fn command_unknown_is_error() {
    let mut e = env();
    let r = run(&mut e, b"frobnicate now", None);
    assert_eq!(line(&r, 0), b"Unknown: 'frobnicate'");
    assert!(r.types[0] == LineType::Error);
}

#[test]
fn command_rand_is_lcg() {
    let mut e = env();
    let r = run(&mut e, b"rand", None);
    let expected = 1u32.wrapping_mul(1664525).wrapping_add(1013904223);
    assert_eq!(e.rand, expected);
    assert_eq!(line(&r, 0), format!("Random: {}", expected).as_bytes());
}

#[test]
fn command_copy_then_paste() {
    let mut e = env();
    let r = run(&mut e, b"paste", None);
    assert_eq!(line(&r, 0), b"Clipboard is empty");
    assert!(r.types[0] == LineType::Error);
    let r = run(&mut e, b"copy some text", None);
    assert_eq!(line(&r, 0), b"Copied to clipboard");
    assert_eq!(e.clip.bytes, b"some text".to_vec());
    let r = run(&mut e, b"paste", None);
    assert_eq!(line(&r, 0), b"some text");
    let r = run(&mut e, b"copy", None);
    assert_eq!(line(&r, 0), b"Usage: copy <text>");
}

#[test]
fn command_actions() {
    let mut e = env();
    assert!(run(&mut e, b"ls", None).action == ConsoleAction::OpenExplorer);
    assert!(run(&mut e, b"clip", None).action == ConsoleAction::OpenClipboard);
    assert!(run(&mut e, b"note", None).action == ConsoleAction::OpenNotepad);
    assert!(run(&mut e, b"web", None).action == ConsoleAction::OpenBrowser);
    assert!(run(&mut e, b"reboot", None).action == ConsoleAction::Reboot);
    assert!(run(&mut e, b"shutdown", None).action == ConsoleAction::Shutdown);
}

#[test]
fn command_gmt_sets_offset() {
    let mut e = env();
    let r = run(&mut e, b"gmt", None);
    assert_eq!(line(&r, 0), b"Current GMT offset: +0");
    let r = run(&mut e, b"gmt -5", None);
    assert_eq!(line(&r, 0), b"GMT offset set to -5");
    assert_eq!(e.sys.gmt_offset, -5);
    let r = run(&mut e, b"tz +14", None);
    assert_eq!(line(&r, 0), b"GMT offset set to +14");
    assert_eq!(e.sys.gmt_offset, 14);
}

#[test]
fn command_gmt_errors() {
    let mut e = env();
    assert_eq!(line(&run(&mut e, b"gmt 15", None), 0), b"Offset out of range (-12..+14)");
    assert_eq!(line(&run(&mut e, b"gmt -13", None), 0), b"Offset out of range (-12..+14)");
    assert_eq!(line(&run(&mut e, b"gmt 3x", None), 0), b"Invalid number");
    assert_eq!(line(&run(&mut e, b"gmt +", None), 0), b"Missing number after sign");
    assert_eq!(e.sys.gmt_offset, 0);
}

#[test]
fn command_time_shows_a_far_west_offset() {
    let mut e = env();
    e.sys.gmt_offset = -128;
    let now = RtcTime { hour: 12, min: 0, sec: 0, day: 1, month: 1, year: 2024 };
    let r = run(&mut e, b"gmt", Some(now));
    assert_eq!(line(&r, 0), b"Current GMT offset: -128");
}

#[test]
fn command_gmt_long_number_is_out_of_range() {
    let mut e = env();
    let r = run(&mut e, b"gmt 149", None);
    assert_eq!(r.count(), 1);
    assert!(r.types[0] == LineType::Error);
    assert_eq!(line(&r, 0), b"Offset out of range (-12..+14)");
    assert_eq!(line(&run(&mut e, b"gmt -99999", None), 0), b"Offset out of range (-12..+14)");
    assert_eq!(e.sys.gmt_offset, 0);
}

#[test]
fn command_time_and_date_use_offset() {
    let mut e = env();
    let now = RtcTime { hour: 23, min: 5, sec: 9, day: 31, month: 12, year: 2024 };
    let r = run(&mut e, b"time", Some(now));
    assert_eq!(line(&r, 0), b"Time (GMT+0): 23:05:09");
    run(&mut e, b"gmt +2", None);
    let r = run(&mut e, b"time", Some(now));
    assert_eq!(line(&r, 0), b"Time (GMT+2): 01:05:09");
    let r = run(&mut e, b"date", Some(now));
    assert_eq!(line(&r, 0), b"Date: 2025-01-01");
    let r = run(&mut e, b"time", None);
    assert_eq!(line(&r, 0), b"Time unavailable");
    let r = run(&mut e, b"date", None);
    assert_eq!(line(&r, 0), b"Date unavailable");
}

#[test]
fn command_uptime_without_boot_time() {
    let mut e = env();
    let now = RtcTime { hour: 1, min: 0, sec: 0, day: 1, month: 1, year: 2024 };
    let r = run(&mut e, b"uptime", Some(now));
    assert_eq!(line(&r, 0), b"Uptime not available (RTC missing)");
    assert!(r.types[0] == LineType::Error);
}

#[test]
fn command_uptime_counts_seconds() {
    let mut e = env();
    e.sys.boot_time = Some(RtcTime { hour: 10, min: 0, sec: 0, day: 1, month: 1, year: 2024 });
    let now = RtcTime { hour: 11, min: 2, sec: 3, day: 1, month: 1, year: 2024 };
    let r = run(&mut e, b"uptime", Some(now));
    assert_eq!(line(&r, 0), b"1:02:03");
}

#[test]
fn command_mem_reports_mib() {
    let mut e = env();
    e.sys.info.mem_total_kib = 4096;
    e.sys.info.mem_avail_kib = 1024;
    let r = run(&mut e, b"mem", None);
    assert_eq!(line(&r, 0), b"=== Memory Info ===");
    assert_eq!(line(&r, 1), b"Total: 4 MiB");
    assert_eq!(line(&r, 2), b"Available: 1 MiB");
    assert_eq!(line(&r, 3), b"Used: 3 MiB");
    assert_eq!(line(&r, 4), b"Memory OK");
}

#[test]
fn command_result_holds_at_most_eight_lines() {
    let mut r = CommandResult::new();
    for _ in 0..10 {
        r.add_normal(b"x");
    }
    assert_eq!(r.count(), 8);
    let long = [b'a'; 100];
    let mut r = CommandResult::new();
    r.add_error(&long);
    assert_eq!(r.lines[0].len(), 64);
    assert!(r.types[0] == LineType::Error);
}
