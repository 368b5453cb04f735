use lib::clipboard::Clipboard;
use lib::display::Framebuffer;
use lib::run_console::{run_command, Console, ConsoleAction};
use lib::rtc::RtcTime;
use lib::system::SystemState;

fn screen() -> Framebuffer {
    Framebuffer::new(1024 * 4, 1024, 768, 32, 16, 8, 8, 8, 0, 8, 0)
}

struct Env {
    c: Console,
    sys: SystemState,
    clip: Clipboard,
}

fn env() -> Env {
    let fb = screen();
    let mut c = Console::new(&fb);
    c.show(&fb);
    Env { c, sys: SystemState::new(), clip: Clipboard::new() }
}

fn type_line(e: &mut Env, text: &[u8], now: Option<RtcTime>) {
    for &ch in text {
        assert!(e.c.handle_char(ch, &mut e.sys, &mut e.clip, now));
    }
    e.c.handle_char(b'\n', &mut e.sys, &mut e.clip, now);
}

fn hist(e: &Env) -> Vec<Vec<u8>> {
    e.c.lines.clone()
}

#[test]
fn run_console_echo_and_prompt() {
    let mut e = env();
    type_line(&mut e, b"echo hello there", None);
    assert_eq!(hist(&e), vec![b"> echo hello there".to_vec(), b"hello there".to_vec()]);
    assert!(e.c.input.is_empty());
}

#[test]
fn run_console_help_lines() {
    let mut e = env();
    type_line(&mut e, b"help", None);
    let h = hist(&e);
    assert_eq!(h.len(), 8);
    assert_eq!(h[1], b"help  clear  cls  echo  ver".to_vec());
    assert_eq!(h[7], b"Try: echo hello".to_vec());
}

#[test]
fn run_console_clear_empties_history() {
    let mut e = env();
    type_line(&mut e, b"ping", None);
    assert_eq!(hist(&e), vec![b"> ping".to_vec(), b"pong".to_vec()]);
    type_line(&mut e, b"cls", None);
    assert!(hist(&e).is_empty());
}

#[test]
fn run_console_set_changes_settings() {
    let mut e = env();
    type_line(&mut e, b"set theme dark", None);
    assert!(e.sys.ui.dark);
    assert_eq!(hist(&e)[1], b"theme = dark".to_vec());
    type_line(&mut e, b"set clock 12", None);
    assert!(!e.sys.ui.clock_24h);
    type_line(&mut e, b"set mouse 3", None);
    assert_eq!(e.sys.ui.mouse_scale, 3);
    type_line(&mut e, b"set mouse 7", None);
    assert_eq!(e.sys.ui.mouse_scale, 3);
    assert_eq!(hist(&e).last().unwrap(), &b"usage: set mouse 1|2|3|4".to_vec());
    type_line(&mut e, b"set accent gray", None);
    assert_eq!(e.sys.ui.accent, 0x006B6B6B);
    type_line(&mut e, b"set statusbar off", None);
    assert!(!e.sys.ui.status_bar);
    type_line(&mut e, b"set volume 3", None);
    assert_eq!(hist(&e).last().unwrap(), &b"unknown setting".to_vec());
    type_line(&mut e, b"set", None);
    assert_eq!(hist(&e).last().unwrap(), &b"set theme dark|light".to_vec());
}

#[test]
fn run_console_copy_paste() {
    let mut e = env();
    type_line(&mut e, b"paste", None);
    assert_eq!(hist(&e).last().unwrap(), &b"(clipboard empty)".to_vec());
    type_line(&mut e, b"copy abc", None);
    assert_eq!(e.clip.bytes, b"abc".to_vec());
    type_line(&mut e, b"paste", None);
    assert_eq!(hist(&e).last().unwrap(), &b"abc".to_vec());
}

#[test]
fn run_console_actions() {
    let mut e = env();
    type_line(&mut e, b"dir", None);
    assert!(e.c.take_action() == ConsoleAction::OpenExplorer);
    assert!(e.c.take_action() == ConsoleAction::Idle);
    type_line(&mut e, b"clipboard", None);
    assert!(e.c.take_action() == ConsoleAction::OpenClipboard);
    type_line(&mut e, b"bogus", None);
    assert_eq!(hist(&e).last().unwrap(), &b"Unknown command".to_vec());
}

#[test]
fn run_console_input_editing() {
    let mut e = env();
    for &ch in b"abc" {
        e.c.handle_char(ch, &mut e.sys, &mut e.clip, None);
    }
    e.c.handle_char(8, &mut e.sys, &mut e.clip, None);
    e.c.handle_char(9, &mut e.sys, &mut e.clip, None);
    assert_eq!(e.c.input, b"ab".to_vec());
    for _ in 0..100 {
        e.c.handle_char(b'x', &mut e.sys, &mut e.clip, None);
    }
    assert_eq!(e.c.input.len(), 64);
}

#[test]
fn run_console_history_keeps_last_lines() {
    let mut e = env();
    for _ in 0..20 {
        type_line(&mut e, b"ping", None);
    }
    let h = hist(&e);
    assert_eq!(h.len(), 32);
    assert_eq!(h[31], b"pong".to_vec());
}

#[test]
fn run_command_directly() {
    let mut rand = 7u32;
    let mut sys = SystemState::new();
    let mut clip = Clipboard::new();
    let p = run_command(b"whoami", 6, &mut rand, 800, 600, &mut sys, &mut clip, None);
    assert!(!p.clear);
    assert!(p.action == ConsoleAction::Idle);
    let p = run_command(b"rand", 4, &mut rand, 800, 600, &mut sys, &mut clip, None);
    assert!(p.action == ConsoleAction::Idle);
    assert_ne!(rand, 7);
}

#[test]
fn run_console_hidden_takes_no_keys() {
    let fb = screen();
    let mut c = Console::new(&fb);
    let mut sys = SystemState::new();
    let mut clip = Clipboard::new();
    assert!(!c.handle_char(b'a', &mut sys, &mut clip, None));
    assert!(c.input.is_empty());
}
