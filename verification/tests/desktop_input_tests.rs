use lib::display::Framebuffer;
use lib::input::{bring_to_front, Desktop, WinKind};
use lib::rtc::RtcTime;
use lib::start_menu::{StartAction, StartMenu};
use lib::system::SystemState;

fn screen() -> Framebuffer {
    Framebuffer::new(1024 * 4, 1024, 768, 32, 16, 8, 8, 8, 0, 8, 0)
}

fn key(d: &mut Desktop, fb: &Framebuffer, sc: u8) {
    assert!(d.key_is_safe(sc, None));
    d.key_byte(fb, sc, None);
}

fn type_text(d: &mut Desktop, fb: &Framebuffer, text: &[u8]) {
    for &c in text {
        let sc = match c {
            b'e' => 0x12,
            b'c' => 0x2E,
            b'h' => 0x23,
            b'o' => 0x18,
            b'i' => 0x17,
            b'l' => 0x26,
            b's' => 0x1F,
            b' ' => 0x39,
            b'\n' => 0x1C,
            _ => panic!("no scan code in this test"),
        };
        key(d, fb, sc);
        key(d, fb, sc | 0x80);
    }
}

fn click(d: &mut Desktop, fb: &Framebuffer, x: usize, y: usize) -> Option<StartAction> {
    d.mouse_x = x;
    d.mouse_y = y;
    let mut power = None;
    for b in [0x09u8, 0, 0, 0x08, 0, 0] {
        let step = d.mouse_byte(fb, b);
        if step.power.is_some() {
            power = step.power;
        }
    }
    power
}

fn history(d: &Desktop) -> Vec<Vec<u8>> {
    d.console.history.iter().map(|l| l.text.clone()).collect()
}

#[test]
fn desktop_starts_idle() {
    let fb = screen();
    let d = Desktop::new(&fb, None, SystemState::new());
    assert_eq!((d.mouse_x, d.mouse_y), (511, 383));
    assert!(d.need_redraw);
    assert_eq!(d.layer(0), None);
    assert_eq!(d.layer(2), None);
}

#[test]
fn window_order_moves_to_front() {
    let mut order = vec![WinKind::Console, WinKind::Explorer, WinKind::Clipboard];
    bring_to_front(&mut order, WinKind::Console);
    assert!(order == vec![WinKind::Explorer, WinKind::Clipboard, WinKind::Console]);
    bring_to_front(&mut order, WinKind::Console);
    assert!(order == vec![WinKind::Explorer, WinKind::Clipboard, WinKind::Console]);
}

#[test]
fn win_key_toggles_start_menu_and_escape_closes_it() {
    let fb = screen();
    let mut d = Desktop::new(&fb, None, SystemState::new());
    key(&mut d, &fb, 0xE0);
    key(&mut d, &fb, 0x5B);
    assert!(d.start_menu.is_visible());
    assert!(d.win_key);
    key(&mut d, &fb, 0xE0);
    key(&mut d, &fb, 0xDB);
    assert!(!d.win_key);
    assert!(d.start_menu.is_visible());
    key(&mut d, &fb, 0x01);
    assert!(!d.start_menu.is_visible());
}

#[test]
fn start_menu_opens_console_and_typing_runs_commands() {
    let fb = screen();
    let mut d = Desktop::new(&fb, None, SystemState::new());
    key(&mut d, &fb, 0xE0);
    key(&mut d, &fb, 0x5B);
    key(&mut d, &fb, 0xE0);
    key(&mut d, &fb, 0xDB);
    let (mx, my, _, _) = d.start_menu.rect(&fb);
    assert_eq!(click(&mut d, &fb, mx + 20, my + 16 + 10), None);
    assert!(!d.start_menu.is_visible());
    assert!(d.console.is_visible());
    assert_eq!(d.layer(2), Some(WinKind::Console));
    type_text(&mut d, &fb, b"echo hi\n");
    assert_eq!(history(&d), vec![b"> echo hi".to_vec(), b"hi".to_vec()]);
    assert!(d.console.input.is_empty());
    // "ls" opens the explorer on top.
    type_text(&mut d, &fb, b"ls\n");
    assert!(d.explorer.is_visible());
    assert_eq!(d.layer(2), Some(WinKind::Explorer));
    // Escape hides the focused window, the explorer.
    key(&mut d, &fb, 0x01);
    assert!(!d.explorer.is_visible());
    assert!(d.console.is_visible());
}

#[test]
fn start_menu_power_entries_are_reported() {
    let fb = screen();
    let mut d = Desktop::new(&fb, None, SystemState::new());
    key(&mut d, &fb, 0xE0);
    key(&mut d, &fb, 0x5B);
    let (mx, my, _, _) = d.start_menu.rect(&fb);
    let p = click(&mut d, &fb, mx + 20, my + 16 + 7 * 36 + 10);
    assert!(p == Some(StartAction::Reboot));
}

#[test]
fn start_menu_entries() {
    let fb = screen();
    let mut m = StartMenu::new(&fb);
    assert!(m.handle_click(&fb, 10, 10).is_none());
    m.show(&fb);
    let (x, y, _, _) = m.rect(&fb);
    assert!(m.handle_click(&fb, x + 1, y + 16) == Some(StartAction::OpenConsole));
    assert!(m.handle_click(&fb, x + 1, y + 16 + 4 * 36) == Some(StartAction::OpenCalculator));
    assert!(m.handle_click(&fb, x + 1, y + 16 + 5 * 36).is_none());
    assert!(m.handle_click(&fb, x + 1, y + 16 + 6 * 36) == Some(StartAction::ToggleTheme));
    assert!(m.handle_click(&fb, x + 1, y + 16 + 8 * 36) == Some(StartAction::Shutdown));
    assert!(m.handle_click(&fb, x + 1, y + 5).is_none());
}

#[test]
fn mouse_reports_move_the_pointer() {
    let fb = screen();
    let mut d = Desktop::new(&fb, None, SystemState::new());
    // While a full redraw is pending the pointer moves without a
    // pointer-only redraw.
    d.mouse_byte(&fb, 0x08);
    d.mouse_byte(&fb, 1);
    assert_eq!(d.mouse_byte(&fb, 0).moved, None);
    assert_eq!((d.mouse_x, d.mouse_y), (512, 383));
    d.mouse_x = 511;
    d.need_redraw = false;
    let stray = d.mouse_byte(&fb, 0x00);
    assert!(stray.skip);
    let a = d.mouse_byte(&fb, 0x08);
    assert!(!a.skip && a.moved.is_none());
    d.mouse_byte(&fb, 4);
    let step = d.mouse_byte(&fb, 0xFE);
    assert_eq!(step.moved, Some((511, 383)));
    assert_eq!((d.mouse_x, d.mouse_y), (515, 385));
    assert_eq!(d.idx, 0);
}

#[test]
fn clock_redraws_on_new_second() {
    let fb = screen();
    let mut d = Desktop::new(&fb, None, SystemState::new());
    d.need_redraw = false;
    let t = RtcTime { hour: 1, min: 2, sec: 3, day: 4, month: 5, year: 2024 };
    d.clock(Some(t));
    assert!(d.need_redraw);
    assert!(d.last_time == Some(t));
    d.need_redraw = false;
    d.clock(Some(t));
    assert!(!d.need_redraw);
    d.clock(None);
    assert!(!d.need_redraw);
    d.sys.ui.status_bar = false;
    d.clock(Some(t));
    assert!(d.need_redraw);
    assert!(!d.status_visible);
}
