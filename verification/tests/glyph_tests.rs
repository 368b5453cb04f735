use lib::calculator::Calculator;
use lib::clipboard::{Clipboard, ClipboardWindow};
use lib::display::{fill_rect, get_pixel, put_pixel, Framebuffer};
use lib::start_menu::StartMenu;
use lib::status_bar::StatusBar;
use lib::system::SystemState;
use lib::taskbar::draw;
use lib::text::{glyph, TextWriter};
use lib::ui::draw_power_dots;

fn screen(w: usize, h: usize) -> Framebuffer {
    Framebuffer::new(w * 4, w, h, 32, 16, 8, 8, 8, 0, 8, 0)
}

fn lit(ch: u8, r: usize, c: usize) -> bool {
    (glyph(ch)[r] >> c) & 1 == 1
}

/// Every lit pixel of every glyph of `text`, drawn from `(x, y)`, has
/// colour `color`; returns how many there are.
fn lit_pixels(fb: &Framebuffer, x: usize, y: usize, text: &[u8], color: u32) -> usize {
    let mut n = 0;
    for (k, &ch) in text.iter().enumerate() {
        for r in 0..8 {
            for c in 0..8 {
                if lit(ch, r, c) {
                    assert_eq!(get_pixel(fb, x + 8 * k + c, y + r), color, "glyph {} of {:?}", k, text);
                    n += 1;
                }
            }
        }
    }
    n
}

#[test]
fn write_char_lights_exactly_the_glyph() {
    let mut fb = screen(64, 32);
    fill_rect(&mut fb, 0, 0, 64, 32, 0x00000000);
    let mut w = TextWriter::new(&fb);
    w.set_color(0x00FF0000);
    w.set_pos(8, 4);
    w.write_char(&mut fb, b'A');
    for r in 0..8 {
        for c in 0..8 {
            let want = if lit(b'A', r, c) { 0x00FF0000 } else { 0 };
            assert_eq!(get_pixel(&fb, 8 + c, 4 + r), want);
        }
    }
    assert_eq!(w.x, 16);
    assert_eq!(w.y, 4);
    // Nothing outside the cell changes.
    assert_eq!(get_pixel(&fb, 7, 4), 0);
    assert_eq!(get_pixel(&fb, 16, 4), 0);
    assert_eq!(get_pixel(&fb, 8, 12), 0);
}

#[test]
fn start_menu_shows_its_labels_and_icons() {
    let mut fb = screen(640, 480);
    let ui = SystemState::new().ui;
    let mut menu = StartMenu::new(&fb);
    menu.show(&fb);
    menu.refresh(&mut fb, &ui);
    let (x, y, _, _) = menu.rect(&fb);
    let text = if ui.dark { 0x00E0E0E0 } else { 0x00202020 };
    assert!(lit_pixels(&fb, x + 16 + 18 + 16, y + 16 + 8, b"Console", text) > 0);
    assert!(lit_pixels(&fb, x + 16 + 4, y + 16 + 8, b">", ui.accent) > 0);
    let grey = if ui.dark { 0x00808080 } else { 0x00707070 };
    assert!(lit_pixels(&fb, x + 16 + 4, y + 16 + 8 * 36 + 8, b"S", grey) > 0);
    assert!(lit_pixels(&fb, x + 16 + 18 + 16, y + 16 + 8 * 36 + 8, b"Shutdown", text) > 0);
    let sep = if ui.dark { 0x00333333 } else { 0x00F0F0F0 };
    assert_eq!(get_pixel(&fb, x + 16, y + 16 + 5 * 36 + 8), sep);
    assert_eq!(get_pixel(&fb, x + 280 - 17, y + 16 + 5 * 36 + 8), sep);
}

#[test]
fn calculator_display_shows_what_was_typed() {
    let mut fb = screen(800, 600);
    let ui = SystemState::new().ui;
    let mut calc = Calculator::new(&fb);
    calc.show();
    calc.handle_char(&fb, b'4');
    calc.handle_char(&fb, b'2');
    calc.redraw(&mut fb, &ui);
    let (x, y, w, _) = calc.rect(&fb);
    let d_x = x + 2 + 12;
    let d_y = y + 42 + 2 + 12;
    let color = if ui.dark { 0x00F0F0F0 } else { 0x00111111 };
    assert!(lit_pixels(&fb, d_x + (w - 24) - 2 * 8 - 8, d_y + 31, b"42", color) > 0);
    let title = if ui.dark { 0x00FFFFFF } else { 0x001A1A1A };
    assert!(lit_pixels(&fb, x + 22, y + 13, b"Calculator", title) > 0);
}

#[test]
fn status_bar_restore_puts_back_the_kept_rows() {
    let mut fb = screen(100, 60);
    for yy in 0..60 {
        for xx in 0..100 {
            put_pixel(&mut fb, xx, yy, (yy * 100 + xx) as u32);
        }
    }
    let mut bar = StatusBar::new();
    bar.capture(&fb);
    fill_rect(&mut fb, 0, 0, 100, 60, 0x00FFFFFF);
    bar.restore(&mut fb);
    // The bar's rows, the bottom 32, come back; the rows above do not.
    assert_eq!(get_pixel(&fb, 0, 28), 2800);
    assert_eq!(get_pixel(&fb, 99, 59), 5999);
    assert_eq!(get_pixel(&fb, 50, 40), 4050);
    assert_eq!(get_pixel(&fb, 50, 27), 0x00FFFFFF);
}

#[test]
fn taskbar_labels_its_buttons() {
    let mut fb = screen(640, 480);
    fill_rect(&mut fb, 0, 0, 640, 480, 0x00010203);
    let ui = SystemState::new().ui;
    let entries = [lib::taskbar::TaskbarEntry { index: 3, label: b"Notes", visible: true }];
    draw(&mut fb, &ui, &entries, Some(3), false);
    // The buttons' row: 4 pixels below the top of the 32-pixel bar.
    let row = 480 - 32 + 4;
    let start = if ui.dark { 0x00F3F5F8 } else { 0x00131A28 };
    assert!(lit_pixels(&fb, 18, row + 8, b"Start", start) > 0);
    // The focused window's button is labelled in white.
    assert!(lit_pixels(&fb, 78 + 8, row + 8, b"Notes", 0x00FFFFFF) > 0);
}

#[test]
fn clipboard_text_is_drawn_line_by_line() {
    let mut fb = screen(800, 600);
    let ui = SystemState::new().ui;
    let mut clip = Clipboard::new();
    lib::clipboard::set(&mut clip, b"ab\r\ncd");
    let mut win = ClipboardWindow::new(&fb);
    win.show(&fb);
    let _ = win.redraw(&mut fb, &ui, &clip);
    win.draw_text(&mut fb, &ui, &clip);
    let (x, y, _, _) = win.rect(&fb);
    let text_x = x + 12;
    let text_y = y + 42 + 1 + 12 + 22 + 12;
    let color = if ui.dark { 0x00FFFFFF } else { 0x00000000 };
    assert!(lit_pixels(&fb, text_x, text_y, b"ab", color) > 0);
    assert!(lit_pixels(&fb, text_x, text_y + 20, b"cd", color) > 0);
    let title = color;
    assert!(lit_pixels(&fb, x + 12, y + 8, b"Clipboard", title) > 0);
}

#[test]
fn power_dots_light_only_the_dots_of_the_step() {
    let mut fb = screen(200, 60);
    fill_rect(&mut fb, 0, 0, 200, 60, 0x00123456);
    draw_power_dots(&mut fb, false, 2);
    assert!(lit_pixels(&fb, 140, 20, b"..", 0x00FFFFFF) > 0);
    // The third place is a blank: nothing there changes.
    for r in 0..8 {
        for c in 0..8 {
            assert_eq!(get_pixel(&fb, 156 + c, 20 + r), 0x00123456);
        }
    }
}
