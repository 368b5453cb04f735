use lib::clipboard::{self, Clipboard, ClipboardWindow, CLIPBOARD_MAX};
use lib::color::fill;
use lib::cursor::{draw, draw_builtin, restore_background, save_background, CursorBack, CURSOR_FILL, CURSOR_OUTLINE};
use lib::desktop::{capture, restore, DesktopBack};
use lib::display::{
    draw_bgra_image, draw_sprite, expand_bits, fill_rect, get_pixel, pack_color, put_pixel, screen_bytes,
    unpack_color, Framebuffer,
};
use lib::optimizer::Optimizer;
use lib::text::{glyph, is_ascii, TextWriter};

fn screen(w: usize, h: usize) -> Framebuffer {
    Framebuffer::new(w * 4, w, h, 32, 16, 8, 8, 8, 0, 8, 0)
}

#[test]
fn pixels_and_rectangles() {
    let mut fb = screen(64, 48);
    assert_eq!(fb.bytes_per_pixel, 4);
    put_pixel(&mut fb, 3, 4, 0x00ABCDEF);
    assert_eq!(get_pixel(&fb, 3, 4), 0x00ABCDEF);
    put_pixel(&mut fb, 64, 0, 0x1);
    assert_eq!(get_pixel(&fb, 64, 0), 0);
    fill_rect(&mut fb, 60, 40, 10, 10, 0x00112233);
    assert_eq!(get_pixel(&fb, 63, 47), 0x00112233);
    assert_eq!(get_pixel(&fb, 59, 47), 0);
    fill(&mut fb, 0x00FFFFFF);
    assert!(fb.back.iter().all(|&p| p == 0x00FFFFFF));
}

#[test]
fn cursor_save_then_restore_puts_screen_back() {
    let mut fb = screen(64, 48);
    for y in 0..48 {
        for x in 0..64 {
            put_pixel(&mut fb, x, y, (x * 100 + y) as u32);
        }
    }
    let before = fb.back.clone();
    let mut back = CursorBack::new();
    save_background(&mut back, &fb, 40, 30);
    draw_builtin(&mut fb, 40, 30);
    assert_eq!(get_pixel(&fb, 40, 30), CURSOR_OUTLINE);
    assert_ne!(fb.back, before);
    restore_background(&back, &mut fb, 40, 30);
    assert_eq!(fb.back, before);
}

#[test]
fn cursor_builtin_arrow_shape() {
    let mut fb = screen(64, 48);
    fill(&mut fb, 0x00123456);
    draw(&mut fb, 0, 0, None);
    assert_eq!(get_pixel(&fb, 0, 0), CURSOR_OUTLINE);
    assert_eq!(get_pixel(&fb, 1, 2), CURSOR_FILL);
    assert_eq!(get_pixel(&fb, 30, 0), 0x00123456);
}

#[test]
fn desktop_capture_then_restore() {
    let mut fb = screen(32, 16);
    for y in 0..16 {
        for x in 0..32 {
            put_pixel(&mut fb, x, y, (y * 32 + x) as u32);
        }
    }
    let before = fb.back.clone();
    let mut back = DesktopBack::new();
    capture(&mut back, &fb);
    assert_eq!((back.w, back.h), (32, 16));
    fill(&mut fb, 7);
    restore(&back, &mut fb);
    assert_eq!(fb.back, before);
}

#[test]
fn clipboard_copy_paste_and_clear() {
    let mut c = Clipboard::new();
    assert!(clipboard::data(&c).is_empty());
    clipboard::set(&mut c, b"hello");
    assert_eq!(clipboard::data(&c), b"hello");
    let big = vec![b'x'; CLIPBOARD_MAX + 5];
    clipboard::set(&mut c, &big);
    assert_eq!(clipboard::data(&c).len(), CLIPBOARD_MAX);
    let copy = clipboard::data(&c).to_vec();
    clipboard::set(&mut c, &copy);
    assert_eq!(clipboard::data(&c), &copy[..]);
    clipboard::clear(&mut c);
    assert!(clipboard::data(&c).is_empty());
}

#[test]
fn clipboard_window_shows_and_hides() {
    let fb = screen(1024, 768);
    let mut w = ClipboardWindow::new(&fb);
    assert!(!w.is_visible());
    w.show(&fb);
    assert!(w.is_visible());
    let (x, y, ww, wh) = w.rect(&fb);
    assert!(x + ww <= 1024 && y + wh <= 768);
    w.hide_window(&fb);
    assert!(!w.is_visible());
}

#[test]
fn text_glyphs_and_writer() {
    assert_eq!(glyph(b' '), [0u8; 8]);
    assert_ne!(glyph(b'A'), [0u8; 8]);
    assert!(is_ascii(b"abc"));
    assert!(!is_ascii(&[0x80]));
    let mut fb = screen(64, 16);
    let mut w = TextWriter::new(&fb);
    w.set_color(0x00FF0000);
    w.set_pos(0, 0);
    w.write_bytes(&mut fb, b"A");
    assert!(fb.back.iter().any(|&p| p == 0x00FF0000));
}

#[test]
fn optimizer_budget() {
    let fb = screen(1024, 768);
    let mut o = Optimizer::new();
    assert!(o.should_redraw_full());
    o.init(&fb);
    assert!(o.should_redraw_full());
    o.mark_clean();
    assert!(!o.should_redraw_full());
    o.add_dirty_rect(10, 10, 20, 20);
    assert!(!o.should_redraw_full());
    // A rectangle covering more than a fifth of the screen asks for a full redraw.
    o.add_dirty_rect(0, 0, 1024, 400);
    assert!(o.should_redraw_full());
    o.mark_clean();
    // Too many separate rectangles ask for one too.
    for i in 0..30 {
        o.add_dirty_rect(i * 30, (i % 2) * 300, 4, 4);
    }
    assert!(o.should_redraw_full());
    o.mark_clean();
    assert!(o.begin_frame());
    o.end_frame();
    o.toggle_optimization();
    assert!(o.should_redraw_full());
    o.toggle_optimization();
    assert!(o.should_redraw_full());
}

#[test]
fn optimizer_hang_protection() {
    let fb = screen(1024, 768);
    let mut o = Optimizer::new();
    o.init(&fb);
    let mut tripped = 0;
    for _ in 0..400 {
        if o.prevent_hang() {
            tripped += 1;
        }
    }
    assert_eq!(tripped, 1);
    o.mark_clean();
    // In low-memory mode every other idle frame is skipped.
    assert!(!o.begin_frame());
    assert!(o.begin_frame());
    o.reset_hang_protection();
    assert!(o.begin_frame());
    assert!(o.begin_frame());
}

#[test]
fn sprite_skips_transparent_and_offscreen_pixels() {
    let mut fb = screen(8, 8);
    fill(&mut fb, 9);
    let sprite = [1u32, 2, 0xFF00FF, 4, 5, 6];
    draw_sprite(&mut fb, 6, 6, 3, 2, &sprite, 0xFF00FF);
    assert_eq!(get_pixel(&fb, 6, 6), 1);
    assert_eq!(get_pixel(&fb, 7, 6), 2);
    assert_eq!(get_pixel(&fb, 6, 7), 4);
    assert_eq!(get_pixel(&fb, 7, 7), 5);
    assert_eq!(get_pixel(&fb, 5, 6), 9);
    // Too few pixels for the size: nothing drawn.
    draw_sprite(&mut fb, 0, 0, 3, 3, &sprite, 0xFF00FF);
    assert_eq!(get_pixel(&fb, 0, 0), 9);
    let mut fb2 = screen(8, 8);
    fill(&mut fb2, 9);
    draw_sprite(&mut fb2, 0, 0, 3, 1, &[0xFF00FF, 3, 3], 0xFF00FF);
    assert_eq!(get_pixel(&fb2, 0, 0), 9);
    assert_eq!(get_pixel(&fb2, 1, 0), 3);
}

fn rgb565() -> Framebuffer {
    Framebuffer::new(8, 4, 2, 16, 11, 5, 5, 6, 0, 5, 0)
}

#[test]
fn pixel_formats_pack_and_unpack() {
    let f = rgb565();
    assert_eq!(pack_color(&f, 0x00FFFFFF), 0xFFFF);
    assert_eq!(pack_color(&f, 0x00FF0000), 0xF800);
    assert_eq!(pack_color(&f, 0x0000FF00), 0x07E0);
    assert_eq!(unpack_color(&f, 0xF800), 0x00FF0000);
    assert_eq!(unpack_color(&f, 0x0000), 0);
    assert_eq!(expand_bits(31, 5), 255);
    assert_eq!(expand_bits(16, 5), 132);
    assert_eq!(expand_bits(3, 0), 0);
    assert_eq!(screen_bytes(&f, 0x00FF0000), vec![0x00, 0xF8]);
    let g = screen(4, 4);
    assert_eq!(screen_bytes(&g, 0x00112233), vec![0x33, 0x22, 0x11, 0x00]);
}

#[test]
fn raw_image_is_stretched_over_the_screen() {
    let mut fb = screen(4, 2);
    // A 2x1 image: blue-ish then red-ish.
    let mut img = vec![2, 0, 0, 0, 1, 0, 0, 0];
    img.extend_from_slice(&[0x10, 0x20, 0x30, 0xFF, 0x40, 0x50, 0x60, 0xFF]);
    assert!(draw_bgra_image(&mut fb, &img));
    assert_eq!(get_pixel(&fb, 0, 0), 0x00302010);
    assert_eq!(get_pixel(&fb, 1, 1), 0x00302010);
    assert_eq!(get_pixel(&fb, 2, 0), 0x00605040);
    assert_eq!(get_pixel(&fb, 3, 1), 0x00605040);
    // Too short for its size: refused, nothing drawn.
    let mut fb2 = screen(4, 2);
    assert!(!draw_bgra_image(&mut fb2, &img[..12]));
    assert!(fb2.back.iter().all(|&p| p == 0));
    assert!(!draw_bgra_image(&mut fb2, &[0, 0, 0, 0, 1, 0, 0, 0]));
}
