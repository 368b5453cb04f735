use lib::display::{fill_rect, get_pixel, Framebuffer};
use lib::optimizer::Optimizer;
use lib::system::SystemState;
use lib::taskbar::{draw, start_rect};
use lib::ui::{draw_power_box, draw_power_dots, power_message};
use lib::window::draw_window;

fn screen(w: usize, h: usize) -> Framebuffer {
    Framebuffer::new(w * 4, w, h, 32, 16, 8, 8, 8, 0, 8, 0)
}

#[test]
fn window_frame_stays_inside_its_box_and_paints_body_and_stripe() {
    let mut fb = screen(400, 300);
    fill_rect(&mut fb, 0, 0, 400, 300, 0x00123456);
    let ui = SystemState::new().ui;
    let layout = draw_window(&mut fb, &ui, 20, 30, 200, 150, b"Notes");
    assert_eq!(layout.content_x, 22);
    assert_eq!(layout.content_y, 30 + 42 + 2);
    assert_eq!(layout.content_w, 196);
    assert_eq!(layout.content_h, 150 - 46);
    // Outside the window and its shadow nothing changes.
    assert_eq!(get_pixel(&fb, 19, 40), 0x00123456);
    assert_eq!(get_pixel(&fb, 224, 100), 0x00123456);
    assert_eq!(get_pixel(&fb, 100, 29), 0x00123456);
    assert_eq!(get_pixel(&fb, 100, 184), 0x00123456);
    // The shadow, right of and below the window.
    assert_eq!(get_pixel(&fb, 222, 100), 0x00202020);
    // The accent stripe of the title bar.
    assert_eq!(get_pixel(&fb, 28, 44), ui.accent);
    assert_eq!(get_pixel(&fb, 30, 57), ui.accent);
    // The body below the title bar.
    assert_eq!(get_pixel(&fb, 21, 30 + 42), 0x00FDFDFD);
    assert_eq!(get_pixel(&fb, 219, 30 + 150 - 15), 0x00FDFDFD);
}

#[test]
fn power_message_fills_the_screen_and_centres_the_text() {
    let mut fb = screen(200, 100);
    fill_rect(&mut fb, 0, 0, 200, 100, 0x00ABCDEF);
    let ui = SystemState::new().ui;
    power_message(&mut fb, &ui, b"Restarting...");
    let bg = 0x00F0F0F0;
    assert_eq!(get_pixel(&fb, 0, 0), bg);
    assert_eq!(get_pixel(&fb, 199, 99), bg);
    assert_eq!(get_pixel(&fb, 100, 49), bg);
    assert_eq!(get_pixel(&fb, 100, 58), bg);
    // "R" starts at column (200 - 13 * 8) / 2 = 48, on row 50.
    let band: Vec<u32> = (50..58).flat_map(|y| (48..152).map(move |x| (x, y))).map(|(x, y)| get_pixel(&fb, x, y)).collect();
    assert!(band.iter().any(|&p| p == 0));
    assert!(band.iter().all(|&p| p == 0 || p == bg));
}

#[test]
fn taskbar_keeps_what_is_above_it() {
    let mut fb = screen(640, 480);
    fill_rect(&mut fb, 0, 0, 640, 480, 0x00010203);
    let ui = SystemState::new().ui;
    draw(&mut fb, &ui, &[], None, false);
    let start = start_rect(&fb);
    assert_eq!(get_pixel(&fb, 10, start.1 - 1), 0x00010203);
    assert_eq!(get_pixel(&fb, 300, 10), 0x00010203);
    assert_eq!(get_pixel(&fb, start.0, start.1), 0x00D9E5F3);
    assert_eq!(get_pixel(&fb, start.0 + 63, start.1 + 7), 0x00D9E5F3);
}

#[test]
fn dirty_rectangles_are_cut_to_the_screen_before_they_count() {
    let fb = screen(1024, 768);
    let mut o = Optimizer::new();
    o.init(&fb);
    o.mark_clean();
    // Cut to the 24 x 68 corner, it stays far within the budget.
    o.add_dirty_rect(1000, 700, 100_000, 100_000);
    assert!(!o.should_redraw_full());
    o.add_dirty_rect(5000, 10, 10, 10);
    assert!(!o.should_redraw_full());
}

#[test]
fn power_box_is_drawn_in_the_middle() {
    let mut fb = screen(400, 300);
    fill_rect(&mut fb, 0, 0, 400, 300, 0x00445566);
    draw_power_box(&mut fb, false);
    // The box spans (100, 120) to (300, 180).
    assert_eq!(get_pixel(&fb, 99, 150), 0x00445566);
    assert_eq!(get_pixel(&fb, 300, 150), 0x00445566);
    assert_eq!(get_pixel(&fb, 100, 120), 0x000077FF);
    assert_eq!(get_pixel(&fb, 299, 179), 0x000077FF);
    assert_eq!(get_pixel(&fb, 101, 150), 0x001A1A1A);
    let before = fb.back.clone();
    draw_power_dots(&mut fb, false, 0);
    assert_eq!(fb.back, before);
    draw_power_dots(&mut fb, false, 3);
    assert!((240..264).any(|x| (140..148).any(|y| get_pixel(&fb, x, y) == 0x00FFFFFF)));
    assert_eq!(get_pixel(&fb, 50, 50), 0x00445566);
}
