use vstd::prelude::*;
use crate::display::{
    Framebuffer, fill_rect, put_pixel, in_area, kept_outside, painted, lemma_fill_frame, lemma_kept_chain,
    lemma_painted_kept,
};
use crate::system::UiSettings;
use crate::text::{TextWriter, ascii, glyph_cell, one_line, text_ink, lemma_one_line_ink, COORD_MAX};

verus! {

/// Height of a window's title bar, in pixels.
pub const HEADER_H: usize = 42;
/// Radius of a window's rounded corners.
pub const CORNER_RADIUS: usize = 14;

const BTN_SIZE: usize = 22;
const BTN_GAP: usize = 6;
const BTN_RIGHT_PAD: usize = 10;

/// A rectangle as `(x, y, w, h)`.
pub type Rect = (usize, usize, usize, usize);

/// Saturating subtraction, as a spec.
pub open spec fn sat_sub(a: int, b: int) -> int {
    if a >= b {
        a - b
    } else {
        0
    }
}

/// Whether point `(px, py)` lies inside `rect`.
pub open spec fn in_rect(px: int, py: int, rect: Rect) -> bool {
    px >= rect.0 && py >= rect.1 && px < rect.0 + rect.2 && py < rect.1 + rect.3
}

/// Point-in-rectangle test.
pub fn hit(px: usize, py: usize, rect: Rect) -> (r: bool)
    ensures
        r == in_rect(px as int, py as int, rect),
{
    px >= rect.0 && py >= rect.1 && (px - rect.0) < rect.2 && (py - rect.1) < rect.3
}

/// The close button of a window at `(x, y)` that is `w` wide: a 22-pixel
/// square 10 pixels in from the right edge, centred in the title bar.
pub open spec fn close_spec(x: int, y: int, w: int) -> (int, int, int, int) {
    (x + sat_sub(w, 32), y + 10, 22, 22)
}

/// The maximize button: 28 pixels left of the close button.
pub open spec fn maximize_spec(x: int, y: int, w: int) -> (int, int, int, int) {
    (sat_sub(close_spec(x, y, w).0, 28), y + 10, 22, 22)
}

/// The minimize button: 28 pixels left of the maximize button.
pub open spec fn minimize_spec(x: int, y: int, w: int) -> (int, int, int, int) {
    (sat_sub(maximize_spec(x, y, w).0, 28), y + 10, 22, 22)
}

/// The part of the title bar that drags the window: from 12 pixels in to 6
/// pixels before the minimize button.
pub open spec fn drag_spec(x: int, y: int, w: int) -> (int, int, int, int) {
    (x + 12, y, sat_sub(sat_sub(minimize_spec(x, y, w).0, 6), x + 12), HEADER_H as int)
}

/// Rectangle of the close button.
pub fn close_rect(x: usize, y: usize, w: usize) -> (r: Rect)
    requires
        x + w <= usize::MAX,
        y + 10 <= usize::MAX,
    ensures
        (r.0 as int, r.1 as int, r.2 as int, r.3 as int) == close_spec(x as int, y as int, w as int),
{
    let cx = x + w.saturating_sub(BTN_RIGHT_PAD + BTN_SIZE);
    let cy = y + (HEADER_H.saturating_sub(BTN_SIZE)) / 2;
    (cx, cy, BTN_SIZE, BTN_SIZE)
}

/// Rectangle of the maximize button.
pub fn maximize_rect(x: usize, y: usize, w: usize) -> (r: Rect)
    requires
        x + w <= usize::MAX,
        y + 10 <= usize::MAX,
    ensures
        (r.0 as int, r.1 as int, r.2 as int, r.3 as int) == maximize_spec(
            x as int,
            y as int,
            w as int,
        ),
{
    let close = close_rect(x, y, w);
    let cx = close.0.saturating_sub(BTN_SIZE + BTN_GAP);
    (cx, close.1, BTN_SIZE, BTN_SIZE)
}

/// Rectangle of the minimize button.
pub fn minimize_rect(x: usize, y: usize, w: usize) -> (r: Rect)
    requires
        x + w <= usize::MAX,
        y + 10 <= usize::MAX,
    ensures
        (r.0 as int, r.1 as int, r.2 as int, r.3 as int) == minimize_spec(
            x as int,
            y as int,
            w as int,
        ),
{
    let max = maximize_rect(x, y, w);
    let cx = max.0.saturating_sub(BTN_SIZE + BTN_GAP);
    (cx, max.1, BTN_SIZE, BTN_SIZE)
}

/// Rectangle of the draggable part of the title bar.
pub fn drag_header_rect(x: usize, y: usize, w: usize) -> (r: Rect)
    requires
        x + w <= usize::MAX,
        y + 10 <= usize::MAX,
        x + 12 <= usize::MAX,
    ensures
        (r.0 as int, r.1 as int, r.2 as int, r.3 as int) == drag_spec(x as int, y as int, w as int),
{
    let min_btn = minimize_rect(x, y, w);
    let start_x = x + 12;
    let right = min_btn.0.saturating_sub(6);
    let drag_w = right.saturating_sub(start_x);
    (start_x, y, drag_w, HEADER_H)
}

/// Rectangle of the whole title bar.
pub fn header_rect(x: usize, y: usize, w: usize) -> (r: Rect)
    ensures
        r == (x, y, w, HEADER_H),
{
    (x, y, w, HEADER_H)
}

/// Where a drawn window's parts lie.
#[derive(Debug, Copy, Clone)]
pub struct ChromeLayout {
    pub content_x: usize,
    pub content_y: usize,
    pub content_w: usize,
    pub content_h: usize,
    pub close: Rect,
    pub maximize: Rect,
    pub minimize: Rect,
    pub header: Rect,
    pub drag_header: Rect,
}

/// The layout of a window at `(x, y)` of size `w * h`: the content area
/// inset 2 pixels and below the title bar, and the title bar's parts.
pub open spec fn chrome_spec(x: int, y: int, w: int, h: int) -> ChromeLayout {
    ChromeLayout {
        content_x: (x + 2) as usize,
        content_y: (y + HEADER_H + 2) as usize,
        content_w: sat_sub(w, 4) as usize,
        content_h: sat_sub(h, HEADER_H + 4) as usize,
        close: (
            close_spec(x, y, w).0 as usize,
            close_spec(x, y, w).1 as usize,
            22,
            22,
        ),
        maximize: (
            maximize_spec(x, y, w).0 as usize,
            maximize_spec(x, y, w).1 as usize,
            22,
            22,
        ),
        minimize: (
            minimize_spec(x, y, w).0 as usize,
            minimize_spec(x, y, w).1 as usize,
            22,
            22,
        ),
        header: (x as usize, y as usize, w as usize, HEADER_H),
        drag_header: (
            (x + 12) as usize,
            y as usize,
            drag_spec(x, y, w).2 as usize,
            HEADER_H,
        ),
    }
}

/// Whether a window rectangle is small enough for the drawing code.
pub open spec fn window_fits(x: int, y: int, w: int, h: int) -> bool {
    0 <= x <= COORD_MAX && 0 <= y <= COORD_MAX && 0 <= w <= COORD_MAX && 0 <= h <= COORD_MAX
}

/// Whether `(px, py)` is inside the quarter disc of radius `r` that rounds
/// corner `corner` (0 top-left, 1 top-right, 2 bottom-left, 3 bottom-right) of
/// an `r * r` square.
pub open spec fn corner_inside(px: int, py: int, r: int, corner: u8) -> bool {
    let cx = if corner == 0 || corner == 2 {
        r
    } else {
        0
    };
    let cy = if corner == 0 || corner == 1 {
        r
    } else {
        0
    };
    if corner <= 3 {
        (px - cx) * (px - cx) + (py - cy) * (py - cy) <= r * r
    } else {
        true
    }
}

/// `v * v` for a small `v`.
fn square(v: i64) -> (r: i64)
    requires
        -64 <= v <= 64,
    ensures
        r == v * v,
        0 <= r <= 4096,
{
    assert(0 <= v * v <= 4096) by (nonlinear_arith)
        requires
            -64 <= v <= 64,
    ;
    v * v
}

/// Paints the part of the `r * r` square at `(x, y)` that a rounded corner covers.
fn draw_corner(fb: &mut Framebuffer, x: usize, y: usize, r: usize, corner: u8, color: u32)
    requires
        old(fb).wf(),
        x + r <= usize::MAX,
        y + r <= usize::MAX,
        r <= 64,
    ensures
        final(fb).wf(),
        final(fb).same_shape(old(fb)),
        kept_outside(*old(fb), *final(fb), x as int, y as int, r as int, r as int),
{
    let ri = r as i64;
    let r_sq = square(ri);
    let mut dy: usize = 0;
    while dy < r
        invariant
            fb.wf(),
            fb.same_shape(old(fb)),
            dy <= r,
            r <= 64,
            ri == r,
            r_sq == ri * ri,
            x + r <= usize::MAX,
            y + r <= usize::MAX,
            kept_outside(*old(fb), *fb, x as int, y as int, r as int, r as int),
        decreases r - dy,
    {
        let mut dx: usize = 0;
        while dx < r
            invariant
                fb.wf(),
                fb.same_shape(old(fb)),
                dx <= r,
                dy < r,
                r <= 64,
                ri == r,
                r_sq == ri * ri,
                x + r <= usize::MAX,
                y + r <= usize::MAX,
                kept_outside(*old(fb), *fb, x as int, y as int, r as int, r as int),
            decreases r - dx,
        {
            let px = dx as i64;
            let py = dy as i64;
            let inside = match corner {
                0 => square(px - ri) + square(py - ri) <= r_sq,
                1 => square(px) + square(py - ri) <= r_sq,
                2 => square(px - ri) + square(py) <= r_sq,
                3 => square(px) + square(py) <= r_sq,
                _ => true,
            };
            if inside {
                let ghost before = *fb;
                put_pixel(fb, x + dx, y + dy, color);
                assert forall|qx: int, qy: int|
                    0 <= qx < old(fb).width && 0 <= qy < old(fb).height && !in_area(
                        x as int,
                        y as int,
                        r as int,
                        r as int,
                        qx,
                        qy,
                    ) implies #[trigger] fb.pixel(qx, qy) == old(fb).pixel(qx, qy) by {
                    assert(before.pixel(qx, qy) == old(fb).pixel(qx, qy));
                }
            }
            dx = dx + 1;
        }
        dy = dy + 1;
    }
}

/// Background colour of a window body.
pub open spec fn window_bg(dark: bool) -> u32 {
    if dark {
        0x001A1A1A
    } else {
        0x00FDFDFD
    }
}

/// Whether a `w * h` window at column `x`, on a screen `screen_w` wide, has
/// room for its title bar, its three title-bar buttons and, left of them,
/// its title on one line.
pub open spec fn title_fits(x: int, w: int, h: int, screen_w: int, title: Seq<u8>) -> bool {
    &&& w >= 100
    &&& h >= HEADER_H
    &&& 22 + 8 * title.len() + 88 <= w
    &&& one_line(screen_w, x + 22, title)
}

/// Colour of a window's title.
pub open spec fn title_color(dark: bool) -> u32 {
    if dark {
        0x00FFFFFF
    } else {
        0x001A1A1A
    }
}

/// Colour of the signs on a window's title-bar buttons.
pub open spec fn icon_color(dark: bool) -> u32 {
    if dark {
        0x00B5BBC5
    } else {
        0x004B5563
    }
}

/// Draws a window frame (shadow, rounded body, title bar with title and the
/// three buttons) for a `w * h` window at `(x, y)` and returns its layout.
/// Where the buttons and the title fit, nothing outside the window and its
/// 4-pixel shadow changes, and the body below the title bar, down to the
/// bottom corners, is the background colour.
pub fn draw_window(
    fb: &mut Framebuffer,
    ui: &UiSettings,
    x: usize,
    y: usize,
    w: usize,
    h: usize,
    title: &[u8],
) -> (layout: ChromeLayout)
    requires
        old(fb).wf(),
        old(fb).width <= COORD_MAX,
        window_fits(x as int, y as int, w as int, h as int),
        w >= 2 * CORNER_RADIUS,
        h >= 2 * CORNER_RADIUS,
        ascii(title@),
        title@.len() <= COORD_MAX,
    ensures
        final(fb).wf(),
        final(fb).same_shape(old(fb)),
        layout == chrome_spec(x as int, y as int, w as int, h as int),
        title_fits(x as int, w as int, h as int, old(fb).width as int, title@) ==> kept_outside(
            *old(fb),
            *final(fb),
            x as int,
            y as int,
            w + 4,
            h + 4,
        ),
        title_fits(x as int, w as int, h as int, old(fb).width as int, title@) ==> painted(
            *final(fb),
            x as int,
            y + HEADER_H,
            w as int,
            h - HEADER_H - CORNER_RADIUS,
            window_bg(ui.dark),
        ),
        title_fits(x as int, w as int, h as int, old(fb).width as int, title@) ==> painted(
            *final(fb),
            x + 8,
            y + 14,
            3,
            14,
            ui.accent,
        ),
        title_fits(x as int, w as int, h as int, old(fb).width as int, title@) ==> forall|qx: int, qy: int|
            0 <= qx < old(fb).width && 0 <= qy < old(fb).height ==> {
                &&& text_ink(old(fb).width as int, x + 22, y + 13, title@, qx, qy) ==> #[trigger] final(fb).pixel(
                    qx,
                    qy,
                ) == title_color(ui.dark)
                &&& glyph_cell(45u8, minimize_spec(x as int, y as int, w as int).0 + 7, y + 16, qx, qy)
                    ==> final(fb).pixel(qx, qy) == icon_color(ui.dark)
                &&& glyph_cell(111u8, maximize_spec(x as int, y as int, w as int).0 + 7, y + 16, qx, qy)
                    ==> final(fb).pixel(qx, qy) == icon_color(ui.dark)
                &&& glyph_cell(120u8, close_spec(x as int, y as int, w as int).0 + 8, y + 16, qx, qy)
                    ==> final(fb).pixel(qx, qy) == icon_color(ui.dark)
            },
{
    let accent = ui.accent;
    let is_dark = ui.dark;

    let bg_main: u32 = if is_dark { 0x001A1A1A } else { 0x00FDFDFD };
    let header_bg: u32 = if is_dark { 0x00222222 } else { 0x00F3F4F6 };
    let text_primary: u32 = if is_dark { 0x00FFFFFF } else { 0x001A1A1A };
    let shadow_color: u32 = if is_dark { 0x00000000 } else { 0x00202020 };
    let outer_border: u32 = if is_dark { 0x00333333 } else { 0x00D1D5DB };

    let ghost fits = title_fits(x as int, w as int, h as int, old(fb).width as int, title@);
    let ghost bx = (x as int, y as int, w + 4, h + 4);
    let ghost body = (x as int, y + HEADER_H, w as int, h - HEADER_H - CORNER_RADIUS);
    let ghost stripe = (x + 8, y + 14, 3int, 14int);
    let ghost snap0 = *fb;
    assert(kept_outside(snap0, snap0, bx.0, bx.1, bx.2, bx.3));

    fill_rect(fb, x + 4, y + 4, w, h, shadow_color);
    proof {
        let a = (x + 4, y + 4, w as int, h as int);
        lemma_fill_frame(snap0, *fb, a.0, a.1, a.2, a.3, shadow_color);
        if fits {
            lemma_kept_chain(snap0, snap0, *fb, bx, a);
        }
    }
    let ghost snap1 = *fb;
    fill_rect(fb, x, y + CORNER_RADIUS, w, h - 2 * CORNER_RADIUS, bg_main);
    proof {
        let a = (x as int, y + CORNER_RADIUS, w as int, h - 2 * CORNER_RADIUS);
        lemma_fill_frame(snap1, *fb, a.0, a.1, a.2, a.3, bg_main);
        if fits {
            lemma_kept_chain(snap0, snap1, *fb, bx, a);
        }
        assert(painted(*fb, body.0, body.1, body.2, body.3, bg_main));
    }
    let ghost snap2 = *fb;
    fill_rect(fb, x + CORNER_RADIUS, y, w - 2 * CORNER_RADIUS, CORNER_RADIUS, bg_main);
    proof {
        let a = (x + CORNER_RADIUS, y as int, w - 2 * CORNER_RADIUS, CORNER_RADIUS as int);
        lemma_fill_frame(snap2, *fb, a.0, a.1, a.2, a.3, bg_main);
        if fits {
            lemma_kept_chain(snap0, snap2, *fb, bx, a);
        }
        lemma_painted_kept(snap2, *fb, body, bg_main, a);
    }
    let ghost snap3 = *fb;
    fill_rect(
        fb,
        x + CORNER_RADIUS,
        y + h - CORNER_RADIUS,
        w - 2 * CORNER_RADIUS,
        CORNER_RADIUS,
        bg_main,
    );
    proof {
        let a = (x + CORNER_RADIUS, y + h - CORNER_RADIUS, w - 2 * CORNER_RADIUS, CORNER_RADIUS as int);
        lemma_fill_frame(snap3, *fb, a.0, a.1, a.2, a.3, bg_main);
        if fits {
            lemma_kept_chain(snap0, snap3, *fb, bx, a);
        }
        lemma_painted_kept(snap3, *fb, body, bg_main, a);
    }

    let ghost snap4 = *fb;
    draw_corner(fb, x, y, CORNER_RADIUS, 0, bg_main);
    proof {
        let a = (x as int, y as int, CORNER_RADIUS as int, CORNER_RADIUS as int);
        if fits {
            lemma_kept_chain(snap0, snap4, *fb, bx, a);
        }
        lemma_painted_kept(snap4, *fb, body, bg_main, a);
    }
    let ghost snap5 = *fb;
    draw_corner(fb, x + w - CORNER_RADIUS, y, CORNER_RADIUS, 1, bg_main);
    proof {
        let a = (x + w - CORNER_RADIUS, y as int, CORNER_RADIUS as int, CORNER_RADIUS as int);
        if fits {
            lemma_kept_chain(snap0, snap5, *fb, bx, a);
        }
        lemma_painted_kept(snap5, *fb, body, bg_main, a);
    }
    let ghost snap6 = *fb;
    draw_corner(fb, x, y + h - CORNER_RADIUS, CORNER_RADIUS, 2, bg_main);
    proof {
        let a = (x as int, y + h - CORNER_RADIUS, CORNER_RADIUS as int, CORNER_RADIUS as int);
        if fits {
            lemma_kept_chain(snap0, snap6, *fb, bx, a);
        }
        lemma_painted_kept(snap6, *fb, body, bg_main, a);
    }
    let ghost snap7 = *fb;
    draw_corner(fb, x + w - CORNER_RADIUS, y + h - CORNER_RADIUS, CORNER_RADIUS, 3, bg_main);
    proof {
        let a = (x + w - CORNER_RADIUS, y + h - CORNER_RADIUS, CORNER_RADIUS as int, CORNER_RADIUS as int);
        if fits {
            lemma_kept_chain(snap0, snap7, *fb, bx, a);
        }
        lemma_painted_kept(snap7, *fb, body, bg_main, a);
    }

    let ghost snap8 = *fb;
    fill_rect(fb, x + CORNER_RADIUS, y, w - 2 * CORNER_RADIUS, HEADER_H, header_bg);
    proof {
        let a = (x + CORNER_RADIUS, y as int, w - 2 * CORNER_RADIUS, HEADER_H as int);
        lemma_fill_frame(snap8, *fb, a.0, a.1, a.2, a.3, header_bg);
        if fits {
            lemma_kept_chain(snap0, snap8, *fb, bx, a);
        }
        lemma_painted_kept(snap8, *fb, body, bg_main, a);
    }
    let ghost snap9 = *fb;
    fill_rect(fb, x, y + CORNER_RADIUS, w, HEADER_H - CORNER_RADIUS, header_bg);
    proof {
        let a = (x as int, y + CORNER_RADIUS, w as int, HEADER_H - CORNER_RADIUS);
        lemma_fill_frame(snap9, *fb, a.0, a.1, a.2, a.3, header_bg);
        if fits {
            lemma_kept_chain(snap0, snap9, *fb, bx, a);
        }
        lemma_painted_kept(snap9, *fb, body, bg_main, a);
    }
    let ghost snap10 = *fb;
    draw_corner(fb, x, y, CORNER_RADIUS, 0, header_bg);
    proof {
        let a = (x as int, y as int, CORNER_RADIUS as int, CORNER_RADIUS as int);
        if fits {
            lemma_kept_chain(snap0, snap10, *fb, bx, a);
        }
        lemma_painted_kept(snap10, *fb, body, bg_main, a);
    }
    let ghost snap11 = *fb;
    draw_corner(fb, x + w - CORNER_RADIUS, y, CORNER_RADIUS, 1, header_bg);
    proof {
        let a = (x + w - CORNER_RADIUS, y as int, CORNER_RADIUS as int, CORNER_RADIUS as int);
        if fits {
            lemma_kept_chain(snap0, snap11, *fb, bx, a);
        }
        lemma_painted_kept(snap11, *fb, body, bg_main, a);
    }

    let ghost snap12 = *fb;
    fill_rect(fb, x, y + HEADER_H - 1, w, 1, outer_border);
    proof {
        let a = (x as int, y + HEADER_H - 1, w as int, 1int);
        lemma_fill_frame(snap12, *fb, a.0, a.1, a.2, a.3, outer_border);
        if fits {
            lemma_kept_chain(snap0, snap12, *fb, bx, a);
        }
        lemma_painted_kept(snap12, *fb, body, bg_main, a);
    }
    let ghost snap13 = *fb;
    fill_rect(fb, x + 8, y + 14, 3, 14, accent);
    proof {
        let a = (x + 8, y + 14, 3int, 14int);
        lemma_fill_frame(snap13, *fb, a.0, a.1, a.2, a.3, accent);
        if fits {
            lemma_kept_chain(snap0, snap13, *fb, bx, a);
        }
        lemma_painted_kept(snap13, *fb, body, bg_main, a);
    }

    let close = close_rect(x, y, w);
    let maximize = maximize_rect(x, y, w);
    let minimize = minimize_rect(x, y, w);
    let btn_bg: u32 = if is_dark { 0x00333333 } else { 0x00E5E7EB };

    let ghost snap14 = *fb;
    fill_rect(fb, minimize.0, minimize.1, minimize.2, minimize.3, btn_bg);
    proof {
        let a = (minimize.0 as int, minimize.1 as int, 22int, 22int);
        lemma_fill_frame(snap14, *fb, a.0, a.1, a.2, a.3, btn_bg);
        if fits {
            lemma_kept_chain(snap0, snap14, *fb, bx, a);
        }
        lemma_painted_kept(snap14, *fb, body, bg_main, a);
        if fits {
            lemma_painted_kept(snap14, *fb, stripe, accent, a);
        }
    }
    let ghost snap15 = *fb;
    fill_rect(fb, maximize.0, maximize.1, maximize.2, maximize.3, btn_bg);
    proof {
        let a = (maximize.0 as int, maximize.1 as int, 22int, 22int);
        lemma_fill_frame(snap15, *fb, a.0, a.1, a.2, a.3, btn_bg);
        if fits {
            lemma_kept_chain(snap0, snap15, *fb, bx, a);
        }
        lemma_painted_kept(snap15, *fb, body, bg_main, a);
        if fits {
            lemma_painted_kept(snap15, *fb, stripe, accent, a);
        }
    }
    let ghost snap16 = *fb;
    fill_rect(fb, close.0, close.1, close.2, close.3, btn_bg);
    proof {
        let a = (close.0 as int, close.1 as int, 22int, 22int);
        lemma_fill_frame(snap16, *fb, a.0, a.1, a.2, a.3, btn_bg);
        if fits {
            lemma_kept_chain(snap0, snap16, *fb, bx, a);
        }
        lemma_painted_kept(snap16, *fb, body, bg_main, a);
        if fits {
            lemma_painted_kept(snap16, *fb, stripe, accent, a);
        }
    }

    let mut writer = TextWriter::new(fb);
    writer.set_color(text_primary);
    writer.set_pos(x + 22, y + 13);
    let ghost snap17 = *fb;
    writer.write_bytes(fb, title);
    let ghost titled = *fb;
    let ghost tw = snap17.width as int;
    proof {
        if fits {
            assert forall|qx: int, qy: int|
                0 <= qx < snap17.width && 0 <= qy < snap17.height && #[trigger] text_ink(tw, x + 22, y + 13, title@, qx, qy)
                    implies in_area(x + 22, y + 13, 8 * title@.len() as int, 8, qx, qy) by {
                lemma_one_line_ink(tw, x + 22, y + 13, title@, qx, qy);
            }
        }
    }
    proof {
        if fits {
            let a = (x + 22, y + 13, 8 * title@.len() as int, 8int);
            lemma_kept_chain(snap0, snap17, *fb, bx, a);
            lemma_painted_kept(snap17, *fb, body, bg_main, a);
            lemma_painted_kept(snap17, *fb, stripe, accent, a);
        }
    }

    let sign_color: u32 = if is_dark { 0x00B5BBC5 } else { 0x004B5563 };
    writer.set_color(sign_color);
    writer.set_pos(minimize.0 + 7, minimize.1 + 6);
    let ghost snap18 = *fb;
    writer.write_char(fb, 45u8);
    proof {
        let a = (minimize.0 + 7, minimize.1 + 6, 8int, 8int);
        if fits {
            lemma_kept_chain(snap0, snap18, *fb, bx, a);
            lemma_painted_kept(snap18, *fb, body, bg_main, a);
            lemma_painted_kept(snap18, *fb, stripe, accent, a);
        }
    }
    let ghost iconed1 = *fb;
    writer.set_pos(maximize.0 + 7, maximize.1 + 6);
    let ghost snap19 = *fb;
    writer.write_char(fb, 111u8);
    proof {
        let a = (maximize.0 + 7, maximize.1 + 6, 8int, 8int);
        if fits {
            lemma_kept_chain(snap0, snap19, *fb, bx, a);
            lemma_painted_kept(snap19, *fb, body, bg_main, a);
            lemma_painted_kept(snap19, *fb, stripe, accent, a);
        }
    }
    let ghost iconed2 = *fb;
    writer.set_pos(close.0 + 8, close.1 + 6);
    let ghost snap20 = *fb;
    writer.write_char(fb, 120u8);
    proof {
        let a = (close.0 + 8, close.1 + 6, 8int, 8int);
        if fits {
            lemma_kept_chain(snap0, snap20, *fb, bx, a);
            lemma_painted_kept(snap20, *fb, body, bg_main, a);
            lemma_painted_kept(snap20, *fb, stripe, accent, a);
        }
    }
    proof {
        if fits {
            assert forall|qx: int, qy: int| 0 <= qx < tw && 0 <= qy < snap0.height implies {
                &&& text_ink(tw, x + 22, y + 13, title@, qx, qy) ==> #[trigger] fb.pixel(qx, qy) == title_color(
                    ui.dark,
                )
                &&& glyph_cell(45u8, minimize_spec(x as int, y as int, w as int).0 + 7, y + 16, qx, qy)
                    ==> fb.pixel(qx, qy) == icon_color(ui.dark)
                &&& glyph_cell(111u8, maximize_spec(x as int, y as int, w as int).0 + 7, y + 16, qx, qy)
                    ==> fb.pixel(qx, qy) == icon_color(ui.dark)
                &&& glyph_cell(120u8, close_spec(x as int, y as int, w as int).0 + 8, y + 16, qx, qy)
                    ==> fb.pixel(qx, qy) == icon_color(ui.dark)
            } by {
                assert(titled.pixel(qx, qy) == titled.pixel(qx, qy));
                assert(iconed1.pixel(qx, qy) == iconed1.pixel(qx, qy));
                assert(iconed2.pixel(qx, qy) == iconed2.pixel(qx, qy));
                assert(snap18.pixel(qx, qy) == snap18.pixel(qx, qy));
            }
        }
    }

    ChromeLayout {
        content_x: x + 2,
        content_y: y + HEADER_H + 2,
        content_w: w.saturating_sub(4),
        content_h: h.saturating_sub(HEADER_H + 4),
        close,
        maximize,
        minimize,
        header: (x, y, w, HEADER_H),
        drag_header: drag_header_rect(x, y, w),
    }
}

} // verus!
