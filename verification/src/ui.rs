use vstd::prelude::*;
use crate::display::{Framebuffer, fill_rect, in_area, painted, kept_outside, lemma_fill_frame, lemma_kept_chain, lemma_painted_kept};
use crate::system::UiSettings;
use crate::text::{ascii, one_line, text_ink, TextWriter, COORD_MAX};
use crate::textfmt::lit;
use crate::window::{sat_sub, window_fits};

verus! {

/// Draws a white panel `height` pixels high along the bottom of the screen,
/// with a grey line above it when there is room.
pub fn draw_panel(fb: &mut Framebuffer, height: usize)
    requires
        old(fb).wf(),
        old(fb).width <= COORD_MAX,
        height <= COORD_MAX,
    ensures
        final(fb).wf(),
        final(fb).same_shape(old(fb)),
        forall|qx: int, qy: int|
            0 <= qx < old(fb).width && 0 <= qy < old(fb).height ==> #[trigger] final(fb).pixel(qx, qy) == {
                let y = sat_sub(old(fb).height as int, height as int);
                if height > 0 && qy >= y {
                    0x00FFFFFFu32
                } else if height > 0 && y > 0 && qy == y - 1 {
                    0x00DDDDDDu32
                } else {
                    old(fb).pixel(qx, qy)
                }
            },
{
    if height == 0 {
        return;
    }
    let y = fb.height.saturating_sub(height);
    let w = fb.width;
    fill_rect(fb, 0, y, w, height, 0x00FFFFFF);
    if y > 0 {
        fill_rect(fb, 0, y - 1, w, 1, 0x00DDDDDD);
    }
}

/// What the Start button leaves at `(qx, qy)` (`p` now, `o` before): in its
/// `w * h` box the face, frame or logo colour; the logo, at least 10
/// pixels square, may reach past a smaller box; elsewhere what was there.
pub open spec fn button_pixel(p: u32, o: u32, x: int, y: int, w: int, h: int, pressed: bool, qx: int, qy: int) -> bool {
    if w == 0 || h == 0 {
        p == o
    } else if in_area(x, y, w, h, qx, qy) {
        p == (if pressed { 0x00E6E6E6u32 } else { 0x00F5F5F5u32 }) || p == 0x00BBBBBBu32 || p == 0x00007ACCu32
    } else if in_area(x, y, if w < 10 { 10 } else { w }, if h < 10 { 10 } else { h }, qx, qy) {
        p == 0x00007ACCu32 || p == o
    } else {
        p == o
    }
}

/// Draws the Start button: a light square with a grey frame (darker when
/// `pressed`) and a four-tile logo in its middle.
pub fn draw_start_button(fb: &mut Framebuffer, x: usize, y: usize, w: usize, h: usize, pressed: bool)
    requires
        old(fb).wf(),
        window_fits(x as int, y as int, w as int, h as int),
    ensures
        final(fb).wf(),
        final(fb).same_shape(old(fb)),
        w == 0 || h == 0 ==> *final(fb) == *old(fb),
        forall|qx: int, qy: int|
            0 <= qx < old(fb).width && 0 <= qy < old(fb).height ==> #[trigger] button_pixel(
                final(fb).pixel(qx, qy),
                old(fb).pixel(qx, qy),
                x as int,
                y as int,
                w as int,
                h as int,
                pressed,
                qx,
                qy,
            ),
{
    if w == 0 || h == 0 {
        return;
    }
    let bg: u32 = if pressed { 0x00E6E6E6 } else { 0x00F5F5F5 };
    fill_rect(fb, x, y, w, h, bg);
    fill_rect(fb, x, y, w, 1, 0x00BBBBBB);
    fill_rect(fb, x, y + (h - 1), w, 1, 0x00BBBBBB);
    fill_rect(fb, x, y, 1, h, 0x00BBBBBB);
    fill_rect(fb, x + (w - 1), y, 1, h, 0x00BBBBBB);
    let m = if h < w { h } else { w };
    let half = m / 2;
    let logo_size = if half > 8 { half } else { 8 };
    let tile = logo_size / 2;
    let gap: usize = 2;
    let logo_w = tile * 2 + gap;
    let logo_h = tile * 2 + gap;
    let lx = x + w.saturating_sub(logo_w) / 2;
    let ly = y + h.saturating_sub(logo_h) / 2;
    let color: u32 = 0x00007ACC;
    proof {
        assert(lx + logo_w <= x + (if w < 10 { 10 } else { w as int }));
        assert(ly + logo_h <= y + (if h < 10 { 10 } else { h as int }));
    }
    fill_rect(fb, lx, ly, tile, tile, color);
    fill_rect(fb, lx + tile + gap, ly, tile, tile, color);
    fill_rect(fb, lx, ly + tile + gap, tile, tile, color);
    fill_rect(fb, lx + tile + gap, ly + tile + gap, tile, tile, color);
}

/// What an empty start menu leaves at `(qx, qy)`, where `p` is there now and
/// `o` was there before: inside the `w * h` box one of its colours (white
/// body, grey frame, pale band, item boxes), in the first item box where it
/// reaches below a short menu its colour, in the part of the shadow 4
/// pixels down and right that the box does not cover the shadow colour,
/// and elsewhere what was there.
pub open spec fn menu_pixel(p: u32, o: u32, x: int, y: int, w: int, h: int, qx: int, qy: int) -> bool {
    menu_drawn(p, o, x, y, w, h, qx, qy, true)
}

/// As `menu_pixel`, with the first item box not yet drawn when `items` is
/// false.
pub open spec fn menu_drawn(p: u32, o: u32, x: int, y: int, w: int, h: int, qx: int, qy: int, items: bool) -> bool {
    if w == 0 || h == 0 {
        p == o
    } else if in_area(x, y, w, h, qx, qy) {
        p == 0x00FFFFFFu32 || p == 0x00CCCCCCu32 || p == 0x00F3F6FAu32 || p == 0x00F8F8F8u32
    } else if in_area(x + w / 4 + 12, y + 12, w - w / 4 - 24, 36, qx, qy) {
        p == 0x00F8F8F8u32 || (!items && (p == o || (in_area(x + 4, y + 4, w, h, qx, qy) && p == 0x00202020u32)))
    } else if in_area(x + 4, y + 4, w, h, qx, qy) {
        p == 0x00202020u32
    } else {
        p == o
    }
}

/// Draws an empty start menu: shadow, white body with a grey frame, a pale
/// band down its left quarter, and up to five item boxes 36 pixels high,
/// 10 apart, while they fit.
pub fn draw_start_menu(fb: &mut Framebuffer, x: usize, y: usize, w: usize, h: usize)
    requires
        old(fb).wf(),
        window_fits(x as int, y as int, w as int, h as int),
        w > 0 && h > 0 ==> w - w / 4 >= 24,
    ensures
        final(fb).wf(),
        final(fb).same_shape(old(fb)),
        w == 0 || h == 0 ==> *final(fb) == *old(fb),
        forall|qx: int, qy: int|
            0 <= qx < old(fb).width && 0 <= qy < old(fb).height ==> #[trigger] menu_pixel(
                final(fb).pixel(qx, qy),
                old(fb).pixel(qx, qy),
                x as int,
                y as int,
                w as int,
                h as int,
                qx,
                qy,
            ),
{
    if w == 0 || h == 0 {
        return;
    }
    let ghost f0 = *fb;
    fill_rect(fb, x + 4, y + 4, w, h, 0x00202020);
    fill_rect(fb, x, y, w, h, 0x00FFFFFF);
    fill_rect(fb, x, y, w, 1, 0x00CCCCCC);
    fill_rect(fb, x, y + (h - 1), w, 1, 0x00CCCCCC);
    fill_rect(fb, x, y, 1, h, 0x00CCCCCC);
    fill_rect(fb, x + (w - 1), y, 1, h, 0x00CCCCCC);
    let accent_w = w / 4;
    fill_rect(fb, x, y, accent_w, h, 0x00F3F6FA);
    let item_h: usize = 36;
    let mut iy = y + 12;
    assert forall|qx: int, qy: int|
        0 <= qx < f0.width && 0 <= qy < f0.height implies #[trigger] menu_drawn(
            fb.pixel(qx, qy),
            f0.pixel(qx, qy),
            x as int,
            y as int,
            w as int,
            h as int,
            qx,
            qy,
            false,
        ) by {
    }
    let mut n: usize = 0;
    while n < 5 && !(n > 0 && iy + item_h >= y + h)
        invariant
            fb.wf(),
            fb.same_shape(old(fb)),
            n <= 5,
            iy <= y + 12 + n * (item_h + 10),
            window_fits(x as int, y as int, w as int, h as int),
            w - w / 4 >= 24,
            accent_w == w / 4,
            item_h == 36,
            w > 0 && h > 0,
            iy >= y + 12,
            n == 0 ==> iy == y + 12,
            forall|qx: int, qy: int|
                #![trigger fb.pixel(qx, qy)]
                0 <= qx < f0.width && 0 <= qy < f0.height ==> menu_drawn(
                    fb.pixel(qx, qy),
                    f0.pixel(qx, qy),
                    x as int,
                    y as int,
                    w as int,
                    h as int,
                    qx,
                    qy,
                    n > 0,
                ),
            fb.same_shape(&f0),
        decreases 5 - n,
    {
        fill_rect(fb, x + accent_w + 12, iy, w - accent_w - 24, item_h, 0x00F8F8F8);
        iy = iy + (item_h + 10);
        n = n + 1;
    }
}

/// Screen colour of the message shown before power goes: near-black on
/// the dark theme, light grey otherwise.
pub open spec fn power_bg(dark: bool) -> u32 {
    if dark {
        0x00101010
    } else {
        0x00F0F0F0
    }
}

/// Text colour of that message.
pub open spec fn power_text(dark: bool) -> u32 {
    if dark {
        0x00FFFFFF
    } else {
        0x00000000
    }
}

/// Fills the whole screen with the theme's background and writes `msg`,
/// centred across, from the middle row down. Every pixel ends up the
/// background or the text colour, the text only from the middle row down;
/// when `msg` fits on one line, only its 8-pixel band holds text.
pub fn power_message(fb: &mut Framebuffer, ui: &UiSettings, msg: &[u8])
    requires
        old(fb).wf(),
        ascii(msg@),
        old(fb).width + 16 <= usize::MAX,
        old(fb).height / 2 + 10 * msg@.len() + 10 <= usize::MAX,
    ensures
        final(fb).wf(),
        final(fb).same_shape(old(fb)),
        forall|qx: int, qy: int|
            0 <= qx < old(fb).width && 0 <= qy < old(fb).height ==> {
                let p = #[trigger] final(fb).pixel(qx, qy);
                p == power_bg(ui.dark) || (p == power_text(ui.dark) && qy >= old(fb).height / 2)
            },
        one_line(old(fb).width as int, sat_sub(old(fb).width as int, 8 * msg@.len() as int) / 2, msg@)
            ==> forall|qx: int, qy: int|
            0 <= qx < old(fb).width && 0 <= qy < old(fb).height && !(old(fb).height / 2 <= qy
                < old(fb).height / 2 + 8) ==> #[trigger] final(fb).pixel(qx, qy) == power_bg(ui.dark),
        forall|qx: int, qy: int|
            0 <= qx < old(fb).width && 0 <= qy < old(fb).height ==> #[trigger] final(fb).pixel(qx, qy) == if text_ink(
                old(fb).width as int,
                sat_sub(old(fb).width as int, 8 * msg@.len() as int) / 2,
                old(fb).height as int / 2,
                msg@,
                qx,
                qy,
            ) {
                power_text(ui.dark)
            } else {
                power_bg(ui.dark)
            },
{
    let (bg, text): (u32, u32) = if ui.dark {
        (0x00101010, 0x00FFFFFF)
    } else {
        (0x00F0F0F0, 0x00000000)
    };
    let w = fb.width;
    let h = fb.height;
    proof {
        assert(0 <= w * h) by (nonlinear_arith);
    }
    fill_rect(fb, 0, 0, w, h, bg);
    let ghost filled = *fb;
    proof {
        lemma_fill_frame(*old(fb), *fb, 0, 0, w as int, h as int, bg);
    }
    let mut writer = TextWriter::new(fb);
    writer.set_color(text);
    let text_w = msg.len() * 8;
    let x = w.saturating_sub(text_w) / 2;
    let y = h / 2;
    writer.set_pos(x, y);
    writer.write_bytes(fb, msg);
    proof {
        assert forall|qx: int, qy: int|
            0 <= qx < w && 0 <= qy < h implies {
                let p = #[trigger] fb.pixel(qx, qy);
                p == bg || (p == text && qy >= y)
            } by {
            assert(filled.pixel(qx, qy) == bg);
        }
    }
}

/// Colour of the lines along the power box's top and bottom edges: green
/// while restarting, blue while shutting down.
pub open spec fn power_line(restarting: bool) -> u32 {
    if restarting {
        0x0000AA00
    } else {
        0x000077FF
    }
}

/// The 200 x 60 box in the middle of a `w * h` screen.
pub open spec fn power_box(w: int, h: int) -> (int, int, int, int) {
    (w / 2 - 100, h / 2 - 30, 200, 60)
}

/// The power box's message.
pub open spec fn power_words_of(restarting: bool) -> Seq<u8> {
    if restarting {
        lit("Restarting...")
    } else {
        lit("Shutting down...")
    }
}

/// What the power box `b` (see `power_box`), on a screen `fw` pixels wide,
/// shows at `(qx, qy)`, where the screen showed `prev`: the message in
/// white, the 2-pixel lines along the top and bottom edges in the colour of
/// `power_line`, the rest of the box dark, and outside it `prev`.
pub open spec fn power_box_pixel(b: (int, int, int, int), fw: int, restarting: bool, qx: int, qy: int, prev: u32) -> u32 {
    if text_ink(fw, b.0 + 30, b.1 + 20, power_words_of(restarting), qx, qy) {
        0x00FFFFFF
    } else if in_area(b.0, b.1, 200, 2, qx, qy) || in_area(b.0, b.1 + 58, 200, 2, qx, qy) {
        power_line(restarting)
    } else if in_area(b.0, b.1, b.2, b.3, qx, qy) {
        0x001A1A1A
    } else {
        prev
    }
}

/// The three places after the power box's message at step `step`: a dot
/// for each of the first `step`, blanks after.
pub open spec fn power_dots(step: int) -> Seq<u8> {
    Seq::new(3, |i: int| if i < step { 46u8 } else { 32u8 })
}

fn power_words(restarting: bool) -> (b: &'static [u8])
    ensures
        ascii(b@),
        b@.len() <= 16,
        forall|i: int| 0 <= i < b@.len() ==> b@[i] != 10,
        b@ == power_words_of(restarting),
{
    proof {
        reveal_strlit("Restarting...");
        reveal_strlit("Shutting down...");
    }
    let b = if restarting {
        crate::text::ascii_lit("Restarting...")
    } else {
        crate::text::ascii_lit("Shutting down...")
    };
    proof {
        assert forall|i: int| 0 <= i < b@.len() implies b@[i] != 10 by {
            if restarting {
                assert(b@[i] == "Restarting..."@[i] as u8);
            } else {
                assert(b@[i] == "Shutting down..."@[i] as u8);
            }
        }
    }
    b
}

/// Draws the box shown while the machine goes down: 200 x 60 in the middle
/// of the screen, dark, a 2-pixel line in the colour of `power_line` along
/// its top and bottom edges, and the message (`Restarting...` or `Shutting
/// down...`) 30 pixels in and 20 down. Nothing outside the box changes.
pub fn draw_power_box(fb: &mut Framebuffer, restarting: bool)
    requires
        old(fb).wf(),
        200 <= old(fb).width <= COORD_MAX,
        60 <= old(fb).height <= COORD_MAX,
    ensures
        final(fb).wf(),
        final(fb).same_shape(old(fb)),
        ({
            let b = power_box(old(fb).width as int, old(fb).height as int);
            &&& kept_outside(*old(fb), *final(fb), b.0, b.1, b.2, b.3)
            &&& painted(*final(fb), b.0, b.1, 200, 2, power_line(restarting))
            &&& painted(*final(fb), b.0, b.1 + 58, 200, 2, power_line(restarting))
            &&& forall|qx: int, qy: int|
                0 <= qx < old(fb).width && 0 <= qy < old(fb).height ==> #[trigger] final(fb).pixel(qx, qy)
                    == power_box_pixel(b, old(fb).width as int, restarting, qx, qy, old(fb).pixel(qx, qy))
        }),
{
    let bx = fb.width / 2 - 100;
    let by = fb.height / 2 - 30;
    let line: u32 = if restarting { 0x0000AA00 } else { 0x000077FF };
    let ghost bb = (bx as int, by as int, 200int, 60int);
    let ghost top = (bx as int, by as int, 200int, 2int);
    let ghost bottom = (bx as int, by + 58, 200int, 2int);
    let ghost s0 = *fb;
    fill_rect(fb, bx, by, 200, 60, 0x001A1A1A);
    proof {
        lemma_fill_frame(s0, *fb, bb.0, bb.1, bb.2, bb.3, 0x001A1A1A);
    }
    let ghost s1 = *fb;
    fill_rect(fb, bx, by, 200, 2, line);
    proof {
        lemma_fill_frame(s1, *fb, top.0, top.1, top.2, top.3, line);
        lemma_kept_chain(s0, s1, *fb, bb, top);
    }
    let ghost s2 = *fb;
    fill_rect(fb, bx, by + 58, 200, 2, line);
    proof {
        lemma_fill_frame(s2, *fb, bottom.0, bottom.1, bottom.2, bottom.3, line);
        lemma_kept_chain(s0, s2, *fb, bb, bottom);
        lemma_painted_kept(s2, *fb, top, line, bottom);
    }
    let mut writer = TextWriter::new(fb);
    writer.set_color(0x00FFFFFF);
    writer.set_pos(bx + 30, by + 20);
    let words = power_words(restarting);
    let ghost s3 = *fb;
    writer.write_bytes(fb, words);
    proof {
        assert(one_line(writer.width as int, bx + 30, words@));
        let a = (bx + 30, by + 20, 8 * words@.len() as int, 8int);
        lemma_kept_chain(s0, s3, *fb, bb, a);
        lemma_painted_kept(s3, *fb, top, line, a);
        lemma_painted_kept(s3, *fb, bottom, line, a);
        let fw = s0.width as int;
        assert forall|qx: int, qy: int| 0 <= qx < s0.width && 0 <= qy < s0.height implies #[trigger] fb.pixel(qx, qy)
            == power_box_pixel(bb, fw, restarting, qx, qy, s0.pixel(qx, qy)) by {
            assert(s1.pixel(qx, qy) == s1.pixel(qx, qy));
            assert(s2.pixel(qx, qy) == s2.pixel(qx, qy));
            assert(s3.pixel(qx, qy) == s3.pixel(qx, qy));
            if text_ink(fw, bb.0 + 30, bb.1 + 20, words@, qx, qy) {
                crate::text::lemma_one_line_ink(fw, bb.0 + 30, bb.1 + 20, words@, qx, qy);
            }
        }
    }
}

/// Draws step `step` of the dots after the power box's message: blank,
/// one, two, then (from step 3 on) three dots, 140 pixels in while shutting
/// down and 130 while restarting. Nothing outside the box changes.
pub fn draw_power_dots(fb: &mut Framebuffer, restarting: bool, step: usize)
    requires
        old(fb).wf(),
        200 <= old(fb).width <= COORD_MAX,
        60 <= old(fb).height <= COORD_MAX,
    ensures
        final(fb).wf(),
        final(fb).same_shape(old(fb)),
        ({
            let b = power_box(old(fb).width as int, old(fb).height as int);
            kept_outside(*old(fb), *final(fb), b.0, b.1, b.2, b.3)
        }),
        ({
            let b = power_box(old(fb).width as int, old(fb).height as int);
            let dx = if restarting { 130int } else { 140int };
            forall|qx: int, qy: int|
                0 <= qx < old(fb).width && 0 <= qy < old(fb).height ==> #[trigger] final(fb).pixel(qx, qy)
                    == if text_ink(old(fb).width as int, b.0 + dx, b.1 + 20, power_dots(step as int), qx, qy) {
                    0x00FFFFFFu32
                } else {
                    old(fb).pixel(qx, qy)
                }
        }),
{
    let bx = fb.width / 2 - 100;
    let by = fb.height / 2 - 30;
    let mut dots: Vec<u8> = Vec::new();
    let mut k: usize = 0;
    while k < 3
        invariant
            k <= 3,
            dots@.len() == k,
            forall|i: int| 0 <= i < dots@.len() ==> dots@[i] == 32 || dots@[i] == 46,
            forall|i: int| 0 <= i < dots@.len() ==> dots@[i] == power_dots(step as int)[i],
        decreases 3 - k,
    {
        dots.push(if k < step { 46u8 } else { 32u8 });
        k = k + 1;
    }
    let mut writer = TextWriter::new(fb);
    writer.set_color(0x00FFFFFF);
    let dx = if restarting { 130 } else { 140 };
    writer.set_pos(bx + dx, by + 20);
    writer.write_bytes(fb, dots.as_slice());
    proof {
        assert(one_line(writer.width as int, bx + dx, dots@));
        assert(dots@ =~= power_dots(step as int));
    }
}

} // verus!
