use vstd::prelude::*;
use crate::color::{blend_rgb, blend_spec};
use crate::display::{Framebuffer, fill_rect, painted, kept_above, lemma_fill_frame, lemma_painted_kept, lemma_above_step};
use crate::status_bar::BAR_H;
use crate::system::UiSettings;
use crate::text::{ascii, one_line, text_ink, TextWriter, COORD_MAX, lemma_painted_ink, lemma_one_line_ink, lemma_ink_first_line};
use crate::textfmt::lit;
use crate::window::{hit, in_rect, sat_sub};

verus! {

/// What `hit_test` returns for the Start button.
pub const HIT_START: usize = usize::MAX;
pub const LEFT_PAD: usize = 8;
pub const GAP: usize = 6;
pub const START_W: usize = 64;
pub const BTN_H: usize = 24;
/// Where the window buttons begin: right of the Start button.
pub const BUTTONS_X: usize = 78;

/// One button of the task bar: the window it stands for, its label, and
/// whether that window is shown.
#[derive(Debug, Copy, Clone)]
pub struct TaskbarEntry {
    pub index: usize,
    pub label: &'static [u8],
    pub visible: bool,
}

/// `a * b`, or `usize::MAX` when that does not fit.
pub open spec fn sat_mul(a: int, b: int) -> int {
    if a * b > usize::MAX { usize::MAX as int } else { a * b }
}

/// `a + b`, or `usize::MAX` when that does not fit.
pub open spec fn sat_add(a: int, b: int) -> int {
    if a + b > usize::MAX { usize::MAX as int } else { a + b }
}

/// Top of the task bar's buttons on a screen `fh` pixels high.
pub open spec fn row_y(fh: int) -> int {
    sat_sub(fh, BAR_H as int) + (BAR_H - BTN_H) / 2
}

/// The Start button.
pub open spec fn start_rect_spec(fh: int) -> (int, int, int, int) {
    (LEFT_PAD as int, row_y(fh), START_W as int, BTN_H as int)
}

/// Width of each of `count` window buttons on a screen `fw` pixels wide:
/// 96 pixels when they fit before the clock's 120 pixels, else what is left
/// shared out, but at least 52.
pub open spec fn btn_width(fw: int, count: int) -> int {
    let avail = sat_sub(sat_sub(fw, (BUTTONS_X + LEFT_PAD) as int), 120);
    let gaps = sat_mul(GAP as int, sat_sub(count, 1));
    let needed = sat_add(sat_mul(96, count), gaps);
    if needed > avail {
        let b = sat_sub(avail, gaps) / count;
        if b < 52 { 52 } else { b }
    } else {
        96
    }
}

/// Window button `i` of `count` on a `fw * fh` screen.
pub open spec fn button_rect(fw: int, fh: int, count: int, i: int) -> (int, int, int, int) {
    let w = btn_width(fw, count);
    (BUTTONS_X + i * (w + GAP), row_y(fh), w, BTN_H as int)
}

/// The buttons of `count` windows fit in the machine's coordinates.
pub open spec fn fits(fw: int, count: int) -> bool {
    count == 0 || BUTTONS_X + count * (btn_width(fw, count) + GAP) <= usize::MAX
}

/// The window whose button, among those from `i` on, holds `(x, y)`.
pub open spec fn first_hit(fw: int, fh: int, x: int, y: int, es: Seq<TaskbarEntry>, i: int) -> Option<usize>
    decreases es.len() - i,
{
    if i < 0 || i >= es.len() {
        None
    } else {
        let r = button_rect(fw, fh, es.len() as int, i);
        if in_rect(x, y, (r.0 as usize, r.1 as usize, r.2 as usize, r.3 as usize)) {
            Some(es[i].index)
        } else {
            first_hit(fw, fh, x, y, es, i + 1)
        }
    }
}

/// What a click at `(x, y)` on a `fw * fh` screen hits on the task bar:
/// nothing above or below the bar, the Start button (`HIT_START`), or a
/// window's button (its window's index).
pub open spec fn hit_index(fw: int, fh: int, x: int, y: int, es: Seq<TaskbarEntry>) -> Option<usize> {
    let s = start_rect_spec(fh);
    if y < sat_sub(fh, BAR_H as int) || y >= fh {
        None
    } else if in_rect(x, y, (s.0 as usize, s.1 as usize, s.2 as usize, s.3 as usize)) {
        Some(HIT_START)
    } else {
        first_hit(fw, fh, x, y, es, 0)
    }
}

fn mul_sat(a: usize, b: usize) -> (r: usize)
    ensures
        r == sat_mul(a as int, b as int),
{
    if b != 0 && a > usize::MAX / b {
        proof {
            assert(a * b > usize::MAX) by (nonlinear_arith)
                requires
                    b > 0,
                    a > usize::MAX / b,
            ;
        }
        usize::MAX
    } else {
        proof {
            assert(a * b <= usize::MAX) by (nonlinear_arith)
                requires
                    b == 0 || a <= usize::MAX / b,
            ;
        }
        a * b
    }
}

fn add_sat(a: usize, b: usize) -> (r: usize)
    ensures
        r == sat_add(a as int, b as int),
{
    if a > usize::MAX - b {
        usize::MAX
    } else {
        a + b
    }
}

/// Width of each window button (see `btn_width`).
fn button_width(fw: usize, count: usize) -> (r: usize)
    requires
        count > 0,
    ensures
        r == btn_width(fw as int, count as int),
{
    let avail = fw.saturating_sub(BUTTONS_X + LEFT_PAD).saturating_sub(120);
    let gaps = mul_sat(GAP, count.saturating_sub(1));
    let needed = add_sat(mul_sat(96, count), gaps);
    if needed > avail {
        let b = avail.saturating_sub(gaps) / count;
        if b < 52 {
            52
        } else {
            b
        }
    } else {
        96
    }
}

/// Whether the buttons of `count` windows fit in the machine's coordinates
/// (see `fits`).
pub fn buttons_fit(fw: usize, count: usize) -> (r: bool)
    ensures
        r == fits(fw as int, count as int),
{
    if count == 0 {
        return true;
    }
    let w = button_width(fw, count);
    let step = w as u128 + GAP as u128;
    proof {
        assert(count * step <= 0xffff_ffff_ffff_ffff * 0x1_0000_0000_0000_0000) by (nonlinear_arith)
            requires
                count <= 0xffff_ffff_ffff_ffff,
                step <= 0x1_0000_0000_0000_0000,
        ;
    }
    BUTTONS_X as u128 + (count as u128) * step <= usize::MAX as u128
}

/// The Start button.
pub fn start_rect(fb: &Framebuffer) -> (r: (usize, usize, usize, usize))
    ensures
        (r.0 as int, r.1 as int, r.2 as int, r.3 as int) == start_rect_spec(fb.height as int),
{
    let y = fb.height.saturating_sub(BAR_H) + (BAR_H - BTN_H) / 2;
    (LEFT_PAD, y, START_W, BTN_H)
}

/// What a click at `(x, y)` hits on the task bar (see `hit_index`).
pub fn hit_test(fb: &Framebuffer, x: usize, y: usize, entries: &[TaskbarEntry]) -> (r: Option<usize>)
    requires
        fits(fb.width as int, entries@.len() as int),
    ensures
        r == hit_index(fb.width as int, fb.height as int, x as int, y as int, entries@),
{
    let bar_y = fb.height.saturating_sub(BAR_H);
    if y < bar_y || y >= fb.height {
        return None;
    }
    let start = start_rect(fb);
    if hit(x, y, start) {
        return Some(HIT_START);
    }
    let count = entries.len();
    if count == 0 {
        return None;
    }
    let w = button_width(fb.width, count);
    let ry = fb.height.saturating_sub(BAR_H) + (BAR_H - BTN_H) / 2;
    let mut i: usize = 0;
    while i < count
        invariant
            count == entries@.len() > 0,
            i <= count,
            w == btn_width(fb.width as int, count as int),
            ry == row_y(fb.height as int),
            BUTTONS_X + count * (w + GAP) <= usize::MAX,
            hit_index(fb.width as int, fb.height as int, x as int, y as int, entries@) == first_hit(
                fb.width as int,
                fb.height as int,
                x as int,
                y as int,
                entries@,
                i as int,
            ),
        decreases count - i,
    {
        proof {
            assert(i * (w + GAP) <= count * (w + GAP)) by (nonlinear_arith)
                requires
                    i <= count,
            ;
        }
        let rx = BUTTONS_X + i * (w + GAP);
        if hit(x, y, (rx, ry, w, BTN_H)) {
            return Some(entries[i].index);
        }
        i = i + 1;
    }
    None
}

/// The colour of the Start button's label.
pub open spec fn start_text_color(dark: bool) -> u32 {
    if dark {
        0x00F3F5F8
    } else {
        0x00131A28
    }
}

/// The colour of a window button's label: white on the focused window's
/// button.
pub open spec fn button_text_color(e: TaskbarEntry, focused: Option<usize>, dark: bool) -> u32 {
    if focused == Some(e.index) {
        0x00FFFFFF
    } else if dark {
        0x00E7ECF3
    } else {
        0x00172233
    }
}

/// What a button of `count` on a screen `fw` pixels wide shows of `label`:
/// as many bytes as fit in the button less 12 pixels, 8 pixels each.
pub open spec fn shown_label(fw: int, count: int, label: Seq<u8>) -> Seq<u8> {
    let m = sat_sub(btn_width(fw, count), 12) / 8;
    label.take(if label.len() < m { label.len() as int } else { m })
}

/// Whether button `i` of `count` on a `fw * fh` screen, labelled `label`,
/// lights `(qx, qy)` with its label (see `shown_label`), written 8 pixels in
/// from the button's corner, where it stays on one line.
pub open spec fn button_ink(fw: int, fh: int, count: int, i: int, label: Seq<u8>, qx: int, qy: int) -> bool {
    let x = button_rect(fw, fh, count, i).0 + 8;
    let s = shown_label(fw, count, label);
    &&& one_line(fw, x, s)
    &&& text_ink(fw, x, row_y(fh) + 8, s, qx, qy)
}

/// Every pixel that the Start label, written at row `y + 8`, lights where
/// it stays on one line has its colour in `fb`.
pub open spec fn start_shown(fb: Framebuffer, fw: int, y: int, dark: bool) -> bool {
    forall|qx: int, qy: int|
        0 <= qx < fw && 0 <= qy < fb.height && one_line(fw, LEFT_PAD + 10, lit("Start")) && #[trigger] text_ink(
            fw,
            LEFT_PAD + 10,
            y + 8,
            lit("Start"),
            qx,
            qy,
        ) ==> fb.pixel(qx, qy) == start_text_color(dark)
}

/// A button's label lies in the 8 rows of its text line, inside the button
/// less 4 pixels on the right.
proof fn lemma_button_ink_span(fw: int, fh: int, count: int, i: int, label: Seq<u8>, qx: int, qy: int)
    requires
        button_ink(fw, fh, count, i, label, qx, qy),
        btn_width(fw, count) >= 12,
    ensures
        row_y(fh) + 8 <= qy < row_y(fh) + 16,
        button_rect(fw, fh, count, i).0 + 8 <= qx < button_rect(fw, fh, count, i).0 + btn_width(fw, count) - 4,
{
    let x = button_rect(fw, fh, count, i).0 + 8;
    let s = shown_label(fw, count, label);
    let a = sat_sub(btn_width(fw, count), 12);
    lemma_one_line_ink(fw, x, row_y(fh) + 8, s, qx, qy);
    assert(8 * (a / 8) <= a) by (nonlinear_arith)
        requires
            a >= 0,
    ;
}

fn label(s: &'static str) -> (b: &'static [u8])
    requires
        vstd::string::is_ascii(s),
    ensures
        ascii(b@),
        b@ == lit(s),
        b@.len() == s@.len(),
{
    crate::text::ascii_lit(s)
}

/// Draws the task bar's buttons: Start (in the accent colour while the
/// start menu is open), then one button per entry, labelled as far as it
/// fits; the focused window's button is in the accent colour, a hidden
/// window's is dimmer. Nothing above the buttons' row changes, and the top
/// 8 rows of the Start button, above its label, show its colour.
pub fn draw(fb: &mut Framebuffer, ui: &UiSettings, entries: &[TaskbarEntry], focused: Option<usize>, start_open: bool)
    requires
        old(fb).wf(),
        old(fb).width <= COORD_MAX,
        old(fb).height <= COORD_MAX,
        fits(old(fb).width as int, entries@.len() as int),
        forall|i: int| 0 <= i < entries@.len() ==> ascii((#[trigger] entries@[i]).label@),
    ensures
        final(fb).wf(),
        final(fb).same_shape(old(fb)),
        kept_above(*old(fb), *final(fb), row_y(old(fb).height as int)),
        painted(
            *final(fb),
            LEFT_PAD as int,
            row_y(old(fb).height as int),
            START_W as int,
            8,
            if start_open {
                blend_spec(ui.accent, 0x00FFFFFF, if ui.dark { 30u8 } else { 42u8 }) as u32
            } else if ui.dark {
                0x00333A45u32
            } else {
                0x00D9E5F3u32
            },
        ),
        forall|qx: int, qy: int|
            0 <= qx < old(fb).width && 0 <= qy < old(fb).height && one_line(
                old(fb).width as int,
                LEFT_PAD + 10,
                lit("Start"),
            ) && #[trigger] text_ink(old(fb).width as int, LEFT_PAD + 10, row_y(old(fb).height as int) + 8, lit("Start"), qx, qy)
                ==> final(fb).pixel(qx, qy) == start_text_color(ui.dark),
        forall|i: int, qx: int, qy: int|
            0 <= i < entries@.len() && 0 <= qx < old(fb).width && 0 <= qy < old(fb).height && #[trigger] button_ink(
                old(fb).width as int,
                old(fb).height as int,
                entries@.len() as int,
                i,
                entries@[i].label@,
                qx,
                qy,
            ) ==> final(fb).pixel(qx, qy) == button_text_color(entries@[i], focused, ui.dark),
{
    let y = fb.height.saturating_sub(BAR_H) + (BAR_H - BTN_H) / 2;
    let start = start_rect(fb);
    let start_bg = if start_open {
        blend_rgb(ui.accent, 0x00FFFFFF, if ui.dark { 30 } else { 42 })
    } else if ui.dark {
        0x00333A45
    } else {
        0x00D9E5F3
    };
    fill_rect(fb, start.0, y, start.2, start.3, start_bg);
    let ghost top_band = (LEFT_PAD as int, y as int, START_W as int, 8int);
    proof {
        lemma_fill_frame(*old(fb), *fb, start.0 as int, y as int, start.2 as int, start.3 as int, start_bg);
    }
    let mut writer = TextWriter::new(fb);
    writer.set_color(if ui.dark { 0x00F3F5F8 } else { 0x00131A28 });
    writer.set_pos(start.0 + 10, y + 8);
    proof {
        reveal_strlit("Start");
    }
    let ghost ps = *fb;
    let ghost fw = fb.width as int;
    let ghost fh = fb.height as int;
    writer.write_bytes(fb, label("Start"));
    proof {
        lemma_painted_ink(ps, *fb, top_band, start_bg, writer.fg, y + 8, writer.y + 8);
        lemma_above_step(*old(fb), ps, *fb, y as int, y + 8);
    }
    proof {
        assert(start_shown(*fb, fw, y as int, ui.dark));
    }
    let count = entries.len();
    if count == 0 {
        return;
    }
    let w = button_width(fb.width, count);
    let mut i: usize = 0;
    while i < count
        invariant
            fb.wf(),
            fb.same_shape(old(fb)),
            count == entries@.len() > 0,
            i <= count,
            w == btn_width(old(fb).width as int, count as int),
            BUTTONS_X + count * (w + GAP) <= usize::MAX,
            w >= 52,
            y <= COORD_MAX,
            writer.width == fb.width,
            fb.width <= COORD_MAX,
            forall|j: int| 0 <= j < entries@.len() ==> ascii((#[trigger] entries@[j]).label@),
            y == row_y(old(fb).height as int),
            top_band == (LEFT_PAD as int, y as int, START_W as int, 8int),
            kept_above(*old(fb), *fb, y as int),
            painted(*fb, top_band.0, top_band.1, top_band.2, top_band.3, start_bg),
            fw == old(fb).width,
            fh == old(fb).height,
            lit("Start").len() == 5,
            start_shown(*fb, fw, y as int, ui.dark),
            forall|j: int, qx: int, qy: int|
                0 <= j < i && 0 <= qx < fw && 0 <= qy < fh && #[trigger] button_ink(
                    fw,
                    fh,
                    count as int,
                    j,
                    entries@[j].label@,
                    qx,
                    qy,
                ) ==> fb.pixel(qx, qy) == button_text_color(entries@[j], focused, ui.dark),
        decreases count - i,
    {
        proof {
            assert(i * (w + GAP) + (w + GAP) <= count * (w + GAP)) by (nonlinear_arith)
                requires
                    i < count,
            ;
        }
        let x = BUTTONS_X + i * (w + GAP);
        let entry = entries[i];
        let is_focused = match focused {
            Some(f) => f == entry.index,
            None => false,
        };
        let bg = if is_focused {
            blend_rgb(ui.accent, 0x00FFFFFF, if ui.dark { 26 } else { 45 })
        } else if entry.visible {
            if ui.dark { 0x0039424F } else { 0x00E1ECF9 }
        } else if ui.dark {
            0x002B313A
        } else {
            0x00CEDAEA
        };
        let ghost pf = *fb;
        fill_rect(fb, x, y, w, BTN_H, bg);
        proof {
            let a = (x as int, y as int, w as int, BTN_H as int);
            lemma_fill_frame(pf, *fb, a.0, a.1, a.2, a.3, bg);
            lemma_painted_kept(pf, *fb, top_band, start_bg, a);
            lemma_above_step(*old(fb), pf, *fb, y as int, y as int);
        }
        let text_color: u32 = if is_focused {
            0x00FFFFFF
        } else if ui.dark {
            0x00E7ECF3
        } else {
            0x00172233
        };
        writer.set_color(text_color);
        writer.set_pos(x + 8, y + 8);
        let max_chars = w.saturating_sub(12) / 8;
        let len = if entry.label.len() < max_chars { entry.label.len() } else { max_chars };
        let shown = vstd::slice::slice_subrange(entry.label, 0, len);
        proof {
            assert(ascii(entries@[i as int].label@));
            assert forall|k: int| 0 <= k < shown@.len() implies shown@[k] < 128 by {
                assert(shown@[k] == entry.label@[k]);
            }
        }
        let ghost pw = *fb;
        writer.write_bytes(fb, shown);
        proof {
            lemma_painted_ink(pw, *fb, top_band, start_bg, writer.fg, y + 8, writer.y + 8);
            lemma_above_step(*old(fb), pw, *fb, y as int, y + 8);
            let xi = x as int;
            assert(i * (w + GAP) >= 0) by (nonlinear_arith)
                requires
                    w >= 0,
            ;
            assert(shown@ == shown_label(fw, count as int, entries@[i as int].label@));
            assert(xi == button_rect(fw, fh, count as int, i as int).0);
            assert forall|qx: int, qy: int|
                0 <= qx < fw && 0 <= qy < fh && one_line(fw, LEFT_PAD + 10, lit("Start")) && #[trigger] text_ink(
                    fw,
                    LEFT_PAD + 10,
                    y + 8,
                    lit("Start"),
                    qx,
                    qy,
                ) implies fb.pixel(qx, qy) == start_text_color(ui.dark) by {
                lemma_one_line_ink(fw, LEFT_PAD + 10, y + 8, lit("Start"), qx, qy);
                if text_ink(fw, xi + 8, y + 8, shown@, qx, qy) {
                    lemma_ink_first_line(fw, xi + 8, y + 8, shown@, qx, qy);
                }
                assert(pf.pixel(qx, qy) == start_text_color(ui.dark));
                assert(pw.pixel(qx, qy) == start_text_color(ui.dark));
            }
            assert forall|j: int, qx: int, qy: int|
                0 <= j < i + 1 && 0 <= qx < fw && 0 <= qy < fh && #[trigger] button_ink(
                    fw,
                    fh,
                    count as int,
                    j,
                    entries@[j].label@,
                    qx,
                    qy,
                ) implies fb.pixel(qx, qy) == button_text_color(entries@[j], focused, ui.dark) by {
                lemma_button_ink_span(fw, fh, count as int, j, entries@[j].label@, qx, qy);
                if j < i {
                    assert(j * (w + GAP) + (w + GAP) <= i * (w + GAP)) by (nonlinear_arith)
                        requires
                            0 <= j < i,
                            w >= 0,
                    ;
                    if text_ink(fw, xi + 8, y + 8, shown@, qx, qy) {
                        lemma_ink_first_line(fw, xi + 8, y + 8, shown@, qx, qy);
                    }
                    assert(pw.pixel(qx, qy) == pf.pixel(qx, qy));
                }
            }
        }
        i = i + 1;
    }
}

} // verus!
