use vstd::prelude::*;
use vstd::slice::slice_subrange;
use crate::display::{
    Framebuffer, fill_rect, painted, kept_above, lemma_fill_frame, lemma_painted_kept, lemma_above_step,
    lemma_above_painted,
};
use crate::notepad::{ClickResult, ScrollThumb};
use crate::system::UiSettings;
use crate::text::{ascii, glyph_cell, one_line, text_ink, TextWriter, COORD_MAX, lemma_painted_ink, lemma_one_line_ink, lemma_ink_first_line, lemma_ink_char};
use crate::textfmt::lit;
use crate::window::{close_rect, close_spec, hit, in_rect, sat_sub, window_fits, HEADER_H};

verus! {

/// Most bytes the clipboard holds.
pub const CLIPBOARD_MAX: usize = 2048;

/// The system clipboard: a byte string of at most `CLIPBOARD_MAX` bytes.
pub struct Clipboard {
    pub bytes: Vec<u8>,
}

impl Clipboard {
    /// An empty clipboard.
    pub fn new() -> (c: Clipboard)
        ensures
            c.bytes@ == Seq::<u8>::empty(),
    {
        Clipboard { bytes: Vec::new() }
    }

    /// At most `CLIPBOARD_MAX` bytes are held.
    pub open spec fn wf(&self) -> bool {
        self.bytes@.len() <= CLIPBOARD_MAX
    }
}

/// What the clipboard holds after copying `data`: its first `CLIPBOARD_MAX` bytes.
pub open spec fn clipped(data: Seq<u8>) -> Seq<u8> {
    if data.len() > CLIPBOARD_MAX {
        data.take(CLIPBOARD_MAX as int)
    } else {
        data
    }
}

/// What is pasted is what was copied, cut to `CLIPBOARD_MAX` bytes: a copy
/// that fits comes back whole, and copying what was pasted changes nothing.
pub proof fn lemma_paste_returns_copy(d: Seq<u8>)
    ensures
        d.len() <= CLIPBOARD_MAX ==> clipped(d) == d,
        clipped(d) == d.take(if d.len() <= CLIPBOARD_MAX { d.len() as int } else { CLIPBOARD_MAX as int }),
        clipped(clipped(d)) == clipped(d),
{
    if d.len() <= CLIPBOARD_MAX {
        assert(d.take(d.len() as int) =~= d);
    }
}

/// Copies `data` to the clipboard, keeping its first `CLIPBOARD_MAX` bytes.
pub fn set(clip: &mut Clipboard, data: &[u8])
    ensures
        final(clip).bytes@ == clipped(data@),
        final(clip).wf(),
{
    let mut len = data.len();
    if len > CLIPBOARD_MAX {
        len = CLIPBOARD_MAX;
    }
    let part = slice_subrange(data, 0, len);
    let mut v: Vec<u8> = Vec::new();
    let mut i: usize = 0;
    while i < len
        invariant
            i <= len,
            part@.len() == len,
            v@ == part@.take(i as int),
        decreases len - i,
    {
        v.push(part[i]);
        i = i + 1;
        proof {
            assert(part@.take(i as int) =~= part@.take(i - 1).push(part@[i - 1]));
        }
    }
    proof {
        assert(part@.take(len as int) =~= part@);
        assert(part@ =~= clipped(data@));
    }
    clip.bytes = v;
}

/// The clipboard's contents.
pub fn data(clip: &Clipboard) -> (r: &[u8])
    ensures
        r@ == clip.bytes@,
{
    clip.bytes.as_slice()
}

/// Empties the clipboard.
pub fn clear(clip: &mut Clipboard)
    ensures
        final(clip).bytes@ == Seq::<u8>::empty(),
{
    clip.bytes.clear();
}

pub const LINE_HEIGHT: usize = 20;
pub const PAD: usize = 12;
pub const SCROLL_W: usize = 14;
pub const BTN_H: usize = 16;
pub const CLEAR_BTN_W: usize = 60;
pub const CLEAR_BTN_H: usize = 22;

/// Newlines in `s`.
pub open spec fn nl_count(s: Seq<u8>) -> int
    decreases s.len(),
{
    if s.len() == 0 {
        0
    } else {
        nl_count(s.drop_last()) + if s.last() == 10u8 {
            1int
        } else {
            0
        }
    }
}

proof fn lemma_nl_count(s: Seq<u8>)
    ensures
        0 <= nl_count(s) <= s.len(),
    decreases s.len(),
{
    if s.len() > 0 {
        lemma_nl_count(s.drop_last());
    }
}

/// Lines of clipboard text: none when it is empty, else one more than its
/// newlines.
pub open spec fn line_count(s: Seq<u8>) -> int {
    if s.len() == 0 {
        0
    } else {
        nl_count(s) + 1
    }
}

/// Every byte that is shown of lines `start` to `start + rows - 1` of `s`
/// is ASCII: the bytes of those lines other than the newline and a carriage
/// return just before a newline or the end.
pub open spec fn lines_ascii(s: Seq<u8>, start: int, rows: int) -> bool {
    forall|p: int|
        0 <= p < s.len() && s[p] != 10u8 && start <= nl_count(#[trigger] s.take(p)) < start + rows && !(s[p]
            == 13u8 && (p + 1 == s.len() || s[p + 1] == 10u8)) ==> s[p] < 128
}

/// Lines of `data` (see `line_count`).
fn count_lines(data: &[u8]) -> (r: usize)
    requires
        data@.len() < usize::MAX,
    ensures
        r == line_count(data@),
{
    if data.len() == 0 {
        return 0;
    }
    let mut lines: usize = 1;
    let mut i: usize = 0;
    while i < data.len()
        invariant
            i <= data@.len() < usize::MAX,
            lines == nl_count(data@.take(i as int)) + 1,
        decreases data@.len() - i,
    {
        proof {
            assert(data@.take(i + 1).drop_last() =~= data@.take(i as int));
            lemma_nl_count(data@.take(i as int));
        }
        if data[i] == 10u8 {
            lines = lines + 1;
        }
        i = i + 1;
    }
    proof {
        assert(data@.take(data@.len() as int) =~= data@);
    }
    lines
}

/// Nothing is lost counting newlines in a longer prefix.
proof fn lemma_nl_mono(s: Seq<u8>, a: int, b: int)
    requires
        0 <= a <= b <= s.len(),
    ensures
        nl_count(s.take(a)) <= nl_count(s.take(b)),
    decreases b - a,
{
    if a < b {
        assert(s.take(b).drop_last() =~= s.take(b - 1));
        lemma_nl_mono(s, a, b - 1);
    }
}

/// The column of byte `p` of `s` in its line: the bytes since the newline
/// before it.
pub open spec fn col_of(s: Seq<u8>, p: int) -> int
    decreases p,
{
    if p <= 0 {
        0
    } else if s[p - 1] == 10u8 {
        0
    } else {
        col_of(s, p - 1) + 1
    }
}

/// Whether byte `p` of `s` is shown when `rows` lines from line `start` on
/// are drawn: it is on one of them, and is neither a newline nor a carriage
/// return that ends its line.
pub open spec fn shown_byte(s: Seq<u8>, start: int, rows: int, p: int) -> bool {
    &&& 0 <= p < s.len()
    &&& s[p] != 10u8
    &&& !(s[p] == 13u8 && (p + 1 == s.len() || s[p + 1] == 10u8))
    &&& start <= nl_count(s.take(p)) < start + rows
}

/// Whether drawing `rows` lines of `s` from line `start` on, from `(x, y)`,
/// one every `LINE_HEIGHT` pixels down, on a screen `fw` pixels wide, lights
/// `(qx, qy)` with the glyph of byte `p`, where its line up to that byte
/// stays on one text line.
pub open spec fn line_glyph(s: Seq<u8>, start: int, rows: int, fw: int, x: int, y: int, p: int, qx: int, qy: int) -> bool {
    &&& shown_byte(s, start, rows, p)
    &&& x + 8 * col_of(s, p) + 16 < fw
    &&& glyph_cell(s[p], x + 8 * col_of(s, p), y + (nl_count(s.take(p)) - start) * LINE_HEIGHT, qx, qy)
}

/// Every pixel that the glyph of a byte before `n` lights (see
/// `line_glyph`) has colour `fg` in `fb`.
pub open spec fn glyphs_done(
    fb: Framebuffer,
    s: Seq<u8>,
    start: int,
    rows: int,
    fw: int,
    x: int,
    y: int,
    n: int,
    fg: u32,
) -> bool {
    forall|p: int, qx: int, qy: int|
        0 <= p < n && 0 <= qx < fb.width && 0 <= qy < fb.height && #[trigger] line_glyph(s, start, rows, fw, x, y, p, qx, qy)
            ==> fb.pixel(qx, qy) == fg
}

/// What a prefix of a text lights, the whole text lights.
proof fn lemma_ink_prefix(width: int, x: int, y: int, s: Seq<u8>, k: int, qx: int, qy: int)
    requires
        0 <= k <= s.len(),
        text_ink(width, x, y, s.take(k), qx, qy),
    ensures
        text_ink(width, x, y, s, qx, qy),
    decreases s.len() - k,
{
    if k == s.len() {
        assert(s.take(k) =~= s);
    } else {
        assert(s.drop_last().take(k) =~= s.take(k));
        lemma_ink_prefix(width, x, y, s.drop_last(), k, qx, qy);
    }
}

/// The bytes `start..i` of `s`, a line (ending at a newline or at the end)
/// with the bytes before it done, that is drawn as `part` (without its
/// closing carriage return) at row `ry`: then the bytes up to `i` are done.
proof fn lemma_line_drawn(
    pw: Framebuffer,
    fb: Framebuffer,
    s: Seq<u8>,
    sl: int,
    rows: int,
    fw: int,
    x: int,
    y: int,
    start: int,
    end: int,
    i: int,
    line: int,
    part: Seq<u8>,
    fg: u32,
)
    requires
        pw.same_shape(&fb),
        0 <= start <= end <= i <= s.len(),
        end < i ==> end + 1 == i && s[end] == 13u8,
        i < s.len() ==> s[i] == 10u8,
        part == s.subrange(start, end),
        sl <= line < sl + rows,
        kept_above(pw, fb, y + (line - sl) * LINE_HEIGHT),
        forall|qx: int, qy: int|
            0 <= qx < pw.width && 0 <= qy < pw.height ==> #[trigger] fb.pixel(qx, qy) == if text_ink(
                fw,
                x,
                y + (line - sl) * LINE_HEIGHT,
                part,
                qx,
                qy,
            ) {
                fg
            } else {
                pw.pixel(qx, qy)
            },
        forall|p: int| start <= p < i ==> #[trigger] s[p] != 10u8,
        forall|p: int| start <= p < i ==> nl_count(#[trigger] s.take(p)) == line,
        forall|p: int| start <= p < i ==> #[trigger] col_of(s, p) == p - start,
        forall|p: int| 0 <= p < start && p < s.len() ==> nl_count(#[trigger] s.take(p)) < line,
        glyphs_done(pw, s, sl, rows, fw, x, y, start, fg),
    ensures
        glyphs_done(fb, s, sl, rows, fw, x, y, i + 1, fg),
{
    let ry = y + (line - sl) * LINE_HEIGHT;
    assert forall|p: int, qx: int, qy: int|
        0 <= p < i + 1 && 0 <= qx < fb.width && 0 <= qy < fb.height && #[trigger] line_glyph(s, sl, rows, fw, x, y, p, qx, qy)
            implies fb.pixel(qx, qy) == fg by {
        if p < start {
            let lp = nl_count(s.take(p));
            assert(lp < line);
            assert((lp - sl) * LINE_HEIGHT + LINE_HEIGHT <= (line - sl) * LINE_HEIGHT) by (nonlinear_arith)
                requires
                    lp < line,
            ;
            assert(pw.pixel(qx, qy) == fg);
        } else if p < end {
            let c = p - start;
            assert(part[c] == s[p]);
            let pre = part.take(c + 1);
            assert forall|k: int| 0 <= k < pre.len() implies pre[k] != 10 by {
                assert(pre[k] == s[start + k]);
            }
            assert(pre[c] == s[p]);
            lemma_ink_char(fw, x, ry, pre, c, qx, qy);
            lemma_ink_prefix(fw, x, ry, part, c + 1, qx, qy);
        }
    }
}

/// A line that is not drawn, or whose shown part is empty, leaves nothing
/// to do: the bytes up to `i` are done as the bytes before `start` were.
proof fn lemma_line_skipped(
    fb: Framebuffer,
    s: Seq<u8>,
    sl: int,
    rows: int,
    fw: int,
    x: int,
    y: int,
    start: int,
    i: int,
    line: int,
    fg: u32,
)
    requires
        0 <= start <= i <= s.len(),
        line < sl || line >= sl + rows || (i == start) || (i == start + 1 && s[start] == 13u8),
        i < s.len() ==> s[i] == 10u8,
        forall|p: int| start <= p < i ==> nl_count(#[trigger] s.take(p)) == line,
        glyphs_done(fb, s, sl, rows, fw, x, y, start, fg),
    ensures
        glyphs_done(fb, s, sl, rows, fw, x, y, i + 1, fg),
{
    assert forall|p: int, qx: int, qy: int|
        0 <= p < i + 1 && 0 <= qx < fb.width && 0 <= qy < fb.height && #[trigger] line_glyph(s, sl, rows, fw, x, y, p, qx, qy)
            implies fb.pixel(qx, qy) == fg by {
        if p >= start && p < i {
            assert(nl_count(s.take(p)) == line);
        }
    }
}

/// Once the lines from `sl` on, `rows` of them, are all drawn, the bytes
/// after `i` are on later lines: all bytes are done.
proof fn lemma_rest_hidden(
    fb: Framebuffer,
    s: Seq<u8>,
    sl: int,
    rows: int,
    fw: int,
    x: int,
    y: int,
    i: int,
    fg: u32,
)
    requires
        rows <= 0 || (i < s.len() ==> nl_count(s.take(i + 1)) >= sl + rows),
        0 <= i,
        glyphs_done(fb, s, sl, rows, fw, x, y, i + 1, fg),
    ensures
        glyphs_done(fb, s, sl, rows, fw, x, y, s.len() as int, fg),
{
    assert forall|p: int, qx: int, qy: int|
        0 <= p < s.len() && 0 <= qx < fb.width && 0 <= qy < fb.height && #[trigger] line_glyph(s, sl, rows, fw, x, y, p, qx, qy)
            implies fb.pixel(qx, qy) == fg by {
        if p > i {
            lemma_nl_mono(s, i + 1, p);
        }
    }
}

/// Draws the lines of `data` from `start_line` on, at most `max_lines` of
/// them, one every `LINE_HEIGHT` pixels down from `(x, y)`, each without a
/// carriage return at its end.
#[verifier::rlimit(60)]
#[verifier::spinoff_prover]
fn draw_lines(
    writer: &mut TextWriter,
    fb: &mut Framebuffer,
    data: &[u8],
    start_line: usize,
    max_lines: usize,
    x: usize,
    y: usize,
)
    requires
        old(fb).wf(),
        data@.len() <= CLIPBOARD_MAX,
        lines_ascii(data@, start_line as int, max_lines as int),
        max_lines <= COORD_MAX,
        x <= 4 * COORD_MAX,
        y <= 4 * COORD_MAX,
        old(writer).width <= COORD_MAX,
    ensures
        final(fb).wf(),
        final(fb).same_shape(old(fb)),
        final(writer).width == old(writer).width,
        kept_above(*old(fb), *final(fb), y as int),
        glyphs_done(
            *final(fb),
            data@,
            start_line as int,
            max_lines as int,
            old(writer).width as int,
            x as int,
            y as int,
            data@.len() as int,
            old(writer).fg,
        ),
{
    assert(kept_above(*old(fb), *old(fb), y as int));
    let ghost fw = writer.width as int;
    let ghost fg = writer.fg;
    let len = data.len();
    let mut line_idx: usize = 0;
    let mut row: usize = 0;
    let mut start: usize = 0;
    let mut i: usize = 0;
    while i <= len
        invariant
            fb.wf(),
            fb.same_shape(old(fb)),
            writer.width == old(writer).width,
            old(writer).width <= COORD_MAX,
            kept_above(*old(fb), *fb, y as int),
            len == data@.len() <= CLIPBOARD_MAX,
            lines_ascii(data@, start_line as int, max_lines as int),
            max_lines <= COORD_MAX,
            x <= 4 * COORD_MAX,
            y <= 4 * COORD_MAX,
            start <= i,
            i <= len ==> line_idx == nl_count(data@.take(i as int)),
            line_idx <= i,
            forall|p: int| start <= p < i && p < len ==> #[trigger] data@[p] != 10u8,
            forall|p: int| start <= p < i && p < len ==> nl_count(#[trigger] data@.take(p)) == line_idx,
            row <= max_lines,
            line_idx < start_line ==> row == 0,
            line_idx >= start_line ==> row == (if line_idx - start_line < max_lines {
                line_idx - start_line
            } else {
                max_lines as int
            }),
            writer.fg == fg,
            fg == old(writer).fg,
            fw == old(writer).width,
            i > len ==> start == i,
            0 < start <= len ==> data@[start - 1] == 10u8,
            forall|p: int| start <= p < i && p < len ==> #[trigger] col_of(data@, p) == p - start,
            forall|p: int| 0 <= p < start && p < len ==> nl_count(#[trigger] data@.take(p)) < line_idx,
            glyphs_done(*fb, data@, start_line as int, max_lines as int, fw, x as int, y as int, start as int, fg),
        decreases len + 1 - i,
    {
        proof {
            lemma_nl_count(data@.take(i as int));
        }
        let at_end = i == len;
        let is_break = if at_end { true } else { data[i] == 10u8 };
        if is_break {
            if line_idx >= start_line && row < max_lines {
                let mut end = i;
                if end > start && data[end - 1] == 13u8 {
                    end = end - 1;
                }
                writer.set_pos(x, y + row * LINE_HEIGHT);
                if end > start {
                    let part = slice_subrange(data, start, end);
                    proof {
                        assert(part@.len() == end - start);
                        assert(end <= i);
                        assert forall|q: int| 0 <= q < part@.len() implies #[trigger] part@[q] < 128 by {
                            let p = start + q;
                            assert(part@[q] == data@[p]);
                            assert(start <= p < i && p < len);
                            assert(nl_count(data@.take(p)) == line_idx);
                            if data@[p] == 13u8 {
                                assert(p + 1 < i);
                                assert(nl_count(data@.take(p + 1)) == line_idx);
                                assert(data@[p + 1] != 10u8);
                            }
                        }
                    }
                    let ghost pw = *fb;
                    writer.write_bytes(fb, part);
                    proof {
                        lemma_above_step(*old(fb), pw, *fb, y as int, (y + row * LINE_HEIGHT) as int);
                        assert(part@ == data@.subrange(start as int, end as int));
                        lemma_line_drawn(
                            pw,
                            *fb,
                            data@,
                            start_line as int,
                            max_lines as int,
                            fw,
                            x as int,
                            y as int,
                            start as int,
                            end as int,
                            i as int,
                            line_idx as int,
                            part@,
                            fg,
                        );
                    }
                } else {
                    proof {
                        lemma_line_skipped(
                            *fb,
                            data@,
                            start_line as int,
                            max_lines as int,
                            fw,
                            x as int,
                            y as int,
                            start as int,
                            i as int,
                            line_idx as int,
                            fg,
                        );
                    }
                }
                row = row + 1;
            } else {
                proof {
                    lemma_line_skipped(
                        *fb,
                        data@,
                        start_line as int,
                        max_lines as int,
                        fw,
                        x as int,
                        y as int,
                        start as int,
                        i as int,
                        line_idx as int,
                        fg,
                    );
                }
            }
            line_idx = line_idx + 1;
            proof {
                assert forall|p: int| 0 <= p < i + 1 && p < len implies nl_count(#[trigger] data@.take(p)) < line_idx by {
                    if p >= start {
                        assert(nl_count(data@.take(p)) == line_idx - 1);
                    }
                }
            }
            if row >= max_lines {
                proof {
                    if i < len {
                        assert(data@.take(i + 1).drop_last() =~= data@.take(i as int));
                    }
                    lemma_rest_hidden(
                        *fb,
                        data@,
                        start_line as int,
                        max_lines as int,
                        fw,
                        x as int,
                        y as int,
                        i as int,
                        fg,
                    );
                }
                return;
            }
            start = i + 1;
            proof {
                if i < len {
                    assert(data@.take(i + 1).drop_last() =~= data@.take(i as int));
                }
            }
        } else {
            proof {
                assert(data@.take(i + 1).drop_last() =~= data@.take(i as int));
                assert forall|p: int| start <= p < i + 1 && p < len implies nl_count(#[trigger] data@.take(p))
                    == line_idx by {
                    if p == i {
                        assert(nl_count(data@.take(i as int)) == line_idx);
                    }
                }
                assert forall|p: int| start <= p < i + 1 && p < len implies #[trigger] col_of(data@, p) == p - start by {
                    if p == i && i > start {
                        assert(data@[i - 1] != 10u8);
                        assert(col_of(data@, i - 1) == i - 1 - start);
                    }
                }
            }
        }
        i = i + 1;
    }
}

/// The default window: three fifths of the screen, kept between 320 x 240
/// and 500 x 400, centred.
pub open spec fn clip_rect_spec(fw: int, fh: int) -> (int, int, int, int) {
    let w0 = fw * 3 / 5;
    let w1 = if w0 < 500 { w0 } else { 500 };
    let w = if w1 > 320 { w1 } else { 320 };
    let h0 = fh * 3 / 5;
    let h1 = if h0 < 400 { h0 } else { 400 };
    let h = if h1 > 240 { h1 } else { 240 };
    ((fw - w) / 2, (fh - h) / 2, w, h)
}

fn calc_rect(fb: &Framebuffer) -> (r: (usize, usize, usize, usize))
    requires
        fb.width * 3 <= usize::MAX,
        fb.height * 3 <= usize::MAX,
        fb.width >= 320,
        fb.height >= 240,
    ensures
        (r.0 as int, r.1 as int, r.2 as int, r.3 as int) == clip_rect_spec(fb.width as int, fb.height as int),
{
    let w0 = fb.width * 3 / 5;
    let w1 = if w0 < 500 { w0 } else { 500 };
    let w = if w1 > 320 { w1 } else { 320 };
    let h0 = fb.height * 3 / 5;
    let h1 = if h0 < 400 { h0 } else { 400 };
    let h = if h1 > 240 { h1 } else { 240 };
    ((fb.width - w) / 2, (fb.height - h) / 2, w, h)
}

/// A window showing the clipboard's text, with a button that clears it.
pub struct ClipboardWindow {
    visible: bool,
    win_x: usize,
    win_y: usize,
    win_w: usize,
    win_h: usize,
    scroll: usize,
}

/// A clipboard window's state as plain values.
pub struct ClipView {
    pub visible: bool,
    pub win_x: usize,
    pub win_y: usize,
    pub win_w: usize,
    pub win_h: usize,
    pub scroll: usize,
}

impl View for ClipboardWindow {
    type V = ClipView;

    closed spec fn view(&self) -> ClipView {
        ClipView {
            visible: self.visible,
            win_x: self.win_x,
            win_y: self.win_y,
            win_w: self.win_w,
            win_h: self.win_h,
            scroll: self.scroll,
        }
    }
}

impl ClipView {
    /// The window either has no size yet or at least its smallest one.
    pub open spec fn wf(self) -> bool {
        (self.win_w == 0 && self.win_h == 0) || (self.win_w >= 320 && self.win_h >= 240)
    }

    /// The screen and window leave room for the window arithmetic: the
    /// default rectangle fits on the screen, and no coordinate is near the
    /// top of the machine's range.
    pub open spec fn placed(self, fb: &Framebuffer) -> bool {
        let r = self.rect_on(fb.width as int, fb.height as int);
        &&& fb.width * 3 <= usize::MAX
        &&& fb.height * 3 <= usize::MAX
        &&& (self.win_w == 0 || self.win_h == 0) ==> (fb.width >= 320 && fb.height >= 240)
        &&& r.0 + r.2 + 128 <= usize::MAX
        &&& r.1 + r.3 + 128 <= usize::MAX
    }

    /// The window rectangle on a `fw * fh` screen.
    pub open spec fn rect_on(self, fw: int, fh: int) -> (int, int, int, int) {
        if self.win_w == 0 || self.win_h == 0 {
            clip_rect_spec(fw, fh)
        } else {
            (self.win_x as int, self.win_y as int, self.win_w as int, self.win_h as int)
        }
    }

    /// Text lines that fit below the Clear button.
    pub open spec fn max_lines_on(self, fw: int, fh: int) -> int {
        let body_h = sat_sub(self.rect_on(fw, fh).3, HEADER_H + 2);
        sat_sub(body_h, PAD * 2 + CLEAR_BTN_H + PAD) / LINE_HEIGHT as int
    }

    /// The last first line that still fills the window, for clipboard text
    /// `data`.
    pub open spec fn max_scroll_on(self, fw: int, fh: int, data: Seq<u8>) -> int {
        sat_sub(line_count(data), self.max_lines_on(fw, fh))
    }

    /// The window lies where the drawing code can reach.
    pub open spec fn drawable(self, fb: &Framebuffer) -> bool {
        let r = self.rect_on(fb.width as int, fb.height as int);
        &&& self.placed(fb)
        &&& fb.width <= COORD_MAX
        &&& window_fits(r.0, r.1, r.2, r.3)
    }
}

/// Where a click lands on a clipboard window at `r`: the Clear button (`0`),
/// the up (`1`) or down (`2`) button, the track (`3`), or elsewhere (`4`).
pub open spec fn clip_target(r: (int, int, int, int), x: int, y: int) -> int {
    let clear = ((r.0 + r.2 - PAD - CLEAR_BTN_W) as usize, (r.1 + HEADER_H + PAD) as usize, CLEAR_BTN_W, CLEAR_BTN_H);
    let body_y = r.1 + HEADER_H + 1;
    let body_h = sat_sub(r.3, HEADER_H + 2);
    let scroll_x = r.0 + sat_sub(r.2, PAD + SCROLL_W);
    let scroll_y = body_y + PAD;
    let scroll_h = sat_sub(body_h, PAD * 2);
    let up = (scroll_x as usize, scroll_y as usize, SCROLL_W, BTN_H);
    let down = (scroll_x as usize, (scroll_y + sat_sub(scroll_h, BTN_H as int)) as usize, SCROLL_W, BTN_H);
    let track_y = scroll_y + BTN_H;
    let track_h = sat_sub(scroll_h, BTN_H * 2);
    if in_rect(x, y, clear) {
        0
    } else if in_rect(x, y, up) {
        1
    } else if in_rect(x, y, down) {
        2
    } else if scroll_x <= x < scroll_x + SCROLL_W && track_y <= y < track_y + track_h {
        3
    } else {
        4
    }
}

/// The clipboard window's title.
fn clipboard_title() -> (b: &'static [u8])
    ensures
        ascii(b@),
        b@.len() == 9,
        b@ == lit("Clipboard"),
{
    proof {
        reveal_strlit("Clipboard");
    }
    crate::text::ascii_lit("Clipboard")
}

/// The colour of the clipboard window's text.
pub open spec fn clip_text_color(dark: bool) -> u32 {
    if dark {
        0x00FFFFFF
    } else {
        0x00000000
    }
}

/// Every pixel that the window title, written from `(x, y)` on a screen
/// `fw` pixels wide, lights where it stays on one line has the text colour
/// in `fb`.
pub open spec fn title_shown(fb: Framebuffer, fw: int, x: int, y: int, dark: bool) -> bool {
    forall|qx: int, qy: int|
        0 <= qx < fb.width && 0 <= qy < fb.height && #[trigger] text_ink(fw, x, y, lit("Clipboard"), qx, qy)
            && one_line(fw, x, lit("Clipboard")) ==> fb.pixel(qx, qy) == clip_text_color(dark)
}

/// A one-byte label.
fn mark(b: u8) -> (l: Vec<u8>)
    requires
        b < 128,
    ensures
        l@ == seq![b],
        ascii(l@),
{
    let mut l: Vec<u8> = Vec::new();
    l.push(b);
    proof {
        assert(l@ =~= seq![b]);
    }
    l
}

impl ClipView {
    /// A click at `(x, y)` (see `clip_target`): what it did, the window
    /// after it and the clipboard's text after it. Clear empties the
    /// clipboard and goes back to the first line, the buttons scroll by one
    /// line, and a click on the track asks for a jump when there is
    /// somewhere to scroll. Nothing happens while hidden.
    pub open spec fn clicked(self, fw: int, fh: int, data: Seq<u8>, x: int, y: int) -> (ClickResult, ClipView, Seq<u8>) {
        if !self.visible {
            (ClickResult::Ignored, self, data)
        } else {
            let rc = self.rect_on(fw, fh);
            let t = clip_target(rc, x, y);
            let m = self.max_scroll_on(fw, fh, data);
            let scroll_y = rc.1 + HEADER_H + 1 + PAD;
            let track_h = sat_sub(sat_sub(sat_sub(rc.3, HEADER_H + 2), PAD * 2), BTN_H * 2);
            let scroll = if t == 0 {
                0
            } else if t == 1 {
                sat_sub(self.scroll as int, 1) as usize
            } else if t == 2 && self.scroll < m {
                (self.scroll + 1) as usize
            } else {
                self.scroll
            };
            let r = if t == 4 {
                ClickResult::Ignored
            } else if t == 3 && m > 0 {
                ClickResult::TrackJump {
                    offset: (y - (scroll_y + BTN_H)) as usize,
                    track_h: track_h as usize,
                    max_scroll: m as usize,
                }
            } else {
                ClickResult::Handled
            };
            (r, ClipView { scroll, ..self }, if t == 0 { Seq::empty() } else { data })
        }
    }
}

impl ClipboardWindow {
    /// A hidden window with no size yet.
    pub fn new(fb: &Framebuffer) -> (c: ClipboardWindow)
        ensures
            c@ == (ClipView { visible: false, win_x: 0, win_y: 0, win_w: 0, win_h: 0, scroll: 0 }),
            c@.wf(),
    {
        ClipboardWindow { visible: false, win_x: 0, win_y: 0, win_w: 0, win_h: 0, scroll: 0 }
    }

    /// Whether the window is shown.
    pub fn is_visible(&self) -> (r: bool)
        ensures
            r == self@.visible,
    {
        self.visible
    }

    /// Shows the window from the first line, at the default rectangle if it
    /// has no size yet.
    pub fn show(&mut self, fb: &Framebuffer)
        requires
            old(self)@.wf(),
            old(self)@.placed(fb),
        ensures
            final(self)@.wf(),
            final(self)@ == if old(self)@.win_w == 0 || old(self)@.win_h == 0 {
                let r = clip_rect_spec(fb.width as int, fb.height as int);
                ClipView {
                    visible: true,
                    scroll: 0,
                    win_x: r.0 as usize,
                    win_y: r.1 as usize,
                    win_w: r.2 as usize,
                    win_h: r.3 as usize,
                }
            } else {
                ClipView { visible: true, scroll: 0, ..old(self)@ }
            },
    {
        self.visible = true;
        self.scroll = 0;
        if self.win_w == 0 || self.win_h == 0 {
            let (x, y, w, h) = calc_rect(fb);
            self.win_x = x;
            self.win_y = y;
            self.win_w = w;
            self.win_h = h;
        }
    }

    /// Hides the window.
    pub fn hide_window(&mut self, fb: &Framebuffer)
        ensures
            final(self)@ == (ClipView { visible: false, ..old(self)@ }),
    {
        if !self.visible {
            return;
        }
        self.visible = false;
    }

    /// The window rectangle: the default one while it has no size.
    pub fn rect(&self, fb: &Framebuffer) -> (r: (usize, usize, usize, usize))
        requires
            self@.placed(fb),
        ensures
            (r.0 as int, r.1 as int, r.2 as int, r.3 as int) == self@.rect_on(fb.width as int, fb.height as int),
    {
        if self.win_w == 0 || self.win_h == 0 {
            return calc_rect(fb);
        }
        (self.win_x, self.win_y, self.win_w, self.win_h)
    }

    /// Moves the window.
    pub fn set_pos(&mut self, x: usize, y: usize)
        ensures
            final(self)@ == (ClipView { win_x: x, win_y: y, ..old(self)@ }),
    {
        self.win_x = x;
        self.win_y = y;
    }

    fn max_lines(&self, fb: &Framebuffer) -> (r: usize)
        requires
            self@.placed(fb),
        ensures
            r == self@.max_lines_on(fb.width as int, fb.height as int),
    {
        let (_, _, _, h) = self.rect(fb);
        let body_h = h.saturating_sub(HEADER_H + 2);
        let available_h = body_h.saturating_sub(PAD * 2 + CLEAR_BTN_H + PAD);
        available_h / LINE_HEIGHT
    }

    fn max_scroll(&self, fb: &Framebuffer, clip: &Clipboard) -> (r: usize)
        requires
            self@.placed(fb),
            clip.wf(),
        ensures
            r == self@.max_scroll_on(fb.width as int, fb.height as int, clip.bytes@),
    {
        let total = count_lines(data(clip));
        total.saturating_sub(self.max_lines(fb))
    }

    /// Scrolls up a line.
    pub fn scroll_up(&mut self, fb: &Framebuffer)
        ensures
            final(self)@ == (ClipView { scroll: sat_sub(old(self)@.scroll as int, 1) as usize, ..old(self)@ }),
    {
        if self.scroll > 0 {
            self.scroll = self.scroll - 1;
        }
    }

    /// Scrolls down a line, while lines remain below.
    pub fn scroll_down(&mut self, fb: &Framebuffer, clip: &Clipboard)
        requires
            old(self)@.placed(fb),
            clip.wf(),
        ensures
            final(self)@ == (ClipView {
                scroll: if old(self)@.scroll < old(self)@.max_scroll_on(fb.width as int, fb.height as int, clip.bytes@) {
                    (old(self)@.scroll + 1) as usize
                } else {
                    old(self)@.scroll
                },
                ..old(self)@
            }),
    {
        let max_scroll = self.max_scroll(fb, clip);
        if self.scroll < max_scroll {
            self.scroll = self.scroll + 1;
        }
    }

    /// Jumps so that `line` is the first line shown, or as near as the text
    /// allows.
    pub fn scroll_to(&mut self, fb: &Framebuffer, clip: &Clipboard, line: usize)
        requires
            old(self)@.placed(fb),
            clip.wf(),
        ensures
            final(self)@ == (ClipView {
                scroll: {
                    let m = old(self)@.max_scroll_on(fb.width as int, fb.height as int, clip.bytes@);
                    if line < m { line } else { m as usize }
                },
                ..old(self)@
            }),
    {
        let max_scroll = self.max_scroll(fb, clip);
        self.scroll = if line < max_scroll { line } else { max_scroll };
    }

    /// A click at `(x, y)` while shown (see `clip_target`): Clear empties the
    /// clipboard and goes back to the first line, the buttons scroll by one
    /// line, and a click on the track asks the caller for a jump (when
    /// there is somewhere to scroll). The caller redraws.
    pub fn handle_click(&mut self, fb: &Framebuffer, clip: &mut Clipboard, x: usize, y: usize) -> (r: ClickResult)
        requires
            old(self)@.wf(),
            old(clip).wf(),
            old(self)@.visible ==> old(self)@.placed(fb),
        ensures
            final(clip).wf(),
            (r, final(self)@, final(clip).bytes@) == old(self)@.clicked(
                fb.width as int,
                fb.height as int,
                old(clip).bytes@,
                x as int,
                y as int,
            ),
    {
        if !self.visible {
            return ClickResult::Ignored;
        }
        let (wx, wy, ww, wh) = self.rect(fb);
        let clear_x = wx + ww - PAD - CLEAR_BTN_W;
        let clear_y = wy + HEADER_H + PAD;
        if hit(x, y, (clear_x, clear_y, CLEAR_BTN_W, CLEAR_BTN_H)) {
            clear(clip);
            self.scroll = 0;
            return ClickResult::Handled;
        }
        let body_y = wy + HEADER_H + 1;
        let body_h = wh.saturating_sub(HEADER_H + 2);
        let scroll_x = wx + ww.saturating_sub(PAD + SCROLL_W);
        let scroll_y = body_y + PAD;
        let scroll_h = body_h.saturating_sub(PAD * 2);
        let up_rect = (scroll_x, scroll_y, SCROLL_W, BTN_H);
        let down_rect = (scroll_x, scroll_y + scroll_h.saturating_sub(BTN_H), SCROLL_W, BTN_H);
        if hit(x, y, up_rect) {
            self.scroll_up(fb);
            return ClickResult::Handled;
        }
        if hit(x, y, down_rect) {
            self.scroll_down(fb, clip);
            return ClickResult::Handled;
        }
        let track_y = scroll_y + BTN_H;
        let track_h = scroll_h.saturating_sub(BTN_H * 2);
        if x >= scroll_x && x < scroll_x + SCROLL_W && y >= track_y && y < track_y + track_h {
            let max_scroll = self.max_scroll(fb, clip);
            if max_scroll > 0 {
                return ClickResult::TrackJump { offset: y - track_y, track_h, max_scroll };
            }
            return ClickResult::Handled;
        }
        ClickResult::Ignored
    }

    /// Draws the window up to its scroll bar: translucent body and frame,
    /// title bar with the close button, the Clear button, and the scroll
    /// track with its buttons. When the text is longer than the window,
    /// returns what the thumb is drawn from (its size and place are
    /// proportional, worked out by the caller, who then draws the text with
    /// `draw_text`). Nothing is drawn while hidden.
    #[verifier::rlimit(80)]
    #[verifier::spinoff_prover]
    pub fn redraw(&self, fb: &mut Framebuffer, ui: &UiSettings, clip: &Clipboard) -> (r: Option<ScrollThumb>)
        requires
            old(fb).wf(),
            self@.wf(),
            clip.wf(),
            self@.visible ==> self@.drawable(old(fb)),
        ensures
            final(fb).wf(),
            final(fb).same_shape(old(fb)),
            !self@.visible ==> *final(fb) == *old(fb) && r.is_none(),
            self@.visible ==> (r.is_some() <==> self@.max_scroll_on(old(fb).width as int, old(fb).height as int, clip.bytes@) > 0),
            r matches Some(t) ==> {
                let rc = self@.rect_on(old(fb).width as int, old(fb).height as int);
                let scroll_h = sat_sub(sat_sub(rc.3, HEADER_H + 2), PAD * 2);
                &&& t.x == rc.0 + sat_sub(rc.2, PAD + SCROLL_W)
                &&& t.track_y == rc.1 + HEADER_H + 1 + PAD + BTN_H
                &&& t.track_h == scroll_h - 2 * BTN_H
                &&& t.max_lines == self@.max_lines_on(old(fb).width as int, old(fb).height as int)
                &&& t.total_lines == line_count(clip.bytes@)
                &&& t.scroll == self@.scroll
                &&& t.max_scroll == self@.max_scroll_on(old(fb).width as int, old(fb).height as int, clip.bytes@)
                &&& t.color == if ui.dark { 0x00808080u32 } else { 0x00A0A0A0u32 }
            },
            ({
                let rc = self@.rect_on(old(fb).width as int, old(fb).height as int);
                self@.visible && one_line(old(fb).width as int, rc.0 + PAD, lit("Clipboard")) ==> painted(
                    *final(fb),
                    rc.0 + 1,
                    rc.1 + HEADER_H - 1,
                    sat_sub(rc.2, 2),
                    2,
                    ui.accent,
                )
            }),
            ({
                let rc = self@.rect_on(old(fb).width as int, old(fb).height as int);
                self@.visible ==> title_shown(*final(fb), old(fb).width as int, rc.0 + PAD, rc.1 + 8, ui.dark)
            }),
    {
        if !self.visible {
            return None;
        }
        let (x, y, w, h) = self.rect(fb);
        let accent = ui.accent;
        let is_dark = ui.dark;
        fill_rect(fb, x, y, w, h, if is_dark { 0x801C1C1C } else { 0x80F0F0F0 });
        let border_color: u32 = if is_dark { 0x00404040 } else { 0x00C0C0C0 };
        fill_rect(fb, x, y, w, 1, border_color);
        fill_rect(fb, x, y + h.saturating_sub(1), w, 1, border_color);
        fill_rect(fb, x, y, 1, h, border_color);
        fill_rect(fb, x + w.saturating_sub(1), y, 1, h, border_color);
        let header_bg: u32 = if is_dark { 0x00333333 } else { 0x00F3F3F3 };
        fill_rect(fb, x + 1, y + 1, w.saturating_sub(2), HEADER_H, header_bg);
        let ghost pa = *fb;
        fill_rect(fb, x + 1, y + HEADER_H - 1, w.saturating_sub(2), 2, accent);
        let ghost line = (x + 1, y + HEADER_H - 1, w.saturating_sub(2) as int, 2int);
        proof {
            lemma_fill_frame(pa, *fb, line.0, line.1, line.2, line.3, accent);
        }

        let mut writer = TextWriter::new(fb);
        let text_color: u32 = if is_dark { 0x00FFFFFF } else { 0x00000000 };
        writer.set_color(text_color);
        writer.set_pos(x + PAD, y + 8);
        let title = clipboard_title();
        let ghost pt = *fb;
        writer.write_bytes(fb, title);
        let ghost fits = one_line(fb.width as int, x + PAD, title@);
        let ghost fw = fb.width as int;
        assert(title_shown(*fb, fw, x + PAD, y + 8, is_dark));
        proof {
            if fits {
                lemma_painted_ink(pt, *fb, line, accent, text_color, y + 8, writer.y + 8);
            }
        }

        let close = close_rect(x, y, w);
        let ghost pc = *fb;
        fill_rect(fb, close.0, close.1, close.2, close.3, 0x00E81123);
        proof {
            let a = (close.0 as int, close.1 as int, close.2 as int, close.3 as int);
            lemma_fill_frame(pc, *fb, a.0, a.1, a.2, a.3, 0x00E81123);
            if fits {
                lemma_painted_kept(pc, *fb, line, accent, a);
            }
            assert forall|qx: int, qy: int|
                0 <= qx < fb.width && 0 <= qy < fb.height && #[trigger] text_ink(fw, x + PAD, y + 8, lit("Clipboard"), qx, qy)
                    && one_line(fw, x + PAD, lit("Clipboard")) implies fb.pixel(qx, qy) == clip_text_color(is_dark) by {
                lemma_one_line_ink(fw, x + PAD, y + 8, lit("Clipboard"), qx, qy);
                assert(pc.pixel(qx, qy) == clip_text_color(is_dark));
            }
        }
        writer.set_color(0x00FFFFFF);
        writer.set_pos(close.0 + 4, close.1 + 3);
        let x_mark = mark(88u8);
        let ghost px = *fb;
        writer.write_bytes(fb, x_mark.as_slice());
        proof {
            crate::text::lemma_after_bytes_bounds(
                writer.width as int,
                (close.0 + 4) as int,
                (close.1 + 3) as int,
                x_mark@,
            );
            if fits {
                lemma_painted_ink(px, *fb, line, accent, 0x00FFFFFF, close.1 + 3, writer.y + 8);
            }
            assert forall|qx: int, qy: int|
                0 <= qx < fb.width && 0 <= qy < fb.height && #[trigger] text_ink(fw, x + PAD, y + 8, lit("Clipboard"), qx, qy)
                    && one_line(fw, x + PAD, lit("Clipboard")) implies fb.pixel(qx, qy) == clip_text_color(is_dark) by {
                lemma_one_line_ink(fw, x + PAD, y + 8, lit("Clipboard"), qx, qy);
                if text_ink(fw, (close.0 + 4) as int, (close.1 + 3) as int, x_mark@, qx, qy) {
                    lemma_ink_first_line(fw, (close.0 + 4) as int, (close.1 + 3) as int, x_mark@, qx, qy);
                }
                assert(px.pixel(qx, qy) == clip_text_color(is_dark));
            }
        }
        let ghost framed = *fb;
        let ghost top = y + HEADER_H + 1;
        assert(kept_above(framed, framed, top));

        let body_y = y + HEADER_H + 1;
        let body_h = h.saturating_sub(HEADER_H + 2);
        let ghost q1 = *fb;
        fill_rect(fb, x + 1, body_y, w.saturating_sub(2), body_h, if is_dark { 0x801C1C1C } else { 0x80FFFFFF });
        proof {
            lemma_above_step(framed, q1, *fb, top, (body_y) as int);
        }

        let clear_x = x + w - PAD - CLEAR_BTN_W;
        let clear_y = body_y + PAD;
        let ghost q2 = *fb;
        fill_rect(fb, clear_x, clear_y, CLEAR_BTN_W, CLEAR_BTN_H, if is_dark { 0x00404040 } else { 0x00D0D0D0 });
        proof {
            lemma_above_step(framed, q2, *fb, top, (clear_y) as int);
        }
        let ghost q3 = *fb;
        fill_rect(fb, clear_x, clear_y, CLEAR_BTN_W, 1, border_color);
        proof {
            lemma_above_step(framed, q3, *fb, top, (clear_y) as int);
        }
        let ghost q4 = *fb;
        fill_rect(fb, clear_x, clear_y + CLEAR_BTN_H - 1, CLEAR_BTN_W, 1, border_color);
        proof {
            lemma_above_step(framed, q4, *fb, top, (clear_y + CLEAR_BTN_H - 1) as int);
        }
        writer.set_color(text_color);
        writer.set_pos(clear_x + 8, clear_y + 5);
        proof {
            reveal_strlit("Clear");
        }
        let ghost q5 = *fb;
        let ghost ty5 = writer.y as int;
        writer.write_bytes(fb, crate::text::ascii_lit("Clear"));
        proof {
            lemma_above_step(framed, q5, *fb, top, ty5);
        }

        let scroll_x = x + w.saturating_sub(PAD + SCROLL_W);
        let scroll_y = body_y + PAD;
        let scroll_h = body_h.saturating_sub(PAD * 2);
        let ghost q6 = *fb;
        fill_rect(fb, scroll_x, scroll_y, SCROLL_W, scroll_h, if is_dark { 0x00323232 } else { 0x00E0E0E0 });
        proof {
            lemma_above_step(framed, q6, *fb, top, (scroll_y) as int);
        }
        let btn_color: u32 = if is_dark { 0x00505050 } else { 0x00C0C0C0 };
        let ghost q7 = *fb;
        fill_rect(fb, scroll_x, scroll_y, SCROLL_W, BTN_H, btn_color);
        proof {
            lemma_above_step(framed, q7, *fb, top, (scroll_y) as int);
        }
        let ghost q8 = *fb;
        fill_rect(fb, scroll_x, scroll_y + scroll_h.saturating_sub(BTN_H), SCROLL_W, BTN_H, btn_color);
        proof {
            lemma_above_step(framed, q8, *fb, top, (scroll_y + scroll_h.saturating_sub(BTN_H)) as int);
        }
        writer.set_color(text_color);
        writer.set_pos(scroll_x + 4, scroll_y + 3);
        let up_mark = mark(94u8);
        let ghost q9 = *fb;
        let ghost ty9 = writer.y as int;
        writer.write_bytes(fb, up_mark.as_slice());
        proof {
            lemma_above_step(framed, q9, *fb, top, ty9);
        }
        writer.set_pos(scroll_x + 4, scroll_y + scroll_h.saturating_sub(BTN_H - 3));
        let down_mark = mark(118u8);
        let ghost q10 = *fb;
        let ghost ty10 = writer.y as int;
        writer.write_bytes(fb, down_mark.as_slice());
        proof {
            lemma_above_step(framed, q10, *fb, top, ty10);
        }

        proof {
            if fits {
                lemma_above_painted(framed, *fb, top, line, accent);
            }
            assert forall|qx: int, qy: int|
                0 <= qx < fb.width && 0 <= qy < fb.height && #[trigger] text_ink(fw, x + PAD, y + 8, lit("Clipboard"), qx, qy)
                    && one_line(fw, x + PAD, lit("Clipboard")) implies fb.pixel(qx, qy) == clip_text_color(is_dark) by {
                lemma_one_line_ink(fw, x + PAD, y + 8, lit("Clipboard"), qx, qy);
                assert(framed.pixel(qx, qy) == clip_text_color(is_dark));
            }
        }
        let total_lines = count_lines(data(clip));
        let max_lines = self.max_lines(fb);
        let max_scroll = total_lines.saturating_sub(max_lines);
        if max_scroll > 0 {
            Some(
                ScrollThumb {
                    x: scroll_x,
                    track_y: scroll_y + BTN_H,
                    track_h: scroll_h - 2 * BTN_H,
                    max_lines,
                    total_lines,
                    scroll: self.scroll,
                    max_scroll,
                    color: if is_dark { 0x00808080 } else { 0x00A0A0A0 },
                },
            )
        } else {
            None
        }
    }

    /// Draws the clipboard's text from the scroll position (`(empty)` when
    /// there is none), after `redraw` and the thumb, in the text colour:
    /// each shown byte's glyph (see `line_glyph`) where its line stays on
    /// one text line up to it. Nothing above the text area changes.
    pub fn draw_text(&self, fb: &mut Framebuffer, ui: &UiSettings, clip: &Clipboard)
        requires
            old(fb).wf(),
            self@.wf(),
            clip.wf(),
            self@.visible ==> self@.drawable(old(fb)),
            self@.visible ==> lines_ascii(
                clip.bytes@,
                self@.scroll as int,
                self@.max_lines_on(old(fb).width as int, old(fb).height as int),
            ),
        ensures
            final(fb).wf(),
            final(fb).same_shape(old(fb)),
            !self@.visible ==> *final(fb) == *old(fb),
            self@.visible ==> kept_above(
                *old(fb),
                *final(fb),
                self@.rect_on(old(fb).width as int, old(fb).height as int).1 + HEADER_H + 1 + PAD + CLEAR_BTN_H
                    + PAD,
            ),
            ({
                let rc = self@.rect_on(old(fb).width as int, old(fb).height as int);
                self@.visible && clip.bytes@.len() == 0 ==> forall|qx: int, qy: int|
                    0 <= qx < old(fb).width && 0 <= qy < old(fb).height ==> #[trigger] final(fb).pixel(qx, qy)
                        == if text_ink(
                        old(fb).width as int,
                        rc.0 + PAD,
                        rc.1 + HEADER_H + 1 + PAD + CLEAR_BTN_H + PAD,
                        lit("(empty)"),
                        qx,
                        qy,
                    ) {
                        clip_text_color(ui.dark)
                    } else {
                        old(fb).pixel(qx, qy)
                    }
            }),
            ({
                let rc = self@.rect_on(old(fb).width as int, old(fb).height as int);
                self@.visible && clip.bytes@.len() > 0 ==> glyphs_done(
                    *final(fb),
                    clip.bytes@,
                    self@.scroll as int,
                    self@.max_lines_on(old(fb).width as int, old(fb).height as int),
                    old(fb).width as int,
                    rc.0 + PAD,
                    rc.1 + HEADER_H + 1 + PAD + CLEAR_BTN_H + PAD,
                    clip.bytes@.len() as int,
                    clip_text_color(ui.dark),
                )
            }),
    {
        if !self.visible {
            return;
        }
        let (x, y, w, h) = self.rect(fb);
        let text_color: u32 = if ui.dark { 0x00FFFFFF } else { 0x00000000 };
        let mut writer = TextWriter::new(fb);
        let body_y = y + HEADER_H + 1;
        let text_x = x + PAD;
        let text_y = body_y + PAD + CLEAR_BTN_H + PAD;
        let bytes = data(clip);
        writer.set_color(text_color);
        if bytes.len() == 0 {
            writer.set_pos(text_x, text_y);
            proof {
                reveal_strlit("(empty)");
            }
            let empty = crate::text::ascii_lit("(empty)");
            assert(empty@ == lit("(empty)"));
            writer.write_bytes(fb, empty);
        } else {
            let max_lines = self.max_lines(fb);
            draw_lines(&mut writer, fb, bytes, self.scroll, max_lines, text_x, text_y);
        }
        assert(kept_above(*old(fb), *fb, text_y as int));
    }
}

} // verus!
