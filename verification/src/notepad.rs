use vstd::prelude::*;
use crate::color::fill_vertical_gradient;
use crate::display::{
    Framebuffer, fill_rect, painted, kept_above, kept_outside, lemma_fill_frame, lemma_above_rect,
    lemma_above_painted, lemma_above_trans,
};
use crate::fat32::Fat32;
use crate::system::UiSettings;
use crate::text::{ascii, glyph_cell, one_line, text_ink, TextWriter, COORD_MAX, lemma_above_ink, lemma_ink_char, lemma_ink_one_char, lemma_one_line_ink};
use crate::textfmt::{lit, bytes_of, write_str};
use crate::window::{draw_window, hit, in_rect, sat_sub, title_color, title_fits, window_fits, CORNER_RADIUS, HEADER_H};

verus! {

/// Most bytes a document holds.
pub const MAX_TEXT: usize = 8192;
/// Most bytes of a window title.
pub const MAX_TITLE: usize = 48;
pub const PAD: usize = 12;
pub const LINE_HEIGHT: usize = 16;
pub const SCROLL_W: usize = 14;
pub const BTN_H: usize = 16;
/// Longest line `draw_wrapped_lines` draws in one piece.
pub const LINE_BUF: usize = 256;

/// One step of wrapping: `(lines, col)` after byte `b` at `mc` columns. A
/// carriage return is skipped, a newline starts a line, a byte past the last
/// column starts a line of its own.
pub open spec fn wrap_step(st: (int, int), b: u8, mc: int) -> (int, int) {
    if b == 13u8 {
        st
    } else if b == 10u8 {
        (st.0 + 1, 0)
    } else if st.1 >= mc {
        (st.0 + 1, 1)
    } else {
        (st.0, st.1 + 1)
    }
}

/// `(lines, col)` after wrapping all of `data` at `mc` columns.
pub open spec fn wrap_state(data: Seq<u8>, mc: int) -> (int, int)
    decreases data.len(),
{
    if data.len() == 0 {
        (1, 0)
    } else {
        wrap_step(wrap_state(data.drop_last(), mc), data.last(), mc)
    }
}

/// Screen lines `data` takes when wrapped at `mc` columns: none without a
/// column, one for empty text.
pub open spec fn wrapped_lines(data: Seq<u8>, mc: int) -> int {
    if mc == 0 {
        0
    } else if data.len() == 0 {
        1
    } else {
        wrap_state(data, mc).0
    }
}

proof fn lemma_wrap_state(data: Seq<u8>, mc: int)
    requires
        mc >= 1,
    ensures
        1 <= wrap_state(data, mc).0 <= data.len() + 1,
        0 <= wrap_state(data, mc).1 <= mc,
    decreases data.len(),
{
    if data.len() > 0 {
        lemma_wrap_state(data.drop_last(), mc);
    }
}

/// The screen line and column of byte `p` of `data` wrapped at `mc`
/// columns (both from 0).
pub open spec fn wrap_cell(data: Seq<u8>, mc: int, p: int) -> (int, int) {
    let st = wrap_state(data.take(p + 1), mc);
    (st.0 - 1, st.1 - 1)
}

/// Whether byte `p` of `data`, wrapped at `mc` columns and shown from
/// screen line `start` down, one line every `LINE_HEIGHT` pixels from
/// `(x, y)`, is a character whose glyph lights `(qx, qy)`.
pub open spec fn note_glyph(data: Seq<u8>, mc: int, start: int, x: int, y: int, p: int, qx: int, qy: int) -> bool {
    let c = wrap_cell(data, mc, p);
    &&& data[p] != 10
    &&& data[p] != 13
    &&& start <= c.0
    &&& glyph_cell(data[p], x + 8 * c.1, y + (c.0 - start) * LINE_HEIGHT, qx, qy)
}

proof fn lemma_wrap_take(data: Seq<u8>, mc: int, i: int)
    requires
        0 <= i < data.len(),
    ensures
        wrap_state(data.take(i + 1), mc) == wrap_step(wrap_state(data.take(i), mc), data[i], mc),
{
    assert(data.take(i + 1).drop_last() =~= data.take(i));
    assert(data.take(i + 1).last() == data[i]);
}

proof fn lemma_wrap_cell_col(data: Seq<u8>, mc: int, p: int)
    requires
        0 <= p < data.len(),
        data[p] != 10,
        data[p] != 13,
        mc >= 1,
    ensures
        0 <= wrap_cell(data, mc, p).1,
        0 <= wrap_cell(data, mc, p).0,
{
    lemma_wrap_take(data, mc, p);
    lemma_wrap_state(data.take(p), mc);
}

proof fn lemma_wrap_mono(data: Seq<u8>, mc: int, a: int, b: int)
    requires
        0 <= a <= b <= data.len(),
    ensures
        wrap_state(data.take(a), mc).0 <= wrap_state(data.take(b), mc).0,
    decreases b - a,
{
    if a < b {
        lemma_wrap_mono(data, mc, a, b - 1);
        assert(data.take(b).drop_last() =~= data.take(b - 1));
    }
}

/// A loaded byte as shown: newline, tab and printable ASCII stay, anything
/// else becomes `.`.
pub open spec fn shown_byte(b: u8) -> u8 {
    if b == 10u8 || b == 9u8 || (32 <= b <= 126) {
        b
    } else {
        46u8
    }
}

/// Loaded text with carriage returns dropped and other bytes as shown.
pub open spec fn sanitized(s: Seq<u8>) -> Seq<u8>
    decreases s.len(),
{
    if s.len() == 0 {
        Seq::empty()
    } else if s.last() == 13u8 {
        sanitized(s.drop_last())
    } else {
        sanitized(s.drop_last()).push(shown_byte(s.last()))
    }
}

proof fn lemma_sanitized(s: Seq<u8>)
    ensures
        sanitized(s).len() <= s.len(),
        ascii(sanitized(s)),
    decreases s.len(),
{
    if s.len() > 0 {
        lemma_sanitized(s.drop_last());
        let t = sanitized(s.drop_last());
        if s.last() != 13u8 {
            assert forall|i: int| 0 <= i < sanitized(s).len() implies #[trigger] sanitized(s)[i] < 128 by {
                if i < t.len() {
                    assert(sanitized(s)[i] == t[i]);
                }
            }
        }
    }
}

/// Cleans the first `len` bytes of `buf` in place for display (see
/// `sanitized`) and returns the cleaned length; the bytes after it are left
/// as they were.
pub fn sanitize_loaded_text(buf: &mut Vec<u8>, len: usize) -> (out: usize)
    ensures
        final(buf)@.len() == old(buf)@.len(),
        out <= old(buf)@.len(),
        final(buf)@.take(out as int) == sanitized(
            old(buf)@.take(if len < old(buf)@.len() {
                len as int
            } else {
                old(buf)@.len() as int
            }),
        ),
        forall|j: int|
            (if len < old(buf)@.len() {
                len as int
            } else {
                old(buf)@.len() as int
            }) <= j < old(buf)@.len() ==> final(buf)@[j] == old(buf)@[j],
{
    let mut out: usize = 0;
    let max = if len < buf.len() { len } else { buf.len() };
    let mut i: usize = 0;
    proof {
        assert(old(buf)@.take(0) =~= Seq::<u8>::empty());
        assert(buf@.take(0) =~= Seq::<u8>::empty());
    }
    while i < max
        invariant
            max <= old(buf)@.len(),
            buf@.len() == old(buf)@.len(),
            out <= i <= max,
            forall|j: int| i <= j < buf@.len() ==> buf@[j] == old(buf)@[j],
            buf@.take(out as int) == sanitized(old(buf)@.take(i as int)),
        decreases max - i,
    {
        let b = buf[i];
        proof {
            assert(old(buf)@.take(i + 1).drop_last() =~= old(buf)@.take(i as int));
            assert(old(buf)@.take(i + 1).last() == b);
        }
        if b != 13u8 {
            let mapped = if b == 10u8 || b == 9u8 || (b >= 32 && b <= 126) { b } else { 46u8 };
            let ghost before = buf@;
            buf.set(out, mapped);
            proof {
                assert(buf@.take(out + 1) =~= before.take(out as int).push(mapped));
            }
            out = out + 1;
        }
        i = i + 1;
    }
    out
}

/// Lines `data` takes when wrapped at `max_cols` columns (see
/// `wrapped_lines`).
pub fn wrapped_line_count(data: &[u8], max_cols: usize) -> (r: usize)
    requires
        data@.len() < usize::MAX,
    ensures
        r == wrapped_lines(data@, max_cols as int),
{
    if max_cols == 0 {
        return 0;
    }
    if data.len() == 0 {
        return 1;
    }
    let mut lines: usize = 1;
    let mut col: usize = 0;
    let mut i: usize = 0;
    while i < data.len()
        invariant
            max_cols >= 1,
            i <= data@.len(),
            data@.len() < usize::MAX,
            (lines as int, col as int) == wrap_state(data@.take(i as int), max_cols as int),
        decreases data@.len() - i,
    {
        proof {
            lemma_wrap_state(data@.take(i as int), max_cols as int);
            assert(data@.take(i + 1).drop_last() =~= data@.take(i as int));
        }
        let b = data[i];
        if b == 13u8 {
        } else if b == 10u8 {
            lines = lines + 1;
            col = 0;
        } else {
            if col >= max_cols {
                lines = lines + 1;
                col = 0;
            }
            col = col + 1;
        }
        i = i + 1;
    }
    proof {
        assert(data@.take(data@.len() as int) =~= data@);
    }
    lines
}

/// The default window: three quarters of the screen, kept between 420 x 320
/// and 840 x 560, centred.
pub open spec fn calc_rect_spec(fw: int, fh: int) -> (int, int, int, int) {
    let w0 = fw * 3 / 4;
    let w1 = if w0 < 840 { w0 } else { 840 };
    let w = if w1 > 420 { w1 } else { 420 };
    let h0 = fh * 3 / 4;
    let h1 = if h0 < 560 { h0 } else { 560 };
    let h = if h1 > 320 { h1 } else { 320 };
    (sat_sub(fw, w) / 2, sat_sub(fh, h) / 2, w, h)
}

fn calc_rect(fb: &Framebuffer) -> (r: (usize, usize, usize, usize))
    requires
        fb.width * 3 <= usize::MAX,
        fb.height * 3 <= usize::MAX,
    ensures
        (r.0 as int, r.1 as int, r.2 as int, r.3 as int) == calc_rect_spec(fb.width as int, fb.height as int),
{
    let w0 = fb.width * 3 / 4;
    let w1 = if w0 < 840 { w0 } else { 840 };
    let w = if w1 > 420 { w1 } else { 420 };
    let h0 = fb.height * 3 / 4;
    let h1 = if h0 < 560 { h0 } else { 560 };
    let h = if h1 > 320 { h1 } else { 320 };
    (fb.width.saturating_sub(w) / 2, fb.height.saturating_sub(h) / 2, w, h)
}

/// Text area and line grid of a `w * h` window: `((text_w, text_h),
/// (max_cols, max_lines))`, at least one column and one line.
pub open spec fn metrics_spec(w: int, h: int) -> ((int, int), (int, int)) {
    let content_w = sat_sub(w, 4);
    let content_h = sat_sub(h, HEADER_H + 4);
    let text_w = sat_sub(content_w, PAD * 2 + SCROLL_W + 4);
    let text_h = sat_sub(content_h, PAD * 2);
    let cols = text_w / 8;
    let lines = text_h / LINE_HEIGHT as int;
    ((text_w, text_h), (if cols > 1 { cols } else { 1 }, if lines > 1 { lines } else { 1 }))
}

/// The title for a file: `Notepad - ` and its name, cut to `MAX_TITLE`
/// bytes; plain `Notepad` for an empty name.
pub open spec fn title_for(name: Seq<u8>) -> Seq<u8> {
    if name.len() == 0 {
        lit("Notepad")
    } else {
        let t = lit("Notepad - ") + name;
        if t.len() > MAX_TITLE {
            t.take(MAX_TITLE as int)
        } else {
            t
        }
    }
}

/// A text editor window over one document.
pub struct Notepad {
    visible: bool,
    win_x: usize,
    win_y: usize,
    win_w: usize,
    win_h: usize,
    fs: Option<Fat32>,
    title: Vec<u8>,
    text: Vec<u8>,
    scroll: usize,
}

/// A notepad's state as plain values: the window (a zero size meaning the
/// default rectangle), the volume files are read from, the title, the text
/// and the first line shown.
pub struct NoteView {
    pub visible: bool,
    pub win_x: usize,
    pub win_y: usize,
    pub win_w: usize,
    pub win_h: usize,
    pub fs: Option<Fat32>,
    pub title: Seq<u8>,
    pub text: Seq<u8>,
    pub scroll: usize,
}

impl View for Notepad {
    type V = NoteView;

    closed spec fn view(&self) -> NoteView {
        NoteView {
            visible: self.visible,
            win_x: self.win_x,
            win_y: self.win_y,
            win_w: self.win_w,
            win_h: self.win_h,
            fs: self.fs,
            title: self.title@,
            text: self.text@,
            scroll: self.scroll,
        }
    }
}

/// What a click on a scrolling window did. `TrackJump` is a click on the
/// scroll track: the line to jump to is `max_scroll` scaled by
/// `offset / track_h`, which the caller works out and hands to the window's
/// `scroll_to`.
pub enum ClickResult {
    Ignored,
    Handled,
    TrackJump { offset: usize, track_h: usize, max_scroll: usize },
}

/// What the scroll bar's thumb is drawn from: the track's column and top,
/// its height, the lines shown and in all, the first line shown, the last
/// first line there can be, and the thumb's colour.
pub struct ScrollThumb {
    pub x: usize,
    pub track_y: usize,
    pub track_h: usize,
    pub max_lines: usize,
    pub total_lines: usize,
    pub scroll: usize,
    pub max_scroll: usize,
    pub color: u32,
}

/// The screen is small enough for the window arithmetic.
pub open spec fn fb_ok(fb: &Framebuffer) -> bool {
    fb.width * 3 <= usize::MAX && fb.height * 3 <= usize::MAX
}

/// What `open_file` reads: up to `MAX_TEXT` bytes of the file, nothing for a
/// cluster below 2 or an empty file.
pub open spec fn file_bytes(fs: Fat32, cluster: u32, size: u32) -> Seq<u8> {
    if cluster < 2 || size == 0 {
        Seq::empty()
    } else {
        fs.read_chain(
            cluster,
            if size < MAX_TEXT {
                size as int
            } else {
                MAX_TEXT as int
            },
        )
    }
}

impl NoteView {
    /// What the notepad keeps between calls.
    pub open spec fn wf(self) -> bool {
        &&& self.title.len() <= MAX_TITLE
        &&& self.text.len() <= MAX_TEXT
        &&& ascii(self.text)
        &&& self.fs matches Some(f) ==> f.wf()
    }

    /// The window rectangle on a `fw * fh` screen.
    pub open spec fn rect_on(self, fw: int, fh: int) -> (int, int, int, int) {
        if self.win_w == 0 || self.win_h == 0 {
            calc_rect_spec(fw, fh)
        } else {
            (self.win_x as int, self.win_y as int, self.win_w as int, self.win_h as int)
        }
    }

    /// Columns and lines of the text area on a `fw * fh` screen.
    pub open spec fn grid_on(self, fw: int, fh: int) -> (int, int) {
        metrics_spec(self.rect_on(fw, fh).2, self.rect_on(fw, fh).3).1
    }

    /// Where the text starts on a `fw * fh` screen: the left edge of the
    /// text area and the top of its first line.
    pub open spec fn text_origin(self, fw: int, fh: int) -> (int, int) {
        let rc = self.rect_on(fw, fh);
        (rc.0 + 2 + PAD, rc.1 + HEADER_H + 2 + PAD)
    }

    /// Left edge of the scroll bar on a `fw * fh` screen.
    pub open spec fn scroll_left(self, fw: int, fh: int) -> int {
        let rc = self.rect_on(fw, fh);
        rc.0 + 2 + sat_sub(sat_sub(rc.2, 4), PAD + SCROLL_W)
    }

    /// Whether the text's lines, wrapped to the text area's columns, fit
    /// on the screen without the pen wrapping on its own.
    pub open spec fn lines_fit(self, fw: int, fh: int) -> bool {
        &&& self.grid_on(fw, fh).0 <= LINE_BUF
        &&& self.text_origin(fw, fh).0 + 8 * self.grid_on(fw, fh).0 + 8 < fw
    }

    /// Whether byte `p` of the text, wrapped to the text area's columns and
    /// shown from the scroll position, lights `(qx, qy)`.
    pub open spec fn glyph_shown(self, fw: int, fh: int, p: int, qx: int, qy: int) -> bool {
        let o = self.text_origin(fw, fh);
        note_glyph(self.text, self.grid_on(fw, fh).0, self.scroll as int, o.0, o.1, p, qx, qy)
    }

    /// The last first line that still fills the text area.
    pub open spec fn max_scroll_on(self, fw: int, fh: int) -> int {
        sat_sub(
            wrapped_lines(self.text, self.grid_on(fw, fh).0),
            self.grid_on(fw, fh).1,
        )
    }

    /// The window's coordinates leave room for its scroll bar arithmetic.
    pub open spec fn reachable(self, fb: &Framebuffer) -> bool {
        let r = self.rect_on(fb.width as int, fb.height as int);
        &&& fb_ok(fb)
        &&& r.0 + r.2 + 26 <= usize::MAX
        &&& r.1 + r.3 + 72 <= usize::MAX
    }

    /// The window lies where the drawing code can reach.
    pub open spec fn drawable(self, fb: &Framebuffer) -> bool {
        let r = self.rect_on(fb.width as int, fb.height as int);
        &&& fb_ok(fb)
        &&& fb.width <= COORD_MAX
        &&& window_fits(r.0, r.1, r.2, r.3)
        &&& r.2 >= 2 * CORNER_RADIUS
        &&& r.3 >= 2 * CORNER_RADIUS
        &&& ascii(self.title)
    }

    /// Shown, at the default rectangle if it has no size yet.
    pub open spec fn shown(self, fw: int, fh: int) -> NoteView {
        let r = calc_rect_spec(fw, fh);
        if self.win_w == 0 || self.win_h == 0 {
            NoteView {
                visible: true,
                win_x: r.0 as usize,
                win_y: r.1 as usize,
                win_w: r.2 as usize,
                win_h: r.3 as usize,
                ..self
            }
        } else {
            NoteView { visible: true, ..self }
        }
    }

    /// The text after typing `ch`: backspace deletes the last byte, a tab
    /// adds four spaces, newline and printable ASCII are added; the text
    /// stops growing at `MAX_TEXT` bytes.
    pub open spec fn typed(self, ch: u8) -> Seq<u8> {
        if ch == 8u8 {
            if self.text.len() > 0 {
                self.text.drop_last()
            } else {
                self.text
            }
        } else if ch == 9u8 {
            (self.text + seq![32u8, 32u8, 32u8, 32u8]).take(
                if self.text.len() + 4 < MAX_TEXT {
                    self.text.len() + 4int
                } else {
                    MAX_TEXT as int
                },
            )
        } else if ch == 10u8 || (32 <= ch <= 126) {
            if self.text.len() < MAX_TEXT {
                self.text.push(ch)
            } else {
                self.text
            }
        } else {
            self.text
        }
    }
}

/// Where a click lands, for a window rectangle `r` and the largest scroll
/// position `max_scroll`: the up and down buttons, the track between them,
/// or elsewhere.
pub open spec fn click_target(r: (int, int, int, int), max_scroll: int, x: int, y: int) -> ClickResult {
    let body_y = r.1 + HEADER_H + 2;
    let body_h = sat_sub(r.3, HEADER_H + 4);
    let scroll_x = r.0 + sat_sub(r.2, PAD + SCROLL_W);
    let scroll_y = body_y + PAD;
    let scroll_h = sat_sub(body_h, PAD * 2);
    let up = (scroll_x as usize, scroll_y as usize, SCROLL_W, BTN_H);
    let down = (scroll_x as usize, (scroll_y + sat_sub(scroll_h, BTN_H as int)) as usize, SCROLL_W, BTN_H);
    let track_y = scroll_y + BTN_H;
    let track_h = sat_sub(scroll_h, BTN_H * 2);
    if in_rect(x, y, up) || in_rect(x, y, down) {
        ClickResult::Handled
    } else if scroll_x <= x < scroll_x + SCROLL_W && track_y <= y < track_y + track_h {
        if max_scroll > 0 && track_h > 0 {
            ClickResult::TrackJump {
                offset: (y - track_y) as usize,
                track_h: track_h as usize,
                max_scroll: max_scroll as usize,
            }
        } else {
            ClickResult::Handled
        }
    } else {
        ClickResult::Ignored
    }
}

/// Whether a click hit the up button (`0`), the down button (`1`), or
/// neither (`2`).
pub open spec fn click_button(r: (int, int, int, int), x: int, y: int) -> int {
    let body_y = r.1 + HEADER_H + 2;
    let body_h = sat_sub(r.3, HEADER_H + 4);
    let scroll_x = r.0 + sat_sub(r.2, PAD + SCROLL_W);
    let scroll_y = body_y + PAD;
    let scroll_h = sat_sub(body_h, PAD * 2);
    let up = (scroll_x as usize, scroll_y as usize, SCROLL_W, BTN_H);
    let down = (scroll_x as usize, (scroll_y + sat_sub(scroll_h, BTN_H as int)) as usize, SCROLL_W, BTN_H);
    if in_rect(x, y, up) {
        0
    } else if in_rect(x, y, down) {
        1
    } else {
        2
    }
}

/// Bytes of the title `Notepad`.
fn notepad_name() -> (b: &'static [u8])
    ensures
        b@ == lit("Notepad"),
        b@.len() == 7,
{
    proof {
        reveal_strlit("Notepad");
    }
    crate::text::ascii_lit("Notepad")
}

impl Notepad {
    /// A hidden notepad titled `Notepad` with no text, reading files from the
    /// FAT32 image `fs_img` when it has one that parses.
    pub fn new(fb: &Framebuffer, fs_img: Option<Vec<u8>>) -> (n: Notepad)
        ensures
            n@.wf(),
            !n@.visible,
            n@.win_x == 0 && n@.win_y == 0 && n@.win_w == 0 && n@.win_h == 0,
            n@.title == lit("Notepad"),
            n@.text == Seq::<u8>::empty(),
            n@.scroll == 0,
            n@.fs.is_some() <==> (fs_img matches Some(d) && crate::fat32::parse_boot(d@).is_some()),
            n@.fs matches Some(f) ==> (fs_img matches Some(d) && f.data@ == d@),
    {
        let fs = match fs_img {
            Some(d) => Fat32::new(d),
            None => None,
        };
        let mut title: Vec<u8> = Vec::new();
        write_str(&mut title, notepad_name());
        Notepad {
            visible: false,
            win_x: 0,
            win_y: 0,
            win_w: 0,
            win_h: 0,
            fs,
            title,
            text: Vec::new(),
            scroll: 0,
        }
    }

    /// Whether the window is shown.
    pub fn is_visible(&self) -> (r: bool)
        ensures
            r == self@.visible,
    {
        self.visible
    }

    /// The window title.
    pub fn title_text(&self) -> (r: &[u8])
        ensures
            r@ == self@.title,
    {
        self.title.as_slice()
    }

    /// The document.
    pub fn text(&self) -> (r: &[u8])
        ensures
            r@ == self@.text,
    {
        self.text.as_slice()
    }

    /// Shows the window, at the default rectangle if it has no size yet.
    pub fn show(&mut self, fb: &Framebuffer)
        requires
            fb_ok(fb),
        ensures
            final(self)@ == old(self)@.shown(fb.width as int, fb.height as int),
    {
        self.visible = true;
        if self.win_w == 0 || self.win_h == 0 {
            let (x, y, w, h) = calc_rect(fb);
            self.win_x = x;
            self.win_y = y;
            self.win_w = w;
            self.win_h = h;
        }
    }

    /// Hides the window.
    pub fn hide_window(&mut self)
        ensures
            final(self)@ == (NoteView { visible: false, ..old(self)@ }),
    {
        self.visible = false;
    }

    /// Shows the window with a new, empty document titled `Notepad - (new)`.
    pub fn open_empty(&mut self, fb: &Framebuffer)
        requires
            fb_ok(fb),
        ensures
            final(self)@ == (NoteView {
                title: title_for(lit("(new)")),
                text: Seq::empty(),
                scroll: 0,
                ..old(self)@.shown(fb.width as int, fb.height as int)
            }),
    {
        self.show(fb);
        proof {
            reveal_strlit("(new)");
        }
        self.set_title(bytes_of("(new)"));
        self.text = Vec::new();
        self.scroll = 0;
    }

    /// Shows the window with the file whose chain starts at `cluster` and
    /// that is `size` bytes long, titled by its name: up to `MAX_TEXT` bytes
    /// of it, cleaned for display (see `sanitized`); no text without a
    /// volume.
    pub fn open_file(&mut self, fb: &Framebuffer, cluster: u32, size: u32, file_name: &[u8])
        requires
            old(self)@.wf(),
            fb_ok(fb),
        ensures
            final(self)@.wf(),
            final(self)@ == (NoteView {
                title: title_for(file_name@),
                text: match old(self)@.fs {
                    Some(f) => sanitized(file_bytes(f, cluster, size)),
                    None => Seq::<u8>::empty(),
                },
                scroll: 0,
                ..old(self)@.shown(fb.width as int, fb.height as int)
            }),
    {
        self.show(fb);
        self.set_title(file_name);
        self.scroll = 0;
        self.text = Vec::new();
        match &self.fs {
            Some(fs) => {
                let mut buf = fs.read_file(cluster, size as usize, MAX_TEXT);
                proof {
                    lemma_read_chain_len(*fs, cluster, if size < MAX_TEXT { size as int } else { MAX_TEXT as int });
                }
                let read = buf.len();
                let ghost loaded = buf@;
                let n = sanitize_loaded_text(&mut buf, read);
                proof {
                    assert(loaded.take(read as int) =~= loaded);
                    lemma_sanitized(file_bytes(*fs, cluster, size));
                }
                buf.truncate(n);
                proof {
                    assert(buf@ == sanitized(loaded));
                }
                self.text = buf;
            },
            None => {},
        }
    }

    /// Types `ch` while shown (see `typed`).
    pub fn handle_char(&mut self, ch: u8)
        requires
            old(self)@.wf(),
        ensures
            final(self)@.wf(),
            final(self)@ == if old(self)@.visible {
                NoteView { text: old(self)@.typed(ch), ..old(self)@ }
            } else {
                old(self)@
            },
    {
        if !self.visible {
            return;
        }
        match ch {
            8u8 => {
                if self.text.len() > 0 {
                    self.text.pop();
                }
            },
            10u8 => self.push_byte(10u8),
            9u8 => {
                self.push_byte(32u8);
                self.push_byte(32u8);
                self.push_byte(32u8);
                self.push_byte(32u8);
                proof {
                    let t = old(self)@.text;
                    assert(self.text@ =~= (t + seq![32u8, 32u8, 32u8, 32u8]).take(
                        if t.len() + 4 < MAX_TEXT {
                            t.len() + 4int
                        } else {
                            MAX_TEXT as int
                        },
                    ));
                }
            },
            _ => {
                if ch >= 32 && ch <= 126 {
                    self.push_byte(ch);
                }
            },
        }
    }

    fn push_byte(&mut self, b: u8)
        requires
            old(self)@.wf(),
            b < 128,
        ensures
            final(self)@.wf(),
            final(self)@ == (NoteView {
                text: if old(self)@.text.len() < MAX_TEXT {
                    old(self)@.text.push(b)
                } else {
                    old(self)@.text
                },
                ..old(self)@
            }),
    {
        if self.text.len() < MAX_TEXT {
            self.text.push(b);
        }
    }

    fn scroll_up(&mut self)
        ensures
            final(self)@ == (NoteView { scroll: sat_sub(old(self)@.scroll as int, 1) as usize, ..old(self)@ }),
    {
        if self.scroll > 0 {
            self.scroll = self.scroll - 1;
        }
    }

    fn scroll_down(&mut self, fb: &Framebuffer)
        requires
            old(self)@.wf(),
            fb_ok(fb),
        ensures
            final(self)@ == (NoteView {
                scroll: if old(self)@.scroll < old(self)@.max_scroll_on(fb.width as int, fb.height as int) {
                    (old(self)@.scroll + 1) as usize
                } else {
                    old(self)@.scroll
                },
                ..old(self)@
            }),
    {
        let max_scroll = self.max_scroll(fb);
        if self.scroll < max_scroll {
            self.scroll = self.scroll + 1;
        }
    }

    /// The last first line that still fills the text area.
    fn max_scroll(&self, fb: &Framebuffer) -> (r: usize)
        requires
            self@.wf(),
            fb_ok(fb),
        ensures
            r == self@.max_scroll_on(fb.width as int, fb.height as int),
    {
        let (_, grid) = self.layout_metrics(fb);
        let total = wrapped_line_count(self.text.as_slice(), grid.0);
        total.saturating_sub(grid.1)
    }

    /// Jumps so that `line` is the first line shown, or as near as the text
    /// allows.
    pub fn scroll_to(&mut self, fb: &Framebuffer, line: usize)
        requires
            old(self)@.wf(),
            fb_ok(fb),
        ensures
            final(self)@ == (NoteView {
                scroll: if line < old(self)@.max_scroll_on(fb.width as int, fb.height as int) {
                    line
                } else {
                    old(self)@.max_scroll_on(fb.width as int, fb.height as int) as usize
                },
                ..old(self)@
            }),
    {
        let max_scroll = self.max_scroll(fb);
        self.scroll = if line < max_scroll { line } else { max_scroll };
    }

    fn set_title(&mut self, file_name: &[u8])
        ensures
            final(self)@ == (NoteView { title: title_for(file_name@), ..old(self)@ }),
            final(self)@.title.len() <= MAX_TITLE,
    {
        proof {
            reveal_strlit("Notepad - ");
            reveal_strlit("Notepad");
        }
        let prefix = crate::text::ascii_lit("Notepad - ");
        let mut title: Vec<u8> = Vec::new();
        write_str(&mut title, prefix);
        let mut i: usize = 0;
        while i < file_name.len() && title.len() < MAX_TITLE
            invariant
                prefix@ == lit("Notepad - "),
                prefix@.len() == 10,
                i <= file_name@.len(),
                title@.len() <= MAX_TITLE,
                title@ == prefix@ + file_name@.take(i as int),
            decreases file_name@.len() - i,
        {
            title.push(file_name[i]);
            i = i + 1;
            proof {
                assert(file_name@.take(i as int) =~= file_name@.take(i - 1).push(file_name@[i - 1]));
            }
        }
        if title.len() == prefix.len() {
            title = Vec::new();
            write_str(&mut title, notepad_name());
        }
        self.title = title;
        proof {
            let t = lit("Notepad - ") + file_name@;
            if file_name@.len() > 0 {
                if t.len() > MAX_TITLE {
                    assert(self.title@ =~= t.take(MAX_TITLE as int));
                } else {
                    assert(file_name@.take(i as int) =~= file_name@);
                    assert(self.title@ =~= t);
                }
            } else {
                assert(self.title@ =~= lit("Notepad"));
            }
        }
    }

    fn layout_metrics(&self, fb: &Framebuffer) -> (r: ((usize, usize), (usize, usize)))
        requires
            fb_ok(fb),
        ensures
            ((r.0.0 as int, r.0.1 as int), (r.1.0 as int, r.1.1 as int)) == metrics_spec(
                self@.rect_on(fb.width as int, fb.height as int).2,
                self@.rect_on(fb.width as int, fb.height as int).3,
            ),
    {
        let (_, _, w, h) = self.rect(fb);
        let content_w = w.saturating_sub(4);
        let content_h = h.saturating_sub(HEADER_H + 4);
        let text_w = content_w.saturating_sub(PAD * 2 + SCROLL_W + 4);
        let text_h = content_h.saturating_sub(PAD * 2);
        let cols = text_w / 8;
        let lines = text_h / LINE_HEIGHT;
        let max_cols = if cols > 1 { cols } else { 1 };
        let max_lines = if lines > 1 { lines } else { 1 };
        ((text_w, text_h), (max_cols, max_lines))
    }

    /// The window rectangle: the default one while it has no size.
    pub fn rect(&self, fb: &Framebuffer) -> (r: (usize, usize, usize, usize))
        requires
            fb_ok(fb),
        ensures
            (r.0 as int, r.1 as int, r.2 as int, r.3 as int) == self@.rect_on(fb.width as int, fb.height as int),
    {
        if self.win_w == 0 || self.win_h == 0 {
            return calc_rect(fb);
        }
        (self.win_x, self.win_y, self.win_w, self.win_h)
    }

    /// Moves the window.
    pub fn set_pos(&mut self, x: usize, y: usize)
        ensures
            final(self)@ == (NoteView { win_x: x, win_y: y, ..old(self)@ }),
    {
        self.win_x = x;
        self.win_y = y;
    }

    /// Moves and resizes the window.
    pub fn set_rect(&mut self, x: usize, y: usize, w: usize, h: usize)
        ensures
            final(self)@ == (NoteView { win_x: x, win_y: y, win_w: w, win_h: h, ..old(self)@ }),
    {
        self.win_x = x;
        self.win_y = y;
        self.win_w = w;
        self.win_h = h;
    }

    /// A click at `(x, y)` while shown: the up and down buttons scroll by one
    /// line; a click on the track asks the caller for a jump (see
    /// `ClickResult`). The caller redraws.
    pub fn handle_click(&mut self, fb: &Framebuffer, x: usize, y: usize) -> (r: ClickResult)
        requires
            old(self)@.wf(),
            old(self)@.visible ==> old(self)@.reachable(fb),
        ensures
            !old(self)@.visible ==> r == ClickResult::Ignored && final(self)@ == old(self)@,
            old(self)@.visible ==> r == click_target(
                old(self)@.rect_on(fb.width as int, fb.height as int),
                old(self)@.max_scroll_on(fb.width as int, fb.height as int),
                x as int,
                y as int,
            ),
            old(self)@.visible ==> final(self)@ == (NoteView {
                scroll: {
                    let b = click_button(old(self)@.rect_on(fb.width as int, fb.height as int), x as int, y as int);
                    let m = old(self)@.max_scroll_on(fb.width as int, fb.height as int);
                    if b == 0 {
                        sat_sub(old(self)@.scroll as int, 1) as usize
                    } else if b == 1 && old(self)@.scroll < m {
                        (old(self)@.scroll + 1) as usize
                    } else {
                        old(self)@.scroll
                    }
                },
                ..old(self)@
            }),
    {
        if !self.visible {
            return ClickResult::Ignored;
        }
        let (wx, wy, ww, wh) = self.rect(fb);
        let body_y = wy + HEADER_H + 2;
        let body_h = wh.saturating_sub(HEADER_H + 4);
        let scroll_x = wx + ww.saturating_sub(PAD + SCROLL_W);
        let scroll_y = body_y + PAD;
        let scroll_h = body_h.saturating_sub(PAD * 2);
        let up_rect = (scroll_x, scroll_y, SCROLL_W, BTN_H);
        let down_rect = (scroll_x, scroll_y + scroll_h.saturating_sub(BTN_H), SCROLL_W, BTN_H);
        let max_scroll = self.max_scroll(fb);
        if hit(x, y, up_rect) {
            self.scroll_up();
            return ClickResult::Handled;
        }
        if hit(x, y, down_rect) {
            self.scroll_down(fb);
            return ClickResult::Handled;
        }
        let track_y = scroll_y + BTN_H;
        let track_h = scroll_h.saturating_sub(BTN_H * 2);
        if x >= scroll_x && x < scroll_x + SCROLL_W && y >= track_y && y < track_y + track_h {
            if max_scroll > 0 && track_h > 0 {
                return ClickResult::TrackJump { offset: y - track_y, track_h, max_scroll };
            }
            return ClickResult::Handled;
        }
        ClickResult::Ignored
    }
}

/// A read never yields more than was asked for.
proof fn lemma_read_chain_len(fs: Fat32, cluster: u32, want: int)
    ensures
        fs.read_chain(cluster, want).len() <= if want > 0 { want } else { 0 },
    decreases want,
{
    if want > 0 && fs.csize() > 0 {
        match fs.offset_of(cluster) {
            None => {},
            Some(off) => {
                if off + fs.csize() <= fs.data@.len() && want > fs.csize() {
                    let n = fs.next_of(cluster);
                    if !(n < 2 || n >= crate::fat32::FAT32_EOC) {
                        lemma_read_chain_len(fs, n, want - fs.csize());
                    }
                }
            },
        }
    }
}

/// Draws one wrapped line at text row `drawn` when it is at or past
/// `start_line` and rows remain, and counts it.
fn flush_line(
    writer: &mut TextWriter,
    fb: &mut Framebuffer,
    line: &[u8],
    logical_line: &mut usize,
    drawn: &mut usize,
    start_line: usize,
    max_lines: usize,
    x: usize,
    y: usize,
)
    requires
        old(fb).wf(),
        ascii(line@),
        line@.len() <= LINE_BUF,
        *old(drawn) <= max_lines <= COORD_MAX,
        *old(logical_line) < usize::MAX,
        x <= 4 * COORD_MAX,
        y <= 4 * COORD_MAX,
        old(writer).width <= COORD_MAX,
    ensures
        final(fb).wf(),
        final(fb).same_shape(old(fb)),
        final(writer).width == old(writer).width,
        *final(logical_line) == *old(logical_line) + 1,
        *final(drawn) == if *old(logical_line) >= start_line && *old(drawn) < max_lines {
            *old(drawn) + 1
        } else {
            *old(drawn) as int
        },
        kept_above(*old(fb), *final(fb), y as int),
        final(writer).fg == old(writer).fg,
        forall|qx: int, qy: int|
            0 <= qx < old(fb).width && 0 <= qy < old(fb).height ==> #[trigger] final(fb).pixel(qx, qy)
                == old(fb).pixel(qx, qy) || final(fb).pixel(qx, qy) == old(writer).fg,
        *old(logical_line) >= start_line && *old(drawn) < max_lines && one_line(
            old(writer).width as int,
            x as int,
            line@,
        ) ==> forall|k: int, qx: int, qy: int|
            #![trigger line@[k], final(fb).pixel(qx, qy)]
            0 <= k < line@.len() && 0 <= qx < old(fb).width && 0 <= qy < old(fb).height && glyph_cell(
                line@[k],
                x + 8 * k,
                y + *old(drawn) * LINE_HEIGHT,
                qx,
                qy,
            ) ==> final(fb).pixel(qx, qy) == old(writer).fg,
{
    assert(kept_above(*old(fb), *old(fb), y as int));
    if *logical_line >= start_line && *drawn < max_lines {
        writer.set_pos(x, y + *drawn * LINE_HEIGHT);
        if line.len() > 0 {
            let ghost wy = writer.y as int;
            writer.write_bytes(fb, line);
            proof {
                lemma_above_ink(*old(fb), *old(fb), *fb, y as int, writer.fg, wy, writer.y + 8);
                if one_line(writer.width as int, x as int, line@) {
                    assert forall|k: int, qx: int, qy: int|
                        #![trigger line@[k], fb.pixel(qx, qy)]
                        0 <= k < line@.len() && 0 <= qx < old(fb).width && 0 <= qy < old(fb).height
                            && glyph_cell(line@[k], x + 8 * k, wy, qx, qy) implies fb.pixel(qx, qy)
                            == writer.fg by {
                        lemma_ink_char(writer.width as int, x as int, wy, line@, k, qx, qy);
                    }
                }
            }
        }
        *drawn = *drawn + 1;
    }
    *logical_line = *logical_line + 1;
}

/// Draws `data` wrapped at `max_cols` columns (and at `LINE_BUF` bytes),
/// skipping the first `start_line` lines and drawing at most `max_lines`,
/// one every `LINE_HEIGHT` pixels down from `(x, y)`.
fn draw_wrapped_lines(
    writer: &mut TextWriter,
    fb: &mut Framebuffer,
    data: &[u8],
    start_line: usize,
    max_lines: usize,
    max_cols: usize,
    x: usize,
    y: usize,
)
    requires
        old(fb).wf(),
        ascii(data@),
        data@.len() < usize::MAX,
        max_lines <= COORD_MAX,
        x <= 4 * COORD_MAX,
        y <= 4 * COORD_MAX,
        old(writer).width <= COORD_MAX,
    ensures
        final(fb).wf(),
        final(fb).same_shape(old(fb)),
        final(writer).width == old(writer).width,
        kept_above(*old(fb), *final(fb), y as int),
        final(writer).fg == old(writer).fg,
        forall|qx: int, qy: int|
            0 <= qx < old(fb).width && 0 <= qy < old(fb).height ==> #[trigger] final(fb).pixel(qx, qy)
                == old(fb).pixel(qx, qy) || final(fb).pixel(qx, qy) == old(writer).fg,
        0 < max_cols <= LINE_BUF && x + 8 * max_cols + 8 < old(writer).width ==> forall|p: int, qx: int, qy: int|
            0 <= p < data@.len() && wrap_cell(data@, max_cols as int, p).0 < start_line + max_lines && 0 <= qx
                < old(fb).width && 0 <= qy < old(fb).height && #[trigger] note_glyph(
                data@,
                max_cols as int,
                start_line as int,
                x as int,
                y as int,
                p,
                qx,
                qy,
            ) ==> final(fb).pixel(qx, qy) == old(writer).fg,
{
    assert(kept_above(*old(fb), *old(fb), y as int));
    if max_cols == 0 || max_lines == 0 {
        return;
    }
    let ghost mc = max_cols as int;
    let ghost fg = old(writer).fg;
    let ghost ww = old(writer).width as int;
    let ghost mc_ok = max_cols <= LINE_BUF;
    let ghost fits = mc_ok && x + 8 * max_cols + 8 < ww;
    let mut line: Vec<u8> = Vec::new();
    let mut logical_line: usize = 0;
    let mut drawn: usize = 0;
    let mut i: usize = 0;
    proof {
        assert(data@.take(0) =~= Seq::<u8>::empty());
    }
    while i < data.len()
        invariant
            fb.wf(),
            fb.same_shape(old(fb)),
            writer.width == old(writer).width,
            writer.fg == fg,
            old(writer).width <= COORD_MAX,
            ascii(data@),
            data@.len() < usize::MAX,
            i <= data@.len(),
            ascii(line@),
            line@.len() <= LINE_BUF,
            logical_line <= i,
            0 < drawn + 1,
            drawn <= max_lines <= COORD_MAX,
            0 < max_lines,
            0 < max_cols,
            mc == max_cols,
            ww == old(writer).width,
            fg == old(writer).fg,
            mc_ok == (max_cols <= LINE_BUF),
            fits == (mc_ok && x + 8 * max_cols + 8 < ww),
            x <= 4 * COORD_MAX,
            y <= 4 * COORD_MAX,
            kept_above(*old(fb), *fb, y as int),
            forall|qx: int, qy: int|
                0 <= qx < old(fb).width && 0 <= qy < old(fb).height ==> #[trigger] fb.pixel(qx, qy)
                    == old(fb).pixel(qx, qy) || fb.pixel(qx, qy) == fg,
            logical_line < start_line ==> drawn == 0,
            logical_line >= start_line ==> drawn == if logical_line - start_line < max_lines {
                logical_line - start_line
            } else {
                max_lines as int
            },
            forall|k: int| 0 <= k < line@.len() ==> line@[k] != 10,
            mc_ok ==> (logical_line + 1, line@.len() as int) == wrap_state(data@.take(i as int), mc),
            mc_ok ==> forall|p: int|
                0 <= p < i && data@[p] != 10 && data@[p] != 13 && #[trigger] wrap_cell(data@, mc, p).0
                    == logical_line ==> wrap_cell(data@, mc, p).1 < line@.len() && line@[wrap_cell(
                    data@,
                    mc,
                    p,
                ).1] == data@[p],
            fits ==> forall|p: int, qx: int, qy: int|
                0 <= p < i && wrap_cell(data@, mc, p).0 < logical_line && wrap_cell(data@, mc, p).0 < start_line
                    + max_lines && 0 <= qx < old(fb).width && 0 <= qy < old(fb).height && #[trigger] note_glyph(
                    data@,
                    mc,
                    start_line as int,
                    x as int,
                    y as int,
                    p,
                    qx,
                    qy,
                ) ==> fb.pixel(qx, qy) == fg,
        decreases data@.len() - i,
    {
        let b = data[i];
        proof {
            lemma_wrap_take(data@, mc, i as int);
            if mc_ok {
                lemma_wrap_state(data@.take(i as int), mc);
            }
        }
        let ghost i0 = i as int;
        let ghost st = wrap_state(data@.take(i0), mc);
        let ghost line0 = line@;
        let ghost log0 = logical_line as int;
        let ghost fb0 = *fb;
        i = i + 1;
        if b == 13u8 {
            proof {
                assert forall|p: int|
                    0 <= p < i && data@[p] != 10 && data@[p] != 13 && #[trigger] wrap_cell(data@, mc, p).0
                        == logical_line implies mc_ok ==> wrap_cell(data@, mc, p).1 < line@.len() && line@[wrap_cell(
                        data@,
                        mc,
                        p,
                    ).1] == data@[p] by {
                }
            }
            continue;
        }
        if b == 10u8 {
            let ghost w1 = *fb;
            let ghost d0 = drawn as int;
            flush_line(writer, fb, line.as_slice(), &mut logical_line, &mut drawn, start_line, max_lines, x, y);
            proof {
                lemma_above_trans(*old(fb), w1, *fb, y as int);
                assert forall|qx: int, qy: int|
                    0 <= qx < old(fb).width && 0 <= qy < old(fb).height implies #[trigger] fb.pixel(qx, qy)
                        == old(fb).pixel(qx, qy) || fb.pixel(qx, qy) == fg by {
                    assert(w1.pixel(qx, qy) == w1.pixel(qx, qy));
                }
                if fits {
                    assert(line0.len() <= mc);
                    assert(x + 8 * line0.len() + 8 < ww);
                }
                if fits {
                    assert(one_line(ww, x as int, line0));
                }
                assert forall|p: int, qx: int, qy: int|
                    0 <= p < i && wrap_cell(data@, mc, p).0 < logical_line && wrap_cell(data@, mc, p).0 < start_line
                        + max_lines && 0 <= qx < old(fb).width && 0 <= qy < old(fb).height && #[trigger] note_glyph(
                        data@,
                        mc,
                        start_line as int,
                        x as int,
                        y as int,
                        p,
                        qx,
                        qy,
                    ) implies fits ==> fb.pixel(qx, qy) == fg by {
                    if fits {
                        lemma_wrap_cell_col(data@, mc, p);
                        if p < i0 {
                            lemma_wrap_mono(data@, mc, p + 1, i0);
                        }
                        if wrap_cell(data@, mc, p).0 == log0 {
                            let c = wrap_cell(data@, mc, p);
                            assert(c.1 < line0.len());
                            assert(line0[c.1] == data@[p]);
                            assert(log0 >= start_line);
                            assert(d0 < max_lines);
                            assert(glyph_cell(line0[c.1], x + 8 * c.1, y + d0 * LINE_HEIGHT, qx, qy));
                            assert(fb.pixel(qx, qy) == fg);
                        } else {
                            assert(w1.pixel(qx, qy) == fg);
                        }
                    }
                }
            }
            line = Vec::new();
            proof {
                assert forall|p: int|
                    0 <= p < i && data@[p] != 10 && data@[p] != 13 && #[trigger] wrap_cell(data@, mc, p).0
                        == logical_line implies mc_ok ==> wrap_cell(data@, mc, p).1 < line@.len() && line@[wrap_cell(
                        data@,
                        mc,
                        p,
                    ).1] == data@[p] by {
                    if mc_ok {
                        lemma_wrap_mono(data@, mc, p + 1, i0);
                    }
                }
            }
            if drawn >= max_lines {
                proof {
                    assert forall|p: int, qx: int, qy: int|
                        0 <= p < data@.len() && wrap_cell(data@, mc, p).0 < start_line + max_lines && 0 <= qx
                            < old(fb).width && 0 <= qy < old(fb).height && #[trigger] note_glyph(
                            data@,
                            mc,
                            start_line as int,
                            x as int,
                            y as int,
                            p,
                            qx,
                            qy,
                        ) implies fits ==> fb.pixel(qx, qy) == fg by {
                        if fits && p >= i {
                            lemma_wrap_mono(data@, mc, i as int, p + 1);
                        }
                    }
                }
                return;
            }
            continue;
        }
        if line.len() >= max_cols || line.len() >= LINE_BUF {
            let ghost w2 = *fb;
            let ghost d0 = drawn as int;
            flush_line(writer, fb, line.as_slice(), &mut logical_line, &mut drawn, start_line, max_lines, x, y);
            proof {
                lemma_above_trans(*old(fb), w2, *fb, y as int);
                assert forall|qx: int, qy: int|
                    0 <= qx < old(fb).width && 0 <= qy < old(fb).height implies #[trigger] fb.pixel(qx, qy)
                        == old(fb).pixel(qx, qy) || fb.pixel(qx, qy) == fg by {
                    assert(w2.pixel(qx, qy) == w2.pixel(qx, qy));
                }
                if fits {
                    assert(line0.len() <= mc);
                    assert(x + 8 * line0.len() + 8 < ww);
                }
                if fits {
                    assert(one_line(ww, x as int, line0));
                }
                assert forall|p: int, qx: int, qy: int|
                    0 <= p < i0 && wrap_cell(data@, mc, p).0 < logical_line && wrap_cell(data@, mc, p).0 < start_line
                        + max_lines && 0 <= qx < old(fb).width && 0 <= qy < old(fb).height && #[trigger] note_glyph(
                        data@,
                        mc,
                        start_line as int,
                        x as int,
                        y as int,
                        p,
                        qx,
                        qy,
                    ) implies fits ==> fb.pixel(qx, qy) == fg by {
                    if fits {
                        lemma_wrap_cell_col(data@, mc, p);
                        lemma_wrap_mono(data@, mc, p + 1, i0);
                        if wrap_cell(data@, mc, p).0 == log0 {
                            let c = wrap_cell(data@, mc, p);
                            assert(line0[c.1] == data@[p]);
                            assert(glyph_cell(line0[c.1], x + 8 * c.1, y + d0 * LINE_HEIGHT, qx, qy));
                        } else {
                            assert(w2.pixel(qx, qy) == fg);
                        }
                    }
                }
            }
            line = Vec::new();
            if drawn >= max_lines {
                proof {
                    assert forall|p: int, qx: int, qy: int|
                        0 <= p < data@.len() && wrap_cell(data@, mc, p).0 < start_line + max_lines && 0 <= qx
                            < old(fb).width && 0 <= qy < old(fb).height && #[trigger] note_glyph(
                            data@,
                            mc,
                            start_line as int,
                            x as int,
                            y as int,
                            p,
                            qx,
                            qy,
                        ) implies fits ==> fb.pixel(qx, qy) == fg by {
                        if fits {
                            if p >= i0 {
                                lemma_wrap_mono(data@, mc, i0 + 1, p + 1);
                            } else {
                                lemma_wrap_mono(data@, mc, p + 1, i0);
                            }
                        }
                    }
                }
                return;
            }
        }
        let ghost line1 = line@;
        if line.len() < LINE_BUF {
            let ghost before = line@;
            line.push(b);
            proof {
                assert forall|j: int| 0 <= j < line@.len() implies #[trigger] line@[j] < 128 by {
                    if j < before.len() {
                        assert(line@[j] == before[j]);
                    } else {
                        assert(line@[j] == data@[i - 1]);
                    }
                }
                assert forall|k: int| 0 <= k < line@.len() implies line@[k] != 10 by {
                    if k < before.len() {
                        assert(line@[k] == before[k]);
                    }
                }
            }
        }
        proof {
            assert forall|p: int|
                0 <= p < i && data@[p] != 10 && data@[p] != 13 && #[trigger] wrap_cell(data@, mc, p).0
                    == logical_line implies mc_ok ==> wrap_cell(data@, mc, p).1 < line@.len() && line@[wrap_cell(
                    data@,
                    mc,
                    p,
                ).1] == data@[p] by {
                if mc_ok {
                    if p < i0 {
                        lemma_wrap_mono(data@, mc, p + 1, i0);
                        lemma_wrap_cell_col(data@, mc, p);
                        if logical_line == log0 {
                            assert(line1 == line0);
                            assert(line@[wrap_cell(data@, mc, p).1] == line1[wrap_cell(data@, mc, p).1]);
                        }
                    }
                }
            }
        }
    }
    proof {
        assert(data@.take(data@.len() as int) =~= data@);
        if mc_ok {
            lemma_wrap_state(data@.take(i as int), mc);
        }
    }
    if drawn < max_lines {
        let ghost w3 = *fb;
        let ghost d0 = drawn as int;
        let ghost line0 = line@;
        let ghost log0 = logical_line as int;
        flush_line(writer, fb, line.as_slice(), &mut logical_line, &mut drawn, start_line, max_lines, x, y);
        proof {
            lemma_above_trans(*old(fb), w3, *fb, y as int);
            assert forall|qx: int, qy: int|
                0 <= qx < old(fb).width && 0 <= qy < old(fb).height implies #[trigger] fb.pixel(qx, qy)
                    == old(fb).pixel(qx, qy) || fb.pixel(qx, qy) == fg by {
                assert(w3.pixel(qx, qy) == w3.pixel(qx, qy));
            }
            if fits {
                assert(line0.len() <= mc);
                assert(x + 8 * line0.len() + 8 < ww);
            }
            if fits {
                assert(one_line(ww, x as int, line0));
            }
            assert forall|p: int, qx: int, qy: int|
                0 <= p < data@.len() && wrap_cell(data@, mc, p).0 < start_line + max_lines && 0 <= qx
                    < old(fb).width && 0 <= qy < old(fb).height && #[trigger] note_glyph(
                    data@,
                    mc,
                    start_line as int,
                    x as int,
                    y as int,
                    p,
                    qx,
                    qy,
                ) && fits implies fb.pixel(qx, qy) == fg by {
                if fits {
                    lemma_wrap_cell_col(data@, mc, p);
                    lemma_wrap_mono(data@, mc, p + 1, data@.len() as int);
                    assert(data@.take(data@.len() as int) =~= data@);
                    if wrap_cell(data@, mc, p).0 == log0 {
                        let c = wrap_cell(data@, mc, p);
                        assert(line0[c.1] == data@[p]);
                        assert(glyph_cell(line0[c.1], x + 8 * c.1, y + d0 * LINE_HEIGHT, qx, qy));
                    } else {
                        assert(w3.pixel(qx, qy) == fg);
                    }
                }
            }
        }
    } else {
        proof {
            assert forall|p: int, qx: int, qy: int|
                0 <= p < data@.len() && wrap_cell(data@, mc, p).0 < start_line + max_lines && 0 <= qx
                    < old(fb).width && 0 <= qy < old(fb).height && #[trigger] note_glyph(
                    data@,
                    mc,
                    start_line as int,
                    x as int,
                    y as int,
                    p,
                    qx,
                    qy,
                ) && fits implies fb.pixel(qx, qy) == fg by {
                if fits {
                    lemma_wrap_mono(data@, mc, p + 1, data@.len() as int);
                    assert(data@.take(data@.len() as int) =~= data@);
                }
            }
        }
    }
}

/// The bytes of an ASCII literal, for the notepad's labels.
fn label(s: &'static str) -> (b: &'static [u8])
    requires
        vstd::string::is_ascii(s),
    ensures
        ascii(b@),
        b@.len() == s@.len(),
        b@ == lit(s),
{
    crate::text::ascii_lit(s)
}

impl Notepad {
    /// Draws the window: frame, gradient body, the text from the scroll
    /// position (`(empty)` for no text) and the scroll bar's buttons and
    /// track. The scroll position is first kept within the text. When the
    /// text is longer than the window, returns what the thumb is drawn from
    /// (its size and place are proportional, worked out by the caller).
    /// Nothing is drawn while hidden.
    #[verifier::rlimit(60)]
    #[verifier::spinoff_prover]
    pub fn redraw(&mut self, fb: &mut Framebuffer, ui: &UiSettings) -> (r: Option<ScrollThumb>)
        requires
            old(fb).wf(),
            old(self)@.wf(),
            old(self)@.visible ==> old(self)@.drawable(old(fb)),
        ensures
            final(fb).wf(),
            final(fb).same_shape(old(fb)),
            !old(self)@.visible ==> *final(fb) == *old(fb) && final(self)@ == old(self)@ && r.is_none(),
            old(self)@.visible ==> final(self)@ == (NoteView {
                scroll: if old(self)@.scroll > old(self)@.max_scroll_on(old(fb).width as int, old(fb).height as int) {
                    old(self)@.max_scroll_on(old(fb).width as int, old(fb).height as int) as usize
                } else {
                    old(self)@.scroll
                },
                ..old(self)@
            }),
            old(self)@.visible ==> (r.is_some() <==> old(self)@.max_scroll_on(
                old(fb).width as int,
                old(fb).height as int,
            ) > 0),
            r matches Some(t) ==> {
                let rc = old(self)@.rect_on(old(fb).width as int, old(fb).height as int);
                let grid = old(self)@.grid_on(old(fb).width as int, old(fb).height as int);
                let scroll_h = sat_sub(sat_sub(rc.3, HEADER_H + 4), PAD * 2);
                &&& t.x == rc.0 + 2 + sat_sub(sat_sub(rc.2, 4), PAD + SCROLL_W)
                &&& t.track_y == rc.1 + HEADER_H + 2 + PAD + BTN_H
                &&& t.track_h == sat_sub(scroll_h, BTN_H * 2)
                &&& t.max_lines == grid.1
                &&& t.total_lines == wrapped_lines(old(self)@.text, grid.0)
                &&& t.max_scroll == old(self)@.max_scroll_on(old(fb).width as int, old(fb).height as int)
                &&& t.scroll == final(self)@.scroll
                &&& t.color == if ui.dark { 0x00777F8Au32 } else { 0x0093A9C0u32 }
            },
            old(self)@.visible && old(self)@.lines_fit(old(fb).width as int, old(fb).height as int) ==> forall|
                p: int,
                qx: int,
                qy: int,
            |
                0 <= p < old(self)@.text.len() && wrap_cell(
                    old(self)@.text,
                    old(self)@.grid_on(old(fb).width as int, old(fb).height as int).0,
                    p,
                ).0 < final(self)@.scroll + old(self)@.grid_on(old(fb).width as int, old(fb).height as int).1 && 0
                    <= qx < old(fb).width && 0 <= qy < old(fb).height && qx < old(self)@.scroll_left(
                    old(fb).width as int,
                    old(fb).height as int,
                ) && #[trigger] final(self)@.glyph_shown(old(fb).width as int, old(fb).height as int, p, qx, qy)
                    ==> final(fb).pixel(qx, qy) == if ui.dark { 0x00F2F5F8u32 } else { 0x00131A28u32 },
            ({
                let rc = old(self)@.rect_on(old(fb).width as int, old(fb).height as int);
                old(self)@.visible && title_fits(rc.0, rc.2, rc.3, old(fb).width as int, old(self)@.title)
                    ==> painted(*final(fb), rc.0 + 8, rc.1 + 14, 3, 14, ui.accent)
            }),
            ({
                let rc = old(self)@.rect_on(old(fb).width as int, old(fb).height as int);
                old(self)@.visible && title_fits(rc.0, rc.2, rc.3, old(fb).width as int, old(self)@.title)
                    ==> forall|qx: int, qy: int|
                    0 <= qx < old(fb).width && 0 <= qy < old(fb).height && #[trigger] text_ink(
                        old(fb).width as int,
                        rc.0 + 22,
                        rc.1 + 13,
                        old(self)@.title,
                        qx,
                        qy,
                    ) ==> final(fb).pixel(qx, qy) == title_color(ui.dark)
            }),
    {
        if !self.visible {
            return None;
        }
        let (x, y, w, h) = self.rect(fb);
        let is_dark = ui.dark;
        let chrome = draw_window(fb, ui, x, y, w, h, self.title.as_slice());
        let ghost framed = *fb;
        let ghost top = y + HEADER_H;
        let ghost stripe = (x + 8, y + 14, 3int, 14int);
        let ghost s0 = *fb;
        fill_vertical_gradient(
            fb,
            chrome.content_x,
            chrome.content_y,
            chrome.content_w,
            chrome.content_h,
            if is_dark { 0x001D1D1D } else { 0x00FFFFFF },
            if is_dark { 0x00181818 } else { 0x00F6FAFF },
        );
        proof {
            let a = (chrome.content_x as int, chrome.content_y as int, chrome.content_w as int, chrome.content_h as int);
            assert(kept_outside(s0, *fb, a.0, a.1, a.2, a.3));
            lemma_above_rect(framed, s0, *fb, top, a);
        }

        let mut writer = TextWriter::new(fb);
        let text_color: u32 = if is_dark { 0x00F2F5F8 } else { 0x00131A28 };
        let detail: u32 = if is_dark { 0x00B7C0CC } else { 0x004D5D72 };

        let text_x = chrome.content_x + PAD;
        let text_y = chrome.content_y + PAD;
        let text_w = chrome.content_w.saturating_sub(PAD * 2 + SCROLL_W + 4);
        let text_h = chrome.content_h.saturating_sub(PAD * 2);
        let cols = text_w / 8;
        let lines = text_h / LINE_HEIGHT;
        let max_cols = if cols > 1 { cols } else { 1 };
        let max_lines = if lines > 1 { lines } else { 1 };

        let total_lines = wrapped_line_count(self.text.as_slice(), max_cols);
        let max_scroll = total_lines.saturating_sub(max_lines);
        if self.scroll > max_scroll {
            self.scroll = max_scroll;
        }

        writer.set_color(text_color);
        if self.text.len() == 0 {
            writer.set_color(detail);
            writer.set_pos(text_x, text_y + 2);
            proof {
                reveal_strlit("(empty)");
            }
            let ghost t1 = *fb;
            let ghost ty1 = writer.y as int;
            writer.write_bytes(fb, label("(empty)"));
            proof {
                lemma_above_ink(framed, t1, *fb, top, writer.fg, ty1, writer.y + 8);
            }
        } else {
            let ghost dw = *fb;
            draw_wrapped_lines(
                &mut writer,
                fb,
                self.text.as_slice(),
                self.scroll,
                max_lines,
                max_cols,
                text_x,
                text_y,
            );
            let ghost texted = *fb;
            proof {
                lemma_above_trans(dw, dw, *fb, text_y as int);
                assert(kept_above(dw, *fb, top)) by {
                    assert forall|qx: int, qy: int|
                        0 <= qx < dw.width && 0 <= qy < dw.height && qy < top implies #[trigger] fb.pixel(qx, qy)
                            == dw.pixel(qx, qy) by {
                        assert(qy < text_y);
                    }
                }
                lemma_above_trans(framed, dw, *fb, top);
            }
        }

        let ghost lined = *fb;
        proof {
            assert(max_cols == self@.grid_on(fb.width as int, fb.height as int).0);
            assert(max_lines == self@.grid_on(fb.width as int, fb.height as int).1);
            assert((text_x as int, text_y as int) == self@.text_origin(fb.width as int, fb.height as int));
        }
        let scroll_x = chrome.content_x + chrome.content_w.saturating_sub(PAD + SCROLL_W);
        let scroll_y = chrome.content_y + PAD;
        let scroll_h = chrome.content_h.saturating_sub(PAD * 2);

        let ghost s1 = *fb;
        fill_rect(fb, scroll_x, scroll_y, SCROLL_W, scroll_h, if is_dark { 0x00323232 } else { 0x00E1EAF5 });
        proof {
            let a = (scroll_x as int, scroll_y as int, SCROLL_W as int, scroll_h as int);
            lemma_fill_frame(s1, *fb, a.0, a.1, a.2, a.3, if is_dark { 0x00323232u32 } else { 0x00E1EAF5u32 });
            lemma_above_rect(framed, s1, *fb, top, a);
        }
        let ghost s2 = *fb;
        fill_vertical_gradient(
            fb,
            scroll_x,
            scroll_y,
            SCROLL_W,
            BTN_H,
            if is_dark { 0x00484848 } else { 0x00D8E2EE },
            if is_dark { 0x003E3E3E } else { 0x00CBD8E8 },
        );
        proof {
            let a = (scroll_x as int, scroll_y as int, SCROLL_W as int, BTN_H as int);
            assert(kept_outside(s2, *fb, a.0, a.1, a.2, a.3));
            lemma_above_rect(framed, s2, *fb, top, a);
        }
        let ghost s3 = *fb;
        fill_vertical_gradient(
            fb,
            scroll_x,
            scroll_y + scroll_h.saturating_sub(BTN_H),
            SCROLL_W,
            BTN_H,
            if is_dark { 0x00484848 } else { 0x00D8E2EE },
            if is_dark { 0x003E3E3E } else { 0x00CBD8E8 },
        );
        proof {
            let a = (scroll_x as int, scroll_y + scroll_h.saturating_sub(BTN_H), SCROLL_W as int, BTN_H as int);
            assert(kept_outside(s3, *fb, a.0, a.1, a.2, a.3));
            lemma_above_rect(framed, s3, *fb, top, a);
        }
        writer.set_color(detail);
        writer.set_pos(scroll_x + 4, scroll_y + 3);
        proof {
            reveal_strlit("^");
            reveal_strlit("v");
        }
        let ghost t2 = *fb;
        let ghost ty2 = writer.y as int;
        let up = label("^");
        writer.write_bytes(fb, up);
        proof {
            lemma_above_ink(framed, t2, *fb, top, writer.fg, ty2, writer.y + 8);
        }
        writer.set_pos(scroll_x + 4, scroll_y + scroll_h.saturating_sub(BTN_H - 3));
        let ghost t3 = *fb;
        let ghost ty3 = writer.y as int;
        let ghost tx3 = writer.x as int;
        let down = label("v");
        writer.write_bytes(fb, down);
        proof {
            lemma_above_ink(framed, t3, *fb, top, writer.fg, ty3, writer.y + 8);
        }

        proof {
            if title_fits(x as int, w as int, h as int, old(fb).width as int, self.title@) {
                lemma_above_painted(framed, *fb, top, stripe, ui.accent);
                let fw0 = old(fb).width as int;
                assert forall|qx: int, qy: int|
                    0 <= qx < fw0 && 0 <= qy < old(fb).height && #[trigger] text_ink(fw0, x + 22, y + 13, self.title@, qx, qy)
                        implies fb.pixel(qx, qy) == title_color(ui.dark) by {
                    lemma_one_line_ink(fw0, x + 22, y + 13, self.title@, qx, qy);
                    assert(framed.pixel(qx, qy) == title_color(ui.dark));
                }
            }
            let fw = fb.width as int;
            let fh = fb.height as int;
            if self@.lines_fit(fw, fh) {
                assert forall|p: int, qx: int, qy: int|
                    0 <= p < self@.text.len() && wrap_cell(self@.text, self@.grid_on(fw, fh).0, p).0 < self@.scroll
                        + self@.grid_on(fw, fh).1 && 0 <= qx < fw && 0 <= qy < fh && qx < scroll_x
                        && #[trigger] self@.glyph_shown(fw, fh, p, qx, qy) implies fb.pixel(qx, qy) == text_color by {
                    assert(lined.pixel(qx, qy) == text_color);
                    assert(s1.pixel(qx, qy) == s1.pixel(qx, qy));
                    assert(s2.pixel(qx, qy) == s2.pixel(qx, qy));
                    assert(s3.pixel(qx, qy) == s3.pixel(qx, qy));
                    lemma_ink_one_char(fw, (scroll_x + 4) as int, (scroll_y + 3) as int, up@, qx, qy);
                    assert(t2.pixel(qx, qy) == t2.pixel(qx, qy));
                    lemma_ink_one_char(fw, tx3, ty3, down@, qx, qy);
                    assert(t3.pixel(qx, qy) == t3.pixel(qx, qy));
                }
            }
        }
        if max_scroll > 0 {
            Some(
                ScrollThumb {
                    x: scroll_x,
                    track_y: scroll_y + BTN_H,
                    track_h: scroll_h.saturating_sub(BTN_H * 2),
                    max_lines,
                    total_lines,
                    scroll: self.scroll,
                    max_scroll,
                    color: if is_dark { 0x00777F8A } else { 0x0093A9C0 },
                },
            )
        } else {
            None
        }
    }
}

/// Backspace undoes typing: with room left in the document, typing a
/// newline or printable character and then backspace gives back the text.
pub proof fn lemma_backspace_undoes_char(v: NoteView, ch: u8)
    requires
        v.text.len() < MAX_TEXT,
        ch == 10u8 || (32 <= ch <= 126),
    ensures
        (NoteView { text: v.typed(ch), ..v }).typed(8u8) == v.text,
{
    assert(v.text.push(ch).drop_last() =~= v.text);
}

/// Typing never grows the document past `MAX_TEXT` bytes, and keeps it
/// ASCII.
pub proof fn lemma_typed_bounded(v: NoteView, ch: u8)
    requires
        v.wf(),
    ensures
        v.typed(ch).len() <= MAX_TEXT,
        ascii(v.typed(ch)),
{
    let t = v.text;
    if ch == 9u8 {
        let u = t + seq![32u8, 32u8, 32u8, 32u8];
        let n = if t.len() + 4int < MAX_TEXT { t.len() + 4int } else { MAX_TEXT as int };
        assert forall|i: int| 0 <= i < u.take(n).len() implies #[trigger] u.take(n)[i] < 128 by {
            if i < t.len() {
                assert(u[i] == t[i]);
            }
        }
    } else if ch == 8u8 {
        if t.len() > 0 {
            assert forall|i: int| 0 <= i < t.drop_last().len() implies #[trigger] t.drop_last()[i] < 128 by {
                assert(t.drop_last()[i] == t[i]);
            }
        }
    }
}

} // verus!
