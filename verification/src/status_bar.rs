use vstd::prelude::*;
use crate::color::{blend_rgb, fill_vertical_gradient};
use crate::display::{
    Framebuffer, fill_rect, get_pixel, put_pixel, painted, kept_above, lemma_fill_frame, lemma_above_step,
    lemma_above_painted,
};
use crate::rtc::RtcTime;
use crate::system::UiSettings;
use crate::text::{ascii, one_line, text_ink, TextWriter, COORD_MAX, lemma_ink_below, lemma_one_line_ink};
use crate::textfmt::lit;
use crate::window::sat_sub;

verus! {

/// Height of the status bar.
pub const BAR_H: usize = 32;
/// Widest screen whose status bar background is kept.
pub const MAX_W: usize = 1920;

/// The clock text: `HH:MM`, then for a 12-hour clock `AM`/`PM` (hours
/// 13 to 23 counting from 1, hour 0 shown as 12 with the marker left as it
/// was in `prev`), then zero bytes up to 8.
pub open spec fn formatted_time(prev: Seq<u8>, hour: u8, min: u8, h24: bool) -> Seq<u8> {
    let h: int = if h24 || (1 <= hour <= 12) {
        hour as int
    } else if hour == 0 {
        12
    } else {
        hour - 12
    };
    let tail: (u8, u8) = if h24 {
        (0, 0)
    } else if hour == 0 {
        (prev[5], prev[6])
    } else if hour >= 12 {
        (80, 77)
    } else {
        (65, 77)
    };
    seq![
        (48 + h / 10) as u8,
        (48 + h % 10) as u8,
        58u8,
        (48 + min / 10) as u8,
        (48 + min % 10) as u8,
        tail.0,
        tail.1,
        0u8,
    ]
}

/// The date text: `DD.MM.YY` and two zero bytes.
pub open spec fn formatted_date(t: RtcTime) -> Seq<u8> {
    seq![
        (48 + t.day / 10) as u8,
        (48 + t.day % 10) as u8,
        46u8,
        (48 + t.month / 10) as u8,
        (48 + t.month % 10) as u8,
        46u8,
        (48 + (t.year / 10) % 10) as u8,
        (48 + t.year % 10) as u8,
        0u8,
        0u8,
    ]
}

/// The clock reading the cached texts were made for.
pub open spec fn time_hash(t: RtcTime) -> u32 {
    (t.hour as int * 0x10000 + t.min as int * 0x100 + t.sec as int) as u32
}

/// The battery level as text: `100%` from 100 up, else its decimal digits
/// and `%`.
pub open spec fn battery_text(level: u8) -> Seq<u8> {
    if level >= 100 {
        seq![49u8, 48u8, 48u8, 37u8]
    } else if level >= 10 {
        seq![(48 + level / 10) as u8, (48 + level % 10) as u8, 37u8]
    } else {
        seq![(48 + level) as u8, 37u8]
    }
}

/// What the status bar keeps between draws: the clock texts last made and
/// the reading they were made for, and the screen behind the bar.
pub struct StatusBar {
    pub last_hash: u32,
    pub time: Vec<u8>,
    pub date: Vec<u8>,
    pub back: Vec<u32>,
    pub back_w: usize,
    pub saved: bool,
}

impl StatusBar {
    /// The cached texts have their lengths and are ASCII; the saved
    /// background is `BAR_H` rows of `back_w` pixels.
    pub open spec fn wf(&self) -> bool {
        &&& self.time@.len() == 8
        &&& self.date@.len() == 10
        &&& ascii(self.time@)
        &&& ascii(self.date@)
        &&& self.back_w <= MAX_W
        &&& self.back@.len() == self.back_w * BAR_H
    }

    /// Nothing cached yet (texts of zero bytes for reading 0) and no
    /// background saved.
    pub fn new() -> (s: StatusBar)
        ensures
            s.wf(),
            s.last_hash == 0,
            s.time@ == Seq::new(8, |i: int| 0u8),
            s.date@ == Seq::new(10, |i: int| 0u8),
            !s.saved,
            s.back_w == 0,
    {
        let mut time: Vec<u8> = Vec::new();
        let mut date: Vec<u8> = Vec::new();
        let mut i: usize = 0;
        while i < 10
            invariant
                i <= 10,
                time@ == Seq::new(if i < 8 { i as nat } else { 8 }, |j: int| 0u8),
                date@ == Seq::new(i as nat, |j: int| 0u8),
            decreases 10 - i,
        {
            if i < 8 {
                time.push(0);
            }
            date.push(0);
            i = i + 1;
            proof {
                assert(date@ =~= Seq::new(i as nat, |j: int| 0u8));
                assert(time@ =~= Seq::new(if i < 8 { i as nat } else { 8 }, |j: int| 0u8));
            }
        }
        StatusBar { last_hash: 0, time, date, back: Vec::new(), back_w: 0, saved: false }
    }
}

/// Writes the clock text (see `formatted_time`) into `buf`.
pub fn format_time(buf: &mut Vec<u8>, now: RtcTime, clock_24h: bool)
    requires
        old(buf)@.len() == 8,
    ensures
        final(buf)@ == formatted_time(old(buf)@, now.hour, now.min, clock_24h),
{
    let mut hour = now.hour;
    if !clock_24h {
        if hour == 0 {
            hour = 12;
        } else if hour >= 12 {
            if hour > 12 {
                hour = hour - 12;
            }
            buf.set(5, 80);
            buf.set(6, 77);
        } else {
            buf.set(5, 65);
            buf.set(6, 77);
        }
        buf.set(7, 0);
    } else {
        buf.set(5, 0);
        buf.set(6, 0);
        buf.set(7, 0);
    }
    buf.set(0, 48 + hour / 10);
    buf.set(1, 48 + hour % 10);
    buf.set(2, 58);
    buf.set(3, 48 + now.min / 10);
    buf.set(4, 48 + now.min % 10);
    proof {
        assert(buf@ =~= formatted_time(old(buf)@, now.hour, now.min, clock_24h));
    }
}

/// Writes the date text (see `formatted_date`) into `buf`.
pub fn format_date(buf: &mut Vec<u8>, now: RtcTime)
    requires
        old(buf)@.len() == 10,
    ensures
        final(buf)@ == formatted_date(now),
{
    buf.set(0, 48 + now.day / 10);
    buf.set(1, 48 + now.day % 10);
    buf.set(2, 46);
    buf.set(3, 48 + now.month / 10);
    buf.set(4, 48 + now.month % 10);
    buf.set(5, 46);
    buf.set(6, 48 + ((now.year / 10) % 10) as u8);
    buf.set(7, 48 + (now.year % 10) as u8);
    buf.set(8, 0);
    buf.set(9, 0);
    proof {
        assert(buf@ =~= formatted_date(now));
    }
}

/// The battery level as text (see `battery_text`).
pub fn battery_label(level: u8) -> (r: Vec<u8>)
    ensures
        r@ == battery_text(level),
        ascii(r@),
{
    let mut buf: Vec<u8> = Vec::new();
    if level >= 100 {
        buf.push(49);
        buf.push(48);
        buf.push(48);
    } else if level >= 10 {
        buf.push(48 + level / 10);
        buf.push(48 + level % 10);
    } else {
        buf.push(48 + level);
    }
    buf.push(37);
    proof {
        assert(buf@ =~= battery_text(level));
    }
    buf
}

/// Length of the text in `s`: up to its first zero byte.
pub open spec fn text_len(s: Seq<u8>, i: int) -> int
    decreases s.len() - i,
{
    if i < s.len() && s[i] != 0 {
        text_len(s, i + 1)
    } else {
        i
    }
}

fn label(s: &'static str) -> (b: &'static [u8])
    requires
        vstd::string::is_ascii(s),
    ensures
        ascii(b@),
        b@ == lit(s),
        b@.len() == s@.len(),
{
    crate::text::ascii_lit(s)
}

impl StatusBar {
    /// Brings the clock texts up to date for `now`: they are made anew
    /// (and the reading kept) unless `now` is the reading they were made
    /// for.
    pub fn refresh_clock(&mut self, now: RtcTime, clock_24h: bool)
        requires
            old(self).wf(),
        ensures
            final(self).wf(),
            final(self).back == old(self).back,
            final(self).back_w == old(self).back_w,
            final(self).saved == old(self).saved,
            time_hash(now) == old(self).last_hash ==> final(self).time == old(self).time && final(self).date
                == old(self).date && final(self).last_hash == old(self).last_hash,
            time_hash(now) != old(self).last_hash ==> final(self).time@ == formatted_time(
                old(self).time@,
                now.hour,
                now.min,
                clock_24h,
            ) && final(self).date@ == formatted_date(now) && final(self).last_hash == time_hash(now),
    {
        let hash = ((now.hour as u32) << 16) | ((now.min as u32) << 8) | (now.sec as u32);
        proof {
            let h = now.hour as u32;
            let m = now.min as u32;
            let s = now.sec as u32;
            assert(((h << 16u32) | (m << 8u32) | s) == h * 0x10000 + m * 0x100 + s) by (bit_vector)
                requires
                    h < 256,
                    m < 256,
                    s < 256,
            ;
        }
        if hash != self.last_hash {
            format_time(&mut self.time, now, clock_24h);
            format_date(&mut self.date, now);
            self.last_hash = hash;
            proof {
                assert forall|i: int| 0 <= i < 8 implies self.time@[i] < 128 by {
                    assert(old(self).time@[5] < 128 && old(self).time@[6] < 128);
                }
            }
        }
    }

    /// Keeps the screen behind the bar (its bottom `BAR_H` rows, at most
    /// `MAX_W` pixels wide) for `restore`.
    pub fn capture(&mut self, fb: &Framebuffer)
        requires
            fb.wf(),
            fb.height <= COORD_MAX,
        ensures
            final(self).last_hash == old(self).last_hash,
            final(self).time == old(self).time,
            final(self).date == old(self).date,
            fb.width == 0 || fb.height == 0 ==> *final(self) == *old(self),
            old(self).wf() ==> final(self).wf(),
            fb.width != 0 && fb.height != 0 ==> {
                let w = if fb.width < MAX_W { fb.width as int } else { MAX_W as int };
                let y = if fb.height >= BAR_H { fb.height - BAR_H } else { 0 };
                &&& final(self).saved
                &&& final(self).back_w == w
                &&& final(self).back@.len() == w * BAR_H
                &&& forall|row: int, col: int|
                    0 <= row < BAR_H && 0 <= col < w ==> #[trigger] final(self).back@[row * w + col] == if y + row
                        < fb.height {
                        fb.pixel(col, y + row)
                    } else {
                        0
                    }
            },
    {
        if fb.width == 0 || fb.height == 0 {
            return;
        }
        let w = if fb.width < MAX_W { fb.width } else { MAX_W };
        let y = fb.height.saturating_sub(BAR_H);
        let mut back: Vec<u32> = Vec::new();
        let mut row: usize = 0;
        while row < BAR_H
            invariant
                fb.wf(),
                row <= BAR_H,
                w <= MAX_W,
                w <= fb.width,
                y <= fb.height <= COORD_MAX,
                y == if fb.height >= BAR_H { fb.height - BAR_H } else { 0 },
                back@.len() == row * w,
                forall|r: int, c: int|
                    0 <= r < row && 0 <= c < w ==> #[trigger] back@[r * w + c] == if y + r < fb.height {
                        fb.pixel(c, y + r)
                    } else {
                        0
                    },
            decreases BAR_H - row,
        {
            let mut col: usize = 0;
            while col < w
                invariant
                    fb.wf(),
                    row < BAR_H,
                    col <= w,
                    w <= MAX_W,
                    w <= fb.width,
                    y <= fb.height <= COORD_MAX,
                    back@.len() == row * w + col,
                    forall|r: int, c: int|
                        0 <= r < row && 0 <= c < w ==> #[trigger] back@[r * w + c] == if y + r < fb.height {
                            fb.pixel(c, y + r)
                        } else {
                            0
                        },
                    forall|c: int|
                        0 <= c < col ==> #[trigger] back@[row * w + c] == if y + row < fb.height {
                            fb.pixel(c, y + row)
                        } else {
                            0
                        },
                decreases w - col,
            {
                let p = get_pixel(fb, col, y + row);
                proof {
                    assert((row * w + col) as int == row as int * w as int + col as int) by (nonlinear_arith);
                }
                back.push(p);
                proof {
                    assert forall|r: int, c: int| 0 <= r < row && 0 <= c < w implies #[trigger] back@[r * w + c]
                        == if y + r < fb.height {
                        fb.pixel(c, y + r)
                    } else {
                        0
                    } by {
                        assert(r * w + c < row * w) by (nonlinear_arith)
                            requires
                                0 <= r < row,
                                0 <= c < w,
                        ;
                    }
                }
                col = col + 1;
            }
            proof {
                assert forall|r: int, c: int| 0 <= r < row + 1 && 0 <= c < w implies #[trigger] back@[r * w + c]
                    == if y + r < fb.height {
                    fb.pixel(c, y + r)
                } else {
                    0
                } by {
                    if r == row {
                    }
                }
                assert(back@.len() == (row + 1) * w) by (nonlinear_arith)
                    requires
                        back@.len() == row * w + w,
                ;
            }
            row = row + 1;
        }
        proof {
            assert(back@.len() == w * BAR_H) by (nonlinear_arith)
                requires
                    back@.len() == BAR_H * w,
            ;
        }
        self.back = back;
        self.back_w = w;
        self.saved = true;
    }

    /// Puts the kept screen back behind the bar (as far as the screen is
    /// wide), when one was kept.
    pub fn restore(&self, fb: &mut Framebuffer)
        requires
            old(fb).wf(),
            old(fb).height <= COORD_MAX,
            self.wf(),
        ensures
            final(fb).wf(),
            final(fb).same_shape(old(fb)),
            !self.saved || self.back_w == 0 ==> *final(fb) == *old(fb),
            self.saved && self.back_w > 0 ==> forall|qx: int, qy: int|
                0 <= qx < old(fb).width && 0 <= qy < old(fb).height ==> #[trigger] final(fb).pixel(qx, qy)
                    == self.restored(old(fb).height as int, qx, qy, old(fb).pixel(qx, qy)),
    {
        if !self.saved || self.back_w == 0 {
            return;
        }
        let y = fb.height.saturating_sub(BAR_H);
        let w = if self.back_w < fb.width { self.back_w } else { fb.width };
        let ghost start = *fb;
        let ghost bw = self.back_w as int;
        let mut row: usize = 0;
        while row < BAR_H
            invariant
                fb.wf(),
                fb.same_shape(old(fb)),
                start == *old(fb),
                row <= BAR_H,
                w <= self.back_w <= MAX_W,
                w <= fb.width,
                w == self.back_w || w == fb.width,
                bw == self.back_w,
                self.wf(),
                y <= COORD_MAX,
                y == sat_sub(fb.height as int, BAR_H as int),
                forall|qx: int, qy: int|
                    0 <= qx < start.width && 0 <= qy < start.height ==> #[trigger] fb.pixel(qx, qy) == if qx < bw
                        && y <= qy < y + row {
                        self.back@[(qy - y) * bw + qx]
                    } else {
                        start.pixel(qx, qy)
                    },
            decreases BAR_H - row,
        {
            let ghost row_start = *fb;
            let mut col: usize = 0;
            while col < w
                invariant
                    fb.wf(),
                    fb.same_shape(old(fb)),
                    row_start.same_shape(old(fb)),
                    row < BAR_H,
                    col <= w,
                    w <= self.back_w <= MAX_W,
                    bw == self.back_w,
                    self.wf(),
                    y <= COORD_MAX,
                    forall|qx: int, qy: int|
                        0 <= qx < row_start.width && 0 <= qy < row_start.height ==> #[trigger] fb.pixel(qx, qy)
                            == if qy == y + row && qx < col {
                            self.back@[(qy - y) * bw + qx]
                        } else {
                            row_start.pixel(qx, qy)
                        },
                decreases w - col,
            {
                proof {
                    assert(row * self.back_w + col < self.back@.len()) by (nonlinear_arith)
                        requires
                            row < BAR_H,
                            col < w,
                            w <= self.back_w,
                            self.back@.len() == self.back_w * BAR_H,
                    ;
                }
                let rgb = self.back[row * self.back_w + col];
                put_pixel(fb, col, y + row, rgb);
                proof {
                    assert forall|qx: int, qy: int|
                        0 <= qx < row_start.width && 0 <= qy < row_start.height implies #[trigger] fb.pixel(qx, qy)
                            == if qy == y + row && qx < col + 1 {
                            self.back@[(qy - y) * bw + qx]
                        } else {
                            row_start.pixel(qx, qy)
                        } by {
                        if qy == y + row && qx == col {
                            assert((qy - y) * bw + qx == row * self.back_w + col);
                        }
                    }
                }
                col = col + 1;
            }
            proof {
                assert forall|qx: int, qy: int|
                    0 <= qx < start.width && 0 <= qy < start.height implies #[trigger] fb.pixel(qx, qy) == if qx < bw
                        && y <= qy < y + row + 1 {
                        self.back@[(qy - y) * bw + qx]
                    } else {
                        start.pixel(qx, qy)
                    } by {
                    assert(row_start.pixel(qx, qy) == row_start.pixel(qx, qy));
                }
            }
            row = row + 1;
        }
    }

    /// What `restore` leaves at `(qx, qy)` on a screen `fh` pixels high,
    /// where the pixel was `prev`: the kept pixel in the bar's rows left of
    /// the kept width, else the pixel unchanged.
    pub open spec fn restored(&self, fh: int, qx: int, qy: int, prev: u32) -> u32 {
        let y = sat_sub(fh, BAR_H as int);
        if qx < self.back_w && y <= qy < y + BAR_H {
            self.back@[(qy - y) * self.back_w + qx]
        } else {
            prev
        }
    }

    /// Draws the bar along the bottom of the screen while it is on: a
    /// gradient band with borders, `HouseOS` on the left, the battery level
    /// (when `battery` holds one) and the clock with the date on the right.
    /// The clock texts are brought up to date first (see `refresh_clock`).
    pub fn draw(&mut self, fb: &mut Framebuffer, ui: &UiSettings, now: RtcTime, battery: Option<u8>)
        requires
            old(fb).wf(),
            old(self).wf(),
            old(fb).width <= COORD_MAX,
            old(fb).height <= COORD_MAX,
        ensures
            final(fb).wf(),
            final(fb).same_shape(old(fb)),
            final(self).wf(),
            !ui.status_bar ==> *final(fb) == *old(fb) && *final(self) == *old(self),
            ui.status_bar ==> time_hash(now) == old(self).last_hash ==> final(self).time == old(self).time
                && final(self).date == old(self).date && final(self).last_hash == old(self).last_hash,
            ui.status_bar ==> time_hash(now) != old(self).last_hash ==> final(self).time@ == formatted_time(
                old(self).time@,
                now.hour,
                now.min,
                ui.clock_24h,
            ) && final(self).date@ == formatted_date(now) && final(self).last_hash == time_hash(now),
            final(self).back == old(self).back && final(self).back_w == old(self).back_w
                && final(self).saved == old(self).saved,
            ui.status_bar ==> kept_above(*old(fb), *final(fb), sat_sub(old(fb).height as int, BAR_H as int)),
            ui.status_bar ==> painted(
                *final(fb),
                0,
                sat_sub(old(fb).height as int, BAR_H as int),
                old(fb).width as int,
                1,
                if ui.dark { 0x00444444u32 } else { 0x00CDDAEAu32 },
            ),
            ui.status_bar ==> clock_shown(
                *final(fb),
                old(fb).width as int,
                old(fb).height as int,
                ui.dark,
                battery is Some,
                final(self).time@.take(if ui.clock_24h { 5int } else { 7int }),
                final(self).date@.take(text_end(final(self).date@, 0)),
            ),
    {
        if !ui.status_bar {
            return;
        }
        let y = fb.height.saturating_sub(BAR_H);
        let (bg_top, bg_bottom, text, detail_text, brand, border) = if ui.dark {
            (0x00272727u32, 0x001E1E1Eu32, 0x00F2F5F8u32, 0x00B7C0CCu32, blend_rgb(ui.accent, 0x00FFFFFF, 20), 0x00444444u32)
        } else {
            (0x00FDFEFFu32, 0x00ECF2FBu32, 0x00121B29u32, 0x004D5D72u32, blend_rgb(ui.accent, 0x00FFFFFF, 36), 0x00CDDAEAu32)
        };
        let width = fb.width;
        fill_vertical_gradient(fb, 0, y, width, BAR_H, bg_top, bg_bottom);
        let ghost pb = *fb;
        fill_rect(fb, 0, y, width, 1, border);
        let ghost framed = *fb;
        proof {
            lemma_fill_frame(pb, *fb, 0, y as int, width as int, 1, border);
            assert(kept_above(framed, framed, y + 1));
        }
        let low = blend_rgb(border, 0x00FFFFFF, 24);
        let ghost q8 = *fb;
        fill_rect(fb, 0, y + (BAR_H - 1), width, 1, low);
        proof {
            lemma_above_step(framed, q8, *fb, y + 1, (y + (BAR_H - 1)) as int);
        }

        let mut writer = TextWriter::new(fb);
        writer.set_color(brand);
        writer.set_pos(12, y + 11);
        proof {
            reveal_strlit("HouseOS");
        }
        let ghost q9 = *fb;
        let ghost ty9 = writer.y as int;
        writer.write_bytes(fb, label("HouseOS"));
        proof {
            lemma_above_step(framed, q9, *fb, y + 1, ty9);
        }

        let mut right_x = width.saturating_sub(12);
        match battery {
            Some(level) => {
                let ghost qb = *fb;
                right_x = draw_battery(fb, right_x, y, BAR_H, &mut writer, text, detail_text, level);
                proof {
                    lemma_above_step(framed, qb, *fb, y + 1, y + 1);
                }
            },
            None => {},
        }
        self.refresh_clock(now, ui.clock_24h);
        let clock_x = right_x.saturating_sub(92);
        writer.set_color(text);
        let time_len: usize = if ui.clock_24h { 5 } else { 7 };
        let time_w = time_len * 8;
        writer.set_pos(clock_x + (92 - time_w) / 2, y + 4);
        let time_str = vstd::slice::slice_subrange(self.time.as_slice(), 0, time_len);
        proof {
            assert forall|i: int| 0 <= i < time_str@.len() implies time_str@[i] < 128 by {
                assert(time_str@[i] == self.time@[i]);
            }
        }
        let ghost q10 = *fb;
        let ghost ty10 = writer.y as int;
        let ghost fw = width as int;
        let ghost cx = clock_left(fw, battery is Some);
        assert(clock_x == cx);
        writer.write_bytes(fb, time_str);
        proof {
            lemma_above_step(framed, q10, *fb, y + 1, ty10);
        }
        let ghost timed = *fb;
        writer.set_color(detail_text);
        let mut date_len: usize = 0;
        while date_len < 10 && self.date[date_len] != 0
            invariant
                date_len <= 10,
                self.date@.len() == 10,
                text_end(self.date@, date_len as int) == text_end(self.date@, 0),
            decreases 10 - date_len,
        {
            date_len = date_len + 1;
        }
        let date_w = date_len * 8;
        writer.set_pos(clock_x + (92 - date_w) / 2, y + 16);
        let date_str = vstd::slice::slice_subrange(self.date.as_slice(), 0, date_len);
        proof {
            assert forall|i: int| 0 <= i < date_str@.len() implies date_str@[i] < 128 by {
                assert(date_str@[i] == self.date@[i]);
            }
        }
        let ghost q11 = *fb;
        let ghost ty11 = writer.y as int;
        writer.write_bytes(fb, date_str);
        proof {
            lemma_above_step(framed, q11, *fb, y + 1, ty11);
            let tx = cx + (92 - 8 * time_str@.len()) / 2;
            let dx = cx + (92 - 8 * date_str@.len()) / 2;
            assert(time_str@ == self.time@.take(if ui.clock_24h { 5int } else { 7int }));
            assert(date_str@ == self.date@.take(text_end(self.date@, 0)));
            assert forall|qx: int, qy: int|
                0 <= qx < fb.width && 0 <= qy < fb.height && one_line(fw, tx, time_str@) && #[trigger] text_ink(
                    fw,
                    tx,
                    y + 4,
                    time_str@,
                    qx,
                    qy,
                ) implies fb.pixel(qx, qy) == bar_text_color(ui.dark) by {
                lemma_one_line_ink(fw, tx, y + 4, time_str@, qx, qy);
                if text_ink(fw, dx, y + 16, date_str@, qx, qy) {
                    lemma_ink_below(fw, dx, y + 16, date_str@, qx, qy);
                }
                assert(timed.pixel(qx, qy) == bar_text_color(ui.dark));
            }
        }
        proof {
            lemma_above_painted(framed, *fb, y + 1, (0, y as int, width as int, 1), border);
            assert(kept_above(*old(fb), *fb, y as int));
        }
    }
}

/// Where the first byte of `s` at index `i` or later that is zero stands,
/// or 10 when there is none before index 10.
pub open spec fn text_end(s: Seq<u8>, i: int) -> int
    decreases 10 - i,
{
    if i >= 10 || s[i] == 0 {
        i
    } else {
        text_end(s, i + 1)
    }
}

/// Where the clock's 92-pixel column starts on a screen `fw` pixels wide:
/// left of the battery level when one is shown, else 12 pixels in from the
/// right edge.
pub open spec fn clock_left(fw: int, battery: bool) -> int {
    let right0 = sat_sub(fw, 12);
    let right = if battery {
        sat_sub(sat_sub(right0, 94), 8)
    } else {
        right0
    };
    sat_sub(right, 92)
}

/// The colour of the clock's time.
pub open spec fn bar_text_color(dark: bool) -> u32 {
    if dark {
        0x00F2F5F8
    } else {
        0x00121B29
    }
}

/// The colour of the clock's date.
pub open spec fn bar_detail_color(dark: bool) -> u32 {
    if dark {
        0x00B7C0CC
    } else {
        0x004D5D72
    }
}

/// In `fb`, a `fw * fh` screen, the bar shows `time` centred in the clock's
/// column 4 pixels below the bar's top edge and `date` centred under it:
/// every pixel that either text lights, where it stays on one line, has its
/// colour.
pub open spec fn clock_shown(
    fb: Framebuffer,
    fw: int,
    fh: int,
    dark: bool,
    battery: bool,
    time: Seq<u8>,
    date: Seq<u8>,
) -> bool {
    let y = sat_sub(fh, BAR_H as int);
    let cx = clock_left(fw, battery);
    let tx = cx + (92 - 8 * time.len()) / 2;
    let dx = cx + (92 - 8 * date.len()) / 2;
    &&& forall|qx: int, qy: int|
        0 <= qx < fb.width && 0 <= qy < fb.height && one_line(fw, tx, time) && #[trigger] text_ink(
            fw,
            tx,
            y + 4,
            time,
            qx,
            qy,
        ) ==> fb.pixel(qx, qy) == bar_text_color(dark)
    &&& forall|qx: int, qy: int|
        0 <= qx < fb.width && 0 <= qy < fb.height && one_line(fw, dx, date) && #[trigger] text_ink(
            fw,
            dx,
            y + 16,
            date,
            qx,
            qy,
        ) ==> fb.pixel(qx, qy) == bar_detail_color(dark)
}

/// Draws the battery icon and level left of `x` in a bar at `y`, `h` high,
/// and returns where the clock goes.
fn draw_battery(
    fb: &mut Framebuffer,
    x: usize,
    y: usize,
    h: usize,
    writer: &mut TextWriter,
    text_color: u32,
    detail_text_color: u32,
    level: u8,
) -> (r: usize)
    requires
        old(fb).wf(),
        x <= COORD_MAX,
        y <= COORD_MAX,
        h == BAR_H,
        old(writer).width == old(fb).width,
        old(writer).width <= COORD_MAX,
    ensures
        final(fb).wf(),
        final(fb).same_shape(old(fb)),
        final(writer).width == old(writer).width,
        r == sat_sub(sat_sub(x as int, 94), 8),
        kept_above(*old(fb), *final(fb), y + 1),
{
    assert(kept_above(*old(fb), *old(fb), y + 1));
    let icon_w: usize = 24;
    let icon_h: usize = 10;
    let icon_x = x.saturating_sub(94);
    let icon_y = y + (h - icon_h) / 2 + 1;
    let body_border: u32 = if level > 20 { detail_text_color } else { 0x00E84A5F };
    let ghost q1 = *fb;
    fill_rect(fb, icon_x, icon_y, icon_w, 1, body_border);
    proof {
        lemma_above_step(*old(fb), q1, *fb, y + 1, (icon_y) as int);
    }
    let ghost q2 = *fb;
    fill_rect(fb, icon_x, icon_y + (icon_h - 1), icon_w, 1, body_border);
    proof {
        lemma_above_step(*old(fb), q2, *fb, y + 1, (icon_y + (icon_h - 1)) as int);
    }
    let ghost q3 = *fb;
    fill_rect(fb, icon_x, icon_y, 1, icon_h, body_border);
    proof {
        lemma_above_step(*old(fb), q3, *fb, y + 1, (icon_y) as int);
    }
    let ghost q4 = *fb;
    fill_rect(fb, icon_x + (icon_w - 1), icon_y, 1, icon_h, body_border);
    proof {
        lemma_above_step(*old(fb), q4, *fb, y + 1, (icon_y) as int);
    }
    let ghost q5 = *fb;
    fill_rect(fb, icon_x + icon_w, icon_y + 3, 2, icon_h - 6, body_border);
    proof {
        lemma_above_step(*old(fb), q5, *fb, y + 1, (icon_y + 3) as int);
    }
    proof {
        assert((icon_w - 4) * (level as usize) <= 20 * 255) by (nonlinear_arith)
            requires
                icon_w == 24,
                level <= 255,
        ;
    }
    let fill_w = ((icon_w - 4) * level as usize) / 100;
    let fill_color: u32 = if level > 50 {
        0x0051B56B
    } else if level > 20 {
        0x00D39B39
    } else {
        0x00D14B55
    };
    if fill_w > 0 {
        let fw = if fill_w < icon_w - 4 { fill_w } else { icon_w - 4 };
        let ghost q6 = *fb;
        fill_rect(fb, icon_x + 2, icon_y + 2, fw, icon_h - 4, fill_color);
        proof {
            lemma_above_step(*old(fb), q6, *fb, y + 1, (icon_y + 2) as int);
        }
    }
    writer.set_color(text_color);
    writer.set_pos(icon_x + icon_w + 8, y + h / 2 - 4);
    let label = battery_label(level);
    let ghost q7 = *fb;
    let ghost ty7 = writer.y as int;
    writer.write_bytes(fb, label.as_slice());
    proof {
        lemma_above_step(*old(fb), q7, *fb, y + 1, ty7);
    }
    icon_x.saturating_sub(8)
}

} // verus!
