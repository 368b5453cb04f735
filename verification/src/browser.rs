use vstd::prelude::*;
use vstd::slice::slice_subrange;
use crate::color::fill_vertical_gradient;
use crate::display::{
    Framebuffer, fill_rect, painted, kept_above, kept_outside, lemma_fill_frame, lemma_above_rect,
    lemma_above_painted,
};
use crate::notepad::{fb_ok, ScrollThumb};
use crate::system::UiSettings;
use crate::text::{ascii, one_line, TextWriter, COORD_MAX, lemma_above_ink, text_ink, glyph_cell, lemma_ink_one_char, lemma_one_line_ink, lemma_ink_first_line};
use crate::textfmt::{lit, write_str};
use crate::window::{draw_window, hit, in_rect, sat_sub, title_color, title_fits, window_fits, CORNER_RADIUS, HEADER_H};

verus! {

/// Longest address the browser keeps.
pub const MAX_URL: usize = 120;
/// Most lines a page holds.
pub const MAX_LINES: usize = 40;
/// Most bytes of a page line.
pub const MAX_COLS: usize = 90;
pub const LINE_HEIGHT: usize = 16;
pub const PAD: usize = 12;
pub const SCROLL_W: usize = 14;
pub const BTN_H: usize = 16;
/// Size of the Go button.
pub const GO_W: usize = 46;
pub const GO_H: usize = 22;

/// The network adapter families the kernel knows.
#[derive(Debug, Clone, Copy, PartialEq, Eq, Structural)]
pub enum NetKind {
    IntelE1000,
    Realtek8139,
    VirtioNet,
    Unknown,
}

/// How far a network driver got.
#[derive(Debug, Clone, Copy, PartialEq, Eq, Structural)]
pub enum NetState {
    Detected,
    Ready,
    Error,
}

/// A network adapter found on the PCI bus, with what its driver reported.
#[derive(Debug, Clone, Copy)]
pub struct NetDevice {
    pub kind: NetKind,
    pub vendor_id: u16,
    pub device_id: u16,
    pub state: NetState,
    pub driver_online: bool,
    pub io_base: u16,
    pub irq_line: u8,
    pub mac: [u8; 6],
}

/// A web-browser window. It cannot load pages yet: "navigating" shows a
/// report on the network adapter and what the address asks for.
pub struct Browser {
    visible: bool,
    win_x: usize,
    win_y: usize,
    win_w: usize,
    win_h: usize,
    url: Vec<u8>,
    lines: Vec<Vec<u8>>,
    scroll: usize,
}

/// A browser's state as plain values.
pub struct BrowserView {
    pub visible: bool,
    pub win_x: usize,
    pub win_y: usize,
    pub win_w: usize,
    pub win_h: usize,
    pub url: Seq<u8>,
    pub lines: Seq<Seq<u8>>,
    pub scroll: usize,
}

impl View for Browser {
    type V = BrowserView;

    closed spec fn view(&self) -> BrowserView {
        BrowserView {
            visible: self.visible,
            win_x: self.win_x,
            win_y: self.win_y,
            win_w: self.win_w,
            win_h: self.win_h,
            url: self.url@,
            lines: self.lines@.map_values(|l: Vec<u8>| l@),
            scroll: self.scroll,
        }
    }
}

/// `s` cut to a page line's length.
pub open spec fn cap_line(s: Seq<u8>) -> Seq<u8> {
    if s.len() > MAX_COLS {
        s.take(MAX_COLS as int)
    } else {
        s
    }
}

/// The page after adding line `s` (cut to `MAX_COLS` bytes): when full, the
/// oldest line goes.
pub open spec fn pushed(lines: Seq<Seq<u8>>, s: Seq<u8>) -> Seq<Seq<u8>> {
    if lines.len() < MAX_LINES {
        lines.push(cap_line(s))
    } else {
        lines.drop_first().push(cap_line(s))
    }
}

/// Upper-case hexadecimal digit for `n` below 16.
pub open spec fn hex_digit(n: int) -> u8 {
    if n < 10 {
        (48 + n) as u8
    } else {
        (65 + n - 10) as u8
    }
}

/// Two hexadecimal digits of `v`.
pub open spec fn hex8(v: u8) -> Seq<u8> {
    seq![hex_digit(v as int / 16), hex_digit(v as int % 16)]
}

/// Four hexadecimal digits of `v`.
pub open spec fn hex16(v: u16) -> Seq<u8> {
    seq![
        hex_digit(v as int / 4096),
        hex_digit(v as int / 256 % 16),
        hex_digit(v as int / 16 % 16),
        hex_digit(v as int % 16),
    ]
}

/// A MAC address as six colon-separated pairs of hexadecimal digits.
pub open spec fn mac_text(m: Seq<u8>) -> Seq<u8> {
    hex8(m[0]) + seq![58u8] + hex8(m[1]) + seq![58u8] + hex8(m[2]) + seq![58u8] + hex8(m[3]) + seq![58u8]
        + hex8(m[4]) + seq![58u8] + hex8(m[5])
}

/// Whether any byte of a MAC address is set.
pub open spec fn has_mac(m: Seq<u8>) -> bool {
    exists|i: int| 0 <= i < m.len() && m[i] != 0
}

/// `s` begins with `p`.
pub open spec fn starts_with(s: Seq<u8>, p: Seq<u8>) -> bool {
    s.len() >= p.len() && s.take(p.len() as int) == p
}

/// Name of an adapter family.
pub open spec fn kind_text(k: NetKind) -> Seq<u8> {
    match k {
        NetKind::IntelE1000 => lit("Intel E1000"),
        NetKind::Realtek8139 => lit("Realtek RTL8139"),
        NetKind::VirtioNet => lit("VirtIO Net"),
        NetKind::Unknown => lit("Unknown NIC"),
    }
}

/// Name of a driver state.
pub open spec fn state_text(s: NetState) -> Seq<u8> {
    match s {
        NetState::Detected => lit("Detected"),
        NetState::Ready => lit("Ready"),
        NetState::Error => lit("Error"),
    }
}

/// The report on adapter `d` and address `url`: the adapter, its IDs, its
/// driver's state, its I/O port and interrupt, its MAC address when set,
/// then what the address asks for (HTTPS, HTTP, or neither).
pub open spec fn device_lines(url: Seq<u8>, d: NetDevice) -> Seq<Seq<u8>> {
    let info = seq![
        lit("Network device detected:"),
        kind_text(d.kind) + lit("  VID:0x") + hex16(d.vendor_id) + lit("  DID:0x") + hex16(d.device_id),
        lit("Driver: ") + state_text(d.state) + if d.driver_online {
            lit(" (online)")
        } else {
            lit(" (offline)")
        },
        lit("IO:0x") + hex16(d.io_base) + lit("  IRQ:0x") + hex8(d.irq_line),
    ];
    let mac = if has_mac(d.mac@) { seq![lit("MAC: ") + mac_text(d.mac@)] } else { Seq::empty() };
    let ready = if d.state == NetState::Ready {
        lit("NIC driver is ready.")
    } else {
        lit("NIC exists but driver init failed.")
    };
    let tail = if starts_with(url, lit("https://")) {
        seq![lit("HTTPS requested."), ready, lit("TLS + TCP/IP stack is not implemented yet.")]
    } else if starts_with(url, lit("http://")) {
        seq![lit("HTTP requested."), ready, lit("TCP/IP + DNS + HTTP parser are still in progress.")]
    } else {
        seq![lit("Type URL starting with http:// or https://")]
    };
    info + mac + tail
}

/// The page shown for address `url` with network adapters `devs`: a title,
/// a rule, the address, then the report on the first adapter, or a note
/// that there is none. Each line is cut to `MAX_COLS` bytes.
pub open spec fn page(url: Seq<u8>, devs: Seq<NetDevice>) -> Seq<Seq<u8>> {
    let head = seq![lit("HouseOS Browser"), lit("----------------"), lit("URL: ") + url];
    let body = if devs.len() == 0 {
        seq![lit("No network adapter detected."), lit("Check QEMU NIC or PCI passthrough.")]
    } else {
        device_lines(url, devs[0])
    };
    (head + body).map_values(|s: Seq<u8>| cap_line(s))
}

/// The default window: four fifths of the screen, kept between 520 x 360
/// and 920 x 620, centred.
pub open spec fn calc_rect_spec(fw: int, fh: int) -> (int, int, int, int) {
    let w0 = fw * 4 / 5;
    let w1 = if w0 < 920 { w0 } else { 920 };
    let w = if w1 > 520 { w1 } else { 520 };
    let h0 = fh * 4 / 5;
    let h1 = if h0 < 620 { h0 } else { 620 };
    let h = if h1 > 360 { h1 } else { 360 };
    (sat_sub(fw, w) / 2, sat_sub(fh, h) / 2, w, h)
}

fn calc_rect(fb: &Framebuffer) -> (r: (usize, usize, usize, usize))
    requires
        fb.width <= COORD_MAX,
        fb.height <= COORD_MAX,
    ensures
        (r.0 as int, r.1 as int, r.2 as int, r.3 as int) == calc_rect_spec(fb.width as int, fb.height as int),
{
    let w0 = fb.width * 4 / 5;
    let w1 = if w0 < 920 { w0 } else { 920 };
    let w = if w1 > 520 { w1 } else { 520 };
    let h0 = fb.height * 4 / 5;
    let h1 = if h0 < 620 { h0 } else { 620 };
    let h = if h1 > 360 { h1 } else { 360 };
    (fb.width.saturating_sub(w) / 2, fb.height.saturating_sub(h) / 2, w, h)
}

impl BrowserView {
    /// The address is typed text and the page holds at most `MAX_LINES`
    /// lines of at most `MAX_COLS` bytes, all ASCII.
    pub open spec fn wf(self) -> bool {
        &&& self.url.len() <= MAX_URL
        &&& ascii(self.url)
        &&& self.lines.len() <= MAX_LINES
        &&& forall|i: int| 0 <= i < self.lines.len() ==> (#[trigger] self.lines[i]).len() <= MAX_COLS && ascii(
            self.lines[i],
        )
    }

    /// The window rectangle on a `fw * fh` screen.
    pub open spec fn rect_on(self, fw: int, fh: int) -> (int, int, int, int) {
        if self.win_w == 0 || self.win_h == 0 {
            calc_rect_spec(fw, fh)
        } else {
            (self.win_x as int, self.win_y as int, self.win_w as int, self.win_h as int)
        }
    }

    /// Where page text starts on a `fw * fh` screen: the left edge of the
    /// text area and the top of its first line.
    pub open spec fn text_origin(self, fw: int, fh: int) -> (int, int) {
        let rc = self.rect_on(fw, fh);
        (rc.0 + 2 + PAD, rc.1 + HEADER_H + 2 + PAD + GO_H + PAD)
    }

    /// On a `fw * fh` screen: the address bar's left edge and top, and the
    /// Go button's left edge.
    pub open spec fn bar_places(self, fw: int, fh: int) -> (int, int, int) {
        let rc = self.rect_on(fw, fh);
        let cx = rc.0 + 2;
        (cx + PAD, rc.1 + HEADER_H + 2 + PAD, cx + sat_sub(sat_sub(rc.2, 4), PAD + GO_W))
    }

    /// What the address bar shows of the address on a `fw * fh` screen: as
    /// many bytes as fit in the bar less 12 pixels, 8 pixels each.
    pub open spec fn url_shown(self, fw: int, fh: int) -> Seq<u8> {
        let b = self.bar_places(fw, fh);
        let m = sat_sub(sat_sub(b.2, b.0 + 8), 12) / 8;
        self.url.take(if self.url.len() < m { self.url.len() as int } else { m })
    }

    /// Whether the address text (see `url_shown`), written 6 pixels into
    /// the bar, lights `(qx, qy)`, where it stays on one line.
    pub open spec fn url_ink(self, fw: int, fh: int, qx: int, qy: int) -> bool {
        let b = self.bar_places(fw, fh);
        &&& one_line(fw, b.0 + 6, self.url_shown(fw, fh))
        &&& text_ink(fw, b.0 + 6, b.1 + 6, self.url_shown(fw, fh), qx, qy)
    }

    /// Whether the Go button's label lights `(qx, qy)`, where it and the
    /// address text stay on one line.
    pub open spec fn go_ink(self, fw: int, fh: int, qx: int, qy: int) -> bool {
        let b = self.bar_places(fw, fh);
        &&& one_line(fw, b.0 + 6, self.url_shown(fw, fh))
        &&& one_line(fw, b.2 + 11, lit("Go"))
        &&& text_ink(fw, b.2 + 11, b.1 + 6, lit("Go"), qx, qy)
    }

    /// Left edge of the scroll bar on a `fw * fh` screen.
    pub open spec fn scroll_left(self, fw: int, fh: int) -> int {
        let rc = self.rect_on(fw, fh);
        rc.0 + 2 + sat_sub(sat_sub(rc.2, 4), PAD + SCROLL_W)
    }

    /// Whether page line `j`, drawn in its row below the scroll position,
    /// lights pixel `(qx, qy)`.
    pub open spec fn line_ink(self, fw: int, fh: int, j: int, qx: int, qy: int) -> bool {
        let o = self.text_origin(fw, fh);
        text_ink(fw, o.0, o.1 + (j - self.scroll) * LINE_HEIGHT, self.lines[j], qx, qy)
    }

    /// Page lines that fit the text area on a `fw * fh` screen (at least one).
    pub open spec fn max_lines_on(self, fw: int, fh: int) -> int {
        let ch = sat_sub(self.rect_on(fw, fh).3, HEADER_H + 4);
        let text_h = sat_sub(ch, PAD + GO_H + PAD + PAD);
        let fit = text_h / LINE_HEIGHT as int;
        if fit > 1 { fit } else { 1 }
    }

    /// The last first line that still fills the text area.
    pub open spec fn max_scroll_on(self, fw: int, fh: int) -> int {
        sat_sub(self.lines.len() as int, self.max_lines_on(fw, fh))
    }

    /// The window lies where the drawing code can reach.
    pub open spec fn drawable(self, fb: &Framebuffer) -> bool {
        let r = self.rect_on(fb.width as int, fb.height as int);
        &&& fb_ok(fb)
        &&& fb.width <= COORD_MAX
        &&& fb.height <= COORD_MAX
        &&& window_fits(r.0, r.1, r.2, r.3)
        &&& r.2 >= 2 * CORNER_RADIUS
        &&& r.3 >= 2 * CORNER_RADIUS
    }

    /// The page for the current address, from its top.
    pub open spec fn navigated(self, devs: Seq<NetDevice>) -> BrowserView {
        BrowserView { lines: page(self.url, devs), scroll: 0, ..self }
    }

    /// Shown, at the default rectangle if it has no size yet, navigating
    /// when the page is empty.
    pub open spec fn shown(self, fw: int, fh: int, devs: Seq<NetDevice>) -> BrowserView {
        let r = calc_rect_spec(fw, fh);
        let s = if self.win_w == 0 || self.win_h == 0 {
            BrowserView {
                visible: true,
                win_x: r.0 as usize,
                win_y: r.1 as usize,
                win_w: r.2 as usize,
                win_h: r.3 as usize,
                ..self
            }
        } else {
            BrowserView { visible: true, ..self }
        };
        if self.lines.len() == 0 {
            s.navigated(devs)
        } else {
            s
        }
    }

    /// One line up, unless at the top.
    pub open spec fn scrolled_up(self) -> BrowserView {
        BrowserView { scroll: sat_sub(self.scroll as int, 1) as usize, ..self }
    }

    /// One line down while lines remain below, counting the lines that fit
    /// the window (at least one).
    pub open spec fn scrolled_down(self, fw: int, fh: int) -> BrowserView {
        let h = self.rect_on(fw, fh).3;
        let fit = sat_sub(h, HEADER_H + 52) / LINE_HEIGHT as int;
        let max_lines = if fit > 1 { fit } else { 1 };
        let max_scroll = sat_sub(self.lines.len() as int, max_lines);
        if self.scroll < max_scroll {
            BrowserView { scroll: (self.scroll + 1) as usize, ..self }
        } else {
            self
        }
    }

    /// A click at `(x, y)` on a `fw * fh` screen: whether it was taken, and
    /// the state after it. The Go button navigates; the scroll bar's
    /// buttons scroll by a line.
    pub open spec fn clicked(self, fw: int, fh: int, x: int, y: int, devs: Seq<NetDevice>) -> (bool, BrowserView) {
        let r = self.rect_on(fw, fh);
        let body_y = r.1 + HEADER_H + 2;
        let body_h = sat_sub(r.3, HEADER_H + 4);
        let url_y = body_y + PAD;
        let go = ((r.0 + sat_sub(r.2, PAD + GO_W)) as usize, url_y as usize, GO_W, GO_H);
        let scroll_x = r.0 + sat_sub(r.2, PAD + SCROLL_W);
        let scroll_y = url_y + GO_H + PAD;
        let scroll_h = sat_sub(body_h, PAD + GO_H + PAD + PAD);
        let up = (scroll_x as usize, scroll_y as usize, SCROLL_W, BTN_H);
        let down = (scroll_x as usize, (scroll_y + sat_sub(scroll_h, BTN_H as int)) as usize, SCROLL_W, BTN_H);
        if !self.visible {
            (false, self)
        } else if in_rect(x, y, go) {
            (true, self.navigated(devs))
        } else if in_rect(x, y, up) {
            (true, self.scrolled_up())
        } else if in_rect(x, y, down) {
            (true, self.scrolled_down(fw, fh))
        } else {
            (false, self)
        }
    }

    /// A typed byte while shown: Enter navigates, backspace deletes the
    /// last byte of the address, printable ASCII is appended while there
    /// is room; other bytes are ignored.
    pub open spec fn typed(self, ch: u8, devs: Seq<NetDevice>) -> BrowserView {
        if !self.visible {
            self
        } else if ch == 10 {
            self.navigated(devs)
        } else if ch == 8 {
            BrowserView { url: if self.url.len() > 0 { self.url.drop_last() } else { self.url }, ..self }
        } else if 32 <= ch <= 126 && self.url.len() < MAX_URL {
            BrowserView { url: self.url.push(ch), ..self }
        } else {
            self
        }
    }
}

/// The bytes of an ASCII literal, for the browser's text.
fn label(s: &'static str) -> (b: &'static [u8])
    requires
        vstd::string::is_ascii(s),
    ensures
        ascii(b@),
        b@.len() == s@.len(),
        b@ == lit(s),
        forall|i: int| 0 <= i < b@.len() ==> b@[i] == s@[i] as u8,
{
    crate::text::ascii_lit(s)
}

/// Appends the upper-case hexadecimal digit for `n` below 16.
fn push_hex_digit(buf: &mut Vec<u8>, n: u8)
    requires
        n < 16,
        ascii(old(buf)@),
    ensures
        final(buf)@ == old(buf)@.push(hex_digit(n as int)),
        ascii(final(buf)@),
{
    if n < 10 {
        buf.push(48 + n);
    } else {
        buf.push(65 + (n - 10));
    }
}

/// Appends two hexadecimal digits of `v`.
fn write_hex8(buf: &mut Vec<u8>, v: u8)
    requires
        ascii(old(buf)@),
    ensures
        final(buf)@ == old(buf)@ + hex8(v),
        ascii(final(buf)@),
{
    push_hex_digit(buf, v / 16);
    push_hex_digit(buf, v % 16);
    proof {
        assert(final(buf)@ =~= old(buf)@ + hex8(v));
    }
}

/// Appends four hexadecimal digits of `v`.
fn write_hex16(buf: &mut Vec<u8>, v: u16)
    requires
        ascii(old(buf)@),
    ensures
        final(buf)@ == old(buf)@ + hex16(v),
        ascii(final(buf)@),
{
    push_hex_digit(buf, (v / 4096) as u8);
    push_hex_digit(buf, (v / 256 % 16) as u8);
    push_hex_digit(buf, (v / 16 % 16) as u8);
    push_hex_digit(buf, (v % 16) as u8);
    proof {
        assert(final(buf)@ =~= old(buf)@ + hex16(v));
    }
}

/// Appends a MAC address (see `mac_text`).
fn write_mac(buf: &mut Vec<u8>, mac: &[u8; 6])
    requires
        ascii(old(buf)@),
    ensures
        final(buf)@ == old(buf)@ + mac_text(mac@),
        ascii(final(buf)@),
{
    let ghost b0 = buf@;
    write_hex8(buf, mac[0]);
    buf.push(58);
    write_hex8(buf, mac[1]);
    buf.push(58);
    write_hex8(buf, mac[2]);
    buf.push(58);
    write_hex8(buf, mac[3]);
    buf.push(58);
    write_hex8(buf, mac[4]);
    buf.push(58);
    write_hex8(buf, mac[5]);
    proof {
        assert(buf@ =~= b0 + mac_text(mac@));
    }
}

/// Whether any byte of a MAC address is set.
fn mac_set(mac: &[u8; 6]) -> (r: bool)
    ensures
        r == has_mac(mac@),
{
    let mut i: usize = 0;
    while i < 6
        invariant
            i <= 6,
            mac@.len() == 6,
            forall|j: int| 0 <= j < i ==> mac@[j] == 0,
        decreases 6 - i,
    {
        if mac[i] != 0 {
            return true;
        }
        i = i + 1;
    }
    false
}

/// Whether `s` begins with `p`.
fn begins_with(s: &[u8], p: &[u8]) -> (r: bool)
    ensures
        r == starts_with(s@, p@),
{
    if s.len() < p.len() {
        return false;
    }
    let mut i: usize = 0;
    while i < p.len()
        invariant
            i <= p@.len() <= s@.len(),
            forall|j: int| 0 <= j < i ==> s@[j] == p@[j],
        decreases p@.len() - i,
    {
        if s[i] != p[i] {
            proof {
                assert(s@.take(p@.len() as int)[i as int] != p@[i as int]);
            }
            return false;
        }
        i = i + 1;
    }
    proof {
        assert(s@.take(p@.len() as int) =~= p@);
    }
    true
}

fn kind_name(k: NetKind) -> (r: &'static [u8])
    ensures
        r@ == kind_text(k),
        ascii(r@),
{
    match k {
        NetKind::IntelE1000 => {
            proof {
                reveal_strlit("Intel E1000");
            }
            label("Intel E1000")
        },
        NetKind::Realtek8139 => {
            proof {
                reveal_strlit("Realtek RTL8139");
            }
            label("Realtek RTL8139")
        },
        NetKind::VirtioNet => {
            proof {
                reveal_strlit("VirtIO Net");
            }
            label("VirtIO Net")
        },
        NetKind::Unknown => {
            proof {
                reveal_strlit("Unknown NIC");
            }
            label("Unknown NIC")
        },
    }
}

fn state_name(s: NetState) -> (r: &'static [u8])
    ensures
        r@ == state_text(s),
        ascii(r@),
{
    match s {
        NetState::Detected => {
            proof {
                reveal_strlit("Detected");
            }
            label("Detected")
        },
        NetState::Ready => {
            proof {
                reveal_strlit("Ready");
            }
            label("Ready")
        },
        NetState::Error => {
            proof {
                reveal_strlit("Error");
            }
            label("Error")
        },
    }
}

/// Appends ASCII text `s`.
fn append(buf: &mut Vec<u8>, s: &[u8])
    requires
        ascii(old(buf)@),
        ascii(s@),
    ensures
        final(buf)@ == old(buf)@ + s@,
        ascii(final(buf)@),
{
    write_str(buf, s);
    proof {
        assert forall|i: int| 0 <= i < buf@.len() implies buf@[i] < 128 by {
            if i >= old(buf)@.len() {
                assert(buf@[i] == s@[i - old(buf)@.len()]);
            }
        }
    }
}

/// A line made of `a` then `b`.
fn line_of(a: &[u8], b: &[u8]) -> (r: Vec<u8>)
    requires
        ascii(a@),
        ascii(b@),
    ensures
        r@ == a@ + b@,
        ascii(r@),
{
    let mut v: Vec<u8> = Vec::new();
    append(&mut v, a);
    append(&mut v, b);
    proof {
        assert(v@ =~= a@ + b@);
    }
    v
}

/// The report lines on adapter `d` (see `device_lines`).
fn device_report(url: &[u8], d: &NetDevice) -> (r: Vec<Vec<u8>>)
    ensures
        r@.map_values(|l: Vec<u8>| l@) == device_lines(url@, *d),
        forall|i: int| 0 <= i < r@.len() ==> ascii(#[trigger] r@[i]@),
{
    proof {
        reveal_strlit("Network device detected:");
        reveal_strlit("  VID:0x");
        reveal_strlit("  DID:0x");
        reveal_strlit("Driver: ");
        reveal_strlit(" (online)");
        reveal_strlit(" (offline)");
        reveal_strlit("IO:0x");
        reveal_strlit("  IRQ:0x");
        reveal_strlit("MAC: ");
        reveal_strlit("https://");
        reveal_strlit("http://");
        reveal_strlit("HTTPS requested.");
        reveal_strlit("HTTP requested.");
        reveal_strlit("NIC driver is ready.");
        reveal_strlit("NIC exists but driver init failed.");
        reveal_strlit("TLS + TCP/IP stack is not implemented yet.");
        reveal_strlit("TCP/IP + DNS + HTTP parser are still in progress.");
        reveal_strlit("Type URL starting with http:// or https://");
    }
    let mut out: Vec<Vec<u8>> = Vec::new();
    out.push(line_of(label("Network device detected:"), &[]));
    let mut l: Vec<u8> = Vec::new();
    append(&mut l, kind_name(d.kind));
    append(&mut l, label("  VID:0x"));
    write_hex16(&mut l, d.vendor_id);
    append(&mut l, label("  DID:0x"));
    write_hex16(&mut l, d.device_id);
    out.push(l);
    let mut st: Vec<u8> = Vec::new();
    append(&mut st, label("Driver: "));
    append(&mut st, state_name(d.state));
    if d.driver_online {
        append(&mut st, label(" (online)"));
    } else {
        append(&mut st, label(" (offline)"));
    }
    out.push(st);
    let mut io: Vec<u8> = Vec::new();
    append(&mut io, label("IO:0x"));
    write_hex16(&mut io, d.io_base);
    append(&mut io, label("  IRQ:0x"));
    write_hex8(&mut io, d.irq_line);
    out.push(io);
    let ghost info = out@.map_values(|l: Vec<u8>| l@);
    let with_mac = mac_set(&d.mac);
    if with_mac {
        let mut m: Vec<u8> = Vec::new();
        append(&mut m, label("MAC: "));
        write_mac(&mut m, &d.mac);
        out.push(m);
    }
    let ghost before_tail = out@.map_values(|l: Vec<u8>| l@);
    let ready = d.state == NetState::Ready;
    if begins_with(url, label("https://")) {
        out.push(line_of(label("HTTPS requested."), &[]));
        if ready {
            out.push(line_of(label("NIC driver is ready."), &[]));
        } else {
            out.push(line_of(label("NIC exists but driver init failed."), &[]));
        }
        out.push(line_of(label("TLS + TCP/IP stack is not implemented yet."), &[]));
    } else if begins_with(url, label("http://")) {
        out.push(line_of(label("HTTP requested."), &[]));
        if ready {
            out.push(line_of(label("NIC driver is ready."), &[]));
        } else {
            out.push(line_of(label("NIC exists but driver init failed."), &[]));
        }
        out.push(line_of(label("TCP/IP + DNS + HTTP parser are still in progress."), &[]));
    } else {
        out.push(line_of(label("Type URL starting with http:// or https://"), &[]));
    }
    proof {
        let e = Seq::<u8>::empty();
        assert(lit("Network device detected:") + e =~= lit("Network device detected:"));
        assert(lit("HTTPS requested.") + e =~= lit("HTTPS requested."));
        assert(lit("HTTP requested.") + e =~= lit("HTTP requested."));
        assert(lit("NIC driver is ready.") + e =~= lit("NIC driver is ready."));
        assert(lit("NIC exists but driver init failed.") + e =~= lit("NIC exists but driver init failed."));
        assert(lit("TLS + TCP/IP stack is not implemented yet.") + e =~= lit(
            "TLS + TCP/IP stack is not implemented yet.",
        ));
        assert(lit("TCP/IP + DNS + HTTP parser are still in progress.") + e =~= lit(
            "TCP/IP + DNS + HTTP parser are still in progress.",
        ));
        assert(lit("Type URL starting with http:// or https://") + e =~= lit(
            "Type URL starting with http:// or https://",
        ));
        assert(out@.map_values(|l: Vec<u8>| l@) =~= device_lines(url@, *d));
    }
    out
}


impl Browser {
    /// A hidden browser with no place yet, its address set to
    /// `https://example.com` and an empty page.
    pub fn new(fb: &Framebuffer) -> (b: Browser)
        ensures
            b@.wf(),
            !b@.visible,
            b@.win_x == 0 && b@.win_y == 0 && b@.win_w == 0 && b@.win_h == 0,
            b@.url == lit("https://example.com"),
            b@.lines == Seq::<Seq<u8>>::empty(),
            b@.scroll == 0,
    {
        proof {
            reveal_strlit("https://example.com");
        }
        let mut url: Vec<u8> = Vec::new();
        append(&mut url, label("https://example.com"));
        let b = Browser { visible: false, win_x: 0, win_y: 0, win_w: 0, win_h: 0, url, lines: Vec::new(), scroll: 0 };
        proof {
            assert(b@.url =~= lit("https://example.com"));
            assert(b@.lines =~= Seq::<Seq<u8>>::empty());
        }
        b
    }

    /// Whether the window is shown.
    pub fn is_visible(&self) -> (r: bool)
        ensures
            r == self@.visible,
    {
        self.visible
    }

    /// The address being typed.
    pub fn url_text(&self) -> (r: &[u8])
        ensures
            r@ == self@.url,
    {
        self.url.as_slice()
    }

    /// The lines of the page shown.
    pub fn page_lines(&self) -> (r: &[Vec<u8>])
        ensures
            r@.map_values(|l: Vec<u8>| l@) == self@.lines,
    {
        self.lines.as_slice()
    }

    /// Adds a page line (see `pushed`).
    fn push_bytes(&mut self, bytes: &[u8])
        requires
            old(self)@.wf(),
            ascii(bytes@),
        ensures
            final(self)@.wf(),
            final(self)@ == (BrowserView { lines: pushed(old(self)@.lines, bytes@), ..old(self)@ }),
    {
        let len = if bytes.len() < MAX_COLS { bytes.len() } else { MAX_COLS };
        let mut line: Vec<u8> = Vec::new();
        let mut i: usize = 0;
        while i < len
            invariant
                i <= len <= bytes@.len(),
                len <= MAX_COLS,
                line@ == bytes@.take(i as int),
            decreases len - i,
        {
            line.push(bytes[i]);
            i = i + 1;
            proof {
                assert(bytes@.take(i as int) =~= bytes@.take(i - 1).push(bytes@[i - 1]));
            }
        }
        proof {
            if bytes@.len() > MAX_COLS {
                assert(line@ =~= cap_line(bytes@));
            } else {
                assert(line@ =~= bytes@);
            }
        }
        let ghost before = self.lines@;
        if self.lines.len() >= MAX_LINES {
            self.lines.remove(0);
        }
        self.lines.push(line);
        proof {
            if before.len() >= MAX_LINES {
                assert(self@.lines =~= pushed(before.map_values(|l: Vec<u8>| l@), bytes@));
            } else {
                assert(self@.lines =~= pushed(before.map_values(|l: Vec<u8>| l@), bytes@));
            }
        }
    }

    /// Shows the page for the current address (see `page`), from its top.
    #[verifier::rlimit(40)]
    fn navigate_current(&mut self, devices: &[NetDevice])
        requires
            old(self)@.wf(),
        ensures
            final(self)@.wf(),
            final(self)@ == old(self)@.navigated(devices@),
    {
        proof {
            reveal_strlit("HouseOS Browser");
            reveal_strlit("----------------");
            reveal_strlit("URL: ");
            reveal_strlit("No network adapter detected.");
            reveal_strlit("Check QEMU NIC or PCI passthrough.");
        }
        self.lines = Vec::new();
        self.scroll = 0;
        let mut all: Vec<Vec<u8>> = Vec::new();
        all.push(line_of(label("HouseOS Browser"), &[]));
        all.push(line_of(label("----------------"), &[]));
        all.push(line_of(label("URL: "), self.url.as_slice()));
        if devices.len() == 0 {
            all.push(line_of(label("No network adapter detected."), &[]));
            all.push(line_of(label("Check QEMU NIC or PCI passthrough."), &[]));
        } else {
            let mut rep = device_report(self.url.as_slice(), &devices[0]);
            let ghost a0 = all@;
            all.append(&mut rep);
            proof {
                assert(all@.map_values(|l: Vec<u8>| l@) =~= a0.map_values(|l: Vec<u8>| l@) + device_lines(
                    self.url@,
                    devices@[0],
                ));
            }
        }
        let ghost whole = all@.map_values(|l: Vec<u8>| l@);
        proof {
            let e = Seq::<u8>::empty();
            assert(lit("HouseOS Browser") + e =~= lit("HouseOS Browser"));
            assert(lit("----------------") + e =~= lit("----------------"));
            assert(lit("No network adapter detected.") + e =~= lit("No network adapter detected."));
            assert(lit("Check QEMU NIC or PCI passthrough.") + e =~= lit("Check QEMU NIC or PCI passthrough."));
            assert(whole.map_values(|s: Seq<u8>| cap_line(s)) =~= page(self.url@, devices@));
            assert(self@.lines =~= Seq::<Seq<u8>>::empty());
            assert(whole.take(0).map_values(|s: Seq<u8>| cap_line(s)) =~= Seq::<Seq<u8>>::empty());
        }
        let mut i: usize = 0;
        while i < all.len()
            invariant
                i <= all@.len() <= 11,
                whole == all@.map_values(|l: Vec<u8>| l@),
                forall|j: int| 0 <= j < all@.len() ==> ascii(#[trigger] all@[j]@),
                self@.wf(),
                self@ == (BrowserView {
                    lines: whole.take(i as int).map_values(|s: Seq<u8>| cap_line(s)),
                    scroll: 0,
                    ..old(self)@
                }),
            decreases all@.len() - i,
        {
            self.push_bytes(all[i].as_slice());
            i = i + 1;
            proof {
                assert(whole.take(i as int).map_values(|s: Seq<u8>| cap_line(s)) =~= whole.take(i - 1).map_values(
                    |s: Seq<u8>| cap_line(s),
                ).push(cap_line(whole[i - 1])));
            }
        }
        proof {
            assert(whole.take(all@.len() as int) =~= whole);
        }
    }

    /// Shows the window (see `shown`); `devices` are the network adapters
    /// found, for the first page.
    pub fn show(&mut self, fb: &Framebuffer, devices: &[NetDevice])
        requires
            old(self)@.wf(),
            fb.width <= COORD_MAX,
            fb.height <= COORD_MAX,
        ensures
            final(self)@.wf(),
            final(self)@ == old(self)@.shown(fb.width as int, fb.height as int, devices@),
    {
        self.visible = true;
        if self.win_w == 0 || self.win_h == 0 {
            let (x, y, w, h) = calc_rect(fb);
            self.win_x = x;
            self.win_y = y;
            self.win_w = w;
            self.win_h = h;
        }
        if self.lines.len() == 0 {
            self.navigate_current(devices);
        }
    }

    /// Hides the window.
    pub fn hide_window(&mut self)
        ensures
            final(self)@ == (BrowserView { visible: false, ..old(self)@ }),
    {
        self.visible = false;
    }

    /// The window rectangle: the default one while it has no size.
    pub fn rect(&self, fb: &Framebuffer) -> (r: (usize, usize, usize, usize))
        requires
            fb.width <= COORD_MAX,
            fb.height <= COORD_MAX,
        ensures
            (r.0 as int, r.1 as int, r.2 as int, r.3 as int) == self@.rect_on(fb.width as int, fb.height as int),
    {
        if self.win_w == 0 || self.win_h == 0 {
            return calc_rect(fb);
        }
        (self.win_x, self.win_y, self.win_w, self.win_h)
    }

    /// Moves the window.
    pub fn set_pos(&mut self, x: usize, y: usize)
        ensures
            final(self)@ == (BrowserView { win_x: x, win_y: y, ..old(self)@ }),
    {
        self.win_x = x;
        self.win_y = y;
    }

    /// Moves and resizes the window.
    pub fn set_rect(&mut self, x: usize, y: usize, w: usize, h: usize)
        ensures
            final(self)@ == (BrowserView { win_x: x, win_y: y, win_w: w, win_h: h, ..old(self)@ }),
    {
        self.win_x = x;
        self.win_y = y;
        self.win_w = w;
        self.win_h = h;
    }

    fn scroll_up(&mut self)
        ensures
            final(self)@ == old(self)@.scrolled_up(),
    {
        if self.scroll > 0 {
            self.scroll = self.scroll - 1;
        }
    }

    fn scroll_down(&mut self, fb: &Framebuffer)
        requires
            fb.width <= COORD_MAX,
            fb.height <= COORD_MAX,
        ensures
            final(self)@ == old(self)@.scrolled_down(fb.width as int, fb.height as int),
    {
        let (_, _, _, h) = self.rect(fb);
        let text_h = h.saturating_sub(HEADER_H + 52);
        let fit = text_h / LINE_HEIGHT;
        let max_lines = if fit > 1 { fit } else { 1 };
        let max_scroll = self.lines.len().saturating_sub(max_lines);
        if self.scroll < max_scroll {
            self.scroll = self.scroll + 1;
        }
    }

    /// A click at `(x, y)` while shown (see `clicked`); `devices` are the
    /// network adapters found. The caller redraws.
    pub fn handle_click(&mut self, fb: &Framebuffer, x: usize, y: usize, devices: &[NetDevice]) -> (r: bool)
        requires
            old(self)@.wf(),
            fb.width <= COORD_MAX,
            fb.height <= COORD_MAX,
            old(self)@.visible ==> {
                let rc = old(self)@.rect_on(fb.width as int, fb.height as int);
                window_fits(rc.0, rc.1, rc.2, rc.3)
            },
        ensures
            final(self)@.wf(),
            (r, final(self)@) == old(self)@.clicked(fb.width as int, fb.height as int, x as int, y as int, devices@),
    {
        if !self.visible {
            return false;
        }
        let (wx, wy, ww, wh) = self.rect(fb);
        let body_y = wy + HEADER_H + 2;
        let body_h = wh.saturating_sub(HEADER_H + 4);
        let url_y = body_y + PAD;
        let go_x = wx + ww.saturating_sub(PAD + GO_W);
        if hit(x, y, (go_x, url_y, GO_W, GO_H)) {
            self.navigate_current(devices);
            return true;
        }
        let scroll_x = wx + ww.saturating_sub(PAD + SCROLL_W);
        let scroll_y = url_y + GO_H + PAD;
        let scroll_h = body_h.saturating_sub((url_y - body_y) + GO_H + PAD + PAD);
        let up_rect = (scroll_x, scroll_y, SCROLL_W, BTN_H);
        let down_rect = (scroll_x, scroll_y + scroll_h.saturating_sub(BTN_H), SCROLL_W, BTN_H);
        if hit(x, y, up_rect) {
            self.scroll_up();
            return true;
        }
        if hit(x, y, down_rect) {
            self.scroll_down(fb);
            return true;
        }
        false
    }

    /// A typed byte (see `typed`); `devices` are the network adapters
    /// found.
    pub fn handle_char(&mut self, ch: u8, devices: &[NetDevice])
        requires
            old(self)@.wf(),
        ensures
            final(self)@.wf(),
            final(self)@ == old(self)@.typed(ch, devices@),
    {
        if !self.visible {
            return;
        }
        if ch == 10 {
            self.navigate_current(devices);
        } else if ch == 8 {
            if self.url.len() > 0 {
                self.url.pop();
            }
        } else if ch >= 32 && ch <= 126 {
            if self.url.len() < MAX_URL {
                self.url.push(ch);
            }
        }
    }
}

impl Browser {
    /// Draws the window: frame, gradient body, the address bar with its Go
    /// button, the page lines from the scroll position, and the scroll
    /// bar's buttons and track. The scroll position is first kept within
    /// the page. When the page is longer than the window, returns what the
    /// thumb is drawn from (its size and place are proportional, worked out
    /// by the caller). Nothing is drawn while hidden.
    #[verifier::rlimit(100)]
    #[verifier::spinoff_prover]
    pub fn redraw(&mut self, fb: &mut Framebuffer, ui: &UiSettings) -> (r: Option<ScrollThumb>)
        requires
            old(fb).wf(),
            old(self)@.wf(),
            old(self)@.visible ==> old(self)@.drawable(old(fb)),
        ensures
            final(fb).wf(),
            final(fb).same_shape(old(fb)),
            final(self)@.wf(),
            !old(self)@.visible ==> *final(fb) == *old(fb) && final(self)@ == old(self)@ && r.is_none(),
            old(self)@.visible ==> final(self)@ == (BrowserView {
                scroll: if old(self)@.scroll > old(self)@.max_scroll_on(old(fb).width as int, old(fb).height as int) {
                    old(self)@.max_scroll_on(old(fb).width as int, old(fb).height as int) as usize
                } else {
                    old(self)@.scroll
                },
                ..old(self)@
            }),
            old(self)@.visible ==> (r.is_some() <==> old(self)@.max_scroll_on(
                old(fb).width as int,
                old(fb).height as int,
            ) > 0),
            r matches Some(t) ==> {
                let rc = old(self)@.rect_on(old(fb).width as int, old(fb).height as int);
                let cx = rc.0 + 2;
                let cy = rc.1 + HEADER_H + 2;
                let text_y = cy + PAD + GO_H + PAD;
                let text_h = sat_sub(sat_sub(rc.3, HEADER_H + 4), PAD + GO_H + PAD + PAD);
                &&& t.x == cx + sat_sub(sat_sub(rc.2, 4), PAD + SCROLL_W)
                &&& t.track_y == text_y + BTN_H
                &&& t.track_h == sat_sub(text_h, BTN_H * 2)
                &&& t.max_lines == old(self)@.max_lines_on(old(fb).width as int, old(fb).height as int)
                &&& t.total_lines == old(self)@.lines.len()
                &&& t.max_scroll == old(self)@.max_scroll_on(old(fb).width as int, old(fb).height as int)
                &&& t.scroll == final(self)@.scroll
                &&& t.color == if ui.dark { 0x00777F8Au32 } else { 0x0093A9C0u32 }
            },
            ({
                let rc = old(self)@.rect_on(old(fb).width as int, old(fb).height as int);
                old(self)@.visible && title_fits(rc.0, rc.2, rc.3, old(fb).width as int, lit("Browser"))
                    ==> painted(*final(fb), rc.0 + 8, rc.1 + 14, 3, 14, ui.accent)
            }),
            old(self)@.visible ==> forall|j: int, qx: int, qy: int|
                final(self)@.scroll <= j < final(self)@.scroll + old(self)@.max_lines_on(
                    old(fb).width as int,
                    old(fb).height as int,
                ) && j < old(self)@.lines.len() && 0 <= qx < old(fb).width && 0 <= qy < old(fb).height && qx
                    < old(self)@.scroll_left(old(fb).width as int, old(fb).height as int)
                    && #[trigger] final(self)@.line_ink(old(fb).width as int, old(fb).height as int, j, qx, qy)
                    ==> final(fb).pixel(qx, qy) == if ui.dark { 0x00F2F5F8u32 } else { 0x00131A28u32 },
            old(self)@.visible ==> forall|qx: int, qy: int|
                0 <= qx < old(fb).width && 0 <= qy < old(fb).height && #[trigger] old(self)@.url_ink(
                    old(fb).width as int,
                    old(fb).height as int,
                    qx,
                    qy,
                ) ==> final(fb).pixel(qx, qy) == if ui.dark { 0x00F2F5F8u32 } else { 0x00131A28u32 },
            old(self)@.visible ==> forall|qx: int, qy: int|
                0 <= qx < old(fb).width && 0 <= qy < old(fb).height && #[trigger] old(self)@.go_ink(
                    old(fb).width as int,
                    old(fb).height as int,
                    qx,
                    qy,
                ) ==> final(fb).pixel(qx, qy) == if ui.dark { 0x00F2F5F8u32 } else { 0x00131A28u32 },
            ({
                let rc = old(self)@.rect_on(old(fb).width as int, old(fb).height as int);
                old(self)@.visible && title_fits(rc.0, rc.2, rc.3, old(fb).width as int, lit("Browser"))
                    ==> forall|qx: int, qy: int|
                    0 <= qx < old(fb).width && 0 <= qy < old(fb).height && #[trigger] text_ink(
                        old(fb).width as int,
                        rc.0 + 22,
                        rc.1 + 13,
                        lit("Browser"),
                        qx,
                        qy,
                    ) ==> final(fb).pixel(qx, qy) == title_color(ui.dark)
            }),
    {
        if !self.visible {
            return None;
        }
        let (x, y, w, h) = self.rect(fb);
        let ghost fw = fb.width as int;
        let ghost fh = fb.height as int;
        let ghost v0 = self@;
        let is_dark = ui.dark;
        proof {
            reveal_strlit("Browser");
            reveal_strlit("Go");
            reveal_strlit("^");
            reveal_strlit("v");
        }
        let title = label("Browser");
        let chrome = draw_window(fb, ui, x, y, w, h, title);
        let ghost framed = *fb;
        let ghost top = y + HEADER_H;
        let ghost stripe = (x + 8, y + 14, 3int, 14int);
        proof {
            assert forall|i: int| 0 <= i < title@.len() implies title@[i] != 10 by {
                assert(title@[i] == "Browser"@[i] as u8);
            }
        }
        let ghost s0 = *fb;
        fill_vertical_gradient(
            fb,
            chrome.content_x,
            chrome.content_y,
            chrome.content_w,
            chrome.content_h,
            if is_dark { 0x001D1D1D } else { 0x00FFFFFF },
            if is_dark { 0x00181818 } else { 0x00F6FAFF },
        );
        proof {
            let a = (chrome.content_x as int, chrome.content_y as int, chrome.content_w as int, chrome.content_h as int);
            assert(kept_outside(s0, *fb, a.0, a.1, a.2, a.3));
            lemma_above_rect(framed, s0, *fb, top, a);
        }
        let mut writer = TextWriter::new(fb);
        let text_color: u32 = if is_dark { 0x00F2F5F8 } else { 0x00131A28 };
        let detail: u32 = if is_dark { 0x00B7C0CC } else { 0x004D5D72 };

        let url_y = chrome.content_y + PAD;
        let go_x = chrome.content_x + chrome.content_w.saturating_sub(PAD + GO_W);
        let url_x = chrome.content_x + PAD;
        let url_w = go_x.saturating_sub(url_x + 8);
        let ghost s1 = *fb;
        fill_rect(fb, url_x, url_y, url_w, GO_H, if is_dark { 0x002C333D } else { 0x00EAF1FA });
        proof {
            let a = (url_x as int, url_y as int, url_w as int, GO_H as int);
            lemma_fill_frame(s1, *fb, a.0, a.1, a.2, a.3, if is_dark { 0x002C333Du32 } else { 0x00EAF1FAu32 });
            lemma_above_rect(framed, s1, *fb, top, a);
        }
        let ghost s2 = *fb;
        fill_rect(fb, url_x, url_y, url_w, 1, if is_dark { 0x00424D5D } else { 0x00B8CCE6 });
        proof {
            let a = (url_x as int, url_y as int, url_w as int, 1int);
            lemma_fill_frame(s2, *fb, a.0, a.1, a.2, a.3, if is_dark { 0x00424D5Du32 } else { 0x00B8CCE6u32 });
            lemma_above_rect(framed, s2, *fb, top, a);
        }
        let ghost s3 = *fb;
        fill_rect(fb, url_x, url_y + (GO_H - 1), url_w, 1, if is_dark { 0x00424D5D } else { 0x00B8CCE6 });
        proof {
            let a = (url_x as int, url_y + (GO_H - 1), url_w as int, 1int);
            lemma_fill_frame(s3, *fb, a.0, a.1, a.2, a.3, if is_dark { 0x00424D5Du32 } else { 0x00B8CCE6u32 });
            lemma_above_rect(framed, s3, *fb, top, a);
        }
        let ghost s5 = *fb;
        fill_vertical_gradient(
            fb,
            go_x,
            url_y,
            GO_W,
            GO_H,
            if is_dark { 0x00494848 } else { 0x00EAF0F8 },
            if is_dark { 0x003F3F3F } else { 0x00D8E2EE },
        );
        proof {
            let a = (go_x as int, url_y as int, GO_W as int, GO_H as int);
            assert(kept_outside(s5, *fb, a.0, a.1, a.2, a.3));
            lemma_above_rect(framed, s5, *fb, top, a);
        }
        writer.set_color(text_color);
        writer.set_pos(go_x + 11, url_y + 6);
        let ghost t1 = *fb;
        let ghost ty1 = writer.y as int;
        let go = label("Go");
        writer.write_bytes(fb, go);
        proof {
            lemma_above_ink(framed, t1, *fb, top, writer.fg, ty1, writer.y + 8);
        }
        let ghost gone = *fb;

        writer.set_color(text_color);
        writer.set_pos(url_x + 6, url_y + 6);
        let max_url = url_w.saturating_sub(12) / 8;
        let len = if self.url.len() < max_url { self.url.len() } else { max_url };
        let shown = slice_subrange(self.url.as_slice(), 0, len);
        proof {
            assert forall|i: int| 0 <= i < shown@.len() implies shown@[i] < 128 by {
                assert(shown@[i] == self.url@[i]);
            }
        }
        let ghost t2 = *fb;
        let ghost ty2 = writer.y as int;
        writer.write_bytes(fb, shown);
        proof {
            lemma_above_ink(framed, t2, *fb, top, writer.fg, ty2, writer.y + 8);
        }
        let ghost urlled = *fb;
        let ghost bar = v0.bar_places(fw, fh);
        proof {
            assert(bar == (url_x as int, url_y as int, go_x as int));
            assert(shown@ == v0.url_shown(fw, fh));
            let a = sat_sub(sat_sub(bar.2, bar.0 + 8), 12);
            assert(8 * (a / 8) <= a) by (nonlinear_arith)
                requires
                    a >= 0,
            ;
            assert forall|qx: int, qy: int|
                0 <= qx < fw && 0 <= qy < fh && #[trigger] v0.go_ink(fw, fh, qx, qy) implies urlled.pixel(qx, qy)
                    == text_color by {
                lemma_one_line_ink(fw, bar.2 + 11, bar.1 + 6, lit("Go"), qx, qy);
                assert(gone.pixel(qx, qy) == text_color);
                assert(t2.pixel(qx, qy) == text_color);
            }
            assert(kept_above(urlled, urlled, (url_y + GO_H + PAD) as int));
        }

        let text_x = chrome.content_x + PAD;
        let text_y = url_y + GO_H + PAD;
        let text_h = chrome.content_h.saturating_sub((text_y - chrome.content_y) + PAD);
        let fit = text_h / LINE_HEIGHT;
        let max_lines = if fit > 1 { fit } else { 1 };
        let count = self.lines.len();
        let max_scroll = count.saturating_sub(max_lines);
        if self.scroll > max_scroll {
            self.scroll = max_scroll;
        }
        let start = self.scroll;
        let end = if start + max_lines < count { start + max_lines } else { count };
        writer.set_color(text_color);
        let mut i: usize = start;
        while i < end
            invariant
                fb.wf(),
                fb.same_shape(old(fb)),
                start <= i <= end <= count,
                count == self.lines@.len(),
                end - start <= MAX_LINES,
                old(self)@.wf(),
                self.lines == old(self).lines,
                text_x <= COORD_MAX + 64,
                text_y <= COORD_MAX + 200,
                writer.width == fb.width,
                writer.width <= COORD_MAX,
                framed.same_shape(old(fb)),
                text_y >= top,
                kept_above(framed, *fb, top),
                urlled.same_shape(old(fb)),
                kept_above(urlled, *fb, text_y as int),
                self@.scroll == start,
                self@.lines == old(self)@.lines,
                self@.rect_on(fb.width as int, fb.height as int) == old(self)@.rect_on(fb.width as int, fb.height as int),
                (text_x as int, text_y as int) == self@.text_origin(fb.width as int, fb.height as int),
                writer.fg == text_color,
                forall|j: int, qx: int, qy: int|
                    start <= j < i && 0 <= qx < fb.width && 0 <= qy < fb.height
                        && #[trigger] self@.line_ink(fb.width as int, fb.height as int, j, qx, qy) ==> fb.pixel(qx, qy)
                        == text_color,
            decreases end - i,
        {
            writer.set_pos(text_x, text_y + (i - start) * LINE_HEIGHT);
            proof {
                assert(self@.lines[i as int] == self.lines@[i as int]@);
            }
            let ghost t3 = *fb;
            let ghost ty3 = writer.y as int;
            writer.write_bytes(fb, self.lines[i].as_slice());
            proof {
                lemma_above_ink(framed, t3, *fb, top, writer.fg, ty3, writer.y + 8);
                lemma_above_ink(urlled, t3, *fb, text_y as int, writer.fg, ty3, writer.y + 8);
                assert forall|j: int, qx: int, qy: int|
                    start <= j < i + 1 && 0 <= qx < fb.width && 0 <= qy < fb.height
                        && #[trigger] self@.line_ink(fb.width as int, fb.height as int, j, qx, qy) implies fb.pixel(
                        qx,
                        qy,
                    ) == text_color by {
                    assert(t3.pixel(qx, qy) == t3.pixel(qx, qy));
                }
            }
            i = i + 1;
        }

        let ghost lined = *fb;
        let scroll_x = chrome.content_x + chrome.content_w.saturating_sub(PAD + SCROLL_W);
        let scroll_y = text_y;
        let scroll_h = text_h;
        let ghost s4 = *fb;
        fill_rect(fb, scroll_x, scroll_y, SCROLL_W, scroll_h, if is_dark { 0x00323232 } else { 0x00E1EAF5 });
        proof {
            let a = (scroll_x as int, scroll_y as int, SCROLL_W as int, scroll_h as int);
            lemma_fill_frame(s4, *fb, a.0, a.1, a.2, a.3, if is_dark { 0x00323232u32 } else { 0x00E1EAF5u32 });
            lemma_above_rect(framed, s4, *fb, top, a);
            lemma_above_rect(urlled, s4, *fb, text_y as int, a);
        }
        let ghost s6 = *fb;
        fill_vertical_gradient(
            fb,
            scroll_x,
            scroll_y,
            SCROLL_W,
            BTN_H,
            if is_dark { 0x00484848 } else { 0x00D8E2EE },
            if is_dark { 0x003E3E3E } else { 0x00CBD8E8 },
        );
        proof {
            let a = (scroll_x as int, scroll_y as int, SCROLL_W as int, BTN_H as int);
            assert(kept_outside(s6, *fb, a.0, a.1, a.2, a.3));
            lemma_above_rect(framed, s6, *fb, top, a);
            lemma_above_rect(urlled, s6, *fb, text_y as int, a);
        }
        let ghost s7 = *fb;
        fill_vertical_gradient(
            fb,
            scroll_x,
            scroll_y + scroll_h.saturating_sub(BTN_H),
            SCROLL_W,
            BTN_H,
            if is_dark { 0x00484848 } else { 0x00D8E2EE },
            if is_dark { 0x003E3E3E } else { 0x00CBD8E8 },
        );
        proof {
            let a = (scroll_x as int, scroll_y + scroll_h.saturating_sub(BTN_H), SCROLL_W as int, BTN_H as int);
            assert(kept_outside(s7, *fb, a.0, a.1, a.2, a.3));
            lemma_above_rect(framed, s7, *fb, top, a);
            lemma_above_rect(urlled, s7, *fb, text_y as int, a);
        }
        writer.set_color(detail);
        writer.set_pos(scroll_x + 4, scroll_y + 3);
        let ghost t4 = *fb;
        let ghost ty4 = writer.y as int;
        let up = label("^");
        writer.write_bytes(fb, up);
        proof {
            lemma_above_ink(framed, t4, *fb, top, writer.fg, ty4, writer.y + 8);
            lemma_above_ink(urlled, t4, *fb, text_y as int, writer.fg, ty4, writer.y + 8);
        }
        writer.set_pos(scroll_x + 4, scroll_y + scroll_h.saturating_sub(BTN_H - 3));
        let ghost t5 = *fb;
        let ghost ty5 = writer.y as int;
        let ghost tx5 = writer.x as int;
        let down = label("v");
        writer.write_bytes(fb, down);
        proof {
            lemma_above_ink(framed, t5, *fb, top, writer.fg, ty5, writer.y + 8);
            lemma_above_ink(urlled, t5, *fb, text_y as int, writer.fg, ty5, writer.y + 8);
        }

        proof {
            if title_fits(x as int, w as int, h as int, old(fb).width as int, title@) {
                lemma_above_painted(framed, *fb, top, stripe, ui.accent);
                assert forall|qx: int, qy: int|
                    0 <= qx < fw && 0 <= qy < fh && #[trigger] text_ink(fw, x + 22, y + 13, lit("Browser"), qx, qy)
                        implies fb.pixel(qx, qy) == title_color(ui.dark) by {
                    lemma_one_line_ink(fw, x + 22, y + 13, title@, qx, qy);
                    assert(framed.pixel(qx, qy) == title_color(ui.dark));
                }
            }
            assert forall|qx: int, qy: int|
                0 <= qx < fw && 0 <= qy < fh && #[trigger] v0.url_ink(fw, fh, qx, qy) implies fb.pixel(qx, qy)
                    == text_color by {
                lemma_one_line_ink(fw, bar.0 + 6, bar.1 + 6, v0.url_shown(fw, fh), qx, qy);
                assert(urlled.pixel(qx, qy) == text_color);
            }
            assert forall|qx: int, qy: int|
                0 <= qx < fw && 0 <= qy < fh && #[trigger] v0.go_ink(fw, fh, qx, qy) implies fb.pixel(qx, qy)
                    == text_color by {
                lemma_one_line_ink(fw, bar.2 + 11, bar.1 + 6, lit("Go"), qx, qy);
                assert(urlled.pixel(qx, qy) == text_color);
            }
            assert forall|j: int, qx: int, qy: int|
                start <= j < end && 0 <= qx < fb.width && 0 <= qy < fb.height && qx < scroll_x
                    && #[trigger] self@.line_ink(fb.width as int, fb.height as int, j, qx, qy) implies fb.pixel(
                    qx,
                    qy,
                ) == text_color by {
                assert(lined.pixel(qx, qy) == text_color);
                assert(s4.pixel(qx, qy) == s4.pixel(qx, qy));
                assert(s6.pixel(qx, qy) == s6.pixel(qx, qy));
                assert(s7.pixel(qx, qy) == s7.pixel(qx, qy));
                lemma_ink_one_char(fb.width as int, (scroll_x + 4) as int, (scroll_y + 3) as int, up@, qx, qy);
                assert(t4.pixel(qx, qy) == t4.pixel(qx, qy));
                lemma_ink_one_char(fb.width as int, tx5, ty5, down@, qx, qy);
                assert(t5.pixel(qx, qy) == t5.pixel(qx, qy));
            }
        }
        if max_scroll > 0 {
            Some(
                ScrollThumb {
                    x: scroll_x,
                    track_y: scroll_y + BTN_H,
                    track_h: scroll_h.saturating_sub(BTN_H * 2),
                    max_lines,
                    total_lines: count,
                    scroll: self.scroll,
                    max_scroll,
                    color: if is_dark { 0x00777F8A } else { 0x0093A9C0 },
                },
            )
        } else {
            None
        }
    }
}

/// Typing a printable byte into a shown browser's address and then
/// backspace gives the address back, while it has room for the byte.
pub proof fn lemma_backspace_undoes_char(b: BrowserView, ch: u8, devs: Seq<NetDevice>)
    requires
        b.visible,
        32 <= ch <= 126,
        b.url.len() < MAX_URL,
    ensures
        b.typed(ch, devs).typed(8, devs) == b,
{
    assert(b.url.push(ch).drop_last() =~= b.url);
}

} // verus!
