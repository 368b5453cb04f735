use vstd::prelude::*;
use crate::display::{Framebuffer, fill_rect, kept_above, painted, put_pixel};
use crate::system::UiSettings;
use crate::text::{ascii, lemma_one_line_ink, one_line, text_ink, TextWriter, COORD_MAX};
use crate::textfmt::lit;

verus! {

pub const LINE_HEIGHT: usize = 36;
pub const PAD: usize = 16;
/// Height of the bar the menu sits above.
pub const BAR_H: usize = 26;
pub const ICON_SIZE: usize = 18;
pub const CORNER_RADIUS: usize = 16;
pub const MENU_W: usize = 280;
pub const MENU_H: usize = 380;

/// What a menu entry asks for.
#[derive(Debug, Copy, Clone, PartialEq, Eq, Structural)]
pub enum StartAction {
    OpenConsole,
    OpenExplorer,
    OpenClipboard,
    OpenBin,
    OpenCalculator,
    ToggleTheme,
    Reboot,
    Shutdown,
}

/// The start menu: a rounded panel of entries above the bar.
pub struct StartMenu {
    visible: bool,
    win_x: usize,
    win_y: usize,
    win_w: usize,
    win_h: usize,
}

/// A start menu's state as plain values.
pub struct MenuView {
    pub visible: bool,
    pub win_x: usize,
    pub win_y: usize,
    pub win_w: usize,
    pub win_h: usize,
}

impl View for StartMenu {
    type V = MenuView;

    closed spec fn view(&self) -> MenuView {
        MenuView {
            visible: self.visible,
            win_x: self.win_x,
            win_y: self.win_y,
            win_w: self.win_w,
            win_h: self.win_h,
        }
    }
}

/// The menu's place: near the bottom-left corner, above the bar.
pub open spec fn menu_rect_spec(fh: int) -> (int, int, int, int) {
    let y = if fh >= MENU_H + BAR_H + 20 { fh - (MENU_H + BAR_H + 20) } else { 0 };
    (20, y, MENU_W as int, MENU_H as int)
}

fn calc_rect(fb: &Framebuffer) -> (r: (usize, usize, usize, usize))
    ensures
        (r.0 as int, r.1 as int, r.2 as int, r.3 as int) == menu_rect_spec(fb.height as int),
{
    (20, fb.height.saturating_sub(MENU_H + BAR_H + 20), MENU_W, MENU_H)
}

/// The entry on row `row` of the menu: five places, a separator, then the
/// theme switch, restart and shutdown.
pub open spec fn row_action(row: int) -> Option<StartAction> {
    if row == 0 {
        Some(StartAction::OpenConsole)
    } else if row == 1 {
        Some(StartAction::OpenExplorer)
    } else if row == 2 {
        Some(StartAction::OpenClipboard)
    } else if row == 3 {
        Some(StartAction::OpenBin)
    } else if row == 4 {
        Some(StartAction::OpenCalculator)
    } else if row == 6 {
        Some(StartAction::ToggleTheme)
    } else if row == 7 {
        Some(StartAction::Reboot)
    } else if row == 8 {
        Some(StartAction::Shutdown)
    } else {
        None
    }
}

impl MenuView {
    /// The menu rectangle on a screen `fh` pixels high.
    pub open spec fn rect_on(self, fh: int) -> (int, int, int, int) {
        if self.win_w == 0 {
            menu_rect_spec(fh)
        } else {
            (self.win_x as int, self.win_y as int, self.win_w as int, self.win_h as int)
        }
    }

    /// The entry under `(x, y)`: rows of `LINE_HEIGHT` pixels from `PAD`
    /// below the top, across the menu's width.
    pub open spec fn action_at(self, fh: int, x: int, y: int) -> Option<StartAction> {
        let r = self.rect_on(fh);
        let list_y = r.1 + PAD;
        if r.0 <= x < r.0 + r.2 && y >= list_y {
            row_action((y - list_y) / LINE_HEIGHT as int)
        } else {
            None
        }
    }
}

/// Whether `(dx, dy)` lies in a `w * h` rectangle with corners rounded to
/// radius `r`.
pub open spec fn inside_rounded(dx: int, dy: int, w: int, h: int, r: int) -> bool {
    let rr = r * r;
    if dx < r && dy < r {
        (dx - r) * (dx - r) + (dy - r) * (dy - r) <= rr
    } else if dx >= w - r && dy < r {
        (dx - (w - r)) * (dx - (w - r)) + (dy - r) * (dy - r) <= rr
    } else if dx < r && dy >= h - r {
        (dx - r) * (dx - r) + (dy - (h - r)) * (dy - (h - r)) <= rr
    } else if dx >= w - r && dy >= h - r {
        (dx - (w - r)) * (dx - (w - r)) + (dy - (h - r)) * (dy - (h - r)) <= rr
    } else {
        true
    }
}

/// The square of `a`, for a value well inside the `i64` range.
fn sq(a: i64) -> (r: i64)
    requires
        -0x1000_0000 <= a <= 0x1000_0000,
    ensures
        r == a * a,
        0 <= r <= 0x100_0000_0000_0000,
{
    assert(0 <= a * a <= 0x1000_0000 * 0x1000_0000) by (nonlinear_arith)
        requires
            -0x1000_0000 <= a <= 0x1000_0000,
    ;
    a * a
}

/// Whether `(dx, dy)` lies in the rounded rectangle (see `inside_rounded`).
fn is_inside_rounded(dx: usize, dy: usize, w: usize, h: usize, r: usize) -> (b: bool)
    requires
        r <= w <= COORD_MAX,
        r <= h <= COORD_MAX,
        dx <= 2 * COORD_MAX,
        dy <= 2 * COORD_MAX,
    ensures
        b == inside_rounded(dx as int, dy as int, w as int, h as int, r as int),
{
    let x = dx as i64;
    let y = dy as i64;
    let ri = r as i64;
    let rr = sq(ri);
    if dx < r && dy < r {
        return sq(x - ri) + sq(y - ri) <= rr;
    }
    let wr = (w - r) as i64;
    let hr = (h - r) as i64;
    if dx >= w - r && dy < r {
        return sq(x - wr) + sq(y - ri) <= rr;
    }
    if dx < r && dy >= h - r {
        return sq(x - ri) + sq(y - hr) <= rr;
    }
    if dx >= w - r && dy >= h - r {
        return sq(x - wr) + sq(y - hr) <= rr;
    }
    true
}

/// Whether pixel `(qx, qy)` is in the rounded rectangle of size `w * h` at
/// `(x, y)`.
pub open spec fn in_rounded(x: int, y: int, w: int, h: int, r: int, qx: int, qy: int) -> bool {
    x <= qx < x + w && y <= qy < y + h && inside_rounded(qx - x, qy - y, w, h, r)
}

/// Fills a rounded rectangle (the part on screen).
fn draw_rounded_rect(fb: &mut Framebuffer, x: usize, y: usize, w: usize, h: usize, radius: usize, color: u32)
    requires
        old(fb).wf(),
        radius <= w <= COORD_MAX,
        radius <= h <= COORD_MAX,
        x <= 2 * COORD_MAX,
        y <= 2 * COORD_MAX,
    ensures
        final(fb).wf(),
        final(fb).same_shape(old(fb)),
        forall|qx: int, qy: int|
            0 <= qx < old(fb).width && 0 <= qy < old(fb).height ==> #[trigger] final(fb).pixel(qx, qy) == if in_rounded(
                x as int,
                y as int,
                w as int,
                h as int,
                radius as int,
                qx,
                qy,
            ) {
                color
            } else {
                old(fb).pixel(qx, qy)
            },
{
    let ghost old_fb = *fb;
    let mut dy: usize = 0;
    while dy < h
        invariant
            fb.wf(),
            fb.same_shape(&old_fb),
            old_fb.wf(),
            radius <= w <= COORD_MAX,
            radius <= h <= COORD_MAX,
            x <= 2 * COORD_MAX,
            y <= 2 * COORD_MAX,
            dy <= h,
            forall|qx: int, qy: int|
                0 <= qx < old_fb.width && 0 <= qy < old_fb.height ==> #[trigger] fb.pixel(qx, qy) == if x <= qx
                    < x + w && y <= qy < y + dy && inside_rounded(qx - x, qy - y, w as int, h as int, radius as int) {
                    color
                } else {
                    old_fb.pixel(qx, qy)
                },
        decreases h - dy,
    {
        let ghost row_start = *fb;
        let mut dx: usize = 0;
        while dx < w
            invariant
                fb.wf(),
                fb.same_shape(&old_fb),
                old_fb.wf(),
                radius <= w <= COORD_MAX,
                radius <= h <= COORD_MAX,
                x <= 2 * COORD_MAX,
                y <= 2 * COORD_MAX,
                dy < h,
                dx <= w,
                forall|qx: int, qy: int|
                    0 <= qx < old_fb.width && 0 <= qy < old_fb.height ==> #[trigger] fb.pixel(qx, qy) == if qy
                        == y + dy && x <= qx < x + dx && inside_rounded(
                        qx - x,
                        qy - y,
                        w as int,
                        h as int,
                        radius as int,
                    ) {
                        color
                    } else {
                        row_start.pixel(qx, qy)
                    },
            decreases w - dx,
        {
            if is_inside_rounded(dx, dy, w, h, radius) {
                put_pixel(fb, x + dx, y + dy, color);
            }
            dx = dx + 1;
        }
        dy = dy + 1;
    }
}

/// Draws the outline, `thickness` pixels wide, of a rounded rectangle: the
/// pixels inside it but not inside the rectangle inset by `thickness`.
fn draw_rounded_rect_outline(
    fb: &mut Framebuffer,
    x: usize,
    y: usize,
    w: usize,
    h: usize,
    radius: usize,
    thickness: usize,
    color: u32,
)
    requires
        old(fb).wf(),
        radius <= w <= COORD_MAX,
        radius <= h <= COORD_MAX,
        radius + thickness <= w,
        radius + thickness <= h,
        thickness <= COORD_MAX,
        x <= COORD_MAX,
        y <= COORD_MAX,
    ensures
        final(fb).wf(),
        final(fb).same_shape(old(fb)),
{
    let iw = w.saturating_sub(2 * thickness);
    let ih = h.saturating_sub(2 * thickness);
    let ir = radius.saturating_sub(thickness);
    let mut dy: usize = 0;
    while dy < h
        invariant
            fb.wf(),
            fb.same_shape(old(fb)),
            radius <= w <= COORD_MAX,
            radius <= h <= COORD_MAX,
            ir <= iw <= COORD_MAX,
            ir <= ih <= COORD_MAX,
            thickness <= COORD_MAX,
            x <= COORD_MAX,
            y <= COORD_MAX,
            dy <= h,
        decreases h - dy,
    {
        let mut dx: usize = 0;
        while dx < w
            invariant
                fb.wf(),
                fb.same_shape(old(fb)),
                radius <= w <= COORD_MAX,
                radius <= h <= COORD_MAX,
                ir <= iw <= COORD_MAX,
                ir <= ih <= COORD_MAX,
                thickness <= COORD_MAX,
                x <= COORD_MAX,
                y <= COORD_MAX,
                dy < h,
                dx <= w,
            decreases w - dx,
        {
            let inside = is_inside_rounded(dx, dy, w, h, radius);
            let inside_inner = is_inside_rounded(dx + thickness, dy + thickness, iw, ih, ir);
            if inside && !inside_inner {
                put_pixel(fb, x + dx, y + dy, color);
            }
            dx = dx + 1;
        }
        dy = dy + 1;
    }
}

/// The label of the menu entry on row `row`; the theme entry names the mode
/// it switches to.
pub open spec fn entry_text(row: int, dark: bool) -> Seq<u8> {
    if row == 0 {
        lit("Console")
    } else if row == 1 {
        lit("Explorer")
    } else if row == 2 {
        lit("Clipboard")
    } else if row == 3 {
        lit("Recycle Bin")
    } else if row == 4 {
        lit("Calculator")
    } else if row == 6 {
        if dark {
            lit("Light Mode")
        } else {
            lit("Dark Mode")
        }
    } else if row == 7 {
        lit("Restart")
    } else {
        lit("Shutdown")
    }
}

/// The one-character icon in front of the entry on row `row`.
pub open spec fn entry_icon(row: int) -> Seq<u8> {
    if row == 0 {
        lit(">")
    } else if row == 1 {
        lit("#")
    } else if row == 2 {
        lit("@")
    } else if row == 3 {
        lit("%")
    } else if row == 4 {
        lit("C")
    } else if row == 6 {
        lit("T")
    } else if row == 7 {
        lit("R")
    } else {
        lit("S")
    }
}

/// The colour of the menu's labels.
pub open spec fn menu_text_color(dark: bool) -> u32 {
    if dark {
        0x00E0E0E0
    } else {
        0x00202020
    }
}

/// The colour of an entry's icon: the accent for the places above the
/// separator, grey for the system entries below it.
pub open spec fn menu_icon_color(row: int, accent: u32, dark: bool) -> u32 {
    if row < 5 {
        accent
    } else if dark {
        0x00808080
    } else {
        0x00707070
    }
}

/// The colour of the separator line.
pub open spec fn separator_color(dark: bool) -> u32 {
    if dark {
        0x00333333
    } else {
        0x00F0F0F0
    }
}

/// The row on which the text of entry `row` of a menu at `(x, y)` stands.
pub open spec fn entry_y(y: int, row: int) -> int {
    y + PAD + row * LINE_HEIGHT + 8
}

/// Whether the label of entry `row` of a menu at `(x, y)`, on a screen `fw`
/// pixels wide, lights `(qx, qy)`, where the label stays on one line.
pub open spec fn entry_ink(fw: int, x: int, y: int, row: int, dark: bool, qx: int, qy: int) -> bool {
    let tx = x + PAD + ICON_SIZE + 16;
    &&& one_line(fw, tx, entry_text(row, dark))
    &&& text_ink(fw, tx, entry_y(y, row), entry_text(row, dark), qx, qy)
}

/// Whether the icon of entry `row` of a menu at `(x, y)`, on a screen `fw`
/// pixels wide, lights `(qx, qy)`, where the icon stays on one line.
pub open spec fn icon_ink(fw: int, x: int, y: int, row: int, qx: int, qy: int) -> bool {
    let ix = x + PAD + 4;
    &&& one_line(fw, ix, entry_icon(row))
    &&& text_ink(fw, ix, entry_y(y, row), entry_icon(row), qx, qy)
}

/// Every pixel that the label and the icon of entry `row` light (see
/// `entry_ink`, `icon_ink`) has the label's and the icon's colour in `fb`.
pub open spec fn entry_shows(fb: Framebuffer, fw: int, x: int, y: int, row: int, dark: bool, accent: u32) -> bool {
    &&& forall|qx: int, qy: int|
        0 <= qx < fb.width && 0 <= qy < fb.height && #[trigger] entry_ink(fw, x, y, row, dark, qx, qy)
            ==> fb.pixel(qx, qy) == menu_text_color(dark)
    &&& forall|qx: int, qy: int|
        0 <= qx < fb.width && 0 <= qy < fb.height && #[trigger] icon_ink(fw, x, y, row, qx, qy)
            ==> fb.pixel(qx, qy) == menu_icon_color(row, accent, dark)
}

/// The label and the icon of an entry light pixels only in the 8 rows of
/// its text line, the icon left of the label.
proof fn lemma_entry_rows(fw: int, x: int, y: int, row: int, dark: bool, qx: int, qy: int)
    ensures
        entry_ink(fw, x, y, row, dark, qx, qy) ==> entry_y(y, row) <= qy < entry_y(y, row) + 8
            && qx >= x + PAD + ICON_SIZE + 16,
        icon_ink(fw, x, y, row, qx, qy) ==> entry_y(y, row) <= qy < entry_y(y, row) + 8
            && qx < x + PAD + 4 + 8 * entry_icon(row).len(),
{
    let tx = x + PAD + ICON_SIZE + 16;
    let ix = x + PAD + 4;
    if entry_ink(fw, x, y, row, dark, qx, qy) {
        lemma_one_line_ink(fw, tx, entry_y(y, row), entry_text(row, dark), qx, qy);
    }
    if icon_ink(fw, x, y, row, qx, qy) {
        lemma_one_line_ink(fw, ix, entry_y(y, row), entry_icon(row), qx, qy);
    }
}

/// The bytes of an ASCII literal, for the menu's labels.
fn label(s: &'static str) -> (b: &'static [u8])
    requires
        vstd::string::is_ascii(s),
    ensures
        ascii(b@),
        b@.len() == s@.len(),
        b@ == lit(s),
{
    crate::text::ascii_lit(s)
}

impl StartMenu {
    /// A hidden menu with no place yet.
    pub fn new(fb: &Framebuffer) -> (m: StartMenu)
        ensures
            m@ == (MenuView { visible: false, win_x: 0, win_y: 0, win_w: 0, win_h: 0 }),
    {
        StartMenu { visible: false, win_x: 0, win_y: 0, win_w: 0, win_h: 0 }
    }

    /// Whether the menu is shown.
    pub fn is_visible(&self) -> (r: bool)
        ensures
            r == self@.visible,
    {
        self.visible
    }

    /// Shows the menu at its place above the bar.
    pub fn show(&mut self, fb: &Framebuffer)
        ensures
            final(self)@ == ({
                let r = menu_rect_spec(fb.height as int);
                MenuView {
                    visible: true,
                    win_x: r.0 as usize,
                    win_y: r.1 as usize,
                    win_w: r.2 as usize,
                    win_h: r.3 as usize,
                }
            }),
    {
        self.visible = true;
        let (x, y, w, h) = calc_rect(fb);
        self.win_x = x;
        self.win_y = y;
        self.win_w = w;
        self.win_h = h;
    }

    /// Hides the menu.
    pub fn hide_window(&mut self, fb: &Framebuffer)
        ensures
            final(self)@ == (MenuView { visible: false, ..old(self)@ }),
    {
        self.visible = false;
    }

    /// The entry clicked at `(x, y)` while shown (see `action_at`).
    pub fn handle_click(&mut self, fb: &Framebuffer, x: usize, y: usize) -> (r: Option<StartAction>)
        requires
            old(self)@.visible ==> old(self)@.rect_on(fb.height as int).0 + old(self)@.rect_on(
                fb.height as int,
            ).2 <= usize::MAX,
            old(self)@.visible ==> old(self)@.rect_on(fb.height as int).1 + PAD <= usize::MAX,
        ensures
            final(self)@ == old(self)@,
            r == if old(self)@.visible {
                old(self)@.action_at(fb.height as int, x as int, y as int)
            } else {
                None
            },
    {
        if !self.visible {
            return None;
        }
        let (wx, wy, ww, _) = self.rect(fb);
        let list_y = wy + PAD;
        if x >= wx && x < wx + ww && y >= list_y {
            let row = (y - list_y) / LINE_HEIGHT;
            return match row {
                0 => Some(StartAction::OpenConsole),
                1 => Some(StartAction::OpenExplorer),
                2 => Some(StartAction::OpenClipboard),
                3 => Some(StartAction::OpenBin),
                4 => Some(StartAction::OpenCalculator),
                6 => Some(StartAction::ToggleTheme),
                7 => Some(StartAction::Reboot),
                8 => Some(StartAction::Shutdown),
                _ => None,
            };
        }
        None
    }

    /// The menu rectangle.
    pub fn rect(&self, fb: &Framebuffer) -> (r: (usize, usize, usize, usize))
        ensures
            (r.0 as int, r.1 as int, r.2 as int, r.3 as int) == self@.rect_on(fb.height as int),
    {
        if self.win_w == 0 {
            calc_rect(fb)
        } else {
            (self.win_x, self.win_y, self.win_w, self.win_h)
        }
    }

    /// Draws the menu while it is shown.
    pub fn refresh(&self, fb: &mut Framebuffer, ui: &UiSettings)
        requires
            old(fb).wf(),
            self@.visible ==> self@.drawable(old(fb)),
        ensures
            final(fb).wf(),
            final(fb).same_shape(old(fb)),
            !self@.visible ==> *final(fb) == *old(fb),
            self@.visible ==> self@.entries_shown(*old(fb), *final(fb), ui.dark, ui.accent),
    {
        if self.visible {
            self.redraw(fb, ui);
        }
    }

    fn redraw(&self, fb: &mut Framebuffer, ui: &UiSettings)
        requires
            old(fb).wf(),
            self@.visible ==> self@.drawable(old(fb)),
        ensures
            final(fb).wf(),
            final(fb).same_shape(old(fb)),
            !self@.visible ==> *final(fb) == *old(fb),
            self@.visible ==> self@.entries_shown(*old(fb), *final(fb), ui.dark, ui.accent),
    {
        if !self.visible {
            return;
        }
        let (x, y, w, h) = self.rect(fb);
        let accent = ui.accent;
        let is_dark = ui.dark;
        draw_rounded_rect(fb, x + 2, y + 2, w, h, CORNER_RADIUS, 0x00101010);
        draw_rounded_rect(fb, x, y, w, h, CORNER_RADIUS, if is_dark { 0x001E1E1E } else { 0x00FFFFFF });
        draw_rounded_rect_outline(fb, x, y, w, h, CORNER_RADIUS, 1, if is_dark { 0x003A3A3A } else { 0x00E0E0E0 });

        let mut writer = TextWriter::new(fb);
        let text_color: u32 = if is_dark { 0x00E0E0E0 } else { 0x00202020 };
        let secondary_text: u32 = if is_dark { 0x00808080 } else { 0x00707070 };
        let list_x = x + PAD;
        let list_y = y + PAD;
        let ghost fw = fb.width as int;
        let ghost sep = (x + PAD, list_y + 5 * LINE_HEIGHT + 8, w - PAD * 2, 1int);
        let mut row: usize = 0;
        while row < 9
            invariant
                fb.wf(),
                fb.same_shape(old(fb)),
                fb.width <= COORD_MAX,
                fw == fb.width,
                writer.width == fb.width,
                list_x == x + PAD,
                list_y == y + PAD,
                x <= COORD_MAX,
                y <= COORD_MAX,
                w <= COORD_MAX,
                w >= 2 * PAD,
                row <= 9,
                sep == (x + PAD, list_y + 5 * LINE_HEIGHT + 8, w - PAD * 2, 1int),
                text_color == menu_text_color(is_dark),
                secondary_text == menu_icon_color(5, accent, is_dark),
                forall|j: int|
                    0 <= j < row && j != 5 ==> #[trigger] entry_shows(*fb, fw, x as int, y as int, j, is_dark, accent),
                row > 5 ==> painted(*fb, sep.0, sep.1, sep.2, sep.3, separator_color(is_dark)),
            decreases 9 - row,
        {
            proof {
                reveal_strlit("Console");
                reveal_strlit(">");
                reveal_strlit("Explorer");
                reveal_strlit("#");
                reveal_strlit("Clipboard");
                reveal_strlit("@");
                reveal_strlit("Recycle Bin");
                reveal_strlit("%");
                reveal_strlit("Calculator");
                reveal_strlit("C");
                reveal_strlit("Light Mode");
                reveal_strlit("Dark Mode");
                reveal_strlit("T");
                reveal_strlit("Restart");
                reveal_strlit("R");
                reveal_strlit("Shutdown");
                reveal_strlit("S");
            }
            let row_y = list_y + row * LINE_HEIGHT;
            let ghost before_row = *fb;
            if row == 5 {
                fill_rect(fb, x + PAD, row_y + 8, w - PAD * 2, 1, if is_dark { 0x00333333 } else { 0x00F0F0F0 });
                proof {
                    assert(painted(*fb, sep.0, sep.1, sep.2, sep.3, separator_color(is_dark)));
                }
            } else {
                let (icon, text) = match row {
                    0 => (label(">"), label("Console")),
                    1 => (label("#"), label("Explorer")),
                    2 => (label("@"), label("Clipboard")),
                    3 => (label("%"), label("Recycle Bin")),
                    4 => (label("C"), label("Calculator")),
                    6 => (label("T"), if is_dark { label("Light Mode") } else { label("Dark Mode") }),
                    7 => (label("R"), label("Restart")),
                    _ => (label("S"), label("Shutdown")),
                };
                assert(icon@ == entry_icon(row as int));
                assert(text@ == entry_text(row as int, is_dark));
                writer.set_color(if row < 5 { accent } else { secondary_text });
                writer.set_pos(list_x + 4, row_y + 8);
                writer.write_bytes(fb, icon);
                let ghost mid = *fb;
                writer.set_color(text_color);
                writer.set_pos(list_x + ICON_SIZE + 16, row_y + 8);
                writer.write_bytes(fb, text);
                proof {
                    let xi = x as int;
                    let yi = y as int;
                    let ri = row as int;
                    let tx = xi + PAD + ICON_SIZE + 16;
                    assert forall|qx: int, qy: int|
                        0 <= qx < fb.width && 0 <= qy < fb.height && #[trigger] icon_ink(fw, xi, yi, ri, qx, qy)
                            implies fb.pixel(qx, qy) == menu_icon_color(ri, accent, is_dark) by {
                        lemma_entry_rows(fw, xi, yi, ri, is_dark, qx, qy);
                        if text_ink(fw, tx, entry_y(yi, ri), text@, qx, qy) {
                            crate::text::lemma_ink_first_line(fw, tx, entry_y(yi, ri), text@, qx, qy);
                        }
                        assert(mid.pixel(qx, qy) == mid.pixel(qx, qy));
                    }
                    assert forall|qx: int, qy: int|
                        0 <= qx < fb.width && 0 <= qy < fb.height && #[trigger] entry_ink(fw, xi, yi, ri, is_dark, qx, qy)
                            implies fb.pixel(qx, qy) == menu_text_color(is_dark) by {
                    }
                    assert(entry_shows(*fb, fw, xi, yi, ri, is_dark, accent));
                    crate::display::lemma_above_trans(before_row, mid, *fb, (row_y + 8) as int);
                    if row > 5 {
                        crate::display::lemma_above_painted(
                            before_row,
                            *fb,
                            (row_y + 8) as int,
                            sep,
                            separator_color(is_dark),
                        );
                    }
                }
            }
            proof {
                assert(kept_above(before_row, *fb, (row_y + 8) as int));
                assert forall|j: int| 0 <= j < row + 1 && j != 5 implies #[trigger] entry_shows(
                    *fb,
                    fw,
                    x as int,
                    y as int,
                    j,
                    is_dark,
                    accent,
                ) by {
                    if j < row {
                        assert(entry_shows(before_row, fw, x as int, y as int, j, is_dark, accent));
                        assert forall|qx: int, qy: int|
                            0 <= qx < fb.width && 0 <= qy < fb.height && #[trigger] entry_ink(fw, x as int, y as int, j, is_dark, qx, qy)
                                implies fb.pixel(qx, qy) == menu_text_color(is_dark) by {
                            lemma_entry_rows(fw, x as int, y as int, j, is_dark, qx, qy);
                            assert(before_row.pixel(qx, qy) == menu_text_color(is_dark));
                        }
                        assert forall|qx: int, qy: int|
                            0 <= qx < fb.width && 0 <= qy < fb.height && #[trigger] icon_ink(fw, x as int, y as int, j, qx, qy)
                                implies fb.pixel(qx, qy) == menu_icon_color(j, accent, is_dark) by {
                            lemma_entry_rows(fw, x as int, y as int, j, is_dark, qx, qy);
                            assert(before_row.pixel(qx, qy) == menu_icon_color(j, accent, is_dark));
                        }
                    }
                }
            }
            row = row + 1;
        }
    }
}

impl MenuView {
    /// In `after`, drawn from `before`, every entry's label and icon that
    /// stays on one line has its colour (see `entry_shows`), and the
    /// separator under the fifth entry is drawn across the menu.
    pub open spec fn entries_shown(self, before: Framebuffer, after: Framebuffer, dark: bool, accent: u32) -> bool {
        let r = self.rect_on(before.height as int);
        &&& forall|row: int|
            0 <= row < 9 && row != 5 ==> #[trigger] entry_shows(after, before.width as int, r.0, r.1, row, dark, accent)
        &&& painted(after, r.0 + PAD, r.1 + PAD + 5 * LINE_HEIGHT + 8, r.2 - 2 * PAD, 1, separator_color(dark))
    }

    /// The menu lies where the drawing code can reach.
    pub open spec fn drawable(self, fb: &Framebuffer) -> bool {
        let r = self.rect_on(fb.height as int);
        &&& fb.width <= COORD_MAX
        &&& r.0 <= COORD_MAX
        &&& r.1 <= COORD_MAX
        &&& 2 * CORNER_RADIUS <= r.2 <= COORD_MAX
        &&& 2 * CORNER_RADIUS <= r.3 <= COORD_MAX
    }
}

} // verus!
