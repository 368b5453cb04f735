use vstd::prelude::*;
use crate::clipboard::{clip_rect_spec, clipped, Clipboard, ClipboardWindow, ClipView};
use crate::commands::{command_is_safe, command_safe, ConsoleAction};
use crate::console::{cap, console_rect_spec, MAX_COLS, strip_newlines, typed, typed_action, Console, ConsoleView};
use crate::display::Framebuffer;
use crate::explorer::{ExpView, Explorer, ExplorerView};
use crate::notepad::ClickResult;
use crate::rtc::RtcTime;
use crate::start_menu::{menu_rect_spec, MenuView, StartAction, StartMenu};
use crate::system::{toggle_theme, toggled, SystemState};
use crate::text::COORD_MAX;
use crate::window::{close_rect, close_spec, header_rect, hit, in_rect, sat_sub, HEADER_H};

verus! {

/// Size of the mouse cursor.
pub const CURSOR_W: usize = 32;
pub const CURSOR_H: usize = 32;

/// The character a set-1 keyboard scan code types without shift.
pub open spec fn plain_char(sc: u8) -> Option<u8> {
    match sc {
        0x02u8 => Some(49u8),
        0x03u8 => Some(50u8),
        0x04u8 => Some(51u8),
        0x05u8 => Some(52u8),
        0x06u8 => Some(53u8),
        0x07u8 => Some(54u8),
        0x08u8 => Some(55u8),
        0x09u8 => Some(56u8),
        0x0Au8 => Some(57u8),
        0x0Bu8 => Some(48u8),
        0x0Cu8 => Some(45u8),
        0x0Du8 => Some(61u8),
        0x10u8 => Some(113u8),
        0x11u8 => Some(119u8),
        0x12u8 => Some(101u8),
        0x13u8 => Some(114u8),
        0x14u8 => Some(116u8),
        0x15u8 => Some(121u8),
        0x16u8 => Some(117u8),
        0x17u8 => Some(105u8),
        0x18u8 => Some(111u8),
        0x19u8 => Some(112u8),
        0x1Au8 => Some(91u8),
        0x1Bu8 => Some(93u8),
        0x1Eu8 => Some(97u8),
        0x1Fu8 => Some(115u8),
        0x20u8 => Some(100u8),
        0x21u8 => Some(102u8),
        0x22u8 => Some(103u8),
        0x23u8 => Some(104u8),
        0x24u8 => Some(106u8),
        0x25u8 => Some(107u8),
        0x26u8 => Some(108u8),
        0x27u8 => Some(59u8),
        0x28u8 => Some(39u8),
        0x29u8 => Some(96u8),
        0x2Bu8 => Some(92u8),
        0x2Cu8 => Some(122u8),
        0x2Du8 => Some(120u8),
        0x2Eu8 => Some(99u8),
        0x2Fu8 => Some(118u8),
        0x30u8 => Some(98u8),
        0x31u8 => Some(110u8),
        0x32u8 => Some(109u8),
        0x33u8 => Some(44u8),
        0x34u8 => Some(46u8),
        0x35u8 => Some(47u8),
        0x39u8 => Some(32u8),
        0x1Cu8 => Some(10u8),
        0x0Fu8 => Some(9u8),
        0x0Eu8 => Some(8u8),
        _ => None,
    }
}

/// The character a scan code types with shift held: the shifted symbol
/// for digit and punctuation keys, the capital for letters; space, Enter,
/// tab and backspace as without shift.
pub open spec fn shifted_char(sc: u8) -> Option<u8> {
    match sc {
        0x02u8 => Some(33u8),
        0x03u8 => Some(64u8),
        0x04u8 => Some(35u8),
        0x05u8 => Some(36u8),
        0x06u8 => Some(37u8),
        0x07u8 => Some(94u8),
        0x08u8 => Some(38u8),
        0x09u8 => Some(42u8),
        0x0Au8 => Some(40u8),
        0x0Bu8 => Some(41u8),
        0x0Cu8 => Some(95u8),
        0x0Du8 => Some(43u8),
        0x1Au8 => Some(123u8),
        0x1Bu8 => Some(125u8),
        0x27u8 => Some(58u8),
        0x28u8 => Some(34u8),
        0x29u8 => Some(126u8),
        0x2Bu8 => Some(124u8),
        0x33u8 => Some(60u8),
        0x34u8 => Some(62u8),
        0x35u8 => Some(63u8),
        _ => match plain_char(sc) {
            Some(c) => if 97 <= c <= 122 {
                Some((c - 32) as u8)
            } else {
                Some(c)
            },
            None => None,
        },
    }
}

/// The character typed by key `sc` (see `plain_char`, `shifted_char`).
pub open spec fn key_char(sc: u8, shift: bool) -> Option<u8> {
    if shift {
        shifted_char(sc)
    } else {
        plain_char(sc)
    }
}

/// Translates a set-1 scan code to the ASCII byte it types, if any.
pub fn scancode_to_ascii(sc: u8, shift: bool) -> (r: Option<u8>)
    ensures
        r == key_char(sc, shift),
{
    let c = match sc {
        0x02 => if shift { 33u8 } else { 49u8 },
        0x03 => if shift { 64u8 } else { 50u8 },
        0x04 => if shift { 35u8 } else { 51u8 },
        0x05 => if shift { 36u8 } else { 52u8 },
        0x06 => if shift { 37u8 } else { 53u8 },
        0x07 => if shift { 94u8 } else { 54u8 },
        0x08 => if shift { 38u8 } else { 55u8 },
        0x09 => if shift { 42u8 } else { 56u8 },
        0x0A => if shift { 40u8 } else { 57u8 },
        0x0B => if shift { 41u8 } else { 48u8 },
        0x0C => if shift { 95u8 } else { 45u8 },
        0x0D => if shift { 43u8 } else { 61u8 },
        0x10 => if shift { 81u8 } else { 113u8 },
        0x11 => if shift { 87u8 } else { 119u8 },
        0x12 => if shift { 69u8 } else { 101u8 },
        0x13 => if shift { 82u8 } else { 114u8 },
        0x14 => if shift { 84u8 } else { 116u8 },
        0x15 => if shift { 89u8 } else { 121u8 },
        0x16 => if shift { 85u8 } else { 117u8 },
        0x17 => if shift { 73u8 } else { 105u8 },
        0x18 => if shift { 79u8 } else { 111u8 },
        0x19 => if shift { 80u8 } else { 112u8 },
        0x1A => if shift { 123u8 } else { 91u8 },
        0x1B => if shift { 125u8 } else { 93u8 },
        0x1E => if shift { 65u8 } else { 97u8 },
        0x1F => if shift { 83u8 } else { 115u8 },
        0x20 => if shift { 68u8 } else { 100u8 },
        0x21 => if shift { 70u8 } else { 102u8 },
        0x22 => if shift { 71u8 } else { 103u8 },
        0x23 => if shift { 72u8 } else { 104u8 },
        0x24 => if shift { 74u8 } else { 106u8 },
        0x25 => if shift { 75u8 } else { 107u8 },
        0x26 => if shift { 76u8 } else { 108u8 },
        0x27 => if shift { 58u8 } else { 59u8 },
        0x28 => if shift { 34u8 } else { 39u8 },
        0x29 => if shift { 126u8 } else { 96u8 },
        0x2B => if shift { 124u8 } else { 92u8 },
        0x2C => if shift { 90u8 } else { 122u8 },
        0x2D => if shift { 88u8 } else { 120u8 },
        0x2E => if shift { 67u8 } else { 99u8 },
        0x2F => if shift { 86u8 } else { 118u8 },
        0x30 => if shift { 66u8 } else { 98u8 },
        0x31 => if shift { 78u8 } else { 110u8 },
        0x32 => if shift { 77u8 } else { 109u8 },
        0x33 => if shift { 60u8 } else { 44u8 },
        0x34 => if shift { 62u8 } else { 46u8 },
        0x35 => if shift { 63u8 } else { 47u8 },
        0x39 => 32u8,
        0x1C => 10u8,
        0x0F => 9u8,
        0x0E => 8u8,
        _ => {
            return None;
        },
    };
    Some(c)
}

/// One movement report of a PS/2 mouse: the three button bits and the
/// signed movement.
#[derive(Debug, Clone, Copy, PartialEq, Eq, Structural)]
pub struct MousePacket {
    pub buttons: u8,
    pub dx: i8,
    pub dy: i8,
}

impl MousePacket {
    /// The report in three received bytes.
    pub fn from_bytes(b0: u8, b1: u8, b2: u8) -> (p: MousePacket)
        ensures
            p.buttons == b0 & 7u8,
            p.dx == b1 as i8,
            p.dy == b2 as i8,
    {
        MousePacket { buttons: b0 & 0x07, dx: b1 as i8, dy: b2 as i8 }
    }
}

/// `v` kept within `lo..=hi`.
pub open spec fn clamp_int(v: int, lo: int, hi: int) -> int {
    if v < lo {
        lo
    } else if v > hi {
        hi
    } else {
        v
    }
}

/// Where the cursor goes from `pos` after a movement of `delta`, on an axis
/// of `extent` pixels: it stays fully on screen.
pub open spec fn cursor_axis(pos: int, delta: int, extent: int, size: int) -> int {
    let max = if extent >= size + 1 { extent - (size + 1) } else { 0 };
    clamp_int(pos + delta, 0, max)
}

/// Moves the cursor along one axis (see `cursor_axis`).
pub fn move_axis(pos: usize, delta: i32, extent: usize, size: usize) -> (r: usize)
    requires
        pos <= 0x1000_0000,
        extent <= 0x1000_0000,
        size <= 0x1000,
    ensures
        r == cursor_axis(pos as int, delta as int, extent as int, size as int),
{
    let max = extent.saturating_sub(size + 1) as i64;
    let v = pos as i64 + delta as i64;
    if v < 0 {
        0
    } else if v > max {
        max as usize
    } else {
        v as usize
    }
}

/// The windows the desktop stacks.
#[derive(Debug, Copy, Clone, PartialEq, Eq, Structural)]
pub enum WinKind {
    Console,
    Explorer,
    Clipboard,
}

/// `order` with `kind` moved to the end (the front), the others keeping
/// their order; unchanged when `kind` is not in it.
pub open spec fn brought_to_front(order: Seq<WinKind>, kind: WinKind) -> Seq<WinKind> {
    match order.index_of_first(kind) {
        Some(i) => order.remove(i).push(kind),
        None => order,
    }
}

/// Moves `kind` to the front of the stacking order (see `brought_to_front`).
pub fn bring_to_front(order: &mut Vec<WinKind>, kind: WinKind)
    ensures
        final(order)@ == brought_to_front(old(order)@, kind),
{
    let mut idx: usize = 0;
    while idx < order.len()
        invariant
            order@ == old(order)@,
            idx <= order@.len(),
            forall|j: int| 0 <= j < idx ==> order@[j] != kind,
        ensures
            order@ == old(order)@,
            idx <= order@.len(),
            forall|j: int| 0 <= j < idx ==> order@[j] != kind,
            idx < order@.len() ==> order@[idx as int] == kind,
        decreases order@.len() - idx,
    {
        if order[idx] == kind {
            break;
        }
        idx = idx + 1;
    }
    proof {
        order@.index_of_first_ensures(kind);
    }
    if idx >= order.len() {
        proof {
            if order@.contains(kind) {
                let j = choose|j: int| 0 <= j < order@.len() && order@[j] == kind;
                assert(order@[j] != kind);
            }
        }
        return;
    }
    proof {
        assert(order@.contains(kind));
        assert(order@.index_of_first(kind) == Some(idx as int)) by {
            match order@.index_of_first(kind) {
                Some(f) => {
                    if f < idx {
                        assert(order@[f] == kind);
                    }
                    if f > idx {
                        assert(order@[idx as int] == kind);
                    }
                },
                None => {},
            }
        }
    }
    let ghost o = order@;
    order.remove(idx);
    order.push(kind);
    proof {
        assert(order@ =~= o.remove(idx as int).push(kind));
    }
}

/// Stacking orders hold each window once.
pub open spec fn is_order(order: Seq<WinKind>) -> bool {
    &&& order.len() == 3
    &&& order.contains(WinKind::Console)
    &&& order.contains(WinKind::Explorer)
    &&& order.contains(WinKind::Clipboard)
}

/// Bringing a window to the front keeps a stacking order and puts that
/// window on top.
pub proof fn lemma_front_keeps_order(order: Seq<WinKind>, kind: WinKind)
    requires
        is_order(order),
    ensures
        is_order(brought_to_front(order, kind)),
        brought_to_front(order, kind).last() == kind,
{
    order.index_of_first_ensures(kind);
    let i = order.index_of_first(kind).unwrap();
    let r = order.remove(i);
    assert(order.contains(kind));
    assert(r.push(kind).last() == kind);
    assert forall|k: WinKind| order.contains(k) implies brought_to_front(order, kind).contains(k) by {
        if k == kind {
            assert(r.push(kind)[2] == kind);
        } else {
            let j = choose|j: int| 0 <= j < order.len() && order[j] == k;
            if j < i {
                assert(r.push(kind)[j] == k);
            } else {
                assert(j != i);
                assert(r.push(kind)[j - 1] == k);
            }
        }
    }
}

/// Height of the status bar, which a dragged window stays above while
/// the bar is shown.
pub const STATUS_BAR_H: usize = 32;

/// The desktop: pointer and keyboard state, the stacking order of its
/// windows, the windows, the start menu, the clipboard and the settings.
pub struct Desktop {
    pub screen_w: usize,
    pub screen_h: usize,
    pub mouse_x: usize,
    pub mouse_y: usize,
    pub packet: (u8, u8, u8),
    pub idx: usize,
    pub prev_buttons: u8,
    pub shift: bool,
    pub extended: bool,
    pub win_key: bool,
    pub ctrl: bool,
    pub console: Console,
    pub explorer: Explorer,
    pub clipboard: ClipboardWindow,
    pub start_menu: StartMenu,
    pub clip: Clipboard,
    pub sys: SystemState,
    pub status_visible: bool,
    pub last_time: Option<RtcTime>,
    pub order: Vec<WinKind>,
    pub dragging: Option<(WinKind, usize, usize)>,
    pub need_redraw: bool,
}

/// A desktop's state as plain values. `dragging` holds the window being
/// dragged and where in it the pointer grabbed it.
pub struct DeskView {
    pub screen_w: usize,
    pub screen_h: usize,
    pub mouse_x: usize,
    pub mouse_y: usize,
    pub packet: (u8, u8, u8),
    pub idx: usize,
    pub prev_buttons: u8,
    pub shift: bool,
    pub extended: bool,
    pub win_key: bool,
    pub ctrl: bool,
    pub console: ConsoleView,
    pub explorer: ExpView,
    pub clipboard: ClipView,
    pub start_menu: MenuView,
    pub clip: Seq<u8>,
    pub sys: SystemState,
    pub status_visible: bool,
    pub last_time: Option<RtcTime>,
    pub order: Seq<WinKind>,
    pub dragging: Option<(WinKind, usize, usize)>,
    pub need_redraw: bool,
}

impl View for Desktop {
    type V = DeskView;

    open spec fn view(&self) -> DeskView {
        DeskView {
            screen_w: self.screen_w,
            screen_h: self.screen_h,
            mouse_x: self.mouse_x,
            mouse_y: self.mouse_y,
            packet: self.packet,
            idx: self.idx,
            prev_buttons: self.prev_buttons,
            shift: self.shift,
            extended: self.extended,
            win_key: self.win_key,
            ctrl: self.ctrl,
            console: self.console@,
            explorer: self.explorer@,
            clipboard: self.clipboard@,
            start_menu: self.start_menu@,
            clip: self.clip.bytes@,
            sys: self.sys,
            status_visible: self.status_visible,
            last_time: self.last_time,
            order: self.order@,
            dragging: self.dragging,
            need_redraw: self.need_redraw,
        }
    }
}

/// What the caller does after a mouse byte. `skip` ends this round of the
/// loop at once. `moved` is the cursor's previous place when only the
/// cursor is to be moved on screen (its background restored there, saved
/// and drawn at the new place, and that area presented). `power` asks to
/// restart or shut down. `jump` is a click on a window's scroll track (see
/// `ClickResult::TrackJump`), to be finished with `finish_jump`.
pub struct MouseStep {
    pub skip: bool,
    pub moved: Option<(usize, usize)>,
    pub power: Option<StartAction>,
    pub jump: Option<(WinKind, usize, usize, usize)>,
}

/// The console shown (see `Console::show`).
pub open spec fn console_shown(c: ConsoleView, fw: int, fh: int) -> ConsoleView {
    if c.win_w == 0 {
        let r = console_rect_spec(fw, fh);
        ConsoleView {
            visible: true,
            win_x: r.0 as usize,
            win_y: r.1 as usize,
            win_w: r.2 as usize,
            win_h: r.3 as usize,
            ..c
        }
    } else {
        ConsoleView { visible: true, ..c }
    }
}

/// The clipboard window shown (see `ClipboardWindow::show`).
pub open spec fn clip_shown(v: ClipView, fw: int, fh: int) -> ClipView {
    if v.win_w == 0 || v.win_h == 0 {
        let r = clip_rect_spec(fw, fh);
        ClipView {
            visible: true,
            scroll: 0,
            win_x: r.0 as usize,
            win_y: r.1 as usize,
            win_w: r.2 as usize,
            win_h: r.3 as usize,
        }
    } else {
        ClipView { visible: true, scroll: 0, ..v }
    }
}

/// The start menu shown on a screen `fh` pixels high.
pub open spec fn menu_shown(fh: int) -> MenuView {
    let r = menu_rect_spec(fh);
    MenuView { visible: true, win_x: r.0 as usize, win_y: r.1 as usize, win_w: r.2 as usize, win_h: r.3 as usize }
}

/// The scroll-track jump a click on window `k` asks for, if any.
pub open spec fn jump_of(k: WinKind, r: ClickResult) -> Option<(WinKind, usize, usize, usize)> {
    match r {
        ClickResult::TrackJump { offset, track_h, max_scroll } => Some((k, offset, track_h, max_scroll)),
        _ => None,
    }
}

/// The smaller of two numbers.
pub open spec fn min_int(a: int, b: int) -> int {
    if a < b { a } else { b }
}

impl DeskView {
    /// Whether window `k` is shown.
    pub open spec fn visible_of(self, k: WinKind) -> bool {
        match k {
            WinKind::Console => self.console.visible,
            WinKind::Explorer => self.explorer.visible,
            WinKind::Clipboard => self.clipboard.visible,
        }
    }

    /// Window `k`'s rectangle.
    pub open spec fn rect_of(self, k: WinKind) -> (int, int, int, int) {
        match k {
            WinKind::Console => if self.console.win_w == 0 {
                console_rect_spec(self.screen_w as int, self.screen_h as int)
            } else {
                (
                    self.console.win_x as int,
                    self.console.win_y as int,
                    self.console.win_w as int,
                    self.console.win_h as int,
                )
            },
            WinKind::Explorer => self.explorer.rect_on(self.screen_w as int, self.screen_h as int),
            WinKind::Clipboard => self.clipboard.rect_on(self.screen_w as int, self.screen_h as int),
        }
    }

    /// The topmost shown window among the first `n` of the stacking order.
    pub open spec fn top_from(self, n: int) -> Option<WinKind>
        decreases n,
    {
        if n <= 0 {
            None
        } else if self.visible_of(self.order[n - 1]) {
            Some(self.order[n - 1])
        } else {
            self.top_from(n - 1)
        }
    }

    /// The topmost shown window: the one that gets the keyboard.
    pub open spec fn focused(self) -> Option<WinKind> {
        self.top_from(self.order.len() as int)
    }

    /// What a click at `(x, y)` hits, searching the first `n` windows of the
    /// stacking order from the top: a shown window's close button (`0`),
    /// its title bar (`1`) or its body (`2`); `3` for none.
    pub open spec fn hit_from(self, x: int, y: int, n: int) -> (int, WinKind)
        decreases n,
    {
        if n <= 0 {
            (3, WinKind::Console)
        } else {
            let k = self.order[n - 1];
            let r = self.rect_of(k);
            let c = close_spec(r.0, r.1, r.2);
            if !self.visible_of(k) {
                self.hit_from(x, y, n - 1)
            } else if in_rect(x, y, (c.0 as usize, c.1 as usize, c.2 as usize, c.3 as usize)) {
                (0, k)
            } else if in_rect(x, y, (r.0 as usize, r.1 as usize, r.2 as usize, HEADER_H)) {
                (1, k)
            } else if in_rect(x, y, (r.0 as usize, r.1 as usize, r.2 as usize, r.3 as usize)) {
                (2, k)
            } else {
                self.hit_from(x, y, n - 1)
            }
        }
    }

    /// The same, asking for a redraw.
    pub open spec fn redrawn(self) -> DeskView {
        DeskView { need_redraw: true, ..self }
    }

    /// Window `k` shown as its `show` leaves it (the explorer at the root
    /// folder).
    pub open spec fn shown(self, k: WinKind) -> DeskView {
        let w = self.screen_w as int;
        let h = self.screen_h as int;
        match k {
            WinKind::Console => DeskView { console: console_shown(self.console, w, h), ..self },
            WinKind::Explorer => DeskView {
                explorer: self.explorer.opened(w, h, ExplorerView::Root).at_root(),
                ..self
            },
            WinKind::Clipboard => DeskView { clipboard: clip_shown(self.clipboard, w, h), ..self },
        }
    }

    /// Window `k` hidden.
    pub open spec fn hidden(self, k: WinKind) -> DeskView {
        match k {
            WinKind::Console => DeskView { console: ConsoleView { visible: false, ..self.console }, ..self },
            WinKind::Explorer => DeskView { explorer: ExpView { visible: false, ..self.explorer }, ..self },
            WinKind::Clipboard => DeskView { clipboard: ClipView { visible: false, ..self.clipboard }, ..self },
        }
    }

    /// Window `k` brought to the front.
    pub open spec fn fronted(self, k: WinKind) -> DeskView {
        DeskView { order: brought_to_front(self.order, k), ..self }
    }

    /// Window `k` shown and brought to the front.
    pub open spec fn opened(self, k: WinKind) -> DeskView {
        self.shown(k).fronted(k)
    }

    /// Window `k` moved to `(x, y)`.
    pub open spec fn moved(self, k: WinKind, x: usize, y: usize) -> DeskView {
        match k {
            WinKind::Console => DeskView { console: ConsoleView { win_x: x, win_y: y, ..self.console }, ..self },
            WinKind::Explorer => DeskView { explorer: ExpView { win_x: x, win_y: y, ..self.explorer }, ..self },
            WinKind::Clipboard => DeskView {
                clipboard: ClipView { win_x: x, win_y: y, ..self.clipboard },
                ..self
            },
        }
    }

    /// The start menu hidden.
    pub open spec fn menu_hidden(self) -> DeskView {
        DeskView { start_menu: MenuView { visible: false, ..self.start_menu }, ..self }
    }

    /// A click at `(x, y)` inside window `k`, as the window handles it, and
    /// the scroll-track jump it asks for.
    pub open spec fn body_clicked(self, k: WinKind, x: int, y: int) -> (DeskView, Option<
        (WinKind, usize, usize, usize),
    >) {
        let w = self.screen_w as int;
        let h = self.screen_h as int;
        match k {
            WinKind::Console => (self, None),
            WinKind::Explorer => {
                let c = self.explorer.clicked(w, h, x, y);
                (DeskView { explorer: c.1, ..self }, jump_of(k, c.0))
            },
            WinKind::Clipboard => {
                let c = self.clipboard.clicked(w, h, self.clip, x, y);
                (DeskView { clipboard: c.1, clip: c.2, ..self }, jump_of(k, c.0))
            },
        }
    }

    /// A press at `(x, y)` with the start menu closed: on the topmost
    /// window there, its close button hides it, its title bar brings it to
    /// the front and starts dragging it, its body brings it to the front and
    /// takes the click; a press on no window ends any drag.
    pub open spec fn window_pressed(self, x: int, y: int) -> (DeskView, Option<
        (WinKind, usize, usize, usize),
    >) {
        let t = self.hit_from(x, y, 3);
        let k = t.1;
        let r = self.rect_of(k);
        if t.0 == 0 {
            (self.hidden(k).redrawn(), None)
        } else if t.0 == 1 {
            (
                DeskView {
                    dragging: Some((k, sat_sub(x, r.0) as usize, sat_sub(y, r.1) as usize)),
                    ..self.fronted(k).redrawn()
                },
                None,
            )
        } else if t.0 == 2 {
            let c = self.fronted(k).body_clicked(k, x, y);
            (c.0.redrawn(), c.1)
        } else {
            (DeskView { dragging: None, ..self }, None)
        }
    }

    /// A press at `(x, y)` with the start menu open: the entry there, if
    /// any, runs. Opening a window closes the menu and brings the window to
    /// the front; the theme switch hides the status bar until the clock
    /// shows it again; restart and shut down close the menu and are handed
    /// to the caller.
    pub open spec fn menu_pressed(self, x: int, y: int) -> (DeskView, Option<StartAction>) {
        let w = self.screen_w as int;
        let h = self.screen_h as int;
        let shut = self.menu_hidden();
        match self.start_menu.action_at(h, x, y) {
            None => (self, None),
            Some(a) => match a {
                StartAction::OpenConsole => (shut.opened(WinKind::Console).redrawn(), None),
                StartAction::OpenExplorer => (shut.opened(WinKind::Explorer).redrawn(), None),
                StartAction::OpenClipboard => (shut.opened(WinKind::Clipboard).redrawn(), None),
                StartAction::OpenBin => (
                    DeskView {
                        explorer: shut.explorer.opened(w, h, ExplorerView::Bin),
                        ..shut
                    }.fronted(WinKind::Explorer).redrawn(),
                    None,
                ),
                StartAction::OpenCalculator => (self.redrawn(), None),
                StartAction::ToggleTheme => (
                    DeskView { sys: toggled(self.sys), status_visible: false, ..self }.redrawn(),
                    None,
                ),
                StartAction::Reboot => (shut.redrawn(), Some(a)),
                StartAction::Shutdown => (shut.redrawn(), Some(a)),
            },
        }
    }

    /// While a window is dragged: it follows the pointer, kept left of the
    /// screen's right edge and above its bottom (above the status bar while
    /// that is on).
    pub open spec fn dragged(self) -> DeskView {
        match self.dragging {
            Some((k, ox, oy)) => {
                let r = self.rect_of(k);
                let bar = if self.sys.ui.status_bar { STATUS_BAR_H as int } else { 0 };
                let nx = min_int(sat_sub(self.mouse_x as int, ox as int), sat_sub(self.screen_w as int, r.2));
                let ny = min_int(
                    sat_sub(self.mouse_y as int, oy as int),
                    sat_sub(self.screen_h as int, r.3 + bar),
                );
                if nx != r.0 || ny != r.1 {
                    self.moved(k, nx as usize, ny as usize).redrawn()
                } else {
                    self
                }
            },
            None => self,
        }
    }

    /// The pointer after a movement of `(dx, dy)`, and the place it left
    /// when only the pointer is to be redrawn: a move while dragging or with
    /// a redraw pending redraws everything instead.
    pub open spec fn pointer_moved(self, dx: int, dy: int) -> (DeskView, Option<(usize, usize)>) {
        let nx = cursor_axis(self.mouse_x as int, dx, self.screen_w as int, CURSOR_W as int);
        let ny = cursor_axis(self.mouse_y as int, -dy, self.screen_h as int, CURSOR_H as int);
        if (dx == 0 && dy == 0) || (nx == self.mouse_x && ny == self.mouse_y) {
            (self, None)
        } else if self.dragging.is_some() || self.need_redraw {
            (DeskView { mouse_x: nx as usize, mouse_y: ny as usize, need_redraw: true, ..self }, None)
        } else {
            (DeskView { mouse_x: nx as usize, mouse_y: ny as usize, ..self }, Some((self.mouse_x, self.mouse_y)))
        }
    }

    /// A complete movement report in `packet`: the pointer moves by the
    /// report scaled by the mouse speed (up on screen for a positive `dy`);
    /// releasing the left button ends a drag; holding it drags; pressing it
    /// clicks the start menu when open, else the windows. Returns the new
    /// state, the pointer's old place for a pointer-only redraw, a power
    /// request, and a scroll-track jump.
    pub open spec fn packet_done(self) -> (DeskView, Option<(usize, usize)>, Option<StartAction>, Option<
        (WinKind, usize, usize, usize),
    >) {
        let buttons = self.packet.0 & 7u8;
        let scale = self.sys.ui.mouse_scale as int;
        let dx = (self.packet.1 as i8) as int * scale;
        let dy = (self.packet.2 as i8) as int * scale;
        let m = self.pointer_moved(dx, dy);
        let q = m.0.buttons_done(buttons);
        (q.0, m.1, q.1, q.2)
    }

    /// The buttons of a report: releasing the left button ends a drag;
    /// holding it drags; pressing it clicks the start menu when open, else
    /// the windows.
    pub open spec fn buttons_done(self, buttons: u8) -> (DeskView, Option<StartAction>, Option<
        (WinKind, usize, usize, usize),
    >) {
        let left = buttons & 1u8 != 0u8;
        let prev_left = self.prev_buttons & 1u8 != 0u8;
        let s2 = if !left && prev_left { DeskView { dragging: None, ..self } } else { self };
        let s3 = if left { s2.dragged() } else { s2 };
        let p = if left && !prev_left {
            if s3.start_menu.visible {
                let q = s3.menu_pressed(s3.mouse_x as int, s3.mouse_y as int);
                (q.0, q.1, None)
            } else {
                let q = s3.window_pressed(s3.mouse_x as int, s3.mouse_y as int);
                (q.0, None, q.1)
            }
        } else {
            (s3, None, None)
        };
        (DeskView { prev_buttons: buttons, ..p.0 }, p.1, p.2)
    }

    /// The desktop after typing leaves the console's action `a` pending: it
    /// redraws, and opens the explorer or the clipboard window when asked.
    pub open spec fn acted(self, a: ConsoleAction) -> DeskView {
        match a {
            ConsoleAction::OpenExplorer => self.opened(WinKind::Explorer).redrawn(),
            ConsoleAction::OpenClipboard => self.opened(WinKind::Clipboard).redrawn(),
            _ => self.redrawn(),
        }
    }

    /// Whether a key with code `code` (pressed, or `released`) that reaches
    /// the console on top goes on to type: not a modifier, a release, Win+R,
    /// nor Ctrl+C / Ctrl+V.
    pub open spec fn console_types(self, released: bool, code: u8) -> bool {
        &&& code != 0x2A && code != 0x36 && code != 0x1D
        &&& !released
        &&& !(self.win_key && code == 0x13)
        &&& self.console.visible
        &&& !(self.ctrl && (code == 0x2E || code == 0x2F))
    }

    /// Whether scan code `sc` reaches the console as a typed key: not the
    /// `0xE0` prefix, Esc, an extended key, nor a key while the start menu is
    /// open or the console not on top (see `console_types`).
    pub open spec fn types(self, sc: u8) -> bool {
        let released = sc >= 128;
        let code = (sc % 128) as u8;
        &&& sc != 0xE0u8
        &&& !(!released && code == 1)
        &&& !self.extended
        &&& !self.start_menu.visible
        &&& self.focused() == Some(WinKind::Console)
        &&& self.console_types(released, code)
    }

    /// The byte scan code `sc` types into the console, if it gets there.
    pub open spec fn key_typed(self, sc: u8) -> Option<u8> {
        if self.types(sc) {
            key_char((sc % 128) as u8, self.shift)
        } else {
            None
        }
    }
}

impl DeskView {
    /// Esc: closes the start menu when open, else hides the topmost window.
    pub open spec fn escaped(self) -> DeskView {
        if self.start_menu.visible {
            self.menu_hidden().redrawn()
        } else {
            match self.focused() {
                Some(k) => self.hidden(k).redrawn(),
                None => self,
            }
        }
    }

    /// An extended key: right Ctrl is followed, the Up and Down arrows
    /// scroll the clipboard window while it is shown, the Windows keys open
    /// or close the start menu and are followed.
    pub open spec fn ext_keyed(self, released: bool, code: u8) -> DeskView {
        let w = self.screen_w as int;
        let h = self.screen_h as int;
        let v = self.clipboard;
        if code == 0x1D {
            DeskView { ctrl: !released, ..self }
        } else if code == 0x48 {
            if !released && v.visible {
                DeskView { clipboard: ClipView { scroll: sat_sub(v.scroll as int, 1) as usize, ..v }, ..self }.redrawn()
            } else {
                self
            }
        } else if code == 0x50 {
            if !released && v.visible {
                DeskView {
                    clipboard: ClipView {
                        scroll: if v.scroll < v.max_scroll_on(w, h, self.clip) {
                            (v.scroll + 1) as usize
                        } else {
                            v.scroll
                        },
                        ..v
                    },
                    ..self
                }.redrawn()
            } else {
                self
            }
        } else if code == 0x5B || code == 0x5C {
            let t = if released {
                self
            } else if self.start_menu.visible {
                self.menu_hidden().redrawn()
            } else {
                DeskView { start_menu: menu_shown(h), ..self }.redrawn()
            };
            DeskView { win_key: !released, ..t }
        } else {
            self
        }
    }

    /// A plain key reaching the console on top, on every path but typing:
    /// Shift and Ctrl are followed, Ctrl+C copies the input to the
    /// clipboard and Ctrl+V pastes the clipboard into it.
    pub open spec fn console_keyed(self, released: bool, code: u8) -> DeskView {
        if code == 0x2A || code == 0x36 {
            DeskView { shift: !released, ..self }
        } else if code == 0x1D {
            DeskView { ctrl: !released, ..self }
        } else if released {
            self
        } else if self.win_key && code == 0x13 {
            if !self.console.visible {
                self.opened(WinKind::Console).redrawn()
            } else {
                self
            }
        } else if !self.console.visible {
            self
        } else if self.ctrl && code == 0x2E {
            DeskView {
                clip: if self.console.input.len() > 0 { clipped(self.console.input) } else { self.clip },
                ..self
            }
        } else if self.ctrl && code == 0x2F {
            DeskView {
                console: ConsoleView {
                    input: cap(self.console.input + strip_newlines(self.clip), MAX_COLS as int),
                    ..self.console
                },
                ..self
            }.redrawn()
        } else {
            self
        }
    }

    /// Scan code `sc` (bit 7 set on release, `0xE0` before an extended key)
    /// on every path but typing into the console: Esc (see `escaped`), an
    /// extended key (see `ext_keyed`), nothing while the start menu is open
    /// or the console is not on top, else see `console_keyed`.
    pub open spec fn keyed(self, sc: u8) -> DeskView {
        let released = sc >= 128;
        let code = (sc % 128) as u8;
        if sc == 0xE0u8 {
            DeskView { extended: true, ..self }
        } else if !released && code == 1 {
            self.escaped()
        } else if self.extended {
            DeskView { extended: false, ..self }.ext_keyed(released, code)
        } else if self.start_menu.visible || self.focused() != Some(WinKind::Console) {
            self
        } else {
            self.console_keyed(released, code)
        }
    }

    /// The stored report with byte `b` in place `idx`.
    pub open spec fn packet_with(self, b: u8) -> (u8, u8, u8) {
        if self.idx == 0 {
            (b, self.packet.1, self.packet.2)
        } else if self.idx == 1 {
            (self.packet.0, b, self.packet.2)
        } else {
            (self.packet.0, self.packet.1, b)
        }
    }

    /// Window `k` scrolled to line `line`, as far as it allows (see
    /// `Explorer::scroll_to` and `ClipboardWindow::scroll_to`).
    pub open spec fn jumped(self, k: WinKind, line: usize) -> DeskView {
        let w = self.screen_w as int;
        let h = self.screen_h as int;
        match k {
            WinKind::Console => self,
            WinKind::Explorer => {
                let m = sat_sub(self.explorer.entries.len() as int, self.explorer.layout_on(w, h).max_lines as int);
                DeskView {
                    explorer: ExpView {
                        scroll_offset: if line > m { m as usize } else { line },
                        selected: None,
                        ..self.explorer
                    },
                    ..self
                }
            },
            WinKind::Clipboard => {
                let m = self.clipboard.max_scroll_on(w, h, self.clip);
                DeskView {
                    clipboard: ClipView { scroll: if line < m { line } else { m as usize }, ..self.clipboard },
                    ..self
                }
            },
        }
    }
}

impl Desktop {
    /// The desktop's fixed facts: the screen it was made for (not too small,
    /// not too large), well-formed windows kept on the screen's scale, the
    /// pointer on screen, and a stacking order of the three windows.
    pub open spec fn wf(&self, fb: &Framebuffer) -> bool {
        &&& fb.width == self.screen_w
        &&& fb.height == self.screen_h
        &&& 320 <= self.screen_w <= COORD_MAX
        &&& 240 <= self.screen_h <= COORD_MAX
        &&& self.mouse_x <= self.screen_w
        &&& self.mouse_y <= self.screen_h
        &&& self.idx < 3
        &&& self.console.wf()
        &&& self.explorer@.wf()
        &&& self.clipboard@.wf()
        &&& self.clip.wf()
        &&& self.console.win_x <= COORD_MAX && self.console.win_y <= COORD_MAX
        &&& self.console.win_w <= COORD_MAX && self.console.win_h <= COORD_MAX
        &&& self.explorer@.win_x <= COORD_MAX && self.explorer@.win_y <= COORD_MAX
        &&& self.explorer@.win_w <= COORD_MAX && self.explorer@.win_h <= COORD_MAX
        &&& self.clipboard@.win_x <= COORD_MAX && self.clipboard@.win_y <= COORD_MAX
        &&& self.clipboard@.win_w <= COORD_MAX && self.clipboard@.win_h <= COORD_MAX
        &&& self.start_menu@.win_x <= COORD_MAX && self.start_menu@.win_y <= COORD_MAX
        &&& self.start_menu@.win_w <= COORD_MAX && self.start_menu@.win_h <= COORD_MAX
        &&& is_order(self.order@)
    }
}

/// Every window's rectangle stays on the screen's scale.
proof fn lemma_rects_small(d: &Desktop, fb: &Framebuffer, k: WinKind)
    requires
        d.wf(fb),
    ensures
        0 <= d@.rect_of(k).0 <= COORD_MAX,
        0 <= d@.rect_of(k).1 <= COORD_MAX,
        0 <= d@.rect_of(k).2 <= COORD_MAX,
        0 <= d@.rect_of(k).3 <= COORD_MAX,
{
}

/// The mouse speed leaves the movement arithmetic in range.
pub open spec fn scale_ok(scale: i32) -> bool {
    -0x0010_0000 <= scale <= 0x0010_0000
}

impl Desktop {
    /// A desktop for `fb`: pointer in the middle, no window shown, the
    /// explorer reading the FAT32 image `fs_img`, empty clipboard, and the
    /// settings `sys`; the first round redraws.
    pub fn new(fb: &Framebuffer, fs_img: Option<Vec<u8>>, sys: SystemState) -> (d: Desktop)
        requires
            320 <= fb.width <= COORD_MAX,
            240 <= fb.height <= COORD_MAX,
        ensures
            d.wf(fb),
            d.mouse_x == (fb.width - 1) / 2,
            d.mouse_y == (fb.height - 1) / 2,
            d.sys == sys,
            d.need_redraw,
            d.order@ == seq![WinKind::Console, WinKind::Explorer, WinKind::Clipboard],
            d.dragging.is_none(),
            d.idx == 0,
            d.prev_buttons == 0,
            !d.shift && !d.extended && !d.win_key && !d.ctrl,
            d.status_visible,
            d.last_time.is_none(),
            !d.console.visible && !d.explorer@.visible && !d.clipboard@.visible && !d.start_menu@.visible,
            d.clip.bytes@ == Seq::<u8>::empty(),
    {
        let console = Console::new(fb);
        let explorer = Explorer::new(fb, fs_img);
        let clipboard = ClipboardWindow::new(fb);
        let start_menu = StartMenu::new(fb);
        let mut order: Vec<WinKind> = Vec::new();
        order.push(WinKind::Console);
        order.push(WinKind::Explorer);
        order.push(WinKind::Clipboard);
        let d = Desktop {
            screen_w: fb.width,
            screen_h: fb.height,
            mouse_x: (fb.width - 1) / 2,
            mouse_y: (fb.height - 1) / 2,
            packet: (0, 0, 0),
            idx: 0,
            prev_buttons: 0,
            shift: false,
            extended: false,
            win_key: false,
            ctrl: false,
            console,
            explorer,
            clipboard,
            start_menu,
            clip: Clipboard::new(),
            sys,
            status_visible: true,
            last_time: None,
            order,
            dragging: None,
            need_redraw: true,
        };
        proof {
            assert(d.order@ =~= seq![WinKind::Console, WinKind::Explorer, WinKind::Clipboard]);
            assert(d.order@[0] == WinKind::Console);
            assert(d.order@[1] == WinKind::Explorer);
            assert(d.order@[2] == WinKind::Clipboard);
        }
        d
    }

    /// Follows the clock for the status bar: while the bar is on, a reading
    /// with a new second (or the bar reappearing) is kept and redraws; when
    /// the bar is switched off it disappears with a redraw.
    pub fn clock(&mut self, now: Option<RtcTime>)
        ensures
            final(self)@ == ({
                let o = old(self)@;
                if o.sys.ui.status_bar {
                    match now {
                        Some(t) => if !(o.last_time matches Some(p) && p.sec == t.sec) || !o.status_visible {
                            DeskView { last_time: Some(t), status_visible: true, need_redraw: true, ..o }
                        } else {
                            o
                        },
                        None => o,
                    }
                } else if o.status_visible {
                    DeskView { status_visible: false, need_redraw: true, ..o }
                } else {
                    o
                }
            }),
            final(self).console == old(self).console,
            final(self).clip == old(self).clip,
            final(self).order == old(self).order,
    {
        if self.sys.ui.status_bar {
            match now {
                Some(t) => {
                    let changed = match self.last_time {
                        Some(p) => p.sec != t.sec,
                        None => true,
                    };
                    if changed || !self.status_visible {
                        self.last_time = Some(t);
                        self.status_visible = true;
                        self.need_redraw = true;
                    }
                },
                None => {},
            }
        } else if self.status_visible {
            self.status_visible = false;
            self.need_redraw = true;
        }
    }

    fn win_visible(&self, k: WinKind) -> (r: bool)
        ensures
            r == self@.visible_of(k),
    {
        match k {
            WinKind::Console => self.console.is_visible(),
            WinKind::Explorer => self.explorer.is_visible(),
            WinKind::Clipboard => self.clipboard.is_visible(),
        }
    }

    fn win_rect(&self, fb: &Framebuffer, k: WinKind) -> (r: (usize, usize, usize, usize))
        requires
            self.wf(fb),
        ensures
            (r.0 as int, r.1 as int, r.2 as int, r.3 as int) == self@.rect_of(k),
            r.0 <= COORD_MAX && r.1 <= COORD_MAX && r.2 <= COORD_MAX && r.3 <= COORD_MAX,
    {
        proof {
            lemma_rects_small(self, fb, k);
        }
        match k {
            WinKind::Console => self.console.rect(fb),
            WinKind::Explorer => self.explorer.rect(fb),
            WinKind::Clipboard => self.clipboard.rect(fb),
        }
    }

    /// The topmost shown window (see `focused`).
    fn focused_kind(&self) -> (r: Option<WinKind>)
        requires
            is_order(self.order@),
        ensures
            r == self@.focused(),
    {
        let mut n: usize = self.order.len();
        while n > 0
            invariant
                n <= self.order@.len() == 3,
                self@.focused() == self@.top_from(n as int),
            decreases n,
        {
            let k = self.order[n - 1];
            if self.win_visible(k) {
                return Some(k);
            }
            n = n - 1;
        }
        None
    }

    /// The window shown at depth `i` of the stacking order (`0` at the
    /// back), if it is shown; windows are drawn from the back.
    pub fn layer(&self, i: usize) -> (r: Option<WinKind>)
        requires
            i < self.order@.len(),
        ensures
            r == if self@.visible_of(self.order@[i as int]) {
                Some(self.order@[i as int])
            } else {
                None
            },
    {
        let k = self.order[i];
        if self.win_visible(k) {
            Some(k)
        } else {
            None
        }
    }

    fn win_set_pos(&mut self, fb: &Framebuffer, k: WinKind, x: usize, y: usize)
        requires
            old(self).wf(fb),
            x <= COORD_MAX,
            y <= COORD_MAX,
        ensures
            final(self).wf(fb),
            final(self)@ == old(self)@.moved(k, x, y),
    {
        match k {
            WinKind::Console => self.console.set_pos(x, y),
            WinKind::Explorer => self.explorer.set_pos(x, y),
            WinKind::Clipboard => self.clipboard.set_pos(x, y),
        }
    }

    fn win_show(&mut self, fb: &Framebuffer, k: WinKind)
        requires
            old(self).wf(fb),
        ensures
            final(self).wf(fb),
            final(self)@ == old(self)@.shown(k),
    {
        match k {
            WinKind::Console => self.console.show(fb),
            WinKind::Explorer => self.explorer.show(fb),
            WinKind::Clipboard => self.clipboard.show(fb),
        }
    }

    fn win_hide(&mut self, fb: &Framebuffer, k: WinKind)
        requires
            old(self).wf(fb),
        ensures
            final(self).wf(fb),
            final(self)@ == old(self)@.hidden(k),
    {
        match k {
            WinKind::Console => self.console.hide_window(fb),
            WinKind::Explorer => self.explorer.hide_window(fb),
            WinKind::Clipboard => self.clipboard.hide_window(fb),
        }
    }

    fn win_front(&mut self, fb: &Framebuffer, k: WinKind)
        requires
            old(self).wf(fb),
        ensures
            final(self).wf(fb),
            final(self)@ == old(self)@.fronted(k),
    {
        proof {
            lemma_front_keeps_order(self.order@, k);
        }
        bring_to_front(&mut self.order, k);
    }

    fn win_click(&mut self, fb: &Framebuffer, k: WinKind, x: usize, y: usize) -> (r: Option<
        (WinKind, usize, usize, usize),
    >)
        requires
            old(self).wf(fb),
        ensures
            final(self).wf(fb),
            (final(self)@, r) == old(self)@.body_clicked(k, x as int, y as int),
    {
        let c = match k {
            WinKind::Console => {
                self.console.handle_click(fb, x, y);
                ClickResult::Handled
            },
            WinKind::Explorer => self.explorer.handle_click(fb, x, y),
            WinKind::Clipboard => self.clipboard.handle_click(fb, &mut self.clip, x, y),
        };
        match k {
            WinKind::Console => None,
            _ => match c {
                ClickResult::TrackJump { offset, track_h, max_scroll } => Some((k, offset, track_h, max_scroll)),
                _ => None,
            },
        }
    }

    /// A press with the start menu closed (see `window_pressed`).
    fn press_windows(&mut self, fb: &Framebuffer) -> (r: Option<(WinKind, usize, usize, usize)>)
        requires
            old(self).wf(fb),
        ensures
            final(self).wf(fb),
            (final(self)@, r) == old(self)@.window_pressed(old(self).mouse_x as int, old(self).mouse_y as int),
    {
        let mx = self.mouse_x;
        let my = self.mouse_y;
        let ghost v = self@;
        let mut n: usize = 3;
        while n > 0
            invariant
                n <= 3,
                self.wf(fb),
                self@ == v,
                v == old(self)@,
                mx == v.mouse_x && my == v.mouse_y,
                v.hit_from(mx as int, my as int, 3) == v.hit_from(mx as int, my as int, n as int),
            decreases n,
        {
            let k = self.order[n - 1];
            if self.win_visible(k) {
                let (wx, wy, ww, wh) = self.win_rect(fb, k);
                let close = close_rect(wx, wy, ww);
                if hit(mx, my, close) {
                    self.win_hide(fb, k);
                    self.need_redraw = true;
                    return None;
                }
                let header = header_rect(wx, wy, ww);
                if hit(mx, my, header) {
                    self.win_front(fb, k);
                    self.dragging = Some((k, mx.saturating_sub(wx), my.saturating_sub(wy)));
                    self.need_redraw = true;
                    return None;
                }
                if hit(mx, my, (wx, wy, ww, wh)) {
                    self.win_front(fb, k);
                    let j = self.win_click(fb, k, mx, my);
                    self.need_redraw = true;
                    return j;
                }
            }
            n = n - 1;
        }
        self.dragging = None;
        None
    }

    /// A press with the start menu open (see `menu_pressed`).
    fn press_menu(&mut self, fb: &Framebuffer) -> (r: Option<StartAction>)
        requires
            old(self).wf(fb),
            old(self).start_menu@.visible,
        ensures
            final(self).wf(fb),
            (final(self)@, r) == old(self)@.menu_pressed(old(self).mouse_x as int, old(self).mouse_y as int),
    {
        let a = self.start_menu.handle_click(fb, self.mouse_x, self.mouse_y);
        let mut power: Option<StartAction> = None;
        match a {
            Some(action) => {
                match action {
                    StartAction::OpenConsole => {
                        self.start_menu.hide_window(fb);
                        self.win_show(fb, WinKind::Console);
                        self.win_front(fb, WinKind::Console);
                    },
                    StartAction::OpenExplorer => {
                        self.start_menu.hide_window(fb);
                        self.win_show(fb, WinKind::Explorer);
                        self.win_front(fb, WinKind::Explorer);
                    },
                    StartAction::OpenClipboard => {
                        self.start_menu.hide_window(fb);
                        self.win_show(fb, WinKind::Clipboard);
                        self.win_front(fb, WinKind::Clipboard);
                    },
                    StartAction::OpenBin => {
                        self.start_menu.hide_window(fb);
                        self.explorer.show_bin(fb);
                        self.win_front(fb, WinKind::Explorer);
                    },
                    StartAction::OpenCalculator => {},
                    StartAction::ToggleTheme => {
                        toggle_theme(&mut self.sys);
                        self.status_visible = false;
                    },
                    StartAction::Reboot => {
                        self.start_menu.hide_window(fb);
                        power = Some(StartAction::Reboot);
                    },
                    StartAction::Shutdown => {
                        self.start_menu.hide_window(fb);
                        power = Some(StartAction::Shutdown);
                    },
                }
                self.need_redraw = true;
            },
            None => {},
        }
        power
    }

    /// Moves the dragged window along (see `dragged`).
    #[verifier::rlimit(40)]
    fn drag(&mut self, fb: &Framebuffer)
        requires
            old(self).wf(fb),
        ensures
            final(self).wf(fb),
            final(self)@ == old(self)@.dragged(),
    {
        match self.dragging {
            Some((k, off_x, off_y)) => {
                let (wx, wy, ww, wh) = self.win_rect(fb, k);
                let mut nx = self.mouse_x.saturating_sub(off_x);
                let mut ny = self.mouse_y.saturating_sub(off_y);
                let max_x = fb.width.saturating_sub(ww);
                let bar = if self.sys.ui.status_bar { STATUS_BAR_H } else { 0 };
                let max_y = fb.height.saturating_sub(wh + bar);
                if nx > max_x {
                    nx = max_x;
                }
                if ny > max_y {
                    ny = max_y;
                }
                proof {
                    let r = self@.rect_of(k);
                    let bar_i: int = if self.sys.ui.status_bar { STATUS_BAR_H as int } else { 0 };
                    assert(nx as int == min_int(sat_sub(self.mouse_x as int, off_x as int), sat_sub(self.screen_w as int, r.2)));
                    assert(ny as int == min_int(sat_sub(self.mouse_y as int, off_y as int), sat_sub(self.screen_h as int, r.3 + bar_i)));
                }
                if nx != wx || ny != wy {
                    self.win_set_pos(fb, k, nx, ny);
                    self.need_redraw = true;
                }
            },
            None => {},
        }
    }

    /// Moves the pointer by `(dx, dy)` (see `pointer_moved`).
    fn move_pointer(&mut self, fb: &Framebuffer, dx: i32, dy: i32) -> (r: Option<(usize, usize)>)
        requires
            old(self).wf(fb),
            -0x0800_0000 <= dx <= 0x0800_0000,
            -0x0800_0000 <= dy <= 0x0800_0000,
        ensures
            final(self).wf(fb),
            (final(self)@, r) == old(self)@.pointer_moved(dx as int, dy as int),
    {
        let mut moved: Option<(usize, usize)> = None;
        if dx != 0 || dy != 0 {
            let nx = move_axis(self.mouse_x, dx, fb.width, CURSOR_W);
            let ny = move_axis(self.mouse_y, -dy, fb.height, CURSOR_H);
            if nx != self.mouse_x || ny != self.mouse_y {
                if self.dragging.is_some() || self.need_redraw {
                    self.mouse_x = nx;
                    self.mouse_y = ny;
                    self.need_redraw = true;
                } else {
                    moved = Some((self.mouse_x, self.mouse_y));
                    self.mouse_x = nx;
                    self.mouse_y = ny;
                }
            }
        }
        moved
    }

    /// The buttons of a report (see `buttons_done`).
    fn take_buttons(&mut self, fb: &Framebuffer, buttons: u8) -> (r: (Option<StartAction>, Option<
        (WinKind, usize, usize, usize),
    >))
        requires
            old(self).wf(fb),
        ensures
            final(self).wf(fb),
            (final(self)@, r.0, r.1) == old(self)@.buttons_done(buttons),
    {
        let left = (buttons & 1) != 0;
        let prev_left = (self.prev_buttons & 1) != 0;
        if !left && prev_left {
            self.dragging = None;
        }
        if left {
            self.drag(fb);
        }
        let mut power: Option<StartAction> = None;
        let mut jump: Option<(WinKind, usize, usize, usize)> = None;
        if left && !prev_left {
            if self.start_menu.is_visible() {
                power = self.press_menu(fb);
            } else {
                jump = self.press_windows(fb);
            }
        }
        self.prev_buttons = buttons;
        (power, jump)
    }

    /// A complete movement report (see `packet_done`).
    fn take_packet(&mut self, fb: &Framebuffer) -> (r: MouseStep)
        requires
            old(self).wf(fb),
            scale_ok(old(self).sys.ui.mouse_scale),
        ensures
            final(self).wf(fb),
            !r.skip,
            (final(self)@, r.moved, r.power, r.jump) == old(self)@.packet_done(),
    {
        let (p0, p1, p2) = self.packet;
        let buttons = p0 & 0x07;
        let scale = self.sys.ui.mouse_scale;
        proof {
            let a = p1 as i8 as int;
            let b = p2 as i8 as int;
            assert(-0x0800_0000 <= a * scale <= 0x0800_0000) by (nonlinear_arith)
                requires
                    -128 <= a <= 127,
                    -0x0010_0000 <= scale <= 0x0010_0000,
            ;
            assert(-0x0800_0000 <= b * scale <= 0x0800_0000) by (nonlinear_arith)
                requires
                    -128 <= b <= 127,
                    -0x0010_0000 <= scale <= 0x0010_0000,
            ;
        }
        let dx = (p1 as i8 as i32) * scale;
        let dy = (p2 as i8 as i32) * scale;
        let moved = self.move_pointer(fb, dx, dy);
        let (power, jump) = self.take_buttons(fb, buttons);
        MouseStep { skip: false, moved, power, jump }
    }

    /// Takes one byte from the mouse. A report is three bytes, the first
    /// with bit 3 set; a stray byte where a report should start is dropped
    /// and ends the round (`skip`). The third byte completes the report (see
    /// `packet_done`).
    pub fn mouse_byte(&mut self, fb: &Framebuffer, b: u8) -> (r: MouseStep)
        requires
            old(self).wf(fb),
            scale_ok(old(self).sys.ui.mouse_scale),
        ensures
            final(self).wf(fb),
            old(self).idx == 0 && b & 8u8 == 0 ==> final(self)@ == old(self)@ && r.skip && r.moved.is_none()
                && r.power.is_none() && r.jump.is_none(),
            !(old(self).idx == 0 && b & 8u8 == 0) && old(self).idx < 2 ==> final(self)@ == (DeskView {
                packet: old(self)@.packet_with(b),
                idx: (old(self).idx + 1) as usize,
                ..old(self)@
            }) && !r.skip && r.moved.is_none() && r.power.is_none() && r.jump.is_none(),
            !(old(self).idx == 0 && b & 8u8 == 0) && old(self).idx == 2 ==> !r.skip && (
                final(self)@,
                r.moved,
                r.power,
                r.jump,
            ) == (DeskView { packet: old(self)@.packet_with(b), idx: 0, ..old(self)@ }).packet_done(),
    {
        let none = MouseStep { skip: false, moved: None, power: None, jump: None };
        if self.idx == 0 && (b & 0x08) == 0 {
            return MouseStep { skip: true, ..none };
        }
        if self.idx == 0 {
            self.packet.0 = b;
        } else if self.idx == 1 {
            self.packet.1 = b;
        } else {
            self.packet.2 = b;
        }
        self.idx = self.idx + 1;
        if self.idx == 3 {
            self.idx = 0;
            return self.take_packet(fb);
        }
        none
    }

    /// Finishes a click on window `k`'s scroll track: it scrolls to `line`.
    pub fn finish_jump(&mut self, fb: &Framebuffer, k: WinKind, line: usize)
        requires
            old(self).wf(fb),
        ensures
            final(self).wf(fb),
            final(self)@ == old(self)@.jumped(k, line),
    {
        match k {
            WinKind::Console => {},
            WinKind::Explorer => self.explorer.scroll_to(fb, line),
            WinKind::Clipboard => self.clipboard.scroll_to(fb, &self.clip, line),
        }
    }
}

impl Desktop {
    /// The byte scan code `sc` would type into the console (see
    /// `key_typed`).
    pub fn key_target(&self, sc: u8) -> (r: Option<u8>)
        requires
            is_order(self.order@),
        ensures
            r == self@.key_typed(sc),
    {
        let released = (sc & 0x80) != 0;
        let code = sc & 0x7F;
        proof {
            assert(released == (sc >= 128) && code == sc % 128) by (bit_vector)
                requires
                    released == (sc & 0x80 != 0),
                    code == sc & 0x7F,
            ;
        }
        if sc == 0xE0 || (!released && code == 0x01) || self.extended || self.start_menu.is_visible() {
            return None;
        }
        match self.focused_kind() {
            Some(WinKind::Console) => {},
            _ => {
                return None;
            },
        }
        if code == 0x2A || code == 0x36 || code == 0x1D || released {
            return None;
        }
        if (self.win_key && code == 0x13) || !self.console.is_visible() {
            return None;
        }
        if self.ctrl && (code == 0x2E || code == 0x2F) {
            return None;
        }
        scancode_to_ascii(code, self.shift)
    }

    /// Whether `key_byte` may take scan code `sc` at clock reading `now`:
    /// false exactly when it would run a console command that cannot be
    /// carried out (see `command_safe`).
    pub fn key_is_safe(&self, sc: u8, now: Option<RtcTime>) -> (r: bool)
        requires
            is_order(self.order@),
        ensures
            r == (self@.key_typed(sc) == Some(10u8) ==> command_safe(
                self.console.input@,
                self.console.input@.len() as int,
                self.sys,
                now,
            )),
    {
        match self.key_target(sc) {
            Some(ch) => if ch == 10 {
                command_is_safe(self.console.input.as_slice(), self.console.input.len(), &self.sys, now)
            } else {
                true
            },
            None => true,
        }
    }

    /// Esc (see `escaped`).
    fn key_escape(&mut self, fb: &Framebuffer)
        requires
            old(self).wf(fb),
        ensures
            final(self).wf(fb),
            final(self)@ == old(self)@.escaped(),
    {
        if self.start_menu.is_visible() {
            self.start_menu.hide_window(fb);
            self.need_redraw = true;
        } else {
            match self.focused_kind() {
                Some(k) => {
                    self.win_hide(fb, k);
                    self.need_redraw = true;
                },
                None => {},
            }
        }
    }

    /// An extended key (see `ext_keyed`).
    fn key_extended(&mut self, fb: &Framebuffer, released: bool, code: u8)
        requires
            old(self).wf(fb),
        ensures
            final(self).wf(fb),
            final(self)@ == old(self)@.ext_keyed(released, code),
    {
        if code == 0x1D {
            self.ctrl = !released;
            return;
        }
        if code == 0x48 {
            if !released && self.clipboard.is_visible() {
                self.clipboard.scroll_up(fb);
                self.need_redraw = true;
            }
            return;
        }
        if code == 0x50 {
            if !released && self.clipboard.is_visible() {
                self.clipboard.scroll_down(fb, &self.clip);
                self.need_redraw = true;
            }
            return;
        }
        if code == 0x5B || code == 0x5C {
            if !released {
                if self.start_menu.is_visible() {
                    self.start_menu.hide_window(fb);
                } else {
                    self.start_menu.show(fb);
                }
                self.need_redraw = true;
            }
            self.win_key = !released;
        }
    }

    /// Types `ch` into the shown console and takes the action it leaves
    /// (see `types_into`).
    fn type_char(&mut self, fb: &Framebuffer, ch: u8, now: Option<RtcTime>)
        requires
            old(self).wf(fb),
            old(self).console.visible,
            ch == 10u8 ==> command_safe(
                old(self).console.input@,
                old(self).console.input@.len() as int,
                old(self).sys,
                now,
            ),
        ensures
            final(self).wf(fb),
            types_into(old(self)@, ch, now, final(self)@),
    {
        if self.console.handle_char(ch, &mut self.sys, &mut self.clip, now) {
            self.need_redraw = true;
        }
        let ghost typed_state = self@;
        let a = self.console.take_action();
        proof {
            assert(typed_state.console == ConsoleView { action: a, ..self@.console });
        }
        match a {
            ConsoleAction::OpenExplorer => {
                self.win_show(fb, WinKind::Explorer);
                self.win_front(fb, WinKind::Explorer);
                self.need_redraw = true;
            },
            ConsoleAction::OpenClipboard => {
                self.win_show(fb, WinKind::Clipboard);
                self.win_front(fb, WinKind::Clipboard);
                self.need_redraw = true;
            },
            _ => {},
        }
    }

    /// A plain key reaching the console on top (see `console_keyed`, and
    /// `types_into` for a typed byte).
    fn key_console(&mut self, fb: &Framebuffer, released: bool, code: u8, now: Option<RtcTime>)
        requires
            old(self).wf(fb),
            old(self)@.console_types(released, code) && key_char(code, old(self).shift) == Some(10u8)
                ==> command_safe(
                old(self).console.input@,
                old(self).console.input@.len() as int,
                old(self).sys,
                now,
            ),
        ensures
            final(self).wf(fb),
            !(old(self)@.console_types(released, code) && key_char(code, old(self).shift) is Some)
                ==> final(self)@ == old(self)@.console_keyed(released, code),
            old(self)@.console_types(released, code) ==> (key_char(code, old(self).shift) matches Some(
                ch,
            ) ==> types_into(old(self)@, ch, now, final(self)@)),
    {
        if code == 0x2A || code == 0x36 {
            self.shift = !released;
            return;
        }
        if code == 0x1D {
            self.ctrl = !released;
            return;
        }
        if released {
            return;
        }
        if self.win_key && code == 0x13 {
            if !self.console.is_visible() {
                self.win_show(fb, WinKind::Console);
                self.win_front(fb, WinKind::Console);
                self.need_redraw = true;
            }
            return;
        }
        if !self.console.is_visible() {
            return;
        }
        if self.ctrl {
            if code == 0x2E {
                self.console.copy_input(&mut self.clip);
                return;
            }
            if code == 0x2F {
                self.console.paste_clipboard(&self.clip);
                self.need_redraw = true;
                return;
            }
        }
        match scancode_to_ascii(code, self.shift) {
            Some(ch) => self.type_char(fb, ch, now),
            None => {},
        }
    }

    /// Takes one scan code from the keyboard, with the clock reading `now`
    /// for console commands. On every path but typing see `keyed`; a typed
    /// byte goes to the console (see `types_into`).
    pub fn key_byte(&mut self, fb: &Framebuffer, sc: u8, now: Option<RtcTime>)
        requires
            old(self).wf(fb),
            old(self)@.key_typed(sc) == Some(10u8) ==> command_safe(
                old(self).console.input@,
                old(self).console.input@.len() as int,
                old(self).sys,
                now,
            ),
        ensures
            final(self).wf(fb),
            old(self)@.key_typed(sc) is None ==> final(self)@ == old(self)@.keyed(sc),
            old(self)@.key_typed(sc) matches Some(ch) ==> types_into(old(self)@, ch, now, final(self)@),
    {
        if sc == 0xE0 {
            self.extended = true;
            return;
        }
        let released = (sc & 0x80) != 0;
        let code = sc & 0x7F;
        proof {
            assert(released == (sc >= 128) && code == sc % 128) by (bit_vector)
                requires
                    released == (sc & 0x80 != 0),
                    code == sc & 0x7F,
            ;
        }
        if !released && code == 0x01 {
            self.key_escape(fb);
            return;
        }
        if self.extended {
            self.extended = false;
            self.key_extended(fb, released, code);
            return;
        }
        if self.start_menu.is_visible() {
            return;
        }
        match self.focused_kind() {
            Some(WinKind::Console) => {},
            _ => {
                return;
            },
        }
        self.key_console(fb, released, code, now);
    }
}

/// Typing `ch` into the console of desktop `o` (with clock reading `now`)
/// leaves desktop `f`: the console, settings and clipboard as the console
/// leaves them (see `typed`), its pending action taken, and the desktop as
/// that action leaves it (see `acted`).
pub open spec fn types_into(o: DeskView, ch: u8, now: Option<RtcTime>, f: DeskView) -> bool {
    let ta = typed_action(o.console, ch, o.sys, o.clip, now);
    &&& typed(o.console, ch, o.sys, o.clip, now, ConsoleView { action: ta, ..f.console }, f.sys, f.clip)
    &&& f.console.action == ConsoleAction::Idle
    &&& f == DeskView { console: f.console, sys: f.sys, clip: f.clip, ..o.acted(ta) }
}

/// The cursor stays on the screen: after any movement it lies between 0 and
/// the last place where the whole cursor fits (0 on a screen too small).
pub proof fn lemma_cursor_on_screen(pos: int, delta: int, extent: int, size: int)
    requires
        0 <= size,
    ensures
        0 <= cursor_axis(pos, delta, extent, size),
        extent >= size + 1 ==> cursor_axis(pos, delta, extent, size) + size + 1 <= extent,
{
}

} // verus!
