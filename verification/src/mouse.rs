use vstd::prelude::*;
use crate::display::Framebuffer;
use crate::input::{cursor_axis, move_axis, CURSOR_H, CURSOR_W};
use crate::text::COORD_MAX;

verus! {

/// The pointer-only loop's state: where the cursor is, and the mouse
/// report being received.
pub struct MouseRun {
    pub mouse_x: usize,
    pub mouse_y: usize,
    pub packet: (u8, u8, u8),
    pub idx: usize,
}

impl MouseRun {
    /// The cursor in the middle of `fb`, no report begun.
    pub fn new(fb: &Framebuffer) -> (m: MouseRun)
        ensures
            m.mouse_x == (if fb.width > 0 { (fb.width - 1) / 2 } else { 0 }),
            m.mouse_y == (if fb.height > 0 { (fb.height - 1) / 2 } else { 0 }),
            m.idx == 0,
            m.packet == (0u8, 0u8, 0u8),
    {
        MouseRun {
            mouse_x: fb.width.saturating_sub(1) / 2,
            mouse_y: fb.height.saturating_sub(1) / 2,
            packet: (0, 0, 0),
            idx: 0,
        }
    }

    /// The cursor is on a screen of the drawing code's scale.
    pub open spec fn wf(&self, fb: &Framebuffer) -> bool {
        &&& fb.width <= COORD_MAX
        &&& fb.height <= COORD_MAX
        &&& self.mouse_x <= COORD_MAX
        &&& self.mouse_y <= COORD_MAX
        &&& self.idx < 3
    }
}

/// One byte of the pointer-only loop. Bytes build three-byte reports, the
/// first with bit 3 set (a stray byte where a report should start is
/// dropped). A complete report with any movement moves the cursor, kept on
/// screen (up for a positive `dy`), and returns where it was: the caller
/// puts the background back there, then saves it and draws the cursor at
/// the new place.
pub fn run(m: &mut MouseRun, fb: &Framebuffer, b: u8) -> (r: Option<(usize, usize)>)
    requires
        old(m).wf(fb),
    ensures
        final(m).wf(fb),
        old(m).idx == 0 && b & 8u8 == 0 ==> *final(m) == *old(m) && r.is_none(),
        !(old(m).idx == 0 && b & 8u8 == 0) && old(m).idx < 2 ==> r.is_none() && final(m).idx == old(m).idx + 1
            && final(m).mouse_x == old(m).mouse_x && final(m).mouse_y == old(m).mouse_y,
        !(old(m).idx == 0 && b & 8u8 == 0) && old(m).idx == 2 ==> {
            let dx = old(m).packet.1 as i8 as int;
            let dy = b as i8 as int;
            &&& final(m).idx == 0
            &&& (dx != 0 || dy != 0) ==> r == Some((old(m).mouse_x, old(m).mouse_y))
                && final(m).mouse_x == cursor_axis(old(m).mouse_x as int, dx, fb.width as int, CURSOR_W as int)
                && final(m).mouse_y == cursor_axis(old(m).mouse_y as int, -dy, fb.height as int, CURSOR_H as int)
            &&& (dx == 0 && dy == 0) ==> r.is_none() && final(m).mouse_x == old(m).mouse_x && final(m).mouse_y
                == old(m).mouse_y
        },
        old(m).idx == 0 ==> final(m).packet.0 == (if b & 8u8 == 0 { old(m).packet.0 } else { b }),
        old(m).idx == 1 ==> final(m).packet.1 == b,
{
    if m.idx == 0 && (b & 0x08) == 0 {
        return None;
    }
    if m.idx == 0 {
        m.packet.0 = b;
    } else if m.idx == 1 {
        m.packet.1 = b;
    } else {
        m.packet.2 = b;
    }
    m.idx = m.idx + 1;
    if m.idx < 3 {
        return None;
    }
    m.idx = 0;
    let dx = m.packet.1 as i8 as i32;
    let dy = m.packet.2 as i8 as i32;
    if dx != 0 || dy != 0 {
        let prev = (m.mouse_x, m.mouse_y);
        m.mouse_x = move_axis(m.mouse_x, dx, fb.width, CURSOR_W);
        m.mouse_y = move_axis(m.mouse_y, -dy, fb.height, CURSOR_H);
        return Some(prev);
    }
    None
}

} // verus!
