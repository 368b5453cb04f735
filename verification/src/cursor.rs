use vstd::prelude::*;
use crate::display::{Framebuffer, get_pixel, put_pixel};
use crate::fat32::{le32, read_u32_le};
use crate::input::{CURSOR_H, CURSOR_W};
use crate::text::COORD_MAX;

verus! {

pub const CURSOR_OUTLINE: u32 = 0x00000000;
pub const CURSOR_FILL: u32 = 0x00FFFFFF;
/// The colour a raw cursor image uses for "no pixel".
pub const CURSOR_TRANSPARENT: u32 = 0x00FF00FF;
/// Pixels behind the cursor.
pub const BACK_LEN: usize = 1024;

/// A cursor image in the raw format: width and height as little-endian
/// 32-bit words, then the pixels row by row, 4 bytes each (blue, green,
/// red, unused).
pub struct CursorRaw {
    pub data: Vec<u8>,
}

/// The screen behind the cursor, `CURSOR_W * CURSOR_H` pixels row by row.
pub struct CursorBack {
    pub pixels: Vec<u32>,
}

impl CursorBack {
    /// A black background.
    pub fn new() -> (b: CursorBack)
        ensures
            b.pixels@ == Seq::new(BACK_LEN as nat, |i: int| 0u32),
    {
        let mut pixels: Vec<u32> = Vec::new();
        let mut i: usize = 0;
        while i < BACK_LEN
            invariant
                i <= BACK_LEN,
                pixels@ == Seq::new(i as nat, |j: int| 0u32),
            decreases BACK_LEN - i,
        {
            pixels.push(0);
            i = i + 1;
            proof {
                assert(pixels@ =~= Seq::new(i as nat, |j: int| 0u32));
            }
        }
        CursorBack { pixels }
    }
}

/// Whether `(qx, qy)` lies in the cursor's box at `(x0, y0)`.
pub open spec fn in_box(x0: int, y0: int, qx: int, qy: int) -> bool {
    x0 <= qx < x0 + CURSOR_W && y0 <= qy < y0 + CURSOR_H
}

/// The background kept by `save_background` at `(x0, y0)` on `fb`: the
/// screen's pixels where the box lies on the screen, `back`'s elsewhere.
pub open spec fn saved(back: Seq<u32>, fb: &Framebuffer, x0: int, y0: int) -> Seq<u32> {
    Seq::new(
        BACK_LEN as nat,
        |i: int|
            {
                let qx = x0 + i % 32;
                let qy = y0 + i / 32;
                if qx < fb.width && qy < fb.height {
                    fb.pixel(qx, qy)
                } else {
                    back[i]
                }
            },
    )
}

/// Keeps the screen behind the cursor's box at `(x0, y0)` (see `saved`).
pub fn save_background(back: &mut CursorBack, fb: &Framebuffer, x0: usize, y0: usize)
    requires
        fb.wf(),
        old(back).pixels@.len() == BACK_LEN,
        x0 <= COORD_MAX,
        y0 <= COORD_MAX,
    ensures
        final(back).pixels@ == saved(old(back).pixels@, fb, x0 as int, y0 as int),
{
    let ghost start = back.pixels@;
    let mut idx: usize = 0;
    while idx < BACK_LEN
        invariant
            fb.wf(),
            idx <= BACK_LEN,
            x0 <= COORD_MAX,
            y0 <= COORD_MAX,
            start.len() == BACK_LEN,
            back.pixels@.len() == BACK_LEN,
            forall|i: int|
                0 <= i < BACK_LEN ==> #[trigger] back.pixels@[i] == if i < idx {
                    saved(start, fb, x0 as int, y0 as int)[i]
                } else {
                    start[i]
                },
        decreases BACK_LEN - idx,
    {
        let row = idx / CURSOR_W;
        let col = idx % CURSOR_W;
        let px = x0 + col;
        let py = y0 + row;
        if px < fb.width && py < fb.height {
            let p = get_pixel(fb, px, py);
            back.pixels.set(idx, p);
        }
        idx = idx + 1;
    }
    proof {
        assert(back.pixels@ =~= saved(start, fb, x0 as int, y0 as int));
    }
}

/// The screen after `restore_background` at `(x0, y0)` puts `back` back:
/// the box's pixels on the screen come from `back`.
pub open spec fn restored_pixel(back: Seq<u32>, fb: &Framebuffer, x0: int, y0: int, qx: int, qy: int) -> u32 {
    if in_box(x0, y0, qx, qy) {
        back[(qy - y0) * 32 + (qx - x0)]
    } else {
        fb.pixel(qx, qy)
    }
}

/// Puts the kept background back over the cursor's box at `(x0, y0)`.
pub fn restore_background(back: &CursorBack, fb: &mut Framebuffer, x0: usize, y0: usize)
    requires
        old(fb).wf(),
        back.pixels@.len() == BACK_LEN,
        x0 <= COORD_MAX,
        y0 <= COORD_MAX,
    ensures
        final(fb).wf(),
        final(fb).same_shape(old(fb)),
        forall|qx: int, qy: int|
            0 <= qx < old(fb).width && 0 <= qy < old(fb).height ==> #[trigger] final(fb).pixel(qx, qy)
                == restored_pixel(back.pixels@, old(fb), x0 as int, y0 as int, qx, qy),
{
    let ghost old_fb = *fb;
    let mut row: usize = 0;
    while row < CURSOR_H
        invariant
            fb.wf(),
            fb.same_shape(&old_fb),
            old_fb.wf(),
            row <= CURSOR_H,
            x0 <= COORD_MAX,
            y0 <= COORD_MAX,
            back.pixels@.len() == BACK_LEN,
            forall|qx: int, qy: int|
                0 <= qx < old_fb.width && 0 <= qy < old_fb.height ==> #[trigger] fb.pixel(qx, qy) == if in_box(
                    x0 as int,
                    y0 as int,
                    qx,
                    qy,
                ) && qy < y0 + row {
                    back.pixels@[(qy - y0) * 32 + (qx - x0)]
                } else {
                    old_fb.pixel(qx, qy)
                },
        decreases CURSOR_H - row,
    {
        let ghost row_start = *fb;
        let mut col: usize = 0;
        while col < CURSOR_W
            invariant
                fb.wf(),
                fb.same_shape(&old_fb),
                old_fb.wf(),
                row < CURSOR_H,
                col <= CURSOR_W,
                x0 <= COORD_MAX,
                y0 <= COORD_MAX,
                back.pixels@.len() == BACK_LEN,
                forall|qx: int, qy: int|
                    0 <= qx < old_fb.width && 0 <= qy < old_fb.height ==> #[trigger] fb.pixel(qx, qy) == if qy
                        == y0 + row && x0 <= qx < x0 + col {
                        back.pixels@[(qy - y0) * 32 + (qx - x0)]
                    } else {
                        row_start.pixel(qx, qy)
                    },
            decreases CURSOR_W - col,
        {
            let px = x0 + col;
            let py = y0 + row;
            if px < fb.width && py < fb.height {
                let rgb = back.pixels[row * CURSOR_W + col];
                put_pixel(fb, px, py, rgb);
            }
            col = col + 1;
        }
        row = row + 1;
    }
}

/// Restoring right after saving at the same place gives the screen back.
pub proof fn lemma_restore_after_save(back: Seq<u32>, fb: &Framebuffer, x0: int, y0: int, qx: int, qy: int)
    requires
        back.len() == BACK_LEN,
        0 <= qx < fb.width,
        0 <= qy < fb.height,
    ensures
        restored_pixel(saved(back, fb, x0, y0), fb, x0, y0, qx, qy) == fb.pixel(qx, qy),
{
    if in_box(x0, y0, qx, qy) {
        let i = (qy - y0) * 32 + (qx - x0);
        assert(i % 32 == qx - x0 && i / 32 == qy - y0) by (nonlinear_arith)
            requires
                i == (qy - y0) * 32 + (qx - x0),
                0 <= qx - x0 < 32,
                0 <= qy - y0 < 32,
        ;
        assert(0 <= i < BACK_LEN) by (nonlinear_arith)
            requires
                i == (qy - y0) * 32 + (qx - x0),
                0 <= qx - x0 < 32,
                0 <= qy - y0 < 32,
        ;
    }
}

/// The built-in arrow: a right triangle with its corner at the box's
/// top-left, outlined on its left edge and its diagonal.
pub open spec fn arrow_pixel(dx: int, dy: int) -> Option<u32> {
    if 0 <= dx <= dy < CURSOR_H && dx < CURSOR_W {
        Some(if dx == 0 || dx == dy { CURSOR_OUTLINE } else { CURSOR_FILL })
    } else {
        None
    }
}

/// Draws the built-in arrow at `(x0, y0)` (see `arrow_pixel`).
pub fn draw_builtin(fb: &mut Framebuffer, x0: usize, y0: usize)
    requires
        old(fb).wf(),
        x0 <= COORD_MAX,
        y0 <= COORD_MAX,
    ensures
        final(fb).wf(),
        final(fb).same_shape(old(fb)),
        forall|qx: int, qy: int|
            0 <= qx < old(fb).width && 0 <= qy < old(fb).height ==> #[trigger] final(fb).pixel(qx, qy)
                == match arrow_pixel(qx - x0, qy - y0) {
                Some(c) => c,
                None => old(fb).pixel(qx, qy),
            },
{
    let ghost old_fb = *fb;
    let mut row: usize = 0;
    while row < CURSOR_H
        invariant
            fb.wf(),
            fb.same_shape(&old_fb),
            old_fb.wf(),
            row <= CURSOR_H,
            x0 <= COORD_MAX,
            y0 <= COORD_MAX,
            forall|qx: int, qy: int|
                0 <= qx < old_fb.width && 0 <= qy < old_fb.height ==> #[trigger] fb.pixel(qx, qy) == match arrow_pixel(
                    qx - x0,
                    qy - y0,
                ) {
                    Some(c) => if qy < y0 + row {
                        c
                    } else {
                        old_fb.pixel(qx, qy)
                    },
                    None => old_fb.pixel(qx, qy),
                },
        decreases CURSOR_H - row,
    {
        let ghost row_start = *fb;
        let mut col: usize = 0;
        while col <= row && col < CURSOR_W
            invariant
                fb.wf(),
                fb.same_shape(&old_fb),
                old_fb.wf(),
                row < CURSOR_H,
                col <= row + 1,
                col <= CURSOR_W,
                x0 <= COORD_MAX,
                y0 <= COORD_MAX,
                forall|qx: int, qy: int|
                    0 <= qx < old_fb.width && 0 <= qy < old_fb.height ==> #[trigger] fb.pixel(qx, qy) == if qy
                        == y0 + row && x0 <= qx < x0 + col {
                        if qx == x0 || qx - x0 == row {
                            CURSOR_OUTLINE
                        } else {
                            CURSOR_FILL
                        }
                    } else {
                        row_start.pixel(qx, qy)
                    },
            decreases CURSOR_W - col,
        {
            let color = if col == 0 || col == row { CURSOR_OUTLINE } else { CURSOR_FILL };
            let px = x0 + col;
            let py = y0 + row;
            if px < fb.width && py < fb.height {
                put_pixel(fb, px, py, color);
            }
            col = col + 1;
        }
        row = row + 1;
    }
}

/// Size of a raw cursor image `d`, when it is one this code draws: 1 to
/// 128 pixels each way, with all its pixels present.
pub open spec fn raw_size(d: Seq<u8>) -> Option<(int, int)> {
    let w = le32(d, 0);
    let h = le32(d, 4);
    if d.len() < 8 || w == 0 || h == 0 || w > 128 || h > 128 || d.len() - 8 < w * h * 4 {
        None
    } else {
        Some((w, h))
    }
}

/// The colour of pixel `(col, row)` of a raw image `w` pixels wide.
pub open spec fn raw_pixel(d: Seq<u8>, w: int, col: int, row: int) -> u32 {
    let p = 8 + (row * w + col) * 4;
    (d[p + 2] as int * 0x10000 + d[p + 1] as int * 0x100 + d[p] as int) as u32
}

/// What the raw image `d` draws at `(dx, dy)` from its top-left corner.
pub open spec fn raw_draws(d: Seq<u8>, dx: int, dy: int) -> Option<u32> {
    match raw_size(d) {
        Some((w, h)) => if 0 <= dx < w && 0 <= dy < h && raw_pixel(d, w, dx, dy) != CURSOR_TRANSPARENT {
            Some(raw_pixel(d, w, dx, dy))
        } else {
            None
        },
        None => None,
    }
}

/// Draws the raw cursor image `data` at `(x0, y0)` (see `raw_draws`),
/// returning whether it is a drawable image; nothing is drawn when not.
pub fn draw_raw(fb: &mut Framebuffer, x0: usize, y0: usize, data: &[u8]) -> (r: bool)
    requires
        old(fb).wf(),
        x0 <= COORD_MAX,
        y0 <= COORD_MAX,
    ensures
        final(fb).wf(),
        final(fb).same_shape(old(fb)),
        r == raw_size(data@).is_some(),
        forall|qx: int, qy: int|
            0 <= qx < old(fb).width && 0 <= qy < old(fb).height ==> #[trigger] final(fb).pixel(qx, qy)
                == match raw_draws(data@, qx - x0, qy - y0) {
                Some(c) => c,
                None => old(fb).pixel(qx, qy),
            },
{
    if data.len() < 8 {
        return false;
    }
    let w = read_u32_le(data, 0) as usize;
    let h = read_u32_le(data, 4) as usize;
    if w == 0 || h == 0 || w > 128 || h > 128 {
        return false;
    }
    let pixel_len = data.len() - 8;
    proof {
        assert(w * h <= 128 * 128) by (nonlinear_arith)
            requires
                w <= 128,
                h <= 128,
        ;
    }
    if pixel_len < w * h * 4 {
        return false;
    }
    let ghost old_fb = *fb;
    let mut row: usize = 0;
    while row < h && y0 + row < fb.height
        invariant
            fb.wf(),
            fb.same_shape(&old_fb),
            old_fb.wf(),
            raw_size(data@) == Some((w as int, h as int)),
            row <= h <= 128,
            w <= 128,
            x0 <= COORD_MAX,
            y0 <= COORD_MAX,
            forall|qx: int, qy: int|
                0 <= qx < old_fb.width && 0 <= qy < old_fb.height ==> #[trigger] fb.pixel(qx, qy) == match raw_draws(
                    data@,
                    qx - x0,
                    qy - y0,
                ) {
                    Some(c) => if qy < y0 + row {
                        c
                    } else {
                        old_fb.pixel(qx, qy)
                    },
                    None => old_fb.pixel(qx, qy),
                },
        decreases h - row,
    {
        let ghost row_start = *fb;
        let mut col: usize = 0;
        while col < w && x0 + col < fb.width
            invariant
                fb.wf(),
                fb.same_shape(&old_fb),
                old_fb.wf(),
                raw_size(data@) == Some((w as int, h as int)),
                row < h <= 128,
                w <= 128,
                col <= w,
                x0 <= COORD_MAX,
                y0 <= COORD_MAX,
                forall|qx: int, qy: int|
                    0 <= qx < old_fb.width && 0 <= qy < old_fb.height ==> #[trigger] fb.pixel(qx, qy) == if qy
                        == y0 + row && x0 <= qx < x0 + col && raw_pixel(data@, w as int, qx - x0, row as int)
                        != CURSOR_TRANSPARENT {
                        raw_pixel(data@, w as int, qx - x0, row as int)
                    } else {
                        row_start.pixel(qx, qy)
                    },
            decreases w - col,
        {
            proof {
                assert(8 + (row * w + col) * 4 + 3 < data@.len() && row * w + col < 128 * 128) by (nonlinear_arith)
                    requires
                        row < h,
                        col < w,
                        h <= 128,
                        w <= 128,
                        data@.len() - 8 >= w * h * 4,
                ;
            }
            let p = 8 + (row * w + col) * 4;
            let b = data[p] as u32;
            let g = data[p + 1] as u32;
            let r = data[p + 2] as u32;
            let rgb = (r << 16) | (g << 8) | b;
            proof {
                assert((r << 16u32) | (g << 8u32) | b == r * 0x10000 + g * 0x100 + b) by (bit_vector)
                    requires
                        r < 256,
                        g < 256,
                        b < 256,
                ;
            }
            if rgb != CURSOR_TRANSPARENT {
                put_pixel(fb, x0 + col, y0 + row, rgb);
            }
            col = col + 1;
        }
        row = row + 1;
    }
    true
}

/// Draws the cursor at `(x0, y0)`: the raw image when one is given and
/// drawable, else the built-in arrow.
pub fn draw(fb: &mut Framebuffer, x0: usize, y0: usize, raw: Option<&CursorRaw>)
    requires
        old(fb).wf(),
        x0 <= COORD_MAX,
        y0 <= COORD_MAX,
    ensures
        final(fb).wf(),
        final(fb).same_shape(old(fb)),
        forall|qx: int, qy: int|
            0 <= qx < old(fb).width && 0 <= qy < old(fb).height ==> #[trigger] final(fb).pixel(qx, qy) == {
                let drawn = match raw {
                    Some(c) => if raw_size(c.data@).is_some() {
                        raw_draws(c.data@, qx - x0, qy - y0)
                    } else {
                        arrow_pixel(qx - x0, qy - y0)
                    },
                    None => arrow_pixel(qx - x0, qy - y0),
                };
                match drawn {
                    Some(c) => c,
                    None => old(fb).pixel(qx, qy),
                }
            },
{
    match raw {
        Some(c) => {
            if draw_raw(fb, x0, y0, c.data.as_slice()) {
                return;
            }
        },
        None => {},
    }
    draw_builtin(fb, x0, y0);
}

} // verus!
