use vstd::prelude::*;
use crate::fat32::{le32, read_u32_le};

verus! {

/// Largest framebuffer the back buffer can hold.
pub const MAX_W: usize = 1024;
pub const MAX_H: usize = 768;

/// The screen: its pixel format as the boot loader reported it, and the
/// back buffer that every drawing call writes to. Pixels are `0x00RRGGBB`,
/// row-major, `width * height` of them.
pub struct Framebuffer {
    pub pitch: usize,
    pub width: usize,
    pub height: usize,
    pub bpp: u8,
    pub bytes_per_pixel: usize,
    pub red_pos: u8,
    pub red_size: u8,
    pub green_pos: u8,
    pub green_size: u8,
    pub blue_pos: u8,
    pub blue_size: u8,
    pub back: Vec<u32>,
}

impl Framebuffer {
    /// The back buffer holds exactly one pixel per screen position.
    pub open spec fn wf(&self) -> bool {
        &&& self.back@.len() == self.width * self.height
        &&& self.width * self.height <= usize::MAX
    }

    /// Pixel at column `x`, row `y`.
    pub open spec fn pixel(&self, x: int, y: int) -> u32 {
        self.back@[y * self.width + x]
    }

    /// Same size and pixel format as `other`.
    pub open spec fn same_shape(&self, other: &Framebuffer) -> bool {
        &&& self.pitch == other.pitch
        &&& self.width == other.width
        &&& self.height == other.height
        &&& self.bpp == other.bpp
        &&& self.bytes_per_pixel == other.bytes_per_pixel
        &&& self.red_pos == other.red_pos
        &&& self.red_size == other.red_size
        &&& self.green_pos == other.green_pos
        &&& self.green_size == other.green_size
        &&& self.blue_pos == other.blue_pos
        &&& self.blue_size == other.blue_size
        &&& self.back@.len() == other.back@.len()
    }

    /// A framebuffer of the given format whose back buffer is `rgb` everywhere.
    pub fn new(
        pitch: usize,
        width: usize,
        height: usize,
        bpp: u8,
        red_pos: u8,
        red_size: u8,
        green_pos: u8,
        green_size: u8,
        blue_pos: u8,
        blue_size: u8,
        rgb: u32,
    ) -> (fb: Framebuffer)
        requires
            width * height <= usize::MAX,
        ensures
            fb.wf(),
            fb.pitch == pitch,
            fb.width == width,
            fb.height == height,
            fb.bpp == bpp,
            fb.bytes_per_pixel == (bpp as int + 7) / 8,
            fb.red_pos == red_pos,
            fb.red_size == red_size,
            fb.green_pos == green_pos,
            fb.green_size == green_size,
            fb.blue_pos == blue_pos,
            fb.blue_size == blue_size,
            forall|i: int| 0 <= i < fb.back@.len() ==> fb.back@[i] == rgb,
    {
        let total = width * height;
        let mut back: Vec<u32> = Vec::new();
        let mut i: usize = 0;
        while i < total
            invariant
                i <= total,
                back@.len() == i,
                forall|j: int| 0 <= j < i ==> back@[j] == rgb,
            decreases total - i,
        {
            back.push(rgb);
            i = i + 1;
        }
        Framebuffer {
            pitch,
            width,
            height,
            bpp,
            bytes_per_pixel: (bpp as usize + 7) / 8,
            red_pos,
            red_size,
            green_pos,
            green_size,
            blue_pos,
            blue_size,
            back,
        }
    }
}

/// Row-major index of `(x, y)` stays inside a `w * h` buffer.
pub proof fn lemma_index_bound(w: int, h: int, x: int, y: int)
    requires
        0 <= x < w,
        0 <= y < h,
    ensures
        0 <= y * w + x < w * h,
        y * w + x + 1 <= w * h,
{
    assert(y * w + x < w * h) by (nonlinear_arith)
        requires
            0 <= x < w,
            0 <= y < h,
    ;
    assert(0 <= y * w) by (nonlinear_arith)
        requires
            0 <= y,
            0 <= w,
    ;
}

/// Distinct positions have distinct row-major indices.
pub proof fn lemma_index_inj(w: int, x1: int, y1: int, x2: int, y2: int)
    requires
        0 <= x1 < w,
        0 <= x2 < w,
        0 <= y1,
        0 <= y2,
        x1 != x2 || y1 != y2,
    ensures
        y1 * w + x1 != y2 * w + x2,
{
    if y1 == y2 {
    } else if y1 < y2 {
        assert(y1 * w + x1 < y2 * w + x2) by (nonlinear_arith)
            requires
                0 <= x1 < w,
                0 <= x2,
                0 <= y1 < y2,
        ;
    } else {
        assert(y2 * w + x2 < y1 * w + x1) by (nonlinear_arith)
            requires
                0 <= x2 < w,
                0 <= x1,
                0 <= y2 < y1,
        ;
    }
}

/// Whether `(px, py)` lies in the `w * h` rectangle at `(x, y)`.
pub open spec fn in_area(x: int, y: int, w: int, h: int, px: int, py: int) -> bool {
    x <= px < x + w && y <= py < y + h
}

/// Every pixel outside the `w * h` rectangle at `(x, y)` is the same in
/// `after` as in `before`.
pub open spec fn kept_outside(before: Framebuffer, after: Framebuffer, x: int, y: int, w: int, h: int) -> bool {
    forall|qx: int, qy: int|
        0 <= qx < before.width && 0 <= qy < before.height && !in_area(x, y, w, h, qx, qy)
            ==> #[trigger] after.pixel(qx, qy) == before.pixel(qx, qy)
}

/// Every on-screen pixel of the `w * h` rectangle at `(x, y)` is `color`.
pub open spec fn painted(fb: Framebuffer, x: int, y: int, w: int, h: int, color: u32) -> bool {
    forall|qx: int, qy: int|
        0 <= qx < fb.width && 0 <= qy < fb.height && in_area(x, y, w, h, qx, qy)
            ==> #[trigger] fb.pixel(qx, qy) == color
}

/// Two changes each confined to a rectangle make a change confined to a
/// rectangle that holds both.
pub proof fn lemma_kept_chain(
    a: Framebuffer,
    b: Framebuffer,
    c: Framebuffer,
    bx: (int, int, int, int),
    ix: (int, int, int, int),
)
    requires
        a.same_shape(&b),
        kept_outside(a, b, bx.0, bx.1, bx.2, bx.3),
        kept_outside(b, c, ix.0, ix.1, ix.2, ix.3),
        ix.2 <= 0 || ix.3 <= 0 || (bx.0 <= ix.0 && bx.1 <= ix.1 && ix.0 + ix.2 <= bx.0 + bx.2
            && ix.1 + ix.3 <= bx.1 + bx.3),
    ensures
        kept_outside(a, c, bx.0, bx.1, bx.2, bx.3),
{
    assert forall|qx: int, qy: int|
        0 <= qx < a.width && 0 <= qy < a.height && !in_area(bx.0, bx.1, bx.2, bx.3, qx, qy)
            implies #[trigger] c.pixel(qx, qy) == a.pixel(qx, qy) by {
        assert(b.pixel(qx, qy) == a.pixel(qx, qy));
        assert(!in_area(ix.0, ix.1, ix.2, ix.3, qx, qy));
    }
}

/// A painted rectangle stays painted through a change confined to a
/// rectangle that does not meet it.
pub proof fn lemma_painted_kept(
    b: Framebuffer,
    c: Framebuffer,
    r: (int, int, int, int),
    color: u32,
    ix: (int, int, int, int),
)
    requires
        b.same_shape(&c),
        painted(b, r.0, r.1, r.2, r.3, color),
        kept_outside(b, c, ix.0, ix.1, ix.2, ix.3),
        ix.2 <= 0 || ix.3 <= 0 || ix.1 + ix.3 <= r.1 || r.1 + r.3 <= ix.1 || ix.0 + ix.2 <= r.0
            || r.0 + r.2 <= ix.0,
    ensures
        painted(c, r.0, r.1, r.2, r.3, color),
{
    assert forall|qx: int, qy: int|
        0 <= qx < c.width && 0 <= qy < c.height && in_area(r.0, r.1, r.2, r.3, qx, qy)
            implies #[trigger] c.pixel(qx, qy) == color by {
        assert(b.pixel(qx, qy) == color);
        assert(!in_area(ix.0, ix.1, ix.2, ix.3, qx, qy));
    }
}

/// A rectangle filled with one colour is painted that colour, and nothing
/// outside it changed.
pub proof fn lemma_fill_frame(before: Framebuffer, after: Framebuffer, x: int, y: int, w: int, h: int, rgb: u32)
    requires
        before.same_shape(&after),
        forall|qx: int, qy: int|
            0 <= qx < before.width && 0 <= qy < before.height ==> #[trigger] after.pixel(qx, qy)
                == if in_area(x, y, w, h, qx, qy) {
                rgb
            } else {
                before.pixel(qx, qy)
            },
    ensures
        kept_outside(before, after, x, y, w, h),
        painted(after, x, y, w, h, rgb),
{
}

/// Every pixel in a row above `top` is the same in `after` as in `before`.
pub open spec fn kept_above(before: Framebuffer, after: Framebuffer, top: int) -> bool {
    forall|qx: int, qy: int|
        0 <= qx < before.width && 0 <= qy < before.height && qy < top ==> #[trigger] after.pixel(qx, qy)
            == before.pixel(qx, qy)
}

/// A change confined to a rectangle that starts at or below `top` keeps the
/// rows above `top`.
pub proof fn lemma_above_rect(
    a: Framebuffer,
    b: Framebuffer,
    c: Framebuffer,
    top: int,
    ix: (int, int, int, int),
)
    requires
        a.same_shape(&b),
        kept_above(a, b, top),
        kept_outside(b, c, ix.0, ix.1, ix.2, ix.3),
        ix.1 >= top,
    ensures
        kept_above(a, c, top),
{
    assert forall|qx: int, qy: int|
        0 <= qx < a.width && 0 <= qy < a.height && qy < top implies #[trigger] c.pixel(qx, qy)
            == a.pixel(qx, qy) by {
        assert(b.pixel(qx, qy) == a.pixel(qx, qy));
        assert(!in_area(ix.0, ix.1, ix.2, ix.3, qx, qy));
    }
}

/// Keeping the rows above `top` twice keeps them.
pub proof fn lemma_above_trans(a: Framebuffer, b: Framebuffer, c: Framebuffer, top: int)
    requires
        a.same_shape(&b),
        kept_above(a, b, top),
        kept_above(b, c, top),
    ensures
        kept_above(a, c, top),
{
    assert forall|qx: int, qy: int|
        0 <= qx < a.width && 0 <= qy < a.height && qy < top implies #[trigger] c.pixel(qx, qy)
            == a.pixel(qx, qy) by {
        assert(b.pixel(qx, qy) == a.pixel(qx, qy));
    }
}

/// A change that keeps the rows above `t >= top` keeps those above `top`.
pub proof fn lemma_above_step(a: Framebuffer, b: Framebuffer, c: Framebuffer, top: int, t: int)
    requires
        a.same_shape(&b),
        kept_above(a, b, top),
        kept_above(b, c, t),
        t >= top,
    ensures
        kept_above(a, c, top),
{
    assert forall|qx: int, qy: int|
        0 <= qx < a.width && 0 <= qy < a.height && qy < top implies #[trigger] c.pixel(qx, qy)
            == a.pixel(qx, qy) by {
        assert(b.pixel(qx, qy) == a.pixel(qx, qy));
    }
}

/// What stays above `top` keeps a painted rectangle that lies above it.
pub proof fn lemma_above_painted(a: Framebuffer, c: Framebuffer, top: int, r: (int, int, int, int), color: u32)
    requires
        a.same_shape(&c),
        painted(a, r.0, r.1, r.2, r.3, color),
        kept_above(a, c, top),
        r.1 + r.3 <= top,
    ensures
        painted(c, r.0, r.1, r.2, r.3, color),
{
    assert forall|qx: int, qy: int|
        0 <= qx < c.width && 0 <= qy < c.height && in_area(r.0, r.1, r.2, r.3, qx, qy)
            implies #[trigger] c.pixel(qx, qy) == color by {
        assert(a.pixel(qx, qy) == color);
    }
}

/// Sets one pixel of the back buffer; positions off the screen are ignored.
pub fn put_pixel(fb: &mut Framebuffer, x: usize, y: usize, rgb: u32)
    requires
        old(fb).wf(),
    ensures
        final(fb).wf(),
        final(fb).same_shape(old(fb)),
        forall|qx: int, qy: int|
            0 <= qx < old(fb).width && 0 <= qy < old(fb).height ==> #[trigger] final(fb).pixel(qx, qy) == if qx
                == x && qy == y {
                rgb
            } else {
                old(fb).pixel(qx, qy)
            },
{
    let w = fb.width;
    let h = fb.height;
    if x >= w || y >= h {
        return;
    }
    proof {
        lemma_index_bound(w as int, h as int, x as int, y as int);
    }
    let idx = y * w + x;
    fb.back.set(idx, rgb);
    proof {
        assert forall|qx: int, qy: int| 0 <= qx < w && 0 <= qy < h implies #[trigger] fb.pixel(
            qx,
            qy,
        ) == if qx == x && qy == y {
            rgb
        } else {
            old(fb).pixel(qx, qy)
        } by {
            lemma_index_bound(w as int, h as int, qx, qy);
            if qx != x || qy != y {
                lemma_index_inj(w as int, qx, qy, x as int, y as int);
            }
        }
    }
}

/// Reads one pixel of the back buffer; positions off the screen read as 0.
pub fn get_pixel(fb: &Framebuffer, x: usize, y: usize) -> (r: u32)
    requires
        fb.wf(),
    ensures
        r == if x < fb.width && y < fb.height {
            fb.pixel(x as int, y as int)
        } else {
            0
        },
{
    if x >= fb.width || y >= fb.height {
        return 0;
    }
    proof {
        lemma_index_bound(fb.width as int, fb.height as int, x as int, y as int);
    }
    fb.back[y * fb.width + x]
}

/// Fills the part of the `w * h` rectangle at `(x, y)` that lies on the screen.
pub fn fill_rect(fb: &mut Framebuffer, x: usize, y: usize, w: usize, h: usize, rgb: u32)
    requires
        old(fb).wf(),
        x + w <= usize::MAX,
        y + h <= usize::MAX,
    ensures
        final(fb).wf(),
        final(fb).same_shape(old(fb)),
        forall|qx: int, qy: int|
            0 <= qx < old(fb).width && 0 <= qy < old(fb).height ==> #[trigger] final(fb).pixel(qx, qy) == if in_area(
                x as int,
                y as int,
                w as int,
                h as int,
                qx,
                qy,
            ) {
                rgb
            } else {
                old(fb).pixel(qx, qy)
            },
        kept_above(*old(fb), *final(fb), y as int),
{
    if w == 0 || h == 0 {
        return;
    }
    let max_x = fb.width;
    let max_y = fb.height;
    let end_x = if x + w < max_x { x + w } else { max_x };
    let end_y = if y + h < max_y { y + h } else { max_y };
    let ghost old_fb = *fb;
    let mut py = y;
    while py < end_y
        invariant
            fb.wf(),
            fb.same_shape(&old_fb),
            old_fb.wf(),
            max_x == fb.width,
            max_y == fb.height,
            end_x <= max_x,
            end_y <= max_y,
            end_x == if x + w < max_x { x + w } else { max_x as int },
            end_y == if y + h < max_y { y + h } else { max_y as int },
            y <= py,
            py <= end_y || end_y < y,
            forall|qx: int, qy: int|
                0 <= qx < max_x && 0 <= qy < max_y ==> #[trigger] fb.pixel(qx, qy) == if in_area(
                    x as int,
                    y as int,
                    w as int,
                    (py - y) as int,
                    qx,
                    qy,
                ) {
                    rgb
                } else {
                    old_fb.pixel(qx, qy)
                },
        decreases end_y - py,
    {
        let mut px = x;
        let ghost row_start = *fb;
        while px < end_x
            invariant
                fb.wf(),
                fb.same_shape(&old_fb),
                max_x == fb.width,
                max_y == fb.height,
                end_x <= max_x,
                py < end_y,
                end_y <= max_y,
                x <= px,
                px <= end_x || end_x < x,
                forall|qx: int, qy: int|
                    0 <= qx < max_x && 0 <= qy < max_y ==> #[trigger] fb.pixel(qx, qy) == if qy
                        == py && x <= qx < px {
                        rgb
                    } else {
                        row_start.pixel(qx, qy)
                    },
            decreases end_x - px,
        {
            let ghost before = *fb;
            proof {
                lemma_index_bound(max_x as int, max_y as int, px as int, py as int);
            }
            let idx = py * max_x + px;
            fb.back.set(idx, rgb);
            proof {
                assert forall|qx: int, qy: int| 0 <= qx < max_x && 0 <= qy < max_y implies #[trigger] fb.pixel(
                    qx,
                    qy,
                ) == if qy == py && x <= qx < px + 1 {
                    rgb
                } else {
                    row_start.pixel(qx, qy)
                } by {
                    lemma_index_bound(max_x as int, max_y as int, qx, qy);
                    assert(before.pixel(qx, qy) == if qy == py && x <= qx < px {
                        rgb
                    } else {
                        row_start.pixel(qx, qy)
                    });
                    if qx != px || qy != py {
                        lemma_index_inj(max_x as int, qx, qy, px as int, py as int);
                    }
                }
            }
            px = px + 1;
        }
        py = py + 1;
    }
}


/// The pixel a sprite puts at `(qx, qy)`: inside the `w * h` box at
/// `(x, y)`, the sprite's pixel there (row by row in `pixels`) unless it is
/// the `transparent` colour; `None` where the screen is left as it was.
pub open spec fn sprite_pixel(
    x: int,
    y: int,
    w: int,
    h: int,
    pixels: Seq<u32>,
    transparent: u32,
    qx: int,
    qy: int,
) -> Option<u32> {
    if in_area(x, y, w, h, qx, qy) && pixels[(qy - y) * w + (qx - x)] != transparent {
        Some(pixels[(qy - y) * w + (qx - x)])
    } else {
        None
    }
}

/// Draws the `w * h` sprite `pixels` (row by row) at `(x, y)`, skipping its
/// `transparent` pixels and what falls off the screen; nothing is drawn for
/// an empty sprite or one with fewer than `w * h` pixels.
pub fn draw_sprite(fb: &mut Framebuffer, x: usize, y: usize, w: usize, h: usize, pixels: &[u32], transparent: u32)
    requires
        old(fb).wf(),
        x + w <= usize::MAX,
        y + h <= usize::MAX,
        w * h <= usize::MAX,
    ensures
        final(fb).wf(),
        final(fb).same_shape(old(fb)),
        forall|qx: int, qy: int|
            0 <= qx < old(fb).width && 0 <= qy < old(fb).height ==> #[trigger] final(fb).pixel(qx, qy) == if w
                > 0 && h > 0 && pixels@.len() >= w * h {
                match sprite_pixel(x as int, y as int, w as int, h as int, pixels@, transparent, qx, qy) {
                    Some(p) => p,
                    None => old(fb).pixel(qx, qy),
                }
            } else {
                old(fb).pixel(qx, qy)
            },
{
    if w == 0 || h == 0 || pixels.len() < w * h {
        return;
    }
    let max_x = fb.width;
    let max_y = fb.height;
    let end_row = if y >= max_y { 0 } else if max_y - y < h { max_y - y } else { h };
    let ghost old_fb = *fb;
    let mut row: usize = 0;
    while row < end_row
        invariant
            fb.wf(),
            fb.same_shape(&old_fb),
            old_fb.wf(),
            max_x == fb.width,
            max_y == fb.height,
            0 < w,
            row <= end_row <= h,
            y + end_row <= max_y || end_row == 0,
            end_row == if y >= max_y { 0 } else if max_y - y < h { max_y - y } else { h as int },
            x + w <= usize::MAX,
            y + h <= usize::MAX,
            w * h <= pixels@.len(),
            w * h <= usize::MAX,
            forall|qx: int, qy: int|
                0 <= qx < max_x && 0 <= qy < max_y ==> #[trigger] fb.pixel(qx, qy) == match sprite_pixel(
                    x as int,
                    y as int,
                    w as int,
                    row as int,
                    pixels@,
                    transparent,
                    qx,
                    qy,
                ) {
                    Some(p) => p,
                    None => old_fb.pixel(qx, qy),
                },
        decreases end_row - row,
    {
        let py = y + row;
        proof {
            assert(row * w + w <= w * h) by (nonlinear_arith)
                requires
                    row < h,
            ;
        }
        let base = row * w;
        let ghost row_start = *fb;
        let end_col = if x >= max_x { 0 } else if max_x - x < w { max_x - x } else { w };
        let mut col: usize = 0;
        while col < end_col
            invariant
                end_col <= w,
                end_col == if x >= max_x { 0 } else if max_x - x < w { max_x - x } else { w as int },
                fb.wf(),
                fb.same_shape(&old_fb),
                max_x == fb.width,
                max_y == fb.height,
                row < h,
                py == y + row,
                py < max_y,
                col <= end_col,
                base == row * w,
                base + w <= w * h,
                w * h <= pixels@.len(),
                w * h <= usize::MAX,
                x + w <= usize::MAX,
                forall|qx: int, qy: int|
                    0 <= qx < max_x && 0 <= qy < max_y ==> #[trigger] fb.pixel(qx, qy) == if qy == py && x <= qx < x
                        + col && pixels@[base + (qx - x)] != transparent {
                        pixels@[base + (qx - x)]
                    } else {
                        row_start.pixel(qx, qy)
                    },
            decreases end_col - col,
        {
            let px = x + col;
            let rgb = pixels[base + col];
            if rgb != transparent {
                put_pixel(fb, px, py, rgb);
            }
            col = col + 1;
        }
        proof {
            assert forall|qx: int, qy: int| 0 <= qx < max_x && 0 <= qy < max_y implies #[trigger] fb.pixel(qx, qy)
                == match sprite_pixel(x as int, y as int, w as int, (row + 1) as int, pixels@, transparent, qx, qy) {
                Some(p) => p,
                None => old_fb.pixel(qx, qy),
            } by {
                if qy == py && x <= qx < x + w {
                    assert((qy - y) * w + (qx - x) == base + (qx - x)) by (nonlinear_arith)
                        requires
                            qy - y == row,
                            base == row * w,
                    ;
                }
            }
        }
        row = row + 1;
    }
    proof {
        assert forall|qx: int, qy: int| 0 <= qx < max_x && 0 <= qy < max_y implies sprite_pixel(
            x as int,
            y as int,
            w as int,
            h as int,
            pixels@,
            transparent,
            qx,
            qy,
        ) == sprite_pixel(x as int, y as int, w as int, end_row as int, pixels@, transparent, qx, qy) by {
        }
    }
}


/// The top `size` bits of an 8-bit channel value, for a channel that is
/// `size` bits wide (none for a missing channel).
pub open spec fn channel_bits(v: u32, size: u8) -> u32 {
    if size == 0 {
        0
    } else {
        v >> ((8 - size) as u32)
    }
}

/// A colour `0x00RRGGBB` packed into the screen's pixel format: each
/// channel cut to its width and shifted to its place.
pub open spec fn packed_spec(fb: &Framebuffer, rgb: u32) -> u32 {
    (channel_bits((rgb >> 16u32) & 0xFF, fb.red_size) << (fb.red_pos as u32)) | (channel_bits(
        (rgb >> 8u32) & 0xFF,
        fb.green_size,
    ) << (fb.green_pos as u32)) | (channel_bits(rgb & 0xFF, fb.blue_size) << (fb.blue_pos as u32))
}

/// The channel layout is one the pixel code handles: channels of at most
/// 8 bits at positions below 32, pixels of at most 4 bytes.
pub open spec fn layout_ok(fb: &Framebuffer) -> bool {
    &&& fb.red_size <= 8 && fb.green_size <= 8 && fb.blue_size <= 8
    &&& fb.red_pos < 32 && fb.green_pos < 32 && fb.blue_pos < 32
    &&& fb.bytes_per_pixel <= 4
}

fn channel(v: u32, size: u8) -> (r: u32)
    requires
        size <= 8,
    ensures
        r == channel_bits(v, size),
{
    if size == 0 {
        0
    } else {
        v >> ((8 - size) as u32)
    }
}

/// Packs a colour into the screen's pixel format (see `packed_spec`).
pub fn pack_color(fb: &Framebuffer, rgb: u32) -> (r: u32)
    requires
        layout_ok(fb),
    ensures
        r == packed_spec(fb, rgb),
{
    let r = (rgb >> 16u32) & 0xFF;
    let g = (rgb >> 8u32) & 0xFF;
    let b = rgb & 0xFF;
    let rp = channel(r, fb.red_size);
    let gp = channel(g, fb.green_size);
    let bp = channel(b, fb.blue_size);
    (rp << (fb.red_pos as u32)) | (gp << (fb.green_pos as u32)) | (bp << (fb.blue_pos as u32))
}

/// A channel value of `size` bits scaled to 0 to 255, rounding to nearest.
pub open spec fn expanded(val: u32, size: u8) -> u32 {
    if size == 0 {
        0
    } else {
        let max = pow2_u(size as nat) - 1;
        ((val * 255 + max / 2) / max) as u32
    }
}

/// `2` to the power `n`.
pub open spec fn pow2_u(n: nat) -> int
    decreases n,
{
    if n == 0 {
        1
    } else {
        2 * pow2_u((n - 1) as nat)
    }
}

proof fn lemma_pow2_u(n: nat)
    requires
        n <= 8,
    ensures
        1 <= pow2_u(n) <= 256,
        pow2_u(n) * 2 == pow2_u(n + 1),
{
    reveal_with_fuel(pow2_u, 10);
}

/// Scales a channel value of `size` bits (at most 8) to 0 to 255 (see
/// `expanded`).
pub fn expand_bits(val: u32, size: u8) -> (r: u32)
    requires
        size <= 8,
        val < 256,
    ensures
        r == expanded(val, size),
{
    if size == 0 {
        return 0;
    }
    proof {
        lemma_pow2_u(size as nat);
    }
    let mut p: u32 = 1;
    let mut i: u8 = 0;
    while i < size
        invariant
            i <= size <= 8,
            p == pow2_u(i as nat),
        decreases size - i,
    {
        proof {
            lemma_pow2_u(i as nat);
        }
        p = p * 2;
        i = i + 1;
    }
    let max = p - 1;
    (val * 255 + max / 2) / max
}

/// The 8-bit value of a channel of `size` bits at `pos` in a packed pixel.
pub open spec fn unpacked_channel(packed: u32, pos: u8, size: u8) -> u32 {
    if size == 0 {
        0
    } else {
        expanded(((packed >> (pos as u32)) as int % pow2_u(size as nat)) as u32, size)
    }
}

fn unpack_channel(packed: u32, pos: u8, size: u8) -> (r: u32)
    requires
        pos < 32,
        size <= 8,
    ensures
        r == unpacked_channel(packed, pos, size),
        r <= 255,
{
    if size == 0 {
        return 0;
    }
    proof {
        lemma_pow2_u(size as nat);
    }
    let mut p: u32 = 1;
    let mut i: u8 = 0;
    while i < size
        invariant
            i <= size <= 8,
            p == pow2_u(i as nat),
        decreases size - i,
    {
        proof {
            lemma_pow2_u(i as nat);
        }
        p = p * 2;
        i = i + 1;
    }
    let v = (packed >> (pos as u32)) % p;
    let r = expand_bits(v, size);
    proof {
        let max = p - 1;
        assert((v * 255 + max / 2) / (max as int) <= 255) by (nonlinear_arith)
            requires
                v <= max,
                max >= 1,
        ;
    }
    r
}

/// A packed pixel back as `0x00RRGGBB`: each channel taken from its place
/// and scaled to 8 bits.
pub fn unpack_color(fb: &Framebuffer, packed: u32) -> (r: u32)
    requires
        layout_ok(fb),
    ensures
        r == unpacked_channel(packed, fb.red_pos, fb.red_size) * 0x10000 + unpacked_channel(
            packed,
            fb.green_pos,
            fb.green_size,
        ) * 0x100 + unpacked_channel(packed, fb.blue_pos, fb.blue_size),
{
    let r = unpack_channel(packed, fb.red_pos, fb.red_size);
    let g = unpack_channel(packed, fb.green_pos, fb.green_size);
    let b = unpack_channel(packed, fb.blue_pos, fb.blue_size);
    r * 0x10000 + g * 0x100 + b
}

/// The bytes one pixel of colour `rgb` takes in screen memory: blue,
/// green, red (and a zero byte at 4 bytes per pixel) for 24- and 32-bit
/// screens, else the packed value's low bytes, least significant first.
pub open spec fn screen_bytes_spec(fb: &Framebuffer, rgb: u32) -> Seq<u8> {
    if fb.bpp == 32 || fb.bpp == 24 {
        let c = seq![(rgb % 256) as u8, (rgb / 0x100 % 256) as u8, (rgb / 0x10000 % 256) as u8];
        if fb.bytes_per_pixel == 4 {
            c.push(0u8)
        } else {
            c
        }
    } else {
        Seq::new(fb.bytes_per_pixel as nat, |i: int| (packed_spec(fb, rgb) as int / pow2_u((i * 8) as nat) % 256) as u8)
    }
}

/// The bytes one pixel of colour `rgb` takes in screen memory (see
/// `screen_bytes_spec`); none when a pixel has no bytes.
pub fn screen_bytes(fb: &Framebuffer, rgb: u32) -> (r: Vec<u8>)
    requires
        layout_ok(fb),
        fb.bytes_per_pixel >= 3 || !(fb.bpp == 32 || fb.bpp == 24),
    ensures
        fb.bytes_per_pixel == 0 ==> r@.len() == 0,
        fb.bytes_per_pixel > 0 ==> r@ == screen_bytes_spec(fb, rgb),
{
    let mut out: Vec<u8> = Vec::new();
    if fb.bytes_per_pixel == 0 {
        return out;
    }
    if fb.bpp == 32 || fb.bpp == 24 {
        out.push((rgb % 256) as u8);
        out.push((rgb / 0x100 % 256) as u8);
        out.push((rgb / 0x10000 % 256) as u8);
        if fb.bytes_per_pixel == 4 {
            out.push(0);
        }
        proof {
            assert(out@ =~= screen_bytes_spec(fb, rgb));
        }
        return out;
    }
    let packed = pack_color(fb, rgb);
    let mut i: usize = 0;
    let mut div: u64 = 1;
    while i < fb.bytes_per_pixel
        invariant
            i <= fb.bytes_per_pixel <= 4,
            div == pow2_u((i * 8) as nat),
            packed == packed_spec(fb, rgb),
            out@.len() == i,
            forall|j: int| 0 <= j < i ==> #[trigger] out@[j] == (packed as int / pow2_u((j * 8) as nat) % 256) as u8,
        decreases fb.bytes_per_pixel - i,
    {
        proof {
            lemma_pow2_u8(i as nat);
        }
        out.push((packed as u64 / div % 256) as u8);
        proof {
            lemma_pow2_step(i as nat);
        }
        div = div * 256;
        i = i + 1;
    }
    proof {
        assert(out@ =~= screen_bytes_spec(fb, rgb));
    }
    out
}

proof fn lemma_pow2_u8(i: nat)
    requires
        i < 4,
    ensures
        1 <= pow2_u(i * 8) <= 0x100_0000,
{
    if i == 0 {
        assert(pow2_u(0) == 1);
    } else if i == 1 {
        reveal_with_fuel(pow2_u, 9);
    } else if i == 2 {
        reveal_with_fuel(pow2_u, 17);
    } else {
        reveal_with_fuel(pow2_u, 25);
    }
}

proof fn lemma_pow2_add(a: nat, b: nat)
    ensures
        pow2_u(a + b) == pow2_u(a) * pow2_u(b),
    decreases b,
{
    if b > 0 {
        lemma_pow2_add(a, (b - 1) as nat);
        assert(pow2_u(a + b) == 2 * pow2_u((a + b - 1) as nat));
        assert(pow2_u(a) * pow2_u(b) == pow2_u(a) * (2 * pow2_u((b - 1) as nat)));
        assert(pow2_u(a) * (2 * pow2_u((b - 1) as nat)) == 2 * (pow2_u(a) * pow2_u((b - 1) as nat))) by (nonlinear_arith);
    }
}

proof fn lemma_pow2_step(i: nat)
    ensures
        pow2_u((i + 1) * 8) == pow2_u(i * 8) * 256,
{
    lemma_pow2_add(i * 8, 8);
    assert((i + 1) * 8 == i * 8 + 8) by (nonlinear_arith);
    reveal_with_fuel(pow2_u, 9);
}


/// The 16.16 fixed-point step that scales `src` pixels onto `dst`, in the
/// 32-bit arithmetic the scaler uses.
pub open spec fn scale_step(src: int, dst: int) -> int {
    ((src % 0x1_0000_0000) * 0x10000 % 0x1_0000_0000) / dst
}

/// The source column (or row) shown at destination column `x`.
pub open spec fn scaled_index(x: int, step: int) -> int {
    (x * step % 0x1_0000_0000) / 0x10000
}

/// The bytes per pixel a raw image of `w * h` pixels needs, saturating.
pub open spec fn raw_needed(w: int, h: int) -> int {
    if w * h * 4 > usize::MAX {
        usize::MAX as int
    } else {
        w * h * 4
    }
}

/// Whether `d` is a raw image the screen can show: an 8-byte head with a
/// non-zero width and height, followed by at least `width * height`
/// blue-green-red-alpha pixels, on a non-empty screen.
pub open spec fn raw_image_ok(fb: &Framebuffer, d: Seq<u8>) -> bool {
    &&& fb.width > 0 && fb.height > 0 && fb.pitch > 0
    &&& d.len() >= 8
    &&& le32(d, 0) > 0 && le32(d, 4) > 0
    &&& d.len() - 8 >= raw_needed(le32(d, 0), le32(d, 4))
}

/// The colour of source pixel `(sx, sy)` of the raw image `d` of width `w`.
pub open spec fn raw_pixel(d: Seq<u8>, w: int, sx: int, sy: int) -> u32 {
    let o = 8 + (sy * w + sx) * 4;
    (d[o + 2] as int * 0x10000 + d[o + 1] as int * 0x100 + d[o] as int) as u32
}

/// The raw image `d` stretched over the whole screen (nearest pixel): the
/// colour at `(x, y)`.
pub open spec fn stretched(fb: &Framebuffer, d: Seq<u8>, x: int, y: int) -> u32 {
    let w = le32(d, 0);
    let h = le32(d, 4);
    raw_pixel(d, w, scaled_index(x, scale_step(w, fb.width as int)), scaled_index(y, scale_step(h, fb.height as int)))
}

proof fn lemma_scaled_below(src: int, dst: int, x: int)
    requires
        1 <= src < 0x1_0000_0000,
        1 <= dst < 0x1_0000_0000,
        0 <= x < dst,
    ensures
        0 <= scaled_index(x, scale_step(src, dst)) < src,
        0 <= scale_step(src, dst),
{
    let step = scale_step(src, dst);
    let m = (src % 0x1_0000_0000) * 0x10000 % 0x1_0000_0000;
    assert(0 <= m < 0x1_0000_0000);
    assert(0 <= step <= m) by (nonlinear_arith)
        requires
            step == m / dst,
            dst >= 1,
            m >= 0,
    ;
    assert(x * step >= 0) by (nonlinear_arith)
        requires
            x >= 0,
            step >= 0,
    ;
    if src < 0x10000 {
        assert(src % 0x1_0000_0000 == src);
        assert(src * 0x10000 < 0x1_0000_0000);
        assert(m == src * 0x10000);
        assert(step * dst <= m) by (nonlinear_arith)
            requires
                step == m / dst,
                dst >= 1,
                m >= 0,
        ;
        assert(x * step < src * 0x10000) by (nonlinear_arith)
            requires
                step * dst <= src * 0x10000,
                0 <= x < dst,
                step >= 0,
                src >= 1,
        ;
        assert(x * step % 0x1_0000_0000 == x * step);
    }
}

/// Shows the raw image `d` (see `raw_image_ok`) stretched over the whole
/// screen, nearest pixel, and returns `true`; returns `false` and draws
/// nothing when it is not one.
pub fn draw_bgra_image(fb: &mut Framebuffer, d: &[u8]) -> (ok: bool)
    requires
        old(fb).wf(),
        old(fb).width < 0x1_0000_0000,
        old(fb).height < 0x1_0000_0000,
    ensures
        final(fb).wf(),
        final(fb).same_shape(old(fb)),
        ok == raw_image_ok(old(fb), d@),
        !ok ==> *final(fb) == *old(fb),
        ok ==> forall|x: int, y: int|
            0 <= x < old(fb).width && 0 <= y < old(fb).height ==> #[trigger] final(fb).pixel(x, y) == stretched(
                old(fb),
                d@,
                x,
                y,
            ),
{
    if fb.width == 0 || fb.height == 0 || fb.pitch == 0 {
        return false;
    }
    if d.len() < 8 {
        return false;
    }
    let w = read_u32_le(d, 0) as usize;
    let h = read_u32_le(d, 4) as usize;
    if w == 0 || h == 0 {
        return false;
    }
    let pixel_len = d.len() - 8;
    let wh = match w.checked_mul(h) {
        Some(v) => v,
        None => usize::MAX,
    };
    let expected = match wh.checked_mul(4) {
        Some(v) => v,
        None => usize::MAX,
    };
    proof {
        assert(w * h >= 0) by (nonlinear_arith)
            requires
                w >= 0,
                h >= 0,
        ;
        if w * h * 4 <= usize::MAX {
            assert(w * h <= usize::MAX);
        }
        assert(expected == raw_needed(w as int, h as int));
    }
    if pixel_len < expected {
        return false;
    }
    let dw = fb.width;
    let dh = fb.height;
    let step_x = ((w as u32) << 16u32) / (dw as u32);
    let step_y = ((h as u32) << 16u32) / (dh as u32);
    proof {
        let wu = w as u32;
        let hu = h as u32;
        assert((wu << 16u32) == (wu as int * 0x10000) % 0x1_0000_0000) by (bit_vector);
        assert((hu << 16u32) == (hu as int * 0x10000) % 0x1_0000_0000) by (bit_vector);
        assert(step_x == scale_step(w as int, dw as int));
        assert(step_y == scale_step(h as int, dh as int));
    }
    let ghost old_fb = *fb;
    assert(d@.len() == d.len());
    let mut sy_fp: u32 = 0;
    let mut y: usize = 0;
    while y < dh
        invariant
            fb.wf(),
            fb.same_shape(&old_fb),
            old_fb.wf(),
            dw == fb.width,
            dh == fb.height,
            dw < 0x1_0000_0000,
            dh < 0x1_0000_0000,
            w == le32(d@, 0),
            h == le32(d@, 4),
            1 <= w < 0x1_0000_0000,
            1 <= h < 0x1_0000_0000,
            d@.len() - 8 >= raw_needed(w as int, h as int),
            d@.len() <= usize::MAX,
            step_x == scale_step(w as int, dw as int),
            step_y == scale_step(h as int, dh as int),
            y <= dh,
            sy_fp as int == (y * step_y) % 0x1_0000_0000,
            forall|qx: int, qy: int|
                0 <= qx < dw && 0 <= qy < dh ==> #[trigger] fb.pixel(qx, qy) == if qy < y {
                    stretched(&old_fb, d@, qx, qy)
                } else {
                    old_fb.pixel(qx, qy)
                },
        decreases dh - y,
    {
        let sy = (sy_fp >> 16u32) as usize;
        proof {
            assert((sy_fp >> 16u32) == sy_fp / 0x10000) by (bit_vector);
            lemma_scaled_below(h as int, dh as int, y as int);
            assert(sy as int == scaled_index(y as int, step_y as int));
        }
        let ghost row_start = *fb;
        let mut sx_fp: u32 = 0;
        let mut x: usize = 0;
        while x < dw
            invariant
                fb.wf(),
                fb.same_shape(&old_fb),
                dw == fb.width,
                dh == fb.height,
                dw < 0x1_0000_0000,
                dh < 0x1_0000_0000,
                y < dh,
                x <= dw,
                w == le32(d@, 0),
                h == le32(d@, 4),
                1 <= w < 0x1_0000_0000,
                1 <= h < 0x1_0000_0000,
                d@.len() - 8 >= raw_needed(w as int, h as int),
                d@.len() <= usize::MAX,
                step_x == scale_step(w as int, dw as int),
                step_y == scale_step(h as int, dh as int),
                sy < h,
                sy as int == scaled_index(y as int, step_y as int),
                sx_fp as int == (x * step_x) % 0x1_0000_0000,
                forall|qx: int, qy: int|
                    0 <= qx < dw && 0 <= qy < dh ==> #[trigger] fb.pixel(qx, qy) == if qy == y && qx < x {
                        stretched(&old_fb, d@, qx, qy)
                    } else {
                        row_start.pixel(qx, qy)
                    },
            decreases dw - x,
        {
            let sx = (sx_fp >> 16u32) as usize;
            proof {
                assert((sx_fp >> 16u32) == sx_fp / 0x10000) by (bit_vector);
                lemma_scaled_below(w as int, dw as int, x as int);
                assert(sx as int == scaled_index(x as int, step_x as int));
                assert((sy * w + sx) * 4 + 3 <= w * h * 4) by (nonlinear_arith)
                    requires
                        sy < h,
                        sx < w,
                ;
                assert(w * h * 4 <= usize::MAX);
            }
            let o = 8 + (sy * w + sx) * 4;
            let b = d[o] as u32;
            let g = d[o + 1] as u32;
            let r = d[o + 2] as u32;
            let rgb = r * 0x10000 + g * 0x100 + b;
            put_pixel(fb, x, y, rgb);
            proof {
                assert(rgb == stretched(&old_fb, d@, x as int, y as int));
            }
            sx_fp = sx_fp.wrapping_add(step_x);
            proof {
                assert(sx_fp as int == ((x + 1) * step_x) % 0x1_0000_0000) by (nonlinear_arith)
                    requires
                        sx_fp as int == ((x * step_x) % 0x1_0000_0000 + step_x) % 0x1_0000_0000,
                ;
            }
            x = x + 1;
        }
        sy_fp = sy_fp.wrapping_add(step_y);
        proof {
            assert(sy_fp as int == ((y + 1) * step_y) % 0x1_0000_0000) by (nonlinear_arith)
                requires
                    sy_fp as int == ((y * step_y) % 0x1_0000_0000 + step_y) % 0x1_0000_0000,
            ;
        }
        y = y + 1;
    }
    true
}

} // verus!
