use vstd::prelude::*;
use crate::display::{Framebuffer, get_pixel, put_pixel};

verus! {

/// Largest desktop kept.
pub const MAX_W: usize = 1024;
pub const MAX_H: usize = 768;

/// The desktop background as captured: `w * h` pixels, row by row.
pub struct DesktopBack {
    pub pixels: Vec<u32>,
    pub w: usize,
    pub h: usize,
}

impl DesktopBack {
    /// Nothing captured.
    pub fn new() -> (b: DesktopBack)
        ensures
            b.wf(),
            b.w == 0 && b.h == 0,
    {
        DesktopBack { pixels: Vec::new(), w: 0, h: 0 }
    }

    /// The pixels fill the captured size, at most `MAX_W * MAX_H`.
    pub open spec fn wf(&self) -> bool {
        &&& self.w <= MAX_W
        &&& self.h <= MAX_H
        &&& self.pixels@.len() == self.w * self.h
    }
}

/// The size captured from a `fw * fh` screen: the screen, up to
/// `MAX_W * MAX_H`.
pub open spec fn kept_size(fw: int, fh: int) -> (int, int) {
    (if fw < MAX_W { fw } else { MAX_W as int }, if fh < MAX_H { fh } else { MAX_H as int })
}

/// Keeps the screen as the desktop background (its top-left
/// `MAX_W * MAX_H` pixels at most); nothing happens on an empty screen.
pub fn capture(back: &mut DesktopBack, fb: &Framebuffer)
    requires
        fb.wf(),
    ensures
        fb.width == 0 || fb.height == 0 ==> *final(back) == *old(back),
        old(back).wf() ==> final(back).wf(),
        fb.width != 0 && fb.height != 0 ==> {
            let s = kept_size(fb.width as int, fb.height as int);
            &&& final(back).wf()
            &&& final(back).w == s.0 && final(back).h == s.1
            &&& forall|x: int, y: int|
                0 <= x < s.0 && 0 <= y < s.1 ==> #[trigger] final(back).pixels@[y * s.0 + x] == fb.pixel(x, y)
        },
{
    if fb.width == 0 || fb.height == 0 {
        return;
    }
    let w = if fb.width < MAX_W { fb.width } else { MAX_W };
    let h = if fb.height < MAX_H { fb.height } else { MAX_H };
    let mut pixels: Vec<u32> = Vec::new();
    let mut y: usize = 0;
    while y < h
        invariant
            fb.wf(),
            y <= h <= MAX_H,
            0 < w <= MAX_W,
            w <= fb.width,
            h <= fb.height,
            pixels@.len() == y * w,
            forall|px: int, py: int| 0 <= px < w && 0 <= py < y ==> #[trigger] pixels@[py * w + px] == fb.pixel(px, py),
        decreases h - y,
    {
        let mut x: usize = 0;
        while x < w
            invariant
                fb.wf(),
                y < h <= MAX_H,
                x <= w <= MAX_W,
                w <= fb.width,
                h <= fb.height,
                pixels@.len() == y * w + x,
                forall|px: int, py: int| 0 <= px < w && 0 <= py < y ==> #[trigger] pixels@[py * w + px] == fb.pixel(px, py),
                forall|px: int| 0 <= px < x ==> #[trigger] pixels@[y * w + px] == fb.pixel(px, y as int),
            decreases w - x,
        {
            let p = get_pixel(fb, x, y);
            let ghost before = pixels@;
            pixels.push(p);
            proof {
                assert forall|px: int, py: int| 0 <= px < w && 0 <= py < y implies #[trigger] pixels@[py * w + px]
                    == fb.pixel(px, py) by {
                    assert(py * w + px < y * w) by (nonlinear_arith)
                        requires
                            0 <= px < w,
                            0 <= py < y,
                    ;
                    assert(pixels@[py * w + px] == before[py * w + px]);
                }
            }
            x = x + 1;
        }
        proof {
            assert(pixels@.len() == (y + 1) * w) by (nonlinear_arith)
                requires
                    pixels@.len() == y * w + w,
            ;
        }
        y = y + 1;
    }
    proof {
        assert(pixels@.len() == w * h) by (nonlinear_arith)
            requires
                pixels@.len() == h * w,
        ;
    }
    back.pixels = pixels;
    back.w = w;
    back.h = h;
}

/// The screen after `restore` puts `back` onto it: the part of the kept
/// background that fits the screen, row by row at the width that fits.
pub open spec fn restored_pixel(back: &DesktopBack, fb: &Framebuffer, x: int, y: int) -> u32 {
    let w = if back.w < fb.width { back.w as int } else { fb.width as int };
    let h = if back.h < fb.height { back.h as int } else { fb.height as int };
    if x < w && y < h {
        back.pixels@[y * w + x]
    } else {
        fb.pixel(x, y)
    }
}

/// Puts the kept desktop background back onto the screen (see
/// `restored_pixel`).
pub fn restore(back: &DesktopBack, fb: &mut Framebuffer)
    requires
        old(fb).wf(),
        back.wf(),
    ensures
        final(fb).wf(),
        final(fb).same_shape(old(fb)),
        forall|qx: int, qy: int|
            0 <= qx < old(fb).width && 0 <= qy < old(fb).height ==> #[trigger] final(fb).pixel(qx, qy)
                == restored_pixel(back, old(fb), qx, qy),
{
    let w = if back.w < fb.width { back.w } else { fb.width };
    let h = if back.h < fb.height { back.h } else { fb.height };
    if w == 0 || h == 0 {
        return;
    }
    let ghost old_fb = *fb;
    let mut y: usize = 0;
    while y < h
        invariant
            fb.wf(),
            fb.same_shape(&old_fb),
            old_fb.wf(),
            back.wf(),
            y <= h,
            w == (if back.w < old_fb.width { back.w } else { old_fb.width }),
            h == (if back.h < old_fb.height { back.h } else { old_fb.height }),
            forall|qx: int, qy: int|
                0 <= qx < old_fb.width && 0 <= qy < old_fb.height ==> #[trigger] fb.pixel(qx, qy) == if qx < w
                    && qy < y {
                    back.pixels@[qy * w + qx]
                } else {
                    old_fb.pixel(qx, qy)
                },
        decreases h - y,
    {
        let ghost row_start = *fb;
        let mut x: usize = 0;
        while x < w
            invariant
                fb.wf(),
                fb.same_shape(&old_fb),
                old_fb.wf(),
                back.wf(),
                y < h,
                x <= w,
                w == (if back.w < old_fb.width { back.w } else { old_fb.width }),
                h == (if back.h < old_fb.height { back.h } else { old_fb.height }),
                forall|qx: int, qy: int|
                    0 <= qx < old_fb.width && 0 <= qy < old_fb.height ==> #[trigger] fb.pixel(qx, qy) == if qy
                        == y && qx < x {
                        back.pixels@[qy * w + qx]
                    } else {
                        row_start.pixel(qx, qy)
                    },
            decreases w - x,
        {
            proof {
                assert(y * w + x < back.w * back.h && y * w + x < MAX_W * MAX_H) by (nonlinear_arith)
                    requires
                        y < h,
                        x < w,
                        w <= back.w <= MAX_W,
                        h <= back.h <= MAX_H,
                ;
            }
            let rgb = back.pixels[y * w + x];
            put_pixel(fb, x, y, rgb);
            x = x + 1;
        }
        y = y + 1;
    }
}

/// Restoring right after capturing the same screen gives the screen back
/// (the part of it that was kept).
pub proof fn lemma_restore_after_capture(back: &DesktopBack, fb: &Framebuffer, x: int, y: int)
    requires
        back.wf(),
        fb.width > 0 && fb.height > 0,
        back.w == kept_size(fb.width as int, fb.height as int).0,
        back.h == kept_size(fb.width as int, fb.height as int).1,
        forall|px: int, py: int|
            0 <= px < back.w && 0 <= py < back.h ==> #[trigger] back.pixels@[py * back.w + px] == fb.pixel(px, py),
        0 <= x < fb.width,
        0 <= y < fb.height,
    ensures
        restored_pixel(back, fb, x, y) == fb.pixel(x, y),
{
}

} // verus!
