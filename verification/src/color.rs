use vstd::prelude::*;
use crate::display::{Framebuffer, fill_rect, in_area, kept_above};

verus! {

/// Red channel of a `0x00RRGGBB` colour.
pub open spec fn red(c: u32) -> int {
    (c as int / 0x10000) % 0x100
}

/// Green channel of a `0x00RRGGBB` colour.
pub open spec fn green(c: u32) -> int {
    (c as int / 0x100) % 0x100
}

/// Blue channel of a `0x00RRGGBB` colour.
pub open spec fn blue(c: u32) -> int {
    c as int % 0x100
}

/// The colour `0x00RRGGBB` with the given channels.
pub open spec fn rgb(r: int, g: int, b: int) -> int {
    r * 0x10000 + g * 0x100 + b
}

/// Shifting and masking reads the channels.
pub proof fn lemma_channels(c: u32)
    ensures
        (c >> 16u32) & 0xFFu32 == red(c),
        (c >> 8u32) & 0xFFu32 == green(c),
        c & 0xFFu32 == blue(c),
{
    assert((c >> 16u32) & 0xFFu32 == (c / 0x10000) % 0x100) by (bit_vector);
    assert((c >> 8u32) & 0xFFu32 == (c / 0x100) % 0x100) by (bit_vector);
    assert(c & 0xFFu32 == c % 0x100) by (bit_vector);
}

/// Shifting and or-ing three bytes packs them.
pub proof fn lemma_pack(r: u32, g: u32, b: u32)
    requires
        r < 256,
        g < 256,
        b < 256,
    ensures
        (r << 16u32) | (g << 8u32) | b == rgb(r as int, g as int, b as int),
        rgb(r as int, g as int, b as int) <= 0xFFFFFF,
{
    assert((r << 16u32) | (g << 8u32) | b == r * 0x10000 + g * 0x100 + b) by (bit_vector)
        requires
            r < 256,
            g < 256,
            b < 256,
    ;
}

/// One channel of `blend_rgb`: `base` moved towards `mix` by `s / 255`.
pub open spec fn blend_channel(base: int, mix: int, s: int) -> int {
    (base * (255 - s) + mix * s) / 255
}

/// Colour `base` moved towards `mix` by `s / 255`, channel by channel.
pub open spec fn blend_spec(base: u32, mix: u32, s: u8) -> int {
    rgb(
        blend_channel(red(base), red(mix), s as int),
        blend_channel(green(base), green(mix), s as int),
        blend_channel(blue(base), blue(mix), s as int),
    )
}

proof fn lemma_blend_channel(base: int, mix: int, s: int)
    requires
        0 <= base < 256,
        0 <= mix < 256,
        0 <= s <= 255,
    ensures
        0 <= blend_channel(base, mix, s) < 256,
        0 <= base * (255 - s) + mix * s <= 255 * 255,
{
    assert(0 <= base * (255 - s) + mix * s <= 255 * 255) by (nonlinear_arith)
        requires
            0 <= base < 256,
            0 <= mix < 256,
            0 <= s <= 255,
    ;
}

/// Blends two colours: `mix_strength` of 0 gives `base`, 255 gives `mix`.
pub fn blend_rgb(base: u32, mix: u32, mix_strength: u8) -> (r: u32)
    ensures
        r == blend_spec(base, mix, mix_strength),
{
    let s = mix_strength as u32;
    let inv = 255u32 - s;
    let br = (base >> 16) & 0xFF;
    let bg = (base >> 8) & 0xFF;
    let bb = base & 0xFF;
    let mr = (mix >> 16) & 0xFF;
    let mg = (mix >> 8) & 0xFF;
    let mb = mix & 0xFF;
    proof {
        lemma_channels(base);
        lemma_channels(mix);
        lemma_blend_channel(br as int, mr as int, s as int);
        lemma_blend_channel(bg as int, mg as int, s as int);
        lemma_blend_channel(bb as int, mb as int, s as int);
    }
    let r = (br * inv + mr * s) / 255;
    let g = (bg * inv + mg * s) / 255;
    let b = (bb * inv + mb * s) / 255;
    proof {
        lemma_pack(r, g, b);
    }
    (r << 16) | (g << 8) | b
}

/// One channel of `lerp_rgb`: `num / den` of the way from `a` to `b`.
pub open spec fn lerp_channel(a: int, b: int, num: int, den: int) -> int {
    (a * (den - num) + b * num) / den
}

/// Colour `num / den` of the way from `a` to `b`, channel by channel.
pub open spec fn lerp_spec(a: u32, b: u32, num: u32, den: u32) -> int {
    if den == 0 {
        a as int
    } else {
        rgb(
            lerp_channel(red(a), red(b), num as int, den as int),
            lerp_channel(green(a), green(b), num as int, den as int),
            lerp_channel(blue(a), blue(b), num as int, den as int),
        )
    }
}

proof fn lemma_lerp_channel(a: int, b: int, num: int, den: int)
    requires
        0 <= a < 256,
        0 <= b < 256,
        0 <= num <= den,
        0 < den,
        den * 255 <= u32::MAX,
    ensures
        0 <= lerp_channel(a, b, num, den) < 256,
        0 <= a * (den - num) + b * num <= den * 255,
        0 <= a * (den - num) <= den * 255,
        0 <= b * num <= den * 255,
{
    assert(0 <= a * (den - num) + b * num <= den * 255) by (nonlinear_arith)
        requires
            0 <= a < 256,
            0 <= b < 256,
            0 <= num <= den,
    ;
    assert(0 <= a * (den - num) <= den * 255) by (nonlinear_arith)
        requires
            0 <= a < 256,
            0 <= num <= den,
    ;
    assert(0 <= b * num <= den * 255) by (nonlinear_arith)
        requires
            0 <= b < 256,
            0 <= num <= den,
    ;
    assert((a * (den - num) + b * num) / den < 256) by (nonlinear_arith)
        requires
            0 <= a * (den - num) + b * num <= den * 255,
            0 < den,
    ;
}

/// Linear interpolation between two colours: `num = 0` gives `a`, `num = den` gives `b`.
pub fn lerp_rgb(a: u32, b: u32, num: u32, den: u32) -> (r: u32)
    requires
        num <= den,
        den * 255 <= u32::MAX,
    ensures
        r == lerp_spec(a, b, num, den),
{
    if den == 0 {
        return a;
    }
    let ar = (a >> 16) & 0xFF;
    let ag = (a >> 8) & 0xFF;
    let ab = a & 0xFF;
    let br = (b >> 16) & 0xFF;
    let bg = (b >> 8) & 0xFF;
    let bb = b & 0xFF;
    proof {
        lemma_channels(a);
        lemma_channels(b);
        lemma_lerp_channel(ar as int, br as int, num as int, den as int);
        lemma_lerp_channel(ag as int, bg as int, num as int, den as int);
        lemma_lerp_channel(ab as int, bb as int, num as int, den as int);
    }
    let r = (ar * (den - num) + br * num) / den;
    let g = (ag * (den - num) + bg * num) / den;
    let bl = (ab * (den - num) + bb * num) / den;
    proof {
        lemma_pack(r, g, bl);
    }
    (r << 16) | (g << 8) | bl
}

/// Colour of row `row` in a vertical gradient of height `h` from `top` to `bottom`.
pub open spec fn gradient_row(top: u32, bottom: u32, h: int, row: int) -> int {
    if h == 1 {
        top as int
    } else {
        lerp_spec(top, bottom, row as u32, (h - 1) as u32)
    }
}

/// Fills the `w * h` rectangle at `(x, y)` with a vertical gradient from `top` to `bottom`.
pub fn fill_vertical_gradient(
    fb: &mut Framebuffer,
    x: usize,
    y: usize,
    w: usize,
    h: usize,
    top: u32,
    bottom: u32,
)
    requires
        old(fb).wf(),
        x + w <= usize::MAX,
        y + h <= usize::MAX,
        h * 255 <= u32::MAX,
    ensures
        final(fb).wf(),
        final(fb).same_shape(old(fb)),
        forall|qx: int, qy: int|
            0 <= qx < old(fb).width && 0 <= qy < old(fb).height ==> #[trigger] final(fb).pixel(qx, qy)
                == if in_area(x as int, y as int, w as int, h as int, qx, qy) {
                gradient_row(top, bottom, h as int, qy - y) as u32
            } else {
                old(fb).pixel(qx, qy)
            },
        kept_above(*old(fb), *final(fb), y as int),
{
    if w == 0 || h == 0 {
        return;
    }
    if h == 1 {
        fill_rect(fb, x, y, w, 1, top);
        return;
    }
    let den = (h - 1) as u32;
    let ghost old_fb = *fb;
    let mut row: usize = 0;
    while row < h
        invariant
            fb.wf(),
            fb.same_shape(&old_fb),
            old_fb.wf(),
            1 < h,
            den == h - 1,
            row <= h,
            x + w <= usize::MAX,
            y + h <= usize::MAX,
            h * 255 <= u32::MAX,
            forall|qx: int, qy: int|
                0 <= qx < old_fb.width && 0 <= qy < old_fb.height ==> #[trigger] fb.pixel(qx, qy)
                    == if in_area(x as int, y as int, w as int, row as int, qx, qy) {
                    gradient_row(top, bottom, h as int, qy - y) as u32
                } else {
                    old_fb.pixel(qx, qy)
                },
        decreases h - row,
    {
        let c = lerp_rgb(top, bottom, row as u32, den);
        let ghost before = *fb;
        fill_rect(fb, x, y + row, w, 1, c);
        assert forall|qx: int, qy: int|
            0 <= qx < old_fb.width && 0 <= qy < old_fb.height implies #[trigger] fb.pixel(qx, qy)
                == if in_area(x as int, y as int, w as int, (row + 1) as int, qx, qy) {
                gradient_row(top, bottom, h as int, qy - y) as u32
            } else {
                old_fb.pixel(qx, qy)
            } by {
            assert(before.pixel(qx, qy) == if in_area(
                x as int,
                y as int,
                w as int,
                row as int,
                qx,
                qy,
            ) {
                gradient_row(top, bottom, h as int, qy - y) as u32
            } else {
                old_fb.pixel(qx, qy)
            });
        }
        row = row + 1;
    }
}

/// Fills the whole screen with `rgb`.
pub fn fill(fb: &mut Framebuffer, rgb: u32)
    requires
        old(fb).wf(),
    ensures
        final(fb).wf(),
        final(fb).same_shape(old(fb)),
        forall|i: int| 0 <= i < final(fb).back@.len() ==> final(fb).back@[i] == rgb,
{
    let total = fb.back.len();
    let mut i: usize = 0;
    while i < total
        invariant
            fb.wf(),
            fb.same_shape(old(fb)),
            total == fb.back@.len(),
            i <= total,
            forall|j: int| 0 <= j < i ==> fb.back@[j] == rgb,
        decreases total - i,
    {
        fb.back.set(i, rgb);
        i = i + 1;
    }
}

} // verus!
