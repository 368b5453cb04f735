use vstd::prelude::*;

verus! {

/// A linear framebuffer as the VESA BIOS reports it: where it starts, the
/// bytes per row, the size in pixels and the bits per pixel.
#[derive(Debug, Clone, Copy)]
pub struct FrameBuffer {
    pub addr: usize,
    pub pitch: usize,
    pub width: usize,
    pub height: usize,
    pub bpp: u8,
}

/// Bytes a pixel takes: 3 at 24 bits, 4 at 32, none (nothing is drawn) at
/// other depths.
pub open spec fn bytes_per_pixel_spec(bpp: u8) -> int {
    if bpp == 24 {
        3
    } else if bpp == 32 {
        4
    } else {
        0
    }
}

impl FrameBuffer {
    /// The framebuffer the mode information describes.
    pub fn new(addr: u32, pitch: u16, width: u16, height: u16, bpp: u8) -> (f: FrameBuffer)
        ensures
            f.addr == addr,
            f.pitch == pitch,
            f.width == width,
            f.height == height,
            f.bpp == bpp,
    {
        FrameBuffer { addr: addr as usize, pitch: pitch as usize, width: width as usize, height: height as usize, bpp }
    }

    /// Bytes a pixel takes (see `bytes_per_pixel_spec`).
    pub fn bytes_per_pixel(&self) -> (r: usize)
        ensures
            r == bytes_per_pixel_spec(self.bpp),
    {
        if self.bpp == 24 {
            3
        } else if self.bpp == 32 {
            4
        } else {
            0
        }
    }

    /// Where pixel `(x, y)` starts, in bytes from `addr`: none off the
    /// screen or at a depth nothing is drawn at.
    pub fn pixel_offset(&self, x: usize, y: usize) -> (r: Option<usize>)
        requires
            self.pitch * self.height + 4 * self.width <= usize::MAX,
        ensures
            r == if x < self.width && y < self.height && bytes_per_pixel_spec(self.bpp) != 0 {
                Some((y * self.pitch + x * bytes_per_pixel_spec(self.bpp)) as usize)
            } else {
                None
            },
    {
        if x >= self.width || y >= self.height {
            return None;
        }
        let bpp = self.bytes_per_pixel();
        if bpp == 0 {
            return None;
        }
        proof {
            assert(y * self.pitch <= self.pitch * self.height) by (nonlinear_arith)
                requires
                    y < self.height,
            ;
            assert(x * bpp <= 4 * self.width) by (nonlinear_arith)
                requires
                    x < self.width,
                    bpp <= 4,
            ;
        }
        Some(y * self.pitch + x * bpp)
    }

    /// The bytes a pixel of colour `0x00RRGGBB` is stored as: blue, green,
    /// red at 24 bits; the colour as a little-endian word at 32; none at
    /// other depths.
    pub fn encode_pixel(&self, color: u32) -> (r: Vec<u8>)
        ensures
            self.bpp == 24 ==> r@ == seq![(color % 256) as u8, (color / 256 % 256) as u8, (color / 65536 % 256) as u8],
            self.bpp == 32 ==> r@ == seq![
                (color % 256) as u8,
                (color / 256 % 256) as u8,
                (color / 65536 % 256) as u8,
                (color / 16777216) as u8,
            ],
            self.bpp != 24 && self.bpp != 32 ==> r@.len() == 0,
    {
        let mut out: Vec<u8> = Vec::new();
        if self.bpp == 24 || self.bpp == 32 {
            out.push((color & 0xFF) as u8);
            out.push(((color >> 8) & 0xFF) as u8);
            out.push(((color >> 16) & 0xFF) as u8);
            proof {
                assert((color & 0xFF) == color % 256) by (bit_vector);
                assert(((color >> 8u32) & 0xFF) == color / 256 % 256) by (bit_vector);
                assert(((color >> 16u32) & 0xFF) == color / 65536 % 256) by (bit_vector);
            }
            if self.bpp == 32 {
                out.push((color >> 24) as u8);
                proof {
                    assert((color >> 24u32) == color / 16777216) by (bit_vector);
                }
            }
        }
        proof {
            if self.bpp == 24 {
                assert(out@ =~= seq![(color % 256) as u8, (color / 256 % 256) as u8, (color / 65536 % 256) as u8]);
            }
            if self.bpp == 32 {
                assert(out@ =~= seq![
                    (color % 256) as u8,
                    (color / 256 % 256) as u8,
                    (color / 65536 % 256) as u8,
                    (color / 16777216) as u8,
                ]);
            }
        }
        out
    }
}

} // verus!
