use vstd::prelude::*;
use vstd::string::StringSliceAdditionalSpecFns;
use crate::display::{Framebuffer, put_pixel, fill_rect, in_area, kept_outside, kept_above, painted, lemma_kept_chain};

verus! {

broadcast use vstd::string::is_ascii_spec_bytes;

/// Whether every byte of `s` is 7-bit ASCII, the range the built-in font covers.
pub open spec fn ascii(s: Seq<u8>) -> bool {
    forall|i: int| 0 <= i < s.len() ==> s[i] < 128
}

/// The rows of `glyph(ch)` as a sequence.
pub open spec fn glyph_rows(ch: u8) -> Seq<u8> {
    match ch {
        0 => seq![0, 0, 0, 0, 0, 0, 0, 0],
        1 => seq![126, 129, 165, 129, 189, 153, 129, 126],
        2 => seq![126, 255, 219, 255, 195, 231, 255, 126],
        3 => seq![108, 254, 254, 254, 124, 56, 16, 0],
        4 => seq![16, 56, 124, 254, 124, 56, 16, 0],
        5 => seq![56, 124, 56, 254, 254, 124, 56, 124],
        6 => seq![16, 16, 56, 124, 254, 124, 56, 124],
        7 => seq![0, 0, 24, 60, 60, 24, 0, 0],
        8 => seq![255, 255, 231, 195, 195, 231, 255, 255],
        9 => seq![0, 60, 102, 66, 66, 102, 60, 0],
        10 => seq![255, 195, 153, 189, 189, 153, 195, 255],
        11 => seq![15, 7, 15, 125, 204, 204, 204, 120],
        12 => seq![60, 102, 102, 102, 60, 24, 126, 24],
        13 => seq![63, 51, 63, 48, 48, 112, 240, 224],
        14 => seq![127, 99, 127, 99, 99, 103, 230, 192],
        15 => seq![153, 90, 60, 231, 231, 60, 90, 153],
        16 => seq![128, 224, 248, 254, 248, 224, 128, 0],
        17 => seq![2, 14, 62, 254, 62, 14, 2, 0],
        18 => seq![24, 60, 126, 24, 24, 126, 60, 24],
        19 => seq![102, 102, 102, 102, 102, 0, 102, 0],
        20 => seq![127, 219, 219, 123, 27, 27, 27, 0],
        21 => seq![62, 99, 56, 108, 108, 56, 204, 120],
        22 => seq![0, 0, 0, 0, 126, 126, 126, 0],
        23 => seq![24, 60, 126, 24, 126, 60, 24, 255],
        24 => seq![24, 60, 126, 24, 24, 24, 24, 0],
        25 => seq![24, 24, 24, 24, 126, 60, 24, 0],
        26 => seq![0, 24, 12, 254, 12, 24, 0, 0],
        27 => seq![0, 48, 96, 254, 96, 48, 0, 0],
        28 => seq![0, 0, 192, 192, 192, 254, 0, 0],
        29 => seq![0, 36, 102, 255, 102, 36, 0, 0],
        30 => seq![0, 24, 60, 126, 255, 255, 0, 0],
        31 => seq![0, 255, 255, 126, 60, 24, 0, 0],
        32 => seq![0, 0, 0, 0, 0, 0, 0, 0],
        33 => seq![24, 60, 60, 24, 24, 0, 24, 0],
        34 => seq![54, 54, 36, 0, 0, 0, 0, 0],
        35 => seq![54, 54, 127, 54, 127, 54, 54, 0],
        36 => seq![24, 62, 3, 30, 48, 31, 24, 0],
        37 => seq![0, 99, 51, 24, 12, 102, 99, 0],
        38 => seq![28, 54, 28, 59, 102, 102, 59, 0],
        39 => seq![6, 6, 3, 0, 0, 0, 0, 0],
        40 => seq![24, 12, 6, 6, 6, 12, 24, 0],
        41 => seq![6, 12, 24, 24, 24, 12, 6, 0],
        42 => seq![0, 102, 60, 255, 60, 102, 0, 0],
        43 => seq![0, 12, 12, 63, 12, 12, 0, 0],
        44 => seq![0, 0, 0, 0, 0, 12, 12, 6],
        45 => seq![0, 0, 0, 63, 0, 0, 0, 0],
        46 => seq![0, 0, 0, 0, 0, 12, 12, 0],
        47 => seq![96, 48, 24, 12, 6, 3, 1, 0],
        48 => seq![62, 99, 115, 123, 111, 103, 62, 0],
        49 => seq![12, 14, 12, 12, 12, 12, 63, 0],
        50 => seq![30, 51, 48, 28, 6, 51, 63, 0],
        51 => seq![30, 51, 48, 28, 48, 51, 30, 0],
        52 => seq![56, 60, 54, 51, 127, 48, 120, 0],
        53 => seq![63, 3, 31, 48, 48, 51, 30, 0],
        54 => seq![28, 6, 3, 31, 51, 51, 30, 0],
        55 => seq![63, 51, 48, 24, 12, 12, 12, 0],
        56 => seq![30, 51, 51, 30, 51, 51, 30, 0],
        57 => seq![30, 51, 51, 62, 48, 24, 14, 0],
        58 => seq![0, 12, 12, 0, 0, 12, 12, 0],
        59 => seq![0, 12, 12, 0, 0, 12, 12, 6],
        60 => seq![24, 12, 6, 3, 6, 12, 24, 0],
        61 => seq![0, 0, 63, 0, 0, 63, 0, 0],
        62 => seq![6, 12, 24, 48, 24, 12, 6, 0],
        63 => seq![30, 51, 48, 24, 12, 0, 12, 0],
        64 => seq![62, 99, 123, 123, 123, 3, 30, 0],
        65 => seq![12, 30, 51, 51, 63, 51, 51, 0],
        66 => seq![63, 102, 102, 62, 102, 102, 63, 0],
        67 => seq![60, 102, 3, 3, 3, 102, 60, 0],
        68 => seq![31, 54, 102, 102, 102, 54, 31, 0],
        69 => seq![127, 70, 38, 30, 38, 70, 127, 0],
        70 => seq![127, 70, 38, 30, 38, 6, 15, 0],
        71 => seq![60, 102, 3, 3, 115, 102, 124, 0],
        72 => seq![51, 51, 51, 63, 51, 51, 51, 0],
        73 => seq![30, 12, 12, 12, 12, 12, 30, 0],
        74 => seq![120, 48, 48, 48, 51, 51, 30, 0],
        75 => seq![103, 102, 54, 30, 54, 102, 103, 0],
        76 => seq![15, 6, 6, 6, 70, 102, 127, 0],
        77 => seq![99, 119, 127, 107, 99, 99, 99, 0],
        78 => seq![99, 103, 111, 123, 115, 99, 99, 0],
        79 => seq![28, 54, 99, 99, 99, 54, 28, 0],
        80 => seq![63, 102, 102, 62, 6, 6, 15, 0],
        81 => seq![30, 51, 51, 51, 59, 30, 56, 0],
        82 => seq![63, 102, 102, 62, 54, 102, 103, 0],
        83 => seq![30, 51, 7, 14, 56, 51, 30, 0],
        84 => seq![63, 45, 12, 12, 12, 12, 30, 0],
        85 => seq![51, 51, 51, 51, 51, 51, 63, 0],
        86 => seq![51, 51, 51, 51, 51, 30, 12, 0],
        87 => seq![99, 99, 99, 107, 127, 119, 99, 0],
        88 => seq![99, 99, 54, 28, 28, 54, 99, 0],
        89 => seq![51, 51, 51, 30, 12, 12, 30, 0],
        90 => seq![127, 99, 49, 24, 76, 102, 127, 0],
        91 => seq![30, 6, 6, 6, 6, 6, 30, 0],
        92 => seq![3, 6, 12, 24, 48, 96, 64, 0],
        93 => seq![30, 24, 24, 24, 24, 24, 30, 0],
        94 => seq![8, 28, 54, 99, 0, 0, 0, 0],
        95 => seq![0, 0, 0, 0, 0, 0, 0, 255],
        96 => seq![12, 12, 24, 0, 0, 0, 0, 0],
        97 => seq![0, 0, 30, 48, 62, 51, 110, 0],
        98 => seq![7, 6, 6, 62, 102, 102, 59, 0],
        99 => seq![0, 0, 30, 51, 3, 51, 30, 0],
        100 => seq![56, 48, 48, 62, 51, 51, 110, 0],
        101 => seq![0, 0, 30, 51, 63, 3, 30, 0],
        102 => seq![28, 54, 6, 15, 6, 6, 15, 0],
        103 => seq![0, 0, 110, 51, 51, 62, 48, 31],
        104 => seq![7, 6, 54, 110, 102, 102, 103, 0],
        105 => seq![12, 0, 14, 12, 12, 12, 30, 0],
        106 => seq![24, 0, 28, 24, 24, 24, 27, 14],
        107 => seq![7, 6, 102, 54, 30, 54, 103, 0],
        108 => seq![14, 12, 12, 12, 12, 12, 30, 0],
        109 => seq![0, 0, 51, 127, 127, 107, 99, 0],
        110 => seq![0, 0, 31, 51, 51, 51, 51, 0],
        111 => seq![0, 0, 30, 51, 51, 51, 30, 0],
        112 => seq![0, 0, 59, 102, 102, 62, 6, 15],
        113 => seq![0, 0, 110, 51, 51, 62, 48, 120],
        114 => seq![0, 0, 59, 102, 6, 6, 15, 0],
        115 => seq![0, 0, 62, 3, 30, 48, 31, 0],
        116 => seq![8, 12, 62, 12, 12, 44, 24, 0],
        117 => seq![0, 0, 51, 51, 51, 51, 110, 0],
        118 => seq![0, 0, 51, 51, 51, 30, 12, 0],
        119 => seq![0, 0, 99, 107, 127, 127, 54, 0],
        120 => seq![0, 0, 99, 54, 28, 54, 99, 0],
        121 => seq![0, 0, 51, 51, 51, 62, 48, 31],
        122 => seq![0, 0, 63, 25, 12, 38, 63, 0],
        123 => seq![56, 12, 12, 7, 12, 12, 56, 0],
        124 => seq![12, 12, 12, 0, 12, 12, 12, 0],
        125 => seq![7, 12, 12, 56, 12, 12, 7, 0],
        126 => seq![110, 59, 0, 0, 0, 0, 0, 0],
        _ => seq![0, 8, 28, 54, 99, 99, 127, 0],
    }
}

/// Whether `(qx, qy)` is a lit pixel of the glyph for `ch` drawn with its
/// top-left corner at `(x, y)`.
pub open spec fn glyph_cell(ch: u8, x: int, y: int, qx: int, qy: int) -> bool {
    in_area(x, y, 8, 8, qx, qy) && glyph_bit(ch, qy - y, qx - x)
}

/// Whether column `c` of row `r` of the glyph for `ch` is lit: bit `c` of
/// the row's byte.
pub open spec fn glyph_bit(ch: u8, r: int, c: int) -> bool {
    0 <= r < 8 && 0 <= c < 8 && (glyph_rows(ch)[r] >> (c as u8)) & 1u8 == 1u8
}

/// The 8x8 bitmap of an ASCII character: one byte per row, bit `c` set when
/// column `c` is lit.
pub fn glyph(ch: u8) -> (g: [u8; 8])
    requires
        ch < 128,
    ensures
        g@ == glyph_rows(ch),
{
    match ch {
        0 => {
            let g = [0, 0, 0, 0, 0, 0, 0, 0];
            assert(g@ =~= glyph_rows(ch));
            g
        },
        1 => {
            let g = [126, 129, 165, 129, 189, 153, 129, 126];
            assert(g@ =~= glyph_rows(ch));
            g
        },
        2 => {
            let g = [126, 255, 219, 255, 195, 231, 255, 126];
            assert(g@ =~= glyph_rows(ch));
            g
        },
        3 => {
            let g = [108, 254, 254, 254, 124, 56, 16, 0];
            assert(g@ =~= glyph_rows(ch));
            g
        },
        4 => {
            let g = [16, 56, 124, 254, 124, 56, 16, 0];
            assert(g@ =~= glyph_rows(ch));
            g
        },
        5 => {
            let g = [56, 124, 56, 254, 254, 124, 56, 124];
            assert(g@ =~= glyph_rows(ch));
            g
        },
        6 => {
            let g = [16, 16, 56, 124, 254, 124, 56, 124];
            assert(g@ =~= glyph_rows(ch));
            g
        },
        7 => {
            let g = [0, 0, 24, 60, 60, 24, 0, 0];
            assert(g@ =~= glyph_rows(ch));
            g
        },
        8 => {
            let g = [255, 255, 231, 195, 195, 231, 255, 255];
            assert(g@ =~= glyph_rows(ch));
            g
        },
        9 => {
            let g = [0, 60, 102, 66, 66, 102, 60, 0];
            assert(g@ =~= glyph_rows(ch));
            g
        },
        10 => {
            let g = [255, 195, 153, 189, 189, 153, 195, 255];
            assert(g@ =~= glyph_rows(ch));
            g
        },
        11 => {
            let g = [15, 7, 15, 125, 204, 204, 204, 120];
            assert(g@ =~= glyph_rows(ch));
            g
        },
        12 => {
            let g = [60, 102, 102, 102, 60, 24, 126, 24];
            assert(g@ =~= glyph_rows(ch));
            g
        },
        13 => {
            let g = [63, 51, 63, 48, 48, 112, 240, 224];
            assert(g@ =~= glyph_rows(ch));
            g
        },
        14 => {
            let g = [127, 99, 127, 99, 99, 103, 230, 192];
            assert(g@ =~= glyph_rows(ch));
            g
        },
        15 => {
            let g = [153, 90, 60, 231, 231, 60, 90, 153];
            assert(g@ =~= glyph_rows(ch));
            g
        },
        16 => {
            let g = [128, 224, 248, 254, 248, 224, 128, 0];
            assert(g@ =~= glyph_rows(ch));
            g
        },
        17 => {
            let g = [2, 14, 62, 254, 62, 14, 2, 0];
            assert(g@ =~= glyph_rows(ch));
            g
        },
        18 => {
            let g = [24, 60, 126, 24, 24, 126, 60, 24];
            assert(g@ =~= glyph_rows(ch));
            g
        },
        19 => {
            let g = [102, 102, 102, 102, 102, 0, 102, 0];
            assert(g@ =~= glyph_rows(ch));
            g
        },
        20 => {
            let g = [127, 219, 219, 123, 27, 27, 27, 0];
            assert(g@ =~= glyph_rows(ch));
            g
        },
        21 => {
            let g = [62, 99, 56, 108, 108, 56, 204, 120];
            assert(g@ =~= glyph_rows(ch));
            g
        },
        22 => {
            let g = [0, 0, 0, 0, 126, 126, 126, 0];
            assert(g@ =~= glyph_rows(ch));
            g
        },
        23 => {
            let g = [24, 60, 126, 24, 126, 60, 24, 255];
            assert(g@ =~= glyph_rows(ch));
            g
        },
        24 => {
            let g = [24, 60, 126, 24, 24, 24, 24, 0];
            assert(g@ =~= glyph_rows(ch));
            g
        },
        25 => {
            let g = [24, 24, 24, 24, 126, 60, 24, 0];
            assert(g@ =~= glyph_rows(ch));
            g
        },
        26 => {
            let g = [0, 24, 12, 254, 12, 24, 0, 0];
            assert(g@ =~= glyph_rows(ch));
            g
        },
        27 => {
            let g = [0, 48, 96, 254, 96, 48, 0, 0];
            assert(g@ =~= glyph_rows(ch));
            g
        },
        28 => {
            let g = [0, 0, 192, 192, 192, 254, 0, 0];
            assert(g@ =~= glyph_rows(ch));
            g
        },
        29 => {
            let g = [0, 36, 102, 255, 102, 36, 0, 0];
            assert(g@ =~= glyph_rows(ch));
            g
        },
        30 => {
            let g = [0, 24, 60, 126, 255, 255, 0, 0];
            assert(g@ =~= glyph_rows(ch));
            g
        },
        31 => {
            let g = [0, 255, 255, 126, 60, 24, 0, 0];
            assert(g@ =~= glyph_rows(ch));
            g
        },
        32 => {
            let g = [0, 0, 0, 0, 0, 0, 0, 0];
            assert(g@ =~= glyph_rows(ch));
            g
        },
        33 => {
            let g = [24, 60, 60, 24, 24, 0, 24, 0];
            assert(g@ =~= glyph_rows(ch));
            g
        },
        34 => {
            let g = [54, 54, 36, 0, 0, 0, 0, 0];
            assert(g@ =~= glyph_rows(ch));
            g
        },
        35 => {
            let g = [54, 54, 127, 54, 127, 54, 54, 0];
            assert(g@ =~= glyph_rows(ch));
            g
        },
        36 => {
            let g = [24, 62, 3, 30, 48, 31, 24, 0];
            assert(g@ =~= glyph_rows(ch));
            g
        },
        37 => {
            let g = [0, 99, 51, 24, 12, 102, 99, 0];
            assert(g@ =~= glyph_rows(ch));
            g
        },
        38 => {
            let g = [28, 54, 28, 59, 102, 102, 59, 0];
            assert(g@ =~= glyph_rows(ch));
            g
        },
        39 => {
            let g = [6, 6, 3, 0, 0, 0, 0, 0];
            assert(g@ =~= glyph_rows(ch));
            g
        },
        40 => {
            let g = [24, 12, 6, 6, 6, 12, 24, 0];
            assert(g@ =~= glyph_rows(ch));
            g
        },
        41 => {
            let g = [6, 12, 24, 24, 24, 12, 6, 0];
            assert(g@ =~= glyph_rows(ch));
            g
        },
        42 => {
            let g = [0, 102, 60, 255, 60, 102, 0, 0];
            assert(g@ =~= glyph_rows(ch));
            g
        },
        43 => {
            let g = [0, 12, 12, 63, 12, 12, 0, 0];
            assert(g@ =~= glyph_rows(ch));
            g
        },
        44 => {
            let g = [0, 0, 0, 0, 0, 12, 12, 6];
            assert(g@ =~= glyph_rows(ch));
            g
        },
        45 => {
            let g = [0, 0, 0, 63, 0, 0, 0, 0];
            assert(g@ =~= glyph_rows(ch));
            g
        },
        46 => {
            let g = [0, 0, 0, 0, 0, 12, 12, 0];
            assert(g@ =~= glyph_rows(ch));
            g
        },
        47 => {
            let g = [96, 48, 24, 12, 6, 3, 1, 0];
            assert(g@ =~= glyph_rows(ch));
            g
        },
        48 => {
            let g = [62, 99, 115, 123, 111, 103, 62, 0];
            assert(g@ =~= glyph_rows(ch));
            g
        },
        49 => {
            let g = [12, 14, 12, 12, 12, 12, 63, 0];
            assert(g@ =~= glyph_rows(ch));
            g
        },
        50 => {
            let g = [30, 51, 48, 28, 6, 51, 63, 0];
            assert(g@ =~= glyph_rows(ch));
            g
        },
        51 => {
            let g = [30, 51, 48, 28, 48, 51, 30, 0];
            assert(g@ =~= glyph_rows(ch));
            g
        },
        52 => {
            let g = [56, 60, 54, 51, 127, 48, 120, 0];
            assert(g@ =~= glyph_rows(ch));
            g
        },
        53 => {
            let g = [63, 3, 31, 48, 48, 51, 30, 0];
            assert(g@ =~= glyph_rows(ch));
            g
        },
        54 => {
            let g = [28, 6, 3, 31, 51, 51, 30, 0];
            assert(g@ =~= glyph_rows(ch));
            g
        },
        55 => {
            let g = [63, 51, 48, 24, 12, 12, 12, 0];
            assert(g@ =~= glyph_rows(ch));
            g
        },
        56 => {
            let g = [30, 51, 51, 30, 51, 51, 30, 0];
            assert(g@ =~= glyph_rows(ch));
            g
        },
        57 => {
            let g = [30, 51, 51, 62, 48, 24, 14, 0];
            assert(g@ =~= glyph_rows(ch));
            g
        },
        58 => {
            let g = [0, 12, 12, 0, 0, 12, 12, 0];
            assert(g@ =~= glyph_rows(ch));
            g
        },
        59 => {
            let g = [0, 12, 12, 0, 0, 12, 12, 6];
            assert(g@ =~= glyph_rows(ch));
            g
        },
        60 => {
            let g = [24, 12, 6, 3, 6, 12, 24, 0];
            assert(g@ =~= glyph_rows(ch));
            g
        },
        61 => {
            let g = [0, 0, 63, 0, 0, 63, 0, 0];
            assert(g@ =~= glyph_rows(ch));
            g
        },
        62 => {
            let g = [6, 12, 24, 48, 24, 12, 6, 0];
            assert(g@ =~= glyph_rows(ch));
            g
        },
        63 => {
            let g = [30, 51, 48, 24, 12, 0, 12, 0];
            assert(g@ =~= glyph_rows(ch));
            g
        },
        64 => {
            let g = [62, 99, 123, 123, 123, 3, 30, 0];
            assert(g@ =~= glyph_rows(ch));
            g
        },
        65 => {
            let g = [12, 30, 51, 51, 63, 51, 51, 0];
            assert(g@ =~= glyph_rows(ch));
            g
        },
        66 => {
            let g = [63, 102, 102, 62, 102, 102, 63, 0];
            assert(g@ =~= glyph_rows(ch));
            g
        },
        67 => {
            let g = [60, 102, 3, 3, 3, 102, 60, 0];
            assert(g@ =~= glyph_rows(ch));
            g
        },
        68 => {
            let g = [31, 54, 102, 102, 102, 54, 31, 0];
            assert(g@ =~= glyph_rows(ch));
            g
        },
        69 => {
            let g = [127, 70, 38, 30, 38, 70, 127, 0];
            assert(g@ =~= glyph_rows(ch));
            g
        },
        70 => {
            let g = [127, 70, 38, 30, 38, 6, 15, 0];
            assert(g@ =~= glyph_rows(ch));
            g
        },
        71 => {
            let g = [60, 102, 3, 3, 115, 102, 124, 0];
            assert(g@ =~= glyph_rows(ch));
            g
        },
        72 => {
            let g = [51, 51, 51, 63, 51, 51, 51, 0];
            assert(g@ =~= glyph_rows(ch));
            g
        },
        73 => {
            let g = [30, 12, 12, 12, 12, 12, 30, 0];
            assert(g@ =~= glyph_rows(ch));
            g
        },
        74 => {
            let g = [120, 48, 48, 48, 51, 51, 30, 0];
            assert(g@ =~= glyph_rows(ch));
            g
        },
        75 => {
            let g = [103, 102, 54, 30, 54, 102, 103, 0];
            assert(g@ =~= glyph_rows(ch));
            g
        },
        76 => {
            let g = [15, 6, 6, 6, 70, 102, 127, 0];
            assert(g@ =~= glyph_rows(ch));
            g
        },
        77 => {
            let g = [99, 119, 127, 107, 99, 99, 99, 0];
            assert(g@ =~= glyph_rows(ch));
            g
        },
        78 => {
            let g = [99, 103, 111, 123, 115, 99, 99, 0];
            assert(g@ =~= glyph_rows(ch));
            g
        },
        79 => {
            let g = [28, 54, 99, 99, 99, 54, 28, 0];
            assert(g@ =~= glyph_rows(ch));
            g
        },
        80 => {
            let g = [63, 102, 102, 62, 6, 6, 15, 0];
            assert(g@ =~= glyph_rows(ch));
            g
        },
        81 => {
            let g = [30, 51, 51, 51, 59, 30, 56, 0];
            assert(g@ =~= glyph_rows(ch));
            g
        },
        82 => {
            let g = [63, 102, 102, 62, 54, 102, 103, 0];
            assert(g@ =~= glyph_rows(ch));
            g
        },
        83 => {
            let g = [30, 51, 7, 14, 56, 51, 30, 0];
            assert(g@ =~= glyph_rows(ch));
            g
        },
        84 => {
            let g = [63, 45, 12, 12, 12, 12, 30, 0];
            assert(g@ =~= glyph_rows(ch));
            g
        },
        85 => {
            let g = [51, 51, 51, 51, 51, 51, 63, 0];
            assert(g@ =~= glyph_rows(ch));
            g
        },
        86 => {
            let g = [51, 51, 51, 51, 51, 30, 12, 0];
            assert(g@ =~= glyph_rows(ch));
            g
        },
        87 => {
            let g = [99, 99, 99, 107, 127, 119, 99, 0];
            assert(g@ =~= glyph_rows(ch));
            g
        },
        88 => {
            let g = [99, 99, 54, 28, 28, 54, 99, 0];
            assert(g@ =~= glyph_rows(ch));
            g
        },
        89 => {
            let g = [51, 51, 51, 30, 12, 12, 30, 0];
            assert(g@ =~= glyph_rows(ch));
            g
        },
        90 => {
            let g = [127, 99, 49, 24, 76, 102, 127, 0];
            assert(g@ =~= glyph_rows(ch));
            g
        },
        91 => {
            let g = [30, 6, 6, 6, 6, 6, 30, 0];
            assert(g@ =~= glyph_rows(ch));
            g
        },
        92 => {
            let g = [3, 6, 12, 24, 48, 96, 64, 0];
            assert(g@ =~= glyph_rows(ch));
            g
        },
        93 => {
            let g = [30, 24, 24, 24, 24, 24, 30, 0];
            assert(g@ =~= glyph_rows(ch));
            g
        },
        94 => {
            let g = [8, 28, 54, 99, 0, 0, 0, 0];
            assert(g@ =~= glyph_rows(ch));
            g
        },
        95 => {
            let g = [0, 0, 0, 0, 0, 0, 0, 255];
            assert(g@ =~= glyph_rows(ch));
            g
        },
        96 => {
            let g = [12, 12, 24, 0, 0, 0, 0, 0];
            assert(g@ =~= glyph_rows(ch));
            g
        },
        97 => {
            let g = [0, 0, 30, 48, 62, 51, 110, 0];
            assert(g@ =~= glyph_rows(ch));
            g
        },
        98 => {
            let g = [7, 6, 6, 62, 102, 102, 59, 0];
            assert(g@ =~= glyph_rows(ch));
            g
        },
        99 => {
            let g = [0, 0, 30, 51, 3, 51, 30, 0];
            assert(g@ =~= glyph_rows(ch));
            g
        },
        100 => {
            let g = [56, 48, 48, 62, 51, 51, 110, 0];
            assert(g@ =~= glyph_rows(ch));
            g
        },
        101 => {
            let g = [0, 0, 30, 51, 63, 3, 30, 0];
            assert(g@ =~= glyph_rows(ch));
            g
        },
        102 => {
            let g = [28, 54, 6, 15, 6, 6, 15, 0];
            assert(g@ =~= glyph_rows(ch));
            g
        },
        103 => {
            let g = [0, 0, 110, 51, 51, 62, 48, 31];
            assert(g@ =~= glyph_rows(ch));
            g
        },
        104 => {
            let g = [7, 6, 54, 110, 102, 102, 103, 0];
            assert(g@ =~= glyph_rows(ch));
            g
        },
        105 => {
            let g = [12, 0, 14, 12, 12, 12, 30, 0];
            assert(g@ =~= glyph_rows(ch));
            g
        },
        106 => {
            let g = [24, 0, 28, 24, 24, 24, 27, 14];
            assert(g@ =~= glyph_rows(ch));
            g
        },
        107 => {
            let g = [7, 6, 102, 54, 30, 54, 103, 0];
            assert(g@ =~= glyph_rows(ch));
            g
        },
        108 => {
            let g = [14, 12, 12, 12, 12, 12, 30, 0];
            assert(g@ =~= glyph_rows(ch));
            g
        },
        109 => {
            let g = [0, 0, 51, 127, 127, 107, 99, 0];
            assert(g@ =~= glyph_rows(ch));
            g
        },
        110 => {
            let g = [0, 0, 31, 51, 51, 51, 51, 0];
            assert(g@ =~= glyph_rows(ch));
            g
        },
        111 => {
            let g = [0, 0, 30, 51, 51, 51, 30, 0];
            assert(g@ =~= glyph_rows(ch));
            g
        },
        112 => {
            let g = [0, 0, 59, 102, 102, 62, 6, 15];
            assert(g@ =~= glyph_rows(ch));
            g
        },
        113 => {
            let g = [0, 0, 110, 51, 51, 62, 48, 120];
            assert(g@ =~= glyph_rows(ch));
            g
        },
        114 => {
            let g = [0, 0, 59, 102, 6, 6, 15, 0];
            assert(g@ =~= glyph_rows(ch));
            g
        },
        115 => {
            let g = [0, 0, 62, 3, 30, 48, 31, 0];
            assert(g@ =~= glyph_rows(ch));
            g
        },
        116 => {
            let g = [8, 12, 62, 12, 12, 44, 24, 0];
            assert(g@ =~= glyph_rows(ch));
            g
        },
        117 => {
            let g = [0, 0, 51, 51, 51, 51, 110, 0];
            assert(g@ =~= glyph_rows(ch));
            g
        },
        118 => {
            let g = [0, 0, 51, 51, 51, 30, 12, 0];
            assert(g@ =~= glyph_rows(ch));
            g
        },
        119 => {
            let g = [0, 0, 99, 107, 127, 127, 54, 0];
            assert(g@ =~= glyph_rows(ch));
            g
        },
        120 => {
            let g = [0, 0, 99, 54, 28, 54, 99, 0];
            assert(g@ =~= glyph_rows(ch));
            g
        },
        121 => {
            let g = [0, 0, 51, 51, 51, 62, 48, 31];
            assert(g@ =~= glyph_rows(ch));
            g
        },
        122 => {
            let g = [0, 0, 63, 25, 12, 38, 63, 0];
            assert(g@ =~= glyph_rows(ch));
            g
        },
        123 => {
            let g = [56, 12, 12, 7, 12, 12, 56, 0];
            assert(g@ =~= glyph_rows(ch));
            g
        },
        124 => {
            let g = [12, 12, 12, 0, 12, 12, 12, 0];
            assert(g@ =~= glyph_rows(ch));
            g
        },
        125 => {
            let g = [7, 12, 12, 56, 12, 12, 7, 0];
            assert(g@ =~= glyph_rows(ch));
            g
        },
        126 => {
            let g = [110, 59, 0, 0, 0, 0, 0, 0];
            assert(g@ =~= glyph_rows(ch));
            g
        },
        _ => {
            let g = [0, 8, 28, 54, 99, 99, 127, 0];
            assert(g@ =~= glyph_rows(ch));
            g
        },
    }
}
/// The bytes of an ASCII string literal.
pub fn ascii_lit(s: &str) -> (b: &[u8])
    requires
        vstd::string::is_ascii(s),
    ensures
        b@ == s.spec_bytes(),
        ascii(b@),
        b@.len() == s@.len(),
        forall|i: int| 0 <= i < b@.len() ==> b@[i] == s@[i] as u8,
{
    let b = s.as_bytes();
    assert forall|i: int| 0 <= i < b@.len() implies b@[i] < 128 by {
        assert(b@[i] == s@[i] as u8);
    }
    b
}

/// Whether every byte of `s` is ASCII.
pub fn is_ascii(s: &[u8]) -> (r: bool)
    ensures
        r == ascii(s@),
{
    let mut i: usize = 0;
    while i < s.len()
        invariant
            i <= s@.len(),
            forall|j: int| 0 <= j < i ==> s@[j] < 128,
        decreases s@.len() - i,
    {
        if s[i] >= 128 {
            return false;
        }
        i = i + 1;
    }
    true
}

/// Largest coordinate or size the drawing code accepts, so that no sum of a
/// few of them overflows.
pub const COORD_MAX: usize = 0x0100_0000;

/// Where the pen goes after drawing one character at `(x, y)` on a screen
/// `width` pixels wide: 8 pixels right, or to the start of the next text line
/// when the next character would not fit.
pub open spec fn after_char(width: int, x: int, y: int) -> (int, int) {
    if x + 16 >= width {
        (0, y + 10)
    } else {
        (x + 8, y)
    }
}

/// Where the pen goes after writing `s` from `(x, y)`; a newline byte starts a
/// new text line.
pub open spec fn after_bytes(width: int, x: int, y: int, s: Seq<u8>) -> (int, int)
    decreases s.len(),
{
    if s.len() == 0 {
        (x, y)
    } else {
        let p = after_bytes(width, x, y, s.drop_last());
        if s.last() == 10u8 {
            (0, p.1 + 10)
        } else {
            after_char(width, p.0, p.1)
        }
    }
}

/// The pen never moves right of where it started or of the screen edge, and
/// moves down at most one text line per byte.
pub proof fn lemma_after_bytes_bounds(width: int, x: int, y: int, s: Seq<u8>)
    requires
        0 <= x,
        0 <= y,
        0 <= width,
    ensures
        0 <= after_bytes(width, x, y, s).0 <= if x > width { x } else { width },
        y <= after_bytes(width, x, y, s).1 <= y + 10 * s.len(),
    decreases s.len(),
{
    if s.len() > 0 {
        lemma_after_bytes_bounds(width, x, y, s.drop_last());
    }
}

/// Every pixel of `after` is that of `before`, or the colour `fg` in a row
/// from `top` up to, not including, `bottom`.
pub open spec fn inked_rows(before: Framebuffer, after: Framebuffer, fg: u32, top: int, bottom: int) -> bool {
    forall|qx: int, qy: int|
        0 <= qx < before.width && 0 <= qy < before.height ==> {
            let p = #[trigger] after.pixel(qx, qy);
            p == before.pixel(qx, qy) || (p == fg && top <= qy < bottom)
        }
}

/// Ink in rows from `t` down keeps what lies above `top <= t`.
pub proof fn lemma_above_ink(a: Framebuffer, b: Framebuffer, c: Framebuffer, top: int, fg: u32, t: int, bot: int)
    requires
        a.same_shape(&b),
        kept_above(a, b, top),
        inked_rows(b, c, fg, t, bot),
        t >= top,
    ensures
        kept_above(a, c, top),
{
    assert forall|qx: int, qy: int|
        0 <= qx < a.width && 0 <= qy < a.height && qy < top implies #[trigger] c.pixel(qx, qy)
            == a.pixel(qx, qy) by {
        assert(b.pixel(qx, qy) == a.pixel(qx, qy));
    }
}

/// Ink in rows wholly above or below a painted rectangle leaves it painted.
pub proof fn lemma_painted_ink(
    b: Framebuffer,
    c: Framebuffer,
    r: (int, int, int, int),
    color: u32,
    fg: u32,
    t: int,
    bot: int,
)
    requires
        b.same_shape(&c),
        painted(b, r.0, r.1, r.2, r.3, color),
        inked_rows(b, c, fg, t, bot),
        bot <= r.1 || t >= r.1 + r.3,
    ensures
        painted(c, r.0, r.1, r.2, r.3, color),
{
    assert forall|qx: int, qy: int|
        0 <= qx < c.width && 0 <= qy < c.height && in_area(r.0, r.1, r.2, r.3, qx, qy)
            implies #[trigger] c.pixel(qx, qy) == color by {
        assert(b.pixel(qx, qy) == color);
    }
}

/// Whether writing `s` from `(x, y)` on a screen `width` pixels wide lights
/// pixel `(qx, qy)`: some character of `s` other than a newline, drawn where
/// the pen stands when it comes (see `after_bytes`), has that pixel lit.
pub open spec fn text_ink(width: int, x: int, y: int, s: Seq<u8>, qx: int, qy: int) -> bool
    decreases s.len(),
{
    if s.len() == 0 {
        false
    } else {
        let p = after_bytes(width, x, y, s.drop_last());
        text_ink(width, x, y, s.drop_last(), qx, qy) || (s.last() != 10 && glyph_cell(s.last(), p.0, p.1, qx, qy))
    }
}

/// Whether `s`, written from column `x` on a screen `width` pixels wide, stays
/// on one text line: it holds no newline and its last character ends more
/// than 8 pixels before the right edge.
pub open spec fn one_line(width: int, x: int, s: Seq<u8>) -> bool {
    &&& x + 8 * s.len() + 8 < width
    &&& forall|i: int| 0 <= i < s.len() ==> s[i] != 10
}

/// Text that stays on one line moves the pen 8 pixels per byte.
pub proof fn lemma_one_line_after(width: int, x: int, y: int, s: Seq<u8>)
    requires
        one_line(width, x, s),
    ensures
        after_bytes(width, x, y, s) == (x + 8 * s.len(), y),
    decreases s.len(),
{
    if s.len() > 0 {
        assert(one_line(width, x, s.drop_last()));
        lemma_one_line_after(width, x, y, s.drop_last());
    }
}

/// Text that stays on one line lights only pixels of its 8-pixel strip.
pub proof fn lemma_one_line_ink(width: int, x: int, y: int, s: Seq<u8>, qx: int, qy: int)
    requires
        one_line(width, x, s),
        text_ink(width, x, y, s, qx, qy),
    ensures
        in_area(x, y, 8 * s.len() as int, 8, qx, qy),
    decreases s.len(),
{
    if s.len() > 0 {
        assert(one_line(width, x, s.drop_last()));
        lemma_one_line_after(width, x, y, s.drop_last());
        if text_ink(width, x, y, s.drop_last(), qx, qy) {
            lemma_one_line_ink(width, x, y, s.drop_last(), qx, qy);
        }
    }
}

/// One character lights only its glyph's pixels.
pub proof fn lemma_ink_one_char(width: int, x: int, y: int, s: Seq<u8>, qx: int, qy: int)
    requires
        s.len() == 1,
    ensures
        text_ink(width, x, y, s, qx, qy) == (s[0] != 10 && glyph_cell(s[0], x, y, qx, qy)),
{
    assert(s.drop_last().len() == 0);
    assert(text_ink(width, x, y, s.drop_last(), qx, qy) == false);
}

/// Text on one line splits into two pieces each on one line, the second
/// starting where the first ends.
pub proof fn lemma_one_line_split(width: int, x: int, a: Seq<u8>, b: Seq<u8>)
    requires
        one_line(width, x, a + b),
    ensures
        one_line(width, x, a),
        one_line(width, x + 8 * a.len(), b),
{
    assert forall|i: int| 0 <= i < a.len() implies a[i] != 10 by {
        assert((a + b)[i] == a[i]);
    }
    assert forall|i: int| 0 <= i < b.len() implies b[i] != 10 by {
        assert((a + b)[a.len() + i] == b[i]);
    }
}

/// The pen either stays on its line, right of where it started, or has
/// gone down at least one text line.
pub proof fn lemma_after_bytes_line(width: int, x: int, y: int, s: Seq<u8>)
    ensures
        after_bytes(width, x, y, s).1 == y ==> after_bytes(width, x, y, s).0 >= x,
        after_bytes(width, x, y, s).1 != y ==> after_bytes(width, x, y, s).1 >= y + 10,
        after_bytes(width, x, y, s).1 >= y,
    decreases s.len(),
{
    if s.len() > 0 {
        lemma_after_bytes_line(width, x, y, s.drop_last());
    }
}

/// Ink on the text's first line lies right of where the text starts; the
/// rest lies at least one text line down.
pub proof fn lemma_ink_first_line(width: int, x: int, y: int, s: Seq<u8>, qx: int, qy: int)
    requires
        text_ink(width, x, y, s, qx, qy),
    ensures
        (qx >= x && y <= qy < y + 8) || qy >= y + 10,
    decreases s.len(),
{
    if s.len() > 0 {
        lemma_after_bytes_line(width, x, y, s.drop_last());
        if text_ink(width, x, y, s.drop_last(), qx, qy) {
            lemma_ink_first_line(width, x, y, s.drop_last(), qx, qy);
        }
    }
}

/// Ink lies from the text's first row down.
pub proof fn lemma_ink_below(width: int, x: int, y: int, s: Seq<u8>, qx: int, qy: int)
    requires
        text_ink(width, x, y, s, qx, qy),
    ensures
        qy >= y,
    decreases s.len(),
{
    if s.len() > 0 {
        lemma_after_bytes_line(width, x, y, s.drop_last());
        if text_ink(width, x, y, s.drop_last(), qx, qy) {
            lemma_ink_below(width, x, y, s.drop_last(), qx, qy);
        }
    }
}

/// On one line, character `k` of the text is drawn `8 * k` pixels right of
/// where the text starts.
pub proof fn lemma_ink_char(width: int, x: int, y: int, s: Seq<u8>, k: int, qx: int, qy: int)
    requires
        one_line(width, x, s),
        0 <= k < s.len(),
        glyph_cell(s[k], x + 8 * k, y, qx, qy),
    ensures
        text_ink(width, x, y, s, qx, qy),
    decreases s.len(),
{
    assert(one_line(width, x, s.drop_last()));
    if k == s.len() - 1 {
        lemma_one_line_after(width, x, y, s.drop_last());
    } else {
        assert(s.drop_last()[k] == s[k]);
        lemma_ink_char(width, x, y, s.drop_last(), k, qx, qy);
    }
}

/// Draws 8x8 text straight into the back buffer.
pub struct TextWriter {
    pub width: usize,
    pub height: usize,
    pub x: usize,
    pub y: usize,
    pub fg: u32,
}

impl TextWriter {
    /// A writer for `fb`, at the top-left corner, drawing white.
    pub fn new(fb: &Framebuffer) -> (w: TextWriter)
        ensures
            w.width == fb.width,
            w.height == fb.height,
            w.x == 0,
            w.y == 0,
            w.fg == 0x00FFFFFFu32,
    {
        TextWriter { width: fb.width, height: fb.height, x: 0, y: 0, fg: 0x00FFFFFF }
    }

    /// Sets the text colour.
    pub fn set_color(&mut self, color: u32)
        ensures
            final(self).fg == color,
            final(self).x == old(self).x,
            final(self).y == old(self).y,
            final(self).width == old(self).width,
            final(self).height == old(self).height,
    {
        self.fg = color;
    }

    /// Moves the pen.
    pub fn set_pos(&mut self, x: usize, y: usize)
        ensures
            final(self).x == x,
            final(self).y == y,
            final(self).fg == old(self).fg,
            final(self).width == old(self).width,
            final(self).height == old(self).height,
    {
        self.x = x;
        self.y = y;
    }

    /// Paints every pixel of the screen `color`.
    pub fn clear(&mut self, fb: &mut Framebuffer, color: u32)
        requires
            old(fb).wf(),
        ensures
            final(fb).wf(),
            final(fb).same_shape(old(fb)),
            forall|qx: int, qy: int|
                0 <= qx < old(fb).width && 0 <= qy < old(fb).height ==> #[trigger] final(fb).pixel(
                    qx,
                    qy,
                ) == color,
            *final(self) == *old(self),
    {
        let w = fb.width;
        let h = fb.height;
        proof {
            assert(0 <= w * h) by (nonlinear_arith);
        }
        fill_rect(fb, 0, 0, w, h, color);
    }

    /// Starts a new text line: back to the left edge, 10 pixels down.
    pub fn new_line(&mut self)
        requires
            old(self).y + 10 <= usize::MAX,
        ensures
            final(self).x == 0,
            final(self).y == old(self).y + 10,
            final(self).fg == old(self).fg,
            final(self).width == old(self).width,
            final(self).height == old(self).height,
    {
        self.x = 0;
        self.y = self.y + 10;
    }

    /// Sets one pixel of the back buffer.
    pub fn put_pixel(&self, fb: &mut Framebuffer, x: usize, y: usize, rgb: u32)
        requires
            old(fb).wf(),
        ensures
            final(fb).wf(),
            final(fb).same_shape(old(fb)),
            forall|qx: int, qy: int|
                0 <= qx < old(fb).width && 0 <= qy < old(fb).height ==> #[trigger] final(fb).pixel(
                    qx,
                    qy,
                ) == if qx == x && qy == y {
                    rgb
                } else {
                    old(fb).pixel(qx, qy)
                },
    {
        put_pixel(fb, x, y, rgb);
    }

    /// Draws one character at the pen and advances it.
    pub fn write_char(&mut self, fb: &mut Framebuffer, ch: u8)
        requires
            old(fb).wf(),
            ch < 128,
            old(self).x + 16 <= usize::MAX,
            old(self).y + 10 <= usize::MAX,
        ensures
            final(fb).wf(),
            final(fb).same_shape(old(fb)),
            (final(self).x as int, final(self).y as int) == after_char(
                old(self).width as int,
                old(self).x as int,
                old(self).y as int,
            ),
            final(self).fg == old(self).fg,
            final(self).width == old(self).width,
            final(self).height == old(self).height,
            forall|qx: int, qy: int|
                0 <= qx < old(fb).width && 0 <= qy < old(fb).height ==> #[trigger] final(fb).pixel(qx, qy)
                    == if glyph_cell(ch, old(self).x as int, old(self).y as int, qx, qy) {
                    old(self).fg
                } else {
                    old(fb).pixel(qx, qy)
                },
            forall|qx: int, qy: int|
                0 <= qx < old(fb).width && 0 <= qy < old(fb).height ==> {
                    let p = #[trigger] final(fb).pixel(qx, qy);
                    if in_area(old(self).x as int, old(self).y as int, 8, 8, qx, qy) {
                        p == old(self).fg || p == old(fb).pixel(qx, qy)
                    } else {
                        p == old(fb).pixel(qx, qy)
                    }
                },
            kept_outside(*old(fb), *final(fb), old(self).x as int, old(self).y as int, 8, 8),
    {
        let g = glyph(ch);
        let ghost start = *fb;
        let ghost x0 = self.x as int;
        let ghost y0 = self.y as int;
        let mut row: usize = 0;
        while row < 8
            invariant
                fb.wf(),
                fb.same_shape(&start),
                start.wf(),
                row <= 8,
                self.x == x0,
                self.y == y0,
                g@ == glyph_rows(ch),
                self.x + 16 <= usize::MAX,
                self.y + 10 <= usize::MAX,
                forall|qx: int, qy: int|
                    0 <= qx < start.width && 0 <= qy < start.height ==> #[trigger] fb.pixel(qx, qy)
                        == if glyph_cell(ch, x0, y0, qx, qy) && qy - y0 < row {
                        self.fg
                    } else {
                        start.pixel(qx, qy)
                    },
            decreases 8 - row,
        {
            let bits = g[row];
            let mut col: usize = 0;
            while col < 8
                invariant
                    fb.wf(),
                    fb.same_shape(&start),
                    start.wf(),
                    row < 8,
                    col <= 8,
                    self.x == x0,
                    self.y == y0,
                    bits == glyph_rows(ch)[row as int],
                    self.x + 16 <= usize::MAX,
                    self.y + 10 <= usize::MAX,
                    forall|qx: int, qy: int|
                        0 <= qx < start.width && 0 <= qy < start.height ==> #[trigger] fb.pixel(qx, qy)
                            == if glyph_cell(ch, x0, y0, qx, qy) && (qy - y0 < row || (qy - y0 == row && qx
                            - x0 < col)) {
                            self.fg
                        } else {
                            start.pixel(qx, qy)
                        },
                decreases 8 - col,
            {
                let lit = (bits >> (col as u8)) & 1 == 1;
                assert(lit == glyph_bit(ch, row as int, col as int));
                if lit {
                    let px = self.x + col;
                    let py = self.y + row;
                    if px < fb.width && py < fb.height {
                        let ghost before = *fb;
                        put_pixel(fb, px, py, self.fg);
                        assert forall|qx: int, qy: int|
                            0 <= qx < start.width && 0 <= qy < start.height implies #[trigger] fb.pixel(qx, qy)
                                == if glyph_cell(ch, x0, y0, qx, qy) && (qy - y0 < row || (qy - y0 == row
                                && qx - x0 < col + 1)) {
                                self.fg
                            } else {
                                start.pixel(qx, qy)
                            } by {
                            assert(before.pixel(qx, qy) == before.pixel(qx, qy));
                        }
                    }
                }
                col = col + 1;
            }
            row = row + 1;
        }
        assert forall|qx: int, qy: int|
            0 <= qx < start.width && 0 <= qy < start.height implies {
                let p = #[trigger] fb.pixel(qx, qy);
                if in_area(x0, y0, 8, 8, qx, qy) {
                    p == self.fg || p == start.pixel(qx, qy)
                } else {
                    p == start.pixel(qx, qy)
                }
            } by {
            assert(fb.pixel(qx, qy) == fb.pixel(qx, qy));
        }
        self.x = self.x + 8;
        if self.x + 8 >= self.width {
            self.new_line();
        }
    }

    /// Writes `bytes` from the pen; a newline byte starts a new text line.
    pub fn write_bytes(&mut self, fb: &mut Framebuffer, bytes: &[u8])
        requires
            old(fb).wf(),
            ascii(bytes@),
            old(self).x + 16 <= usize::MAX,
            old(self).width + 16 <= usize::MAX,
            old(self).y + 10 * bytes@.len() + 10 <= usize::MAX,
        ensures
            final(fb).wf(),
            final(fb).same_shape(old(fb)),
            (final(self).x as int, final(self).y as int) == after_bytes(
                old(self).width as int,
                old(self).x as int,
                old(self).y as int,
                bytes@,
            ),
            final(self).fg == old(self).fg,
            final(self).width == old(self).width,
            final(self).height == old(self).height,
            forall|qx: int, qy: int|
                0 <= qx < old(fb).width && 0 <= qy < old(fb).height ==> #[trigger] final(fb).pixel(qx, qy)
                    == if text_ink(old(self).width as int, old(self).x as int, old(self).y as int, bytes@, qx, qy) {
                    old(self).fg
                } else {
                    old(fb).pixel(qx, qy)
                },
            inked_rows(*old(fb), *final(fb), old(self).fg, old(self).y as int, final(self).y + 8),
            kept_above(*old(fb), *final(fb), old(self).y as int),
            final(self).y >= old(self).y,
            one_line(old(self).width as int, old(self).x as int, bytes@) ==> {
                &&& final(self).x == old(self).x + 8 * bytes@.len()
                &&& final(self).y == old(self).y
                &&& kept_outside(
                    *old(fb),
                    *final(fb),
                    old(self).x as int,
                    old(self).y as int,
                    8 * bytes@.len() as int,
                    8,
                )
            },
    {
        let ghost x0 = self.x as int;
        let ghost y0 = self.y as int;
        let mut i: usize = 0;
        while i < bytes.len()
            invariant
                fb.wf(),
                fb.same_shape(old(fb)),
                ascii(bytes@),
                i <= bytes@.len(),
                self.fg == old(self).fg,
                self.width == old(self).width,
                self.height == old(self).height,
                x0 == old(self).x,
                y0 == old(self).y,
                x0 + 16 <= usize::MAX,
                self.width + 16 <= usize::MAX,
                y0 + 10 * bytes@.len() + 10 <= usize::MAX,
                (self.x as int, self.y as int) == after_bytes(
                    self.width as int,
                    x0,
                    y0,
                    bytes@.take(i as int),
                ),
                y0 <= self.y,
                inked_rows(*old(fb), *fb, self.fg, y0, self.y + 8),
                forall|qx: int, qy: int|
                    0 <= qx < old(fb).width && 0 <= qy < old(fb).height ==> #[trigger] fb.pixel(qx, qy)
                        == if text_ink(self.width as int, x0, y0, bytes@.take(i as int), qx, qy) {
                        self.fg
                    } else {
                        old(fb).pixel(qx, qy)
                    },
                one_line(self.width as int, x0, bytes@) ==> {
                    &&& self.x == x0 + 8 * i
                    &&& self.y == y0
                    &&& kept_outside(*old(fb), *fb, x0, y0, 8 * i, 8)
                },
            decreases bytes@.len() - i,
        {
            proof {
                lemma_after_bytes_bounds(self.width as int, x0, y0, bytes@.take(i as int));
                assert(bytes@.take(i + 1).drop_last() =~= bytes@.take(i as int));
            }
            let b = bytes[i];
            proof {
                assert(bytes@.take(i + 1).last() == b);
            }
            if b == 10u8 {
                self.new_line();
                assert forall|qx: int, qy: int|
                    0 <= qx < old(fb).width && 0 <= qy < old(fb).height implies #[trigger] fb.pixel(qx, qy)
                        == if text_ink(self.width as int, x0, y0, bytes@.take(i + 1), qx, qy) {
                        self.fg
                    } else {
                        old(fb).pixel(qx, qy)
                    } by {
                    assert(fb.pixel(qx, qy) == fb.pixel(qx, qy));
                }
            } else {
                let ghost mid = *fb;
                let ghost cx = self.x as int;
                self.write_char(fb, b);
                proof {
                    if one_line(self.width as int, x0, bytes@) {
                        assert(bytes@[i as int] != 10);
                        assert(kept_outside(*old(fb), mid, x0, y0, 8 * (i + 1), 8)) by {
                            assert forall|qx: int, qy: int|
                                0 <= qx < old(fb).width && 0 <= qy < old(fb).height && !in_area(
                                    x0,
                                    y0,
                                    8 * (i + 1),
                                    8,
                                    qx,
                                    qy,
                                ) implies #[trigger] mid.pixel(qx, qy) == old(fb).pixel(qx, qy) by {
                                assert(!in_area(x0, y0, 8 * i, 8, qx, qy));
                            }
                        }
                        lemma_kept_chain(
                            *old(fb),
                            mid,
                            *fb,
                            (x0, y0, 8 * (i + 1), 8),
                            (cx, y0, 8, 8),
                        );
                    }
                }
                assert forall|qx: int, qy: int|
                    0 <= qx < old(fb).width && 0 <= qy < old(fb).height implies {
                        let p = #[trigger] fb.pixel(qx, qy);
                        p == old(fb).pixel(qx, qy) || (p == self.fg && y0 <= qy < self.y + 8)
                    } by {
                    assert(mid.pixel(qx, qy) == mid.pixel(qx, qy));
                }
                assert forall|qx: int, qy: int|
                    0 <= qx < old(fb).width && 0 <= qy < old(fb).height implies #[trigger] fb.pixel(qx, qy)
                        == if text_ink(self.width as int, x0, y0, bytes@.take(i + 1), qx, qy) {
                        self.fg
                    } else {
                        old(fb).pixel(qx, qy)
                    } by {
                    assert(mid.pixel(qx, qy) == mid.pixel(qx, qy));
                }
            }
            i = i + 1;
        }
        proof {
            assert(bytes@.take(bytes@.len() as int) =~= bytes@);
            assert(kept_above(*old(fb), *old(fb), y0));
            lemma_above_ink(*old(fb), *old(fb), *fb, y0, self.fg, y0, self.y + 8);
            lemma_after_bytes_bounds(self.width as int, x0, y0, bytes@);
        }
    }

    /// Writes `s` and starts a new text line.
    pub fn write_line(&mut self, fb: &mut Framebuffer, s: &[u8])
        requires
            old(fb).wf(),
            ascii(s@),
            old(self).x + 16 <= usize::MAX,
            old(self).width + 16 <= usize::MAX,
            old(self).y + 10 * s@.len() + 20 <= usize::MAX,
        ensures
            final(fb).wf(),
            final(fb).same_shape(old(fb)),
            final(self).x == 0,
            final(self).y == after_bytes(
                old(self).width as int,
                old(self).x as int,
                old(self).y as int,
                s@,
            ).1 + 10,
            final(self).fg == old(self).fg,
            final(self).width == old(self).width,
            final(self).height == old(self).height,
            forall|qx: int, qy: int|
                0 <= qx < old(fb).width && 0 <= qy < old(fb).height ==> #[trigger] final(fb).pixel(qx, qy)
                    == if text_ink(old(self).width as int, old(self).x as int, old(self).y as int, s@, qx, qy) {
                    old(self).fg
                } else {
                    old(fb).pixel(qx, qy)
                },
    {
        self.write_bytes(fb, s);
        proof {
            lemma_after_bytes_bounds(
                old(self).width as int,
                old(self).x as int,
                old(self).y as int,
                s@,
            );
        }
        self.new_line();
    }
}

} // verus!
