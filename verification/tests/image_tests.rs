use lib::image::{decode_jpeg, idct, planes_to_bgra, ycbcr_to_bgra, BitReader, HuffmanTable};

#[test]
fn bit_reader_skips_stuffed_bytes_and_stops_at_markers() {
    let data = [0xA5u8, 0xFF, 0x00, 0x80, 0xFF, 0xD9];
    let mut r = BitReader::new();
    let mut bits = Vec::new();
    while let Some(b) = r.read_bit(&data) {
        bits.push(b);
    }
    assert_eq!(bits.len(), 24);
    assert_eq!(&bits[..8], &[1, 0, 1, 0, 0, 1, 0, 1]);
    assert!(bits[8..16].iter().all(|&b| b == 1));
    assert_eq!(&bits[16..], &[1, 0, 0, 0, 0, 0, 0, 0]);
    let mut r = BitReader::new();
    assert_eq!(r.read_bits(&data, 4), Some(0xA));
    assert_eq!(r.read_bits(&data, 12), Some(0x5FF));
    assert_eq!(r.read_bits(&data, 9), None);
}

#[test]
fn huffman_canonical_codes() {
    let mut bits = [0u8; 16];
    bits[1] = 2;
    bits[2] = 1;
    let t = HuffmanTable::new(&bits, &[5, 6, 7]);
    // "01" -> 6, "100" -> 7, "00" -> 5.
    let data = [0b0110_0000u8];
    let mut r = BitReader::new();
    assert_eq!(t.decode(&data, &mut r), Some(6));
    assert_eq!(t.decode(&data, &mut r), Some(7));
    assert_eq!(t.decode(&data, &mut r), Some(5));
    // A code longer than any in the table never matches.
    let empty = HuffmanTable::new(&[0u8; 16], &[]);
    let mut r = BitReader::new();
    assert_eq!(empty.decode(&[0u8, 0, 0], &mut r), None);
}

#[test]
fn idct_of_a_flat_block() {
    let mut b = vec![0i64; 64];
    b[0] = 800;
    let out = idct(&b);
    assert!(out.iter().all(|&v| v == 800));
    let zero = idct(&vec![0i64; 64]);
    assert!(zero.iter().all(|&v| v == 0));
}

#[test]
fn colour_conversion() {
    assert_eq!(ycbcr_to_bgra(100, 128, 128), [100, 100, 100, 255]);
    assert_eq!(ycbcr_to_bgra(0, 255, 0), [219, 48, 0, 255]);
    assert_eq!(ycbcr_to_bgra(255, 128, 255), [255, 167, 255, 255]);
    let img = planes_to_bgra(2, 1, &[10, 20], &[128, 128], &[128, 128]);
    assert_eq!(img, vec![2, 0, 0, 0, 1, 0, 0, 0, 10, 10, 10, 255, 20, 20, 20, 255]);
}

/// An 8x8 baseline JPEG: one quantisation table (16 for DC, 1 elsewhere),
/// three components sampled 1x1, DC codes "0" (size 0) and "10" (size 2),
/// AC code "0" (end of block); luma DC 3, chroma DC 0.
fn tiny_jpeg() -> Vec<u8> {
    let mut v = vec![0xFF, 0xD8];
    v.extend_from_slice(&[0xFF, 0xDB, 0x00, 0x43, 0x00, 16]);
    v.extend_from_slice(&[1u8; 63]);
    v.extend_from_slice(&[0xFF, 0xC0, 0x00, 0x11, 8, 0x00, 0x08, 0x00, 0x08, 3]);
    v.extend_from_slice(&[1, 0x11, 0, 2, 0x11, 0, 3, 0x11, 0]);
    v.extend_from_slice(&[0xFF, 0xC4, 0x00, 0x15, 0x00, 1, 1]);
    v.extend_from_slice(&[0u8; 14]);
    v.extend_from_slice(&[0, 2]);
    v.extend_from_slice(&[0xFF, 0xC4, 0x00, 0x14, 0x10, 1]);
    v.extend_from_slice(&[0u8; 15]);
    v.extend_from_slice(&[0x00]);
    v.extend_from_slice(&[0xFF, 0xDA, 0x00, 0x0C, 3, 1, 0x00, 2, 0x00, 3, 0x00, 0, 63, 0]);
    v.extend_from_slice(&[0b1011_0000, 0x00]);
    v.extend_from_slice(&[0xFF, 0xD9]);
    v
}

#[test]
fn decodes_a_tiny_grey_picture() {
    let img = decode_jpeg(&tiny_jpeg()).unwrap();
    assert_eq!(img.len(), 8 + 64 * 4);
    assert_eq!(&img[..8], &[8, 0, 0, 0, 8, 0, 0, 0]);
    for p in img[8..].chunks(4) {
        assert_eq!(p, &[134, 134, 134, 255]);
    }
}

#[test]
fn rejects_what_is_not_a_jpeg() {
    assert!(decode_jpeg(&[]).is_none());
    assert!(decode_jpeg(&[0x89, 0x50, 0x4E, 0x47]).is_none());
    let mut cut = tiny_jpeg();
    cut.truncate(40);
    assert!(decode_jpeg(&cut).is_none());
    // A component id of 0 is refused.
    let mut bad = tiny_jpeg();
    let sof = bad.windows(2).position(|w| w == [0xFF, 0xC0]).unwrap();
    bad[sof + 10] = 0;
    assert!(decode_jpeg(&bad).is_none());
}

#[test]
fn end_of_image_before_a_scan_gives_no_pixels() {
    assert_eq!(decode_jpeg(&[0xFF, 0xD8, 0xFF, 0xD9]), Some(Vec::new()));
    assert_eq!(decode_jpeg(&[0xFF, 0xD8, 0x12, 0x34, 0xFF, 0xD9]), Some(Vec::new()));
}

#[test]
fn segments_are_skipped_up_to_the_end_of_image() {
    assert_eq!(
        decode_jpeg(&[0xFF, 0xD8, 0xFF, 0xE0, 0x00, 0x04, 0x11, 0x22, 0xFF, 0xD9]),
        Some(Vec::new())
    );
    assert!(decode_jpeg(&[0xFF, 0xD8]).is_none());
    assert!(decode_jpeg(&[0xFF, 0xD8, 0xFF, 0xE0, 0x00, 0x01]).is_none());
}
