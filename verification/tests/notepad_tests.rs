use lib::display::Framebuffer;
use lib::notepad::{sanitize_loaded_text, wrapped_line_count, Notepad, MAX_TEXT};

fn put16(img: &mut [u8], off: usize, v: u16) {
    img[off..off + 2].copy_from_slice(&v.to_le_bytes());
}

fn put32(img: &mut [u8], off: usize, v: u32) {
    img[off..off + 4].copy_from_slice(&v.to_le_bytes());
}

fn entry(img: &mut [u8], off: usize, name: &[u8; 11], attr: u8, cluster: u32, size: u32) {
    img[off..off + 11].copy_from_slice(name);
    img[off + 11] = attr;
    put16(img, off + 20, (cluster >> 16) as u16);
    put16(img, off + 26, (cluster & 0xFFFF) as u16);
    put32(img, off + 28, size);
}

/// 512-byte sectors, one sector per cluster, one FAT sector, 16 sectors;
/// root directory in cluster 2, HELLO.TXT in clusters 3 and 5, DOCS in 4.
fn image() -> Vec<u8> {
    let mut img = vec![0u8; 16 * 512];
    put16(&mut img, 11, 512);
    img[13] = 1;
    put16(&mut img, 14, 1);
    img[16] = 1;
    put16(&mut img, 19, 16);
    put32(&mut img, 36, 1);
    put32(&mut img, 44, 2);
    img[510] = 0x55;
    img[511] = 0xAA;
    let fat = 512;
    put32(&mut img, fat, 0x0FFF_FFF8);
    put32(&mut img, fat + 4, 0xFFFF_FFFF);
    put32(&mut img, fat + 8, 0x0FFF_FFFF);
    put32(&mut img, fat + 12, 5);
    put32(&mut img, fat + 16, 0x0FFF_FFFF);
    put32(&mut img, fat + 20, 0x0FFF_FFFF);
    let root = 2 * 512;
    entry(&mut img, root, b"VOLUME     ", 0x08, 0, 0);
    entry(&mut img, root + 32, b"HELLO   TXT", 0x20, 3, 600);
    entry(&mut img, root + 64, b"DOCS       ", 0x10, 4, 0);
    img[root + 96] = 0xE5;
    entry(&mut img, root + 128, b"LFNPART    ", 0x0F, 0, 0);
    let docs = 4 * 512;
    entry(&mut img, docs, b".          ", 0x10, 4, 0);
    entry(&mut img, docs + 32, b"..         ", 0x10, 0, 0);
    entry(&mut img, docs + 64, b"NOTE       ", 0x20, 0, 0);
    for i in 0..512 {
        img[3 * 512 + i] = b'a';
    }
    for i in 0..88 {
        img[5 * 512 + i] = b'b';
    }
    img
}


fn screen() -> Framebuffer {
    Framebuffer::new(1024 * 4, 1024, 768, 32, 16, 8, 8, 8, 0, 8, 0)
}

#[test]
fn notepad_sanitizes_loaded_text() {
    let mut buf = b"ab\r\ncd\x01\x7f\te".to_vec();
    let n = sanitize_loaded_text(&mut buf, 9);
    assert_eq!(&buf[..n], b"ab\ncd..\t");
    assert_eq!(buf.len(), 10);
    assert_eq!(buf[9], b'e');
}

#[test]
fn notepad_wrapped_lines() {
    assert_eq!(wrapped_line_count(b"", 10), 1);
    assert_eq!(wrapped_line_count(b"abc", 0), 0);
    assert_eq!(wrapped_line_count(b"abcdefghij", 10), 1);
    assert_eq!(wrapped_line_count(b"abcdefghijk", 10), 2);
    assert_eq!(wrapped_line_count(b"ab\ncd\n", 10), 3);
    assert_eq!(wrapped_line_count(b"ab\r\ncd", 10), 2);
}

#[test]
fn notepad_opens_empty() {
    let fb = screen();
    let mut n = Notepad::new(&fb, None);
    assert!(!n.is_visible());
    n.open_empty(&fb);
    assert!(n.is_visible());
    assert_eq!(n.title_text(), b"Notepad - (new)");
    assert_eq!(n.text(), b"");
}

#[test]
fn notepad_typing_and_backspace() {
    let fb = screen();
    let mut n = Notepad::new(&fb, None);
    n.open_empty(&fb);
    for &c in b"hi\tx\n" {
        n.handle_char(c);
    }
    n.handle_char(0x01);
    assert_eq!(n.text(), b"hi    x\n");
    n.handle_char(8);
    n.handle_char(8);
    assert_eq!(n.text(), b"hi    ");
    n.hide_window();
    n.handle_char(b'z');
    assert_eq!(n.text(), b"hi    ");
}

#[test]
fn notepad_text_is_bounded() {
    let fb = screen();
    let mut n = Notepad::new(&fb, None);
    n.open_empty(&fb);
    for _ in 0..(MAX_TEXT + 10) {
        n.handle_char(b'a');
    }
    assert_eq!(n.text().len(), MAX_TEXT);
}

#[test]
fn notepad_opens_file_from_volume() {
    let fb = screen();
    let mut n = Notepad::new(&fb, Some(image()));
    n.open_file(&fb, 3, 600, b"HELLO.TXT");
    assert_eq!(n.title_text(), b"Notepad - HELLO.TXT");
    assert_eq!(n.text().len(), 600);
    assert!(n.text()[..512].iter().all(|&b| b == b'a'));
    assert!(n.text()[512..].iter().all(|&b| b == b'b'));
    let mut m = Notepad::new(&fb, None);
    m.open_file(&fb, 3, 600, b"HELLO.TXT");
    assert_eq!(m.text(), b"");
}
