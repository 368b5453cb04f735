use lib::display::Framebuffer;
use lib::explorer::{is_text_file, Explorer, ExplorerAction};
use lib::notepad::ClickResult;

fn put16(img: &mut [u8], off: usize, v: u16) {
    img[off..off + 2].copy_from_slice(&v.to_le_bytes());
}

fn put32(img: &mut [u8], off: usize, v: u32) {
    img[off..off + 4].copy_from_slice(&v.to_le_bytes());
}

fn entry(img: &mut [u8], off: usize, name: &[u8; 11], attr: u8, cluster: u32, size: u32) {
    img[off..off + 11].copy_from_slice(name);
    img[off + 11] = attr;
    put16(img, off + 20, (cluster >> 16) as u16);
    put16(img, off + 26, (cluster & 0xFFFF) as u16);
    put32(img, off + 28, size);
}

/// 512-byte sectors, one sector per cluster, one FAT sector, 16 sectors;
/// root directory in cluster 2, HELLO.TXT in clusters 3 and 5, DOCS in 4.
fn image() -> Vec<u8> {
    let mut img = vec![0u8; 16 * 512];
    put16(&mut img, 11, 512);
    img[13] = 1;
    put16(&mut img, 14, 1);
    img[16] = 1;
    put16(&mut img, 19, 16);
    put32(&mut img, 36, 1);
    put32(&mut img, 44, 2);
    img[510] = 0x55;
    img[511] = 0xAA;
    let fat = 512;
    put32(&mut img, fat, 0x0FFF_FFF8);
    put32(&mut img, fat + 4, 0xFFFF_FFFF);
    put32(&mut img, fat + 8, 0x0FFF_FFFF);
    put32(&mut img, fat + 12, 5);
    put32(&mut img, fat + 16, 0x0FFF_FFFF);
    put32(&mut img, fat + 20, 0x0FFF_FFFF);
    let root = 2 * 512;
    entry(&mut img, root, b"VOLUME     ", 0x08, 0, 0);
    entry(&mut img, root + 32, b"HELLO   TXT", 0x20, 3, 600);
    entry(&mut img, root + 64, b"DOCS       ", 0x10, 4, 0);
    img[root + 96] = 0xE5;
    entry(&mut img, root + 128, b"LFNPART    ", 0x0F, 0, 0);
    let docs = 4 * 512;
    entry(&mut img, docs, b".          ", 0x10, 4, 0);
    entry(&mut img, docs + 32, b"..         ", 0x10, 0, 0);
    entry(&mut img, docs + 64, b"NOTE       ", 0x20, 0, 0);
    for i in 0..512 {
        img[3 * 512 + i] = b'a';
    }
    for i in 0..88 {
        img[5 * 512 + i] = b'b';
    }
    img
}


fn screen() -> Framebuffer {
    Framebuffer::new(1024 * 4, 1024, 768, 32, 16, 8, 8, 8, 0, 8, 0)
}

// For a 1024 x 768 screen the window is at (128, 96), 768 x 576; its list
// starts at x = 333, y = 200 with 18-pixel rows; the action button is at
// (214, 143).
const LIST_X: usize = 340;
fn row_y(row: usize) -> usize {
    200 + row * 18 + 5
}
const ACTION: (usize, usize) = (220, 150);

fn click(e: &mut Explorer, fb: &Framebuffer, x: usize, y: usize) -> ClickResult {
    let r = e.handle_click(fb, x, y);
    e.refresh(fb);
    r
}

fn opened(e: &mut Explorer) -> Option<(Vec<u8>, u32, u32)> {
    match e.take_action() {
        ExplorerAction::OpenTextFile { name, cluster, size } => Some((name, cluster, size)),
        ExplorerAction::Idle => None,
    }
}

#[test]
fn explorer_text_file_names() {
    assert!(is_text_file(b"HELLO.TXT"));
    assert!(is_text_file(b"a.log"));
    assert!(is_text_file(b"X.Csv"));
    assert!(!is_text_file(b"IMAGE.JPG"));
    assert!(!is_text_file(b"TXT"));
    assert!(!is_text_file(b"NOTE"));
}

#[test]
fn explorer_window_position() {
    let fb = screen();
    let mut e = Explorer::new(&fb, Some(image()));
    assert!(!e.is_visible());
    e.show(&fb);
    assert!(e.is_visible());
    assert_eq!(e.rect(&fb), (128, 96, 768, 576));
    e.hide_window(&fb);
    assert!(!e.is_visible());
}

#[test]
fn explorer_double_click_opens_text_file() {
    let fb = screen();
    let mut e = Explorer::new(&fb, Some(image()));
    e.show(&fb);
    e.refresh(&fb);
    assert!(matches!(click(&mut e, &fb, LIST_X, row_y(0)), ClickResult::Handled));
    assert_eq!(opened(&mut e), None);
    click(&mut e, &fb, LIST_X, row_y(0));
    assert_eq!(opened(&mut e), Some((b"HELLO.TXT".to_vec(), 3, 600)));
    assert_eq!(opened(&mut e), None);
}

#[test]
fn explorer_enters_folder_and_goes_back() {
    let fb = screen();
    let mut e = Explorer::new(&fb, Some(image()));
    e.show(&fb);
    e.refresh(&fb);
    // DOCS opens on one click; its rows are Back and NOTE.
    click(&mut e, &fb, LIST_X, row_y(1));
    click(&mut e, &fb, LIST_X, row_y(1));
    click(&mut e, &fb, LIST_X, row_y(1));
    assert_eq!(opened(&mut e), None);
    // Back row returns to the root, where row 0 is HELLO.TXT again.
    click(&mut e, &fb, LIST_X, row_y(0));
    click(&mut e, &fb, LIST_X, row_y(0));
    click(&mut e, &fb, LIST_X, row_y(0));
    assert_eq!(opened(&mut e), Some((b"HELLO.TXT".to_vec(), 3, 600)));
}

#[test]
fn explorer_delete_then_restore() {
    let fb = screen();
    let mut e = Explorer::new(&fb, Some(image()));
    e.show(&fb);
    e.refresh(&fb);
    click(&mut e, &fb, LIST_X, row_y(0));
    click(&mut e, &fb, ACTION.0, ACTION.1);
    // HELLO.TXT is hidden: row 0 is now DOCS, so two clicks enter it and
    // come back without opening anything.
    click(&mut e, &fb, LIST_X, row_y(0));
    click(&mut e, &fb, LIST_X, row_y(0));
    assert_eq!(opened(&mut e), None);
    // In the bin it is row 0; restoring it brings it back.
    e.show_bin(&fb);
    e.refresh(&fb);
    click(&mut e, &fb, LIST_X, row_y(0));
    click(&mut e, &fb, ACTION.0, ACTION.1);
    e.show(&fb);
    e.refresh(&fb);
    click(&mut e, &fb, LIST_X, row_y(0));
    click(&mut e, &fb, LIST_X, row_y(0));
    assert_eq!(opened(&mut e), Some((b"HELLO.TXT".to_vec(), 3, 600)));
}

#[test]
fn explorer_without_volume_lists_nothing() {
    let fb = screen();
    let mut e = Explorer::new(&fb, None);
    e.show(&fb);
    e.refresh(&fb);
    assert!(matches!(click(&mut e, &fb, LIST_X, row_y(0)), ClickResult::Ignored));
    assert_eq!(opened(&mut e), None);
}

#[test]
fn explorer_ignores_clicks_while_hidden() {
    let fb = screen();
    let mut e = Explorer::new(&fb, Some(image()));
    assert!(matches!(e.handle_click(&fb, LIST_X, row_y(0)), ClickResult::Ignored));
}
