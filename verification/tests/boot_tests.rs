use lib::boot::{
    boot_info_ends, boot_system_info, list_tar, bpp_supported, classify_module, find_tar_file,
    module_is_fat32, module_is_raw_bg, module_is_tar, name_ends_with, name_starts_with,
    parse_boot_info, parse_octal, select_module, ModuleClass, ModuleRange, Selection,
};

fn put32(v: &mut Vec<u8>, x: u32) {
    v.extend_from_slice(&x.to_le_bytes());
}

fn pad8(v: &mut Vec<u8>) {
    while v.len() % 8 != 0 {
        v.push(0);
    }
}

/// A boot information block with a module, a framebuffer tag, a memory map
/// and the end tag.
fn info() -> Vec<u8> {
    let mut v = Vec::new();
    put32(&mut v, 0);
    put32(&mut v, 0);
    // Module tag: type 3, start, end, "fs.img".
    let name = b"fs.img\0";
    put32(&mut v, 3);
    put32(&mut v, 16 + name.len() as u32);
    put32(&mut v, 0x10_0000);
    put32(&mut v, 0x20_0000);
    v.extend_from_slice(name);
    pad8(&mut v);
    // Framebuffer tag: type 8, 32 bpp, RGB type with its colour layout.
    put32(&mut v, 8);
    put32(&mut v, 38);
    put32(&mut v, 0xFD00_0000);
    put32(&mut v, 0);
    put32(&mut v, 4096);
    put32(&mut v, 1024);
    put32(&mut v, 768);
    v.push(32);
    v.push(1);
    v.push(0);
    v.push(0);
    v.extend_from_slice(&[16, 8, 8, 8, 0, 8]);
    pad8(&mut v);
    // Memory map: type 6, two entries of 24 bytes.
    put32(&mut v, 6);
    put32(&mut v, 16 + 48);
    put32(&mut v, 24);
    put32(&mut v, 0);
    for (len, typ) in [(0x10_0000u64, 1u32), (0x1000u64, 2u32)] {
        v.extend_from_slice(&0u64.to_le_bytes());
        v.extend_from_slice(&len.to_le_bytes());
        put32(&mut v, typ);
        put32(&mut v, 0);
    }
    // End tag.
    put32(&mut v, 0);
    put32(&mut v, 8);
    let total = v.len() as u32;
    v[0..4].copy_from_slice(&total.to_le_bytes());
    v
}

#[test]
fn boot_info_is_read() {
    let d = info();
    assert!(boot_info_ends(&d));
    let b = parse_boot_info(&d);
    assert_eq!(b.modules.len(), 1);
    assert_eq!(b.modules[0].start, 0x10_0000);
    assert_eq!(b.modules[0].end, 0x20_0000);
    assert_eq!(b.modules[0].name, b"fs.img".to_vec());
    let fb = b.fb.unwrap();
    assert_eq!((fb.addr, fb.pitch, fb.width, fb.height, fb.bpp), (0xFD00_0000, 4096, 1024, 768, 32));
    assert_eq!(fb.bytes_per_pixel, 4);
    assert_eq!((fb.red_pos, fb.green_pos, fb.blue_pos), (16, 8, 0));
    assert_eq!(b.mem_total, 0x10_1000);
    assert_eq!(b.mem_avail, 0x10_0000);
    let s = boot_system_info(&fb, b.mem_total, b.mem_avail);
    assert_eq!(s.mem_total_kib, 0x10_1000 / 1024);
    assert_eq!(s.mem_avail_kib, 1024);
    assert_eq!((s.fb_w, s.fb_h, s.fb_bpp), (1024, 768, 32));
}

#[test]
fn boot_info_with_zero_sized_tag_is_refused() {
    let mut d = vec![0u8; 24];
    d[0] = 24;
    d[8] = 5; // a tag of type 5 and size 0 would never advance
    assert!(!boot_info_ends(&d));
    let mut e = vec![0u8; 8];
    e[0] = 8;
    assert!(boot_info_ends(&e));
    let b = parse_boot_info(&e);
    assert!(b.fb.is_none());
    assert!(b.modules.is_empty());
}

#[test]
fn module_names_ignore_case() {
    assert!(name_starts_with(b"Background.RAW", b"background"));
    assert!(name_ends_with(b"/boot/INITRD.TAR", b".tar"));
    assert!(!name_starts_with(b"bg", b"background"));
    assert!(!name_ends_with(b"x.tar.gz", b".tar"));
}

fn fat_image() -> Vec<u8> {
    let mut d = vec![0u8; 512];
    d[11] = 0x00;
    d[12] = 0x02;
    d[13] = 1;
    d[82..85].copy_from_slice(b"FAT");
    d[510] = 0x55;
    d[511] = 0xAA;
    d
}

fn tar_image() -> Vec<u8> {
    let mut d = vec![0u8; 512 * 4];
    d[..8].copy_from_slice(b"./readme");
    d[124..135].copy_from_slice(b"00000001001");
    d[257..262].copy_from_slice(b"ustar");
    for i in 0..513 {
        d[512 + i] = b'r';
    }
    d
}

#[test]
fn module_kinds() {
    assert!(module_is_fat32(&fat_image()));
    assert!(!module_is_fat32(&vec![0u8; 512]));
    assert!(module_is_tar(&tar_image()));
    let mut raw = vec![0u8; 8 + 2 * 3 * 4];
    raw[0] = 2;
    raw[4] = 3;
    assert!(module_is_raw_bg(&raw));
    raw.pop();
    assert!(!module_is_raw_bg(&raw));
    let c = classify_module(b"fs", &fat_image());
    assert!(c == ModuleClass { is_fat: true, is_bg: false, is_initrd: false });
    let c = classify_module(b"Background.raw", b"");
    assert!(c == ModuleClass { is_fat: false, is_bg: true, is_initrd: false });
}

#[test]
fn module_selection() {
    let a = ModuleRange { start: 0, end: 10 };
    let b = ModuleRange { start: 10, end: 20 };
    let c = ModuleRange { start: 20, end: 30 };
    let none = ModuleClass { is_fat: false, is_bg: false, is_initrd: false };
    let fat = ModuleClass { is_fat: true, ..none };
    let bg = ModuleClass { is_bg: true, ..none };
    let mut s = Selection { initrd: None, fs_img: None, bgraw: None };
    select_module(&mut s, a, fat);
    select_module(&mut s, b, bg);
    select_module(&mut s, c, none);
    assert!(s == Selection { initrd: Some(c), fs_img: Some(a), bgraw: Some(b) });
    // Later modules do not replace the first choices, but the last
    // background wins.
    select_module(&mut s, b, fat);
    select_module(&mut s, a, none);
    select_module(&mut s, c, bg);
    assert!(s == Selection { initrd: Some(c), fs_img: Some(a), bgraw: Some(c) });
}

#[test]
fn octal_fields() {
    assert_eq!(parse_octal(b"00000001001"), 513);
    assert_eq!(parse_octal(b"17 "), 15);
    assert_eq!(parse_octal(b""), 0);
    assert_eq!(parse_octal(b"9"), 0);
}

#[test]
fn tar_lookup() {
    let d = tar_image();
    assert_eq!(find_tar_file(&d, b"readme"), Some((512, 513)));
    assert_eq!(find_tar_file(&d, b"./readme"), Some((512, 513)));
    assert_eq!(find_tar_file(&d, b"other"), None);
    assert_eq!(find_tar_file(&[], b"readme"), None);
}

#[test]
fn supported_depths() {
    assert!(bpp_supported(32));
    assert!(bpp_supported(15));
    assert!(!bpp_supported(8));
}

#[test]
fn tar_listing() {
    let d = tar_image();
    assert_eq!(list_tar(&d), vec![b"./readme".to_vec()]);
    let mut two = tar_image();
    // A second member after the first one's two data blocks.
    two[1536..1541].copy_from_slice(b"notes");
    two[1536 + 124..1536 + 135].copy_from_slice(b"00000000000");
    assert_eq!(list_tar(&two), vec![b"./readme".to_vec(), b"notes".to_vec()]);
    assert!(list_tar(&[]).is_empty());
}
