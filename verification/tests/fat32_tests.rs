use lib::fat32::{is_dot_entry, read_u16_le, read_u32_le, sfn_to_name, Fat32, FAT32_EOC};

fn put16(img: &mut [u8], off: usize, v: u16) {
    img[off..off + 2].copy_from_slice(&v.to_le_bytes());
}

fn put32(img: &mut [u8], off: usize, v: u32) {
    img[off..off + 4].copy_from_slice(&v.to_le_bytes());
}

fn entry(img: &mut [u8], off: usize, name: &[u8; 11], attr: u8, cluster: u32, size: u32) {
    img[off..off + 11].copy_from_slice(name);
    img[off + 11] = attr;
    put16(img, off + 20, (cluster >> 16) as u16);
    put16(img, off + 26, (cluster & 0xFFFF) as u16);
    put32(img, off + 28, size);
}

/// 512-byte sectors, one sector per cluster, one FAT sector, 16 sectors;
/// root directory in cluster 2, HELLO.TXT in clusters 3 and 5, DOCS in 4.
fn image() -> Vec<u8> {
    let mut img = vec![0u8; 16 * 512];
    put16(&mut img, 11, 512);
    img[13] = 1;
    put16(&mut img, 14, 1);
    img[16] = 1;
    put16(&mut img, 19, 16);
    put32(&mut img, 36, 1);
    put32(&mut img, 44, 2);
    img[510] = 0x55;
    img[511] = 0xAA;
    let fat = 512;
    put32(&mut img, fat, 0x0FFF_FFF8);
    put32(&mut img, fat + 4, 0xFFFF_FFFF);
    put32(&mut img, fat + 8, 0x0FFF_FFFF);
    put32(&mut img, fat + 12, 5);
    put32(&mut img, fat + 16, 0x0FFF_FFFF);
    put32(&mut img, fat + 20, 0x0FFF_FFFF);
    let root = 2 * 512;
    entry(&mut img, root, b"VOLUME     ", 0x08, 0, 0);
    entry(&mut img, root + 32, b"HELLO   TXT", 0x20, 3, 600);
    entry(&mut img, root + 64, b"DOCS       ", 0x10, 4, 0);
    img[root + 96] = 0xE5;
    entry(&mut img, root + 128, b"LFNPART    ", 0x0F, 0, 0);
    let docs = 4 * 512;
    entry(&mut img, docs, b".          ", 0x10, 4, 0);
    entry(&mut img, docs + 32, b"..         ", 0x10, 0, 0);
    entry(&mut img, docs + 64, b"NOTE       ", 0x20, 0, 0);
    for i in 0..512 {
        img[3 * 512 + i] = b'a';
    }
    for i in 0..88 {
        img[5 * 512 + i] = b'b';
    }
    img
}

#[test]
fn fat32_rejects_bad_boot_sector() {
    assert!(Fat32::new(vec![0u8; 100]).is_none());
    let mut img = image();
    img[511] = 0;
    assert!(Fat32::new(img).is_none());
    let mut img = image();
    put16(&mut img, 11, 500);
    assert!(Fat32::new(img).is_none());
}

#[test]
fn fat32_parses_parameters() {
    let fs = Fat32::new(image()).unwrap();
    assert_eq!(fs.root_cluster(), 2);
    assert_eq!(fs.bytes_per_sector, 512);
    assert_eq!(fs.fat_start, 512);
    assert_eq!(fs.data_start, 1024);
    assert_eq!(fs.total_clusters, 14);
}

#[test]
fn fat32_lists_root() {
    let fs = Fat32::new(image()).unwrap();
    let list = fs.list_dir(2, 10);
    assert_eq!(list.len(), 2);
    assert_eq!(list[0].name, b"HELLO.TXT".to_vec());
    assert!(!list[0].is_dir);
    assert_eq!(list[0].cluster, 3);
    assert_eq!(list[0].size, 600);
    assert_eq!(list[1].name, b"DOCS".to_vec());
    assert!(list[1].is_dir);
    assert_eq!(fs.list_dir(2, 1).len(), 1);
    assert_eq!(fs.list_dir(0, 10).len(), 0);
}

#[test]
fn fat32_skips_dot_entries() {
    let fs = Fat32::new(image()).unwrap();
    let list = fs.list_dir(4, 10);
    assert_eq!(list.len(), 1);
    assert_eq!(list[0].name, b"NOTE".to_vec());
}

#[test]
fn fat32_reads_across_clusters() {
    let fs = Fat32::new(image()).unwrap();
    let data = fs.read_file(3, 600, 4096);
    assert_eq!(data.len(), 600);
    assert!(data[..512].iter().all(|&b| b == b'a'));
    assert!(data[512..].iter().all(|&b| b == b'b'));
    assert_eq!(fs.read_file(3, 600, 10), vec![b'a'; 10]);
    assert!(fs.read_file(1, 600, 10).is_empty());
    assert!(fs.read_file(3, 0, 10).is_empty());
}

#[test]
fn fat32_little_endian_readers() {
    let b = [1u8, 2, 3, 4, 5];
    assert_eq!(read_u16_le(&b, 0), 0x0201);
    assert_eq!(read_u32_le(&b, 1), 0x05040302);
    assert_eq!(read_u32_le(&b, 2), 0);
    assert_eq!(read_u16_le(&b, 4), 0);
    assert_eq!(FAT32_EOC, 0x0FFF_FFF8);
}

fn sfn(name: &[u8; 11]) -> [u8; 32] {
    let mut e = [0u8; 32];
    e[..11].copy_from_slice(name);
    e
}

#[test]
fn fat32_short_names() {
    assert_eq!(sfn_to_name(&sfn(b"README  MD ")), b"README.MD".to_vec());
    assert_eq!(sfn_to_name(&sfn(b"\x05ABC       ")), vec![0xE5, b'A', b'B', b'C']);
    assert_eq!(sfn_to_name(&sfn(b"        TXT")), Vec::<u8>::new());
    assert!(is_dot_entry(b"."));
    assert!(is_dot_entry(b".."));
    assert!(!is_dot_entry(b"..."));
}
