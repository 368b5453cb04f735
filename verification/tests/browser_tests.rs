use lib::browser::{Browser, NetDevice, NetKind, NetState};
use lib::display::Framebuffer;

fn screen() -> Framebuffer {
    Framebuffer::new(1024 * 4, 1024, 768, 32, 16, 8, 8, 8, 0, 8, 0)
}

fn nic() -> NetDevice {
    NetDevice {
        kind: NetKind::IntelE1000,
        vendor_id: 0x8086,
        device_id: 0x100E,
        state: NetState::Ready,
        driver_online: true,
        io_base: 0xC000,
        irq_line: 11,
        mac: [0x52, 0x54, 0x00, 0x12, 0x34, 0x56],
    }
}

fn lines(b: &Browser) -> Vec<Vec<u8>> {
    b.page_lines().to_vec()
}

#[test]
fn browser_first_page_without_adapter() {
    let fb = screen();
    let mut b = Browser::new(&fb);
    assert!(!b.is_visible());
    assert_eq!(b.url_text(), b"https://example.com");
    b.show(&fb, &[]);
    assert!(b.is_visible());
    assert_eq!(b.rect(&fb), ((1024 - 819) / 2, (768 - 614) / 2, 819, 614));
    assert_eq!(
        lines(&b),
        vec![
            b"HouseOS Browser".to_vec(),
            b"----------------".to_vec(),
            b"URL: https://example.com".to_vec(),
            b"No network adapter detected.".to_vec(),
            b"Check QEMU NIC or PCI passthrough.".to_vec(),
        ]
    );
}

#[test]
fn browser_reports_adapter_for_http() {
    let fb = screen();
    let mut b = Browser::new(&fb);
    b.show(&fb, &[nic()]);
    assert_eq!(
        lines(&b)[3..],
        [
            b"Network device detected:".to_vec(),
            b"Intel E1000  VID:0x8086  DID:0x100E".to_vec(),
            b"Driver: Ready (online)".to_vec(),
            b"IO:0xC000  IRQ:0x0B".to_vec(),
            b"MAC: 52:54:00:12:34:56".to_vec(),
            b"HTTPS requested.".to_vec(),
            b"NIC driver is ready.".to_vec(),
            b"TLS + TCP/IP stack is not implemented yet.".to_vec(),
        ]
    );
}

#[test]
fn browser_typing_edits_address_and_enter_navigates() {
    let fb = screen();
    let mut b = Browser::new(&fb);
    b.show(&fb, &[]);
    for _ in 0.."https://example.com".len() {
        b.handle_char(8, &[]);
    }
    assert_eq!(b.url_text(), b"");
    b.handle_char(8, &[]);
    for &c in b"http://a" {
        b.handle_char(c, &[]);
    }
    b.handle_char(0x01, &[]);
    assert_eq!(b.url_text(), b"http://a");
    let mut dev = nic();
    dev.state = NetState::Error;
    dev.driver_online = false;
    dev.mac = [0; 6];
    b.handle_char(b'\n', &[dev]);
    let l = lines(&b);
    assert_eq!(l[2], b"URL: http://a".to_vec());
    assert_eq!(l[5], b"Driver: Error (offline)".to_vec());
    assert_eq!(l[7], b"HTTP requested.".to_vec());
    assert_eq!(l[8], b"NIC exists but driver init failed.".to_vec());
    assert_eq!(l.len(), 10);
}

#[test]
fn browser_backspace_undoes_typed_char() {
    let fb = screen();
    let mut b = Browser::new(&fb);
    b.show(&fb, &[]);
    let before = b.url_text().to_vec();
    b.handle_char(b'x', &[]);
    b.handle_char(8, &[]);
    assert_eq!(b.url_text(), &before[..]);
}

#[test]
fn browser_plain_address_asks_for_scheme() {
    let fb = screen();
    let mut b = Browser::new(&fb);
    b.show(&fb, &[]);
    for _ in 0.."https://example.com".len() {
        b.handle_char(8, &[]);
    }
    for &c in b"example" {
        b.handle_char(c, &[]);
    }
    b.handle_char(b'\n', &[nic()]);
    assert_eq!(lines(&b).last().unwrap(), &b"Type URL starting with http:// or https://".to_vec());
}

#[test]
fn browser_ignores_keys_while_hidden() {
    let fb = screen();
    let mut b = Browser::new(&fb);
    b.handle_char(b'x', &[]);
    assert_eq!(b.url_text(), b"https://example.com");
    assert!(b.page_lines().is_empty());
}
