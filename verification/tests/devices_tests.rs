use lib::battery::{AcpiBatteryBackend, BatteryState, SimBatteryBackend};
use lib::display::Framebuffer;
use lib::input::{move_axis, scancode_to_ascii, MousePacket};
use lib::memory::{HouseOSAllocator, HEAP_END, HEAP_START, PAGE_SIZE};
use lib::mouse::{run, MouseRun};
use lib::pci::{config_address, func_count, read_config_byte, read_config_word, PciDevice};
use lib::rtc::RtcTime;
use lib::status_bar::{battery_label, format_date, format_time, StatusBar};
use lib::taskbar::{buttons_fit, hit_test, start_rect, TaskbarEntry, HIT_START};
use lib::usb::{any_usb, controllers, kind_from_prog_if, UsbControllerKind};
use lib::vesa::FrameBuffer;

fn screen() -> Framebuffer {
    Framebuffer::new(1024 * 4, 1024, 768, 32, 16, 8, 8, 8, 0, 8, 0)
}

#[test]
fn sim_battery_drains_every_sixteenth_tick() {
    let mut b = SimBatteryBackend::new();
    assert!(b.state() == BatteryState { present: true, level_percent: 87, charging: true });
    b.update(3);
    assert_eq!(b.level, 87);
    b.update(32);
    assert_eq!(b.level, 86);
    b.level = 5;
    b.update(0);
    assert_eq!(b.level, 95);
    b.level = 80;
    assert!(!b.state().charging);
    b.init();
    assert_eq!(b.level, 87);
}

#[test]
fn acpi_battery_levels() {
    let mut b = AcpiBatteryBackend::new();
    b.update(Some((2, 50)), Some(100));
    assert!(!b.state().present);
    b.init(true);
    assert!(b.state().present);
    b.update(Some((2, 50)), Some(100));
    assert!(b.state() == BatteryState { present: true, level_percent: 50, charging: true });
    b.update(Some((1, 300)), Some(200));
    assert!(b.state() == BatteryState { present: true, level_percent: 100, charging: false });
    b.update(Some((0, 300)), None);
    assert_eq!(b.state().level_percent, 0);
    b.update(None, Some(100));
    assert!(!b.state().present);
}

#[test]
fn allocator_hands_out_whole_pages() {
    let mut a = HouseOSAllocator::new();
    assert_eq!(a.alloc_pages(1), Some(HEAP_START));
    assert_eq!(a.alloc_pages(PAGE_SIZE + 1), Some(HEAP_START + PAGE_SIZE));
    assert_eq!(a.heap_ptr, HEAP_START + 3 * PAGE_SIZE);
    assert_eq!(a.get_memory_usage(), (PAGE_SIZE + 2, HEAP_END - HEAP_START));
    a.dealloc_pages(true, 1);
    assert_eq!(a.allocated_bytes, PAGE_SIZE + 1);
    assert_eq!(a.allocation_count, 1);
    a.dealloc_pages(false, 99);
    assert_eq!(a.allocation_count, 1);
    a.gc_collect();
    a.gc_collect();
    assert_eq!(a.allocation_count, 0);
    assert_eq!(a.alloc_pages(HEAP_END), None);
    assert_eq!(a.heap_ptr, HEAP_START + 3 * PAGE_SIZE);
}

#[test]
fn pci_config_registers() {
    assert_eq!(config_address(0, 3, 1, 0x0E), 0x8000_0000 | (3 << 11) | (1 << 8) | 0x0C);
    assert_eq!(read_config_word(0xBEEF_1234, 0), 0x1234);
    assert_eq!(read_config_word(0xBEEF_1234, 2), 0xBEEF);
    assert_eq!(read_config_byte(0x1122_3344, 0x0D), 0x33);
    assert_eq!(read_config_byte(0x1122_3344, 3), 0x11);
    assert_eq!(func_count(0x80), 8);
    assert_eq!(func_count(0x00), 1);
}

fn dev(class: u8, sub: u8, prog_if: u8, bus: u8) -> PciDevice {
    PciDevice {
        bus,
        dev: 1,
        func: 0,
        vendor_id: 0x8086,
        device_id: 0x1234,
        class_code: class,
        subclass: sub,
        prog_if,
        header_type: 0,
        bars: [0; 6],
        irq_line: 11,
    }
}

#[test]
fn usb_controllers_from_pci() {
    assert!(kind_from_prog_if(0x30) == UsbControllerKind::Xhci);
    assert!(kind_from_prog_if(0x00) == UsbControllerKind::Uhci);
    assert!(kind_from_prog_if(0x55) == UsbControllerKind::Unknown);
    let devices = [dev(0x02, 0x00, 0, 0), dev(0x0C, 0x03, 0x20, 1), dev(0x0C, 0x03, 0x30, 2)];
    let found = controllers(&devices);
    assert_eq!(found.len(), 2);
    assert!(found[0].kind == UsbControllerKind::Ehci);
    assert_eq!(found[1].bus, 2);
    assert!(any_usb(&devices));
    assert!(!any_usb(&devices[..1]));
}

#[test]
fn vesa_pixel_layout() {
    let f = FrameBuffer::new(0xE000_0000, 3072, 1024, 768, 24);
    assert_eq!(f.bytes_per_pixel(), 3);
    assert_eq!(f.pixel_offset(2, 1), Some(3072 + 6));
    assert_eq!(f.pixel_offset(1024, 0), None);
    assert_eq!(f.encode_pixel(0x00112233), vec![0x33, 0x22, 0x11]);
    let g = FrameBuffer::new(0, 4096, 1024, 768, 32);
    assert_eq!(g.encode_pixel(0x00112233), vec![0x33, 0x22, 0x11, 0x00]);
    let h = FrameBuffer::new(0, 2048, 1024, 768, 16);
    assert_eq!(h.bytes_per_pixel(), 0);
    assert_eq!(h.pixel_offset(0, 0), None);
    assert!(h.encode_pixel(5).is_empty());
}

#[test]
fn pointer_loop_moves_cursor() {
    let fb = screen();
    let mut m = MouseRun::new(&fb);
    assert_eq!((m.mouse_x, m.mouse_y), (511, 383));
    // A byte without bit 3 cannot start a report.
    assert_eq!(run(&mut m, &fb, 0x00), None);
    assert_eq!(m.idx, 0);
    assert_eq!(run(&mut m, &fb, 0x08), None);
    assert_eq!(run(&mut m, &fb, 10), None);
    // dy = 5 moves up.
    assert_eq!(run(&mut m, &fb, 5), Some((511, 383)));
    assert_eq!((m.mouse_x, m.mouse_y), (521, 378));
    // No movement, nothing to redraw.
    run(&mut m, &fb, 0x08);
    run(&mut m, &fb, 0);
    assert_eq!(run(&mut m, &fb, 0), None);
    // Large moves stop at the edge, keeping the cursor on screen.
    run(&mut m, &fb, 0x08);
    run(&mut m, &fb, 0x80);
    run(&mut m, &fb, 0x80);
    assert_eq!((m.mouse_x, m.mouse_y), (521 - 128, 378 + 128));
}

#[test]
fn cursor_axis_is_clamped() {
    assert_eq!(move_axis(10, -20, 1024, 32), 0);
    assert_eq!(move_axis(1000, 50, 1024, 32), 1024 - 33);
    assert_eq!(move_axis(100, 5, 1024, 32), 105);
    assert_eq!(move_axis(0, 5, 10, 32), 0);
    let p = MousePacket::from_bytes(0x09, 0xFF, 0x02);
    assert!(p == MousePacket { buttons: 1, dx: -1, dy: 2 });
}

#[test]
fn scancodes_to_ascii() {
    assert_eq!(scancode_to_ascii(0x1E, false), Some(b'a'));
    assert_eq!(scancode_to_ascii(0x1E, true), Some(b'A'));
    assert_eq!(scancode_to_ascii(0x02, true), Some(b'!'));
    assert_eq!(scancode_to_ascii(0x1C, false), Some(b'\n'));
    assert_eq!(scancode_to_ascii(0x0E, true), Some(8));
    assert_eq!(scancode_to_ascii(0x39, true), Some(b' '));
    assert_eq!(scancode_to_ascii(0x01, false), None);
    assert_eq!(scancode_to_ascii(0x9E, false), None);
}

#[test]
fn status_bar_texts() {
    let now = RtcTime { hour: 13, min: 7, sec: 0, day: 9, month: 11, year: 2024 };
    let mut t = vec![0u8; 8];
    format_time(&mut t, now, true);
    assert_eq!(t, b"13:07\0\0\0".to_vec());
    format_time(&mut t, now, false);
    assert_eq!(t, b"01:07PM\0".to_vec());
    format_time(&mut t, RtcTime { hour: 9, ..now }, false);
    assert_eq!(t, b"09:07AM\0".to_vec());
    // Midnight on a 12-hour clock shows 12 and keeps the marker.
    format_time(&mut t, RtcTime { hour: 0, ..now }, false);
    assert_eq!(t, b"12:07AM\0".to_vec());
    let mut d = vec![0u8; 10];
    format_date(&mut d, now);
    assert_eq!(d, b"09.11.24\0\0".to_vec());
    assert_eq!(battery_label(100), b"100%".to_vec());
    assert_eq!(battery_label(255), b"100%".to_vec());
    assert_eq!(battery_label(42), b"42%".to_vec());
    assert_eq!(battery_label(7), b"7%".to_vec());
}

#[test]
fn status_bar_clock_cache() {
    let mut s = StatusBar::new();
    let now = RtcTime { hour: 8, min: 30, sec: 15, day: 1, month: 2, year: 2025 };
    s.refresh_clock(now, true);
    assert_eq!(s.time, b"08:30\0\0\0".to_vec());
    assert_eq!(s.date, b"01.02.25\0\0".to_vec());
    assert_eq!(s.last_hash, (8 << 16) | (30 << 8) | 15);
}

#[test]
fn taskbar_hit_testing() {
    let fb = screen();
    let entries = [
        TaskbarEntry { index: 3, label: b"Console", visible: true },
        TaskbarEntry { index: 5, label: b"Explorer", visible: false },
    ];
    assert!(buttons_fit(1024, 2));
    assert_eq!(start_rect(&fb), (8, 768 - 32 + 4, 64, 24));
    let y = 768 - 32 + 10;
    assert_eq!(hit_test(&fb, 10, y, &entries), Some(HIT_START));
    assert_eq!(hit_test(&fb, 78 + 5, y, &entries), Some(3));
    assert_eq!(hit_test(&fb, 78 + 96 + 6 + 5, y, &entries), Some(5));
    assert_eq!(hit_test(&fb, 78 + 96 + 2, y, &entries), None);
    assert_eq!(hit_test(&fb, 10, 100, &entries), None);
}
