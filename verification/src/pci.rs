use vstd::prelude::*;

verus! {

/// I/O port of the PCI configuration address register.
pub const CONFIG_ADDRESS: u16 = 0xCF8;
/// I/O port of the PCI configuration data register.
pub const CONFIG_DATA: u16 = 0xCFC;
/// Most devices a scan keeps.
pub const MAX_DEVICES: usize = 64;

/// A function found on the PCI bus: where it sits, its IDs and class, its
/// header type, base address registers and interrupt line.
#[derive(Debug, Clone, Copy)]
pub struct PciDevice {
    pub bus: u8,
    pub dev: u8,
    pub func: u8,
    pub vendor_id: u16,
    pub device_id: u16,
    pub class_code: u8,
    pub subclass: u8,
    pub prog_if: u8,
    pub header_type: u8,
    pub bars: [u32; 6],
    pub irq_line: u8,
}

/// The configuration address of register `offset` of function `func` of
/// device `dev` on bus `bus`: the enable bit, the bus, device and function
/// numbers, and the register's dword-aligned offset.
pub open spec fn config_address_spec(bus: u16, dev: u16, func: u16, offset: u16) -> int {
    0x8000_0000 + (bus % 256) * 0x10000 + (dev % 32) * 0x800 + (func % 8) * 0x100 + (offset % 256) / 4 * 4
}

/// The value written to `CONFIG_ADDRESS` to reach a register: the enable
/// bit or-ed with the bus shifted by 16, the device by 11, the function by
/// 8 and the offset's dword bits, so that numbers past their fields'
/// widths spill into the fields above; within the widths it is
/// `config_address_spec`.
pub fn config_address(bus: u16, dev: u16, func: u16, offset: u16) -> (r: u32)
    ensures
        r == 0x8000_0000u32 | ((bus as u32) << 16u32) | ((dev as u32) << 11u32) | ((func as u32) << 8u32) | ((
        offset as u32) & 0xFCu32),
        bus < 256 && dev < 32 && func < 8 ==> r == config_address_spec(bus, dev, func, offset),
{
    let r = 0x8000_0000u32 | ((bus as u32) << 16) | ((dev as u32) << 11) | ((func as u32) << 8) | ((offset as u32)
        & 0xFC);
    proof {
        let b = bus as u32;
        let d = dev as u32;
        let f = func as u32;
        let o = offset as u32;
        assert(b < 256 && d < 32 && f < 8 ==> (0x8000_0000u32 | (b << 16u32) | (d << 11u32) | (f << 8u32) | (o
            & 0xFC)) == 0x8000_0000u32 + b * 0x10000 + d * 0x800 + f * 0x100 + (o % 256) / 4 * 4) by (bit_vector);
    }
    r
}

/// The 16-bit register at `offset` within the configuration dword `value`
/// read at `offset & 0xFC`.
pub fn read_config_word(value: u32, offset: u16) -> (r: u16)
    ensures
        r == (if offset % 4 >= 2 { value / 0x10000 } else { value % 0x10000 }),
{
    let part = offset & 2;
    proof {
        assert(part == (if offset % 4 >= 2 { 2u16 } else { 0u16 })) by (bit_vector)
            requires
                part == offset & 2,
        ;
        assert(((value >> 16u32) & 0xFFFF) == value / 0x10000) by (bit_vector);
        assert(((value >> 0u32) & 0xFFFF) == value % 0x10000) by (bit_vector);
    }
    let shift = (part * 8) as u32;
    ((value >> shift) & 0xFFFF) as u16
}

/// The 8-bit register at `offset` within the configuration dword `value`
/// read at `offset & 0xFC`.
pub fn read_config_byte(value: u32, offset: u16) -> (r: u8)
    ensures
        r == (value as int / pow256(offset as int % 4)) % 256,
{
    let part = offset & 3;
    proof {
        assert(part == offset % 4) by (bit_vector)
            requires
                part == offset & 3,
        ;
        assert(((value >> 0u32) & 0xFF) == value % 256) by (bit_vector);
        assert(((value >> 8u32) & 0xFF) == (value / 0x100) % 256) by (bit_vector);
        assert(((value >> 16u32) & 0xFF) == (value / 0x10000) % 256) by (bit_vector);
        assert(((value >> 24u32) & 0xFF) == (value / 0x1000000) % 256) by (bit_vector);
    }
    let shift = (part * 8) as u32;
    ((value >> shift) & 0xFF) as u8
}

/// `256` to the power `n`, for `n` below 4.
pub open spec fn pow256(n: int) -> int {
    if n == 0 {
        1
    } else if n == 1 {
        0x100
    } else if n == 2 {
        0x10000
    } else {
        0x1000000
    }
}

/// How many functions a scan probes on a device whose header type is
/// `header`: eight for a multi-function device (bit 7), else one.
pub fn func_count(header: u8) -> (r: u16)
    ensures
        r == (if header >= 128 { 8u16 } else { 1u16 }),
{
    let multi = (header & 0x80) != 0;
    proof {
        assert(((header & 0x80u8) != 0) == (header >= 128)) by (bit_vector);
    }
    if multi {
        8
    } else {
        1
    }
}

} // verus!
