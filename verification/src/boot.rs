use vstd::prelude::*;
use vstd::slice::slice_subrange;
use crate::fat32::{le16, le32, read_u16_le, read_u32_le};
use crate::system::SystemInfo;
use crate::text::ascii_lit;
use crate::textfmt::{ieq, lit, lower};

verus! {

/// The magic value a Multiboot2 boot loader leaves in `eax`.
pub const MB2_MAGIC: u32 = 0x36d76289;

/// Byte `i` of `d`, or 0 past its end.
pub open spec fn byte_at(d: Seq<u8>, i: int) -> u8 {
    if 0 <= i < d.len() {
        d[i]
    } else {
        0
    }
}

/// Little-endian 64-bit value at `off`, from two 32-bit halves (each 0 when
/// it runs past the end).
pub open spec fn le64(d: Seq<u8>, off: int) -> int {
    le32(d, off) + le32(d, off + 4) * 0x1_0000_0000
}

/// `a + b`, or `u64::MAX` when that does not fit.
pub open spec fn sat_add64(a: u64, b: int) -> u64 {
    if a + b > u64::MAX {
        u64::MAX
    } else {
        (a + b) as u64
    }
}

/// The screen a framebuffer tag describes: where its pixels start, the
/// bytes per row, the size in pixels, the bits per pixel, and where each
/// colour channel sits in a pixel.
#[derive(Debug, Clone, Copy, PartialEq, Eq, Structural)]
pub struct FbInfo {
    pub addr: usize,
    pub pitch: usize,
    pub width: usize,
    pub height: usize,
    pub bpp: u8,
    pub bytes_per_pixel: usize,
    pub red_pos: u8,
    pub red_size: u8,
    pub green_pos: u8,
    pub green_size: u8,
    pub blue_pos: u8,
    pub blue_size: u8,
}

/// A boot module: where its bytes lie in memory and its command line.
pub struct ModuleTag {
    pub start: usize,
    pub end: usize,
    pub name: Vec<u8>,
}

/// What the kernel takes from the boot information: the last framebuffer
/// tag, the modules in order, and the memory in the memory map (all of it,
/// and the part marked available), in bytes.
pub struct BootInfo {
    pub fb: Option<FbInfo>,
    pub modules: Vec<ModuleTag>,
    pub mem_total: u64,
    pub mem_avail: u64,
}

/// A `BootInfo` as plain values; a module is `(start, end, name)`.
pub struct BootV {
    pub fb: Option<FbInfo>,
    pub modules: Seq<(usize, usize, Seq<u8>)>,
    pub mem_total: u64,
    pub mem_avail: u64,
}

impl View for BootInfo {
    type V = BootV;

    open spec fn view(&self) -> BootV {
        BootV {
            fb: self.fb,
            modules: self.modules@.map_values(|m: ModuleTag| (m.start, m.end, m.name@)),
            mem_total: self.mem_total,
            mem_avail: self.mem_avail,
        }
    }
}

/// The framebuffer tag at `off`. Its colour layout is read from the tag for
/// a direct-colour framebuffer whose tag is long enough to hold it; else it
/// is the usual one for 32/24 bits (8 bits each, red at 16, green at 8,
/// blue at 0) or 16/15 bits (5-6-5, red at 11, green at 5, blue at 0), and
/// all zero for other depths.
pub open spec fn fb_at(d: Seq<u8>, off: int) -> FbInfo {
    let size = le32(d, off + 4);
    let bpp = byte_at(d, off + 28);
    let rgb = byte_at(d, off + 29) == 1 && size >= 38;
    let c: (u8, u8, u8, u8, u8, u8) = if rgb {
        (
            byte_at(d, off + 32),
            byte_at(d, off + 33),
            byte_at(d, off + 34),
            byte_at(d, off + 35),
            byte_at(d, off + 36),
            byte_at(d, off + 37),
        )
    } else if bpp == 32 || bpp == 24 {
        (16, 8, 8, 8, 0, 8)
    } else if bpp == 16 || bpp == 15 {
        (11, 5, 5, 6, 0, 5)
    } else {
        (0, 0, 0, 0, 0, 0)
    };
    FbInfo {
        addr: le32(d, off + 8) as usize,
        pitch: le32(d, off + 16) as usize,
        width: le32(d, off + 20) as usize,
        height: le32(d, off + 24) as usize,
        bpp,
        bytes_per_pixel: ((bpp + 7) / 8) as usize,
        red_pos: c.0,
        red_size: c.1,
        green_pos: c.2,
        green_size: c.3,
        blue_pos: c.4,
        blue_size: c.5,
    }
}

/// Bytes from `p` up to the first zero byte or `max`.
pub open spec fn cstr_len(d: Seq<u8>, p: int, max: int) -> int
    decreases max - p,
{
    if p < max && byte_at(d, p) != 0 {
        1 + cstr_len(d, p + 1, max)
    } else {
        0
    }
}

/// The command line of the module tag at `off`, `size` bytes long: the
/// zero-terminated string after its 16-byte head.
pub open spec fn module_name(d: Seq<u8>, off: int, size: int) -> Seq<u8> {
    if size <= 16 {
        Seq::empty()
    } else {
        Seq::new(cstr_len(d, off + 16, off + size) as nat, |i: int| byte_at(d, off + 16 + i))
    }
}

/// Memory-map entries of `esize` bytes from `p` up to `end` added to
/// `(total, avail)`: each entry's length (at byte 8) counts in the total,
/// and in the available memory when its type (at byte 16) is 1; the sums
/// saturate.
pub open spec fn mmap_sum(d: Seq<u8>, p: int, end: int, esize: int, total: u64, avail: u64) -> (u64, u64)
    decreases end - p,
{
    if esize > 0 && p + esize <= end {
        let len = le64(d, p + 8);
        let t = sat_add64(total, len);
        let a = if le32(d, p + 16) == 1 { sat_add64(avail, len) } else { avail };
        mmap_sum(d, p + esize, end, esize, t, a)
    } else {
        (total, avail)
    }
}

/// `x` rounded up to a multiple of 8.
pub open spec fn align8(x: int) -> int {
    (x + 7) / 8 * 8
}

/// The tags from `off` up to `end` folded into `acc`. A tag starts with
/// its type and size; tags follow each other 8-byte aligned. The walk stops
/// at a type-0 tag, at a memory map with entries of size 0, or when no
/// tag header fits before `end`. Type 8 is the framebuffer, type 3 a
/// module, type 6 the memory map; others are skipped.
pub open spec fn walk(d: Seq<u8>, off: int, end: int, acc: BootV) -> BootV
    decreases end - off,
{
    if off + 8 > end {
        acc
    } else {
        let typ = le32(d, off);
        let size = le32(d, off + 4);
        if typ == 0 || (typ == 6 && le32(d, off + 8) == 0) {
            acc
        } else {
            let acc2 = if typ == 8 {
                BootV { fb: Some(fb_at(d, off)), ..acc }
            } else if typ == 3 {
                BootV {
                    modules: acc.modules.push(
                        (le32(d, off + 8) as usize, le32(d, off + 12) as usize, module_name(d, off, size)),
                    ),
                    ..acc
                }
            } else if typ == 6 {
                let m = mmap_sum(d, off + 16, off + size, le32(d, off + 8), acc.mem_total, acc.mem_avail);
                BootV { mem_total: m.0, mem_avail: m.1, ..acc }
            } else {
                acc
            };
            let next = align8(off + size);
            if off < next <= end {
                walk(d, next, end, acc2)
            } else {
                acc2
            }
        }
    }
}

/// Whether the walk from `off` reaches its end: no tag it steps on but
/// the last has size 0 (on such a tag it would stand still).
pub open spec fn walk_ends(d: Seq<u8>, off: int, end: int) -> bool
    decreases end - off,
{
    if off + 8 > end {
        true
    } else {
        let typ = le32(d, off);
        let size = le32(d, off + 4);
        if typ == 0 || (typ == 6 && le32(d, off + 8) == 0) {
            true
        } else if size == 0 {
            false
        } else if off < align8(off + size) <= end {
            walk_ends(d, align8(off + size), end)
        } else {
            true
        }
    }
}

/// The boot information block `d` (8-byte aligned in memory, its total
/// size in its first word, its tags from byte 8), read with fields past its
/// end as 0.
pub open spec fn boot_info(d: Seq<u8>) -> BootV {
    walk(d, 8, le32(d, 0), BootV { fb: None, modules: Seq::empty(), mem_total: 0, mem_avail: 0 })
}

fn word_at(d: &[u8], off: u64) -> (r: u32)
    ensures
        r == le32(d@, off as int),
{
    let n = d.len();
    if off > usize::MAX as u64 {
        assert(off > n);
        return 0;
    }
    read_u32_le(d, off as usize)
}

fn byte_of(d: &[u8], off: u64) -> (r: u8)
    ensures
        r == byte_at(d@, off as int),
{
    if off < d.len() as u64 {
        d[off as usize]
    } else {
        0
    }
}

/// The framebuffer tag at `off` (see `fb_at`).
fn read_fb_tag(d: &[u8], off: u64) -> (r: FbInfo)
    requires
        off < 0x1_0000_0000,
    ensures
        r == fb_at(d@, off as int),
{
    let size = word_at(d, off + 4);
    let bpp = byte_of(d, off + 28);
    let fb_type = byte_of(d, off + 29);
    let mut red_pos: u8 = 0;
    let mut red_size: u8 = 0;
    let mut green_pos: u8 = 0;
    let mut green_size: u8 = 0;
    let mut blue_pos: u8 = 0;
    let mut blue_size: u8 = 0;
    if fb_type == 1 && size >= 38 {
        red_pos = byte_of(d, off + 32);
        red_size = byte_of(d, off + 33);
        green_pos = byte_of(d, off + 34);
        green_size = byte_of(d, off + 35);
        blue_pos = byte_of(d, off + 36);
        blue_size = byte_of(d, off + 37);
    } else {
        if bpp == 32 || bpp == 24 {
            red_pos = 16;
            red_size = 8;
            green_pos = 8;
            green_size = 8;
            blue_pos = 0;
            blue_size = 8;
        } else if bpp == 16 || bpp == 15 {
            red_pos = 11;
            red_size = 5;
            green_pos = 5;
            green_size = 6;
            blue_pos = 0;
            blue_size = 5;
        }
    }
    FbInfo {
        addr: word_at(d, off + 8) as usize,
        pitch: word_at(d, off + 16) as usize,
        width: word_at(d, off + 20) as usize,
        height: word_at(d, off + 24) as usize,
        bpp,
        bytes_per_pixel: ((bpp as usize) + 7) / 8,
        red_pos,
        red_size,
        green_pos,
        green_size,
        blue_pos,
        blue_size,
    }
}

/// The command line of the module tag at `off` (see `module_name`).
fn module_string(d: &[u8], off: u64, size: u64) -> (r: Vec<u8>)
    requires
        off < 0x1_0000_0000,
        size < 0x1_0000_0000,
    ensures
        r@ == module_name(d@, off as int, size as int),
{
    let mut name: Vec<u8> = Vec::new();
    if size <= 16 {
        return name;
    }
    let base = off + 16;
    let max = off + size;
    let mut p = base;
    let mut done = false;
    while !done && p < max
        invariant
            base <= p <= max,
            max == off + size,
            base == off + 16,
            name@.len() == p - base,
            forall|i: int| 0 <= i < name@.len() ==> name@[i] == byte_at(d@, base + i),
            done ==> cstr_len(d@, p as int, max as int) == 0,
            cstr_len(d@, base as int, max as int) == name@.len() + cstr_len(d@, p as int, max as int),
        decreases max - p + (if done { 0int } else { 1int }),
    {
        let b = byte_of(d, p);
        if b == 0 {
            done = true;
        } else {
            name.push(b);
            p = p + 1;
        }
    }
    proof {
        assert(name@ =~= module_name(d@, off as int, size as int));
    }
    name
}

/// Adds up a memory map's entries (see `mmap_sum`).
fn sum_mmap(d: &[u8], start: u64, end: u64, esize: u64, total: u64, avail: u64) -> (r: (u64, u64))
    requires
        end < 0x2_0000_0000,
        start <= end + 16,
        0 < esize < 0x1_0000_0000,
    ensures
        r == mmap_sum(d@, start as int, end as int, esize as int, total, avail),
    decreases end + 16 - start,
{
    if start + esize > end {
        return (total, avail);
    }
    let lo = word_at(d, start + 8) as u64;
    let hi = word_at(d, start + 12) as u64;
    let len = lo + hi * 0x1_0000_0000;
    let t = total.saturating_add(len);
    let a = if word_at(d, start + 16) == 1 { avail.saturating_add(len) } else { avail };
    sum_mmap(d, start + esize, end, esize, t, a)
}

/// Reads the Multiboot2 information block `info` (see `boot_info`): the
/// framebuffer, the modules and the memory sizes. Fields past the end of
/// `info` read as 0.
pub fn parse_boot_info(info: &[u8]) -> (r: BootInfo)
    requires
        walk_ends(info@, 8, le32(info@, 0)),
    ensures
        r@ == boot_info(info@),
{
    let end = word_at(info, 0) as u64;
    let mut off: u64 = 8;
    let mut r = BootInfo { fb: None, modules: Vec::new(), mem_total: 0, mem_avail: 0 };
    proof {
        assert(r@.modules =~= Seq::<(usize, usize, Seq<u8>)>::empty());
    }
    while off + 8 <= end
        invariant
            end == le32(info@, 0),
            end < 0x1_0000_0000,
            off < 0x2_0000_0000,
            walk_ends(info@, off as int, end as int),
            boot_info(info@) == walk(info@, off as int, end as int, r@),
        ensures
            boot_info(info@) == r@,
        decreases 0x2_0000_0000 - off,
    {
        let typ = word_at(info, off);
        let size = word_at(info, off + 4) as u64;
        if typ == 0 {
            break;
        }
        if typ == 8 {
            r.fb = Some(read_fb_tag(info, off));
        } else if typ == 3 {
            let start = word_at(info, off + 8) as usize;
            let stop = word_at(info, off + 12) as usize;
            let name = module_string(info, off, size);
            let ghost before = r@;
            r.modules.push(ModuleTag { start, end: stop, name });
            proof {
                assert(r@.modules =~= before.modules.push((start, stop, module_name(info@, off as int, size as int))));
            }
        } else if typ == 6 {
            let esize = word_at(info, off + 8) as u64;
            if esize == 0 {
                break;
            }
            let (t, a) = sum_mmap(info, off + 16, off + size, esize, r.mem_total, r.mem_avail);
            r.mem_total = t;
            r.mem_avail = a;
        }
        let next = (off + size + 7) / 8 * 8;
        off = next;
    }
    r
}

/// Whether `parse_boot_info` gets through `info` (see `walk_ends`).
pub fn boot_info_ends(info: &[u8]) -> (r: bool)
    ensures
        r == walk_ends(info@, 8, le32(info@, 0)),
{
    let end = word_at(info, 0) as u64;
    let mut off: u64 = 8;
    while off + 8 <= end
        invariant
            end == le32(info@, 0),
            end < 0x1_0000_0000,
            off < 0x2_0000_0000,
            walk_ends(info@, 8, end as int) == walk_ends(info@, off as int, end as int),
        decreases 0x2_0000_0000 - off,
    {
        let typ = word_at(info, off);
        let size = word_at(info, off + 4) as u64;
        if typ == 0 || (typ == 6 && word_at(info, off + 8) == 0) {
            return true;
        }
        if size == 0 {
            return false;
        }
        off = (off + size + 7) / 8 * 8;
    }
    true
}


/// `name` begins with `prefix`, ignoring ASCII letter case.
pub open spec fn starts_with_ci(name: Seq<u8>, prefix: Seq<u8>) -> bool {
    name.len() >= prefix.len() && ieq(name.take(prefix.len() as int), prefix)
}

/// `name` ends with `suffix`, ignoring ASCII letter case.
pub open spec fn ends_with_ci(name: Seq<u8>, suffix: Seq<u8>) -> bool {
    name.len() >= suffix.len() && ieq(name.skip(name.len() - suffix.len()), suffix)
}

/// Whether `name` begins with `prefix`, ignoring ASCII letter case.
pub fn name_starts_with(name: &[u8], prefix: &[u8]) -> (r: bool)
    ensures
        r == starts_with_ci(name@, prefix@),
{
    if name.len() < prefix.len() {
        return false;
    }
    let mut i: usize = 0;
    while i < prefix.len()
        invariant
            i <= prefix@.len() <= name@.len(),
            forall|j: int| 0 <= j < i ==> lower(name@[j]) == lower(prefix@[j]),
        decreases prefix@.len() - i,
    {
        let a = name[i];
        let b = prefix[i];
        if a != b {
            let al = if a >= 65 && a <= 90 { a + 32 } else { a };
            let bl = if b >= 65 && b <= 90 { b + 32 } else { b };
            if al != bl {
                proof {
                    assert(name@.take(prefix@.len() as int)[i as int] == a);
                }
                return false;
            }
        }
        i = i + 1;
    }
    proof {
        assert forall|j: int| 0 <= j < prefix@.len() implies lower(name@.take(prefix@.len() as int)[j]) == lower(
            prefix@[j],
        ) by {
            assert(name@.take(prefix@.len() as int)[j] == name@[j]);
        }
    }
    true
}

/// Whether `name` ends with `suffix`, ignoring ASCII letter case.
pub fn name_ends_with(name: &[u8], suffix: &[u8]) -> (r: bool)
    ensures
        r == ends_with_ci(name@, suffix@),
{
    if name.len() < suffix.len() {
        return false;
    }
    let n = name.len();
    let start = n - suffix.len();
    let mut i: usize = 0;
    while i < suffix.len()
        invariant
            i <= suffix@.len() <= name@.len(),
            n == name@.len(),
            start == name@.len() - suffix@.len(),
            forall|j: int| 0 <= j < i ==> lower(name@[start + j]) == lower(suffix@[j]),
        decreases suffix@.len() - i,
    {
        let a = name[start + i];
        let b = suffix[i];
        if a != b {
            let al = if a >= 65 && a <= 90 { a + 32 } else { a };
            let bl = if b >= 65 && b <= 90 { b + 32 } else { b };
            if al != bl {
                proof {
                    assert(name@.skip(start as int)[i as int] == a);
                }
                return false;
            }
        }
        i = i + 1;
    }
    proof {
        assert forall|j: int| 0 <= j < suffix@.len() implies lower(name@.skip(start as int)[j]) == lower(
            suffix@[j],
        ) by {
            assert(name@.skip(start as int)[j] == name@[start + j]);
        }
    }
    true
}

/// A raw background image: an 8-byte head with the width and height
/// (each 1 to 4096), followed by at least `width * height` 4-byte pixels.
pub open spec fn raw_bg(d: Seq<u8>) -> bool {
    let w = le32(d, 0);
    let h = le32(d, 4);
    &&& d.len() >= 8
    &&& 1 <= w <= 4096
    &&& 1 <= h <= 4096
    &&& 8 + w * h * 4 <= d.len()
}

/// A tar archive: at least one 512-byte header, marked `ustar` at byte 257.
pub open spec fn is_tar(d: Seq<u8>) -> bool {
    d.len() >= 512 && d.subrange(257, 262) == lit("ustar")
}

/// A FAT32 volume as the boot code recognises one: a 512-byte boot sector
/// with the 0x55AA signature, 512 bytes per sector, a non-zero number of
/// sectors per cluster, and a file-system type beginning `FAT`.
pub open spec fn is_fat32(d: Seq<u8>) -> bool {
    &&& d.len() >= 512
    &&& d[510] == 0x55 && d[511] == 0xAA
    &&& le16(d, 11) == 512
    &&& d[13] != 0
    &&& d[82] == 70 && d[83] == 65 && d[84] == 84
}

/// Whether module bytes `data` hold a raw background image (see `raw_bg`).
pub fn module_is_raw_bg(data: &[u8]) -> (r: bool)
    ensures
        r == raw_bg(data@),
{
    if data.len() < 8 {
        return false;
    }
    let w = read_u32_le(data, 0) as usize;
    let h = read_u32_le(data, 4) as usize;
    if w == 0 || h == 0 || w > 4096 || h > 4096 {
        return false;
    }
    proof {
        assert(w * h <= 4096 * 4096) by (nonlinear_arith)
            requires
                w <= 4096,
                h <= 4096,
        ;
    }
    let expected = 8 + w * h * 4;
    expected <= data.len()
}

/// Whether module bytes `data` hold a tar archive (see `is_tar`).
pub fn module_is_tar(data: &[u8]) -> (r: bool)
    ensures
        r == is_tar(data@),
{
    proof {
        reveal_strlit("ustar");
    }
    let u = ascii_lit("ustar");
    if data.len() < 512 {
        return false;
    }
    let r = data[257] == u[0] && data[258] == u[1] && data[259] == u[2] && data[260] == u[3] && data[261] == u[4];
    proof {
        let h = data@.subrange(257, 262);
        if r {
            assert(h =~= u@);
        } else {
            assert(h != u@) by {
                if h == u@ {
                    assert(h[0] == data@[257]);
                    assert(h[1] == data@[258]);
                    assert(h[2] == data@[259]);
                    assert(h[3] == data@[260]);
                    assert(h[4] == data@[261]);
                }
            }
        }
    }
    r
}

/// Whether module bytes `data` hold a FAT32 volume (see `is_fat32`).
pub fn module_is_fat32(data: &[u8]) -> (r: bool)
    ensures
        r == is_fat32(data@),
{
    if data.len() < 512 {
        return false;
    }
    if data[510] != 0x55 || data[511] != 0xAA {
        return false;
    }
    if read_u16_le(data, 11) != 512 {
        return false;
    }
    if data[13] == 0 {
        return false;
    }
    data[82] == 70 && data[83] == 65 && data[84] == 84
}

/// What a boot module looks like: a FAT32 volume, the background image
/// (named for it, or in the raw image format), the initial ramdisk (named
/// for it, or a tar archive).
#[derive(Debug, Clone, Copy, PartialEq, Eq, Structural)]
pub struct ModuleClass {
    pub is_fat: bool,
    pub is_bg: bool,
    pub is_initrd: bool,
}

/// The class of a module with command line `name` and contents `data`.
pub open spec fn class_of(name: Seq<u8>, data: Seq<u8>) -> ModuleClass {
    ModuleClass {
        is_fat: is_fat32(data),
        is_bg: starts_with_ci(name, lit("background")) || ends_with_ci(name, lit("background.raw")) || raw_bg(data),
        is_initrd: starts_with_ci(name, lit("initrd")) || ends_with_ci(name, lit(".tar")) || is_tar(data),
    }
}

/// Classifies a boot module (see `class_of`).
pub fn classify_module(name: &[u8], data: &[u8]) -> (r: ModuleClass)
    ensures
        r == class_of(name@, data@),
{
    let is_fat = module_is_fat32(data);
    let is_bg = name_starts_with(name, "background".as_bytes()) || name_ends_with(name, "background.raw".as_bytes())
        || module_is_raw_bg(data);
    let is_initrd = name_starts_with(name, "initrd".as_bytes()) || name_ends_with(name, ".tar".as_bytes())
        || module_is_tar(data);
    ModuleClass { is_fat, is_bg, is_initrd }
}

/// Where a module lies in memory.
#[derive(Debug, Clone, Copy, PartialEq, Eq, Structural)]
pub struct ModuleRange {
    pub start: usize,
    pub end: usize,
}

/// The modules the kernel uses: the initial ramdisk, the FAT32 volume the
/// explorer reads, and the raw background image.
#[derive(Debug, Clone, Copy, PartialEq, Eq, Structural)]
pub struct Selection {
    pub initrd: Option<ModuleRange>,
    pub fs_img: Option<ModuleRange>,
    pub bgraw: Option<ModuleRange>,
}

/// The choice after module `m` of class `c`: the first FAT32 volume is the
/// file system; the last background is the background; the first initrd
/// that is no volume is the ramdisk, or, while none is chosen, any module
/// that is neither a background nor a volume.
pub open spec fn selected(s: Selection, m: ModuleRange, c: ModuleClass) -> Selection {
    Selection {
        fs_img: if c.is_fat && s.fs_img.is_none() { Some(m) } else { s.fs_img },
        bgraw: if c.is_bg { Some(m) } else { s.bgraw },
        initrd: if s.initrd.is_none() && !c.is_fat && (c.is_initrd || !c.is_bg) { Some(m) } else { s.initrd },
    }
}

/// Takes module `m` of class `c` into the choice (see `selected`).
pub fn select_module(sel: &mut Selection, m: ModuleRange, c: ModuleClass)
    ensures
        *final(sel) == selected(*old(sel), m, c),
{
    if c.is_fat && sel.fs_img.is_none() {
        sel.fs_img = Some(m);
    }
    if c.is_bg {
        sel.bgraw = Some(m);
    }
    if c.is_initrd && sel.initrd.is_none() && !c.is_fat {
        sel.initrd = Some(m);
    } else if sel.initrd.is_none() && !c.is_bg && !c.is_fat {
        sel.initrd = Some(m);
    }
}

/// The value of the octal digits in `s`, other bytes skipped.
pub open spec fn octal(s: Seq<u8>) -> nat
    decreases s.len(),
{
    if s.len() == 0 {
        0
    } else {
        let v = octal(s.drop_last());
        let b = s.last();
        if 48 <= b <= 55 {
            v * 8 + (b - 48) as nat
        } else {
            v
        }
    }
}

proof fn lemma_octal_bound(s: Seq<u8>)
    ensures
        octal(s) < pow8(s.len()),
    decreases s.len(),
{
    if s.len() > 0 {
        lemma_octal_bound(s.drop_last());
        let v = octal(s.drop_last());
        let p = pow8((s.len() - 1) as nat);
        assert(v * 8 + 7 < p * 8) by (nonlinear_arith)
            requires
                v < p,
        ;
    }
}

/// `8` to the power `n`.
pub open spec fn pow8(n: nat) -> nat
    decreases n,
{
    if n == 0 {
        1
    } else {
        8 * pow8((n - 1) as nat)
    }
}

proof fn lemma_pow8_mono(a: nat, b: nat)
    requires
        a <= b,
    ensures
        pow8(a) <= pow8(b),
    decreases b,
{
    if a < b {
        lemma_pow8_mono(a, (b - 1) as nat);
    }
}

proof fn lemma_pow8_20()
    ensures
        pow8(20) == 0x1000_0000_0000_0000,
{
    reveal_with_fuel(pow8, 21);
}

/// Reads an octal number from a tar header field (see `octal`).
pub fn parse_octal(buf: &[u8]) -> (r: u64)
    requires
        buf@.len() <= 21,
    ensures
        r == octal(buf@),
{
    let mut val: u64 = 0;
    let mut i: usize = 0;
    while i < buf.len()
        invariant
            i <= buf@.len() <= 21,
            val == octal(buf@.take(i as int)),
        decreases buf@.len() - i,
    {
        let b = buf[i];
        proof {
            assert(buf@.take(i + 1).drop_last() =~= buf@.take(i as int));
            lemma_octal_bound(buf@.take(i as int));
            lemma_pow8_mono(i as nat, 20);
            lemma_pow8_20();
        }
        if b >= 48 && b <= 55 {
            let v0 = val;
            assert(v0 << 3 == v0 * 8) by (bit_vector)
                requires
                    v0 < 0x1000_0000_0000_0000u64,
            ;
            val = (v0 << 3) + (b - 48) as u64;
        }
        i = i + 1;
    }
    proof {
        assert(buf@.take(buf@.len() as int) =~= buf@);
    }
    val
}


/// Index of the first zero byte of `h` from `i` on, below `n` (else `n`).
pub open spec fn first_nul(h: Seq<u8>, i: int, n: int) -> int
    decreases n - i,
{
    if i < n && h[i] != 0 {
        first_nul(h, i + 1, n)
    } else {
        i
    }
}

/// A tar member named `f` is the file `name`, written as is or with a
/// leading `./`.
pub open spec fn names_match(f: Seq<u8>, name: Seq<u8>) -> bool {
    f == name || (f.len() == name.len() + 2 && f[0] == 46 && f[1] == 47 && f.skip(2) == name)
}

/// The file `name` in the tar archive `d`, searched from the header at `p`:
/// where its contents start and its size. The search stops at the end of
/// the archive or at an all-zero header. A header holds the member's name
/// (up to its first zero byte, at most 100 bytes) and its size in octal at
/// bytes 124 to 135; the contents follow, padded to 512 bytes.
pub open spec fn tar_find(d: Seq<u8>, p: int, name: Seq<u8>) -> Option<(int, nat)>
    decreases d.len() - p,
{
    if p < 0 || p + 512 > d.len() {
        None
    } else if forall|i: int| p <= i < p + 512 ==> d[i] == 0 {
        None
    } else {
        let h = d.subrange(p, p + 512);
        let f = h.take(first_nul(h, 0, 100));
        let size = octal(h.subrange(124, 136));
        if names_match(f, name) {
            Some((p + 512, size))
        } else {
            let next = p + 512 + (size + 511) / 512 * 512;
            if next <= d.len() {
                tar_find(d, next, name)
            } else {
                None
            }
        }
    }
}

/// Whether two byte strings are equal.
fn same_bytes(a: &[u8], b: &[u8]) -> (r: bool)
    ensures
        r == (a@ == b@),
{
    if a.len() != b.len() {
        return false;
    }
    let mut i: usize = 0;
    while i < a.len()
        invariant
            i <= a@.len() == b@.len(),
            forall|j: int| 0 <= j < i ==> a@[j] == b@[j],
        decreases a@.len() - i,
    {
        if a[i] != b[i] {
            return false;
        }
        i = i + 1;
    }
    assert(a@ =~= b@);
    true
}

/// Finds file `name` in tar archive `data` (see `tar_find`): the offset
/// of its contents and its size.
pub fn find_tar_file(data: &[u8], name: &[u8]) -> (r: Option<(usize, u64)>)
    ensures
        r is None <==> tar_find(data@, 0, name@) is None,
        r matches Some(v) ==> tar_find(data@, 0, name@) == Some((v.0 as int, v.1 as nat)),
{
    let len = data.len();
    let mut p: usize = 0;
    while p <= len && len - p >= 512
        invariant
            len == data@.len(),
            p <= len,
            tar_find(data@, 0, name@) == tar_find(data@, p as int, name@),
        decreases len - p,
    {
        let mut zero = true;
        let mut i: usize = 0;
        while i < 512
            invariant
                p + 512 <= len == data@.len(),
                i <= 512,
                zero == forall|j: int| p <= j < p + i ==> data@[j] == 0,
            decreases 512 - i,
        {
            if data[p + i] != 0 {
                zero = false;
            }
            i = i + 1;
        }
        if zero {
            return None;
        }
        let header = slice_subrange(data, p, p + 512);
        let mut nl: usize = 0;
        while nl < 100 && header[nl] != 0
            invariant
                header@.len() == 512,
                nl <= 100,
                first_nul(header@, 0, 100) == first_nul(header@, nl as int, 100),
            decreases 100 - nl,
        {
            nl = nl + 1;
        }
        let file_name = slice_subrange(header, 0, nl);
        let size = parse_octal(slice_subrange(header, 124, 136));
        proof {
            assert(header@ =~= data@.subrange(p as int, p + 512));
            assert(file_name@ =~= header@.take(first_nul(header@, 0, 100)));
        }
        let matched = same_bytes(file_name, name) || (file_name.len() >= 2 && file_name.len() - 2 == name.len()
            && file_name[0] == 46 && file_name[1] == 47 && same_bytes(slice_subrange(file_name, 2, nl), name));
        proof {
            assert(file_name@.skip(2) =~= file_name@.subrange(2, nl as int));
        }
        if matched {
            return Some((p + 512, size));
        }
        proof {
            lemma_octal_bound(header@.subrange(124, 136));
            lemma_pow8_mono(12, 20);
            lemma_pow8_20();
        }
        let padded = (size + 511) / 512 * 512;
        let next = p as u128 + 512 + padded as u128;
        if next > len as u128 {
            return None;
        }
        p = next as usize;
    }
    None
}

/// The member names of the tar archive `d` from the header at `p`, in
/// order, up to its end or an all-zero header (see `tar_find` for the
/// layout).
pub open spec fn tar_names(d: Seq<u8>, p: int) -> Seq<Seq<u8>>
    decreases d.len() - p,
{
    if p < 0 || p + 512 > d.len() {
        Seq::empty()
    } else if forall|i: int| p <= i < p + 512 ==> d[i] == 0 {
        Seq::empty()
    } else {
        let h = d.subrange(p, p + 512);
        let f = h.take(first_nul(h, 0, 100));
        let size = octal(h.subrange(124, 136));
        let next = p + 512 + (size + 511) / 512 * 512;
        seq![f] + if next <= d.len() {
            tar_names(d, next)
        } else {
            Seq::empty()
        }
    }
}

/// Lists the member names of the tar archive `data` (see `tar_names`).
pub fn list_tar(data: &[u8]) -> (r: Vec<Vec<u8>>)
    ensures
        r@.map_values(|n: Vec<u8>| n@) == tar_names(data@, 0),
{
    let len = data.len();
    let mut out: Vec<Vec<u8>> = Vec::new();
    let mut p: usize = 0;
    while p <= len && len - p >= 512
        invariant
            len == data@.len(),
            p <= len,
            tar_names(data@, 0) == out@.map_values(|n: Vec<u8>| n@) + tar_names(data@, p as int),
        decreases len - p,
    {
        let mut zero = true;
        let mut i: usize = 0;
        while i < 512
            invariant
                p + 512 <= len == data@.len(),
                i <= 512,
                zero == forall|j: int| p <= j < p + i ==> data@[j] == 0,
            decreases 512 - i,
        {
            if data[p + i] != 0 {
                zero = false;
            }
            i = i + 1;
        }
        if zero {
            proof {
                assert(tar_names(data@, p as int) =~= Seq::<Seq<u8>>::empty());
                assert(out@.map_values(|n: Vec<u8>| n@) + Seq::<Seq<u8>>::empty() =~= out@.map_values(
                    |n: Vec<u8>| n@,
                ));
            }
            return out;
        }
        let header = slice_subrange(data, p, p + 512);
        let mut nl: usize = 0;
        while nl < 100 && header[nl] != 0
            invariant
                header@.len() == 512,
                nl <= 100,
                first_nul(header@, 0, 100) == first_nul(header@, nl as int, 100),
            decreases 100 - nl,
        {
            nl = nl + 1;
        }
        let file_name = slice_subrange(header, 0, nl);
        let size = parse_octal(slice_subrange(header, 124, 136));
        proof {
            assert(header@ =~= data@.subrange(p as int, p + 512));
            assert(file_name@ =~= header@.take(first_nul(header@, 0, 100)));
            lemma_octal_bound(header@.subrange(124, 136));
            lemma_pow8_mono(12, 20);
            lemma_pow8_20();
        }
        let mut name: Vec<u8> = Vec::new();
        let mut k: usize = 0;
        while k < file_name.len()
            invariant
                k <= file_name@.len(),
                name@ == file_name@.take(k as int),
            decreases file_name@.len() - k,
        {
            name.push(file_name[k]);
            k = k + 1;
            proof {
                assert(file_name@.take(k as int) =~= file_name@.take(k - 1).push(file_name@[k - 1]));
            }
        }
        proof {
            assert(file_name@.take(file_name@.len() as int) =~= file_name@);
        }
        let ghost before = out@.map_values(|n: Vec<u8>| n@);
        out.push(name);
        proof {
            assert(out@.map_values(|n: Vec<u8>| n@) =~= before.push(file_name@));
        }
        let padded = (size + 511) / 512 * 512;
        let next = p as u128 + 512 + padded as u128;
        if next > len as u128 {
            proof {
                assert(tar_names(data@, p as int) =~= seq![file_name@]);
                assert(before.push(file_name@) =~= before + seq![file_name@]);
            }
            return out;
        }
        proof {
            assert(before.push(file_name@) + tar_names(data@, next as int) =~= before + (seq![file_name@]
                + tar_names(data@, next as int)));
        }
        p = next as usize;
    }
    proof {
        assert(tar_names(data@, p as int) =~= Seq::<Seq<u8>>::empty());
        assert(out@.map_values(|n: Vec<u8>| n@) + Seq::<Seq<u8>>::empty() =~= out@.map_values(|n: Vec<u8>| n@));
    }
    out
}

/// Whether the kernel can draw on a framebuffer of `bpp` bits per pixel.
pub fn bpp_supported(bpp: u8) -> (r: bool)
    ensures
        r == (bpp == 32 || bpp == 24 || bpp == 16 || bpp == 15),
{
    bpp == 32 || bpp == 24 || bpp == 16 || bpp == 15
}

/// The system information the kernel records at boot: the memory sizes in
/// KiB and the framebuffer's size and depth.
pub fn boot_system_info(fb: &FbInfo, mem_total: u64, mem_avail: u64) -> (r: SystemInfo)
    ensures
        r == (SystemInfo {
            mem_total_kib: mem_total / 1024,
            mem_avail_kib: mem_avail / 1024,
            fb_w: fb.width,
            fb_h: fb.height,
            fb_bpp: fb.bpp,
        }),
{
    SystemInfo {
        mem_total_kib: mem_total / 1024,
        mem_avail_kib: mem_avail / 1024,
        fb_w: fb.width,
        fb_h: fb.height,
        fb_bpp: fb.bpp,
    }
}

/// Once a file system image and a ramdisk are chosen, later modules change
/// neither: the first of each is kept.
pub proof fn lemma_first_choices_stay(s: Selection, m: ModuleRange, c: ModuleClass)
    ensures
        s.fs_img.is_some() ==> selected(s, m, c).fs_img == s.fs_img,
        s.initrd.is_some() ==> selected(s, m, c).initrd == s.initrd,
{
}

} // verus!
