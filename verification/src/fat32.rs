use vstd::prelude::*;

verus! {

/// FAT value from which a cluster chain counts as ended.
pub const FAT32_EOC: u32 = 0x0FFF_FFF8;

/// Little-endian 16-bit value at `off`, or 0 when it runs past the end.
pub open spec fn le16(d: Seq<u8>, off: int) -> int {
    if off < 0 || off + 2 > d.len() {
        0
    } else {
        d[off] as int + d[off + 1] as int * 0x100
    }
}

/// Little-endian 32-bit value at `off`, or 0 when it runs past the end.
pub open spec fn le32(d: Seq<u8>, off: int) -> int {
    if off < 0 || off + 4 > d.len() {
        0
    } else {
        d[off] as int + d[off + 1] as int * 0x100 + d[off + 2] as int * 0x10000 + d[off + 3] as int
            * 0x1000000
    }
}

/// Reads a little-endian 16-bit value; 0 when it runs past the end.
pub fn read_u16_le(buf: &[u8], offset: usize) -> (r: u16)
    ensures
        r == le16(buf@, offset as int),
{
    if offset > buf.len() || buf.len() - offset < 2 {
        return 0;
    }
    let lo = buf[offset] as u16;
    let hi = buf[offset + 1] as u16;
    assert(lo | (hi << 8u16) == lo + hi * 0x100) by (bit_vector)
        requires
            lo < 256,
            hi < 256,
    ;
    lo | (hi << 8)
}

/// Reads a little-endian 32-bit value; 0 when it runs past the end.
pub fn read_u32_le(buf: &[u8], offset: usize) -> (r: u32)
    ensures
        r == le32(buf@, offset as int),
{
    if offset > buf.len() || buf.len() - offset < 4 {
        return 0;
    }
    let b0 = buf[offset] as u32;
    let b1 = buf[offset + 1] as u32;
    let b2 = buf[offset + 2] as u32;
    let b3 = buf[offset + 3] as u32;
    assert(b0 | (b1 << 8u32) | (b2 << 16u32) | (b3 << 24u32) == b0 + b1 * 0x100 + b2 * 0x10000 + b3
        * 0x1000000) by (bit_vector)
        requires
            b0 < 256,
            b1 < 256,
            b2 < 256,
            b3 < 256,
    ;
    b0 | (b1 << 8) | (b2 << 16) | (b3 << 24)
}

/// The volume parameters a FAT32 boot sector gives: bytes per sector,
/// sectors per cluster, where the FAT starts, the FAT's size in sectors,
/// where the data area starts, the root directory's cluster, and the number
/// of data clusters.
pub type BootParams = (int, int, int, int, int, u32, u32);

/// The volume parameters of image `d`, or `None` when it is not a FAT32
/// volume this reader understands: under 512 bytes, no 0x55AA signature, a
/// sector size that is not a power of two, no sectors per cluster, no FATs,
/// an empty FAT, no sectors, a root cluster below 2, a data area starting
/// past the image, or no data clusters.
pub open spec fn parse_boot(d: Seq<u8>) -> Option<BootParams> {
    let len = d.len() as int;
    let bps = le16(d, 11);
    let spc = if len > 13 {
        d[13] as int
    } else {
        0
    };
    let reserved = le16(d, 14);
    let fats = if len > 16 {
        d[16] as int
    } else {
        0
    };
    let fat_size = if le16(d, 22) != 0 {
        le16(d, 22)
    } else {
        le32(d, 36)
    };
    let total = if le16(d, 19) != 0 {
        le16(d, 19)
    } else {
        le32(d, 32)
    };
    let root = le32(d, 44);
    let fat_start = reserved * bps;
    let data_start = fat_start + fat_size * bps * fats;
    let used = reserved + fat_size * fats;
    let data_sectors = if total >= used {
        total - used
    } else {
        0
    };
    let clusters = if spc > 0 {
        data_sectors / spc
    } else {
        0
    };
    if len < 512 || d[510] != 0x55 || d[511] != 0xAA {
        None
    } else if bps == 0 || (bps as u16) & ((bps - 1) as u16) != 0 {
        None
    } else if spc == 0 || fats == 0 || fat_size == 0 || total == 0 || root < 2 {
        None
    } else if data_start >= len || clusters == 0 {
        None
    } else {
        Some((bps, spc, fat_start, fat_size, data_start, root as u32, clusters as u32))
    }
}

/// A FAT32 volume image and its parameters.
pub struct Fat32 {
    pub data: Vec<u8>,
    pub bytes_per_sector: usize,
    pub sectors_per_cluster: usize,
    pub fat_start: usize,
    pub fat_size: usize,
    pub data_start: usize,
    pub root_cluster: u32,
    pub total_clusters: u32,
}

/// One directory entry: its 8.3 name, whether it is a directory, its first
/// cluster and its size in bytes.
pub struct DirEntry {
    pub name: Vec<u8>,
    pub is_dir: bool,
    pub cluster: u32,
    pub size: u32,
}

/// A directory entry as plain values.
pub type DirView = (Seq<u8>, bool, u32, u32);

impl DirEntry {
    pub open spec fn view(&self) -> DirView {
        (self.name@, self.is_dir, self.cluster, self.size)
    }
}

impl Fat32 {
    /// The parameters agree with what the boot sector says.
    pub open spec fn wf(&self) -> bool {
        &&& self.fat_start <= 0xFFFF * 0xFFFF
        &&& self.data_start < self.data@.len()
        &&& self.data_start <= 0xFFFF * 0xFFFF + 0xFFFF_FFFF * 0xFFFF * 0xFF
        &&& parse_boot(self.data@) == Some(
            (
                self.bytes_per_sector as int,
                self.sectors_per_cluster as int,
                self.fat_start as int,
                self.fat_size as int,
                self.data_start as int,
                self.root_cluster,
                self.total_clusters,
            ),
        )
    }

    /// Bytes per cluster.
    pub open spec fn csize(&self) -> int {
        self.bytes_per_sector * self.sectors_per_cluster
    }

    /// Byte offset of `cluster` in the image, when it is a data cluster that
    /// starts inside it.
    pub open spec fn offset_of(&self, cluster: u32) -> Option<int> {
        let off = self.data_start + (cluster - 2) * self.csize();
        if cluster < 2 || off >= self.data@.len() {
            None
        } else {
            Some(off)
        }
    }

    /// The FAT's successor of `cluster` (low 28 bits), or the end marker for
    /// a cluster past the volume or a FAT slot past the image.
    pub open spec fn next_of(&self, cluster: u32) -> u32 {
        let off = self.fat_start + cluster * 4;
        if cluster > self.total_clusters + 1 || off + 4 > self.data@.len() {
            FAT32_EOC
        } else {
            (le32(self.data@, off) % 0x1000_0000) as u32
        }
    }

    /// Parses the boot sector of `data` (see `parse_boot`).
    pub fn new(data: Vec<u8>) -> (r: Option<Fat32>)
        ensures
            r.is_some() <==> parse_boot(data@).is_some(),
            r matches Some(fs) ==> fs.wf() && fs.data@ == data@,
    {
        let len = data.len();
        if len < 512 {
            return None;
        }
        if data[510] != 0x55 || data[511] != 0xAA {
            return None;
        }
        let bps = read_u16_le(data.as_slice(), 11);
        if bps == 0 || (bps & (bps - 1)) != 0 {
            return None;
        }
        let spc = data[13];
        if spc == 0 {
            return None;
        }
        let reserved = read_u16_le(data.as_slice(), 14);
        let fats = data[16];
        if fats == 0 {
            return None;
        }
        let fat_size16 = read_u16_le(data.as_slice(), 22);
        let fat_size32 = read_u32_le(data.as_slice(), 36);
        let fat_size: u64 = if fat_size16 != 0 { fat_size16 as u64 } else { fat_size32 as u64 };
        if fat_size == 0 {
            return None;
        }
        let total16 = read_u16_le(data.as_slice(), 19);
        let total32 = read_u32_le(data.as_slice(), 32);
        let total_sectors: u64 = if total16 != 0 { total16 as u64 } else { total32 as u64 };
        if total_sectors == 0 {
            return None;
        }
        let root_cluster = read_u32_le(data.as_slice(), 44);
        if root_cluster < 2 {
            return None;
        }
        assert(fat_size * (bps as u64) <= 0xFFFF_FFFF * 0xFFFF) by (nonlinear_arith)
            requires
                fat_size <= 0xFFFF_FFFF,
                bps <= 0xFFFF,
        ;
        assert(fat_size * (bps as u64) * (fats as u64) <= 0xFFFF_FFFF * 0xFFFF * 0xFF) by (nonlinear_arith)
            requires
                fat_size * (bps as u64) <= 0xFFFF_FFFF * 0xFFFF,
                fats <= 0xFF,
        ;
        assert((reserved as u64) * (bps as u64) <= 0xFFFF * 0xFFFF) by (nonlinear_arith)
            requires
                reserved <= 0xFFFF,
                bps <= 0xFFFF,
        ;
        assert(fat_size * (fats as u64) <= 0xFFFF_FFFF * 0xFF) by (nonlinear_arith)
            requires
                fat_size <= 0xFFFF_FFFF,
                fats <= 0xFF,
        ;
        let fat_start: u64 = (reserved as u64) * (bps as u64);
        let fat_bytes: u64 = fat_size * (bps as u64);
        let data_start: u64 = fat_start + fat_bytes * (fats as u64);
        if data_start >= len as u64 {
            return None;
        }
        let used: u64 = reserved as u64 + fat_size * (fats as u64);
        let data_sectors: u64 = if total_sectors >= used { total_sectors - used } else { 0 };
        let total_clusters = data_sectors / (spc as u64);
        if total_clusters == 0 {
            return None;
        }
        proof {
            assert(data_sectors <= 0xFFFF_FFFF);
            assert(total_clusters <= data_sectors) by (nonlinear_arith)
                requires
                    total_clusters == data_sectors / (spc as u64),
                    spc >= 1,
            ;
        }
        Some(
            Fat32 {
                data,
                bytes_per_sector: bps as usize,
                sectors_per_cluster: spc as usize,
                fat_start: fat_start as usize,
                fat_size: fat_size as usize,
                data_start: data_start as usize,
                root_cluster,
                total_clusters: total_clusters as u32,
            },
        )
    }

    /// The root directory's first cluster.
    pub fn root_cluster(&self) -> (r: u32)
        ensures
            r == self.root_cluster,
    {
        self.root_cluster
    }

    /// Bytes per cluster.
    fn cluster_size(&self) -> (r: usize)
        requires
            self.wf(),
        ensures
            r == self.csize(),
            0 < r <= 0xFFFF * 0xFF,
    {
        assert(self.bytes_per_sector * self.sectors_per_cluster <= 0xFFFF * 0xFF) by (nonlinear_arith)
            requires
                self.bytes_per_sector <= 0xFFFF,
                self.sectors_per_cluster <= 0xFF,
        ;
        assert(self.bytes_per_sector * self.sectors_per_cluster > 0) by (nonlinear_arith)
            requires
                self.bytes_per_sector >= 1,
                self.sectors_per_cluster >= 1,
        ;
        self.bytes_per_sector * self.sectors_per_cluster
    }

    /// Byte offset of a data cluster (see `offset_of`).
    fn cluster_offset(&self, cluster: u32) -> (r: Option<usize>)
        requires
            self.wf(),
        ensures
            r matches Some(o) ==> self.offset_of(cluster) == Some(o as int),
            r is None ==> self.offset_of(cluster) is None,
    {
        if cluster < 2 {
            return None;
        }
        let cs = self.cluster_size();
        let idx = (cluster - 2) as u64;
        assert(idx * (cs as u64) <= 0xFFFF_FFFF * (0xFFFF * 0xFF)) by (nonlinear_arith)
            requires
                idx <= 0xFFFF_FFFF,
                cs <= 0xFFFF * 0xFF,
        ;
        let offset: u64 = self.data_start as u64 + idx * (cs as u64);
        if offset >= self.data.len() as u64 {
            return None;
        }
        Some(offset as usize)
    }

    /// The FAT's successor of `cluster` (see `next_of`).
    fn fat_entry(&self, cluster: u32) -> (r: u32)
        requires
            self.wf(),
        ensures
            r == self.next_of(cluster),
    {
        if cluster as u64 > self.total_clusters as u64 + 1 {
            return FAT32_EOC;
        }
        let offset: u64 = self.fat_start as u64 + (cluster as u64) * 4;
        if offset + 4 > self.data.len() as u64 {
            return FAT32_EOC;
        }
        let v = read_u32_le(self.data.as_slice(), offset as usize);
        assert(v & 0x0FFF_FFFFu32 == v % 0x1000_0000) by (bit_vector);
        v & 0x0FFF_FFFF
    }
}


/// Length of `s` without its trailing spaces.
pub open spec fn trimmed_len(s: Seq<u8>) -> int
    decreases s.len(),
{
    if s.len() > 0 && s.last() == 32u8 {
        trimmed_len(s.drop_last())
    } else {
        s.len() as int
    }
}

proof fn lemma_trimmed_len(s: Seq<u8>)
    ensures
        0 <= trimmed_len(s) <= s.len(),
    decreases s.len(),
{
    if s.len() > 0 && s.last() == 32u8 {
        lemma_trimmed_len(s.drop_last());
    }
}

/// The readable name of an 8.3 directory entry: the base name without
/// trailing spaces (a leading 0x05 standing for 0xE5), then `.` and the
/// extension when there is one; empty when the base name is blank.
pub open spec fn sfn_name(e: Seq<u8>) -> Seq<u8> {
    let b = trimmed_len(e.subrange(0, 8));
    let x = trimmed_len(e.subrange(8, 11));
    if b == 0 {
        Seq::empty()
    } else {
        e.subrange(0, b).map_values(|c: u8| if c == 5u8 { 0xE5u8 } else { c }) + if x > 0 {
            seq![46u8] + e.subrange(8, 8 + x)
        } else {
            Seq::empty()
        }
    }
}

/// Whether a name is `.` or `..`.
pub open spec fn is_dot(n: Seq<u8>) -> bool {
    (n.len() == 1 && n[0] == 46u8) || (n.len() == 2 && n[0] == 46u8 && n[1] == 46u8)
}

/// What a 32-byte directory entry describes.
pub open spec fn entry_view(e: Seq<u8>) -> DirView {
    (
        sfn_name(e),
        e[11] & 0x10u8 != 0,
        (le16(e, 20) * 0x10000 + le16(e, 26)) as u32,
        le32(e, 28) as u32,
    )
}

/// Whether a directory entry is listed: not deleted, not a long-name or
/// volume-label entry, and with a name other than `.` or `..`.
pub open spec fn entry_listed(e: Seq<u8>) -> bool {
    &&& e[0] != 0xE5u8
    &&& e[11] != 0x0Fu8
    &&& e[11] & 0x08u8 == 0
    &&& sfn_name(e).len() > 0
    &&& !is_dot(sfn_name(e))
}

/// Entries listed from the cluster at `off` from slot `pos` on, added to
/// `acc` while it has fewer than `max`; the flag tells whether an
/// end-of-directory slot (first byte 0) was met.
pub open spec fn scan_dir(d: Seq<u8>, off: int, cs: int, pos: int, acc: Seq<DirView>, max: int) -> (
    Seq<DirView>,
    bool,
)
    decreases cs - pos,
{
    if pos < 0 || pos + 32 > cs {
        (acc, false)
    } else {
        let e = d.subrange(off + pos, off + pos + 32);
        if e[0] == 0u8 {
            (acc, true)
        } else {
            let acc2 = if entry_listed(e) && acc.len() < max {
                acc.push(entry_view(e))
            } else {
                acc
            };
            scan_dir(d, off, cs, pos + 32, acc2, max)
        }
    }
}

/// Removes trailing spaces from the `n` bytes of `entry` at `start`.
fn trim_end(entry: &[u8], start: usize, n: usize) -> (r: usize)
    requires
        start + n <= entry@.len(),
    ensures
        r == trimmed_len(entry@.subrange(start as int, (start + n) as int)),
        r <= n,
{
    let len = entry.len();
    let mut k = n;
    proof {
        lemma_trimmed_len(entry@.subrange(start as int, (start + n) as int));
    }
    while k > 0 && entry[start + (k - 1)] == 32u8
        invariant
            k <= n,
            start + n <= len,
            len == entry@.len(),
            trimmed_len(entry@.subrange(start as int, (start + n) as int)) == trimmed_len(
                entry@.subrange(start as int, (start + k) as int),
            ),
        decreases k,
    {
        proof {
            assert(entry@.subrange(start as int, (start + k) as int).drop_last() =~= entry@.subrange(
                start as int,
                (start + k - 1) as int,
            ));
        }
        k = k - 1;
    }
    k
}

/// The readable name of an 8.3 entry (see `sfn_name`).
pub fn sfn_to_name(entry: &[u8]) -> (r: Vec<u8>)
    requires
        entry@.len() >= 32,
    ensures
        r@ == sfn_name(entry@),
        r@.len() <= 12,
{
    let base_end = trim_end(entry, 0, 8);
    let ext_end = trim_end(entry, 8, 3);
    let mut out: Vec<u8> = Vec::new();
    if base_end == 0 {
        return out;
    }
    let mut i: usize = 0;
    while i < base_end
        invariant
            i <= base_end <= 8,
            entry@.len() >= 32,
            out@ == entry@.subrange(0, i as int).map_values(|c: u8| if c == 5u8 { 0xE5u8 } else { c }),
        decreases base_end - i,
    {
        let mut b = entry[i];
        if b == 5u8 {
            b = 0xE5;
        }
        out.push(b);
        i = i + 1;
        proof {
            assert(entry@.subrange(0, i as int).map_values(|c: u8| if c == 5u8 { 0xE5u8 } else { c })
                =~= entry@.subrange(0, i - 1).map_values(|c: u8| if c == 5u8 { 0xE5u8 } else { c }).push(
                b,
            ));
        }
    }
    let ghost base = out@;
    if ext_end > 0 {
        out.push(46u8);
        let mut j: usize = 0;
        while j < ext_end
            invariant
                j <= ext_end <= 3,
                entry@.len() >= 32,
                out@ == base + seq![46u8] + entry@.subrange(8, 8 + j),
            decreases ext_end - j,
        {
            out.push(entry[8 + j]);
            j = j + 1;
            proof {
                assert(entry@.subrange(8, 8 + j) =~= entry@.subrange(8, 8 + j - 1).push(entry@[8 + j - 1]));
            }
        }
    }
    proof {
        assert(entry@.subrange(0, 8).subrange(0, base_end as int) =~= entry@.subrange(0, base_end as int));
        if ext_end > 0 {
            assert(out@ =~= sfn_name(entry@));
        } else {
            assert(out@ =~= sfn_name(entry@));
        }
    }
    out
}

/// Whether a name is `.` or `..`.
pub fn is_dot_entry(name: &[u8]) -> (r: bool)
    ensures
        r == is_dot(name@),
{
    if name.len() == 1 && name[0] == 46u8 {
        return true;
    }
    name.len() == 2 && name[0] == 46u8 && name[1] == 46u8
}

impl Fat32 {
    /// The directory listing from `cluster` on, following the cluster chain
    /// at most `fuel` clusters; `None` when the fuel runs out first.
    pub open spec fn walk_dir(&self, cluster: u32, fuel: nat, acc: Seq<DirView>, max: int) -> Option<
        Seq<DirView>,
    >
        decreases fuel,
    {
        if fuel == 0 {
            None
        } else {
            match self.offset_of(cluster) {
                None => Some(acc),
                Some(off) => if off + self.csize() > self.data@.len() {
                    Some(acc)
                } else {
                    let (acc2, stop) = scan_dir(self.data@, off, self.csize(), 0, acc, max);
                    if stop {
                        Some(acc2)
                    } else {
                        let n = self.next_of(cluster);
                        if n < 2 || n >= FAT32_EOC {
                            Some(acc2)
                        } else {
                            self.walk_dir(n, (fuel - 1) as nat, acc2, max)
                        }
                    }
                },
            }
        }
    }

    /// Whether the directory chain from `cluster` ends before it could have
    /// visited every cluster of the volume, that is, it does not loop.
    pub open spec fn dir_chain_ends(&self, cluster: u32) -> bool {
        cluster < 2 || self.walk_dir(cluster, self.total_clusters as nat + 1, Seq::empty(), 0).is_some()
    }

    /// Lists the directory starting at `start_cluster`: every listed entry,
    /// in order, up to `max` of them, until an end-of-directory slot or the
    /// end of its cluster chain.
    pub fn list_dir(&self, start_cluster: u32, max: usize) -> (r: Vec<DirEntry>)
        requires
            self.wf(),
            start_cluster < 2 || self.walk_dir(
                start_cluster,
                self.total_clusters as nat + 1,
                Seq::empty(),
                max as int,
            ).is_some(),
        ensures
            r@.map_values(|e: DirEntry| e@) == if start_cluster < 2 {
                Seq::<DirView>::empty()
            } else {
                self.walk_dir(
                    start_cluster,
                    self.total_clusters as nat + 1,
                    Seq::empty(),
                    max as int,
                ).unwrap()
            },
            r@.len() <= max,
    {
        let mut out: Vec<DirEntry> = Vec::new();
        let mut cluster = start_cluster;
        if cluster < 2 {
            proof {
                assert(out@.map_values(|e: DirEntry| e@) =~= Seq::<DirView>::empty());
            }
            return out;
        }
        let cluster_size = self.cluster_size();
        let ghost goal = self.walk_dir(
            start_cluster,
            self.total_clusters as nat + 1,
            Seq::empty(),
            max as int,
        );
        let ghost mut fuel: nat = self.total_clusters as nat + 1;
        proof {
            assert(out@.map_values(|e: DirEntry| e@) =~= Seq::<DirView>::empty());
        }
        loop
            invariant_except_break
                goal == self.walk_dir(cluster, fuel, out@.map_values(|e: DirEntry| e@), max as int),
            invariant
                self.wf(),
                cluster_size == self.csize(),
                0 < cluster_size <= 0xFFFF * 0xFF,
                goal.is_some(),
                out@.len() <= max,
            ensures
                Some(out@.map_values(|e: DirEntry| e@)) == goal,
                out@.len() <= max,
            decreases fuel,
        {
            let ghost acc0 = out@.map_values(|e: DirEntry| e@);
            let offset = match self.cluster_offset(cluster) {
                Some(v) => v,
                None => {
                    break;
                },
            };
            if offset > self.data.len() || self.data.len() - offset < cluster_size {
                break;
            }
            let mut pos: usize = 0;
            let mut stopped = false;
            while pos + 32 <= cluster_size
                invariant_except_break
                    !stopped,
                invariant
                    self.wf(),
                    cluster_size == self.csize(),
                    0 < cluster_size <= 0xFFFF * 0xFF,
                    pos <= cluster_size,
                    offset + cluster_size <= self.data.len(),
                    out@.len() <= max,
                    scan_dir(self.data@, offset as int, cluster_size as int, 0, acc0, max as int)
                        == scan_dir(
                        self.data@,
                        offset as int,
                        cluster_size as int,
                        pos as int,
                        out@.map_values(|e: DirEntry| e@),
                        max as int,
                    ),
                ensures
                    out@.len() <= max,
                    scan_dir(self.data@, offset as int, cluster_size as int, 0, acc0, max as int) == (
                    out@.map_values(|e: DirEntry| e@),
                    stopped,
                    ),
                decreases cluster_size - pos,
            {
                let entry = vstd::slice::slice_subrange(self.data.as_slice(), offset + pos, offset + pos + 32);
                let ghost view0 = out@.map_values(|e: DirEntry| e@);
                let first = entry[0];
                if first == 0 {
                    stopped = true;
                    break;
                }
                if first != 0xE5 {
                    let attr = entry[11];
                    if attr != 0x0F && (attr & 0x08) == 0 {
                        let name = sfn_to_name(entry);
                        if name.len() > 0 && !is_dot_entry(name.as_slice()) {
                            if out.len() < max {
                                let cluster_hi = read_u16_le(entry, 20);
                                let cluster_lo = read_u16_le(entry, 26);
                                let cluster_val = ((cluster_hi as u32) << 16) | cluster_lo as u32;
                                assert(((cluster_hi as u32) << 16u32) | (cluster_lo as u32) == (
                                cluster_hi as u32) * 0x10000 + (cluster_lo as u32)) by (bit_vector)
                                    requires
                                        cluster_hi <= 0xFFFF,
                                        cluster_lo <= 0xFFFF,
                                ;
                                let size = read_u32_le(entry, 28);
                                let ghost before = out@;
                                out.push(
                                    DirEntry { name, is_dir: (attr & 0x10) != 0, cluster: cluster_val, size },
                                );
                                proof {
                                    assert(out@.map_values(|e: DirEntry| e@) =~= before.map_values(
                                        |e: DirEntry| e@,
                                    ).push(entry_view(entry@)));
                                }
                            }
                        }
                    }
                }
                pos = pos + 32;
            }
            proof {
                assert(fuel > 0);
                assert(self.offset_of(cluster) == Some(offset as int));
                assert(!(offset + self.csize() > self.data@.len()));
            }
            if stopped {
                break;
            }
            let next = self.fat_entry(cluster);
            if next < 2 || next >= FAT32_EOC {
                break;
            }
            cluster = next;
            proof {
                fuel = (fuel - 1) as nat;
            }
        }
        out
    }

    /// The first `want` bytes of the file whose chain starts at `cluster`, as
    /// far as its cluster chain reaches.
    pub open spec fn read_chain(&self, cluster: u32, want: int) -> Seq<u8>
        decreases want,
    {
        if want <= 0 || self.csize() <= 0 {
            Seq::empty()
        } else {
            match self.offset_of(cluster) {
                None => Seq::empty(),
                Some(off) => if off + self.csize() > self.data@.len() {
                    Seq::empty()
                } else if want <= self.csize() {
                    self.data@.subrange(off, off + want)
                } else {
                    let chunk = self.data@.subrange(off, off + self.csize());
                    let n = self.next_of(cluster);
                    if n < 2 || n >= FAT32_EOC {
                        chunk
                    } else {
                        chunk + self.read_chain(n, want - self.csize())
                    }
                },
            }
        }
    }

    /// Reads up to `max` bytes of a file of `file_size` bytes whose chain
    /// starts at `start_cluster`; nothing for a cluster below 2.
    pub fn read_file(&self, start_cluster: u32, file_size: usize, max: usize) -> (r: Vec<u8>)
        requires
            self.wf(),
        ensures
            r@ == if start_cluster < 2 || max == 0 || file_size == 0 {
                Seq::<u8>::empty()
            } else {
                self.read_chain(
                    start_cluster,
                    if file_size < max {
                        file_size as int
                    } else {
                        max as int
                    },
                )
            },
    {
        let mut out: Vec<u8> = Vec::new();
        if start_cluster < 2 || max == 0 || file_size == 0 {
            return out;
        }
        let mut cluster = start_cluster;
        let cluster_size = self.cluster_size();
        let target = if file_size < max { file_size } else { max };
        let ghost goal = self.read_chain(start_cluster, target as int);
        proof {
            assert(out@ + goal =~= goal);
        }
        loop
            invariant_except_break
                goal == out@ + self.read_chain(cluster, target - out@.len()),
            invariant
                self.wf(),
                cluster_size == self.csize(),
                0 < cluster_size <= 0xFFFF * 0xFF,
                out@.len() <= target,
            ensures
                out@ == goal,
            decreases target - out@.len(),
        {
            let written = out.len();
            if written >= target {
                proof {
                    assert(out@ + Seq::<u8>::empty() =~= out@);
                }
                break;
            }
            let offset = match self.cluster_offset(cluster) {
                Some(v) => v,
                None => {
                    proof {
                        assert(out@ + Seq::<u8>::empty() =~= out@);
                    }
                    break;
                },
            };
            if offset > self.data.len() || self.data.len() - offset < cluster_size {
                proof {
                    assert(out@ + Seq::<u8>::empty() =~= out@);
                }
                break;
            }
            let remain = target - written;
            let to_copy = if remain < cluster_size { remain } else { cluster_size };
            let mut i: usize = 0;
            let ghost before = out@;
            while i < to_copy
                invariant
                    i <= to_copy,
                    to_copy <= cluster_size,
                    offset + cluster_size <= self.data.len(),
                    out@ == before + self.data@.subrange(offset as int, offset + i),
                decreases to_copy - i,
            {
                out.push(self.data[offset + i]);
                i = i + 1;
                proof {
                    assert(self.data@.subrange(offset as int, offset + i) =~= self.data@.subrange(
                        offset as int,
                        offset + i - 1,
                    ).push(self.data@[offset + i - 1]));
                }
            }
            proof {
                assert(self.offset_of(cluster) == Some(offset as int));
                assert(!(offset + self.csize() > self.data@.len()));
            }
            if out.len() >= target {
                proof {
                    assert(remain <= cluster_size);
                    assert(self.read_chain(cluster, remain as int) == self.data@.subrange(
                        offset as int,
                        offset + remain,
                    ));
                }
                break;
            }
            let next = self.fat_entry(cluster);
            if next < 2 || next >= FAT32_EOC {
                proof {
                    assert(self.read_chain(cluster, remain as int) == self.data@.subrange(
                        offset as int,
                        offset + cluster_size,
                    ));
                }
                break;
            }
            proof {
                assert(before + self.data@.subrange(offset as int, offset + cluster_size) + self.read_chain(
                    next,
                    target - before.len() - cluster_size,
                ) =~= before + (self.data@.subrange(offset as int, offset + cluster_size)
                    + self.read_chain(next, target - before.len() - cluster_size)));
            }
            cluster = next;
        }
        out
    }
}

/// Every name in a listing has at most twelve bytes.
pub open spec fn names_short(s: Seq<DirView>) -> bool {
    forall|i: int| 0 <= i < s.len() ==> (#[trigger] s[i]).0.len() <= 12
}

/// An 8.3 name has at most twelve bytes.
pub proof fn lemma_sfn_name_len(e: Seq<u8>)
    requires
        e.len() >= 11,
    ensures
        sfn_name(e).len() <= 12,
{
    lemma_trimmed_len(e.subrange(0, 8));
    lemma_trimmed_len(e.subrange(8, 11));
}

proof fn lemma_scan_dir_names(d: Seq<u8>, off: int, cs: int, pos: int, acc: Seq<DirView>, max: int)
    requires
        names_short(acc),
        0 <= off,
        off + cs <= d.len(),
    ensures
        names_short(scan_dir(d, off, cs, pos, acc, max).0),
    decreases cs - pos,
{
    if !(pos < 0 || pos + 32 > cs) {
        let e = d.subrange(off + pos, off + pos + 32);
        if e[0] != 0u8 {
            let acc2 = if entry_listed(e) && acc.len() < max {
                acc.push(entry_view(e))
            } else {
                acc
            };
            lemma_sfn_name_len(e);
            assert(names_short(acc2)) by {
                assert forall|i: int| 0 <= i < acc2.len() implies (#[trigger] acc2[i]).0.len() <= 12 by {
                    if i < acc.len() {
                        assert(acc2[i] == acc[i]);
                    }
                }
            }
            lemma_scan_dir_names(d, off, cs, pos + 32, acc2, max);
        }
    }
}

impl Fat32 {
    /// Every name a directory listing holds has at most twelve bytes.
    pub proof fn lemma_walk_dir_names(&self, cluster: u32, fuel: nat, acc: Seq<DirView>, max: int)
        requires
            names_short(acc),
        ensures
            self.walk_dir(cluster, fuel, acc, max) matches Some(r) ==> names_short(r),
        decreases fuel,
    {
        if fuel > 0 {
            match self.offset_of(cluster) {
                None => {},
                Some(off) => {
                    if off + self.csize() <= self.data@.len() {
                        lemma_scan_dir_names(self.data@, off, self.csize(), 0, acc, max);
                        let (acc2, stop) = scan_dir(self.data@, off, self.csize(), 0, acc, max);
                        if !stop {
                            let n = self.next_of(cluster);
                            if !(n < 2 || n >= FAT32_EOC) {
                                self.lemma_walk_dir_names(n, (fuel - 1) as nat, acc2, max);
                            }
                        }
                    }
                },
            }
        }
    }
}


/// A listed entry's size is the whole 32-bit little-endian number in bytes
/// 28 to 31 of its 32-byte directory entry, all four bytes counted.
pub proof fn lemma_entry_size(e: Seq<u8>)
    requires
        e.len() == 32,
    ensures
        entry_view(e).3 as int == e[28] as int + e[29] as int * 256 + e[30] as int * 65536 + e[31] as int
            * 16777216,
{
}


/// A listed entry's first cluster joins the high 16 bits in bytes 20 and 21
/// to the low 16 bits in bytes 26 and 27 of its directory entry (each
/// little-endian), and it is a folder exactly when bit 4 of its attribute
/// byte 11 is set.
pub proof fn lemma_entry_cluster(e: Seq<u8>)
    requires
        e.len() == 32,
    ensures
        entry_view(e).2 as int == e[26] as int + e[27] as int * 256 + e[20] as int * 65536 + e[21] as int
            * 16777216,
        entry_view(e).1 == ((e[11] / 16) % 2 == 1),
{
    let b = e[11];
    assert((b & 0x10u8 != 0) == ((b / 16) % 2 == 1)) by (bit_vector);
}

} // verus!
