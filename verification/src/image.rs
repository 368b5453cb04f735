use vstd::prelude::*;

verus! {

/// Largest picture the decoder takes, in pixels.
pub const MAX_WIDTH: usize = 1024;
pub const MAX_HEIGHT: usize = 768;
pub const MAX_PIXELS: usize = 786432;

/// `2` to the power `n`.
pub open spec fn p2(n: nat) -> nat
    decreases n,
{
    if n == 0 {
        1
    } else {
        2 * p2((n - 1) as nat)
    }
}

/// Where a reader of entropy-coded bits stands: the next byte to load, the
/// bit of the loaded byte to hand out next (7 down to 0; -1 when a new byte
/// must be loaded), and the loaded byte.
#[derive(Debug, Clone, Copy, PartialEq, Eq, Structural)]
pub struct BitReader {
    pub pos: usize,
    pub bit_pos: i8,
    pub current_byte: u8,
}

impl BitReader {
    /// A reader at the start of `data`.
    pub fn new() -> (r: BitReader)
        ensures
            r == (BitReader { pos: 0, bit_pos: -1i8, current_byte: 0 }),
    {
        BitReader { pos: 0, bit_pos: -1, current_byte: 0 }
    }

    /// The reader stands inside `data` on a valid bit.
    pub open spec fn wf(&self, data: Seq<u8>) -> bool {
        &&& -1 <= self.bit_pos <= 7
        &&& self.pos <= data.len()
    }
}

/// The next bit of the entropy-coded `data` from reader state `r`, most
/// significant bit of each byte first, and the state after it. A `0xFF`
/// byte must be followed by a stuffed `0x00`, which is skipped; any other
/// byte after it is a marker, which ends the bits (`None`), as does the end
/// of `data`.
pub open spec fn next_bit(data: Seq<u8>, r: BitReader) -> Option<(u8, BitReader)> {
    if r.bit_pos < 0 {
        if r.pos >= data.len() {
            None
        } else {
            let b = data[r.pos as int];
            let p = r.pos + 1;
            if b == 0xFF && !(p < data.len() && data[p] == 0) {
                None
            } else {
                let p2 = if b == 0xFF {
                    p + 1
                } else {
                    p
                };
                Some(((b >> 7u8) & 1u8, BitReader { pos: p2 as usize, bit_pos: 6, current_byte: b }))
            }
        }
    } else {
        Some(
            (
                (r.current_byte >> (r.bit_pos as u8)) & 1u8,
                BitReader { bit_pos: (r.bit_pos - 1) as i8, ..r },
            ),
        )
    }
}

/// The next `n` bits as a number, first bit most significant, and the state
/// after them; `None` when the bits run out first.
pub open spec fn next_bits(data: Seq<u8>, r: BitReader, n: nat) -> Option<(int, BitReader)>
    decreases n,
{
    if n == 0 {
        Some((0, r))
    } else {
        match next_bits(data, r, (n - 1) as nat) {
            None => None,
            Some((v, s)) => match next_bit(data, s) {
                None => None,
                Some((b, s2)) => Some((v * 2 + b, s2)),
            },
        }
    }
}

proof fn lemma_next_bit(data: Seq<u8>, r: BitReader)
    requires
        r.wf(data),
    ensures
        next_bit(data, r) matches Some((b, s)) ==> b <= 1 && s.wf(data),
{
    if r.bit_pos < 0 {
        if r.pos < data.len() {
            let b = data[r.pos as int];
            assert((b >> 7u8) & 1u8 <= 1) by (bit_vector);
        }
    } else {
        let c = r.current_byte;
        let k = r.bit_pos as u8;
        assert((c >> k) & 1u8 <= 1) by (bit_vector);
    }
}

proof fn lemma_next_bits(data: Seq<u8>, r: BitReader, n: nat)
    requires
        r.wf(data),
    ensures
        next_bits(data, r, n) matches Some((v, s)) ==> 0 <= v < p2(n) && s.wf(data),
    decreases n,
{
    if n > 0 {
        lemma_next_bits(data, r, (n - 1) as nat);
        match next_bits(data, r, (n - 1) as nat) {
            None => {},
            Some((v, s)) => {
                lemma_next_bit(data, s);
            },
        }
    }
}

proof fn lemma_p2_mono(a: nat, b: nat)
    requires
        a <= b,
    ensures
        p2(a) <= p2(b),
    decreases b,
{
    if a < b {
        lemma_p2_mono(a, (b - 1) as nat);
    }
}

proof fn lemma_p2_16(n: nat)
    requires
        n <= 16,
    ensures
        p2(n) <= 0x10000,
{
    lemma_p2_mono(n, 16);
    assert(p2(16) == 0x10000) by {
        reveal_with_fuel(p2, 17);
    }
}

/// Once the bits run out they stay out.
proof fn lemma_next_bits_none(data: Seq<u8>, r: BitReader, i: nat, j: nat)
    requires
        i <= j,
        next_bits(data, r, i) is None,
    ensures
        next_bits(data, r, j) is None,
    decreases j,
{
    if i < j {
        lemma_next_bits_none(data, r, i, (j - 1) as nat);
    }
}

impl BitReader {
    /// Reads one bit of `data` (see `next_bit`).
    pub fn read_bit(&mut self, data: &[u8]) -> (r: Option<u8>)
        requires
            old(self).wf(data@),
        ensures
            final(self).wf(data@),
            match next_bit(data@, *old(self)) {
                Some((b, s)) => r == Some(b) && *final(self) == s,
                None => r is None,
            },
    {
        proof {
            lemma_next_bit(data@, *self);
        }
        if self.bit_pos < 0 {
            if self.pos >= data.len() {
                return None;
            }
            let b = data[self.pos];
            let p = self.pos + 1;
            if b == 0xFF {
                if p < data.len() && data[p] == 0 {
                    self.pos = p + 1;
                } else {
                    return None;
                }
            } else {
                self.pos = p;
            }
            self.current_byte = b;
            self.bit_pos = 6;
            return Some((b >> 7u8) & 1u8);
        }
        let bit = (self.current_byte >> (self.bit_pos as u8)) & 1u8;
        self.bit_pos = self.bit_pos - 1;
        Some(bit)
    }

    /// Reads `n` bits of `data` as a number (see `next_bits`).
    pub fn read_bits(&mut self, data: &[u8], n: u8) -> (r: Option<u32>)
        requires
            old(self).wf(data@),
            n <= 16,
        ensures
            final(self).wf(data@),
            match next_bits(data@, *old(self), n as nat) {
                Some((v, s)) => r == Some(v as u32) && *final(self) == s,
                None => r is None,
            },
    {
        let ghost start = *self;
        assert(start == *old(self));
        let mut val: u32 = 0;
        let mut i: u8 = 0;
        while i < n
            invariant
                i <= n <= 16,
                self.wf(data@),
                start.wf(data@),
                start == *old(self),
                next_bits(data@, start, i as nat) == Some((val as int, *self)),
            decreases n - i,
        {
            proof {
                lemma_next_bits(data@, start, i as nat);
                lemma_p2_16(i as nat);
                lemma_next_bit(data@, *self);
            }
            match self.read_bit(data) {
                Some(b) => {
                    val = val * 2 + b as u32;
                },
                None => {
                    proof {
                        assert(next_bits(data@, start, (i + 1) as nat) is None);
                        lemma_next_bits_none(data@, start, (i + 1) as nat, n as nat);
                        assert(next_bits(data@, start, n as nat) is None);
                    }
                    return None;
                },
            }
            i = i + 1;
        }
        Some(val)
    }
}


/// The canonical Huffman code after the code lengths `1..=i` of `bits`
/// (`bits[l - 1]` codes of length `l`): the first code of the next length
/// and how many values were given codes.
pub open spec fn canon_state(bits: Seq<u8>, i: int) -> (int, int)
    decreases i,
{
    if i <= 0 {
        (0, 0)
    } else {
        let s = canon_state(bits, i - 1);
        ((s.0 + bits[i - 1]) * 2, s.1 + bits[i - 1])
    }
}

/// The largest code of length `len`, or -1 when there is none.
pub open spec fn max_code_of(bits: Seq<u8>, len: int) -> int {
    let s = canon_state(bits, len - 1);
    if bits[len - 1] > 0 {
        s.0 + bits[len - 1] - 1
    } else {
        -1
    }
}

/// What added to a code of length `len` gives the index of its value.
pub open spec fn offset_of(bits: Seq<u8>, len: int) -> int {
    let s = canon_state(bits, len - 1);
    if bits[len - 1] > 0 {
        s.1 - s.0
    } else {
        0
    }
}

/// Sum of the first `n` code counts.
pub open spec fn count_sum(bits: Seq<u8>, n: int) -> int
    decreases n,
{
    if n <= 0 {
        0
    } else {
        count_sum(bits, n - 1) + bits[n - 1]
    }
}

proof fn lemma_canon_state(bits: Seq<u8>, i: int)
    requires
        0 <= i <= bits.len(),
    ensures
        canon_state(bits, i).0 >= 0,
        canon_state(bits, i).0 + 510 <= 510 * p2(i as nat),
        canon_state(bits, i).1 == count_sum(bits, i),
        0 <= count_sum(bits, i) <= 255 * i,
    decreases i,
{
    if i > 0 {
        lemma_canon_state(bits, i - 1);
    }
}

/// A Huffman table as the decoder keeps it: for each code length 1 to 16
/// (index 0 unused) the largest code and the offset from a code to its
/// value's index, and the values (256 slots).
pub struct HuffmanTable {
    pub max_code: Vec<i64>,
    pub offset: Vec<i64>,
    pub values: Vec<u8>,
}

impl HuffmanTable {
    /// The table's vectors have their sizes.
    pub open spec fn wf(&self) -> bool {
        &&& self.max_code@.len() == 17
        &&& self.offset@.len() == 17
        &&& self.values@.len() == 256
        &&& forall|l: int| 0 <= l < 17 ==> -0x1_0000_0000 <= #[trigger] self.offset@[l] <= 0x1_0000_0000
    }

    /// The table for code counts `bits` and `values` in code order.
    pub open spec fn built_from(&self, bits: Seq<u8>, values: Seq<u8>) -> bool {
        &&& self.wf()
        &&& self.max_code@[0] == -1
        &&& self.offset@[0] == 0
        &&& forall|l: int| 1 <= l <= 16 ==> #[trigger] self.max_code@[l] == max_code_of(bits, l)
        &&& forall|l: int| 1 <= l <= 16 ==> #[trigger] self.offset@[l] == offset_of(bits, l)
        &&& self.values@ == values + Seq::new((256 - values.len()) as nat, |i: int| 0u8)
    }

    /// Builds the canonical Huffman table with `bits[l - 1]` codes of
    /// length `l` for `values`, in order.
    pub fn new(bits: &[u8], values: &[u8]) -> (t: HuffmanTable)
        requires
            bits@.len() == 16,
            values@.len() <= 256,
        ensures
            t.built_from(bits@, values@),
    {
        let mut max_code: Vec<i64> = Vec::new();
        let mut offset: Vec<i64> = Vec::new();
        max_code.push(-1);
        offset.push(0);
        let mut code: i64 = 0;
        let mut val_idx: i64 = 0;
        let mut i: usize = 1;
        while i <= 16
            invariant
                1 <= i <= 17,
                bits@.len() == 16,
                max_code@.len() == i,
                offset@.len() == i,
                max_code@[0] == -1,
                offset@[0] == 0,
                (code as int, val_idx as int) == canon_state(bits@, i - 1),
                forall|l: int| 1 <= l < i ==> #[trigger] max_code@[l] == max_code_of(bits@, l),
                forall|l: int| 1 <= l < i ==> #[trigger] offset@[l] == offset_of(bits@, l),
                forall|l: int| 0 <= l < i ==> -0x1_0000_0000 <= #[trigger] offset@[l] <= 0x1_0000_0000,
            decreases 17 - i,
        {
            proof {
                lemma_canon_state(bits@, i - 1);
                lemma_p2_16((i - 1) as nat);
            }
            let count = bits[i - 1] as i64;
            if count > 0 {
                offset.push(val_idx - code);
                max_code.push(code + count - 1);
            } else {
                offset.push(0);
                max_code.push(-1);
            }
            code = (code + count) * 2;
            val_idx = val_idx + count;
            i = i + 1;
        }
        let mut vals: Vec<u8> = Vec::new();
        let mut k: usize = 0;
        while k < 256
            invariant
                k <= 256,
                values@.len() <= 256,
                vals@.len() == k,
                forall|j: int| 0 <= j < k ==> #[trigger] vals@[j] == if j < values@.len() {
                    values@[j]
                } else {
                    0u8
                },
            decreases 256 - k,
        {
            if k < values.len() {
                vals.push(values[k]);
            } else {
                vals.push(0);
            }
            k = k + 1;
        }
        proof {
            assert(vals@ =~= values@ + Seq::new((256 - values@.len()) as nat, |i: int| 0u8));
        }
        HuffmanTable { max_code, offset, values: vals }
    }
}

/// A Huffman table as values: for each code length its largest code and
/// its offset into the values, and the values (see `HuffmanTable`).
pub struct HuffView {
    pub max_code: Seq<i64>,
    pub offset: Seq<i64>,
    pub values: Seq<u8>,
}

impl HuffmanTable {
    /// The table's contents.
    pub open spec fn hv(&self) -> HuffView {
        HuffView { max_code: self.max_code@, offset: self.offset@, values: self.values@ }
    }
}

/// The table for code counts `bits` and `values` in code order (see
/// `HuffmanTable::built_from`).
pub open spec fn huff_view_of(bits: Seq<u8>, values: Seq<u8>) -> HuffView {
    HuffView {
        max_code: Seq::new(17, |l: int| if l == 0 { -1i64 } else { max_code_of(bits, l) as i64 }),
        offset: Seq::new(17, |l: int| if l == 0 { 0i64 } else { offset_of(bits, l) as i64 }),
        values: values + Seq::new((256 - values.len()) as nat, |i: int| 0u8),
    }
}

/// A table built from `bits` and `values` has the contents `huff_view_of`
/// gives.
pub proof fn lemma_built_view(t: HuffmanTable, bits: Seq<u8>, values: Seq<u8>)
    requires
        t.built_from(bits, values),
    ensures
        t.hv() == huff_view_of(bits, values),
{
    assert(t.max_code@ =~= huff_view_of(bits, values).max_code);
    assert(t.offset@ =~= huff_view_of(bits, values).offset);
}

/// Decoding one Huffman-coded value from reader state `r`, having read
/// `code` in the first `len - 1` bits: the next bit extends the code; a code
/// of length `len` no larger than the largest one of that length names a
/// value, else the search goes on, up to length 16.
pub open spec fn huff_decode(t: HuffView, data: Seq<u8>, r: BitReader, len: int, code: int) -> Option<
    (u8, BitReader),
>
    decreases 17 - len,
{
    if len > 16 || len < 1 {
        None
    } else {
        match next_bit(data, r) {
            None => None,
            Some((b, s)) => {
                let c = code * 2 + b;
                if c <= t.max_code[len] {
                    let idx = c + t.offset[len];
                    if 0 <= idx < t.values.len() {
                        Some((t.values[idx], s))
                    } else {
                        None
                    }
                } else {
                    huff_decode(t, data, s, len + 1, c)
                }
            },
        }
    }
}

impl HuffmanTable {
    /// Decodes one value from the bits of `data` (see `huff_decode`).
    pub fn decode(&self, data: &[u8], r: &mut BitReader) -> (v: Option<u8>)
        requires
            self.wf(),
            old(r).wf(data@),
        ensures
            final(r).wf(data@),
            match huff_decode(self.hv(), data@, *old(r), 1, 0) {
                Some((x, s)) => v == Some(x) && *final(r) == s,
                None => v is None,
            },
    {
        let ghost start = *r;
        let mut code: i64 = 0;
        let mut len: usize = 1;
        while len <= 16
            invariant
                1 <= len <= 17,
                self.wf(),
                r.wf(data@),
                0 <= code < p2((len - 1) as nat),
                huff_decode(self.hv(), data@, start, 1, 0) == huff_decode(self.hv(), data@, *r, len as int, code as int),
                start == *old(r),
            decreases 17 - len,
        {
            proof {
                lemma_next_bit(data@, *r);
                lemma_p2_16((len - 1) as nat);
            }
            let b = match r.read_bit(data) {
                Some(b) => b,
                None => {
                    return None;
                },
            };
            code = code * 2 + b as i64;
            if code <= self.max_code[len] {
                let idx = code + self.offset[len];
                if idx < 0 || idx >= 256 {
                    return None;
                }
                return Some(self.values[idx as usize]);
            }
            len = len + 1;
        }
        None
    }
}


/// Row `x` of the fixed-point inverse-DCT table: for frequency `u`, 4096
/// times `sqrt(2) * cos((2x + 1) u pi / 16)` rounded, and 4096 for `u = 0`.
pub open spec fn idct_row(x: int) -> Seq<int> {
    if x == 0 {
        seq![4096int, 5681, 5352, 4816, 4096, 3218, 2217, 1130]
    } else if x == 1 {
        seq![4096int, 4816, 2217, -1130, -4096, -5681, -5352, -3218]
    } else if x == 2 {
        seq![4096int, 3218, -2217, -5681, -4096, 1130, 5352, 4816]
    } else if x == 3 {
        seq![4096int, 1130, -5352, -3218, 4096, 4816, -2217, -5681]
    } else if x == 4 {
        seq![4096int, -1130, -5352, 3218, 4096, -4816, -2217, 5681]
    } else if x == 5 {
        seq![4096int, -3218, -2217, 5681, -4096, -1130, 5352, -4816]
    } else if x == 6 {
        seq![4096int, -4816, 2217, 1130, -4096, 5681, -5352, 3218]
    } else {
        seq![4096int, -5681, 5352, -4816, 4096, -3218, 2217, -1130]
    }
}

fn table_row(x: usize) -> (r: [i64; 8])
    requires
        x < 8,
    ensures
        forall|u: int| 0 <= u < 8 ==> #[trigger] r@[u] as int == idct_row(x as int)[u],
{
    let r = match x {
        0 => [4096i64, 5681, 5352, 4816, 4096, 3218, 2217, 1130],
        1 => [4096i64, 4816, 2217, -1130, -4096, -5681, -5352, -3218],
        2 => [4096i64, 3218, -2217, -5681, -4096, 1130, 5352, 4816],
        3 => [4096i64, 1130, -5352, -3218, 4096, 4816, -2217, -5681],
        4 => [4096i64, -1130, -5352, 3218, 4096, -4816, -2217, 5681],
        5 => [4096i64, -3218, -2217, 5681, -4096, -1130, 5352, -4816],
        6 => [4096i64, -4816, 2217, 1130, -4096, 5681, -5352, 3218],
        _ => [4096i64, -5681, 5352, -4816, 4096, -3218, 2217, -1130],
    };
    r
}

/// `sum of d[u] * row[u]` for `u < n`.
pub open spec fn dot(d: Seq<i64>, row: Seq<int>, n: int) -> int
    decreases n,
{
    if n <= 0 {
        0
    } else {
        dot(d, row, n - 1) + d[n - 1] * row[n - 1]
    }
}

/// The one-dimensional inverse DCT of eight values: each output is the
/// table-weighted sum, rounded and divided by 4096 (rounding down).
pub open spec fn idct_1d_spec(d: Seq<i64>) -> Seq<int> {
    Seq::new(8, |x: int| (dot(d, idct_row(x), 8) + 2048) / 4096)
}

/// Bound on a value the transform takes in.
pub open spec fn small(v: int, m: int) -> bool {
    -m <= v <= m
}

proof fn lemma_row_bound(x: int, u: int)
    requires
        0 <= x < 8,
        0 <= u < 8,
    ensures
        small(idct_row(x)[u], 5681),
{
}

proof fn lemma_dot_bound(d: Seq<i64>, x: int, n: int, m: int)
    requires
        0 <= x < 8,
        0 <= n <= 8,
        d.len() == 8,
        m >= 0,
        forall|u: int| 0 <= u < 8 ==> small(#[trigger] d[u] as int, m),
    ensures
        small(dot(d, idct_row(x), n), n * m * 5681),
    decreases n,
{
    if n > 0 {
        lemma_dot_bound(d, x, n - 1, m);
        lemma_row_bound(x, n - 1);
        let a = d[n - 1] as int;
        let b = idct_row(x)[n - 1];
        assert(small(a * b, m * 5681)) by (nonlinear_arith)
            requires
                small(a, m),
                small(b, 5681),
                m >= 0,
        ;
        assert((n - 1) * m * 5681 + m * 5681 == n * m * 5681) by (nonlinear_arith);
    }
}

/// Floor division of `v` by 4096, written without shifts.
fn floor_div_4096(v: i64) -> (r: i64)
    ensures
        r == v as int / 4096,
{
    if v >= 0 {
        v / 4096
    } else {
        let q = (-(v as i128) + 4095) / 4096;
        proof {
            let w = v as int;
            assert(q == (-w + 4095) / 4096);
            assert(-q == w / 4096) by (nonlinear_arith)
                requires
                    w < 0,
                    q == (-w + 4095) / 4096,
            ;
        }
        (-q) as i64
    }
}

/// The one-dimensional inverse DCT (see `idct_1d_spec`) of values of size
/// at most `2^44`.
pub fn idct_1d(d: &[i64]) -> (r: Vec<i64>)
    requires
        d@.len() == 8,
        forall|u: int| 0 <= u < 8 ==> small(#[trigger] d@[u] as int, 0x1000_0000_0000),
    ensures
        r@.len() == 8,
        forall|x: int| 0 <= x < 8 ==> #[trigger] r@[x] as int == idct_1d_spec(d@)[x],
        (forall|u: int| 0 <= u < 8 ==> small(#[trigger] d@[u] as int, 0x100_0000_0000)) ==> forall|x: int|
            0 <= x < 8 ==> small(#[trigger] r@[x] as int, 0x1000_0000_0000),
{
    let mut out: Vec<i64> = Vec::new();
    let mut x: usize = 0;
    while x < 8
        invariant
            x <= 8,
            d@.len() == 8,
            forall|u: int| 0 <= u < 8 ==> small(#[trigger] d@[u] as int, 0x1000_0000_0000),
            out@.len() == x,
            forall|j: int| 0 <= j < x ==> #[trigger] out@[j] as int == idct_1d_spec(d@)[j],
            (forall|u: int| 0 <= u < 8 ==> small(#[trigger] d@[u] as int, 0x100_0000_0000)) ==> forall|j: int|
                0 <= j < x ==> small(#[trigger] out@[j] as int, 0x1000_0000_0000),
        decreases 8 - x,
    {
        let row = table_row(x);
        let mut sum: i64 = 0;
        let mut u: usize = 0;
        while u < 8
            invariant
                u <= 8,
                x < 8,
                d@.len() == 8,
                forall|k: int| 0 <= k < 8 ==> #[trigger] row@[k] as int == idct_row(x as int)[k],
                forall|k: int| 0 <= k < 8 ==> small(#[trigger] d@[k] as int, 0x1000_0000_0000),
                sum as int == dot(d@, idct_row(x as int), u as int),
            decreases 8 - u,
        {
            proof {
                lemma_dot_bound(d@, x as int, u as int + 1, 0x1000_0000_0000);
                lemma_row_bound(x as int, u as int);
                let a = d@[u as int] as int;
                let b = row@[u as int] as int;
                assert(small(a * b, 0x1000_0000_0000int * 5681)) by (nonlinear_arith)
                    requires
                        small(a, 0x1000_0000_0000),
                        small(b, 5681),
                ;
            }
            sum = sum + d[u] * row[u];
            u = u + 1;
        }
        proof {
            lemma_dot_bound(d@, x as int, 8, 0x1000_0000_0000);
            if forall|k: int| 0 <= k < 8 ==> small(#[trigger] d@[k] as int, 0x100_0000_0000) {
                lemma_dot_bound(d@, x as int, 8, 0x100_0000_0000);
                let sv = sum as int;
                assert(small((sv + 2048) / 4096, 0x1000_0000_0000)) by (nonlinear_arith)
                    requires
                        small(sv, 8int * 0x100_0000_0000 * 5681),
                ;
            }
        }
        let v = floor_div_4096(sum + 2048);
        out.push(v);
        x = x + 1;
    }
    out
}


/// The block after the row pass: each row of eight transformed.
pub open spec fn idct_rows(b: Seq<i64>) -> Seq<i64> {
    Seq::new(64, |k: int| idct_1d_spec(b.subrange(k / 8 * 8, k / 8 * 8 + 8))[k % 8] as i64)
}

/// Column `i` of a block.
pub open spec fn column(b: Seq<i64>, i: int) -> Seq<i64> {
    Seq::new(8, |j: int| b[j * 8 + i])
}

/// The two-dimensional inverse DCT of an 8x8 block (row by row in `b`):
/// the rows transformed, then the columns.
pub open spec fn idct_spec(b: Seq<i64>) -> Seq<int> {
    let r = idct_rows(b);
    Seq::new(64, |k: int| idct_1d_spec(column(r, k % 8))[k / 8])
}

/// The inverse DCT of a block (see `idct_spec`) whose values are at most
/// `2^40` in size.
pub fn idct(block: &[i64]) -> (r: Vec<i64>)
    requires
        block@.len() == 64,
        forall|k: int| 0 <= k < 64 ==> small(#[trigger] block@[k] as int, 0x100_0000_0000),
    ensures
        r@.len() == 64,
        forall|k: int| 0 <= k < 64 ==> #[trigger] r@[k] as int == idct_spec(block@)[k],
{
    let mut rows: Vec<i64> = Vec::new();
    let mut i: usize = 0;
    while i < 8
        invariant
            i <= 8,
            block@.len() == 64,
            forall|k: int| 0 <= k < 64 ==> small(#[trigger] block@[k] as int, 0x100_0000_0000),
            rows@.len() == i * 8,
            forall|k: int| 0 <= k < i * 8 ==> #[trigger] rows@[k] == idct_rows(block@)[k],
            forall|k: int| 0 <= k < i * 8 ==> small(#[trigger] rows@[k] as int, 0x1000_0000_0000),
        decreases 8 - i,
    {
        let part = vstd::slice::slice_subrange(block, i * 8, i * 8 + 8);
        proof {
            assert forall|u: int| 0 <= u < 8 implies small(#[trigger] part@[u] as int, 0x100_0000_0000) by {
                assert(part@[u] == block@[i * 8 + u]);
            }
            assert forall|u: int| 0 <= u < 8 implies small(#[trigger] part@[u] as int, 0x1000_0000_0000) by {
                assert(part@[u] == block@[i * 8 + u]);
            }
        }
        let t = idct_1d(part);
        let mut j: usize = 0;
        while j < 8
            invariant
                i < 8,
                j <= 8,
                t@.len() == 8,
                part@ == block@.subrange(i * 8, i * 8 + 8),
                forall|x: int| 0 <= x < 8 ==> #[trigger] t@[x] as int == idct_1d_spec(part@)[x],
                forall|x: int| 0 <= x < 8 ==> small(#[trigger] t@[x] as int, 0x1000_0000_0000),
                rows@.len() == i * 8 + j,
                forall|k: int| 0 <= k < i * 8 + j ==> #[trigger] rows@[k] == idct_rows(block@)[k],
                forall|k: int| 0 <= k < i * 8 + j ==> small(#[trigger] rows@[k] as int, 0x1000_0000_0000),
            decreases 8 - j,
        {
            proof {
                let k = i * 8 + j;
                assert(k / 8 == i as int && k % 8 == j as int);
                assert(idct_rows(block@)[k] == idct_1d_spec(block@.subrange(i * 8, i * 8 + 8))[j as int] as i64);
            }
            rows.push(t[j]);
            j = j + 1;
        }
        i = i + 1;
    }
    let mut out: Vec<i64> = Vec::new();
    let mut k: usize = 0;
    while k < 64
        invariant
            k <= 64,
            out@.len() == k,
        decreases 64 - k,
    {
        out.push(0);
        k = k + 1;
    }
    let ghost r = idct_rows(block@);
    proof {
        assert(rows@ =~= r);
    }
    let mut c: usize = 0;
    while c < 8
        invariant
            c <= 8,
            rows@ == r,
            r == idct_rows(block@),
            rows@.len() == 64,
            out@.len() == 64,
            forall|k: int| 0 <= k < 64 ==> small(#[trigger] rows@[k] as int, 0x1000_0000_0000),
            forall|k: int| 0 <= k < 64 && k % 8 < c ==> #[trigger] out@[k] as int == idct_spec(block@)[k],
        decreases 8 - c,
    {
        let mut col: Vec<i64> = Vec::new();
        let mut j: usize = 0;
        while j < 8
            invariant
                c < 8,
                j <= 8,
                rows@.len() == 64,
                col@.len() == j,
                forall|x: int| 0 <= x < j ==> #[trigger] col@[x] == rows@[x * 8 + c],
            decreases 8 - j,
        {
            col.push(rows[j * 8 + c]);
            j = j + 1;
        }
        proof {
            assert(col@ =~= column(r, c as int));
        }
        let t = idct_1d(col.as_slice());
        let mut j2: usize = 0;
        while j2 < 8
            invariant
                c < 8,
                j2 <= 8,
                out@.len() == 64,
                t@.len() == 8,
                col@ == column(r, c as int),
                r == idct_rows(block@),
                forall|x: int| 0 <= x < 8 ==> #[trigger] t@[x] as int == idct_1d_spec(col@)[x],
                forall|k: int| 0 <= k < 64 && k % 8 < c ==> #[trigger] out@[k] as int == idct_spec(block@)[k],
                forall|k: int| 0 <= k < 64 && k % 8 == c && k / 8 < j2 ==> #[trigger] out@[k] as int == idct_spec(
                    block@,
                )[k],
            decreases 8 - j2,
        {
            proof {
                let k = j2 * 8 + c;
                assert(k % 8 == c as int && k / 8 == j2 as int);
            }
            out.set(j2 * 8 + c, t[j2]);
            j2 = j2 + 1;
        }
        c = c + 1;
    }
    out
}


/// `v` kept within 0 to 255.
pub open spec fn clamp255(v: int) -> u8 {
    if v < 0 {
        0
    } else if v > 255 {
        255
    } else {
        v as u8
    }
}

/// The blue, green, red and alpha bytes of the colour with luma `y` and
/// chroma `cb`, `cr` (fixed-point, 10 fraction bits, rounding down).
pub open spec fn to_bgra(y: u8, cb: u8, cr: u8) -> Seq<u8> {
    let c = cb - 128;
    let r = cr - 128;
    seq![
        clamp255(y + 1772 * c / 1024),
        clamp255(y - 344 * c / 1024 - 714 * r / 1024),
        clamp255(y + 1402 * r / 1024),
        255u8,
    ]
}

/// A grey sample (both chroma values 128) comes out as that grey, opaque.
pub proof fn lemma_grey_stays_grey(y: u8)
    ensures
        to_bgra(y, 128, 128) == seq![y, y, y, 255u8],
{
    assert(to_bgra(y, 128, 128) =~= seq![y, y, y, 255u8]);
}

/// Byte `j` (0 to 3) of `v` in little-endian order.
pub open spec fn le_byte(v: int, j: int) -> u8 {
    (if j == 0 {
        v % 256
    } else if j == 1 {
        v / 0x100 % 256
    } else if j == 2 {
        v / 0x10000 % 256
    } else {
        v / 0x1000000 % 256
    }) as u8
}

/// The decoded picture as the kernel draws it: the width and height as
/// little-endian 32-bit words, then one blue-green-red-alpha pixel per
/// sample, row by row, from the luma and chroma planes.
pub open spec fn bgra_image(w: int, h: int, yp: Seq<u8>, cb: Seq<u8>, cr: Seq<u8>) -> Seq<u8> {
    Seq::new(
        (8 + w * h * 4) as nat,
        |i: int|
            if i < 4 {
                le_byte(w, i)
            } else if i < 8 {
                le_byte(h, i - 4)
            } else {
                let p = (i - 8) / 4;
                to_bgra(yp[p], cb[p], cr[p])[(i - 8) % 4]
            },
    )
}

fn fdiv1024(v: i32) -> (r: i32)
    ensures
        r == v as int / 1024,
{
    if v >= 0 {
        v / 1024
    } else {
        let q = (-(v as i64) + 1023) / 1024;
        proof {
            let w = v as int;
            assert(-q == w / 1024) by (nonlinear_arith)
                requires
                    w < 0,
                    q == (-w + 1023) / 1024,
            ;
        }
        (-q) as i32
    }
}

fn clamp_u8(v: i32) -> (r: u8)
    ensures
        r == clamp255(v as int),
{
    if v < 0 {
        0
    } else if v > 255 {
        255
    } else {
        v as u8
    }
}

/// Converts one sample to its pixel bytes (see `to_bgra`).
pub fn ycbcr_to_bgra(y: u8, cb: u8, cr: u8) -> (r: [u8; 4])
    ensures
        r@ == to_bgra(y, cb, cr),
{
    let yy = y as i32;
    let c = cb as i32 - 128;
    let d = cr as i32 - 128;
    let r = clamp_u8(yy + fdiv1024(1402 * d));
    let g = clamp_u8(yy - fdiv1024(344 * c) - fdiv1024(714 * d));
    let b = clamp_u8(yy + fdiv1024(1772 * c));
    let out = [b, g, r, 255u8];
    assert(out@ =~= to_bgra(y, cb, cr));
    out
}

fn push_le32(out: &mut Vec<u8>, v: u32)
    ensures
        final(out)@ == old(out)@ + seq![le_byte(v as int, 0), le_byte(v as int, 1), le_byte(v as int, 2), le_byte(
            v as int,
            3,
        )],
{
    out.push((v % 256) as u8);
    out.push((v / 0x100 % 256) as u8);
    out.push((v / 0x10000 % 256) as u8);
    out.push((v / 0x1000000 % 256) as u8);
    proof {
        assert(final(out)@ =~= old(out)@ + seq![
            le_byte(v as int, 0),
            le_byte(v as int, 1),
            le_byte(v as int, 2),
            le_byte(v as int, 3),
        ]);
    }
}

/// The picture bytes for a `w * h` image with the given planes (see
/// `bgra_image`).
pub fn planes_to_bgra(w: usize, h: usize, yp: &[u8], cb: &[u8], cr: &[u8]) -> (r: Vec<u8>)
    requires
        w * h <= MAX_PIXELS,
        w <= u32::MAX,
        h <= u32::MAX,
        yp@.len() >= w * h,
        cb@.len() >= w * h,
        cr@.len() >= w * h,
    ensures
        r@ == bgra_image(w as int, h as int, yp@, cb@, cr@),
{
    let n = w * h;
    let mut out: Vec<u8> = Vec::new();
    push_le32(&mut out, w as u32);
    push_le32(&mut out, h as u32);
    let ghost want = bgra_image(w as int, h as int, yp@, cb@, cr@);
    let mut i: usize = 0;
    while i < n
        invariant
            i <= n,
            n == w * h,
            n <= MAX_PIXELS,
            yp@.len() >= n,
            cb@.len() >= n,
            cr@.len() >= n,
            want == bgra_image(w as int, h as int, yp@, cb@, cr@),
            out@.len() == 8 + i * 4,
            forall|k: int| 0 <= k < 8 + i * 4 ==> #[trigger] out@[k] == want[k],
        decreases n - i,
    {
        let px = ycbcr_to_bgra(yp[i], cb[i], cr[i]);
        let ghost before = out@;
        out.push(px[0]);
        out.push(px[1]);
        out.push(px[2]);
        out.push(px[3]);
        proof {
            assert forall|k: int| 0 <= k < 8 + (i + 1) * 4 implies #[trigger] out@[k] == want[k] by {
                if k >= 8 + i * 4 {
                    assert((k - 8) / 4 == i as int);
                    assert(out@[k] == px@[(k - 8) % 4]);
                } else {
                    assert(out@[k] == before[k]);
                }
            }
        }
        i = i + 1;
    }
    proof {
        assert(out@ =~= want);
    }
    out
}


/// The zig-zag order: the block position of the `k`-th coefficient.
pub open spec fn zigzag_spec() -> Seq<int> {
    seq![0, 1, 8, 16, 9, 2, 3, 10, 17, 24, 32, 25, 18, 11, 4, 5, 12, 19, 26, 33, 40, 48, 41, 34, 27, 20, 13, 6, 7, 14, 21, 28, 35, 42, 49, 56, 57, 50, 43, 36, 29, 22, 15, 23, 30, 37, 44, 51, 58, 59, 52, 45, 38, 31, 39, 46, 53, 60, 61, 54, 47, 55, 62, 63]
}

fn zigzag(k: usize) -> (r: usize)
    requires
        k < 64,
    ensures
        r == zigzag_spec()[k as int],
        r < 64,
{
    let t: [usize; 64] = [0, 1, 8, 16, 9, 2, 3, 10, 17, 24, 32, 25, 18, 11, 4, 5, 12, 19, 26, 33, 40, 48, 41, 34, 27, 20, 13, 6, 7, 14, 21, 28, 35, 42, 49, 56, 57, 50, 43, 36, 29, 22, 15, 23, 30, 37, 44, 51, 58, 59, 52, 45, 38, 31, 39, 46, 53, 60, 61, 54, 47, 55, 62, 63];
    proof {
        assert(t@ =~= zigzag_spec().map_values(|v: int| v as usize));
        assert(forall|j: int| 0 <= j < 64 ==> 0 <= #[trigger] zigzag_spec()[j] < 64);
    }
    t[k]
}

/// A coefficient from its `cat` bits: the upper half of the range stands for
/// itself, the lower half for the negative values.
pub open spec fn extend(bits: int, cat: nat) -> int {
    if bits < p2((cat - 1) as nat) {
        bits - p2(cat) + 1
    } else {
        bits
    }
}

/// The AC coefficients of a block from position `k` on, into `out` (in
/// natural order, dequantised by `q`): each Huffman symbol gives a run of
/// zeros (high four bits) and a size (low four bits) whose bits follow; a
/// zero symbol ends the block. Returns the block and the reader after it.
pub open spec fn ac_loop(
    t: HuffView,
    q: Seq<u16>,
    data: Seq<u8>,
    r: BitReader,
    k: int,
    out: Seq<i64>,
) -> Option<(Seq<i64>, BitReader)>
    decreases (if k < 64 { 64 - k } else { 0 }),
{
    if k >= 64 {
        Some((out, r))
    } else {
        match huff_decode(t, data, r, 1, 0) {
            None => None,
            Some((sym, s)) => if sym == 0 {
                Some((out, s))
            } else {
                let k2 = k + (sym as int) / 16;
                let cat = (sym % 16) as nat;
                if cat > 0 && k2 < 64 {
                    match next_bits(data, s, cat) {
                        None => None,
                        Some((bits, s2)) => {
                            let z = zigzag_spec()[k2];
                            ac_loop(t, q, data, s2, k2 + 1, out.update(z, (extend(bits, cat) * q[z]) as i64))
                        },
                    }
                } else {
                    ac_loop(t, q, data, s, k2 + 1, out)
                }
            },
        }
    }
}

/// Largest dequantised DC value the decoder takes.
pub const DC_LIMIT: i64 = 0x100_0000_0000;

/// One 8x8 block: the DC difference (a Huffman-coded size, at most 16, and
/// that many bits) added to the running DC value `dc`, dequantised into
/// position 0, then the AC coefficients (see `ac_loop`). Returns the
/// coefficients, the new DC value and the reader after the block; `None`
/// when the bits run out, the size is over 16, or the value grows past
/// `DC_LIMIT`.
pub open spec fn block_spec(
    dc_t: HuffView,
    ac_t: HuffView,
    q: Seq<u16>,
    data: Seq<u8>,
    r: BitReader,
    dc: int,
) -> Option<(Seq<i64>, int, BitReader)> {
    match huff_decode(dc_t, data, r, 1, 0) {
        None => None,
        Some((cat, s)) => if cat > 16 {
            None
        } else {
            let got: Option<(int, BitReader)> = if cat > 0 {
                match next_bits(data, s, cat as nat) {
                    None => None,
                    Some((bits, s2)) => Some((dc + extend(bits, cat as nat), s2)),
                }
            } else {
                Some((dc, s))
            };
            match got {
                None => None,
                Some((dc2, s2)) => if !small(dc2, DC_LIMIT as int) || !small(dc2 * q[0], DC_LIMIT as int) {
                    None
                } else {
                    let start = Seq::new(64, |i: int| 0i64).update(0, (dc2 * q[0]) as i64);
                    match ac_loop(ac_t, q, data, s2, 1, start) {
                        None => None,
                        Some((b, s3)) => Some((b, dc2, s3)),
                    }
                },
            }
        },
    }
}

proof fn lemma_extend(bits: int, cat: nat)
    requires
        1 <= cat <= 16,
        0 <= bits < p2(cat),
    ensures
        -0x10000 < extend(bits, cat) < 0x10000,
{
    lemma_p2_16(cat);
    lemma_p2_mono((cat - 1) as nat, cat);
}

fn extend_exec(bits: u32, cat: u8) -> (r: i64)
    requires
        1 <= cat <= 16,
        bits < p2(cat as nat),
    ensures
        r == extend(bits as int, cat as nat),
{
    proof {
        lemma_p2_16(cat as nat);
        lemma_p2_mono((cat - 1) as nat, cat as nat);
        assert(p2(cat as nat) == 2 * p2((cat - 1) as nat));
    }
    let half = pow2_u32(cat - 1);
    let full = pow2_u32(cat);
    if (bits as i64) < half as i64 {
        bits as i64 - full as i64 + 1
    } else {
        bits as i64
    }
}

fn pow2_u32(n: u8) -> (r: u32)
    requires
        n <= 16,
    ensures
        r == p2(n as nat),
{
    let mut v: u32 = 1;
    let mut i: u8 = 0;
    while i < n
        invariant
            i <= n <= 16,
            v == p2(i as nat),
        decreases n - i,
    {
        proof {
            lemma_p2_16(i as nat);
        }
        v = v * 2;
        i = i + 1;
    }
    v
}


/// Decodes one 8x8 block (see `block_spec`) with the DC and AC tables and
/// the quantisation table `q` (in natural order), updating the running DC
/// value.
pub fn decode_block(
    dc_t: &HuffmanTable,
    ac_t: &HuffmanTable,
    q: &[u16],
    data: &[u8],
    r: &mut BitReader,
    dc: &mut i64,
) -> (out: Option<Vec<i64>>)
    requires
        dc_t.wf(),
        ac_t.wf(),
        q@.len() == 64,
        old(r).wf(data@),
        small(*old(dc) as int, DC_LIMIT as int),
    ensures
        final(r).wf(data@),
        small(*final(dc) as int, DC_LIMIT as int),
        match block_spec(dc_t.hv(), ac_t.hv(), q@, data@, *old(r), *old(dc) as int) {
            Some((b, d2, s)) => out matches Some(v) && v@ == b && *final(dc) == d2 && *final(r) == s,
            None => out is None,
        },
        out matches Some(v) ==> v@.len() == 64 && forall|k: int|
            0 <= k < 64 ==> small(#[trigger] v@[k] as int, DC_LIMIT as int),
{
    let ghost r0 = *r;
    let ghost dc0 = *dc;
    assert(r0 == *old(r) && dc0 == *old(dc));
    let cat = match dc_t.decode(data, r) {
        Some(c) => c,
        None => {
            return None;
        },
    };
    if cat > 16 {
        return None;
    }
    let mut d2: i64 = *dc;
    if cat > 0 {
        proof {
            lemma_next_bits(data@, *r, cat as nat);
        }
        let bits = match r.read_bits(data, cat) {
            Some(b) => b,
            None => {
                return None;
            },
        };
        proof {
            lemma_extend(bits as int, cat as nat);
        }
        d2 = d2 + extend_exec(bits, cat);
    }
    if d2 < -DC_LIMIT || d2 > DC_LIMIT {
        return None;
    }
    let q0 = q[0] as i64;
    proof {
        assert(small(d2 as int * q0, 0x100_0000_0000int * 0x10000)) by (nonlinear_arith)
            requires
                small(d2 as int, 0x100_0000_0000int),
                0 <= q0 <= 0xFFFF,
        ;
    }
    let v0 = d2 * q0;
    if v0 < -DC_LIMIT || v0 > DC_LIMIT {
        return None;
    }
    *dc = d2;
    let mut out: Vec<i64> = Vec::new();
    let mut i: usize = 0;
    while i < 64
        invariant
            i <= 64,
            out@.len() == i,
            forall|j: int| 0 <= j < i ==> #[trigger] out@[j] == 0i64,
        decreases 64 - i,
    {
        out.push(0);
        i = i + 1;
    }
    out.set(0, v0);
    let ghost start = out@;
    let ghost s2 = *r;
    proof {
        assert(start =~= Seq::new(64, |i: int| 0i64).update(0, (d2 * q[0] as int) as i64));
    }
    let mut k: usize = 1;
    while k < 64
        invariant
            1 <= k,
            ac_t.wf(),
            q@.len() == 64,
            r.wf(data@),
            out@.len() == 64,
            forall|j: int| 0 <= j < 64 ==> small(#[trigger] out@[j] as int, DC_LIMIT as int),
            ac_loop(ac_t.hv(), q@, data@, s2, 1, start) == ac_loop(ac_t.hv(), q@, data@, *r, k as int, out@),
            small(*dc as int, DC_LIMIT as int),
            r0 == *old(r),
            dc0 == *old(dc),
            block_spec(dc_t.hv(), ac_t.hv(), q@, data@, r0, dc0 as int) == match ac_loop(ac_t.hv(), q@, data@, s2, 1, start) {
                None => None,
                Some((b, s3)) => Some((b, *dc as int, s3)),
            },
        decreases (if k < 64 { 64 - k } else { 0 }),
    {
        proof {
            lemma_next_bit(data@, *r);
        }
        let sym = match ac_t.decode(data, r) {
            Some(v) => v,
            None => {
                return None;
            },
        };
        if sym == 0 {
            return Some(out);
        }
        let k2 = k + (sym / 16) as usize;
        let c = sym % 16;
        if c > 0 && k2 < 64 {
            proof {
                lemma_next_bits(data@, *r, c as nat);
            }
            let bits = match r.read_bits(data, c) {
                Some(b) => b,
                None => {
                    return None;
                },
            };
            proof {
                lemma_extend(bits as int, c as nat);
            }
            let z = zigzag(k2);
            let e = extend_exec(bits, c);
            let qz = q[z] as i64;
            proof {
                assert(small(e * qz, 0x10000int * 0x10000)) by (nonlinear_arith)
                    requires
                        small(e as int, 0x10000int),
                        0 <= qz <= 0xFFFF,
                ;
            }
            out.set(z, e * qz);
        }
        k = k2 + 1;
    }
    Some(out)
}


/// A transformed coefficient as a sample: divided by 8 (rounding down),
/// shifted up by 128 and kept within 0 to 255.
pub open spec fn sample(v: int) -> u8 {
    clamp255(v / 8 + 128)
}

/// Where a block lands in its plane: block `(hb, vb)` of MCU `(mx, my)`
/// for a component sampled `hs * vs` of the largest `max_h * max_v`; each
/// of its samples covers `hfac * vfac` pixels.
pub struct BlockPlace {
    pub x_off: usize,
    pub y_off: usize,
    pub hfac: usize,
    pub vfac: usize,
}

/// The place of a block (see `BlockPlace`).
pub open spec fn place_of(mx: int, my: int, max_h: int, max_v: int, hs: int, vs: int, hb: int, vb: int) -> (
    int,
    int,
    int,
    int,
) {
    let hfac = max_h / hs;
    let vfac = max_v / vs;
    (mx * max_h * 8 + hb * 8 * hfac, my * max_v * 8 + vb * 8 * vfac, hfac, vfac)
}

/// The plane after drawing a transformed block at `(x_off, y_off)` with
/// each sample stretched over `hfac * vfac` pixels, on a `w`-wide plane:
/// the pixels it covers take their samples, the rest stay.
pub open spec fn drawn(
    plane: Seq<u8>,
    w: int,
    h: int,
    x_off: int,
    y_off: int,
    hfac: int,
    vfac: int,
    block: Seq<i64>,
) -> Seq<u8> {
    Seq::new(
        plane.len(),
        |p: int|
            {
                let px = p % w;
                let py = p / w;
                if p < w * h && x_off <= px < x_off + 8 * hfac && y_off <= py < y_off + 8 * vfac {
                    sample(block[((py - y_off) / vfac) * 8 + (px - x_off) / hfac] as int)
                } else {
                    plane[p]
                }
            },
    )
}

fn sample_exec(v: i64) -> (r: u8)
    ensures
        r == sample(v as int),
{
    let q = if v >= 0 {
        v / 8
    } else {
        let t = (-(v as i128) + 7) / 8;
        proof {
            let w = v as int;
            assert(-t == w / 8) by (nonlinear_arith)
                requires
                    w < 0,
                    t == (-w + 7) / 8,
            ;
        }
        (-t) as i64
    };
    if q < -128 {
        0
    } else if q > 127 {
        255
    } else {
        (q + 128) as u8
    }
}

/// Draws a transformed block into a `w * h` plane (see `drawn`).
pub fn render_block(
    plane: &mut Vec<u8>,
    w: usize,
    h: usize,
    x_off: usize,
    y_off: usize,
    hfac: usize,
    vfac: usize,
    block: &[i64],
)
    requires
        old(plane)@.len() == w * h,
        w * h <= MAX_PIXELS,
        1 <= hfac <= 15,
        1 <= vfac <= 15,
        x_off <= 0x1000_0000,
        y_off <= 0x1000_0000,
        block@.len() == 64,
    ensures
        final(plane)@ == drawn(old(plane)@, w as int, h as int, x_off as int, y_off as int, hfac as int, vfac as int, block@),
{
    let ghost old_plane = plane@;
    let ghost want = drawn(old_plane, w as int, h as int, x_off as int, y_off as int, hfac as int, vfac as int, block@);
    let x_end0 = x_off + 8 * hfac;
    let y_end0 = y_off + 8 * vfac;
    let x_end = if x_end0 < w { x_end0 } else { w };
    let y_end = if y_end0 < h { y_end0 } else { h };
    let mut py = y_off;
    while py < y_end
        invariant
            plane@.len() == w * h,
            w * h <= MAX_PIXELS,
            y_off <= py,
            y_end <= h,
            x_end <= w,
            x_end == if x_off + 8 * hfac < w { x_off + 8 * hfac } else { w as int },
            y_end == if y_off + 8 * vfac < h { y_off + 8 * vfac } else { h as int },
            1 <= hfac <= 15,
            1 <= vfac <= 15,
            block@.len() == 64,
            want == drawn(old_plane, w as int, h as int, x_off as int, y_off as int, hfac as int, vfac as int, block@),
            old_plane.len() == w * h,
            forall|p: int| 0 <= p < w * h ==> #[trigger] plane@[p] == if p / (w as int) < py {
                want[p]
            } else {
                old_plane[p]
            },
        decreases y_end - py,
    {
        let ghost row_start = plane@;
        let mut px = x_off;
        while px < x_end
            invariant
                plane@.len() == w * h,
                w * h <= MAX_PIXELS,
                py < y_end <= h,
                x_end <= w,
                x_off <= px,
                y_off <= py,
                x_end == if x_off + 8 * hfac < w { x_off + 8 * hfac } else { w as int },
                y_end == if y_off + 8 * vfac < h { y_off + 8 * vfac } else { h as int },
                1 <= hfac <= 15,
                1 <= vfac <= 15,
                block@.len() == 64,
                forall|p: int| 0 <= p < w * h ==> #[trigger] plane@[p] == if p / (w as int) == py && x_off <= p % (w as int) < px {
                    want[p]
                } else {
                    row_start[p]
                },
                want == drawn(old_plane, w as int, h as int, x_off as int, y_off as int, hfac as int, vfac as int, block@),
                old_plane.len() == w * h,
            decreases x_end - px,
        {
            proof {
                assert(py * w + px < w * h) by (nonlinear_arith)
                    requires
                        py < h,
                        px < w,
                ;
                assert((py - y_off) / (vfac as int) < 8) by (nonlinear_arith)
                    requires
                        py - y_off < 8 * vfac,
                        vfac >= 1,
                ;
                assert((px - x_off) / (hfac as int) < 8) by (nonlinear_arith)
                    requires
                        px - x_off < 8 * hfac,
                        hfac >= 1,
                ;
            }
            let bi = ((py - y_off) / vfac) * 8 + (px - x_off) / hfac;
            let v = sample_exec(block[bi]);
            let idx = py * w + px;
            let ghost before = plane@;
            plane.set(idx, v);
            proof {
                assert forall|p: int| 0 <= p < w * h implies #[trigger] plane@[p] == if p / (w as int) == py && x_off <= p % (w as int) < px + 1 {
                    want[p]
                } else {
                    row_start[p]
                } by {
                    let wi = w as int;
                    if p == idx {
                        assert(p / wi == py as int && p % wi == px as int) by (nonlinear_arith)
                            requires
                                p == py * wi + px,
                                0 <= px < wi,
                                0 <= py,
                        ;
                    } else {
                        if p / wi == py as int && p % wi == px as int {
                            assert(p == (p / wi) * wi + p % wi) by (nonlinear_arith)
                                requires
                                    wi > 0,
                            ;
                        }
                    }
                }
            }
            px = px + 1;
        }
        proof {
            assert forall|p: int| 0 <= p < w * h implies #[trigger] plane@[p] == if p / (w as int) < py + 1 {
                want[p]
            } else {
                old_plane[p]
            } by {
                let wi = w as int;
                let c = p % wi;
                let r = p / wi;
                assert(wi > 0) by (nonlinear_arith)
                    requires
                        0 <= p < wi * h,
                        wi >= 0,
                        h >= 0,
                ;
                assert(0 <= c < wi && 0 <= r < h) by (nonlinear_arith)
                    requires
                        0 <= p < wi * h,
                        wi > 0,
                        c == p % wi,
                        r == p / wi,
                ;
                if r == py as int {
                    if !(x_off <= c && c < x_end) {
                        assert(plane@[p] == row_start[p]);
                        assert(row_start[p] == old_plane[p]);
                        assert(want[p] == old_plane[p]);
                    } else {
                        assert(plane@[p] == want[p]);
                    }
                } else if r < py {
                    assert(plane@[p] == row_start[p]);
                } else {
                    assert(plane@[p] == row_start[p]);
                }
            }
        }
        py = py + 1;
    }
    proof {
        assert forall|p: int| 0 <= p < w * h implies #[trigger] plane@[p] == want[p] by {
            let wi = w as int;
            let r = p / wi;
            assert(wi > 0) by (nonlinear_arith)
                requires
                    0 <= p < wi * h,
                    wi >= 0,
                    h >= 0,
            ;
            assert(0 <= r < h) by (nonlinear_arith)
                requires
                    0 <= p < wi * h,
                    wi > 0,
                    r == p / wi,
            ;
            if r >= py {
                assert(r >= y_off + 8 * vfac);
                assert(want[p] == old_plane[p]);
            }
        }
        assert(plane@ =~= want);
    }
}


/// One colour component of the frame: its sampling factors, its
/// quantisation table, and its DC and AC Huffman tables.
#[derive(Debug, Clone, Copy, PartialEq, Eq, Structural)]
pub struct Component {
    pub h: u8,
    pub v: u8,
    pub qt: u8,
    pub dc: u8,
    pub ac: u8,
}

/// A baseline JPEG decoder's state while reading a stream: where it is,
/// the frame size, four quantisation tables (natural order, 64 entries
/// each), two DC and two AC Huffman tables, up to three components, and
/// the largest sampling factors.
pub struct JpegDecoder {
    pub pos: usize,
    pub width: u16,
    pub height: u16,
    pub qtables: Vec<u16>,
    pub dc_huff: Vec<Option<HuffmanTable>>,
    pub ac_huff: Vec<Option<HuffmanTable>>,
    pub components: Vec<Option<Component>>,
    pub mc_w: u8,
    pub mc_h: u8,
}

/// A picture of a `w * h` frame: the picture bytes of some luma and chroma
/// planes of that size.
pub open spec fn picture_of(img: Seq<u8>, w: int, h: int) -> bool {
    exists|yp: Seq<u8>, cb: Seq<u8>, cr: Seq<u8>|
        #![trigger bgra_image(w, h, yp, cb, cr)]
        w * h <= MAX_PIXELS && yp.len() == w * h && cb.len() == w * h && cr.len() == w * h && img == bgra_image(
            w,
            h,
            yp,
            cb,
            cr,
        )
}

/// Whether `d` holds a frame header (markers `FF C0` to `FF C2`) giving a
/// picture `w` pixels wide and `h` high: after the marker come the
/// segment's length, the sample precision, the height and the width, each
/// number big-endian.
pub open spec fn frame_header(d: Seq<u8>, w: int, h: int) -> bool {
    exists|p: int|
        #![trigger d[p]]
        2 <= p && p + 7 <= d.len() && d[p - 2] == 0xFF && 0xC0 <= d[p - 1] <= 0xC2 && h == d[p + 3] * 256
            + d[p + 4] && w == d[p + 5] * 256 + d[p + 6]
}

/// How the marker walk from `p` ends before it meets a segment that changes
/// the decoder's tables, frame or scan: at an end-of-image marker, at the
/// end of the data (or a malformed length), or at such a segment, whose
/// marker is given. Bytes before a `0xFF` are skipped; other segments are
/// skipped by their two-byte big-endian length.
#[derive(Debug, Clone, Copy, PartialEq, Eq, Structural)]
pub enum WalkEnd {
    Eoi,
    Ends,
    Segment(u8),
}

/// Whether a marker starts a segment the decoder reads: quantisation
/// tables, a frame header, Huffman tables or a scan.
pub open spec fn read_marker(m: u8) -> bool {
    m == 0xDB || (0xC0 <= m <= 0xC2) || m == 0xC4 || m == 0xDA
}

/// See `WalkEnd`.
pub open spec fn walk_markers(d: Seq<u8>, p: int) -> WalkEnd
    decreases (if p < d.len() { d.len() - p } else { 0 }),
{
    if p < 0 || p >= d.len() {
        WalkEnd::Ends
    } else if d[p] != 0xFF {
        walk_markers(d, p + 1)
    } else if p + 1 >= d.len() {
        WalkEnd::Ends
    } else {
        let m = d[p + 1];
        if m == 0xD9 {
            WalkEnd::Eoi
        } else if read_marker(m) {
            WalkEnd::Segment(m)
        } else if p + 4 > d.len() {
            WalkEnd::Ends
        } else {
            let l = d[p + 2] * 256 + d[p + 3];
            if l < 2 {
                WalkEnd::Ends
            } else {
                walk_markers(d, p + 4 + l - 2)
            }
        }
    }
}

impl JpegDecoder {
    /// The tables have their sizes and every component's sampling factors
    /// lie within the largest ones, at most 15.
    pub open spec fn wf(&self) -> bool {
        &&& self.qtables@.len() == 256
        &&& self.dc_huff@.len() == 2
        &&& self.ac_huff@.len() == 2
        &&& self.components@.len() == 3
        &&& forall|i: int| 0 <= i < 2 ==> (#[trigger] self.dc_huff@[i] matches Some(t) ==> t.wf())
        &&& forall|i: int| 0 <= i < 2 ==> (#[trigger] self.ac_huff@[i] matches Some(t) ==> t.wf())
        &&& forall|i: int|
            0 <= i < 3 ==> (#[trigger] self.components@[i] matches Some(c) ==> c.h <= self.mc_w && c.v
                <= self.mc_h)
        &&& self.mc_w <= 15
        &&& self.mc_h <= 15
    }

    /// A decoder at the start of a stream, after its start-of-image marker.
    pub fn new() -> (d: JpegDecoder)
        ensures
            d.wf(),
            d.pos == 2,
            d.width == 0 && d.height == 0,
            d.mc_w == 0,
            d.dv() == init_view(),
    {
        let mut qtables: Vec<u16> = Vec::new();
        let mut i: usize = 0;
        while i < 256
            invariant
                i <= 256,
                qtables@.len() == i,
                forall|j: int| 0 <= j < i ==> #[trigger] qtables@[j] == 0u16,
            decreases 256 - i,
        {
            qtables.push(0);
            i = i + 1;
        }
        let mut dc_huff: Vec<Option<HuffmanTable>> = Vec::new();
        dc_huff.push(None);
        dc_huff.push(None);
        let mut ac_huff: Vec<Option<HuffmanTable>> = Vec::new();
        ac_huff.push(None);
        ac_huff.push(None);
        let mut components: Vec<Option<Component>> = Vec::new();
        components.push(None);
        components.push(None);
        components.push(None);
        let d = JpegDecoder { pos: 2, width: 0, height: 0, qtables, dc_huff, ac_huff, components, mc_w: 0, mc_h: 0 };
        proof {
            assert(d.qtables@ =~= Seq::new(256, |i: int| 0u16));
            assert(d.dv().dc =~= seq![None, None]);
            assert(d.dv().ac =~= seq![None, None]);
            assert(d.dv().comps =~= seq![None, None, None]);
            assert(d.dv() =~~= init_view());
        }
        d
    }

    fn read_u8(&mut self, data: &[u8]) -> (r: Option<u8>)
        ensures
            *final(self) == (JpegDecoder { pos: final(self).pos, ..*old(self) }),
            old(self).pos < data@.len() ==> r == Some(data@[old(self).pos as int]) && final(self).pos == old(
                self,
            ).pos + 1,
            old(self).pos >= data@.len() ==> r is None && final(self).pos == old(self).pos,
    {
        if self.pos < data.len() {
            let b = data[self.pos];
            self.pos = self.pos + 1;
            Some(b)
        } else {
            None
        }
    }

    fn read_u16(&mut self, data: &[u8]) -> (r: Option<u16>)
        ensures
            *final(self) == (JpegDecoder { pos: final(self).pos, ..*old(self) }),
            old(self).pos <= final(self).pos <= old(self).pos + 2,
            final(self).pos <= data@.len() || final(self).pos == old(self).pos,
            r is Some ==> final(self).pos == old(self).pos + 2,
            r is Some <==> old(self).pos + 2 <= data@.len(),
            r is None ==> final(self).pos >= data@.len(),
            r matches Some(v) ==> v == data@[old(self).pos as int] * 256 + data@[old(self).pos + 1],
    {
        let hi = match self.read_u8(data) {
            Some(b) => b,
            None => {
                return None;
            },
        };
        let lo = match self.read_u8(data) {
            Some(b) => b,
            None => {
                return None;
            },
        };
        Some((hi as u16) * 256 + lo as u16)
    }
}


/// A decoder's tables and frame as values: the frame size, the
/// quantisation tables, the DC and AC Huffman tables, the components and the
/// largest sampling factors (see `JpegDecoder`).
pub struct DecView {
    pub width: u16,
    pub height: u16,
    pub qtables: Seq<u16>,
    pub dc: Seq<Option<HuffView>>,
    pub ac: Seq<Option<HuffView>>,
    pub comps: Seq<Option<Component>>,
    pub mc_w: u8,
    pub mc_h: u8,
}

/// The contents of an optional table.
pub open spec fn opt_hv(t: Option<HuffmanTable>) -> Option<HuffView> {
    match t {
        Some(t) => Some(t.hv()),
        None => None,
    }
}

impl JpegDecoder {
    /// The decoder's tables and frame (see `DecView`).
    pub open spec fn dv(&self) -> DecView {
        DecView {
            width: self.width,
            height: self.height,
            qtables: self.qtables@,
            dc: self.dc_huff@.map_values(|t: Option<HuffmanTable>| opt_hv(t)),
            ac: self.ac_huff@.map_values(|t: Option<HuffmanTable>| opt_hv(t)),
            comps: self.components@,
            mc_w: self.mc_w,
            mc_h: self.mc_h,
        }
    }
}

/// Where the decoding of a scan stands: the luma and two chroma planes, the
/// running DC value of each component, and the bit reader.
pub struct ScanState {
    pub yp: Seq<u8>,
    pub cb: Seq<u8>,
    pub cr: Seq<u8>,
    pub dc: Seq<i64>,
    pub rd: BitReader,
}

/// MCU columns and rows of the decoder's frame.
pub open spec fn mcu_grid(dec: DecView) -> (int, int) {
    let mw = dec.mc_w as int * 8;
    let mh = dec.mc_h as int * 8;
    ((dec.width as int + mw - 1) / mw, (dec.height as int + mh - 1) / mh)
}

/// The state after block `(hb, vb)` of component `ci` in MCU `(mx, my)`,
/// decoded as `coeffs` with new DC value `dc` and reader `rd` after it: its
/// inverse transform drawn into the component's plane (see `drawn`,
/// `place_of`).
pub open spec fn put_block(
    dec: DecView,
    st: ScanState,
    c: Component,
    ci: int,
    mx: int,
    my: int,
    vb: int,
    hb: int,
    coeffs: Seq<i64>,
    dc: int,
    rd: BitReader,
) -> ScanState {
    let w = dec.width as int;
    let h = dec.height as int;
    let pl = place_of(mx, my, dec.mc_w as int, dec.mc_h as int, c.h as int, c.v as int, hb, vb);
    let sp = Seq::new(64, |k: int| idct_spec(coeffs)[k] as i64);
    ScanState {
        yp: if ci == 0 { drawn(st.yp, w, h, pl.0, pl.1, pl.2, pl.3, sp) } else { st.yp },
        cb: if ci == 1 { drawn(st.cb, w, h, pl.0, pl.1, pl.2, pl.3, sp) } else { st.cb },
        cr: if ci == 2 { drawn(st.cr, w, h, pl.0, pl.1, pl.2, pl.3, sp) } else { st.cr },
        dc: st.dc.update(ci, dc as i64),
        rd,
    }
}

/// Decoding block `(hb, vb)` of component `ci` (which is `c`) in MCU
/// `(mx, my)`: `None` when the component names a table out of range or
/// missing, or the block does not decode (see `block_spec`), else the state
/// with the block drawn (see `put_block`).
pub open spec fn block_step(
    dec: DecView,
    scan: Seq<u8>,
    st: ScanState,
    c: Component,
    ci: int,
    mx: int,
    my: int,
    vb: int,
    hb: int,
) -> Option<ScanState> {
    if c.dc >= 2 || c.ac >= 2 || c.qt >= 4 {
        None
    } else {
        match dec.dc[c.dc as int] {
            None => None,
            Some(dt) => match dec.ac[c.ac as int] {
                None => None,
                Some(at) => {
                    let q = dec.qtables.subrange(c.qt as int * 64, c.qt as int * 64 + 64);
                    match block_spec(dt, at, q, scan, st.rd, st.dc[ci] as int) {
                        None => None,
                        Some((b, d2, s)) => Some(put_block(dec, st, c, ci, mx, my, vb, hb, b, d2, s)),
                    }
                },
            },
        }
    }
}

/// The rest of a scan's decoding from block `(hb, vb)` of component `ci` in
/// MCU `(mx, my)` on: MCUs row by row, in each the three components in
/// turn, in each its blocks row by row; `None` as soon as a component is
/// missing or a block fails.
pub open spec fn scan_rest(
    dec: DecView,
    scan: Seq<u8>,
    st: ScanState,
    my: int,
    mx: int,
    ci: int,
    vb: int,
    hb: int,
) -> Option<ScanState>
    decreases
        (if my < mcu_grid(dec).1 { mcu_grid(dec).1 - my } else { 0 }),
        (if mx < mcu_grid(dec).0 { mcu_grid(dec).0 - mx } else { 0 }),
        (if ci < 3 { 3 - ci } else { 0 }),
        (if vb < 256 { 256 - vb } else { 0 }),
        (if hb < 256 { 256 - hb } else { 0 }),
{
    let (cols, rows) = mcu_grid(dec);
    if my < 0 || mx < 0 || ci < 0 || vb < 0 || hb < 0 || my >= rows {
        Some(st)
    } else if mx >= cols {
        scan_rest(dec, scan, st, my + 1, 0, 0, 0, 0)
    } else if ci >= 3 {
        scan_rest(dec, scan, st, my, mx + 1, 0, 0, 0)
    } else {
        match dec.comps[ci] {
            None => None,
            Some(c) => if vb >= c.v {
                scan_rest(dec, scan, st, my, mx, ci + 1, 0, 0)
            } else if hb >= c.h {
                scan_rest(dec, scan, st, my, mx, ci, vb + 1, 0)
            } else {
                match block_step(dec, scan, st, c, ci, mx, my, vb, hb) {
                    None => None,
                    Some(st2) => scan_rest(dec, scan, st2, my, mx, ci, vb, hb + 1),
                }
            },
        }
    }
}

/// What decoding the entropy-coded `scan` gives with the decoder's frame
/// and tables: `None` when the frame is larger than `MAX_PIXELS` or no
/// frame header set the sampling factors, or when the decoding fails (see
/// `scan_rest`); else the picture (see `bgra_image`) of the planes decoded
/// from all-zero planes, zero DC values and a reader at the start.
pub open spec fn scan_result(dec: DecView, scan: Seq<u8>) -> Option<Seq<u8>> {
    let w = dec.width as int;
    let h = dec.height as int;
    if w * h > MAX_PIXELS || dec.mc_w == 0 || dec.mc_h == 0 {
        None
    } else {
        let z = Seq::new((w * h) as nat, |i: int| 0u8);
        let st0 = ScanState {
            yp: z,
            cb: z,
            cr: z,
            dc: seq![0i64, 0i64, 0i64],
            rd: BitReader { pos: 0, bit_pos: -1i8, current_byte: 0 },
        };
        finish_scan(scan_rest(dec, scan, st0, 0, 0, 0, 0, 0), w, h)
    }
}

/// The picture of a finished scan (see `scan_rest`) of a `w * h` frame.
pub open spec fn finish_scan(r: Option<ScanState>, w: int, h: int) -> Option<Seq<u8>> {
    match r {
        None => None,
        Some(st) => Some(bgra_image(w, h, st.yp, st.cb, st.cr)),
    }
}

/// A block that decodes moves the scan on to the next block.
proof fn lemma_scan_step(
    dec: DecView,
    scan: Seq<u8>,
    before: ScanState,
    c: Component,
    ci: int,
    mx: int,
    my: int,
    vb: int,
    hb: int,
    after: ScanState,
)
    requires
        0 <= my < mcu_grid(dec).1,
        0 <= mx < mcu_grid(dec).0,
        0 <= ci < 3,
        dec.comps[ci] == Some(c),
        0 <= vb < c.v,
        0 <= hb < c.h,
        block_step(dec, scan, before, c, ci, mx, my, vb, hb) == Some(after),
    ensures
        scan_rest(dec, scan, before, my, mx, ci, vb, hb) == scan_rest(dec, scan, after, my, mx, ci, vb, hb + 1),
{
}

/// A block that does not decode ends the scan with nothing.
proof fn lemma_scan_fail(
    dec: DecView,
    scan: Seq<u8>,
    before: ScanState,
    c: Component,
    ci: int,
    mx: int,
    my: int,
    vb: int,
    hb: int,
)
    requires
        0 <= my < mcu_grid(dec).1,
        0 <= mx < mcu_grid(dec).0,
        0 <= ci < 3,
        dec.comps[ci] == Some(c),
        0 <= vb < c.v,
        0 <= hb < c.h,
        block_step(dec, scan, before, c, ci, mx, my, vb, hb) is None,
    ensures
        scan_rest(dec, scan, before, my, mx, ci, vb, hb) is None,
{
}

/// A scan state from its parts.
pub open spec fn scan_state(yp: Seq<u8>, cb: Seq<u8>, cr: Seq<u8>, dc: Seq<i64>, rd: BitReader) -> ScanState {
    ScanState { yp, cb, cr, dc, rd }
}

fn zeros(n: usize) -> (v: Vec<u8>)
    ensures
        v@.len() == n,
        v@ == Seq::new(n as nat, |i: int| 0u8),
{
    let mut v: Vec<u8> = Vec::new();
    let mut i: usize = 0;
    while i < n
        invariant
            i <= n,
            v@.len() == i,
            forall|j: int| 0 <= j < i ==> #[trigger] v@[j] == 0u8,
        decreases n - i,
    {
        v.push(0);
        i = i + 1;
    }
    assert(v@ =~= Seq::new(n as nat, |i: int| 0u8));
    v
}

impl JpegDecoder {
    /// Decodes the entropy-coded scan `scan` into the three planes and
    /// converts them to a picture (see `bgra_image`): MCU by MCU, each
    /// component's blocks are decoded, transformed and drawn into its
    /// plane. `None` when a component or table is missing or out of range,
    /// the frame is larger than `MAX_PIXELS`, or a block fails.
    pub fn decode_scan(&self, scan: &[u8]) -> (r: Option<Vec<u8>>)
        requires
            self.wf(),
        ensures
            r matches Some(img) ==> picture_of(img@, self.width as int, self.height as int),
            r is Some ==> self.mc_w > 0,
            match scan_result(self.dv(), scan@) {
                Some(img) => r matches Some(v) && v@ == img,
                None => r is None,
            },
    {
        let w = self.width as usize;
        let h = self.height as usize;
        if w > MAX_PIXELS || h > MAX_PIXELS {
            return None;
        }
        proof {
            assert(w * h <= 0xFFFF * 0xFFFF) by (nonlinear_arith)
                requires
                    w <= 0xFFFF,
                    h <= 0xFFFF,
            ;
        }
        if w * h > MAX_PIXELS {
            return None;
        }
        if self.mc_w == 0 || self.mc_h == 0 {
            return None;
        }
        let mcu_w = self.mc_w as usize * 8;
        let mcu_h = self.mc_h as usize * 8;
        let cols = (w + mcu_w - 1) / mcu_w;
        let rows = (h + mcu_h - 1) / mcu_h;
        proof {
            assert(cols <= 0x10000) by (nonlinear_arith)
                requires
                    cols == (w + mcu_w - 1) / mcu_w as int,
                    w <= 0xFFFF,
                    mcu_w >= 8,
            ;
            assert(rows <= 0x10000) by (nonlinear_arith)
                requires
                    rows == (h + mcu_h - 1) / mcu_h as int,
                    h <= 0xFFFF,
                    mcu_h >= 8,
            ;
        }
        let n = w * h;
        let mut yp = zeros(n);
        let mut cbp = zeros(n);
        let mut crp = zeros(n);
        let mut prev_dc: Vec<i64> = Vec::new();
        prev_dc.push(0);
        prev_dc.push(0);
        prev_dc.push(0);
        let mut rd = BitReader::new();
        let ghost z = Seq::new((w * h) as nat, |i: int| 0u8);
        let ghost st0 = ScanState {
            yp: z,
            cb: z,
            cr: z,
            dc: seq![0i64, 0i64, 0i64],
            rd: BitReader { pos: 0, bit_pos: -1i8, current_byte: 0 },
        };
        let ghost goal = scan_rest(self.dv(), scan@, st0, 0, 0, 0, 0, 0);
        proof {
            assert(scan_result(self.dv(), scan@) == finish_scan(goal, w as int, h as int));
            assert(prev_dc@ =~= seq![0i64, 0i64, 0i64]);
            assert(st0 == scan_state(yp@, cbp@, crp@, prev_dc@, rd));
            assert(cols == mcu_grid(self.dv()).0 && rows == mcu_grid(self.dv()).1);
        }
        let mut my: usize = 0;
        while my < rows
            invariant
                self.wf(),
                w == self.width,
                h == self.height,
                n == w * h,
                n <= MAX_PIXELS,
                1 <= self.mc_w <= 15,
                1 <= self.mc_h <= 15,
                rows <= 0x10000,
                cols <= 0x10000,
                yp@.len() == n && cbp@.len() == n && crp@.len() == n,
                prev_dc@.len() == 3,
                forall|i: int| 0 <= i < 3 ==> small(#[trigger] prev_dc@[i] as int, DC_LIMIT as int),
                rd.wf(scan@),
                cols == mcu_grid(self.dv()).0 && rows == mcu_grid(self.dv()).1,
                goal == scan_rest(self.dv(), scan@, scan_state(yp@, cbp@, crp@, prev_dc@, rd), my as int, 0, 0, 0, 0),
                scan_result(self.dv(), scan@) == finish_scan(goal, w as int, h as int),
            decreases rows - my,
        {
            let mut mx: usize = 0;
            while mx < cols
                invariant
                    self.wf(),
                    w == self.width,
                    h == self.height,
                    n == w * h,
                    n <= MAX_PIXELS,
                    1 <= self.mc_w <= 15,
                    1 <= self.mc_h <= 15,
                    my < rows <= 0x10000,
                    cols <= 0x10000,
                    yp@.len() == n && cbp@.len() == n && crp@.len() == n,
                    prev_dc@.len() == 3,
                    forall|i: int| 0 <= i < 3 ==> small(#[trigger] prev_dc@[i] as int, DC_LIMIT as int),
                    rd.wf(scan@),
                    cols == mcu_grid(self.dv()).0 && rows == mcu_grid(self.dv()).1,
                    goal == scan_rest(self.dv(), scan@, scan_state(yp@, cbp@, crp@, prev_dc@, rd), my as int, mx as int, 0, 0, 0),
                    scan_result(self.dv(), scan@) == finish_scan(goal, w as int, h as int),
                decreases cols - mx,
            {
                let mut ci: usize = 0;
                while ci < 3
                    invariant
                        self.wf(),
                        w == self.width,
                        h == self.height,
                        n == w * h,
                        n <= MAX_PIXELS,
                        1 <= self.mc_w <= 15,
                        1 <= self.mc_h <= 15,
                        my < rows <= 0x10000,
                        mx < cols <= 0x10000,
                        ci <= 3,
                        yp@.len() == n && cbp@.len() == n && crp@.len() == n,
                        prev_dc@.len() == 3,
                        forall|i: int| 0 <= i < 3 ==> small(#[trigger] prev_dc@[i] as int, DC_LIMIT as int),
                        rd.wf(scan@),
                        cols == mcu_grid(self.dv()).0 && rows == mcu_grid(self.dv()).1,
                        goal == scan_rest(self.dv(), scan@, scan_state(yp@, cbp@, crp@, prev_dc@, rd), my as int, mx as int, ci as int, 0, 0),
                        scan_result(self.dv(), scan@) == finish_scan(goal, w as int, h as int),
                    decreases 3 - ci,
                {
                    let comp = match self.components[ci] {
                        Some(c) => c,
                        None => {
                            proof {
                                let cur = scan_state(yp@, cbp@, crp@, prev_dc@, rd);
                                assert(scan_rest(self.dv(), scan@, cur, my as int, mx as int, ci as int, 0, 0) is None);
                            }
                            return None;
                        },
                    };
                    proof {
                        assert(self.components@[ci as int] matches Some(c) ==> c.h <= self.mc_w && c.v
                            <= self.mc_h);
                    }
                    let mut vb: u8 = 0;
                    while vb < comp.v
                        invariant
                            self.wf(),
                            w == self.width,
                            h == self.height,
                            n == w * h,
                            n <= MAX_PIXELS,
                            1 <= self.mc_w <= 15,
                            1 <= self.mc_h <= 15,
                            comp.h <= self.mc_w,
                            comp.v <= self.mc_h,
                            self.components@[ci as int] == Some(comp),
                            my < rows <= 0x10000,
                            mx < cols <= 0x10000,
                            ci < 3,
                            yp@.len() == n && cbp@.len() == n && crp@.len() == n,
                            prev_dc@.len() == 3,
                            forall|i: int| 0 <= i < 3 ==> small(#[trigger] prev_dc@[i] as int, DC_LIMIT as int),
                            rd.wf(scan@),
                            cols == mcu_grid(self.dv()).0 && rows == mcu_grid(self.dv()).1,
                            goal == scan_rest(self.dv(), scan@, scan_state(yp@, cbp@, crp@, prev_dc@, rd), my as int, mx as int, ci as int, vb as int, 0),
                            scan_result(self.dv(), scan@) == finish_scan(goal, w as int, h as int),
                        decreases comp.v - vb,
                    {
                        let mut hb: u8 = 0;
                        while hb < comp.h
                            invariant
                                self.wf(),
                                w == self.width,
                                h == self.height,
                                n == w * h,
                                n <= MAX_PIXELS,
                                1 <= self.mc_w <= 15,
                                1 <= self.mc_h <= 15,
                                comp.h <= self.mc_w,
                                comp.v <= self.mc_h,
                                self.components@[ci as int] == Some(comp),
                                vb < comp.v,
                                my < rows <= 0x10000,
                                mx < cols <= 0x10000,
                                ci < 3,
                                yp@.len() == n && cbp@.len() == n && crp@.len() == n,
                                prev_dc@.len() == 3,
                                forall|i: int|
                                    0 <= i < 3 ==> small(#[trigger] prev_dc@[i] as int, DC_LIMIT as int),
                                rd.wf(scan@),
                                cols == mcu_grid(self.dv()).0 && rows == mcu_grid(self.dv()).1,
                                goal == scan_rest(self.dv(), scan@, scan_state(yp@, cbp@, crp@, prev_dc@, rd), my as int, mx as int, ci as int, vb as int, hb as int),
                                scan_result(self.dv(), scan@) == finish_scan(goal, w as int, h as int),
                            decreases comp.h - hb,
                        {
                            let ghost cur0 = scan_state(yp@, cbp@, crp@, prev_dc@, rd);
                            if comp.dc >= 2 || comp.ac >= 2 || comp.qt >= 4 {
                                proof {
                                    lemma_scan_fail(self.dv(), scan@, cur0, comp, ci as int, mx as int, my as int, vb as int, hb as int);
                                }
                                return None;
                            }
                            let dc_t = match &self.dc_huff[comp.dc as usize] {
                                Some(t) => t,
                                None => {
                                    proof {
                                        lemma_scan_fail(self.dv(), scan@, cur0, comp, ci as int, mx as int, my as int, vb as int, hb as int);
                                    }
                                    return None;
                                },
                            };
                            let ac_t = match &self.ac_huff[comp.ac as usize] {
                                Some(t) => t,
                                None => {
                                    proof {
                                        lemma_scan_fail(self.dv(), scan@, cur0, comp, ci as int, mx as int, my as int, vb as int, hb as int);
                                    }
                                    return None;
                                },
                            };
                            assert(self.dc_huff@[comp.dc as int] == Some(*dc_t));
                            assert(self.dv().dc[comp.dc as int] == Some(dc_t.hv()));
                            assert(self.ac_huff@[comp.ac as int] == Some(*ac_t));
                            assert(self.dv().ac[comp.ac as int] == Some(ac_t.hv()));
                            proof {
                                assert(self.dc_huff@[comp.dc as int] matches Some(t) ==> t.wf());
                                assert(self.ac_huff@[comp.ac as int] matches Some(t) ==> t.wf());
                            }
                            let qs = comp.qt as usize * 64;
                            let q = vstd::slice::slice_subrange(self.qtables.as_slice(), qs, qs + 64);
                            let mut dc = prev_dc[ci];
                            let ghost rd0 = rd;
                            assert(q@ == self.dv().qtables.subrange(comp.qt as int * 64, comp.qt as int * 64 + 64));
                            let coeffs = match decode_block(dc_t, ac_t, q, scan, &mut rd, &mut dc) {
                                Some(b) => b,
                                None => {
                                    proof {
                                        lemma_scan_fail(self.dv(), scan@, cur0, comp, ci as int, mx as int, my as int, vb as int, hb as int);
                                    }
                                    return None;
                                },
                            };
                            let ghost before = cur0;
                            prev_dc.set(ci, dc);
                            let spatial = idct(coeffs.as_slice());
                            proof {
                                assert(spatial@ =~= Seq::new(64, |k: int| idct_spec(coeffs@)[k] as i64));
                            }
                            let hfac = self.mc_w as usize / comp.h as usize;
                            let vfac = self.mc_h as usize / comp.v as usize;
                            proof {
                                assert(1 <= hfac <= 15) by (nonlinear_arith)
                                    requires
                                        hfac == self.mc_w as int / comp.h as int,
                                        1 <= comp.h <= self.mc_w <= 15,
                                ;
                                assert(1 <= vfac <= 15) by (nonlinear_arith)
                                    requires
                                        vfac == self.mc_h as int / comp.v as int,
                                        1 <= comp.v <= self.mc_h <= 15,
                                ;
                                assert(mx * (self.mc_w as int) * 8 <= 0x10000 * 120) by (nonlinear_arith)
                                    requires
                                        mx < 0x10000,
                                        self.mc_w <= 15,
                                ;
                                assert(my * (self.mc_h as int) * 8 <= 0x10000 * 120) by (nonlinear_arith)
                                    requires
                                        my < 0x10000,
                                        self.mc_h <= 15,
                                ;
                                assert(hb as int * 8 * hfac <= 15 * 8 * 15) by (nonlinear_arith)
                                    requires
                                        hb < 15,
                                        hfac <= 15,
                                ;
                                assert(vb as int * 8 * vfac <= 15 * 8 * 15) by (nonlinear_arith)
                                    requires
                                        vb < 15,
                                        vfac <= 15,
                                ;
                            }
                            let x_off = mx * (self.mc_w as usize) * 8 + hb as usize * 8 * hfac;
                            let y_off = my * (self.mc_h as usize) * 8 + vb as usize * 8 * vfac;
                            if ci == 0 {
                                render_block(&mut yp, w, h, x_off, y_off, hfac, vfac, spatial.as_slice());
                            } else if ci == 1 {
                                render_block(&mut cbp, w, h, x_off, y_off, hfac, vfac, spatial.as_slice());
                            } else {
                                render_block(&mut crp, w, h, x_off, y_off, hfac, vfac, spatial.as_slice());
                            }
                            proof {
                                let c = comp;
                                assert((x_off as int, y_off as int, hfac as int, vfac as int) == place_of(
                                    mx as int,
                                    my as int,
                                    self.mc_w as int,
                                    self.mc_h as int,
                                    c.h as int,
                                    c.v as int,
                                    hb as int,
                                    vb as int,
                                ));
                                assert(scan_state(yp@, cbp@, crp@, prev_dc@, rd) == put_block(
                                    self.dv(),
                                    before,
                                    c,
                                    ci as int,
                                    mx as int,
                                    my as int,
                                    vb as int,
                                    hb as int,
                                    coeffs@,
                                    dc as int,
                                    rd,
                                ));
                                assert(block_step(self.dv(), scan@, before, c, ci as int, mx as int, my as int, vb as int, hb as int)
                                    == Some(scan_state(yp@, cbp@, crp@, prev_dc@, rd)));
                                lemma_scan_step(
                                    self.dv(),
                                    scan@,
                                    before,
                                    c,
                                    ci as int,
                                    mx as int,
                                    my as int,
                                    vb as int,
                                    hb as int,
                                    scan_state(yp@, cbp@, crp@, prev_dc@, rd),
                                );
                            }
                            hb = hb + 1;
                        }
                        proof {
                            let cur = scan_state(yp@, cbp@, crp@, prev_dc@, rd);
                            assert(scan_rest(self.dv(), scan@, cur, my as int, mx as int, ci as int, vb as int, hb as int)
                                == scan_rest(self.dv(), scan@, cur, my as int, mx as int, ci as int, vb + 1, 0));
                        }
                        vb = vb + 1;
                    }
                    proof {
                        let cur = scan_state(yp@, cbp@, crp@, prev_dc@, rd);
                        assert(scan_rest(self.dv(), scan@, cur, my as int, mx as int, ci as int, vb as int, 0)
                            == scan_rest(self.dv(), scan@, cur, my as int, mx as int, ci + 1, 0, 0));
                    }
                    ci = ci + 1;
                }
                proof {
                    let cur = scan_state(yp@, cbp@, crp@, prev_dc@, rd);
                    assert(scan_rest(self.dv(), scan@, cur, my as int, mx as int, 3, 0, 0)
                        == scan_rest(self.dv(), scan@, cur, my as int, mx + 1, 0, 0, 0));
                }
                mx = mx + 1;
            }
            proof {
                let cur = scan_state(yp@, cbp@, crp@, prev_dc@, rd);
                assert(scan_rest(self.dv(), scan@, cur, my as int, mx as int, 0, 0, 0)
                    == scan_rest(self.dv(), scan@, cur, my + 1, 0, 0, 0, 0));
            }
            my = my + 1;
        }
        proof {
            let cur = scan_state(yp@, cbp@, crp@, prev_dc@, rd);
            assert(scan_rest(self.dv(), scan@, cur, my as int, 0, 0, 0, 0) == Some(cur));
        }
        let img = planes_to_bgra(w, h, yp.as_slice(), cbp.as_slice(), crp.as_slice());
        proof {
            assert(img@ == bgra_image(w as int, h as int, yp@, cbp@, crp@));
        }
        Some(img)
    }
}


/// The quantisation table `id` of `q` after its 64 entries from position
/// `i` on are read from `d` at `s` (in zig-zag order).
pub open spec fn qt_fill(q: Seq<u16>, id: int, d: Seq<u8>, s: int, i: int) -> Seq<u16>
    decreases 64 - i,
{
    if i < 0 || i >= 64 {
        q
    } else {
        qt_fill(q.update(id * 64 + zigzag_spec()[i], d[s + i] as u16), id, d, s, i + 1)
    }
}

/// The quantisation tables of a segment from `p` up to `end`, each a byte
/// naming it (low four bits, below 4) and 64 entries; the tables and where
/// reading stops, or `None` when the data ends first or a name is out of
/// range.
pub open spec fn dqt_tables(d: Seq<u8>, p: int, end: int, q: Seq<u16>) -> Option<(Seq<u16>, int)>
    decreases (if p < end { end - p } else { 0 }),
{
    if p < 0 || p >= end {
        Some((q, p))
    } else if p + 65 > d.len() {
        None
    } else if d[p] % 16 >= 4 {
        None
    } else {
        dqt_tables(d, p + 65, end, qt_fill(q, (d[p] % 16) as int, d, p + 1, 0))
    }
}

/// A quantisation-table segment at `p` (after its marker): its two-byte
/// length, then the tables (see `dqt_tables`).
pub open spec fn dqt_spec(d: Seq<u8>, p: int, v: DecView) -> Option<(DecView, int)> {
    if p < 0 || p + 2 > d.len() {
        None
    } else {
        let l = d[p] * 256 + d[p + 1];
        if l < 2 {
            None
        } else {
            match dqt_tables(d, p + 2, p + l, v.qtables) {
                None => None,
                Some((q, p2)) => Some((DecView { qtables: q, ..v }, p2)),
            }
        }
    }
}

/// The components of a frame header from `p` on, `k` of `n` read: each an
/// id (1 to 3), sampling factors (high and low four bits) and a table
/// number; the largest factors grow to take them in.
pub open spec fn sof_comps(d: Seq<u8>, p: int, n: int, k: int, v: DecView) -> Option<(DecView, int)>
    decreases n - k,
{
    if k < 0 || k >= n {
        Some((v, p))
    } else if p < 0 || p + 3 > d.len() {
        None
    } else if d[p] == 0 || d[p] > 3 {
        None
    } else {
        let h = d[p + 1] / 16;
        let vs = d[p + 1] % 16;
        let v2 = DecView {
            mc_w: if h > v.mc_w { h } else { v.mc_w },
            mc_h: if vs > v.mc_h { vs } else { v.mc_h },
            comps: v.comps.update(d[p] - 1, Some(Component { h, v: vs, qt: d[p + 2], dc: 0, ac: 0 })),
            ..v
        };
        sof_comps(d, p + 3, n, k + 1, v2)
    }
}

/// A frame header at `p` (after its marker): length, precision, height,
/// width, the number of components and the components (see `sof_comps`).
pub open spec fn sof_spec(d: Seq<u8>, p: int, v: DecView) -> Option<(DecView, int)> {
    if p < 0 || p + 8 > d.len() {
        None
    } else {
        let v2 = DecView {
            height: (d[p + 3] * 256 + d[p + 4]) as u16,
            width: (d[p + 5] * 256 + d[p + 6]) as u16,
            ..v
        };
        sof_comps(d, p + 8, d[p + 7] as int, 0, v2)
    }
}

/// The sum of some bytes.
pub open spec fn sum_bytes(s: Seq<u8>) -> int
    decreases s.len(),
{
    if s.len() == 0 {
        0
    } else {
        sum_bytes(s.drop_last()) + s.last()
    }
}

/// The Huffman tables of a segment from `p` up to `end`: each a byte giving
/// its class (high four bits, 0 for DC) and number (low four bits, 0 or
/// 1), 16 code counts, and as many values as they add up to (at most 256).
pub open spec fn dht_tables(d: Seq<u8>, p: int, end: int, v: DecView) -> Option<(DecView, int)>
    decreases (if p < end { end - p } else { 0 }),
{
    if p < 0 || p >= end {
        Some((v, p))
    } else if p + 17 > d.len() {
        None
    } else {
        let bits = d.subrange(p + 1, p + 17);
        let count = sum_bytes(bits);
        proof {
            lemma_sum_bytes_nonneg(bits);
        }
        if count > 256 || p + 17 + count > d.len() {
            None
        } else if d[p] % 16 >= 2 {
            None
        } else {
            let t = huff_view_of(bits, d.subrange(p + 17, p + 17 + count));
            let idx = (d[p] % 16) as int;
            let v2 = if d[p] / 16 == 0 {
                DecView { dc: v.dc.update(idx, Some(t)), ..v }
            } else {
                DecView { ac: v.ac.update(idx, Some(t)), ..v }
            };
            dht_tables(d, p + 17 + count, end, v2)
        }
    }
}

/// A Huffman-table segment at `p` (after its marker): its two-byte length,
/// then the tables (see `dht_tables`).
pub open spec fn dht_spec(d: Seq<u8>, p: int, v: DecView) -> Option<(DecView, int)> {
    if p < 0 || p + 2 > d.len() {
        None
    } else {
        let l = d[p] * 256 + d[p + 1];
        if l < 2 {
            None
        } else {
            dht_tables(d, p + 2, p + l, v)
        }
    }
}

/// The components of a scan header from `p` on, `k` of `n` read: each an id
/// (1 to 3) and its DC and AC table numbers (high and low four bits), which
/// a component the frame declared takes.
pub open spec fn sos_comps(d: Seq<u8>, p: int, n: int, k: int, v: DecView) -> Option<(DecView, int)>
    decreases n - k,
{
    if k < 0 || k >= n {
        Some((v, p))
    } else if p < 0 || p + 2 > d.len() {
        None
    } else if d[p] == 0 || d[p] > 3 {
        None
    } else {
        let i = d[p] - 1;
        let t = d[p + 1];
        let v2 = match v.comps[i] {
            Some(c) => DecView { comps: v.comps.update(i, Some(Component { dc: t / 16, ac: t % 16, ..c })), ..v },
            None => v,
        };
        sos_comps(d, p + 2, n, k + 1, v2)
    }
}

/// A scan header at `p` (after its marker): length, the number of
/// components, the components (see `sos_comps`), and three bytes skipped.
pub open spec fn sos_spec(d: Seq<u8>, p: int, v: DecView) -> Option<(DecView, int)> {
    if p < 0 || p + 3 > d.len() {
        None
    } else {
        match sos_comps(d, p + 3, d[p + 2] as int, 0, v) {
            None => None,
            Some((v2, q)) => Some((v2, q + 3)),
        }
    }
}

/// Reading a segment never goes back.
pub proof fn lemma_segment_forward(d: Seq<u8>, p: int, v: DecView)
    ensures
        dqt_spec(d, p, v) matches Some((_, q)) ==> q >= p,
        sof_spec(d, p, v) matches Some((_, q)) ==> q >= p,
        dht_spec(d, p, v) matches Some((_, q)) ==> q >= p,
        sos_spec(d, p, v) matches Some((_, q)) ==> q >= p,
{
    if p >= 0 && p + 2 <= d.len() {
        let l = d[p] * 256 + d[p + 1];
        if l >= 2 {
            lemma_dqt_forward(d, p + 2, p + l, v.qtables);
            lemma_dht_forward(d, p + 2, p + l, v);
        }
    }
    if p >= 0 && p + 8 <= d.len() {
        let v2 = DecView {
            height: (d[p + 3] * 256 + d[p + 4]) as u16,
            width: (d[p + 5] * 256 + d[p + 6]) as u16,
            ..v
        };
        lemma_sof_forward(d, p + 8, d[p + 7] as int, 0, v2);
    }
    if p >= 0 && p + 3 <= d.len() {
        lemma_sos_forward(d, p + 3, d[p + 2] as int, 0, v);
    }
}

proof fn lemma_dqt_forward(d: Seq<u8>, p: int, end: int, q: Seq<u16>)
    ensures
        dqt_tables(d, p, end, q) matches Some((_, p2)) ==> p2 >= p,
    decreases (if p < end { end - p } else { 0 }),
{
    if p >= 0 && p < end && p + 65 <= d.len() && d[p] % 16 < 4 {
        lemma_dqt_forward(d, p + 65, end, qt_fill(q, (d[p] % 16) as int, d, p + 1, 0));
    }
}

proof fn lemma_dht_forward(d: Seq<u8>, p: int, end: int, v: DecView)
    ensures
        dht_tables(d, p, end, v) matches Some((_, p2)) ==> p2 >= p,
    decreases (if p < end { end - p } else { 0 }),
{
    if p >= 0 && p < end && p + 17 <= d.len() {
        let bits = d.subrange(p + 1, p + 17);
        let count = sum_bytes(bits);
        lemma_sum_bytes_nonneg(bits);
        if count <= 256 && p + 17 + count <= d.len() && d[p] % 16 < 2 {
            let t = huff_view_of(bits, d.subrange(p + 17, p + 17 + count));
            let idx = (d[p] % 16) as int;
            let v2 = if d[p] / 16 == 0 {
                DecView { dc: v.dc.update(idx, Some(t)), ..v }
            } else {
                DecView { ac: v.ac.update(idx, Some(t)), ..v }
            };
            lemma_dht_forward(d, p + 17 + count, end, v2);
        }
    }
}

/// Code counts add up to at most 255 each.
pub proof fn lemma_sum_bytes_nonneg(s: Seq<u8>)
    ensures
        0 <= sum_bytes(s) <= 255 * s.len(),
    decreases s.len(),
{
    if s.len() > 0 {
        lemma_sum_bytes_nonneg(s.drop_last());
    }
}

proof fn lemma_sof_forward(d: Seq<u8>, p: int, n: int, k: int, v: DecView)
    ensures
        sof_comps(d, p, n, k, v) matches Some((_, p2)) ==> p2 >= p,
    decreases n - k,
{
    if 0 <= k < n && p >= 0 && p + 3 <= d.len() && !(d[p] == 0 || d[p] > 3) {
        let h = d[p + 1] / 16;
        let vs = d[p + 1] % 16;
        let v2 = DecView {
            mc_w: if h > v.mc_w { h } else { v.mc_w },
            mc_h: if vs > v.mc_h { vs } else { v.mc_h },
            comps: v.comps.update(d[p] - 1, Some(Component { h, v: vs, qt: d[p + 2], dc: 0, ac: 0 })),
            ..v
        };
        lemma_sof_forward(d, p + 3, n, k + 1, v2);
    }
}

proof fn lemma_sos_forward(d: Seq<u8>, p: int, n: int, k: int, v: DecView)
    ensures
        sos_comps(d, p, n, k, v) matches Some((_, p2)) ==> p2 >= p,
    decreases n - k,
{
    if 0 <= k < n && p >= 0 && p + 2 <= d.len() && !(d[p] == 0 || d[p] > 3) {
        let i = d[p] - 1;
        let t = d[p + 1];
        let v2 = match v.comps[i] {
            Some(c) => DecView { comps: v.comps.update(i, Some(Component { dc: t / 16, ac: t % 16, ..c })), ..v },
            None => v,
        };
        lemma_sos_forward(d, p + 2, n, k + 1, v2);
    }
}

/// How reading a stream's segments ends: the data ends first or a segment
/// is malformed, an end-of-image marker comes before any scan, or a scan
/// header is read, leaving the decoder's tables and frame and where the
/// scan's data starts.
pub enum ParseEnd {
    Fail,
    Eoi,
    Scan(DecView, int),
}

/// Reading a stream's segments from `p` with tables and frame `v`: bytes
/// before a `0xFF` are skipped; quantisation tables, frame headers (`C0`
/// to `C2`), Huffman tables and the scan header are read (see `dqt_spec`,
/// `sof_spec`, `dht_spec`, `sos_spec`); an end-of-image marker ends it;
/// other segments are skipped by their two-byte length (at least 2).
pub open spec fn parse_spec(d: Seq<u8>, p: int, v: DecView) -> ParseEnd
    decreases (if p < d.len() { d.len() - p } else { 0 }),
{
    if p < 0 || p >= d.len() {
        ParseEnd::Fail
    } else if d[p] != 0xFF {
        parse_spec(d, p + 1, v)
    } else if p + 1 >= d.len() {
        ParseEnd::Fail
    } else {
        let m = d[p + 1];
        let q = p + 2;
        proof {
            lemma_segment_forward(d, q, v);
        }
        if m == 0xDB {
            match dqt_spec(d, q, v) {
                None => ParseEnd::Fail,
                Some((v2, q2)) => parse_spec(d, q2, v2),
            }
        } else if 0xC0 <= m <= 0xC2 {
            match sof_spec(d, q, v) {
                None => ParseEnd::Fail,
                Some((v2, q2)) => parse_spec(d, q2, v2),
            }
        } else if m == 0xC4 {
            match dht_spec(d, q, v) {
                None => ParseEnd::Fail,
                Some((v2, q2)) => parse_spec(d, q2, v2),
            }
        } else if m == 0xDA {
            match sos_spec(d, q, v) {
                None => ParseEnd::Fail,
                Some((v2, q2)) => if q2 > d.len() {
                    ParseEnd::Fail
                } else {
                    ParseEnd::Scan(v2, q2)
                },
            }
        } else if m == 0xD9 {
            ParseEnd::Eoi
        } else if q + 2 > d.len() {
            ParseEnd::Fail
        } else {
            let l = d[q] * 256 + d[q + 1];
            if l < 2 {
                ParseEnd::Fail
            } else {
                parse_spec(d, q + l, v)
            }
        }
    }
}

/// A fresh decoder's tables and frame: all quantisation entries zero, no
/// Huffman tables, no components, no frame.
pub open spec fn init_view() -> DecView {
    DecView {
        width: 0,
        height: 0,
        qtables: Seq::new(256, |i: int| 0u16),
        dc: seq![None, None],
        ac: seq![None, None],
        comps: seq![None, None, None],
        mc_w: 0,
        mc_h: 0,
    }
}

/// What decoding a JPEG stream `d` gives (see `decode_jpeg`): `None` when
/// it does not start with `FF D8`; else, reading its segments from byte 2
/// (see `parse_spec`), `None` when that fails, no pixels at an end-of-image
/// marker, and the decoded scan (see `scan_result`) after a scan header.
pub open spec fn jpeg_result(d: Seq<u8>) -> Option<Seq<u8>> {
    if !(d.len() >= 2 && d[0] == 0xFF && d[1] == 0xD8) {
        None
    } else {
        match parse_spec(d, 2, init_view()) {
            ParseEnd::Fail => None,
            ParseEnd::Eoi => Some(Seq::empty()),
            ParseEnd::Scan(v, q) => scan_result(v, d.subrange(q, d.len() as int)),
        }
    }
}

impl JpegDecoder {
    /// A quantisation-table segment: tables of 64 bytes in zig-zag order,
    /// each after a byte whose low four bits name it (0 to 3).
    fn read_dqt(&mut self, data: &[u8]) -> (ok: bool)
        requires
            old(self).wf(),
            old(self).pos <= data@.len(),
            data@.len() + 0x20000 <= usize::MAX,
        ensures
            final(self).wf(),
            old(self).pos <= final(self).pos <= data@.len() + 0x10000,
            final(self).width == old(self).width && final(self).height == old(self).height,
            final(self).mc_w == old(self).mc_w,
            match dqt_spec(data@, old(self).pos as int, old(self).dv()) {
                None => !ok,
                Some((v, q)) => ok && final(self).dv() == v && final(self).pos == q,
            },
    {
        let ghost ps = self.pos as int;
        let l = match self.read_u16(data) {
            Some(v) => v as usize,
            None => {
                return false;
            },
        };
        if l < 2 {
            return false;
        }
        let end = self.pos + l - 2;
        let ghost goal = dqt_tables(data@, ps + 2, end as int, old(self).qtables@);
        while self.pos < end
            invariant
                ps == old(self).pos,
                goal == dqt_tables(data@, self.pos as int, end as int, self.qtables@),
                dqt_spec(data@, ps, old(self).dv()) == match goal {
                    None => None,
                    Some((q, p2)) => Some((DecView { qtables: q, ..old(self).dv() }, p2)),
                },
                self.dc_huff == old(self).dc_huff,
                self.ac_huff == old(self).ac_huff,
                self.components == old(self).components,
                self.mc_h == old(self).mc_h,
                self.mc_w == old(self).mc_w,
                self.wf(),
                self.pos <= data@.len(),
                old(self).pos <= self.pos,
                end <= data@.len() + 0x10000,
                data@.len() + 0x20000 <= usize::MAX,
                self.width == old(self).width && self.height == old(self).height,
            decreases (if self.pos < end { end - self.pos } else { 0 }),
        {
            let ghost p0 = self.pos;
            let info = match self.read_u8(data) {
                Some(b) => b,
                None => {
                    return false;
                },
            };
            let id = (info % 16) as usize;
            if id >= 4 {
                return false;
            }
            let ghost q0 = self.qtables@;
            let ghost fill = qt_fill(q0, id as int, data@, p0 + 1, 0);
            let mut i: usize = 0;
            while i < 64
                invariant
                    fill == qt_fill(self.qtables@, id as int, data@, p0 + 1, i as int),
                    goal == dqt_tables(data@, p0 as int, end as int, q0),
                    dqt_spec(data@, ps, old(self).dv()) == match goal {
                        None => None,
                        Some((q, p2)) => Some((DecView { qtables: q, ..old(self).dv() }, p2)),
                    },
                    p0 < end,
                    ps == old(self).pos,
                    id == data@[p0 as int] % 16,
                    self.pos == p0 + 1 + i,
                    self.qtables@.len() == 256,
                    self.dc_huff == old(self).dc_huff,
                    self.ac_huff == old(self).ac_huff,
                    self.components == old(self).components,
                    self.mc_h == old(self).mc_h,
                    self.mc_w == old(self).mc_w,
                    self.wf(),
                    self.pos <= data@.len(),
                    old(self).pos <= self.pos,
                    p0 < self.pos,
                    id < 4,
                    i <= 64,
                    self.width == old(self).width && self.height == old(self).height,
                decreases 64 - i,
            {
                let v = match self.read_u8(data) {
                    Some(b) => b,
                    None => {
                        proof {
                            assert(p0 + 65 > data@.len());
                            assert(dqt_tables(data@, p0 as int, end as int, q0) is None);
                        }
                        return false;
                    },
                };
                let z = zigzag(i);
                self.qtables.set(id * 64 + z, v as u16);
                i = i + 1;
            }
            proof {
                assert(self.dv() =~~= DecView { qtables: self.qtables@, ..old(self).dv() });
            }
        }
        proof {
            assert(self.dv() =~~= DecView { qtables: self.qtables@, ..old(self).dv() });
        }
        true
    }

    /// A frame header: precision, height, width and the components, each an
    /// id (1 to 3), sampling factors (four bits each) and a table number.
    fn read_sof(&mut self, data: &[u8]) -> (ok: bool)
        requires
            old(self).wf(),
            old(self).pos <= data@.len(),
            data@.len() + 0x20000 <= usize::MAX,
        ensures
            final(self).wf(),
            old(self).pos <= final(self).pos <= data@.len() + 0x10000,
            ok ==> {
                let p = old(self).pos as int;
                &&& p + 7 <= data@.len()
                &&& final(self).height == data@[p + 3] * 256 + data@[p + 4]
                &&& final(self).width == data@[p + 5] * 256 + data@[p + 6]
            },
            match sof_spec(data@, old(self).pos as int, old(self).dv()) {
                None => !ok,
                Some((v, q)) => ok && final(self).dv() == v && final(self).pos == q,
            },
    {
        let ghost p0 = self.pos as int;
        match self.read_u16(data) {
            Some(_) => {},
            None => {
                return false;
            },
        }
        self.pos = self.pos + 1;
        let hgt = match self.read_u16(data) {
            Some(v) => v,
            None => {
                return false;
            },
        };
        self.height = hgt;
        let wid = match self.read_u16(data) {
            Some(v) => v,
            None => {
                return false;
            },
        };
        self.width = wid;
        let n = match self.read_u8(data) {
            Some(v) => v,
            None => {
                return false;
            },
        };
        let ghost goal = sof_comps(data@, p0 + 8, n as int, 0, self.dv());
        proof {
            assert(self.dv() =~~= DecView {
                height: (data@[p0 + 3] * 256 + data@[p0 + 4]) as u16,
                width: (data@[p0 + 5] * 256 + data@[p0 + 6]) as u16,
                ..old(self).dv()
            });
            assert(sof_spec(data@, p0, old(self).dv()) == goal);
        }
        let mut k: u8 = 0;
        while k < n
            invariant
                goal == sof_comps(data@, self.pos as int, n as int, k as int, self.dv()),
                p0 == old(self).pos,
                sof_spec(data@, p0, old(self).dv()) == goal,
                self.qtables == old(self).qtables,
                self.dc_huff == old(self).dc_huff,
                self.ac_huff == old(self).ac_huff,
                self.wf(),
                self.pos <= data@.len(),
                old(self).pos <= self.pos,
                k <= n,
                self.width == wid && self.height == hgt,
            decreases n - k,
        {
            let id = match self.read_u8(data) {
                Some(v) => v,
                None => {
                    return false;
                },
            };
            let sf = match self.read_u8(data) {
                Some(v) => v,
                None => {
                    return false;
                },
            };
            let q = match self.read_u8(data) {
                Some(v) => v,
                None => {
                    return false;
                },
            };
            if id == 0 || id > 3 {
                return false;
            }
            let ghost before = self.dv();
            let h = sf / 16;
            let v = sf % 16;
            if h > self.mc_w {
                self.mc_w = h;
            }
            if v > self.mc_h {
                self.mc_h = v;
            }
            self.components.set((id - 1) as usize, Some(Component { h, v, qt: q, dc: 0, ac: 0 }));
            proof {
                assert(self.dv() =~~= DecView {
                    mc_w: if h > before.mc_w { h } else { before.mc_w },
                    mc_h: if v > before.mc_h { v } else { before.mc_h },
                    comps: before.comps.update(id - 1, Some(Component { h, v, qt: q, dc: 0, ac: 0 })),
                    ..before
                });
            }
            k = k + 1;
        }
        true
    }

    /// A Huffman-table segment: tables, each after a byte holding its class
    /// (high four bits: 0 for DC) and number (low four bits, 0 or 1), as 16
    /// code counts and then the values (at most 256).
    fn read_dht(&mut self, data: &[u8]) -> (ok: bool)
        requires
            old(self).wf(),
            old(self).pos <= data@.len(),
            data@.len() + 0x20000 <= usize::MAX,
        ensures
            final(self).wf(),
            old(self).pos <= final(self).pos <= data@.len() + 0x10000,
            final(self).width == old(self).width && final(self).height == old(self).height,
            final(self).mc_w == old(self).mc_w,
            match dht_spec(data@, old(self).pos as int, old(self).dv()) {
                None => !ok,
                Some((v, q)) => ok && final(self).dv() == v && final(self).pos == q,
            },
    {
        let ghost ps = self.pos as int;
        let l = match self.read_u16(data) {
            Some(v) => v as usize,
            None => {
                return false;
            },
        };
        if l < 2 {
            return false;
        }
        let end = self.pos + l - 2;
        let ghost goal = dht_tables(data@, ps + 2, end as int, old(self).dv());
        while self.pos < end
            invariant
                ps == old(self).pos,
                goal == dht_tables(data@, self.pos as int, end as int, self.dv()),
                dht_spec(data@, ps, old(self).dv()) == goal,
                self.mc_w == old(self).mc_w,
                self.wf(),
                self.pos <= data@.len(),
                old(self).pos <= self.pos,
                end <= data@.len() + 0x10000,
                self.width == old(self).width && self.height == old(self).height,
            decreases (if self.pos < end { end - self.pos } else { 0 }),
        {
            let ghost p0 = self.pos;
            let info = match self.read_u8(data) {
                Some(b) => b,
                None => {
                    return false;
                },
            };
            let ghost before = self.dv();
            let mut bits: Vec<u8> = Vec::new();
            let mut count: usize = 0;
            let mut i: usize = 0;
            while i < 16
                invariant
                    ps == old(self).pos,
                    goal == dht_tables(data@, p0 as int, end as int, before),
                    dht_spec(data@, ps, old(self).dv()) == goal,
                    p0 < end,
                    info == data@[p0 as int],
                    self.dv() == before,
                    bits@ == data@.subrange(p0 + 1, p0 + 1 + i),
                    count == sum_bytes(bits@),
                    self.pos == p0 + 1 + i,
                    self.mc_w == old(self).mc_w,
                    self.wf(),
                    self.pos <= data@.len(),
                    old(self).pos <= self.pos,
                    p0 < self.pos,
                    i <= 16,
                    bits@.len() == i,
                    count <= 255 * i,
                    self.width == old(self).width && self.height == old(self).height,
                decreases 16 - i,
            {
                let b = match self.read_u8(data) {
                    Some(v) => v,
                    None => {
                        proof {
                            assert(dht_tables(data@, p0 as int, end as int, before) is None);
                        }
                        return false;
                    },
                };
                proof {
                    assert(bits@.push(b).drop_last() =~= bits@);
                    assert(data@.subrange(p0 + 1, p0 + 2 + i) =~= data@.subrange(p0 + 1, p0 + 1 + i).push(b));
                }
                bits.push(b);
                count = count + b as usize;
                i = i + 1;
            }
            proof {
                lemma_sum_bytes_nonneg(bits@);
            }
            if count > 256 {
                return false;
            }
            let mut vals: Vec<u8> = Vec::new();
            let mut j: usize = 0;
            while j < count
                invariant
                    ps == old(self).pos,
                    goal == dht_tables(data@, p0 as int, end as int, before),
                    dht_spec(data@, ps, old(self).dv()) == goal,
                    p0 < end,
                    info == data@[p0 as int],
                    self.dv() == before,
                    bits@ == data@.subrange(p0 + 1, p0 + 17),
                    count == sum_bytes(bits@),
                    vals@ == data@.subrange(p0 + 17, p0 + 17 + j),
                    self.pos == p0 + 17 + j,
                    self.mc_w == old(self).mc_w,
                    self.wf(),
                    self.pos <= data@.len(),
                    old(self).pos <= self.pos,
                    p0 < self.pos,
                    j <= count <= 256,
                    vals@.len() == j,
                    self.width == old(self).width && self.height == old(self).height,
                decreases count - j,
            {
                let v = match self.read_u8(data) {
                    Some(b) => b,
                    None => {
                        proof {
                            assert(dht_tables(data@, p0 as int, end as int, before) is None);
                        }
                        return false;
                    },
                };
                proof {
                    assert(data@.subrange(p0 + 17, p0 + 18 + j) =~= data@.subrange(p0 + 17, p0 + 17 + j).push(v));
                }
                vals.push(v);
                j = j + 1;
            }
            let tab = HuffmanTable::new(bits.as_slice(), vals.as_slice());
            proof {
                lemma_built_view(tab, bits@, vals@);
            }
            let idx = (info % 16) as usize;
            if idx >= 2 {
                return false;
            }
            let ghost t = tab.hv();
            if info / 16 == 0 {
                let ghost old_t = self.dc_huff@;
                assert(before.dc == old_t.map_values(|x: Option<HuffmanTable>| opt_hv(x)));
                self.dc_huff.set(idx, Some(tab));
                proof {
                    assert(self.dv().dc =~= before.dc.update(idx as int, Some(t))) by {
                        assert forall|k: int| 0 <= k < self.dv().dc.len() implies self.dv().dc[k] == before.dc.update(
                            idx as int,
                            Some(t),
                        )[k] by {
                            if k != idx {
                                assert(self.dc_huff@[k] == old_t[k]);
                            }
                        }
                    }
                    assert(self.dv() =~~= DecView { dc: before.dc.update(idx as int, Some(t)), ..before });
                }
            } else {
                let ghost old_t = self.ac_huff@;
                assert(before.ac == old_t.map_values(|x: Option<HuffmanTable>| opt_hv(x)));
                self.ac_huff.set(idx, Some(tab));
                proof {
                    assert(self.dv().ac =~= before.ac.update(idx as int, Some(t))) by {
                        assert forall|k: int| 0 <= k < self.dv().ac.len() implies self.dv().ac[k] == before.ac.update(
                            idx as int,
                            Some(t),
                        )[k] by {
                            if k != idx {
                                assert(self.ac_huff@[k] == old_t[k]);
                            }
                        }
                    }
                    assert(self.dv() =~~= DecView { ac: before.ac.update(idx as int, Some(t)), ..before });
                }
            }
        }
        true
    }

    /// A scan header: for each component id (1 to 3) its DC and AC table
    /// numbers (high and low four bits); then three bytes are skipped.
    fn read_sos(&mut self, data: &[u8]) -> (ok: bool)
        requires
            old(self).wf(),
            old(self).pos <= data@.len(),
            data@.len() + 0x20000 <= usize::MAX,
        ensures
            final(self).wf(),
            old(self).pos <= final(self).pos <= data@.len() + 0x10000,
            final(self).width == old(self).width && final(self).height == old(self).height,
            final(self).mc_w == old(self).mc_w,
            match sos_spec(data@, old(self).pos as int, old(self).dv()) {
                None => !ok,
                Some((v, q)) => ok && final(self).dv() == v && final(self).pos == q,
            },
    {
        let ghost p0 = self.pos as int;
        match self.read_u16(data) {
            Some(_) => {},
            None => {
                return false;
            },
        }
        let n = match self.read_u8(data) {
            Some(v) => v,
            None => {
                return false;
            },
        };
        let ghost goal = sos_comps(data@, p0 + 3, n as int, 0, old(self).dv());
        let mut k: u8 = 0;
        while k < n
            invariant
                self.mc_w == old(self).mc_w,
                self.wf(),
                self.pos <= data@.len(),
                old(self).pos <= self.pos,
                k <= n,
                self.width == old(self).width && self.height == old(self).height,
                self.qtables == old(self).qtables,
                self.dc_huff == old(self).dc_huff,
                self.ac_huff == old(self).ac_huff,
                self.mc_h == old(self).mc_h,
                goal == sos_comps(data@, self.pos as int, n as int, k as int, self.dv()),
                p0 == old(self).pos,
                sos_spec(data@, p0, old(self).dv()) == match goal {
                    None => None,
                    Some((v2, q2)) => Some((v2, q2 + 3)),
                },
            decreases n - k,
        {
            let ghost q = self.pos as int;
            let ghost before = self.dv();
            let id = match self.read_u8(data) {
                Some(v) => v,
                None => {
                    return false;
                },
            };
            let t = match self.read_u8(data) {
                Some(v) => v,
                None => {
                    return false;
                },
            };
            if id == 0 || id > 3 {
                return false;
            }
            match self.components[(id - 1) as usize] {
                Some(c) => {
                    self.components.set((id - 1) as usize, Some(Component { dc: t / 16, ac: t % 16, ..c }));
                },
                None => {},
            }
            proof {
                assert(self.dv() =~~= match before.comps[id - 1] {
                    Some(c) => DecView {
                        comps: before.comps.update(id - 1, Some(Component { dc: t / 16, ac: t % 16, ..c })),
                        ..before
                    },
                    None => before,
                });
            }
            k = k + 1;
        }
        self.pos = self.pos + 3;
        true
    }

    /// Reads the stream's segments from `pos` until the first scan, which
    /// it decodes (see `decode_scan`); an end-of-image marker before any
    /// scan gives an empty picture. Bytes before a marker's `0xFF` are
    /// skipped; other segments are skipped by their length. `None` when
    /// the data ends first or a segment is malformed (see `parse_spec`).
    #[verifier::rlimit(80)]
    #[verifier::spinoff_prover]
    pub fn parse(&mut self, data: &[u8]) -> (r: Option<Vec<u8>>)
        requires
            old(self).wf(),
            old(self).pos <= data@.len() + 0x10000,
            data@.len() + 0x20000 <= usize::MAX,
        ensures
            r matches Some(img) ==> img@.len() == 0 || picture_of(
                img@,
                final(self).width as int,
                final(self).height as int,
            ),
            r is Some ==> (final(self).width == old(self).width && final(self).height == old(self).height)
                || frame_header(data@, final(self).width as int, final(self).height as int),
            r matches Some(img) ==> (img@.len() > 0 ==> final(self).pos <= data@.len() && scan_result(
                final(self).dv(),
                data@.subrange(final(self).pos as int, data@.len() as int),
            ) == Some(img@)),
            r matches Some(img) && img@.len() > 0 && old(self).mc_w == 0 ==> frame_header(
                data@,
                final(self).width as int,
                final(self).height as int,
            ),
            match walk_markers(data@, old(self).pos as int) {
                WalkEnd::Eoi => r matches Some(img) && img@.len() == 0,
                WalkEnd::Ends => r is None,
                WalkEnd::Segment(_) => true,
            },
            match parse_spec(data@, old(self).pos as int, old(self).dv()) {
                ParseEnd::Fail => r is None,
                ParseEnd::Eoi => r matches Some(img) && img@.len() == 0,
                ParseEnd::Scan(v, q) => final(self).dv() == v && final(self).pos == q && match scan_result(
                    v,
                    data@.subrange(q, data@.len() as int),
                ) {
                    Some(img) => r matches Some(x) && x@ == img,
                    None => r is None,
                },
            },
    {
        let ghost p0 = self.pos as int;
        let ghost mut pure = true;
        let ghost v0 = self.dv();
        loop
            invariant
                self.wf(),
                data@.len() + 0x20000 <= usize::MAX,
                self.pos <= data@.len() + 0x10000,
                p0 == old(self).pos,
                pure ==> walk_markers(data@, p0) == walk_markers(data@, self.pos as int),
                !pure ==> walk_markers(data@, p0) is Segment,
                (self.width == old(self).width && self.height == old(self).height) || frame_header(
                    data@,
                    self.width as int,
                    self.height as int,
                ),
                self.mc_w > 0 && old(self).mc_w == 0 ==> frame_header(data@, self.width as int, self.height as int),
                v0 == old(self).dv(),
                parse_spec(data@, p0, v0) == parse_spec(data@, self.pos as int, self.dv()),
            decreases (if self.pos < data@.len() { data@.len() - self.pos } else { 0 }),
        {
            let ghost q = self.pos as int;
            if self.pos >= data.len() {
                return None;
            }
            let b = match self.read_u8(data) {
                Some(v) => v,
                None => {
                    return None;
                },
            };
            if b != 0xFF {
                continue;
            }
            let marker = match self.read_u8(data) {
                Some(v) => v,
                None => {
                    return None;
                },
            };
            if read_marker_exec(marker) {
                proof {
                    assert(walk_markers(data@, q) == WalkEnd::Segment(marker));
                    pure = false;
                }
            }
            if marker == 0xDB {
                if !self.read_dqt(data) {
                    return None;
                }
            } else if 0xC0 <= marker && marker <= 0xC2 {
                let ghost p = self.pos as int;
                if !self.read_sof(data) {
                    return None;
                }
                proof {
                    assert(p == q + 2 && data@[p - 2] == 0xFF && data@[p - 1] == marker);
                    assert(data@[p] == data@[p]);
                    assert(frame_header(data@, self.width as int, self.height as int));
                }
            } else if marker == 0xC4 {
                if !self.read_dht(data) {
                    return None;
                }
            } else if marker == 0xDA {
                if !self.read_sos(data) {
                    return None;
                }
                if self.pos > data.len() {
                    return None;
                }
                let scan = vstd::slice::slice_subrange(data, self.pos, data.len());
                return self.decode_scan(scan);
            } else if marker == 0xD9 {
                return Some(Vec::new());
            } else {
                match self.read_u16(data) {
                    Some(l) => {
                        if l < 2 {
                            return None;
                        }
                        self.pos = self.pos + (l as usize - 2);
                    },
                    None => {},
                }
            }
        }
    }
}

fn read_marker_exec(m: u8) -> (r: bool)
    ensures
        r == read_marker(m),
{
    m == 0xDB || (0xC0 <= m && m <= 0xC2) || m == 0xC4 || m == 0xDA
}

/// Decodes a baseline JPEG picture (8-bit samples, three components,
/// Huffman coding, any sampling factors) into its picture bytes: exactly
/// what `jpeg_result` says. `None` for data that does not start with the
/// start-of-image marker `FF D8`, whose segments are malformed or end
/// early, or whose scan does not decode; an end-of-image marker before any
/// scan gives no pixels; a decoded picture has the size a frame header in
/// the data gives.
pub fn decode_jpeg(data: &[u8]) -> (r: Option<Vec<u8>>)
    requires
        data@.len() + 0x20000 <= usize::MAX,
    ensures
        match jpeg_result(data@) {
            Some(img) => r matches Some(x) && x@ == img,
            None => r is None,
        },
        !(data@.len() >= 2 && data@[0] == 0xFF && data@[1] == 0xD8) ==> r is None,
        data@.len() >= 2 && data@[0] == 0xFF && data@[1] == 0xD8 ==> match walk_markers(data@, 2) {
            WalkEnd::Eoi => r matches Some(img) && img@.len() == 0,
            WalkEnd::Ends => r is None,
            WalkEnd::Segment(_) => r matches Some(img) ==> img@.len() == 0 || exists|w: int, h: int|
                0 <= w <= 0xFFFF && 0 <= h <= 0xFFFF && #[trigger] picture_of(img@, w, h) && frame_header(data@, w, h),
        },
{
    if data.len() < 2 || data[0] != 0xFF || data[1] != 0xD8 {
        return None;
    }
    let mut dec = JpegDecoder::new();
    let r = dec.parse(data);
    proof {
        if r is Some && r->0@.len() > 0 {
            assert(picture_of(r->0@, dec.width as int, dec.height as int));
        }
    }
    r
}


/// Within an MCU the blocks of a component lie side by side: block (0, 0)
/// at the MCU's corner, each step of the horizontal index moving one block
/// (8 samples of `max_h / hs` pixels) right and each step of the vertical
/// index moving one block (8 samples of `max_v / vs` pixels) down.
pub proof fn lemma_block_places(mx: int, my: int, max_h: int, max_v: int, hs: int, vs: int, hb: int, vb: int)
    requires
        1 <= hs <= max_h,
        1 <= vs <= max_v,
    ensures
        place_of(mx, my, max_h, max_v, hs, vs, 0, 0).0 == mx * max_h * 8,
        place_of(mx, my, max_h, max_v, hs, vs, 0, 0).1 == my * max_v * 8,
        place_of(mx, my, max_h, max_v, hs, vs, hb + 1, vb).0 == place_of(mx, my, max_h, max_v, hs, vs, hb, vb).0
            + 8 * (max_h / hs),
        place_of(mx, my, max_h, max_v, hs, vs, hb + 1, vb).1 == place_of(mx, my, max_h, max_v, hs, vs, hb, vb).1,
        place_of(mx, my, max_h, max_v, hs, vs, hb, vb + 1).1 == place_of(mx, my, max_h, max_v, hs, vs, hb, vb).1
            + 8 * (max_v / vs),
        place_of(mx, my, max_h, max_v, hs, vs, hb, vb + 1).0 == place_of(mx, my, max_h, max_v, hs, vs, hb, vb).0,
        place_of(mx, my, max_h, max_v, hs, vs, hb, vb).2 == max_h / hs >= 1,
        place_of(mx, my, max_h, max_v, hs, vs, hb, vb).3 == max_v / vs >= 1,
{
    let hf = max_h / hs;
    let vf = max_v / vs;
    assert(hf >= 1) by (nonlinear_arith)
        requires
            1 <= hs <= max_h,
            hf == max_h / hs,
    ;
    assert(vf >= 1) by (nonlinear_arith)
        requires
            1 <= vs <= max_v,
            vf == max_v / vs,
    ;
    assert((hb + 1) * 8 * hf == hb * 8 * hf + 8 * hf) by (nonlinear_arith);
    assert((vb + 1) * 8 * vf == vb * 8 * vf + 8 * vf) by (nonlinear_arith);
}


/// Each block goes to its own component's plane: a luma block (component
/// 0) changes only the luma plane, a Cb block (1) only the Cb plane, a Cr
/// block (2) only the Cr plane; the block's DC value is kept for its
/// component alone, and the reader moves on to where the block ended.
pub proof fn lemma_block_plane(
    dec: DecView,
    st: ScanState,
    c: Component,
    ci: int,
    mx: int,
    my: int,
    vb: int,
    hb: int,
    coeffs: Seq<i64>,
    dc: int,
    rd: BitReader,
)
    requires
        0 <= ci < 3,
        st.dc.len() == 3,
        i64::MIN <= dc <= i64::MAX,
    ensures
        ({
            let s2 = put_block(dec, st, c, ci, mx, my, vb, hb, coeffs, dc, rd);
            &&& ci != 0 ==> s2.yp == st.yp
            &&& ci != 1 ==> s2.cb == st.cb
            &&& ci != 2 ==> s2.cr == st.cr
            &&& s2.dc[ci] == dc
            &&& forall|j: int| 0 <= j < 3 && j != ci ==> s2.dc[j] == st.dc[j]
            &&& s2.rd == rd
        }),
{
}


/// Drawing a block puts its sample at row `j`, column `i` (both below 8)
/// on the pixel `i` samples right and `j` samples down from the block's
/// corner, each sample `hfac` pixels wide and `vfac` high, and leaves the
/// pixels outside the block as they were.
pub proof fn lemma_drawn_sample(
    plane: Seq<u8>,
    w: int,
    h: int,
    x_off: int,
    y_off: int,
    hfac: int,
    vfac: int,
    block: Seq<i64>,
    i: int,
    j: int,
    x: int,
    y: int,
)
    requires
        plane.len() == w * h,
        hfac >= 1,
        vfac >= 1,
        x_off >= 0,
        y_off >= 0,
        0 <= x < w,
        0 <= y < h,
        0 <= i < 8,
        0 <= j < 8,
    ensures
        x == x_off + i * hfac && y == y_off + j * vfac ==> drawn(plane, w, h, x_off, y_off, hfac, vfac, block)[y * w
            + x] == sample(block[j * 8 + i] as int),
        !(x_off <= x < x_off + 8 * hfac && y_off <= y < y_off + 8 * vfac) ==> drawn(
            plane,
            w,
            h,
            x_off,
            y_off,
            hfac,
            vfac,
            block,
        )[y * w + x] == plane[y * w + x],
{
    let p = y * w + x;
    assert(0 <= p < w * h) by (nonlinear_arith)
        requires
            0 <= x < w,
            0 <= y < h,
            p == y * w + x,
    ;
    assert(p % w == x && p / w == y) by (nonlinear_arith)
        requires
            0 <= x < w,
            0 <= y,
            p == y * w + x,
    ;
    if x == x_off + i * hfac && y == y_off + j * vfac {
        assert((x - x_off) / hfac == i && (y - y_off) / vfac == j) by (nonlinear_arith)
            requires
                x - x_off == i * hfac,
                y - y_off == j * vfac,
                hfac >= 1,
                vfac >= 1,
        ;
        assert(x_off <= x < x_off + 8 * hfac && y_off <= y < y_off + 8 * vfac) by (nonlinear_arith)
            requires
                x == x_off + i * hfac,
                y == y_off + j * vfac,
                0 <= i < 8,
                0 <= j < 8,
                hfac >= 1,
                vfac >= 1,
        ;
    }
}

} // verus!
