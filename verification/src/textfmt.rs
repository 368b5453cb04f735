use vstd::prelude::*;
use vstd::slice::slice_subrange;
use vstd::string::StringSliceAdditionalSpecFns;

verus! {

/// The bytes of a string literal.
pub open spec fn lit(s: &str) -> Seq<u8> {
    s.spec_bytes()
}

/// The bytes of `s`.
pub fn bytes_of(s: &str) -> (b: &[u8])
    ensures
        b@ == lit(s),
{
    s.as_bytes()
}

/// Decimal digits of `n`, most significant first, without leading zeros.
pub open spec fn dec(n: nat) -> Seq<u8>
    decreases n,
{
    if n < 10 {
        seq![(48 + n) as u8]
    } else {
        dec(n / 10).push((48 + n % 10) as u8)
    }
}

/// Decimal numbers below 10, 100, 1000 have at most 1, 2, 3 digits.
pub proof fn lemma_dec_len(n: nat)
    ensures
        1 <= dec(n).len(),
        n < 10 ==> dec(n).len() == 1,
        n < 100 ==> dec(n).len() <= 2,
        n < 1000 ==> dec(n).len() <= 3,
    decreases n,
{
    if n >= 10 {
        lemma_dec_len(n / 10);
    }
}

/// Decimal digits are ASCII.
pub proof fn lemma_dec_digits(n: nat)
    ensures
        forall|i: int| 0 <= i < dec(n).len() ==> 48 <= #[trigger] dec(n)[i] <= 57,
    decreases n,
{
    if n >= 10 {
        lemma_dec_digits(n / 10);
        let d = dec(n / 10);
        assert(dec(n) == d.push((48 + n % 10) as u8));
        assert forall|i: int| 0 <= i < dec(n).len() implies 48 <= #[trigger] dec(n)[i] <= 57 by {
            if i < d.len() {
                assert(dec(n)[i] == d[i]);
            }
        }
    }
}

/// Two decimal digits of `v`: tens (wrapping past 9 into the bytes after
/// '9' as a byte would) then units.
pub open spec fn two(v: u8) -> Seq<u8> {
    seq![(48 + v / 10) as u8, (48 + v % 10) as u8]
}

/// Appends `s`.
pub fn write_str(buf: &mut Vec<u8>, s: &[u8])
    ensures
        final(buf)@ == old(buf)@ + s@,
{
    let mut i: usize = 0;
    while i < s.len()
        invariant
            i <= s@.len(),
            buf@ == old(buf)@ + s@.take(i as int),
        decreases s@.len() - i,
    {
        buf.push(s[i]);
        i = i + 1;
        proof {
            assert(s@.take(i as int) =~= s@.take(i - 1).push(s@[i - 1]));
        }
    }
    proof {
        assert(s@.take(s@.len() as int) =~= s@);
    }
}

/// Appends the decimal digits of `val`.
pub fn write_u64(buf: &mut Vec<u8>, val: u64)
    ensures
        final(buf)@ == old(buf)@ + dec(val as nat),
    decreases val,
{
    if val >= 10 {
        write_u64(buf, val / 10);
    }
    buf.push(48u8 + (val % 10) as u8);
    proof {
        if val >= 10 {
            assert(dec(val as nat) == dec((val / 10) as nat).push((48 + val % 10) as u8));
        }
        assert(final(buf)@ =~= old(buf)@ + dec(val as nat));
    }
}

/// Appends the decimal digits of `val`.
pub fn write_u32(buf: &mut Vec<u8>, val: u32)
    ensures
        final(buf)@ == old(buf)@ + dec(val as nat),
{
    write_u64(buf, val as u64);
}

/// Appends the decimal digits of a non-negative `val`; a negative one adds nothing.
pub fn write_i8(buf: &mut Vec<u8>, val: i8)
    ensures
        final(buf)@ == if val < 0 {
            old(buf)@
        } else {
            old(buf)@ + dec(val as nat)
        },
{
    if val < 0 {
        return;
    }
    write_u64(buf, val as u64);
}

/// Appends `val` as two digits.
pub fn write_two(buf: &mut Vec<u8>, val: u8)
    ensures
        final(buf)@ == old(buf)@ + two(val),
{
    buf.push(48u8 + val / 10);
    buf.push(48u8 + val % 10);
    proof {
        assert(final(buf)@ =~= old(buf)@ + two(val));
    }
}

/// ASCII lower-casing of one byte.
pub open spec fn lower(b: u8) -> u8 {
    if 65 <= b <= 90 {
        (b + 32) as u8
    } else {
        b
    }
}

/// Equality of byte strings up to ASCII letter case.
pub open spec fn ieq(a: Seq<u8>, b: Seq<u8>) -> bool {
    a.len() == b.len() && forall|i: int| 0 <= i < a.len() ==> lower(a[i]) == lower(b[i])
}

/// Compares two byte strings ignoring ASCII letter case.
pub fn eq_ignore_case(a: &[u8], b: &[u8]) -> (r: bool)
    ensures
        r == ieq(a@, b@),
{
    if a.len() != b.len() {
        return false;
    }
    let mut i: usize = 0;
    while i < a.len()
        invariant
            a@.len() == b@.len(),
            i <= a@.len(),
            forall|j: int| 0 <= j < i ==> lower(a@[j]) == lower(b@[j]),
        decreases a@.len() - i,
    {
        let mut ca = a[i];
        let mut cb = b[i];
        if ca >= 65 && ca <= 90 {
            ca = ca + 32;
        }
        if cb >= 65 && cb <= 90 {
            cb = cb + 32;
        }
        if ca != cb {
            return false;
        }
        i = i + 1;
    }
    true
}

/// First index at or after `i` (below `end`) where the byte's being a space
/// differs from `space`.
pub open spec fn scan(s: Seq<u8>, i: int, end: int, space: bool) -> int
    decreases end - i,
{
    if i < end && (s[i] == 32u8) == space {
        scan(s, i + 1, end, space)
    } else {
        i
    }
}

/// Where the first word of `s[..end]` starts, ends, and where the rest begins.
pub open spec fn word_bounds(s: Seq<u8>, end: int) -> (int, int, int) {
    let start = scan(s, 0, end, true);
    let stop = scan(s, start, end, false);
    (start, stop, scan(s, stop, end, true))
}

/// The first space-separated word of `s[..end]`.
pub open spec fn first_word(s: Seq<u8>, end: int) -> Seq<u8> {
    s.subrange(word_bounds(s, end).0, word_bounds(s, end).1)
}

/// What follows the first word of `s[..end]` and the spaces after it.
pub open spec fn after_word(s: Seq<u8>, end: int) -> Seq<u8> {
    s.subrange(word_bounds(s, end).2, end)
}

pub proof fn lemma_scan(s: Seq<u8>, i: int, end: int, space: bool)
    requires
        0 <= i <= end,
    ensures
        i <= scan(s, i, end, space) <= end,
        forall|j: int| i <= j < scan(s, i, end, space) ==> (s[j] == 32u8) == space,
        scan(s, i, end, space) < end ==> (s[scan(s, i, end, space)] == 32u8) != space,
    decreases end - i,
{
    if i < end && (s[i] == 32u8) == space {
        lemma_scan(s, i + 1, end, space);
    }
}

/// Advances `i` past bytes whose being a space equals `space`, up to `end`.
pub fn scan_bytes(s: &[u8], i: usize, end: usize, space: bool) -> (r: usize)
    requires
        i <= end <= s@.len(),
    ensures
        r == scan(s@, i as int, end as int, space),
        i <= r <= end,
{
    let mut k = i;
    while k < end && (s[k] == 32u8) == space
        invariant
            i <= k <= end,
            end <= s@.len(),
            scan(s@, i as int, end as int, space) == scan(s@, k as int, end as int, space),
        decreases end - k,
    {
        k = k + 1;
    }
    k
}

/// Splits `buf[..len]` into its first space-separated word and what follows
/// the spaces after it.
pub fn split_first_word(buf: &[u8], len: usize) -> (r: (&[u8], &[u8]))
    requires
        len <= buf@.len(),
    ensures
        r.0@ == first_word(buf@, len as int),
        r.1@ == after_word(buf@, len as int),
{
    let start = scan_bytes(buf, 0, len, true);
    let end = scan_bytes(buf, start, len, false);
    let next = scan_bytes(buf, end, len, true);
    (slice_subrange(buf, start, end), slice_subrange(buf, next, len))
}

/// Splits `rest` into its first space-separated word and what follows the
/// spaces after it.
pub fn split_words(rest: &[u8]) -> (r: (&[u8], &[u8]))
    ensures
        r.0@ == first_word(rest@, rest@.len() as int),
        r.1@ == after_word(rest@, rest@.len() as int),
{
    split_first_word(rest, rest.len())
}

} // verus!
