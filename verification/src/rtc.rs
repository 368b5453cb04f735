use vstd::prelude::*;

verus! {

/// A wall-clock reading: 24-hour time and a full Gregorian date.
#[derive(Debug, Copy, Clone, PartialEq, Eq, Structural)]
pub struct RtcTime {
    pub hour: u8,
    pub min: u8,
    pub sec: u8,
    pub day: u8,
    pub month: u8,
    pub year: u16,
}

/// The CMOS clock registers as read: seconds, minutes, hours, day of month,
/// month, two-digit year, and status register B.
#[derive(Debug, Copy, Clone, PartialEq, Eq, Structural)]
pub struct RawTime {
    pub sec: u8,
    pub min: u8,
    pub hour: u8,
    pub day: u8,
    pub month: u8,
    pub year: u8,
    pub status_b: u8,
}

/// Value of a packed BCD byte: low nibble plus ten times the high nibble.
pub open spec fn bcd_value(val: u8) -> int {
    val as int % 16 + (val as int / 16) * 10
}

/// Decodes a packed BCD byte (wrapping to a byte when the nibbles are not digits).
pub fn bcd_to_bin(val: u8) -> (r: u8)
    ensures
        r == bcd_value(val) % 256,
{
    let lo = val & 0x0F;
    let hi = val >> 4;
    assert(lo == val % 16) by (bit_vector)
        requires
            lo == val & 0x0F,
    ;
    assert(hi == val / 16) by (bit_vector)
        requires
            hi == val >> 4,
    ;
    let t: u16 = (hi as u16) * 10 + (lo as u16);
    (t % 256) as u8
}

/// Hour field after BCD decoding: the low seven bits decoded, the PM flag kept.
pub open spec fn decoded_hour(raw: RawTime) -> int {
    if raw.status_b & 0x04 == 0 {
        (((bcd_value(raw.hour & 0x7F) % 256) as u8) | (raw.hour & 0x80)) as int
    } else {
        raw.hour as int
    }
}

/// Hour in 24-hour form, from a decoded hour byte whose top bit marks PM in
/// 12-hour mode.
pub open spec fn hour24(h: u8, is_24: bool) -> int {
    if is_24 {
        h as int
    } else {
        let pm = h & 0x80 != 0;
        let hh = h & 0x7F;
        if pm && hh < 12 {
            hh + 12
        } else if !pm && hh == 12 {
            0
        } else {
            hh as int
        }
    }
}

/// A register value after the BCD decoding that status register B asks for.
pub open spec fn field(raw: RawTime, v: u8) -> int {
    if raw.status_b & 0x04 == 0 {
        bcd_value(v) % 256
    } else {
        v as int
    }
}

/// Converts raw CMOS registers to a time: BCD decoding unless status bit 2 is
/// set, 12-hour to 24-hour unless status bit 1 is set, and years counted from 2000.
pub fn convert(raw: RawTime) -> (t: RtcTime)
    ensures
        t.sec == field(raw, raw.sec),
        t.min == field(raw, raw.min),
        t.day == field(raw, raw.day),
        t.month == field(raw, raw.month),
        t.year == 2000 + field(raw, raw.year),
        t.hour == hour24(decoded_hour(raw) as u8, raw.status_b & 0x02 != 0),
{
    let mut sec = raw.sec;
    let mut min = raw.min;
    let mut hour = raw.hour;
    let mut day = raw.day;
    let mut month = raw.month;
    let mut year = raw.year;

    let bcd = (raw.status_b & 0x04) == 0;
    let is_24 = (raw.status_b & 0x02) != 0;

    if bcd {
        sec = bcd_to_bin(sec);
        min = bcd_to_bin(min);
        hour = bcd_to_bin(hour & 0x7F) | (hour & 0x80);
        day = bcd_to_bin(day);
        month = bcd_to_bin(month);
        year = bcd_to_bin(year);
    }
    assert(hour == decoded_hour(raw));
    if !is_24 {
        let pm = (hour & 0x80) != 0;
        let hh = hour & 0x7F;
        assert(hh < 128) by (bit_vector)
            requires
                hh == hour & 0x7F,
        ;
        if pm && hh < 12 {
            hour = hh + 12;
        } else if !pm && hh == 12 {
            hour = 0;
        } else {
            hour = hh;
        }
    }
    let full_year = 2000u16 + year as u16;
    RtcTime { hour, min, sec, day, month, year: full_year }
}

/// What a sequence of clock reads yields: each attempt is `None` when the
/// clock stayed busy updating, or two back-to-back register snapshots; the
/// first attempt whose snapshots agree gives the time; a busy clock or eight
/// disagreeing attempts give nothing.
pub open spec fn read_time_spec(attempts: Seq<Option<(RawTime, RawTime)>>) -> Option<RtcTime>
    decreases attempts.len(),
{
    if attempts.len() == 0 {
        None
    } else {
        match attempts[0] {
            None => None,
            Some(p) => if p.0 == p.1 {
                Some(rtc_of(p.0))
            } else {
                read_time_spec(attempts.drop_first())
            },
        }
    }
}

/// The time that `convert` gives for `raw`.
pub open spec fn rtc_of(raw: RawTime) -> RtcTime {
    RtcTime {
        hour: hour24(decoded_hour(raw) as u8, raw.status_b & 0x02 != 0) as u8,
        min: field(raw, raw.min) as u8,
        sec: field(raw, raw.sec) as u8,
        day: field(raw, raw.day) as u8,
        month: field(raw, raw.month) as u8,
        year: (2000 + field(raw, raw.year)) as u16,
    }
}

/// Reads the time from up to eight attempts (see `read_time_spec`).
pub fn read_time(attempts: &[Option<(RawTime, RawTime)>]) -> (r: Option<RtcTime>)
    ensures
        r == read_time_spec(
            if attempts@.len() > 8 {
                attempts@.take(8)
            } else {
                attempts@
            },
        ),
{
    let n: usize = if attempts.len() > 8 { 8 } else { attempts.len() };
    let ghost all = if attempts@.len() > 8 {
        attempts@.take(8)
    } else {
        attempts@
    };
    let mut i: usize = 0;
    proof {
        assert(all.skip(0) =~= all);
    }
    while i < n
        invariant
            n == all.len(),
            all == if attempts@.len() > 8 {
                attempts@.take(8)
            } else {
                attempts@
            },
            n <= attempts@.len(),
            i <= n,
            forall|j: int| 0 <= j < n ==> all[j] == attempts@[j],
            read_time_spec(all) == read_time_spec(all.skip(i as int)),
        decreases n - i,
    {
        proof {
            assert(all.skip(i as int).drop_first() =~= all.skip(i + 1));
            assert(all.skip(i as int)[0] == attempts@[i as int]);
        }
        match attempts[i] {
            None => {
                assert(read_time_spec(all.skip(i as int)) == None::<RtcTime>);
                return None;
            },
            Some(p) => {
                if p.0 == p.1 {
                    let t = convert(p.0);
                    assert(t == rtc_of(p.0));
                    assert(read_time_spec(all.skip(i as int)) == Some(rtc_of(p.0)));
                    return Some(t);
                }
            },
        }
        i = i + 1;
    }
    None
}

} // verus!
