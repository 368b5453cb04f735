use vstd::prelude::*;
use crate::rtc::RtcTime;

verus! {

/// What the boot loader told us about the machine.
#[derive(Debug, Copy, Clone, PartialEq, Eq, Structural)]
pub struct SystemInfo {
    pub mem_total_kib: u64,
    pub mem_avail_kib: u64,
    pub fb_w: usize,
    pub fb_h: usize,
    pub fb_bpp: u8,
}

/// User-interface preferences.
#[derive(Debug, Copy, Clone, PartialEq, Eq, Structural)]
pub struct UiSettings {
    pub status_bar: bool,
    pub clock_24h: bool,
    pub accent: u32,
    pub mouse_scale: i32,
    pub dark: bool,
}

/// The machine-wide settings: system information, UI preferences, the time
/// zone as an offset from GMT in hours, and the time the system booted.
#[derive(Debug, Copy, Clone, PartialEq, Eq, Structural)]
pub struct SystemState {
    pub info: SystemInfo,
    pub ui: UiSettings,
    pub gmt_offset: i8,
    pub boot_time: Option<RtcTime>,
}

impl SystemState {
    /// Settings at boot: empty system information, status bar on, 24-hour
    /// clock, blue accent, mouse speed 1, light theme, GMT+0, no boot time.
    pub fn new() -> (s: SystemState)
        ensures
            s.info == (SystemInfo { mem_total_kib: 0, mem_avail_kib: 0, fb_w: 0, fb_h: 0, fb_bpp: 0 }),
            s.ui == (UiSettings {
                status_bar: true,
                clock_24h: true,
                accent: 0x003A8FE5,
                mouse_scale: 1,
                dark: false,
            }),
            s.gmt_offset == 0,
            s.boot_time.is_none(),
    {
        SystemState {
            info: SystemInfo { mem_total_kib: 0, mem_avail_kib: 0, fb_w: 0, fb_h: 0, fb_bpp: 0 },
            ui: UiSettings {
                status_bar: true,
                clock_24h: true,
                accent: 0x003A8FE5,
                mouse_scale: 1,
                dark: false,
            },
            gmt_offset: 0,
            boot_time: None,
        }
    }
}

/// Records the system information.
pub fn set_system_info(sys: &mut SystemState, info: SystemInfo)
    ensures
        *final(sys) == (SystemState { info, ..*old(sys) }),
{
    sys.info = info;
}

/// The system information.
pub fn system_info(sys: &SystemState) -> (r: SystemInfo)
    ensures
        r == sys.info,
{
    sys.info
}

/// The UI preferences.
pub fn ui_settings(sys: &SystemState) -> (r: UiSettings)
    ensures
        r == sys.ui,
{
    sys.ui
}

/// Shows or hides the status bar.
pub fn set_status_bar(sys: &mut SystemState, on: bool)
    ensures
        *final(sys) == (SystemState { ui: UiSettings { status_bar: on, ..old(sys).ui }, ..*old(sys) }),
{
    sys.ui.status_bar = on;
}

/// Chooses the 24-hour (`true`) or 12-hour clock.
pub fn set_clock_24h(sys: &mut SystemState, on: bool)
    ensures
        *final(sys) == (SystemState { ui: UiSettings { clock_24h: on, ..old(sys).ui }, ..*old(sys) }),
{
    sys.ui.clock_24h = on;
}

/// Sets the accent colour.
pub fn set_accent(sys: &mut SystemState, color: u32)
    ensures
        *final(sys) == (SystemState { ui: UiSettings { accent: color, ..old(sys).ui }, ..*old(sys) }),
{
    sys.ui.accent = color;
}

/// The mouse speed actually used for a requested one: clamped to 1..=4.
pub open spec fn clamp_scale(scale: i32) -> i32 {
    if scale < 1 {
        1
    } else if scale > 4 {
        4
    } else {
        scale
    }
}

/// Sets the mouse speed, clamped to 1..=4.
pub fn set_mouse_scale(sys: &mut SystemState, scale: i32)
    ensures
        *final(sys) == (SystemState {
            ui: UiSettings { mouse_scale: clamp_scale(scale), ..old(sys).ui },
            ..*old(sys)
        }),
{
    let mut s = scale;
    if s < 1 {
        s = 1;
    }
    if s > 4 {
        s = 4;
    }
    sys.ui.mouse_scale = s;
}

/// Chooses the dark (`true`) or light theme.
pub fn set_theme(sys: &mut SystemState, dark: bool)
    ensures
        *final(sys) == (SystemState { ui: UiSettings { dark, ..old(sys).ui }, ..*old(sys) }),
{
    sys.ui.dark = dark;
}

/// The settings with the other theme.
pub open spec fn toggled(s: SystemState) -> SystemState {
    SystemState { ui: UiSettings { dark: !s.ui.dark, ..s.ui }, ..s }
}

/// Toggling the theme twice changes nothing.
pub proof fn lemma_toggle_twice(s: SystemState)
    ensures
        toggled(toggled(s)) == s,
{
}

/// Switches between dark and light theme and returns whether it is now dark.
pub fn toggle_theme(sys: &mut SystemState) -> (r: bool)
    ensures
        r == !old(sys).ui.dark,
        *final(sys) == toggled(*old(sys)),
{
    sys.ui.dark = !sys.ui.dark;
    sys.ui.dark
}

/// Sets the time zone, in hours from GMT.
pub fn set_gmt_offset(sys: &mut SystemState, offset: i8)
    ensures
        *final(sys) == (SystemState { gmt_offset: offset, ..*old(sys) }),
{
    sys.gmt_offset = offset;
}

/// The time zone, in hours from GMT.
pub fn get_gmt_offset(sys: &SystemState) -> (r: i8)
    ensures
        r == sys.gmt_offset,
{
    sys.gmt_offset
}

/// Records the time the system booted.
pub fn set_boot_time(sys: &mut SystemState, time: RtcTime)
    ensures
        *final(sys) == (SystemState { boot_time: Some(time), ..*old(sys) }),
{
    sys.boot_time = Some(time);
}

/// The time the system booted, if recorded.
pub fn get_boot_time(sys: &SystemState) -> (r: Option<RtcTime>)
    ensures
        r == sys.boot_time,
{
    sys.boot_time
}

/// Gregorian leap year.
pub open spec fn leap(year: int) -> bool {
    year % 4 == 0 && (year % 100 != 0 || year % 400 == 0)
}

/// Days in `month` of `year`; a month number outside 1..=12 counts as 31 days.
pub open spec fn month_days(year: int, month: int) -> int {
    if month == 2 {
        if leap(year) {
            29
        } else {
            28
        }
    } else if month == 4 || month == 6 || month == 9 || month == 11 {
        30
    } else {
        31
    }
}

/// Whether `year` is a Gregorian leap year.
pub fn is_leap(year: i32) -> (r: bool)
    ensures
        r == leap(year as int),
{
    (year % 4 == 0) && (year % 100 != 0 || year % 400 == 0)
}

/// Days in `month` of `year`.
pub fn days_in_month(year: i32, month: i32) -> (r: i32)
    ensures
        r == month_days(year as int, month as int),
        28 <= r <= 31,
{
    match month {
        1 => 31,
        2 => if is_leap(year) {
            29
        } else {
            28
        },
        3 => 31,
        4 => 30,
        5 => 31,
        6 => 30,
        7 => 31,
        8 => 31,
        9 => 30,
        10 => 31,
        11 => 30,
        12 => 31,
        _ => 31,
    }
}

/// Moves a day that fell before the 1st back through earlier months until it
/// is a day of its month.
pub open spec fn borrow_days(day: int, month: int, year: int) -> (int, int, int)
    decreases (if day >= 1 { 0 } else { 1 - day }),
{
    if day >= 1 {
        (day, month, year)
    } else {
        let m = if month - 1 < 1 {
            12
        } else {
            month - 1
        };
        let y = if month - 1 < 1 {
            year - 1
        } else {
            year
        };
        borrow_days(day + month_days(y, m), m, y)
    }
}

/// Moves a day that fell after the end of its month forward through later
/// months until it is a day of its month.
pub open spec fn carry_days(day: int, month: int, year: int) -> (int, int, int)
    decreases day,
{
    if day <= month_days(year, month) || day < 0 {
        (day, month, year)
    } else {
        let m = if month + 1 > 12 {
            1
        } else {
            month + 1
        };
        let y = if month + 1 > 12 {
            year + 1
        } else {
            year
        };
        carry_days(day - month_days(year, month), m, y)
    }
}

/// Local time for a clock reading `t` in a zone `offset` hours from GMT: the
/// hour is moved by `offset` and wrapped into 0..24, and the date moves by
/// the days that wrapping crossed, month and year rolling over.
pub open spec fn local_time(t: RtcTime, offset: i8) -> RtcTime {
    let total = t.hour as int + offset as int;
    let hour = total % 24;
    let delta = total / 24;
    if delta == 0 {
        RtcTime { hour: hour as u8, ..t }
    } else {
        let b = borrow_days(t.day as int + delta, t.month as int, t.year as int);
        let c = carry_days(b.0, b.1, b.2);
        RtcTime { hour: hour as u8, day: c.0 as u8, month: c.1 as u8, year: c.2 as u16, ..t }
    }
}

/// Converts a clock reading to the local time of a zone `offset` hours from GMT.
pub fn apply_timezone(t: RtcTime, offset: i8) -> (r: RtcTime)
    ensures
        r == local_time(t, offset),
{
    let mut t = t;
    let ghost t0 = t;
    let mut new_hour: i16 = t.hour as i16 + offset as i16;
    let mut day_delta: i32 = 0;

    while new_hour < 0
        invariant
            -128 <= new_hour <= 382,
            -6 <= day_delta <= 0,
            new_hour + 24 * day_delta == t0.hour as int + offset as int,
            day_delta < 0 ==> new_hour < 24,
        decreases 24 - new_hour,
    {
        new_hour = new_hour + 24;
        day_delta = day_delta - 1;
    }
    while new_hour >= 24
        invariant
            0 <= new_hour <= 382,
            -6 <= day_delta <= 16,
            new_hour + 24 * day_delta == t0.hour as int + offset as int,
            day_delta < 0 ==> new_hour < 24,
        decreases new_hour,
    {
        new_hour = new_hour - 24;
        day_delta = day_delta + 1;
    }
    assert(new_hour == (t0.hour as int + offset as int) % 24);
    assert(day_delta == (t0.hour as int + offset as int) / 24);
    t.hour = new_hour as u8;

    if day_delta != 0 {
        let mut day: i32 = t.day as i32 + day_delta;
        let mut month: i32 = t.month as i32;
        let mut year: i32 = t.year as i32;
        let ghost start = (day as int, month as int, year as int);

        while day < 1
            invariant
                -6 <= start.0,
                day < 1 ==> (day as int, month as int, year as int) == start,
                -6 <= day <= 300,
                0 <= month <= 255 || month == 12,
                t0.year - 1 <= year <= t0.year,
                start.2 == t0.year,
                borrow_days(day as int, month as int, year as int) == borrow_days(
                    start.0,
                    start.1,
                    start.2,
                ),
            decreases 40 - day,
        {
            month = month - 1;
            if month < 1 {
                month = 12;
                year = year - 1;
            }
            day = day + days_in_month(year, month);
        }
        let ghost mid = (day as int, month as int, year as int);
        while day > days_in_month(year, month)
            invariant
                1 <= day <= 300,
                0 <= month <= 255,
                -1 <= year,
                year + day <= mid.2 + mid.0,
                mid.2 <= 65535,
                mid.0 <= 300,
                carry_days(day as int, month as int, year as int) == carry_days(
                    mid.0,
                    mid.1,
                    mid.2,
                ),
            decreases day,
        {
            day = day - days_in_month(year, month);
            month = month + 1;
            if month > 12 {
                month = 1;
                year = year + 1;
            }
        }
        t.day = day as u8;
        t.month = month as u8;
        t.year = year as u16;
    }
    t
}

} // verus!
