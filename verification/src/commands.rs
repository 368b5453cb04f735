use vstd::prelude::*;
use vstd::slice::{slice_subrange, slice_to_vec};
use crate::clipboard::{self, Clipboard, clipped};
use crate::rtc::RtcTime;
use crate::system::{self, SystemState, SystemInfo, local_time, clamp_scale};
use crate::textfmt::{
    lit, bytes_of, dec, two, write_str, write_u32, write_u64, write_i8, write_two, ieq,
    eq_ignore_case, scan, scan_bytes, first_word, after_word, split_first_word, split_words,
};

verus! {

/// What the desktop should do after a console command.
#[derive(Debug, Copy, Clone, PartialEq, Eq, Structural)]
pub enum ConsoleAction {
    Idle,
    OpenExplorer,
    OpenClipboard,
    OpenNotepad,
    OpenBrowser,
    Reboot,
    Shutdown,
}

/// How a line of console output is coloured.
#[derive(Debug, Copy, Clone, PartialEq, Eq, Structural)]
pub enum LineType {
    Normal,
    Success,
    Error,
    Info,
}

/// Most lines a command produces.
pub const MAX_RESULT_LINES: usize = 8;
/// Most bytes in one line of output.
pub const MAX_LINE: usize = 64;

/// Output lines with their colours.
pub type Lines = (Seq<Seq<u8>>, Seq<LineType>);

/// No output yet.
pub open spec fn no_lines() -> Lines {
    (Seq::empty(), Seq::empty())
}

/// A line as stored: its first 64 bytes.
pub open spec fn trunc_line(text: Seq<u8>) -> Seq<u8> {
    if text.len() > MAX_LINE {
        text.take(MAX_LINE as int)
    } else {
        text
    }
}

/// Output after adding `text`: appended (cut to 64 bytes) unless eight lines
/// are already there, in which case it is dropped.
pub open spec fn push_line(ls: Lines, text: Seq<u8>, t: LineType) -> Lines {
    if ls.0.len() >= MAX_RESULT_LINES {
        ls
    } else {
        (ls.0.push(trunc_line(text)), ls.1.push(t))
    }
}

/// The output of a console command and what the desktop should do next;
/// `beep` asks for the PC speaker to sound.
pub struct CommandResult {
    pub lines: Vec<Vec<u8>>,
    pub types: Vec<LineType>,
    pub action: ConsoleAction,
    pub beep: bool,
}

impl CommandResult {
    /// The output lines and their colours.
    pub open spec fn view(&self) -> Lines {
        (self.lines@.map_values(|l: Vec<u8>| l@), self.types@)
    }

    /// One colour per line, at most eight lines of at most 64 bytes.
    pub open spec fn wf(&self) -> bool {
        &&& self.lines@.len() == self.types@.len()
        &&& self.lines@.len() <= MAX_RESULT_LINES
        &&& forall|i: int| 0 <= i < self.lines@.len() ==> #[trigger] self.lines@[i]@.len() <= MAX_LINE
    }

    /// An empty result that asks for nothing.
    pub fn new() -> (r: CommandResult)
        ensures
            r.wf(),
            r@ == no_lines(),
            r.action == ConsoleAction::Idle,
            !r.beep,
    {
        let r = CommandResult {
            lines: Vec::new(),
            types: Vec::new(),
            action: ConsoleAction::Idle,
            beep: false,
        };
        assert(r@.0 =~= Seq::<Seq<u8>>::empty());
        r
    }

    /// Number of lines.
    pub fn count(&self) -> (n: usize)
        ensures
            n == self@.0.len(),
    {
        self.lines.len()
    }

    /// Adds a line of output (see `push_line`).
    pub fn add_line(&mut self, text: &[u8], line_type: LineType)
        requires
            old(self).wf(),
        ensures
            final(self).wf(),
            final(self)@ == push_line(old(self)@, text@, line_type),
            final(self).action == old(self).action,
            final(self).beep == old(self).beep,
    {
        if self.lines.len() >= MAX_RESULT_LINES {
            return;
        }
        let n = if text.len() > MAX_LINE { MAX_LINE } else { text.len() };
        let v = slice_to_vec(slice_subrange(text, 0, n));
        let ghost before = self.lines@;
        self.lines.push(v);
        self.types.push(line_type);
        proof {
            assert(v@ =~= trunc_line(text@));
            assert(self.lines@.map_values(|l: Vec<u8>| l@) =~= before.map_values(
                |l: Vec<u8>| l@,
            ).push(v@));
        }
    }

    /// Adds a success line.
    pub fn add_success(&mut self, text: &[u8])
        requires
            old(self).wf(),
        ensures
            final(self).wf(),
            final(self)@ == push_line(old(self)@, text@, LineType::Success),
            final(self).action == old(self).action,
            final(self).beep == old(self).beep,
    {
        self.add_line(text, LineType::Success);
    }

    /// Adds an error line.
    pub fn add_error(&mut self, text: &[u8])
        requires
            old(self).wf(),
        ensures
            final(self).wf(),
            final(self)@ == push_line(old(self)@, text@, LineType::Error),
            final(self).action == old(self).action,
            final(self).beep == old(self).beep,
    {
        self.add_line(text, LineType::Error);
    }

    /// Adds an information line.
    pub fn add_info(&mut self, text: &[u8])
        requires
            old(self).wf(),
        ensures
            final(self).wf(),
            final(self)@ == push_line(old(self)@, text@, LineType::Info),
            final(self).action == old(self).action,
            final(self).beep == old(self).beep,
    {
        self.add_line(text, LineType::Info);
    }

    /// Adds a plain line.
    pub fn add_normal(&mut self, text: &[u8])
        requires
            old(self).wf(),
        ensures
            final(self).wf(),
            final(self)@ == push_line(old(self)@, text@, LineType::Normal),
            final(self).action == old(self).action,
            final(self).beep == old(self).beep,
    {
        self.add_line(text, LineType::Normal);
    }
}

// ---------------------------------------------------------------------------
// What each command prints.

/// `+N` or `-N` for an offset from GMT.
pub open spec fn signed(off: i8) -> Seq<u8> {
    if off >= 0 {
        seq![43u8] + dec(off as nat)
    } else {
        seq![45u8] + dec((-off) as nat)
    }
}

/// Appends `+N` or `-N`.
fn write_signed(buf: &mut Vec<u8>, off: i8)
    ensures
        final(buf)@ == old(buf)@ + signed(off),
{
    if off >= 0 {
        buf.push(43u8);
        write_i8(buf, off);
    } else {
        buf.push(45u8);
        write_u32(buf, (0i32 - off as i32) as u32);
    }
    proof {
        assert(final(buf)@ =~= old(buf)@ + signed(off));
    }
}

pub open spec fn help_spec(ls: Lines) -> Lines {
    let ls = push_line(ls, lit("=== Available Commands ==="), LineType::Info);
    let ls = push_line(ls, lit("help  clear  cls  echo  ver  about  res  whoami"), LineType::Normal);
    let ls = push_line(
        ls,
        lit("ping  time  date  mem  sysinfo  rand  explorer  notepad  browser"),
        LineType::Normal,
    );
    let ls = push_line(ls, lit("clip  copy  paste  set  gmt  uptime  beep"), LineType::Normal);
    push_line(ls, lit("sysfetch  reboot  shutdown"), LineType::Normal)
}

/// The `time` line for a clock reading `t`.
#[verifier::opaque]
pub open spec fn time_line(t: RtcTime, off: i8, clock_24h: bool) -> Seq<u8> {
    let adj = local_time(t, off);
    let hour: u8 = if clock_24h {
        adj.hour
    } else if adj.hour == 0 {
        12
    } else if adj.hour > 12 {
        (adj.hour - 12) as u8
    } else {
        adj.hour
    };
    let suffix = if clock_24h {
        Seq::<u8>::empty()
    } else if adj.hour >= 12 {
        seq![32u8] + lit("PM")
    } else {
        seq![32u8] + lit("AM")
    };
    lit("Time (GMT") + signed(off) + seq![41u8, 58u8] + lit(" ") + two(hour) + seq![58u8] + two(
        adj.min,
    ) + seq![58u8] + two(adj.sec) + suffix
}

/// The `date` line for a clock reading `t`.
#[verifier::opaque]
pub open spec fn date_line(t: RtcTime, off: i8) -> Seq<u8> {
    let adj = local_time(t, off);
    lit("Date: ") + dec(adj.year as nat) + seq![45u8] + two(adj.month) + seq![45u8] + two(adj.day)
}

/// A line `prefix N suffix`.
pub open spec fn num_line(prefix: Seq<u8>, val: u64, suffix: Seq<u8>) -> Seq<u8> {
    prefix + dec(val as nat) + suffix
}

#[verifier::opaque]
pub open spec fn mem_spec(ls: Lines, info: SystemInfo) -> Lines {
    let total = info.mem_total_kib / 1024;
    let avail = info.mem_avail_kib / 1024;
    let used = if total >= avail {
        (total - avail) as u64
    } else {
        0u64
    };
    let ls = push_line(ls, lit("=== Memory Info ==="), LineType::Info);
    let ls = push_line(ls, num_line(lit("Total: "), total, lit(" MiB")), LineType::Normal);
    let ls = push_line(ls, num_line(lit("Available: "), avail, lit(" MiB")), LineType::Normal);
    let ls = push_line(ls, num_line(lit("Used: "), used, lit(" MiB")), LineType::Normal);
    push_line(ls, lit("Memory OK"), LineType::Success)
}

#[verifier::opaque]
pub open spec fn sysinfo_spec(ls: Lines, info: SystemInfo) -> Lines {
    let ls = push_line(ls, lit("=== System Info ==="), LineType::Info);
    let line = lit("Display: ") + dec((info.fb_w as u32) as nat) + seq![120u8] + dec(
        (info.fb_h as u32) as nat,
    ) + seq![32u8] + dec(info.fb_bpp as nat) + lit("bpp");
    let ls = push_line(ls, line, LineType::Normal);
    let ls = push_line(
        ls,
        num_line(lit("RAM: "), info.mem_total_kib / 1024, lit(" MiB")),
        LineType::Normal,
    );
    push_line(ls, lit("System healthy"), LineType::Success)
}

/// The next value of the console's pseudo-random generator.
pub open spec fn next_rand(state: u32) -> u32 {
    ((state as int * 1664525 + 1013904223) % 0x1_0000_0000) as u32
}

#[verifier::opaque]
pub open spec fn sysfetch_spec(ls: Lines, fb_w: usize, fb_h: usize, sys: SystemState) -> Lines {
    let ls = push_line(ls, lit("    _____                      "), LineType::Info);
    let ls = push_line(ls, lit("   /  _  \\___  ___  ___ ______"), LineType::Info);
    let ls = push_line(ls, lit("  /  /_\\  \\  \\/  / |/ // __/"), LineType::Info);
    let ls = push_line(ls, lit(" /    /    \\    /|   /\\__ \\"), LineType::Info);
    let ls = push_line(ls, lit(" \\____|_  /__/\\_\\ |_| /___/"), LineType::Info);
    let ls = push_line(ls, lit("        \\/                    "), LineType::Info);
    let ls = push_line(ls, Seq::<u8>::empty(), LineType::Normal);
    let ls = push_line(ls, lit("OS: HouseOS v3.4"), LineType::Normal);
    let ls = push_line(
        ls,
        lit("Resolution: ") + dec((fb_w as u32) as nat) + seq![120u8] + dec((fb_h as u32) as nat),
        LineType::Normal,
    );
    let ls = push_line(
        ls,
        num_line(lit("RAM: "), sys.info.mem_total_kib / 1024, lit(" MiB")),
        LineType::Normal,
    );
    let ls = push_line(ls, lit("Timezone: GMT") + signed(sys.gmt_offset), LineType::Normal);
    push_line(ls, lit("System ready"), LineType::Success)
}

/// Seconds since midnight of a clock reading.
pub open spec fn day_secs(t: RtcTime) -> int {
    t.hour as int * 3600 + t.min as int * 60 + t.sec as int
}

/// Days between two readings, counting every month as 30 days and every year as 365.
pub open spec fn rough_days(boot: RtcTime, now: RtcTime) -> int {
    (now.year as int - boot.year as int) * 365 + (now.month as int - boot.month as int) * 30 + (
    now.day as int - boot.day as int)
}

/// Seconds of uptime between `boot` and `now` (time of day wrapping past
/// midnight once, plus whole rough days when `now` is on a later day).
pub open spec fn uptime_secs(boot: RtcTime, now: RtcTime) -> int {
    let b = day_secs(boot);
    let n = day_secs(now);
    let up = if n >= b {
        n - b
    } else {
        (86400 - b) + n
    };
    let dd = rough_days(boot, now);
    if dd > 0 {
        up + dd * 86400
    } else {
        up
    }
}

/// The uptime computation stays within 32 bits.
pub open spec fn uptime_ok(boot: RtcTime, now: RtcTime) -> bool {
    &&& (day_secs(now) < day_secs(boot) ==> day_secs(boot) <= 86400)
    &&& uptime_secs(boot, now) <= u32::MAX
}

/// The `uptime` line: `D days, ` when at least a day, then `H:MM:SS`.
#[verifier::opaque]
pub open spec fn uptime_line(boot: RtcTime, now: RtcTime) -> Seq<u8> {
    let up = uptime_secs(boot, now);
    let days = up / 86400;
    let hours = (up % 86400) / 3600;
    let mins = (up % 3600) / 60;
    let secs = up % 60;
    (if days > 0 {
        dec(days as nat) + lit(" days, ")
    } else {
        Seq::<u8>::empty()
    }) + dec(hours as nat) + lit(":") + two(mins as u8) + lit(":") + two(secs as u8)
}

// ---------------------------------------------------------------------------
// `set`

/// Settings and output after `set <rest>`.
#[verifier::opaque]
pub open spec fn set_spec(ls: Lines, rest: Seq<u8>, sys: SystemState) -> (Lines, SystemState) {
    let key = first_word(rest, rest.len() as int);
    let value = after_word(rest, rest.len() as int);
    if key.len() == 0 {
        let ls = push_line(ls, lit("=== Settings ==="), LineType::Info);
        let ls = push_line(ls, lit("set clock 24|12"), LineType::Normal);
        let ls = push_line(ls, lit("set statusbar on|off"), LineType::Normal);
        let ls = push_line(ls, lit("set accent blue|green|orange|gray"), LineType::Normal);
        let ls = push_line(ls, lit("set mouse 1|2|3|4"), LineType::Normal);
        (push_line(ls, lit("set theme dark|light"), LineType::Normal), sys)
    } else if ieq(key, lit("clock")) {
        if ieq(value, lit("24")) {
            (
                push_line(ls, lit("Clock set to 24h format"), LineType::Success),
                SystemState { ui: system::UiSettings { clock_24h: true, ..sys.ui }, ..sys },
            )
        } else if ieq(value, lit("12")) {
            (
                push_line(ls, lit("Clock set to 12h format"), LineType::Success),
                SystemState { ui: system::UiSettings { clock_24h: false, ..sys.ui }, ..sys },
            )
        } else {
            (push_line(ls, lit("Usage: set clock 24|12"), LineType::Error), sys)
        }
    } else if ieq(key, lit("statusbar")) {
        if ieq(value, lit("on")) {
            (
                push_line(ls, lit("Status bar enabled"), LineType::Success),
                SystemState { ui: system::UiSettings { status_bar: true, ..sys.ui }, ..sys },
            )
        } else if ieq(value, lit("off")) {
            (
                push_line(ls, lit("Status bar disabled"), LineType::Success),
                SystemState { ui: system::UiSettings { status_bar: false, ..sys.ui }, ..sys },
            )
        } else {
            (push_line(ls, lit("Usage: set statusbar on|off"), LineType::Error), sys)
        }
    } else if ieq(key, lit("accent")) {
        if ieq(value, lit("blue")) {
            (
                push_line(ls, lit("Accent color: Blue"), LineType::Success),
                SystemState { ui: system::UiSettings { accent: 0x003A8FE5, ..sys.ui }, ..sys },
            )
        } else if ieq(value, lit("green")) {
            (
                push_line(ls, lit("Accent color: Green"), LineType::Success),
                SystemState { ui: system::UiSettings { accent: 0x003AA973, ..sys.ui }, ..sys },
            )
        } else if ieq(value, lit("orange")) {
            (
                push_line(ls, lit("Accent color: Orange"), LineType::Success),
                SystemState { ui: system::UiSettings { accent: 0x00D98A33, ..sys.ui }, ..sys },
            )
        } else if ieq(value, lit("gray")) {
            (
                push_line(ls, lit("Accent color: Gray"), LineType::Success),
                SystemState { ui: system::UiSettings { accent: 0x00718393, ..sys.ui }, ..sys },
            )
        } else {
            (push_line(ls, lit("Usage: set accent blue|green|orange|gray"), LineType::Error), sys)
        }
    } else if ieq(key, lit("mouse")) {
        if value.len() == 1 && 49 <= value[0] <= 52 {
            (
                push_line(ls, lit("Mouse speed updated"), LineType::Success),
                SystemState {
                    ui: system::UiSettings {
                        mouse_scale: clamp_scale((value[0] - 48) as i32),
                        ..sys.ui
                    },
                    ..sys
                },
            )
        } else {
            (push_line(ls, lit("Usage: set mouse 1|2|3|4"), LineType::Error), sys)
        }
    } else if ieq(key, lit("theme")) {
        if ieq(value, lit("dark")) {
            (
                push_line(ls, lit("Theme: Dark mode"), LineType::Success),
                SystemState { ui: system::UiSettings { dark: true, ..sys.ui }, ..sys },
            )
        } else if ieq(value, lit("light")) {
            (
                push_line(ls, lit("Theme: Light mode"), LineType::Success),
                SystemState { ui: system::UiSettings { dark: false, ..sys.ui }, ..sys },
            )
        } else {
            (push_line(ls, lit("Usage: set theme dark|light"), LineType::Error), sys)
        }
    } else {
        (push_line(ls, lit("Unknown setting"), LineType::Error), sys)
    }
}

fn handle_set(rest: &[u8], result: &mut CommandResult, sys: &mut SystemState)
    requires
        old(result).wf(),
    ensures
        final(result).wf(),
        (final(result)@, *final(sys)) == set_spec(old(result)@, rest@, *old(sys)),
        final(result).action == old(result).action,
        final(result).beep == old(result).beep,
{
    reveal(set_spec);
    let (key, value) = split_words(rest);
    if key.len() == 0 {
        result.add_info(bytes_of("=== Settings ==="));
        result.add_normal(bytes_of("set clock 24|12"));
        result.add_normal(bytes_of("set statusbar on|off"));
        result.add_normal(bytes_of("set accent blue|green|orange|gray"));
        result.add_normal(bytes_of("set mouse 1|2|3|4"));
        result.add_normal(bytes_of("set theme dark|light"));
        return;
    }
    if eq_ignore_case(key, bytes_of("clock")) {
        if eq_ignore_case(value, bytes_of("24")) {
            system::set_clock_24h(sys, true);
            result.add_success(bytes_of("Clock set to 24h format"));
        } else if eq_ignore_case(value, bytes_of("12")) {
            system::set_clock_24h(sys, false);
            result.add_success(bytes_of("Clock set to 12h format"));
        } else {
            result.add_error(bytes_of("Usage: set clock 24|12"));
        }
        return;
    }
    if eq_ignore_case(key, bytes_of("statusbar")) {
        if eq_ignore_case(value, bytes_of("on")) {
            system::set_status_bar(sys, true);
            result.add_success(bytes_of("Status bar enabled"));
        } else if eq_ignore_case(value, bytes_of("off")) {
            system::set_status_bar(sys, false);
            result.add_success(bytes_of("Status bar disabled"));
        } else {
            result.add_error(bytes_of("Usage: set statusbar on|off"));
        }
        return;
    }
    if eq_ignore_case(key, bytes_of("accent")) {
        if eq_ignore_case(value, bytes_of("blue")) {
            system::set_accent(sys, 0x003A8FE5);
            result.add_success(bytes_of("Accent color: Blue"));
        } else if eq_ignore_case(value, bytes_of("green")) {
            system::set_accent(sys, 0x003AA973);
            result.add_success(bytes_of("Accent color: Green"));
        } else if eq_ignore_case(value, bytes_of("orange")) {
            system::set_accent(sys, 0x00D98A33);
            result.add_success(bytes_of("Accent color: Orange"));
        } else if eq_ignore_case(value, bytes_of("gray")) {
            system::set_accent(sys, 0x00718393);
            result.add_success(bytes_of("Accent color: Gray"));
        } else {
            result.add_error(bytes_of("Usage: set accent blue|green|orange|gray"));
        }
        return;
    }
    if eq_ignore_case(key, bytes_of("mouse")) {
        if value.len() == 1 {
            let v = value[0];
            if v >= 49 && v <= 52 {
                let scale = (v - 48) as i32;
                system::set_mouse_scale(sys, scale);
                result.add_success(bytes_of("Mouse speed updated"));
                return;
            }
        }
        result.add_error(bytes_of("Usage: set mouse 1|2|3|4"));
        return;
    }
    if eq_ignore_case(key, bytes_of("theme")) {
        if eq_ignore_case(value, bytes_of("dark")) {
            system::set_theme(sys, true);
            result.add_success(bytes_of("Theme: Dark mode"));
        } else if eq_ignore_case(value, bytes_of("light")) {
            system::set_theme(sys, false);
            result.add_success(bytes_of("Theme: Light mode"));
        } else {
            result.add_error(bytes_of("Usage: set theme dark|light"));
        }
        return;
    }
    result.add_error(bytes_of("Unknown setting"));
}

// ---------------------------------------------------------------------------
// `gmt`

/// How reading the digits of a `gmt` argument goes: a bad byte, a value over
/// 14, or the value.
#[derive(Debug, Copy, Clone, PartialEq, Eq, Structural)]
pub enum GmtDigits {
    Invalid,
    OutOfRange,
    Value(i8),
}

/// Reads decimal digits `d` onto the running value `val`, stopping at the
/// first non-digit or once the value passes 14.
pub open spec fn parse_digits(d: Seq<u8>, val: int) -> GmtDigits
    decreases d.len(),
{
    if d.len() == 0 {
        GmtDigits::Value(val as i8)
    } else if d[0] < 48 || d[0] > 57 {
        GmtDigits::Invalid
    } else if val * 10 + (d[0] - 48) > 14 {
        GmtDigits::OutOfRange
    } else {
        parse_digits(d.drop_first(), val * 10 + (d[0] - 48))
    }
}

/// The argument token of `gmt <rest>` and the index where its digits start.
pub open spec fn gmt_token(rest: Seq<u8>) -> (Seq<u8>, int) {
    let i0 = scan(rest, 0, rest.len() as int, true);
    let i1 = scan(rest, i0, rest.len() as int, false);
    let token = rest.subrange(i0, i1);
    let idx = if token.len() > 0 && (token[0] == 43u8 || token[0] == 45u8) {
        1int
    } else {
        0int
    };
    (token, idx)
}

/// Output and time zone after `gmt <rest>`.
#[verifier::opaque]
pub open spec fn gmt_spec(ls: Lines, rest: Seq<u8>, sys: SystemState) -> (Lines, SystemState) {
    let (token, idx) = gmt_token(rest);
    if rest.len() == 0 {
        (
            push_line(ls, lit("Current GMT offset: ") + signed(sys.gmt_offset), LineType::Success),
            sys,
        )
    } else if scan(rest, 0, rest.len() as int, true) >= rest.len() || token.len() == 0 {
        (push_line(ls, lit("Missing offset"), LineType::Error), sys)
    } else if idx >= token.len() {
        (push_line(ls, lit("Missing number after sign"), LineType::Error), sys)
    } else {
        match parse_digits(token.skip(idx), 0) {
            GmtDigits::Invalid => (push_line(ls, lit("Invalid number"), LineType::Error), sys),
            GmtDigits::Value(v) => {
                let off = if token[0] == 45u8 {
                    -v
                } else {
                    v as int
                };
                if off < -12 || off > 14 {
                    (push_line(ls, lit("Offset out of range (-12..+14)"), LineType::Error), sys)
                } else {
                    (
                        push_line(
                            ls,
                            lit("GMT offset set to ") + signed(off as i8),
                            LineType::Success,
                        ),
                        SystemState { gmt_offset: off as i8, ..sys },
                    )
                }
            },
            _ => (push_line(ls, lit("Offset out of range (-12..+14)"), LineType::Error), sys),
        }
    }
}

fn handle_gmt(rest: &[u8], result: &mut CommandResult, sys: &mut SystemState)
    requires
        old(result).wf(),
    ensures
        final(result).wf(),
        (final(result)@, *final(sys)) == gmt_spec(old(result)@, rest@, *old(sys)),
        final(result).action == old(result).action,
        final(result).beep == old(result).beep,
{
    reveal(gmt_spec);
    if rest.len() == 0 {
        let mut buf: Vec<u8> = Vec::new();
        write_str(&mut buf, bytes_of("Current GMT offset: "));
        write_signed(&mut buf, sys.gmt_offset);
        result.add_success(buf.as_slice());
        return;
    }
    let mut i = scan_bytes(rest, 0, rest.len(), true);
    if i >= rest.len() {
        result.add_error(bytes_of("Missing offset"));
        return;
    }
    let start = i;
    i = scan_bytes(rest, start, rest.len(), false);
    let token = slice_subrange(rest, start, i);
    if token.len() == 0 {
        result.add_error(bytes_of("Missing offset"));
        return;
    }
    let mut sign: i8 = 1;
    let mut idx: usize = 0;
    if token[0] == 43u8 {
        sign = 1;
        idx = 1;
    } else if token[0] == 45u8 {
        sign = -1;
        idx = 1;
    }
    if idx >= token.len() {
        result.add_error(bytes_of("Missing number after sign"));
        return;
    }
    let ghost digits = token@.skip(idx as int);
    assert(token@ == gmt_token(rest@).0);
    assert(idx == gmt_token(rest@).1);
    proof {
        assert(token@.skip(idx as int) =~= digits);
    }
    let mut val: i8 = 0;
    let mut k = idx;
    while k < token.len()
        invariant
            idx <= k <= token@.len(),
            idx < token@.len(),
            0 <= val <= 14,
            rest@.len() > 0,
            scan(rest@, 0, rest@.len() as int, true) < rest@.len(),
            token@ == gmt_token(rest@).0,
            idx == gmt_token(rest@).1,
            digits == token@.skip(idx as int),
            sign == (if token@[0] == 45u8 { -1int } else { 1int }),
            parse_digits(digits, 0) == parse_digits(token@.skip(k as int), val as int),
            old(result).wf(),
            *result == *old(result),
            *sys == *old(sys),
        decreases token@.len() - k,
    {
        proof {
            assert(token@.skip(k as int).drop_first() =~= token@.skip(k + 1));
        }
        proof {
            reveal(gmt_spec);
        }
        let b = token[k];
        if b < 48 || b > 57 {
            result.add_error(bytes_of("Invalid number"));
            return;
        }
        let next: i16 = val as i16 * 10 + (b - 48) as i16;
        if next > 14 {
            result.add_error(bytes_of("Offset out of range (-12..+14)"));
            return;
        }
        val = next as i8;
        k = k + 1;
    }
    proof {
        assert(token@.skip(k as int).len() == 0);
    }
    let new_offset = sign * val;
    if new_offset < -12 || new_offset > 14 {
        result.add_error(bytes_of("Offset out of range (-12..+14)"));
        return;
    }
    system::set_gmt_offset(sys, new_offset);
    let mut buf: Vec<u8> = Vec::new();
    write_str(&mut buf, bytes_of("GMT offset set to "));
    write_signed(&mut buf, new_offset);
    result.add_success(buf.as_slice());
}

fn handle_uptime(result: &mut CommandResult, sys: &SystemState, now: Option<RtcTime>)
    requires
        old(result).wf(),
        sys.boot_time.is_some() && now.is_some() ==> uptime_ok(sys.boot_time.unwrap(), now.unwrap()),
    ensures
        final(result).wf(),
        final(result)@ == if sys.boot_time.is_some() && now.is_some() {
            push_line(
                old(result)@,
                uptime_line(sys.boot_time.unwrap(), now.unwrap()),
                LineType::Success,
            )
        } else {
            push_line(old(result)@, lit("Uptime not available (RTC missing)"), LineType::Error)
        },
        final(result).action == old(result).action,
        final(result).beep == old(result).beep,
{
    reveal(uptime_line);
    if let Some(boot) = system::get_boot_time(sys) {
        if let Some(now) = now {
            let boot_secs = boot.hour as u32 * 3600 + boot.min as u32 * 60 + boot.sec as u32;
            let now_secs = now.hour as u32 * 3600 + now.min as u32 * 60 + now.sec as u32;
            let mut uptime_secs = if now_secs >= boot_secs {
                now_secs - boot_secs
            } else {
                (24 * 3600 - boot_secs) + now_secs
            };
            let day_diff: i32 = (now.year as i32 - boot.year as i32) * 365 + (now.month as i32
                - boot.month as i32) * 30 + (now.day as i32 - boot.day as i32);
            if day_diff > 0 {
                uptime_secs = uptime_secs + (day_diff as u32) * 86400;
            }
            let days = uptime_secs / 86400;
            let hours = (uptime_secs % 86400) / 3600;
            let mins = (uptime_secs % 3600) / 60;
            let secs = uptime_secs % 60;
            let mut buf: Vec<u8> = Vec::new();
            if days > 0 {
                write_u32(&mut buf, days);
                write_str(&mut buf, bytes_of(" days, "));
            }
            write_u32(&mut buf, hours);
            write_str(&mut buf, bytes_of(":"));
            write_two(&mut buf, mins as u8);
            write_str(&mut buf, bytes_of(":"));
            write_two(&mut buf, secs as u8);
            result.add_success(buf.as_slice());
            return;
        }
    }
    result.add_error(bytes_of("Uptime not available (RTC missing)"));
}

fn add_mem_line(result: &mut CommandResult, prefix: &[u8], val: u64, suffix: &[u8])
    requires
        old(result).wf(),
    ensures
        final(result).wf(),
        final(result)@ == push_line(
            old(result)@,
            num_line(prefix@, val, suffix@),
            LineType::Normal,
        ),
        final(result).action == old(result).action,
        final(result).beep == old(result).beep,
{
    let mut buf: Vec<u8> = Vec::new();
    write_str(&mut buf, prefix);
    write_u64(&mut buf, val);
    write_str(&mut buf, suffix);
    proof {
        assert(buf@ =~= num_line(prefix@, val, suffix@));
    }
    result.add_normal(buf.as_slice());
}

fn handle_sysfetch(result: &mut CommandResult, fb_w: usize, fb_h: usize, sys: &SystemState)
    requires
        old(result).wf(),
    ensures
        final(result).wf(),
        final(result)@ == sysfetch_spec(old(result)@, fb_w, fb_h, *sys),
        final(result).action == old(result).action,
        final(result).beep == old(result).beep,
{
    reveal(sysfetch_spec);
    result.add_info(bytes_of("    _____                      "));
    result.add_info(bytes_of("   /  _  \\___  ___  ___ ______"));
    result.add_info(bytes_of("  /  /_\\  \\  \\/  / |/ // __/"));
    result.add_info(bytes_of(" /    /    \\    /|   /\\__ \\"));
    result.add_info(bytes_of(" \\____|_  /__/\\_\\ |_| /___/"));
    result.add_info(bytes_of("        \\/                    "));
    let empty: Vec<u8> = Vec::new();
    result.add_normal(empty.as_slice());
    result.add_normal(bytes_of("OS: HouseOS v3.4"));
    let mut buf: Vec<u8> = Vec::new();
    write_str(&mut buf, bytes_of("Resolution: "));
    write_u32(&mut buf, fb_w as u32);
    buf.push(120u8);
    write_u32(&mut buf, fb_h as u32);
    result.add_normal(buf.as_slice());
    add_mem_line(result, bytes_of("RAM: "), sys.info.mem_total_kib / 1024, bytes_of(" MiB"));
    let mut tz: Vec<u8> = Vec::new();
    write_str(&mut tz, bytes_of("Timezone: GMT"));
    write_signed(&mut tz, sys.gmt_offset);
    result.add_normal(tz.as_slice());
    result.add_success(bytes_of("System ready"));
    proof {
        assert(buf@ =~= lit("Resolution: ") + dec((fb_w as u32) as nat) + seq![120u8] + dec(
            (fb_h as u32) as nat,
        ));
        assert(empty@ =~= Seq::<u8>::empty());
    }
}


// ---------------------------------------------------------------------------
// Dispatch

/// Whether `name` is one of the command words `a` or `b` (any letter case).
pub open spec fn is_cmd(head: Seq<u8>, a: &str, b: &str) -> bool {
    ieq(head, lit(a)) || ieq(head, lit(b))
}

/// The inputs on which running `cmd[..len]` stays within its arithmetic:
/// the uptime between the boot and the current clock readings fits in 32
/// bits (see `uptime_ok`).
pub open spec fn command_safe(cmd: Seq<u8>, len: int, sys: SystemState, now: Option<RtcTime>) -> bool {
    let head = first_word(cmd, len);
    &&& (is_cmd(head, "uptime", "uptime") && sys.boot_time.is_some() && now.is_some())
        ==> uptime_ok(sys.boot_time.unwrap(), now.unwrap())
}

/// Everything running a command yields: its output, the action for the
/// desktop, whether to beep, and the new settings, clipboard and random state.
pub type Outcome = (Lines, ConsoleAction, bool, SystemState, Seq<u8>, u32);

/// A command that only prints one line and asks for `action`.
pub open spec fn say(
    text: Seq<u8>,
    t: LineType,
    action: ConsoleAction,
    sys: SystemState,
    clip: Seq<u8>,
    rand: u32,
) -> Outcome {
    (push_line(no_lines(), text, t), action, false, sys, clip, rand)
}

/// What running the console command `cmd[..len]` does. The first word picks
/// the command (ignoring letter case); the rest is its argument.
#[verifier::opaque]
pub open spec fn command_outcome(
    cmd: Seq<u8>,
    len: int,
    rand: u32,
    fb_w: usize,
    fb_h: usize,
    sys: SystemState,
    clip: Seq<u8>,
    now: Option<RtcTime>,
) -> Outcome {
    let head = first_word(cmd, len);
    let rest = after_word(cmd, len);
    if head.len() == 0 {
        (no_lines(), ConsoleAction::Idle, false, sys, clip, rand)
    } else {
        outcome_info(head, rest, rand, fb_w, fb_h, sys, clip, now)
    }
}

/// Commands that only report: `help` through `ping`.
#[verifier::opaque]
pub open spec fn outcome_info(
    head: Seq<u8>,
    rest: Seq<u8>,
    rand: u32,
    fb_w: usize,
    fb_h: usize,
    sys: SystemState,
    clip: Seq<u8>,
    now: Option<RtcTime>,
) -> Outcome {
    let e = no_lines();
    let idle = ConsoleAction::Idle;
    if is_cmd(head, "help", "help") {
        (help_spec(e), idle, false, sys, clip, rand)
    } else if is_cmd(head, "clear", "cls") {
        say(lit("Screen cleared"), LineType::Success, idle, sys, clip, rand)
    } else if is_cmd(head, "echo", "echo") {
        say(rest, LineType::Normal, idle, sys, clip, rand)
    } else if is_cmd(head, "ver", "version") {
        (
            push_line(
                push_line(e, lit("HouseOS v3.4.0"), LineType::Info),
                lit("Build: Stable (GMT aware)"),
                LineType::Success,
            ),
            idle,
            false,
            sys,
            clip,
            rand,
        )
    } else if is_cmd(head, "about", "about") {
        (
            push_line(
                push_line(
                    push_line(e, lit("=== HouseOS v3.4 ==="), LineType::Info),
                    lit("Lightweight OS Demo with timezone support"),
                    LineType::Normal,
                ),
                lit("Status: Running"),
                LineType::Success,
            ),
            idle,
            false,
            sys,
            clip,
            rand,
        )
    } else if is_cmd(head, "res", "mode") {
        (
            push_line(
                push_line(
                    e,
                    lit("Resolution: ") + dec((fb_w as u32) as nat) + seq![120u8] + dec(
                        (fb_h as u32) as nat,
                    ),
                    LineType::Info,
                ),
                lit("Display mode active"),
                LineType::Success,
            ),
            idle,
            false,
            sys,
            clip,
            rand,
        )
    } else if is_cmd(head, "whoami", "whoami") {
        say(lit("root"), LineType::Success, idle, sys, clip, rand)
    } else if is_cmd(head, "ping", "ping") {
        say(lit("pong"), LineType::Success, idle, sys, clip, rand)
    } else {
        outcome_state(head, rest, rand, fb_w, fb_h, sys, clip, now)
    }
}

/// Commands about time, memory and settings: `time` through `set`.
#[verifier::opaque]
pub open spec fn outcome_state(
    head: Seq<u8>,
    rest: Seq<u8>,
    rand: u32,
    fb_w: usize,
    fb_h: usize,
    sys: SystemState,
    clip: Seq<u8>,
    now: Option<RtcTime>,
) -> Outcome {
    let e = no_lines();
    let idle = ConsoleAction::Idle;
    if is_cmd(head, "time", "time") {
        match now {
            Some(t) => say(
                time_line(t, sys.gmt_offset, sys.ui.clock_24h),
                LineType::Success,
                idle,
                sys,
                clip,
                rand,
            ),
            None => say(lit("Time unavailable"), LineType::Error, idle, sys, clip, rand),
        }
    } else if is_cmd(head, "date", "date") {
        match now {
            Some(t) => say(date_line(t, sys.gmt_offset), LineType::Success, idle, sys, clip, rand),
            None => say(lit("Date unavailable"), LineType::Error, idle, sys, clip, rand),
        }
    } else if is_cmd(head, "mem", "mem") {
        (mem_spec(e, sys.info), idle, false, sys, clip, rand)
    } else if is_cmd(head, "sysinfo", "sysinfo") {
        (sysinfo_spec(e, sys.info), idle, false, sys, clip, rand)
    } else if is_cmd(head, "rand", "rand") {
        say(
            lit("Random: ") + dec(next_rand(rand) as nat),
            LineType::Success,
            idle,
            sys,
            clip,
            next_rand(rand),
        )
    } else if is_cmd(head, "set", "set") {
        let (ls, s2) = set_spec(e, rest, sys);
        (ls, idle, false, s2, clip, rand)
    } else {
        outcome_open(head, rest, rand, fb_w, fb_h, sys, clip, now)
    }
}

/// Clipboard and window commands: `clip` through `browser`.
#[verifier::opaque]
pub open spec fn outcome_open(
    head: Seq<u8>,
    rest: Seq<u8>,
    rand: u32,
    fb_w: usize,
    fb_h: usize,
    sys: SystemState,
    clip: Seq<u8>,
    now: Option<RtcTime>,
) -> Outcome {
    let e = no_lines();
    let idle = ConsoleAction::Idle;
    if is_cmd(head, "clip", "clipboard") {
        say(
            lit("Opening clipboard..."),
            LineType::Success,
            ConsoleAction::OpenClipboard,
            sys,
            clip,
            rand,
        )
    } else if is_cmd(head, "copy", "copy") {
        if rest.len() == 0 {
            say(lit("Usage: copy <text>"), LineType::Error, idle, sys, clip, rand)
        } else {
            say(lit("Copied to clipboard"), LineType::Success, idle, sys, clipped(rest), rand)
        }
    } else if is_cmd(head, "paste", "paste") {
        if clip.len() == 0 {
            say(lit("Clipboard is empty"), LineType::Error, idle, sys, clip, rand)
        } else {
            say(clip, LineType::Normal, idle, sys, clip, rand)
        }
    } else if is_cmd(head, "explorer", "dir") || is_cmd(head, "ls", "ls") {
        say(
            lit("Opening file explorer..."),
            LineType::Success,
            ConsoleAction::OpenExplorer,
            sys,
            clip,
            rand,
        )
    } else if is_cmd(head, "notepad", "note") {
        say(
            lit("Opening notepad..."),
            LineType::Success,
            ConsoleAction::OpenNotepad,
            sys,
            clip,
            rand,
        )
    } else if is_cmd(head, "browser", "web") {
        say(
            lit("Opening browser..."),
            LineType::Success,
            ConsoleAction::OpenBrowser,
            sys,
            clip,
            rand,
        )
    } else {
        outcome_system(head, rest, rand, fb_w, fb_h, sys, clip, now)
    }
}

/// The rest: `gmt` through `shutdown`, and unknown commands.
#[verifier::opaque]
pub open spec fn outcome_system(
    head: Seq<u8>,
    rest: Seq<u8>,
    rand: u32,
    fb_w: usize,
    fb_h: usize,
    sys: SystemState,
    clip: Seq<u8>,
    now: Option<RtcTime>,
) -> Outcome {
    let e = no_lines();
    let idle = ConsoleAction::Idle;
    if is_cmd(head, "gmt", "tz") {
        let (ls, s2) = gmt_spec(e, rest, sys);
        (ls, idle, false, s2, clip, rand)
    } else if is_cmd(head, "uptime", "uptime") {
        if sys.boot_time.is_some() && now.is_some() {
            say(
                uptime_line(sys.boot_time.unwrap(), now.unwrap()),
                LineType::Success,
                idle,
                sys,
                clip,
                rand,
            )
        } else {
            say(lit("Uptime not available (RTC missing)"), LineType::Error, idle, sys, clip, rand)
        }
    } else if is_cmd(head, "beep", "beep") {
        (push_line(e, lit("Beep!"), LineType::Success), idle, true, sys, clip, rand)
    } else if is_cmd(head, "sysfetch", "sysfetch") {
        (sysfetch_spec(e, fb_w, fb_h, sys), idle, false, sys, clip, rand)
    } else if is_cmd(head, "reboot", "reboot") {
        say(lit("Rebooting..."), LineType::Success, ConsoleAction::Reboot, sys, clip, rand)
    } else if is_cmd(head, "shutdown", "shutdown") {
        say(lit("Shutting down..."), LineType::Success, ConsoleAction::Shutdown, sys, clip, rand)
    } else {
        let shown = if head.len() > 50 {
            head.take(50)
        } else {
            head
        };
        say(lit("Unknown: '") + shown + seq![39u8], LineType::Error, idle, sys, clip, rand)
    }
}


/// Runs the console command in `cmd[..len]` (see `command_outcome`). `now`
/// is the clock reading for `time`, `date` and `uptime`; the result's `beep`
/// asks the caller to sound the speaker.
pub fn execute_command(
    cmd: &[u8],
    len: usize,
    rand_state: &mut u32,
    fb_w: usize,
    fb_h: usize,
    sys: &mut SystemState,
    clip: &mut Clipboard,
    now: Option<RtcTime>,
) -> (result: CommandResult)
    requires
        len <= cmd@.len(),
        command_safe(cmd@, len as int, *old(sys), now),
    ensures
        result.wf(),
        old(clip).wf() ==> final(clip).wf(),
        (result@, result.action, result.beep, *final(sys), final(clip).bytes@, *final(rand_state))
            == command_outcome(
            cmd@,
            len as int,
            *old(rand_state),
            fb_w,
            fb_h,
            *old(sys),
            old(clip).bytes@,
            now,
        ),
{
    reveal(command_outcome);
    let (head, rest) = split_first_word(cmd, len);
    if head.len() == 0 {
        return CommandResult::new();
    }
    run_info(head, rest, rand_state, fb_w, fb_h, sys, clip, now)
}

fn run_info(
    head: &[u8],
    rest: &[u8],
    rand_state: &mut u32,
    fb_w: usize,
    fb_h: usize,
    sys: &mut SystemState,
    clip: &mut Clipboard,
    now: Option<RtcTime>,
) -> (result: CommandResult)
    requires
        head@.len() > 0,
        (ieq(head@, lit("uptime")) && old(sys).boot_time.is_some() && now.is_some()) ==> uptime_ok(old(sys).boot_time.unwrap(), now.unwrap()),
    ensures
        result.wf(),
        old(clip).wf() ==> final(clip).wf(),
        (result@, result.action, result.beep, *final(sys), final(clip).bytes@, *final(rand_state))
            == outcome_info(head@, rest@, *old(rand_state), fb_w, fb_h, *old(sys), old(clip).bytes@, now),
{
    reveal(outcome_info);
    let mut result = CommandResult::new();
    if eq_ignore_case(head, bytes_of("help")) {
        result.add_info(bytes_of("=== Available Commands ==="));
        result.add_normal(bytes_of("help  clear  cls  echo  ver  about  res  whoami"));
        result.add_normal(bytes_of("ping  time  date  mem  sysinfo  rand  explorer  notepad  browser"));
        result.add_normal(bytes_of("clip  copy  paste  set  gmt  uptime  beep"));
        result.add_normal(bytes_of("sysfetch  reboot  shutdown"));
    } else if eq_ignore_case(head, bytes_of("clear")) || eq_ignore_case(head, bytes_of("cls")) {
        result.add_success(bytes_of("Screen cleared"));
    } else if eq_ignore_case(head, bytes_of("echo")) {
        result.add_normal(rest);
    } else if eq_ignore_case(head, bytes_of("ver")) || eq_ignore_case(head, bytes_of("version")) {
        result.add_info(bytes_of("HouseOS v3.4.0"));
        result.add_success(bytes_of("Build: Stable (GMT aware)"));
    } else if eq_ignore_case(head, bytes_of("about")) {
        result.add_info(bytes_of("=== HouseOS v3.4 ==="));
        result.add_normal(bytes_of("Lightweight OS Demo with timezone support"));
        result.add_success(bytes_of("Status: Running"));
    } else if eq_ignore_case(head, bytes_of("res")) || eq_ignore_case(head, bytes_of("mode")) {
        let mut buf: Vec<u8> = Vec::new();
        write_str(&mut buf, bytes_of("Resolution: "));
        write_u32(&mut buf, fb_w as u32);
        buf.push(120u8);
        write_u32(&mut buf, fb_h as u32);
        proof {
            assert(buf@ =~= lit("Resolution: ") + dec((fb_w as u32) as nat) + seq![120u8] + dec(
                (fb_h as u32) as nat,
            ));
        }
        result.add_line(buf.as_slice(), LineType::Info);
        result.add_success(bytes_of("Display mode active"));
    } else if eq_ignore_case(head, bytes_of("whoami")) {
        result.add_success(bytes_of("root"));
    } else if eq_ignore_case(head, bytes_of("ping")) {
        result.add_success(bytes_of("pong"));
    } else {
        return run_state(head, rest, rand_state, fb_w, fb_h, sys, clip, now);
    }
    result
}

#[verifier::rlimit(60)]
fn run_state(
    head: &[u8],
    rest: &[u8],
    rand_state: &mut u32,
    fb_w: usize,
    fb_h: usize,
    sys: &mut SystemState,
    clip: &mut Clipboard,
    now: Option<RtcTime>,
) -> (result: CommandResult)
    requires
        head@.len() > 0,
        (ieq(head@, lit("uptime")) && old(sys).boot_time.is_some() && now.is_some()) ==> uptime_ok(old(sys).boot_time.unwrap(), now.unwrap()),
    ensures
        result.wf(),
        old(clip).wf() ==> final(clip).wf(),
        (result@, result.action, result.beep, *final(sys), final(clip).bytes@, *final(rand_state))
            == outcome_state(head@, rest@, *old(rand_state), fb_w, fb_h, *old(sys), old(clip).bytes@, now),
{
    reveal(outcome_state);
    let mut result = CommandResult::new();
    if eq_ignore_case(head, bytes_of("time")) {
        match now {
            Some(t) => {
                let line = format_time_line(t, sys.gmt_offset, sys.ui.clock_24h);
                result.add_line(line.as_slice(), LineType::Success);
            },
            None => {
                result.add_error(bytes_of("Time unavailable"));
            },
        }
    } else if eq_ignore_case(head, bytes_of("date")) {
        match now {
            Some(t) => {
                let adjusted = system::apply_timezone(t, sys.gmt_offset);
                let mut buf: Vec<u8> = Vec::new();
                write_str(&mut buf, bytes_of("Date: "));
                write_u32(&mut buf, adjusted.year as u32);
                buf.push(45u8);
                write_two(&mut buf, adjusted.month);
                buf.push(45u8);
                write_two(&mut buf, adjusted.day);
                proof {
                    reveal(date_line);
                    assert(buf@ =~= date_line(t, sys.gmt_offset));
                }
                result.add_line(buf.as_slice(), LineType::Success);
            },
            None => {
                result.add_error(bytes_of("Date unavailable"));
            },
        }
    } else if eq_ignore_case(head, bytes_of("mem")) {
        proof {
            reveal(mem_spec);
        }
        let info = system::system_info(sys);
        let total_mib = info.mem_total_kib / 1024;
        let avail_mib = info.mem_avail_kib / 1024;
        let used_mib = total_mib.saturating_sub(avail_mib);
        result.add_info(bytes_of("=== Memory Info ==="));
        add_mem_line(&mut result, bytes_of("Total: "), total_mib, bytes_of(" MiB"));
        add_mem_line(&mut result, bytes_of("Available: "), avail_mib, bytes_of(" MiB"));
        add_mem_line(&mut result, bytes_of("Used: "), used_mib, bytes_of(" MiB"));
        result.add_success(bytes_of("Memory OK"));
    } else if eq_ignore_case(head, bytes_of("sysinfo")) {
        proof {
            reveal(sysinfo_spec);
        }
        let info = system::system_info(sys);
        result.add_info(bytes_of("=== System Info ==="));
        let mut buf: Vec<u8> = Vec::new();
        write_str(&mut buf, bytes_of("Display: "));
        write_u32(&mut buf, info.fb_w as u32);
        buf.push(120u8);
        write_u32(&mut buf, info.fb_h as u32);
        buf.push(32u8);
        write_u32(&mut buf, info.fb_bpp as u32);
        write_str(&mut buf, bytes_of("bpp"));
        proof {
            assert(buf@ =~= lit("Display: ") + dec((info.fb_w as u32) as nat) + seq![120u8] + dec(
                (info.fb_h as u32) as nat,
            ) + seq![32u8] + dec(info.fb_bpp as nat) + lit("bpp"));
        }
        result.add_line(buf.as_slice(), LineType::Normal);
        add_mem_line(&mut result, bytes_of("RAM: "), info.mem_total_kib / 1024, bytes_of(" MiB"));
        result.add_success(bytes_of("System healthy"));
    } else if eq_ignore_case(head, bytes_of("rand")) {
        *rand_state = rand_state.wrapping_mul(1664525).wrapping_add(1013904223);
        let mut buf: Vec<u8> = Vec::new();
        write_str(&mut buf, bytes_of("Random: "));
        write_u32(&mut buf, *rand_state);
        result.add_line(buf.as_slice(), LineType::Success);
    } else if eq_ignore_case(head, bytes_of("set")) {
        handle_set(rest, &mut result, sys);
    } else {
        return run_open(head, rest, rand_state, fb_w, fb_h, sys, clip, now);
    }
    result
}

fn run_open(
    head: &[u8],
    rest: &[u8],
    rand_state: &mut u32,
    fb_w: usize,
    fb_h: usize,
    sys: &mut SystemState,
    clip: &mut Clipboard,
    now: Option<RtcTime>,
) -> (result: CommandResult)
    requires
        head@.len() > 0,
        (ieq(head@, lit("uptime")) && old(sys).boot_time.is_some() && now.is_some()) ==> uptime_ok(old(sys).boot_time.unwrap(), now.unwrap()),
    ensures
        result.wf(),
        old(clip).wf() ==> final(clip).wf(),
        (result@, result.action, result.beep, *final(sys), final(clip).bytes@, *final(rand_state))
            == outcome_open(head@, rest@, *old(rand_state), fb_w, fb_h, *old(sys), old(clip).bytes@, now),
{
    reveal(outcome_open);
    let mut result = CommandResult::new();
    if eq_ignore_case(head, bytes_of("clip")) || eq_ignore_case(head, bytes_of("clipboard")) {
        result.add_success(bytes_of("Opening clipboard..."));
        result.action = ConsoleAction::OpenClipboard;
    } else if eq_ignore_case(head, bytes_of("copy")) {
        if rest.len() == 0 {
            result.add_error(bytes_of("Usage: copy <text>"));
        } else {
            clipboard::set(clip, rest);
            result.add_success(bytes_of("Copied to clipboard"));
        }
    } else if eq_ignore_case(head, bytes_of("paste")) {
        let data = clipboard::data(clip);
        if data.len() == 0 {
            result.add_error(bytes_of("Clipboard is empty"));
        } else {
            result.add_normal(data);
        }
    } else if eq_ignore_case(head, bytes_of("explorer")) || eq_ignore_case(head, bytes_of("dir"))
        || eq_ignore_case(head, bytes_of("ls")) {
        result.add_success(bytes_of("Opening file explorer..."));
        result.action = ConsoleAction::OpenExplorer;
    } else if eq_ignore_case(head, bytes_of("notepad")) || eq_ignore_case(head, bytes_of("note")) {
        result.add_success(bytes_of("Opening notepad..."));
        result.action = ConsoleAction::OpenNotepad;
    } else if eq_ignore_case(head, bytes_of("browser")) || eq_ignore_case(head, bytes_of("web")) {
        result.add_success(bytes_of("Opening browser..."));
        result.action = ConsoleAction::OpenBrowser;
    } else {
        return run_system(head, rest, rand_state, fb_w, fb_h, sys, clip, now);
    }
    result
}

#[verifier::rlimit(60)]
fn run_system(
    head: &[u8],
    rest: &[u8],
    rand_state: &mut u32,
    fb_w: usize,
    fb_h: usize,
    sys: &mut SystemState,
    clip: &mut Clipboard,
    now: Option<RtcTime>,
) -> (result: CommandResult)
    requires
        head@.len() > 0,
        (ieq(head@, lit("uptime")) && old(sys).boot_time.is_some() && now.is_some()) ==> uptime_ok(old(sys).boot_time.unwrap(), now.unwrap()),
    ensures
        result.wf(),
        old(clip).wf() ==> final(clip).wf(),
        (result@, result.action, result.beep, *final(sys), final(clip).bytes@, *final(rand_state))
            == outcome_system(head@, rest@, *old(rand_state), fb_w, fb_h, *old(sys), old(clip).bytes@, now),
{
    reveal(outcome_system);
    let mut result = CommandResult::new();
    if eq_ignore_case(head, bytes_of("gmt")) || eq_ignore_case(head, bytes_of("tz")) {
        handle_gmt(rest, &mut result, sys);
    } else if eq_ignore_case(head, bytes_of("uptime")) {
        handle_uptime(&mut result, sys, now);
    } else if eq_ignore_case(head, bytes_of("beep")) {
        result.add_success(bytes_of("Beep!"));
        result.beep = true;
    } else if eq_ignore_case(head, bytes_of("sysfetch")) {
        handle_sysfetch(&mut result, fb_w, fb_h, sys);
    } else if eq_ignore_case(head, bytes_of("reboot")) {
        result.add_success(bytes_of("Rebooting..."));
        result.action = ConsoleAction::Reboot;
    } else if eq_ignore_case(head, bytes_of("shutdown")) {
        result.add_success(bytes_of("Shutting down..."));
        result.action = ConsoleAction::Shutdown;
    } else {
        let mut buf: Vec<u8> = Vec::new();
        write_str(&mut buf, bytes_of("Unknown: '"));
        let n = if head.len() > 50 { 50 } else { head.len() };
        write_str(&mut buf, slice_subrange(head, 0, n));
        buf.push(39u8);
        proof {
            let shown = if head@.len() > 50 {
                head@.take(50)
            } else {
                head@
            };
            assert(head@.subrange(0, n as int) =~= shown);
            assert(buf@ =~= lit("Unknown: '") + shown + seq![39u8]);
        }
        result.add_error(buf.as_slice());
    }
    result
}

/// The `time` line for clock reading `t` in zone `off`.
fn format_time_line(t: RtcTime, off: i8, clock_24h: bool) -> (line: Vec<u8>)
    ensures
        line@ == time_line(t, off, clock_24h),
{
    reveal(time_line);
    let adjusted = system::apply_timezone(t, off);
    let mut hour = adjusted.hour;
    let mut is_pm = false;
    if !clock_24h {
        if hour >= 12 {
            is_pm = true;
        }
        if hour == 0 {
            hour = 12;
        } else if hour > 12 {
            hour = hour - 12;
        }
    }
    let mut buf: Vec<u8> = Vec::new();
    write_str(&mut buf, bytes_of("Time (GMT"));
    write_signed(&mut buf, off);
    buf.push(41u8);
    buf.push(58u8);
    write_str(&mut buf, bytes_of(" "));
    write_two(&mut buf, hour);
    buf.push(58u8);
    write_two(&mut buf, adjusted.min);
    buf.push(58u8);
    write_two(&mut buf, adjusted.sec);
    if !clock_24h {
        buf.push(32u8);
        if is_pm {
            write_str(&mut buf, bytes_of("PM"));
        } else {
            write_str(&mut buf, bytes_of("AM"));
        }
    }
    proof {
        assert(buf@ =~= time_line(t, off, clock_24h));
    }
    buf
}

/// Whether `head` is one of the command words `a` or `b`.
fn head_is(head: &[u8], a: &str, b: &str) -> (r: bool)
    requires
        vstd::string::is_ascii(a),
        vstd::string::is_ascii(b),
    ensures
        r == is_cmd(head@, a, b),
{
    eq_ignore_case(head, crate::text::ascii_lit(a)) || eq_ignore_case(head, crate::text::ascii_lit(b))
}

/// Whether the uptime between `boot` and `now` fits the computation (see
/// `uptime_ok`).
fn uptime_fits(boot: RtcTime, now: RtcTime) -> (r: bool)
    ensures
        r == uptime_ok(boot, now),
{
    let b = boot.hour as i64 * 3600 + boot.min as i64 * 60 + boot.sec as i64;
    let n = now.hour as i64 * 3600 + now.min as i64 * 60 + now.sec as i64;
    if n < b && b > 86400 {
        return false;
    }
    let up = if n >= b { n - b } else { (86400 - b) + n };
    let dd = (now.year as i64 - boot.year as i64) * 365 + (now.month as i64 - boot.month as i64) * 30 + (
    now.day as i64 - boot.day as i64);
    let total = if dd > 0 { up + dd * 86400 } else { up };
    total <= u32::MAX as i64
}

/// Whether running the console command `cmd[..len]` stays within its
/// arithmetic (see `command_safe`).
pub fn command_is_safe(cmd: &[u8], len: usize, sys: &SystemState, now: Option<RtcTime>) -> (r: bool)
    requires
        len <= cmd@.len(),
    ensures
        r == command_safe(cmd@, len as int, *sys, now),
{
    let (head, rest) = split_first_word(cmd, len);
    proof {
        reveal_strlit("time");
        reveal_strlit("gmt");
        reveal_strlit("tz");
        reveal_strlit("sysfetch");
        reveal_strlit("uptime");
    }
    if head_is(head, "uptime", "uptime") {
        match (sys.boot_time, now) {
            (Some(b), Some(n)) => {
                return uptime_fits(b, n);
            },
            _ => {},
        }
    }
    true
}


/// The hour a 12-hour clock shows for hour `h` of the day: 12 for midnight
/// and noon, else the hour counted from the last of them.
pub open spec fn hour12(h: int) -> int {
    if h % 12 == 0 {
        12
    } else {
        h % 12
    }
}

/// In 12-hour mode the `time` line shows the local hour as 1 to 12 (its
/// two digits right after `Time (GMT<offset>): `) and ends in `PM` from
/// noon on and in `AM` before.
pub proof fn lemma_time_twelve_hour(t: RtcTime, off: i8)
    ensures
        ({
            let l = time_line(t, off, false);
            let k = 12 + signed(off).len() as int;
            let h = local_time(t, off).hour as int;
            &&& 1 <= hour12(h) <= 12
            &&& l.subrange(k, k + 2) == two(hour12(h) as u8)
            &&& l.subrange(l.len() - 2, l.len() as int) == if h >= 12 { lit("PM") } else { lit("AM") }
        }),
{
    broadcast use vstd::string::is_ascii_spec_bytes;
    reveal(time_line);
    reveal_strlit("Time (GMT");
    reveal_strlit(" ");
    reveal_strlit("PM");
    reveal_strlit("AM");
    assert(vstd::string::is_ascii("Time (GMT"));
    assert(vstd::string::is_ascii(" "));
    assert(vstd::string::is_ascii("PM"));
    assert(vstd::string::is_ascii("AM"));
    assert(lit("Time (GMT").len() == 9);
    assert(lit(" ").len() == 1);
    assert(lit("PM").len() == 2 && lit("AM").len() == 2);
    let l = time_line(t, off, false);
    let adj = local_time(t, off);
    let h = adj.hour as int;
    let k = 12 + signed(off).len() as int;
    let hour: u8 = if adj.hour == 0 {
        12
    } else if adj.hour > 12 {
        (adj.hour - 12) as u8
    } else {
        adj.hour
    };
    assert(h < 24) by {
        let total = t.hour as int + off as int;
        assert(0 <= total % 24 < 24);
    }
    assert(hour as int == hour12(h));
    let suffix = if adj.hour >= 12 { seq![32u8] + lit("PM") } else { seq![32u8] + lit("AM") };
    assert(l == lit("Time (GMT") + signed(off) + seq![41u8, 58u8] + lit(" ") + two(hour) + seq![58u8]
        + two(adj.min) + seq![58u8] + two(adj.sec) + suffix);
    assert(l.subrange(k, k + 2) =~= two(hour));
    assert(l.subrange(l.len() - 2, l.len() as int) =~= if h >= 12 { lit("PM") } else { lit("AM") });
}


/// In 24-hour mode the `time` line shows the local hour, minute and second
/// as two digits each, separated by colons, right after
/// `Time (GMT<offset>): `, and nothing after them.
pub proof fn lemma_time_24_hour(t: RtcTime, off: i8)
    ensures
        ({
            let l = time_line(t, off, true);
            let k = 12 + signed(off).len() as int;
            let a = local_time(t, off);
            &&& l.len() == k + 8
            &&& l.subrange(k, k + 2) == two(a.hour)
            &&& l.subrange(k + 3, k + 5) == two(a.min)
            &&& l.subrange(k + 6, k + 8) == two(a.sec)
            &&& a.min == t.min && a.sec == t.sec
        }),
{
    broadcast use vstd::string::is_ascii_spec_bytes;
    reveal(time_line);
    reveal_strlit("Time (GMT");
    reveal_strlit(" ");
    assert(vstd::string::is_ascii("Time (GMT"));
    assert(vstd::string::is_ascii(" "));
    assert(lit("Time (GMT").len() == 9);
    assert(lit(" ").len() == 1);
    let l = time_line(t, off, true);
    let a = local_time(t, off);
    let k = 12 + signed(off).len() as int;
    assert(l == lit("Time (GMT") + signed(off) + seq![41u8, 58u8] + lit(" ") + two(a.hour) + seq![58u8]
        + two(a.min) + seq![58u8] + two(a.sec) + Seq::<u8>::empty());
    assert(l.subrange(k, k + 2) =~= two(a.hour));
    assert(l.subrange(k + 3, k + 5) =~= two(a.min));
    assert(l.subrange(k + 6, k + 8) =~= two(a.sec));
}

} // verus!
