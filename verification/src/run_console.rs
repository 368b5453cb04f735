use vstd::prelude::*;
use crate::clipboard::{self, clipped, Clipboard};
use crate::commands::next_rand;
use crate::console::{cap, lemma_cap_push, lemma_strip_push, strip_newlines};
use crate::display::{Framebuffer, fill_rect, painted, kept_above, lemma_above_step, lemma_above_painted};
use crate::rtc::RtcTime;
use crate::system::{self, clamp_scale, SystemState, UiSettings};
use crate::text::{ascii, one_line, text_ink, TextWriter, COORD_MAX, lemma_ink_below, lemma_one_line_ink};
use crate::textfmt::{
    after_word, bytes_of, dec, eq_ignore_case, first_word, ieq, lit, split_first_word, split_words, two,
    write_str, write_two, write_u32, write_u64,
};
use crate::window::{chrome_spec, draw_window, sat_sub, title_fits, window_fits, CORNER_RADIUS, HEADER_H};

verus! {

/// Most lines the Run window keeps.
pub const MAX_LINES: usize = 32;
/// Most bytes of a line, and of the typed input.
pub const MAX_COLS: usize = 64;
pub const LINE_HEIGHT: usize = 12;
pub const PAD: usize = 10;

/// What a command asks of the desktop.
#[derive(Debug, Clone, Copy, PartialEq, Eq, Structural)]
pub enum ConsoleAction {
    Idle,
    OpenExplorer,
    OpenClipboard,
}

/// What running a command gives: whether it empties the window, the lines
/// it prints, the action it asks for, and the settings, clipboard text and
/// random state after it.
pub struct RunOut {
    pub clear: bool,
    pub lines: Seq<Seq<u8>>,
    pub action: ConsoleAction,
    pub sys: SystemState,
    pub clip: Seq<u8>,
    pub rand: u32,
}

/// Hour `h` on the clock face: for a 12-hour clock, 0 shows as 12 and the
/// hours after 12 count from 1.
pub open spec fn face_hour(h: u8, h24: bool) -> u8 {
    if h24 {
        h
    } else if h == 0 {
        12
    } else if h > 12 {
        (h - 12) as u8
    } else {
        h
    }
}

/// The settings `set` changes, with the lines it prints: `key` and `value`
/// are its two words. No key prints the usage; `clock`, `statusbar`,
/// `accent`, `mouse` and `theme` take their values as listed there, and
/// print the new setting or their own usage.
pub open spec fn set_out(key: Seq<u8>, value: Seq<u8>, sys: SystemState) -> (Seq<Seq<u8>>, SystemState) {
    let ui = sys.ui;
    if key.len() == 0 {
        (
            seq![
                lit("set clock 24|12"),
                lit("set statusbar on|off"),
                lit("set accent blue|green|orange|gray"),
                lit("set mouse 1|2|3|4"),
                lit("set theme dark|light"),
            ],
            sys,
        )
    } else if ieq(key, lit("clock")) {
        if ieq(value, lit("24")) {
            (seq![lit("clock = 24h")], SystemState { ui: UiSettings { clock_24h: true, ..ui }, ..sys })
        } else if ieq(value, lit("12")) {
            (seq![lit("clock = 12h")], SystemState { ui: UiSettings { clock_24h: false, ..ui }, ..sys })
        } else {
            (seq![lit("usage: set clock 24|12")], sys)
        }
    } else if ieq(key, lit("statusbar")) {
        if ieq(value, lit("on")) {
            (seq![lit("statusbar = on")], SystemState { ui: UiSettings { status_bar: true, ..ui }, ..sys })
        } else if ieq(value, lit("off")) {
            (seq![lit("statusbar = off")], SystemState { ui: UiSettings { status_bar: false, ..ui }, ..sys })
        } else {
            (seq![lit("usage: set statusbar on|off")], sys)
        }
    } else if ieq(key, lit("accent")) {
        if ieq(value, lit("blue")) {
            (seq![lit("accent = blue")], SystemState { ui: UiSettings { accent: 0x003B6EA5, ..ui }, ..sys })
        } else if ieq(value, lit("green")) {
            (seq![lit("accent = green")], SystemState { ui: UiSettings { accent: 0x00358C5C, ..ui }, ..sys })
        } else if ieq(value, lit("orange")) {
            (seq![lit("accent = orange")], SystemState { ui: UiSettings { accent: 0x00C7772A, ..ui }, ..sys })
        } else if ieq(value, lit("gray")) {
            (seq![lit("accent = gray")], SystemState { ui: UiSettings { accent: 0x006B6B6B, ..ui }, ..sys })
        } else {
            (seq![lit("usage: set accent blue|green|orange|gray")], sys)
        }
    } else if ieq(key, lit("mouse")) {
        if value.len() == 1 && 49 <= value[0] <= 52 {
            (
                seq![lit("mouse speed updated")],
                SystemState { ui: UiSettings { mouse_scale: clamp_scale((value[0] - 48) as i32), ..ui }, ..sys },
            )
        } else {
            (seq![lit("usage: set mouse 1|2|3|4")], sys)
        }
    } else if ieq(key, lit("theme")) {
        if ieq(value, lit("dark")) {
            (seq![lit("theme = dark")], SystemState { ui: UiSettings { dark: true, ..ui }, ..sys })
        } else if ieq(value, lit("light")) {
            (seq![lit("theme = light")], SystemState { ui: UiSettings { dark: false, ..ui }, ..sys })
        } else {
            (seq![lit("usage: set theme dark|light")], sys)
        }
    } else {
        (seq![lit("unknown setting")], sys)
    }
}

/// The commands of the first group: `help`, `clear`/`cls`, `echo`,
/// `ver`/`version`, `about`, `res`/`mode`, `whoami`, `ping`.
pub open spec fn basic_cmd(head: Seq<u8>) -> bool {
    ieq(head, lit("help")) || ieq(head, lit("clear")) || ieq(head, lit("cls")) || ieq(head, lit("echo")) || ieq(
        head,
        lit("ver"),
    ) || ieq(head, lit("version")) || ieq(head, lit("about")) || ieq(head, lit("res")) || ieq(head, lit("mode"))
        || ieq(head, lit("whoami")) || ieq(head, lit("ping"))
}

/// The commands that read the machine: `time`, `date`, `mem`, `sysinfo`,
/// `rand`.
pub open spec fn state_cmd(head: Seq<u8>) -> bool {
    ieq(head, lit("time")) || ieq(head, lit("date")) || ieq(head, lit("mem")) || ieq(head, lit("sysinfo")) || ieq(
        head,
        lit("rand"),
    )
}

/// The first group's outcomes, from `base` (nothing printed).
pub open spec fn basic_out(head: Seq<u8>, rest: Seq<u8>, fb_w: usize, fb_h: usize, base: RunOut) -> RunOut {
    if ieq(head, lit("help")) {
        RunOut {
            lines: seq![
                lit("help  clear  cls  echo  ver"),
                lit("about  res  whoami  ping"),
                lit("time  date  mem  sysinfo"),
                lit("rand  explorer  dir  ls"),
                lit("clip  copy  paste"),
                lit("set  (system params)"),
                lit("Try: echo hello"),
            ],
            ..base
        }
    } else if ieq(head, lit("clear")) || ieq(head, lit("cls")) {
        RunOut { clear: true, ..base }
    } else if ieq(head, lit("echo")) {
        RunOut { lines: seq![rest], ..base }
    } else if ieq(head, lit("ver")) || ieq(head, lit("version")) {
        RunOut { lines: seq![lit("HouseOS 0.1")], ..base }
    } else if ieq(head, lit("about")) {
        RunOut { lines: seq![lit("HouseOS demo console")], ..base }
    } else if ieq(head, lit("res")) || ieq(head, lit("mode")) {
        RunOut { lines: seq![dec((fb_w as u32) as nat) + seq![120u8] + dec((fb_h as u32) as nat)], ..base }
    } else if ieq(head, lit("whoami")) {
        RunOut { lines: seq![lit("root")], ..base }
    } else {
        RunOut { lines: seq![lit("pong")], ..base }
    }
}

/// The outcomes of the commands that read the machine, from `base`.
pub open spec fn state_out(head: Seq<u8>, now: Option<RtcTime>, base: RunOut) -> RunOut {
    let sys = base.sys;
    if ieq(head, lit("time")) {
        match now {
            Some(t) => RunOut {
                lines: seq![
                    two(face_hour(t.hour, sys.ui.clock_24h)) + seq![58u8] + two(t.min) + seq![58u8] + two(t.sec),
                ],
                ..base
            },
            None => RunOut { lines: seq![lit("(time unavailable)")], ..base },
        }
    } else if ieq(head, lit("date")) {
        match now {
            Some(t) => RunOut {
                lines: seq![dec(t.year as nat) + seq![45u8] + two(t.month) + seq![45u8] + two(t.day)],
                ..base
            },
            None => RunOut { lines: seq![lit("(date unavailable)")], ..base },
        }
    } else if ieq(head, lit("mem")) {
        let total = sys.info.mem_total_kib / 1024;
        let avail = sys.info.mem_avail_kib / 1024;
        let used = sat_sub(total as int, avail as int);
        RunOut {
            lines: seq![
                lit("RAM total: ") + dec(total as nat) + lit(" MiB"),
                lit("RAM avail: ") + dec(avail as nat) + lit(" MiB"),
                lit("RAM used:  ") + dec(used as nat) + lit(" MiB"),
            ],
            ..base
        }
    } else if ieq(head, lit("sysinfo")) {
        RunOut {
            lines: seq![
                dec((sys.info.fb_w as u32) as nat) + seq![120u8] + dec((sys.info.fb_h as u32) as nat) + seq![120u8]
                    + dec(sys.info.fb_bpp as nat),
            ],
            ..base
        }
    } else {
        RunOut { lines: seq![dec(next_rand(base.rand) as nat)], rand: next_rand(base.rand), ..base }
    }
}

/// The outcomes of the remaining commands, from `base`: `set` (see
/// `set_out`), `clip`/`clipboard` and `explorer`/`dir`/`ls` (which ask
/// the desktop to open those windows), `copy` and `paste`, and anything
/// else, which is unknown.
pub open spec fn other_out(head: Seq<u8>, rest: Seq<u8>, base: RunOut) -> RunOut {
    if ieq(head, lit("set")) {
        let s = set_out(first_word(rest, rest.len() as int), after_word(rest, rest.len() as int), base.sys);
        RunOut { lines: s.0, sys: s.1, ..base }
    } else if ieq(head, lit("clip")) || ieq(head, lit("clipboard")) {
        RunOut { lines: seq![lit("Opening clipboard...")], action: ConsoleAction::OpenClipboard, ..base }
    } else if ieq(head, lit("copy")) {
        if rest.len() == 0 {
            RunOut { lines: seq![lit("usage: copy <text>")], ..base }
        } else {
            RunOut { lines: seq![lit("copied")], clip: clipped(rest), ..base }
        }
    } else if ieq(head, lit("paste")) {
        if base.clip.len() == 0 {
            RunOut { lines: seq![lit("(clipboard empty)")], ..base }
        } else {
            RunOut { lines: seq![base.clip], ..base }
        }
    } else if ieq(head, lit("explorer")) || ieq(head, lit("dir")) || ieq(head, lit("ls")) {
        RunOut { lines: seq![lit("Opening explorer...")], action: ConsoleAction::OpenExplorer, ..base }
    } else {
        RunOut { lines: seq![lit("Unknown command")], ..base }
    }
}

/// Running the command in `cmd[..len]`: its first word picks the command,
/// the rest is its argument. An empty command does nothing.
pub open spec fn run_outcome(
    cmd: Seq<u8>,
    len: int,
    rand: u32,
    fb_w: usize,
    fb_h: usize,
    sys: SystemState,
    clip: Seq<u8>,
    now: Option<RtcTime>,
) -> RunOut {
    let head = first_word(cmd, len);
    let rest = after_word(cmd, len);
    let base = RunOut { clear: false, lines: Seq::empty(), action: ConsoleAction::Idle, sys, clip, rand };
    if head.len() == 0 {
        base
    } else if basic_cmd(head) {
        basic_out(head, rest, fb_w, fb_h, base)
    } else if state_cmd(head) {
        state_out(head, now, base)
    } else {
        other_out(head, rest, base)
    }
}

/// A command's printed lines, as built.
pub struct Printed {
    pub lines: Vec<Vec<u8>>,
    pub clear: bool,
    pub action: ConsoleAction,
}

impl Printed {
    pub open spec fn view_lines(&self) -> Seq<Seq<u8>> {
        self.lines@.map_values(|l: Vec<u8>| l@)
    }
}

fn say(s: &[u8]) -> (p: Printed)
    ensures
        p.view_lines() == seq![s@],
        !p.clear,
        p.action == ConsoleAction::Idle,
{
    let mut v: Vec<u8> = Vec::new();
    write_str(&mut v, s);
    let mut lines: Vec<Vec<u8>> = Vec::new();
    lines.push(v);
    let p = Printed { lines, clear: false, action: ConsoleAction::Idle };
    assert(p.view_lines() =~= seq![s@]);
    p
}

fn nothing() -> (p: Printed)
    ensures
        p.view_lines() == Seq::<Seq<u8>>::empty(),
        !p.clear,
        p.action == ConsoleAction::Idle,
{
    let p = Printed { lines: Vec::new(), clear: false, action: ConsoleAction::Idle };
    assert(p.view_lines() =~= Seq::<Seq<u8>>::empty());
    p
}

fn push_say(p: &mut Printed, s: &[u8])
    ensures
        final(p).view_lines() == old(p).view_lines().push(s@),
        final(p).clear == old(p).clear,
        final(p).action == old(p).action,
{
    let mut v: Vec<u8> = Vec::new();
    write_str(&mut v, s);
    let ghost before = p.view_lines();
    p.lines.push(v);
    assert(p.view_lines() =~= before.push(s@));
}

fn push_owned(p: &mut Printed, v: Vec<u8>)
    ensures
        final(p).view_lines() == old(p).view_lines().push(v@),
        final(p).clear == old(p).clear,
        final(p).action == old(p).action,
{
    let ghost before = p.view_lines();
    p.lines.push(v);
    assert(p.view_lines() =~= before.push(v@));
}

/// The `set` command (see `set_out`).
fn handle_set(rest: &[u8], sys: &mut SystemState) -> (p: Printed)
    ensures
        (p.view_lines(), *final(sys)) == set_out(
            first_word(rest@, rest@.len() as int),
            after_word(rest@, rest@.len() as int),
            *old(sys),
        ),
        !p.clear,
        p.action == ConsoleAction::Idle,
{
    let (key, value) = split_words(rest);
    if key.len() == 0 {
        let mut p = nothing();
        push_say(&mut p, bytes_of("set clock 24|12"));
        push_say(&mut p, bytes_of("set statusbar on|off"));
        push_say(&mut p, bytes_of("set accent blue|green|orange|gray"));
        push_say(&mut p, bytes_of("set mouse 1|2|3|4"));
        push_say(&mut p, bytes_of("set theme dark|light"));
        return p;
    }
    if eq_ignore_case(key, bytes_of("clock")) {
        if eq_ignore_case(value, bytes_of("24")) {
            system::set_clock_24h(sys, true);
            return say(bytes_of("clock = 24h"));
        } else if eq_ignore_case(value, bytes_of("12")) {
            system::set_clock_24h(sys, false);
            return say(bytes_of("clock = 12h"));
        }
        return say(bytes_of("usage: set clock 24|12"));
    }
    if eq_ignore_case(key, bytes_of("statusbar")) {
        if eq_ignore_case(value, bytes_of("on")) {
            system::set_status_bar(sys, true);
            return say(bytes_of("statusbar = on"));
        } else if eq_ignore_case(value, bytes_of("off")) {
            system::set_status_bar(sys, false);
            return say(bytes_of("statusbar = off"));
        }
        return say(bytes_of("usage: set statusbar on|off"));
    }
    if eq_ignore_case(key, bytes_of("accent")) {
        if eq_ignore_case(value, bytes_of("blue")) {
            system::set_accent(sys, 0x003B6EA5);
            return say(bytes_of("accent = blue"));
        } else if eq_ignore_case(value, bytes_of("green")) {
            system::set_accent(sys, 0x00358C5C);
            return say(bytes_of("accent = green"));
        } else if eq_ignore_case(value, bytes_of("orange")) {
            system::set_accent(sys, 0x00C7772A);
            return say(bytes_of("accent = orange"));
        } else if eq_ignore_case(value, bytes_of("gray")) {
            system::set_accent(sys, 0x006B6B6B);
            return say(bytes_of("accent = gray"));
        }
        return say(bytes_of("usage: set accent blue|green|orange|gray"));
    }
    if eq_ignore_case(key, bytes_of("mouse")) {
        if value.len() == 1 {
            let v = value[0];
            if v >= 49 && v <= 52 {
                system::set_mouse_scale(sys, (v - 48) as i32);
                return say(bytes_of("mouse speed updated"));
            }
        }
        return say(bytes_of("usage: set mouse 1|2|3|4"));
    }
    if eq_ignore_case(key, bytes_of("theme")) {
        if eq_ignore_case(value, bytes_of("dark")) {
            system::set_theme(sys, true);
            return say(bytes_of("theme = dark"));
        } else if eq_ignore_case(value, bytes_of("light")) {
            system::set_theme(sys, false);
            return say(bytes_of("theme = light"));
        }
        return say(bytes_of("usage: set theme dark|light"));
    }
    say(bytes_of("unknown setting"))
}

fn run_basic(head: &[u8], rest: &[u8], fb_w: usize, fb_h: usize) -> (p: Printed)
    requires
        basic_cmd(head@),
    ensures
        ({
            let base = RunOut {
                clear: false,
                lines: Seq::empty(),
                action: ConsoleAction::Idle,
                sys: arbitrary(),
                clip: arbitrary(),
                rand: arbitrary(),
            };
            let o = basic_out(head@, rest@, fb_w, fb_h, base);
            p.view_lines() == o.lines && p.clear == o.clear && p.action == o.action
        }),
{
    if eq_ignore_case(head, bytes_of("help")) {
        let mut p = nothing();
        push_say(&mut p, bytes_of("help  clear  cls  echo  ver"));
        push_say(&mut p, bytes_of("about  res  whoami  ping"));
        push_say(&mut p, bytes_of("time  date  mem  sysinfo"));
        push_say(&mut p, bytes_of("rand  explorer  dir  ls"));
        push_say(&mut p, bytes_of("clip  copy  paste"));
        push_say(&mut p, bytes_of("set  (system params)"));
        push_say(&mut p, bytes_of("Try: echo hello"));
        p
    } else if eq_ignore_case(head, bytes_of("clear")) || eq_ignore_case(head, bytes_of("cls")) {
        Printed { clear: true, ..nothing() }
    } else if eq_ignore_case(head, bytes_of("echo")) {
        say(rest)
    } else if eq_ignore_case(head, bytes_of("ver")) || eq_ignore_case(head, bytes_of("version")) {
        say(bytes_of("HouseOS 0.1"))
    } else if eq_ignore_case(head, bytes_of("about")) {
        say(bytes_of("HouseOS demo console"))
    } else if eq_ignore_case(head, bytes_of("res")) || eq_ignore_case(head, bytes_of("mode")) {
        let mut v: Vec<u8> = Vec::new();
        write_u32(&mut v, fb_w as u32);
        v.push(120);
        write_u32(&mut v, fb_h as u32);
        assert(v@ =~= dec((fb_w as u32) as nat) + seq![120u8] + dec((fb_h as u32) as nat));
        let mut p = nothing();
        push_owned(&mut p, v);
        proof {
            assert(p.view_lines() =~= seq![dec((fb_w as u32) as nat) + seq![120u8] + dec((fb_h as u32) as nat)]);
        }
        p
    } else if eq_ignore_case(head, bytes_of("whoami")) {
        say(bytes_of("root"))
    } else {
        say(bytes_of("pong"))
    }
}

fn time_printed(t: RtcTime, clock_24h: bool) -> (p: Printed)
    ensures
        p.view_lines() == seq![two(face_hour(t.hour, clock_24h)) + seq![58u8] + two(t.min) + seq![58u8] + two(t.sec)],
        !p.clear,
        p.action == ConsoleAction::Idle,
{
    let mut hour = t.hour;
    if !clock_24h {
        if hour == 0 {
            hour = 12;
        } else if hour > 12 {
            hour = hour - 12;
        }
    }
    let mut v: Vec<u8> = Vec::new();
    write_two(&mut v, hour);
    v.push(58);
    write_two(&mut v, t.min);
    v.push(58);
    write_two(&mut v, t.sec);
    assert(v@ =~= two(face_hour(t.hour, clock_24h)) + seq![58u8] + two(t.min) + seq![58u8] + two(t.sec));
    let mut p = nothing();
    push_owned(&mut p, v);
    assert(p.view_lines() =~= seq![two(face_hour(t.hour, clock_24h)) + seq![58u8] + two(t.min) + seq![58u8] + two(t.sec)]);
    p
}

fn date_printed(t: RtcTime) -> (p: Printed)
    ensures
        p.view_lines() == seq![dec(t.year as nat) + seq![45u8] + two(t.month) + seq![45u8] + two(t.day)],
        !p.clear,
        p.action == ConsoleAction::Idle,
{
    let mut v: Vec<u8> = Vec::new();
    write_u32(&mut v, t.year as u32);
    v.push(45);
    write_two(&mut v, t.month);
    v.push(45);
    write_two(&mut v, t.day);
    assert(v@ =~= dec(t.year as nat) + seq![45u8] + two(t.month) + seq![45u8] + two(t.day));
    let mut p = nothing();
    push_owned(&mut p, v);
    assert(p.view_lines() =~= seq![dec(t.year as nat) + seq![45u8] + two(t.month) + seq![45u8] + two(t.day)]);
    p
}

fn num_line(prefix: &[u8], val: u64, suffix: &[u8]) -> (v: Vec<u8>)
    ensures
        v@ == prefix@ + dec(val as nat) + suffix@,
{
    let mut v: Vec<u8> = Vec::new();
    write_str(&mut v, prefix);
    write_u64(&mut v, val);
    write_str(&mut v, suffix);
    assert(v@ =~= prefix@ + dec(val as nat) + suffix@);
    v
}

fn mem_printed(sys: &SystemState) -> (p: Printed)
    ensures
        ({
            let total = sys.info.mem_total_kib / 1024;
            let avail = sys.info.mem_avail_kib / 1024;
            let used = sat_sub(total as int, avail as int);
            p.view_lines() == seq![
                lit("RAM total: ") + dec(total as nat) + lit(" MiB"),
                lit("RAM avail: ") + dec(avail as nat) + lit(" MiB"),
                lit("RAM used:  ") + dec(used as nat) + lit(" MiB"),
            ]
        }),
        !p.clear,
        p.action == ConsoleAction::Idle,
{
    let total = sys.info.mem_total_kib / 1024;
    let avail = sys.info.mem_avail_kib / 1024;
    let used = total.saturating_sub(avail);
    let mut p = nothing();
    push_owned(&mut p, num_line(bytes_of("RAM total: "), total, bytes_of(" MiB")));
    push_owned(&mut p, num_line(bytes_of("RAM avail: "), avail, bytes_of(" MiB")));
    push_owned(&mut p, num_line(bytes_of("RAM used:  "), used, bytes_of(" MiB")));
    assert(p.view_lines() =~= seq![
        lit("RAM total: ") + dec(total as nat) + lit(" MiB"),
        lit("RAM avail: ") + dec(avail as nat) + lit(" MiB"),
        lit("RAM used:  ") + dec(used as nat) + lit(" MiB"),
    ]);
    p
}

fn sysinfo_printed(sys: &SystemState) -> (p: Printed)
    ensures
        p.view_lines() == seq![
            dec((sys.info.fb_w as u32) as nat) + seq![120u8] + dec((sys.info.fb_h as u32) as nat) + seq![120u8] + dec(
                sys.info.fb_bpp as nat,
            ),
        ],
        !p.clear,
        p.action == ConsoleAction::Idle,
{
    let mut v: Vec<u8> = Vec::new();
    write_u32(&mut v, sys.info.fb_w as u32);
    v.push(120);
    write_u32(&mut v, sys.info.fb_h as u32);
    v.push(120);
    write_u32(&mut v, sys.info.fb_bpp as u32);
    assert(v@ =~= dec((sys.info.fb_w as u32) as nat) + seq![120u8] + dec((sys.info.fb_h as u32) as nat) + seq![120u8]
        + dec(sys.info.fb_bpp as nat));
    let mut p = nothing();
    push_owned(&mut p, v);
    assert(p.view_lines() =~= seq![
        dec((sys.info.fb_w as u32) as nat) + seq![120u8] + dec((sys.info.fb_h as u32) as nat) + seq![120u8] + dec(
            sys.info.fb_bpp as nat,
        ),
    ]);
    p
}

fn run_state(head: &[u8], rand_state: &mut u32, sys: &SystemState, now: Option<RtcTime>) -> (p: Printed)
    requires
        state_cmd(head@),
    ensures
        ({
            let base = RunOut {
                clear: false,
                lines: Seq::empty(),
                action: ConsoleAction::Idle,
                sys: *sys,
                clip: arbitrary(),
                rand: *old(rand_state),
            };
            let o = state_out(head@, now, base);
            p.view_lines() == o.lines && p.clear == o.clear && p.action == o.action && *final(rand_state) == o.rand
        }),
{
    if eq_ignore_case(head, bytes_of("time")) {
        match now {
            Some(t) => time_printed(t, sys.ui.clock_24h),
            None => say(bytes_of("(time unavailable)")),
        }
    } else if eq_ignore_case(head, bytes_of("date")) {
        match now {
            Some(t) => date_printed(t),
            None => say(bytes_of("(date unavailable)")),
        }
    } else if eq_ignore_case(head, bytes_of("mem")) {
        mem_printed(sys)
    } else if eq_ignore_case(head, bytes_of("sysinfo")) {
        sysinfo_printed(sys)
    } else {
        rand_printed(rand_state)
    }
}

#[verifier::rlimit(40)]
fn rand_printed(rand_state: &mut u32) -> (p: Printed)
    ensures
        *final(rand_state) == next_rand(*old(rand_state)),
        p.view_lines() == seq![dec(next_rand(*old(rand_state)) as nat)],
        !p.clear,
        p.action == ConsoleAction::Idle,
{
    *rand_state = rand_state.wrapping_mul(1664525).wrapping_add(1013904223);
    let mut v: Vec<u8> = Vec::new();
    write_u32(&mut v, *rand_state);
    let mut p = nothing();
    push_owned(&mut p, v);
    proof {
        assert(p.view_lines() =~= seq![dec(next_rand(*old(rand_state)) as nat)]);
    }
    p
}

fn run_other(head: &[u8], rest: &[u8], sys: &mut SystemState, clip: &mut Clipboard) -> (p: Printed)
    ensures
        ({
            let base = RunOut {
                clear: false,
                lines: Seq::empty(),
                action: ConsoleAction::Idle,
                sys: *old(sys),
                clip: old(clip).bytes@,
                rand: arbitrary(),
            };
            let o = other_out(head@, rest@, base);
            p.view_lines() == o.lines && p.clear == o.clear && p.action == o.action && *final(sys) == o.sys
                && final(clip).bytes@ == o.clip
        }),
        old(clip).wf() ==> final(clip).wf(),
{
    if eq_ignore_case(head, bytes_of("set")) {
        handle_set(rest, sys)
    } else if eq_ignore_case(head, bytes_of("clip")) || eq_ignore_case(head, bytes_of("clipboard")) {
        Printed { action: ConsoleAction::OpenClipboard, ..say(bytes_of("Opening clipboard...")) }
    } else if eq_ignore_case(head, bytes_of("copy")) {
        if rest.len() == 0 {
            say(bytes_of("usage: copy <text>"))
        } else {
            clipboard::set(clip, rest);
            say(bytes_of("copied"))
        }
    } else if eq_ignore_case(head, bytes_of("paste")) {
        let data = clipboard::data(clip);
        if data.len() == 0 {
            say(bytes_of("(clipboard empty)"))
        } else {
            say(data)
        }
    } else if eq_ignore_case(head, bytes_of("explorer")) || eq_ignore_case(head, bytes_of("dir")) || eq_ignore_case(
        head,
        bytes_of("ls"),
    ) {
        Printed { action: ConsoleAction::OpenExplorer, ..say(bytes_of("Opening explorer...")) }
    } else {
        say(bytes_of("Unknown command"))
    }
}

/// Runs the command in `cmd[..len]` (see `run_outcome`).
pub fn run_command(
    cmd: &[u8],
    len: usize,
    rand_state: &mut u32,
    fb_w: usize,
    fb_h: usize,
    sys: &mut SystemState,
    clip: &mut Clipboard,
    now: Option<RtcTime>,
) -> (p: Printed)
    requires
        len <= cmd@.len(),
    ensures
        ({
            let o = run_outcome(cmd@, len as int, *old(rand_state), fb_w, fb_h, *old(sys), old(clip).bytes@, now);
            &&& p.view_lines() == o.lines
            &&& p.clear == o.clear
            &&& p.action == o.action
            &&& *final(sys) == o.sys
            &&& final(clip).bytes@ == o.clip
            &&& *final(rand_state) == o.rand
        }),
        old(clip).wf() ==> final(clip).wf(),
{
    let (head, rest) = split_first_word(cmd, len);
    if head.len() == 0 {
        return nothing();
    }
    let is_basic = eq_ignore_case(head, bytes_of("help")) || eq_ignore_case(head, bytes_of("clear"))
        || eq_ignore_case(head, bytes_of("cls")) || eq_ignore_case(head, bytes_of("echo")) || eq_ignore_case(
        head,
        bytes_of("ver"),
    ) || eq_ignore_case(head, bytes_of("version")) || eq_ignore_case(head, bytes_of("about")) || eq_ignore_case(
        head,
        bytes_of("res"),
    ) || eq_ignore_case(head, bytes_of("mode")) || eq_ignore_case(head, bytes_of("whoami")) || eq_ignore_case(
        head,
        bytes_of("ping"),
    );
    if is_basic {
        return run_basic(head, rest, fb_w, fb_h);
    }
    let is_state = eq_ignore_case(head, bytes_of("time")) || eq_ignore_case(head, bytes_of("date")) || eq_ignore_case(
        head,
        bytes_of("mem"),
    ) || eq_ignore_case(head, bytes_of("sysinfo")) || eq_ignore_case(head, bytes_of("rand"));
    if is_state {
        return run_state(head, rand_state, sys, now);
    }
    run_other(head, rest, sys, clip)
}

/// `s` cut to a line's length.
pub open spec fn cap_line(s: Seq<u8>) -> Seq<u8> {
    if s.len() > MAX_COLS { s.take(MAX_COLS as int) } else { s }
}

/// The history after adding line `s` (cut to `MAX_COLS` bytes): when full,
/// the oldest line goes.
pub open spec fn pushed(h: Seq<Seq<u8>>, s: Seq<u8>) -> Seq<Seq<u8>> {
    if h.len() < MAX_LINES {
        h.push(cap_line(s))
    } else {
        h.drop_first().push(cap_line(s))
    }
}

/// The history after adding the first `n` of `ls` in turn.
pub open spec fn pushed_all(h: Seq<Seq<u8>>, ls: Seq<Seq<u8>>, n: int) -> Seq<Seq<u8>>
    decreases n,
{
    if n <= 0 {
        h
    } else {
        pushed(pushed_all(h, ls, n - 1), ls[n - 1])
    }
}

/// The line echoing a command: `> ` and the command.
pub open spec fn prompt_of(cmd: Seq<u8>) -> Seq<u8> {
    seq![62u8, 32u8] + cmd
}

/// The Run window: a small command line with a scrolling history.
pub struct Console {
    pub visible: bool,
    pub fb_w: usize,
    pub fb_h: usize,
    pub win_x: usize,
    pub win_y: usize,
    pub win_w: usize,
    pub win_h: usize,
    pub lines: Vec<Vec<u8>>,
    pub input: Vec<u8>,
    pub action: ConsoleAction,
    pub rand_state: u32,
}

/// The default window: half the screen each way, centred; none on a
/// screen too small for that.
pub open spec fn calc_rect_spec(fw: int, fh: int) -> (int, int, int, int) {
    let w = fw / 2;
    let h = fh / 2;
    if w == 0 || h == 0 {
        (0, 0, 0, 0)
    } else {
        ((fw - w) / 2, (fh - h) / 2, w, h)
    }
}

fn calc_rect(fb: &Framebuffer) -> (r: (usize, usize, usize, usize))
    ensures
        (r.0 as int, r.1 as int, r.2 as int, r.3 as int) == calc_rect_spec(fb.width as int, fb.height as int),
{
    let w = fb.width / 2;
    let h = fb.height / 2;
    if w == 0 || h == 0 {
        return (0, 0, 0, 0);
    }
    ((fb.width - w) / 2, (fb.height - h) / 2, w, h)
}

impl Console {
    /// The history as text.
    pub open spec fn hist(&self) -> Seq<Seq<u8>> {
        self.lines@.map_values(|l: Vec<u8>| l@)
    }

    /// History and input stay within their bounds.
    pub open spec fn wf(&self) -> bool {
        &&& self.lines@.len() <= MAX_LINES
        &&& self.input@.len() <= MAX_COLS
        &&& forall|i: int| 0 <= i < self.lines@.len() ==> #[trigger] self.lines@[i]@.len() <= MAX_COLS
    }

    /// Everything the window shows is ASCII.
    pub open spec fn content_ascii(&self) -> bool {
        &&& ascii(self.input@)
        &&& forall|i: int| 0 <= i < self.lines@.len() ==> ascii(#[trigger] self.lines@[i]@)
    }

    /// The window rectangle on a `fw * fh` screen.
    /// The first line shown: the newest ones that fit above the input line.
    pub open spec fn first_shown(&self, fw: int, fh: int) -> int {
        let r = self.rect_on(fw, fh);
        let c = chrome_spec(r.0, r.1, r.2, r.3);
        let vis = sat_sub(sat_sub(c.content_h as int, PAD * 2) / LINE_HEIGHT as int, 1);
        let count = self.lines@.len() as int;
        if count > vis { count - vis } else { 0 }
    }

    /// Whether the `k`-th shown line, when it fits on one line, lights
    /// `(qx, qy)`.
    pub open spec fn line_ink(&self, fw: int, fh: int, k: int, qx: int, qy: int) -> bool {
        let r = self.rect_on(fw, fh);
        let c = chrome_spec(r.0, r.1, r.2, r.3);
        let line = self.lines@[self.first_shown(fw, fh) + k]@;
        &&& one_line(fw, c.content_x + PAD, line)
        &&& text_ink(fw, c.content_x + PAD, c.content_y + PAD + k * LINE_HEIGHT, line, qx, qy)
    }

    pub open spec fn rect_on(&self, fw: int, fh: int) -> (int, int, int, int) {
        if self.win_w == 0 || self.win_h == 0 {
            calc_rect_spec(fw, fh)
        } else {
            (self.win_x as int, self.win_y as int, self.win_w as int, self.win_h as int)
        }
    }

    /// A hidden window with no history, sized later, whose random
    /// generator is seeded from the screen size.
    pub fn new(fb: &Framebuffer) -> (c: Console)
        ensures
            c.wf(),
            !c.visible,
            c.fb_w == fb.width && c.fb_h == fb.height,
            c.win_x == 0 && c.win_y == 0 && c.win_w == 0 && c.win_h == 0,
            c.hist() == Seq::<Seq<u8>>::empty(),
            c.input@ == Seq::<u8>::empty(),
            c.action == ConsoleAction::Idle,
            c.rand_state == ((fb.width as u32) ^ (((fb.height as u32) << 16u32) as u32)) ^ 0xA5A5_5A5Au32,
    {
        let seed = (fb.width as u32) ^ ((fb.height as u32) << 16u32);
        let c = Console {
            visible: false,
            fb_w: fb.width,
            fb_h: fb.height,
            win_x: 0,
            win_y: 0,
            win_w: 0,
            win_h: 0,
            lines: Vec::new(),
            input: Vec::new(),
            action: ConsoleAction::Idle,
            rand_state: seed ^ 0xA5A5_5A5A,
        };
        assert(c.hist() =~= Seq::<Seq<u8>>::empty());
        c
    }

    /// Whether the window is shown.
    pub fn is_visible(&self) -> (r: bool)
        ensures
            r == self.visible,
    {
        self.visible
    }

    /// Shows the window, at the default rectangle if it has no size yet.
    pub fn show(&mut self, fb: &Framebuffer)
        ensures
            *final(self) == ({
                let r = calc_rect_spec(fb.width as int, fb.height as int);
                if old(self).win_w == 0 || old(self).win_h == 0 {
                    Console {
                        visible: true,
                        win_x: r.0 as usize,
                        win_y: r.1 as usize,
                        win_w: r.2 as usize,
                        win_h: r.3 as usize,
                        ..*old(self)
                    }
                } else {
                    Console { visible: true, ..*old(self) }
                }
            }),
    {
        self.visible = true;
        if self.win_w == 0 || self.win_h == 0 {
            let (x, y, w, h) = calc_rect(fb);
            self.win_x = x;
            self.win_y = y;
            self.win_w = w;
            self.win_h = h;
        }
    }

    /// Hides the window.
    pub fn hide_window(&mut self, _fb: &Framebuffer)
        ensures
            *final(self) == (Console { visible: false, ..*old(self) }),
    {
        if !self.visible {
            return;
        }
        self.visible = false;
    }

    /// Clicks are not taken.
    pub fn handle_click(&mut self, _fb: &Framebuffer, _x: usize, _y: usize) -> (r: bool)
        ensures
            !r,
            *final(self) == *old(self),
    {
        if !self.visible {
            return false;
        }
        false
    }

    /// The pending desktop action, leaving none pending.
    pub fn take_action(&mut self) -> (a: ConsoleAction)
        ensures
            a == old(self).action,
            *final(self) == (Console { action: ConsoleAction::Idle, ..*old(self) }),
    {
        let a = self.action;
        self.action = ConsoleAction::Idle;
        a
    }

    /// Copies the typed input to the clipboard when the window is shown
    /// and the input is not empty.
    pub fn copy_input(&self, clip: &mut Clipboard)
        ensures
            final(clip).bytes@ == if self.visible && self.input@.len() > 0 {
                clipped(self.input@)
            } else {
                old(clip).bytes@
            },
            old(clip).wf() ==> final(clip).wf(),
    {
        if !self.visible {
            return;
        }
        if self.input.len() == 0 {
            return;
        }
        clipboard::set(clip, self.input.as_slice());
    }

    /// Appends the clipboard, without its line breaks, to the typed input
    /// as far as it fits; returns whether it did (the window shown and the
    /// clipboard not empty). The caller redraws.
    pub fn paste_clipboard(&mut self, clip: &Clipboard) -> (r: bool)
        requires
            old(self).wf(),
        ensures
            r == (old(self).visible && clip.bytes@.len() > 0),
            final(self).wf(),
            final(self).input@ == if r {
                cap(old(self).input@ + strip_newlines(clip.bytes@), MAX_COLS as int)
            } else {
                old(self).input@
            },
            *final(self) == (Console { input: final(self).input, ..*old(self) }),
    {
        if !self.visible {
            return false;
        }
        let data = clipboard::data(clip);
        if data.len() == 0 {
            return false;
        }
        let ghost d = data@;
        let ghost start = self.input@;
        let mut i: usize = 0;
        while i < data.len()
            invariant
                i <= d.len(),
                d == data@,
                self.input@ == cap(start + strip_newlines(d.take(i as int)), MAX_COLS as int),
                start.len() <= MAX_COLS,
                *self == (Console { input: self.input, ..*old(self) }),
            decreases d.len() - i,
        {
            let b = data[i];
            proof {
                assert(d.take(i + 1).drop_last() =~= d.take(i as int));
                assert(d.take(i + 1).last() == b);
            }
            if b != 10u8 && b != 13u8 {
                if self.input.len() < MAX_COLS {
                    self.input.push(b);
                }
            }
            proof {
                let f = strip_newlines(d.take(i + 1));
                let f0 = strip_newlines(d.take(i as int));
                let x = start + f0;
                lemma_strip_push(d.take(i as int), b);
                assert(d.take(i + 1) =~= d.take(i as int).push(b));
                if b != 10u8 && b != 13u8 {
                    assert(f =~= f0.push(b));
                    assert(start + f =~= x.push(b));
                    lemma_cap_push(x, b, MAX_COLS as int);
                } else {
                    assert(f =~= f0);
                }
            }
            i = i + 1;
        }
        proof {
            assert(d.take(d.len() as int) =~= d);
        }
        true
    }

    /// Adds a history line (see `pushed`).
    fn push_line(&mut self, bytes: &[u8])
        requires
            old(self).wf(),
        ensures
            final(self).wf(),
            final(self).hist() == pushed(old(self).hist(), bytes@),
            final(self).input == old(self).input,
            final(self).visible == old(self).visible,
            final(self).action == old(self).action,
            final(self).rand_state == old(self).rand_state,
            final(self).fb_w == old(self).fb_w && final(self).fb_h == old(self).fb_h,
            final(self).win_x == old(self).win_x && final(self).win_y == old(self).win_y,
            final(self).win_w == old(self).win_w && final(self).win_h == old(self).win_h,
            old(self).content_ascii() && ascii(bytes@) ==> final(self).content_ascii(),
    {
        let len = if bytes.len() < MAX_COLS { bytes.len() } else { MAX_COLS };
        let mut line: Vec<u8> = Vec::new();
        let mut i: usize = 0;
        while i < len
            invariant
                i <= len <= bytes@.len(),
                len <= MAX_COLS,
                line@ == bytes@.take(i as int),
            decreases len - i,
        {
            line.push(bytes[i]);
            i = i + 1;
            proof {
                assert(bytes@.take(i as int) =~= bytes@.take(i - 1).push(bytes@[i - 1]));
            }
        }
        proof {
            if bytes@.len() > MAX_COLS {
                assert(line@ =~= cap_line(bytes@));
            } else {
                assert(line@ =~= bytes@);
            }
        }
        let ghost before = self.lines@;
        if self.lines.len() >= MAX_LINES {
            self.lines.remove(0);
        }
        self.lines.push(line);
        proof {
            assert(self.hist() =~= pushed(before.map_values(|l: Vec<u8>| l@), bytes@));
        }
    }

    /// Adds the lines of `p` in turn (see `pushed_all`).
    fn push_lines(&mut self, p: &Printed)
        requires
            old(self).wf(),
        ensures
            final(self).wf(),
            final(self).hist() == pushed_all(old(self).hist(), p.view_lines(), p.view_lines().len() as int),
            *final(self) == (Console { lines: final(self).lines, ..*old(self) }),
    {
        let n = p.lines.len();
        let mut i: usize = 0;
        while i < n
            invariant
                i <= n,
                n == p.lines@.len(),
                self.wf(),
                self.hist() == pushed_all(old(self).hist(), p.view_lines(), i as int),
                *self == (Console { lines: self.lines, ..*old(self) }),
            decreases n - i,
        {
            proof {
                assert(p.view_lines()[i as int] == p.lines@[i as int]@);
            }
            self.push_line(p.lines[i].as_slice());
            i = i + 1;
        }
    }

    /// Runs the typed input as a command: the prompt line, then the
    /// command's lines (or an empty history for `clear`), its action, and an
    /// empty input.
    fn enter(&mut self, sys: &mut SystemState, clip: &mut Clipboard, now: Option<RtcTime>)
        requires
            old(self).wf(),
        ensures
            final(self).wf(),
            ({
                let o = run_outcome(
                    old(self).input@,
                    old(self).input@.len() as int,
                    old(self).rand_state,
                    old(self).fb_w,
                    old(self).fb_h,
                    *old(sys),
                    old(clip).bytes@,
                    now,
                );
                &&& final(self).hist() == if o.clear {
                    Seq::<Seq<u8>>::empty()
                } else {
                    pushed_all(pushed(old(self).hist(), prompt_of(old(self).input@)), o.lines, o.lines.len() as int)
                }
                &&& final(self).input@ == Seq::<u8>::empty()
                &&& final(self).action == if o.action != ConsoleAction::Idle { o.action } else { old(self).action }
                &&& final(self).rand_state == o.rand
                &&& *final(sys) == o.sys
                &&& final(clip).bytes@ == o.clip
            }),
            final(self).visible == old(self).visible,
            final(self).fb_w == old(self).fb_w && final(self).fb_h == old(self).fb_h,
            final(self).win_x == old(self).win_x && final(self).win_y == old(self).win_y,
            final(self).win_w == old(self).win_w && final(self).win_h == old(self).win_h,
            old(clip).wf() ==> final(clip).wf(),
    {
        let len = self.input.len();
        let mut cmd: Vec<u8> = Vec::new();
        write_str(&mut cmd, self.input.as_slice());
        proof {
            assert(cmd@ =~= self.input@);
        }
        let mut prompt: Vec<u8> = Vec::new();
        prompt.push(62);
        prompt.push(32);
        write_str(&mut prompt, cmd.as_slice());
        proof {
            assert(prompt@ =~= seq![62u8, 32u8] + cmd@);
        }
        self.push_line(prompt.as_slice());
        let out = run_command(cmd.as_slice(), len, &mut self.rand_state, self.fb_w, self.fb_h, sys, clip, now);
        if out.clear {
            self.lines.clear();
            proof {
                assert(self.hist() =~= Seq::<Seq<u8>>::empty());
            }
        } else {
            self.push_lines(&out);
        }
        if out.action != ConsoleAction::Idle {
            self.action = out.action;
        }
        self.input.clear();
    }

    /// Handles a typed byte: Enter runs the input (see `enter`), backspace
    /// deletes the last byte, tab does nothing, any other byte is appended
    /// while there is room. Returns whether the window is shown (and so
    /// took the key). The caller redraws.
    pub fn handle_char(&mut self, ch: u8, sys: &mut SystemState, clip: &mut Clipboard, now: Option<RtcTime>) -> (r: bool)
        requires
            old(self).wf(),
        ensures
            r == old(self).visible,
            final(self).wf(),
            old(clip).wf() ==> final(clip).wf(),
            !old(self).visible ==> *final(self) == *old(self) && *final(sys) == *old(sys) && final(clip).bytes@
                == old(clip).bytes@,
            old(self).visible && ch != 10u8 ==> {
                &&& *final(sys) == *old(sys)
                &&& final(clip).bytes@ == old(clip).bytes@
                &&& *final(self) == (Console { input: final(self).input, ..*old(self) })
                &&& final(self).input@ == if ch == 8u8 {
                    if old(self).input@.len() > 0 { old(self).input@.drop_last() } else { old(self).input@ }
                } else if ch == 9u8 {
                    old(self).input@
                } else if old(self).input@.len() < MAX_COLS {
                    old(self).input@.push(ch)
                } else {
                    old(self).input@
                }
            },
            old(self).visible && ch == 10u8 ==> {
                let o = run_outcome(
                    old(self).input@,
                    old(self).input@.len() as int,
                    old(self).rand_state,
                    old(self).fb_w,
                    old(self).fb_h,
                    *old(sys),
                    old(clip).bytes@,
                    now,
                );
                &&& final(self).hist() == if o.clear {
                    Seq::<Seq<u8>>::empty()
                } else {
                    pushed_all(pushed(old(self).hist(), prompt_of(old(self).input@)), o.lines, o.lines.len() as int)
                }
                &&& final(self).input@ == Seq::<u8>::empty()
                &&& final(self).action == if o.action != ConsoleAction::Idle { o.action } else { old(self).action }
                &&& final(self).rand_state == o.rand
                &&& *final(sys) == o.sys
                &&& final(clip).bytes@ == o.clip
                &&& final(self).visible
                &&& final(self).fb_w == old(self).fb_w && final(self).fb_h == old(self).fb_h
                &&& final(self).win_x == old(self).win_x && final(self).win_y == old(self).win_y
                &&& final(self).win_w == old(self).win_w && final(self).win_h == old(self).win_h
            },
    {
        if !self.visible {
            return false;
        }
        if ch == 10 {
            self.enter(sys, clip, now);
        } else if ch == 8 {
            if self.input.len() > 0 {
                self.input.pop();
            }
        } else if ch == 9 {
        } else if self.input.len() < MAX_COLS {
            self.input.push(ch);
        }
        true
    }

    /// The window rectangle: the default one while it has no size.
    pub fn rect(&self, fb: &Framebuffer) -> (r: (usize, usize, usize, usize))
        ensures
            (r.0 as int, r.1 as int, r.2 as int, r.3 as int) == self.rect_on(fb.width as int, fb.height as int),
    {
        if self.win_w == 0 || self.win_h == 0 {
            return calc_rect(fb);
        }
        (self.win_x, self.win_y, self.win_w, self.win_h)
    }

    /// Moves the window.
    pub fn set_pos(&mut self, x: usize, y: usize)
        ensures
            *final(self) == (Console { win_x: x, win_y: y, ..*old(self) }),
    {
        self.win_x = x;
        self.win_y = y;
    }
}

fn label(s: &'static str) -> (b: &'static [u8])
    requires
        vstd::string::is_ascii(s),
    ensures
        ascii(b@),
        b@ == lit(s),
        b@.len() == s@.len(),
{
    crate::text::ascii_lit(s)
}

impl Console {
    /// The window lies where the drawing code can reach.
    pub open spec fn drawable(&self, fb: &Framebuffer) -> bool {
        let r = self.rect_on(fb.width as int, fb.height as int);
        &&& fb.width <= COORD_MAX
        &&& window_fits(r.0, r.1, r.2, r.3)
        &&& r.2 >= 2 * CORNER_RADIUS
        &&& r.3 >= 2 * CORNER_RADIUS
    }

    /// Whether everything the window shows is ASCII (see `content_ascii`).
    pub fn is_content_ascii(&self) -> (r: bool)
        ensures
            r == self.content_ascii(),
    {
        if !crate::text::is_ascii(self.input.as_slice()) {
            return false;
        }
        let mut i: usize = 0;
        while i < self.lines.len()
            invariant
                i <= self.lines@.len(),
                forall|j: int| 0 <= j < i ==> ascii(#[trigger] self.lines@[j]@),
            decreases self.lines@.len() - i,
        {
            if !crate::text::is_ascii(self.lines[i].as_slice()) {
                return false;
            }
            i = i + 1;
        }
        true
    }

    /// Draws the window while shown: frame titled `Run`, body, the newest
    /// history lines that fit above the input line, and the input after
    /// `> ` on its own band.
    pub fn redraw(&self, fb: &mut Framebuffer, ui: &UiSettings)
        requires
            old(fb).wf(),
            self.wf(),
            self.content_ascii(),
            self.visible ==> self.drawable(old(fb)),
        ensures
            final(fb).wf(),
            final(fb).same_shape(old(fb)),
            !self.visible ==> *final(fb) == *old(fb),
            ({
                let rc = self.rect_on(old(fb).width as int, old(fb).height as int);
                self.visible && title_fits(rc.0, rc.2, rc.3, old(fb).width as int, lit("Run"))
                    ==> painted(*final(fb), rc.0 + 8, rc.1 + 14, 3, 14, ui.accent)
            }),
            self.visible ==> forall|k: int, qx: int, qy: int|
                0 <= k && self.first_shown(old(fb).width as int, old(fb).height as int) + k < self.lines@.len() && 0
                    <= qx < old(fb).width && 0 <= qy < old(fb).height && #[trigger] self.line_ink(
                    old(fb).width as int,
                    old(fb).height as int,
                    k,
                    qx,
                    qy,
                ) ==> final(fb).pixel(qx, qy) == if ui.dark { 0x00E6E6E6u32 } else { 0x00111111u32 },
    {
        if !self.visible {
            return;
        }
        let (x, y, w, h) = self.rect(fb);
        let (bg, input_bg, text): (u32, u32, u32) = if ui.dark {
            (0x00212121, 0x002B2B2B, 0x00E6E6E6)
        } else {
            (0x00FFFFFF, 0x00FFFFFF, 0x00111111)
        };
        proof {
            reveal_strlit("Run");
            reveal_strlit("> ");
        }
        let title = label("Run");
        let chrome = draw_window(fb, ui, x, y, w, h, title);
        let ghost framed = *fb;
        let ghost top = y + HEADER_H;
        let ghost stripe = (x + 8, y + 14, 3int, 14int);
        assert(kept_above(framed, framed, top));
        let ghost p1 = *fb;
        fill_rect(fb, chrome.content_x, chrome.content_y, chrome.content_w, chrome.content_h, bg);
        proof {
            lemma_above_step(framed, p1, *fb, top, chrome.content_y as int);
        }
        let text_x = chrome.content_x + PAD;
        let text_y = chrome.content_y + PAD;
        let max_visible = chrome.content_h.saturating_sub(PAD * 2) / LINE_HEIGHT;
        let visible_lines = max_visible.saturating_sub(1);
        let count = self.lines.len();
        let start = if count > visible_lines { count - visible_lines } else { 0 };
        let mut writer = TextWriter::new(fb);
        writer.set_color(text);
        let mut row: usize = 0;
        let mut i: usize = start;
        while i < count
            invariant
                fb.wf(),
                fb.same_shape(old(fb)),
                start <= i <= count,
                count == self.lines@.len() <= MAX_LINES,
                row == i - start,
                self.content_ascii(),
                self.wf(),
                text_x <= COORD_MAX + 64,
                text_y <= COORD_MAX + 200,
                writer.width == fb.width,
                fb.width <= COORD_MAX,
                framed.same_shape(old(fb)),
                text_y >= top + 2,
                kept_above(framed, *fb, top),
                writer.fg == text,
                fb.width == old(fb).width && fb.height == old(fb).height,
                start == self.first_shown(fb.width as int, fb.height as int),
                (x as int, y as int, w as int, h as int) == self.rect_on(fb.width as int, fb.height as int),
                chrome == chrome_spec(x as int, y as int, w as int, h as int),
                text_x == chrome.content_x + PAD,
                text_y == chrome.content_y + PAD,
                forall|k: int, qx: int, qy: int|
                    0 <= k < row && 0 <= qx < fb.width && 0 <= qy < fb.height && #[trigger] self.line_ink(
                        fb.width as int,
                        fb.height as int,
                        k,
                        qx,
                        qy,
                    ) ==> fb.pixel(qx, qy) == text,
            decreases count - i,
        {
            writer.set_pos(text_x, text_y + row * LINE_HEIGHT);
            let ghost p2 = *fb;
            if self.lines[i].len() > 0 {
                writer.write_bytes(fb, self.lines[i].as_slice());
                proof {
                    lemma_above_step(framed, p2, *fb, top, text_y + row * LINE_HEIGHT);
                }
            }
            proof {
                assert(self.lines@[i as int]@ == self.lines@[start + row]@);
                assert forall|k: int, qx: int, qy: int|
                    0 <= k < row + 1 && 0 <= qx < fb.width && 0 <= qy < fb.height && #[trigger] self.line_ink(
                        fb.width as int,
                        fb.height as int,
                        k,
                        qx,
                        qy,
                    ) implies fb.pixel(qx, qy) == text by {
                    assert(p2.pixel(qx, qy) == p2.pixel(qx, qy));
                }
            }
            row = row + 1;
            i = i + 1;
        }
        let input_y = text_y + row * LINE_HEIGHT;
        let ghost lined = *fb;
        let ghost iy = input_y - 4;
        assert(kept_above(lined, lined, iy));
        let ghost p3 = *fb;
        fill_rect(fb, chrome.content_x, input_y.saturating_sub(4), chrome.content_w, LINE_HEIGHT + 6, input_bg);
        proof {
            lemma_above_step(framed, p3, *fb, top, input_y - 4);
                lemma_above_step(lined, p3, *fb, iy, input_y - 4);
        }
        writer.set_pos(text_x, input_y);
        let ghost p4 = *fb;
        writer.write_bytes(fb, label("> "));
        proof {
            lemma_above_step(framed, p4, *fb, top, input_y as int);
                lemma_above_step(lined, p4, *fb, iy, input_y as int);
        }
        proof {
            crate::text::lemma_after_bytes_bounds(writer.width as int, text_x as int, input_y as int, lit("> "));
        }
        if self.input.len() > 0 {
            let ghost p5 = *fb;
            writer.write_bytes(fb, self.input.as_slice());
            proof {
                lemma_above_step(framed, p5, *fb, top, input_y as int);
                lemma_above_step(lined, p5, *fb, iy, input_y as int);
            }
        }
        proof {
            if title_fits(x as int, w as int, h as int, old(fb).width as int, title@) {
                lemma_above_painted(framed, *fb, top, stripe, ui.accent);
            }
            let fw = fb.width as int;
            let fh = fb.height as int;
            assert forall|k: int, qx: int, qy: int|
                0 <= k && start + k < count && 0 <= qx < fb.width && 0 <= qy < fb.height && #[trigger] self.line_ink(
                    fw,
                    fh,
                    k,
                    qx,
                    qy,
                ) implies fb.pixel(qx, qy) == text by {
                let line = self.lines@[start + k]@;
                lemma_one_line_ink(fw, text_x as int, text_y + k * LINE_HEIGHT, line, qx, qy);
                assert(lined.pixel(qx, qy) == text);
            }
        }
    }
}

} // verus!
