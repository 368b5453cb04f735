use vstd::prelude::*;
use vstd::slice::{slice_subrange, slice_to_vec};
use crate::clipboard::{self, Clipboard, clipped};
use crate::commands::{
    ConsoleAction, LineType, Lines, execute_command, command_outcome, command_safe,
    MAX_LINE,
};
use crate::display::{Framebuffer, fill_rect, in_area, painted, kept_above, lemma_above_step, lemma_above_painted};
use crate::rtc::RtcTime;
use crate::system::{SystemState, UiSettings};
use crate::text::{TextWriter, ascii, one_line, text_ink, COORD_MAX, lemma_ink_below, lemma_one_line_ink};
use crate::textfmt::{bytes_of, lit, ieq, eq_ignore_case, split_first_word, first_word};
use crate::window::{draw_window, chrome_spec, title_fits, window_fits, CORNER_RADIUS, HEADER_H};

verus! {

/// Lines of history the console keeps.
pub const MAX_LINES: usize = 32;
/// Most bytes of typed input.
pub const MAX_COLS: usize = 64;
pub const LINE_HEIGHT: usize = 16;
pub const PAD: usize = 14;

/// One line of console history.
pub struct ConsoleLine {
    pub text: Vec<u8>,
    pub kind: LineType,
}

/// History after appending `line`: when it already holds `MAX_LINES` lines
/// the oldest one goes.
pub open spec fn push_hist(h: Seq<(Seq<u8>, LineType)>, line: (Seq<u8>, LineType)) -> Seq<
    (Seq<u8>, LineType),
> {
    if h.len() < MAX_LINES {
        h.push(line)
    } else {
        h.drop_first().push(line)
    }
}

/// History after appending every line of `out`, in order.
pub open spec fn push_all(h: Seq<(Seq<u8>, LineType)>, out: Lines, n: int) -> Seq<
    (Seq<u8>, LineType),
>
    decreases n,
{
    if n <= 0 {
        h
    } else {
        push_hist(push_all(h, out, n - 1), (out.0[n - 1], out.1[n - 1]))
    }
}

/// The echo of a typed command: `> ` and its first 62 bytes.
pub open spec fn prompt_line(cmd: Seq<u8>) -> (Seq<u8>, LineType) {
    (
        seq![62u8, 32u8] + (if cmd.len() > 62 {
            cmd.take(62)
        } else {
            cmd
        }),
        LineType::Info,
    )
}

/// Bytes that paste adds to the input: the clipboard without line breaks.
pub open spec fn strip_newlines(s: Seq<u8>) -> Seq<u8> {
    s.filter(|b: u8| b != 10u8 && b != 13u8)
}

/// At most the first `n` bytes of `s`.
pub open spec fn cap(s: Seq<u8>, n: int) -> Seq<u8> {
    if s.len() > n {
        s.take(n)
    } else {
        s
    }
}

/// Dropping line breaks from `s` with `b` added: `b` stays unless it is one.
pub proof fn lemma_strip_push(s: Seq<u8>, b: u8)
    ensures
        strip_newlines(s.push(b)) == if b != 10u8 && b != 13u8 {
            strip_newlines(s).push(b)
        } else {
            strip_newlines(s)
        },
{
    assert(s.push(b).drop_last() =~= s);
    reveal_with_fuel(Seq::filter, 1);
}

/// Capping `x` with `b` added: `b` gets in while the capped text has room.
pub proof fn lemma_cap_push(x: Seq<u8>, b: u8, n: int)
    requires
        n >= 0,
    ensures
        cap(x.push(b), n) == if cap(x, n).len() < n {
            cap(x, n).push(b)
        } else {
            cap(x, n)
        },
{
    if x.len() >= n {
        assert(cap(x.push(b), n) =~= cap(x, n));
    } else {
        assert(cap(x.push(b), n) =~= x.push(b));
    }
}

/// The command terminal window: typed input, a scrolling history of output,
/// and the state its commands keep.
pub struct Console {
    pub visible: bool,
    pub fb_w: usize,
    pub fb_h: usize,
    pub win_x: usize,
    pub win_y: usize,
    pub win_w: usize,
    pub win_h: usize,
    pub history: Vec<ConsoleLine>,
    pub input: Vec<u8>,
    pub action: ConsoleAction,
    pub rand_state: u32,
    pub beep: bool,
}

/// A console's state as plain values: its window, its history as text and
/// colour pairs, the typed input, and what its commands left pending.
pub struct ConsoleView {
    pub visible: bool,
    pub fb_w: usize,
    pub fb_h: usize,
    pub win_x: usize,
    pub win_y: usize,
    pub win_w: usize,
    pub win_h: usize,
    pub hist: Seq<(Seq<u8>, LineType)>,
    pub input: Seq<u8>,
    pub action: ConsoleAction,
    pub rand_state: u32,
    pub beep: bool,
}

impl View for Console {
    type V = ConsoleView;

    open spec fn view(&self) -> ConsoleView {
        ConsoleView {
            visible: self.visible,
            fb_w: self.fb_w,
            fb_h: self.fb_h,
            win_x: self.win_x,
            win_y: self.win_y,
            win_w: self.win_w,
            win_h: self.win_h,
            hist: self.hist(),
            input: self.input@,
            action: self.action,
            rand_state: self.rand_state,
            beep: self.beep,
        }
    }
}

/// Typing `ch` into console `c`, with settings `sys`, clipboard text
/// `clip` and clock reading `now`, leaves the console `c2`, settings `sys2`
/// and clipboard text `clip2`. The window never changes. A hidden console
/// takes nothing. Backspace drops the last input byte, tab does nothing,
/// any other byte but Enter is appended while the input has room; these
/// touch nothing else. Enter runs the input as a command (see
/// `command_outcome`): the input empties, the history gets the prompt line
/// and the command's output (or is emptied by `clear`/`cls`), and the
/// command's action, beep, settings, clipboard and random state are kept.
pub open spec fn typed(
    c: ConsoleView,
    ch: u8,
    sys: SystemState,
    clip: Seq<u8>,
    now: Option<RtcTime>,
    c2: ConsoleView,
    sys2: SystemState,
    clip2: Seq<u8>,
) -> bool {
    &&& c2.visible == c.visible && c2.fb_w == c.fb_w && c2.fb_h == c.fb_h
    &&& c2.win_x == c.win_x && c2.win_y == c.win_y && c2.win_w == c.win_w && c2.win_h == c.win_h
    &&& !c.visible ==> c2 == c && sys2 == sys && clip2 == clip
    &&& c.visible && ch != 10u8 ==> {
        &&& sys2 == sys && clip2 == clip
        &&& c2.hist == c.hist
        &&& c2.action == c.action && c2.beep == c.beep && c2.rand_state == c.rand_state
        &&& c2.input == if ch == 8u8 {
            if c.input.len() > 0 { c.input.drop_last() } else { c.input }
        } else if ch == 9u8 {
            c.input
        } else if c.input.len() < MAX_COLS {
            c.input.push(ch)
        } else {
            c.input
        }
    }
    &&& c.visible && ch == 10u8 ==> {
        let o = command_outcome(c.input, c.input.len() as int, c.rand_state, c.fb_w, c.fb_h, sys, clip, now);
        let head = first_word(c.input, c.input.len() as int);
        &&& c2.input == Seq::<u8>::empty()
        &&& c2.hist == if ieq(head, lit("clear")) || ieq(head, lit("cls")) {
            Seq::<(Seq<u8>, LineType)>::empty()
        } else {
            push_all(push_hist(c.hist, prompt_line(c.input)), o.0, o.0.0.len() as int)
        }
        &&& c2.action == if o.1 != ConsoleAction::Idle { o.1 } else { c.action }
        &&& c2.beep == (c.beep || o.2)
        &&& sys2 == o.3
        &&& clip2 == o.4
        &&& c2.rand_state == o.5
    }
}

/// The action a console leaves pending after typing `ch` (see `typed`).
pub open spec fn typed_action(c: ConsoleView, ch: u8, sys: SystemState, clip: Seq<u8>, now: Option<RtcTime>) -> ConsoleAction {
    if c.visible && ch == 10u8 {
        let o = command_outcome(c.input, c.input.len() as int, c.rand_state, c.fb_w, c.fb_h, sys, clip, now);
        if o.1 != ConsoleAction::Idle { o.1 } else { c.action }
    } else {
        c.action
    }
}

/// Default window placement: 60% of the screen, centred.
pub open spec fn console_rect_spec(w: int, h: int) -> (int, int, int, int) {
    let ww = w * 6 / 10;
    let hh = h * 6 / 10;
    ((w - ww) / 2, (h - hh) / 2, ww, hh)
}

fn calc_rect(fb: &Framebuffer) -> (r: (usize, usize, usize, usize))
    requires
        fb.width <= COORD_MAX,
        fb.height <= COORD_MAX,
    ensures
        (r.0 as int, r.1 as int, r.2 as int, r.3 as int) == console_rect_spec(
            fb.width as int,
            fb.height as int,
        ),
{
    let w = (fb.width * 6) / 10;
    let h = (fb.height * 6) / 10;
    ((fb.width - w) / 2, (fb.height - h) / 2, w, h)
}

impl Console {
    /// The history as text and colour pairs.
    pub open spec fn hist(&self) -> Seq<(Seq<u8>, LineType)> {
        self.history@.map_values(|l: ConsoleLine| (l.text@, l.kind))
    }

    /// History and input stay within their bounds.
    pub open spec fn wf(&self) -> bool {
        &&& self.history@.len() <= MAX_LINES
        &&& self.input@.len() <= MAX_COLS
        &&& forall|i: int| 0 <= i < self.history@.len() ==> #[trigger] self.history@[i].text@.len() <= MAX_LINE
    }

    /// Everything the console shows is ASCII.
    pub open spec fn content_ascii(&self) -> bool {
        &&& ascii(self.input@)
        &&& forall|i: int| 0 <= i < self.history@.len() ==> ascii(#[trigger] self.history@[i].text@)
    }

    /// A hidden console with no history, sized later, whose random generator
    /// is seeded from the screen size.
    pub fn new(fb: &Framebuffer) -> (c: Console)
        ensures
            c.wf(),
            !c.visible,
            c.fb_w == fb.width,
            c.fb_h == fb.height,
            c.win_x == 0 && c.win_y == 0 && c.win_w == 0 && c.win_h == 0,
            c.hist() == Seq::<(Seq<u8>, LineType)>::empty(),
            c.input@ == Seq::<u8>::empty(),
            c.action == ConsoleAction::Idle,
            c.rand_state == ((fb.width as u32) ^ (((fb.height as u32) << 16u32) as u32)) ^ 0xA5A5_5A5Au32,
            !c.beep,
    {
        let seed = (fb.width as u32) ^ ((fb.height as u32) << 16u32);
        let c = Console {
            visible: false,
            fb_w: fb.width,
            fb_h: fb.height,
            win_x: 0,
            win_y: 0,
            win_w: 0,
            win_h: 0,
            history: Vec::new(),
            input: Vec::new(),
            action: ConsoleAction::Idle,
            rand_state: seed ^ 0xA5A5_5A5A,
            beep: false,
        };
        assert(c.hist() =~= Seq::<(Seq<u8>, LineType)>::empty());
        c
    }

    /// Whether the console is shown.
    pub fn is_visible(&self) -> (r: bool)
        ensures
            r == self.visible,
    {
        self.visible
    }

    /// Shows the console, placing it at 60% of the screen, centred, the first time.
    pub fn show(&mut self, fb: &Framebuffer)
        requires
            fb.width <= COORD_MAX,
            fb.height <= COORD_MAX,
        ensures
            final(self).visible,
            old(self).win_w == 0 ==> {
                let r = console_rect_spec(fb.width as int, fb.height as int);
                final(self).win_x == r.0 && final(self).win_y == r.1 && final(self).win_w == r.2
                    && final(self).win_h == r.3
            },
            old(self).win_w != 0 ==> final(self).win_x == old(self).win_x && final(self).win_y
                == old(self).win_y && final(self).win_w == old(self).win_w && final(self).win_h
                == old(self).win_h,
            final(self).history == old(self).history,
            final(self).input == old(self).input,
            final(self).action == old(self).action,
            final(self).rand_state == old(self).rand_state,
            final(self).beep == old(self).beep,
            final(self).fb_w == old(self).fb_w,
            final(self).fb_h == old(self).fb_h,
    {
        self.visible = true;
        if self.win_w == 0 {
            let (x, y, w, h) = calc_rect(fb);
            self.win_x = x;
            self.win_y = y;
            self.win_w = w;
            self.win_h = h;
        }
    }

    /// Hides the console.
    pub fn hide_window(&mut self, _fb: &Framebuffer)
        ensures
            *final(self) == (Console { visible: false, ..*old(self) }),
    {
        self.visible = false;
    }

    /// A click inside the console is taken whenever it is shown.
    pub fn handle_click(&mut self, _fb: &Framebuffer, _x: usize, _y: usize) -> (r: bool)
        ensures
            r == old(self).visible,
            *final(self) == *old(self),
    {
        self.visible
    }

    /// The pending desktop action, leaving none pending.
    pub fn take_action(&mut self) -> (a: ConsoleAction)
        ensures
            a == old(self).action,
            *final(self) == (Console { action: ConsoleAction::Idle, ..*old(self) }),
    {
        let a = self.action;
        self.action = ConsoleAction::Idle;
        a
    }

    /// Whether a command asked for a beep since the last call, clearing the request.
    pub fn take_beep(&mut self) -> (b: bool)
        ensures
            b == old(self).beep,
            *final(self) == (Console { beep: false, ..*old(self) }),
    {
        let b = self.beep;
        self.beep = false;
        b
    }

    /// Copies the typed input to the clipboard when the console is shown and
    /// the input is not empty.
    pub fn copy_input(&self, clip: &mut Clipboard)
        ensures
            final(clip).bytes@ == if self.visible && self.input@.len() > 0 {
                clipped(self.input@)
            } else {
                old(clip).bytes@
            },
    {
        if self.visible && self.input.len() > 0 {
            clipboard::set(clip, self.input.as_slice());
        }
    }

    /// Appends the clipboard, without its line breaks, to the typed input as
    /// far as it fits; nothing happens while the console is hidden.
    pub fn paste_clipboard(&mut self, clip: &Clipboard) -> (r: bool)
        requires
            old(self).wf(),
        ensures
            r == old(self).visible,
            final(self).wf(),
            final(self).input@ == if old(self).visible {
                cap(old(self).input@ + strip_newlines(clip.bytes@), MAX_COLS as int)
            } else {
                old(self).input@
            },
            final(self)@ == (ConsoleView { input: final(self).input@, ..old(self)@ }),
    {
        if !self.visible {
            return false;
        }
        let data = clipboard::data(clip);
        let ghost d = data@;
        let ghost start = self.input@;
        let mut i: usize = 0;
        while i < data.len()
            invariant
                i <= d.len(),
                d == data@,
                self.input@ == cap(start + strip_newlines(d.take(i as int)), MAX_COLS as int),
                start.len() <= MAX_COLS,
                self@ == (ConsoleView { input: self.input@, ..old(self)@ }),
                self.history == old(self).history,
            decreases d.len() - i,
        {
            let b = data[i];
            proof {
                assert(d.take(i + 1).drop_last() =~= d.take(i as int));
                assert(d.take(i + 1).last() == b);
            }
            if b != 10u8 && b != 13u8 {
                if self.input.len() < MAX_COLS {
                    self.input.push(b);
                }
            }
            proof {
                let f = strip_newlines(d.take(i + 1));
                let f0 = strip_newlines(d.take(i as int));
                let x = start + f0;
                lemma_strip_push(d.take(i as int), b);
                assert(d.take(i + 1) =~= d.take(i as int).push(b));
                if b != 10u8 && b != 13u8 {
                    assert(f =~= f0.push(b));
                    assert(start + f =~= x.push(b));
                    lemma_cap_push(x, b, MAX_COLS as int);
                } else {
                    assert(f =~= f0);
                }
            }
            i = i + 1;
        }
        proof {
            assert(d.take(d.len() as int) =~= d);
        }
        true
    }

    /// Handles a typed byte (see `typed`): Enter runs the input as a
    /// command, backspace deletes the last byte, tab is ignored, any other
    /// byte is appended while there is room. Returns whether the console is
    /// shown (and so took the key). Drawing is left to the next `redraw`.
    pub fn handle_char(
        &mut self,
        ch: u8,
        sys: &mut SystemState,
        clip: &mut Clipboard,
        now: Option<RtcTime>,
    ) -> (r: bool)
        requires
            old(self).wf(),
            old(clip).wf(),
            old(self).visible && ch == 10u8 ==> command_safe(
                old(self).input@,
                old(self).input@.len() as int,
                *old(sys),
                now,
            ),
        ensures
            r == old(self).visible,
            final(self).wf(),
            final(clip).wf(),
            typed(old(self)@, ch, *old(sys), old(clip).bytes@, now, final(self)@, *final(sys), final(clip).bytes@),
    {
        if !self.visible {
            return false;
        }
        if ch == 10u8 {
            self.execute(sys, clip, now);
        } else if ch == 8u8 {
            if self.input.len() > 0 {
                self.input.pop();
            }
        } else if ch == 9u8 {
        } else if self.input.len() < MAX_COLS {
            self.input.push(ch);
        }
        true
    }

    fn execute(&mut self, sys: &mut SystemState, clip: &mut Clipboard, now: Option<RtcTime>)
        requires
            old(self).wf(),
            old(clip).wf(),
            command_safe(old(self).input@, old(self).input@.len() as int, *old(sys), now),
        ensures
            final(self).wf(),
            final(clip).wf(),
            final(self).visible == old(self).visible,
            ({
                let o = command_outcome(
                    old(self).input@,
                    old(self).input@.len() as int,
                    old(self).rand_state,
                    old(self).fb_w,
                    old(self).fb_h,
                    *old(sys),
                    old(clip).bytes@,
                    now,
                );
                let head = first_word(old(self).input@, old(self).input@.len() as int);
                &&& final(self).input@ == Seq::<u8>::empty()
                &&& final(self).hist() == if ieq(head, lit("clear")) || ieq(head, lit("cls")) {
                    Seq::<(Seq<u8>, LineType)>::empty()
                } else {
                    push_all(
                        push_hist(old(self).hist(), prompt_line(old(self).input@)),
                        o.0,
                        o.0.0.len() as int,
                    )
                }
                &&& final(self).action == if o.1 != ConsoleAction::Idle {
                    o.1
                } else {
                    old(self).action
                }
                &&& final(self).beep == (old(self).beep || o.2)
                &&& *final(sys) == o.3
                &&& final(clip).bytes@ == o.4
                &&& final(self).rand_state == o.5
            }),
            final(self).fb_w == old(self).fb_w,
            final(self).fb_h == old(self).fb_h,
            final(self).win_x == old(self).win_x && final(self).win_y == old(self).win_y,
            final(self).win_w == old(self).win_w && final(self).win_h == old(self).win_h,
    {
        let len = self.input.len();
        let cmd = slice_to_vec(self.input.as_slice());
        self.push_prompt_line(cmd.as_slice());
        let result = execute_command(
            cmd.as_slice(),
            len,
            &mut self.rand_state,
            self.fb_w,
            self.fb_h,
            sys,
            clip,
            now,
        );
        let (head, _) = split_first_word(cmd.as_slice(), len);
        if eq_ignore_case(head, bytes_of("clear")) || eq_ignore_case(head, bytes_of("cls")) {
            self.clear();
        } else {
            let n = result.count();
            let mut i: usize = 0;
            let ghost h0 = self.hist();
            let ghost r1 = self.rand_state;
            while i < n
                invariant
                    i <= n,
                    n == result@.0.len(),
                    result.wf(),
                    self.wf(),
                    self.hist() == push_all(h0, result@, i as int),
                    self.visible == old(self).visible,
                    self.action == old(self).action,
                    self.beep == old(self).beep,
                    self.input == old(self).input,
                    self.rand_state == r1,
                    self.fb_w == old(self).fb_w,
                    self.fb_h == old(self).fb_h,
                    self.win_x == old(self).win_x && self.win_y == old(self).win_y,
                    self.win_w == old(self).win_w && self.win_h == old(self).win_h,
                decreases n - i,
            {
                let line = slice_to_vec(result.lines[i].as_slice());
                self.push_line_raw(line, result.types[i]);
                i = i + 1;
            }
        }
        if result.action != ConsoleAction::Idle {
            self.action = result.action;
        }
        if result.beep {
            self.beep = true;
        }
        self.input.clear();
    }

    fn push_prompt_line(&mut self, cmd: &[u8])
        requires
            old(self).wf(),
        ensures
            final(self).wf(),
            final(self).hist() == push_hist(old(self).hist(), prompt_line(cmd@)),
            final(self).input == old(self).input,
            final(self).visible == old(self).visible,
            final(self).rand_state == old(self).rand_state,
            final(self).action == old(self).action,
            final(self).beep == old(self).beep,
            final(self).fb_w == old(self).fb_w,
            final(self).fb_h == old(self).fb_h,
            final(self).win_x == old(self).win_x && final(self).win_y == old(self).win_y,
            final(self).win_w == old(self).win_w && final(self).win_h == old(self).win_h,
    {
        let mut line: Vec<u8> = Vec::new();
        line.push(62u8);
        line.push(32u8);
        let content_len = if cmd.len() > MAX_COLS - 2 { MAX_COLS - 2 } else { cmd.len() };
        let part = slice_subrange(cmd, 0, content_len);
        let mut i: usize = 0;
        while i < content_len
            invariant
                i <= content_len,
                part@.len() == content_len,
                line@ == seq![62u8, 32u8] + part@.take(i as int),
            decreases content_len - i,
        {
            line.push(part[i]);
            i = i + 1;
            proof {
                assert(part@.take(i as int) =~= part@.take(i - 1).push(part@[i - 1]));
            }
        }
        proof {
            assert(part@.take(content_len as int) =~= part@);
            assert(line@ =~= prompt_line(cmd@).0);
        }
        self.push_line_raw(line, LineType::Info);
    }

    fn clear(&mut self)
        ensures
            final(self).hist() == Seq::<(Seq<u8>, LineType)>::empty(),
            final(self).history@.len() == 0,
            final(self).input == old(self).input,
            final(self).visible == old(self).visible,
            final(self).rand_state == old(self).rand_state,
            final(self).action == old(self).action,
            final(self).beep == old(self).beep,
            final(self).fb_w == old(self).fb_w,
            final(self).fb_h == old(self).fb_h,
            final(self).win_x == old(self).win_x && final(self).win_y == old(self).win_y,
            final(self).win_w == old(self).win_w && final(self).win_h == old(self).win_h,
    {
        self.history.clear();
        assert(self.hist() =~= Seq::<(Seq<u8>, LineType)>::empty());
    }

    fn push_line_raw(&mut self, line: Vec<u8>, line_type: LineType)
        requires
            old(self).wf(),
            line@.len() <= MAX_LINE,
        ensures
            final(self).wf(),
            final(self).hist() == push_hist(old(self).hist(), (line@, line_type)),
            final(self).input == old(self).input,
            final(self).visible == old(self).visible,
            final(self).rand_state == old(self).rand_state,
            final(self).action == old(self).action,
            final(self).beep == old(self).beep,
            final(self).fb_w == old(self).fb_w,
            final(self).fb_h == old(self).fb_h,
            final(self).win_x == old(self).win_x && final(self).win_y == old(self).win_y,
            final(self).win_w == old(self).win_w && final(self).win_h == old(self).win_h,
    {
        let ghost before = self.history@;
        if self.history.len() >= MAX_LINES {
            self.history.remove(0);
        }
        self.history.push(ConsoleLine { text: line, kind: line_type });
        proof {
            if before.len() >= MAX_LINES {
                assert(self.hist() =~= before.map_values(|l: ConsoleLine| (l.text@, l.kind)).drop_first().push(
                    (line@, line_type),
                ));
            } else {
                assert(self.hist() =~= before.map_values(|l: ConsoleLine| (l.text@, l.kind)).push(
                    (line@, line_type),
                ));
            }
        }
    }

    /// The console's window rectangle.
    pub fn rect(&self, fb: &Framebuffer) -> (r: (usize, usize, usize, usize))
        requires
            fb.width <= COORD_MAX,
            fb.height <= COORD_MAX,
        ensures
            self.win_w == 0 ==> (r.0 as int, r.1 as int, r.2 as int, r.3 as int) == console_rect_spec(
                fb.width as int,
                fb.height as int,
            ),
            self.win_w != 0 ==> r == (self.win_x, self.win_y, self.win_w, self.win_h),
    {
        if self.win_w == 0 {
            calc_rect(fb)
        } else {
            (self.win_x, self.win_y, self.win_w, self.win_h)
        }
    }

    /// Moves the window.
    pub fn set_pos(&mut self, x: usize, y: usize)
        ensures
            *final(self) == (Console { win_x: x, win_y: y, ..*old(self) }),
    {
        self.win_x = x;
        self.win_y = y;
    }
}


/// The colour a history line of kind `t` is drawn in.
pub open spec fn line_color(t: LineType, dark: bool) -> u32 {
    match t {
        LineType::Success => if dark { 0x0088FF88u32 } else { 0x0000AA00u32 },
        LineType::Error => if dark { 0x00FF7777u32 } else { 0x00AA0000u32 },
        LineType::Info => if dark { 0x0077CCFFu32 } else { 0x000066CCu32 },
        LineType::Normal => if dark { 0x00DDDDDDu32 } else { 0x00222222u32 },
    }
}

impl Console {
    /// The window's rectangle on a `fw * fh` screen.
    pub open spec fn rect_spec(self, fw: int, fh: int) -> (int, int, int, int) {
        if self.win_w == 0 {
            console_rect_spec(fw, fh)
        } else {
            (self.win_x as int, self.win_y as int, self.win_w as int, self.win_h as int)
        }
    }

    /// Top of the input box on a `fw * fh` screen.
    pub open spec fn input_top(self, fw: int, fh: int) -> int {
        let c = chrome_spec(self.rect_spec(fw, fh).0, self.rect_spec(fw, fh).1, self.rect_spec(fw, fh).2, self.rect_spec(fw, fh).3);
        c.content_y + c.content_h - (LINE_HEIGHT + 10) - 6
    }

    /// The first history line shown: the newest lines that fit above the
    /// input box.
    pub open spec fn first_shown(self, fw: int, fh: int) -> int {
        let c = chrome_spec(self.rect_spec(fw, fh).0, self.rect_spec(fw, fh).1, self.rect_spec(fw, fh).2, self.rect_spec(fw, fh).3);
        let max_visible = (self.input_top(fw, fh) - c.content_y - PAD) / LINE_HEIGHT as int;
        let count = self.history@.len() as int;
        if count > max_visible { count - max_visible } else { 0 }
    }

    /// Whether the `k`-th shown history line, when it fits on one line,
    /// lights `(qx, qy)`.
    pub open spec fn hist_ink(self, fw: int, fh: int, k: int, qx: int, qy: int) -> bool {
        let c = chrome_spec(self.rect_spec(fw, fh).0, self.rect_spec(fw, fh).1, self.rect_spec(fw, fh).2, self.rect_spec(fw, fh).3);
        let line = self.history@[self.first_shown(fw, fh) + k].text@;
        &&& one_line(fw, c.content_x + PAD, line)
        &&& text_ink(fw, c.content_x + PAD, c.content_y + PAD + k * LINE_HEIGHT, line, qx, qy)
    }
}

/// Text colour of a history line.
pub fn get_line_color(t: LineType, dark: bool) -> (c: u32)
    ensures
        c == match t {
            LineType::Success => if dark { 0x0088FF88u32 } else { 0x0000AA00u32 },
            LineType::Error => if dark { 0x00FF7777u32 } else { 0x00AA0000u32 },
            LineType::Info => if dark { 0x0077CCFFu32 } else { 0x000066CCu32 },
            LineType::Normal => if dark { 0x00DDDDDDu32 } else { 0x00222222u32 },
        },
{
    match t {
        LineType::Success => if dark { 0x0088FF88 } else { 0x0000AA00 },
        LineType::Error => if dark { 0x00FF7777 } else { 0x00AA0000 },
        LineType::Info => if dark { 0x0077CCFF } else { 0x000066CC },
        LineType::Normal => if dark { 0x00DDDDDD } else { 0x00222222 },
    }
}

/// Draws a one-pixel frame around the `w * h` rectangle at `(x, y)`.
pub fn draw_border(fb: &mut Framebuffer, x: usize, y: usize, w: usize, h: usize, color: u32)
    requires
        old(fb).wf(),
        x + w <= usize::MAX,
        y + h <= usize::MAX,
        1 <= w,
        1 <= h,
    ensures
        final(fb).wf(),
        final(fb).same_shape(old(fb)),
        forall|qx: int, qy: int|
            0 <= qx < old(fb).width && 0 <= qy < old(fb).height ==> #[trigger] final(fb).pixel(qx, qy) == if in_area(
                x as int,
                y as int,
                w as int,
                h as int,
                qx,
                qy,
            ) && (qy == y || qy == y + h - 1 || qx == x || qx == x + w - 1) {
                color
            } else {
                old(fb).pixel(qx, qy)
            },
{
    fill_rect(fb, x, y, w, 1, color);
    fill_rect(fb, x, y + h - 1, w, 1, color);
    fill_rect(fb, x, y, 1, h, color);
    fill_rect(fb, x + w - 1, y, 1, h, color);
}

impl Console {
    /// Whether the console's window is large enough to draw: at least 28
    /// pixels wide and 92 high, within the coordinate limit.
    pub open spec fn drawable(&self, fb: &Framebuffer) -> bool {
        let r = if self.win_w == 0 {
            console_rect_spec(fb.width as int, fb.height as int)
        } else {
            (self.win_x as int, self.win_y as int, self.win_w as int, self.win_h as int)
        };
        &&& fb.width <= COORD_MAX
        &&& fb.height <= COORD_MAX
        &&& window_fits(r.0, r.1, r.2, r.3)
        &&& r.2 >= 2 * CORNER_RADIUS
        &&& r.3 >= 92
    }

    /// Whether everything shown is ASCII, as drawing needs.
    pub fn is_content_ascii(&self) -> (r: bool)
        ensures
            r == self.content_ascii(),
    {
        if !crate::text::is_ascii(self.input.as_slice()) {
            return false;
        }
        let mut i: usize = 0;
        while i < self.history.len()
            invariant
                i <= self.history@.len(),
                forall|j: int| 0 <= j < i ==> ascii(#[trigger] self.history@[j].text@),
            decreases self.history@.len() - i,
        {
            if !crate::text::is_ascii(self.history[i].text.as_slice()) {
                return false;
            }
            i = i + 1;
        }
        true
    }

    /// Draws the console window: frame, the latest history lines that fit,
    /// and the input box with the typed text and a cursor. Nothing is drawn
    /// while it is hidden.
    pub fn redraw(&self, fb: &mut Framebuffer, ui: &UiSettings)
        requires
            old(fb).wf(),
            self.wf(),
            self.visible ==> self.drawable(old(fb)),
            self.visible ==> self.content_ascii(),
        ensures
            final(fb).wf(),
            final(fb).same_shape(old(fb)),
            !self.visible ==> *final(fb) == *old(fb),
            ({
                let rc = if self.win_w == 0 {
                    console_rect_spec(old(fb).width as int, old(fb).height as int)
                } else {
                    (self.win_x as int, self.win_y as int, self.win_w as int, self.win_h as int)
                };
                self.visible && title_fits(rc.0, rc.2, rc.3, old(fb).width as int, lit("Terminal"))
                    ==> painted(*final(fb), rc.0 + 8, rc.1 + 14, 3, 14, ui.accent)
            }),
            self.visible ==> forall|k: int, qx: int, qy: int|
                0 <= k && self.first_shown(old(fb).width as int, old(fb).height as int) + k < self.history@.len() && 0
                    <= qx < old(fb).width && 0 <= qy < old(fb).height && qy < self.input_top(
                    old(fb).width as int,
                    old(fb).height as int,
                ) && #[trigger] self.hist_ink(old(fb).width as int, old(fb).height as int, k, qx, qy) ==> final(fb).pixel(
                    qx,
                    qy,
                ) == line_color(
                    self.history@[self.first_shown(old(fb).width as int, old(fb).height as int) + k].kind,
                    ui.dark,
                ),
    {
        if !self.visible {
            return;
        }
        let (x, y, w, h) = self.rect(fb);
        let bg: u32 = if ui.dark { 0xEE1A1A1A } else { 0xEEFDFDFD };
        let input_bg: u32 = if ui.dark { 0x00252525 } else { 0x00F0F0F0 };
        let border: u32 = if ui.dark { 0x00333333 } else { 0x00D0D0D0 };
        let prompt = ui.accent;
        let title = bytes_of_terminal();
        let chrome = draw_window(fb, ui, x, y, w, h, title);
        let ghost framed = *fb;
        let ghost top = y + HEADER_H;
        let ghost stripe = (x + 8, y + 14, 3int, 14int);
        assert(kept_above(framed, framed, top));
        let ghost p1 = *fb;
        fill_rect(fb, chrome.content_x, chrome.content_y, chrome.content_w, chrome.content_h, bg);
        proof {
            lemma_above_step(framed, p1, *fb, top, chrome.content_y as int);
        }

        let text_x = chrome.content_x + PAD;
        let input_h = LINE_HEIGHT + 10;
        let input_area_y = chrome.content_y + chrome.content_h - input_h - 6;
        let max_visible = (input_area_y - chrome.content_y - PAD) / LINE_HEIGHT;
        let count = self.history.len();
        let start = count.saturating_sub(max_visible);
        let mut writer = TextWriter::new(fb);
        let mut i: usize = 0;
        while i < count - start
            invariant
                fb.wf(),
                fb.same_shape(old(fb)),
                fb.width <= COORD_MAX,
                count == self.history@.len(),
                count <= MAX_LINES,
                start <= count,
                i <= count - start,
                self.wf(),
                self.content_ascii(),
                writer.width == fb.width,
                text_x <= 2 * COORD_MAX,
                chrome.content_y <= 2 * COORD_MAX,
                framed.same_shape(old(fb)),
                chrome.content_y >= top,
                kept_above(framed, *fb, top),
                start == self.first_shown(fb.width as int, fb.height as int),
                chrome == chrome_spec(x as int, y as int, w as int, h as int),
                (x as int, y as int, w as int, h as int) == self.rect_spec(fb.width as int, fb.height as int),
                text_x == chrome.content_x + PAD,
                fb.width == old(fb).width && fb.height == old(fb).height,
                forall|k: int, qx: int, qy: int|
                    0 <= k < i && 0 <= qx < fb.width && 0 <= qy < fb.height && #[trigger] self.hist_ink(
                        fb.width as int,
                        fb.height as int,
                        k,
                        qx,
                        qy,
                    ) ==> fb.pixel(qx, qy) == line_color(self.history@[start + k].kind, ui.dark),
            decreases count - start - i,
        {
            let idx = start + i;
            writer.set_color(get_line_color(self.history[idx].kind, ui.dark));
            writer.set_pos(text_x, chrome.content_y + PAD + i * LINE_HEIGHT);
            assert(ascii(self.history@[idx as int].text@));
            assert(self.history@[idx as int].text@.len() <= MAX_LINE);
            let ghost p2 = *fb;
            writer.write_bytes(fb, self.history[idx].text.as_slice());
            proof {
                lemma_above_step(framed, p2, *fb, top, chrome.content_y + PAD + i * LINE_HEIGHT);
                let fw = fb.width as int;
                let fh = fb.height as int;
                assert forall|k: int, qx: int, qy: int|
                    0 <= k < i + 1 && 0 <= qx < fb.width && 0 <= qy < fb.height && #[trigger] self.hist_ink(
                        fw,
                        fh,
                        k,
                        qx,
                        qy,
                    ) implies fb.pixel(qx, qy) == line_color(self.history@[start + k].kind, ui.dark) by {
                    if k < i {
                        let line = self.history@[start + k].text@;
                        lemma_one_line_ink(fw, text_x as int, chrome.content_y + PAD + k * LINE_HEIGHT, line, qx, qy);
                        let cur = self.history@[idx as int].text@;
                        if text_ink(fw, text_x as int, chrome.content_y + PAD + i * LINE_HEIGHT, cur, qx, qy) {
                            lemma_ink_below(fw, text_x as int, chrome.content_y + PAD + i * LINE_HEIGHT, cur, qx, qy);
                        }
                        assert(p2.pixel(qx, qy) == line_color(self.history@[start + k].kind, ui.dark));
                    }
                }
            }
            i = i + 1;
        }

        let ghost histed = *fb;
        let ghost iy = input_area_y as int;
        assert(kept_above(histed, histed, iy));
        let input_box_x = chrome.content_x + 6;
        let input_box_w = chrome.content_w - 12;
        let ghost p3 = *fb;
        fill_rect(fb, input_box_x, input_area_y, input_box_w, input_h, input_bg);
        proof {
            lemma_above_step(framed, p3, *fb, top, input_area_y as int);
            lemma_above_step(histed, p3, *fb, iy, input_area_y as int);
        }
        let ghost p4 = *fb;
        draw_border(fb, input_box_x, input_area_y, input_box_w, input_h, border);
        proof {
            assert(kept_above(p4, *fb, input_area_y as int));
            lemma_above_step(framed, p4, *fb, top, input_area_y as int);
            lemma_above_step(histed, p4, *fb, iy, input_area_y as int);
        }

        let input_text_y = input_area_y + (input_h - 10) / 2;
        writer.set_color(prompt);
        writer.set_pos(text_x, input_text_y);
        let mut p: Vec<u8> = Vec::new();
        p.push(62u8);
        p.push(32u8);
        proof {
            assert(ascii(p@));
        }
        let ghost p5 = *fb;
        writer.write_bytes(fb, p.as_slice());
        proof {
            lemma_above_step(framed, p5, *fb, top, input_text_y as int);
            lemma_above_step(histed, p5, *fb, iy, input_text_y as int);
        }
        proof {
            crate::text::lemma_after_bytes_bounds(
                writer.width as int,
                text_x as int,
                input_text_y as int,
                p@,
            );
        }
        writer.set_color(if ui.dark { 0x00FFFFFF } else { 0x000000 });
        let ghost p6 = *fb;
        writer.write_bytes(fb, self.input.as_slice());
        proof {
            lemma_above_step(framed, p6, *fb, top, input_text_y as int);
            lemma_above_step(histed, p6, *fb, iy, input_text_y as int);
        }

        let cursor_x = text_x + 18 + (self.input.len() * 8);
        if cursor_x < input_box_x + input_box_w - 4 {
            let ghost p7 = *fb;
            fill_rect(fb, cursor_x, input_text_y, 2, 12, prompt);
            proof {
                lemma_above_step(framed, p7, *fb, top, input_text_y as int);
            lemma_above_step(histed, p7, *fb, iy, input_text_y as int);
            }
        }
        proof {
            if title_fits(x as int, w as int, h as int, old(fb).width as int, title@) {
                lemma_above_painted(framed, *fb, top, stripe, ui.accent);
            }
            assert(iy == self.input_top(fb.width as int, fb.height as int));
            assert forall|k: int, qx: int, qy: int|
                0 <= k && start + k < count && 0 <= qx < fb.width && 0 <= qy < fb.height && qy < iy
                    && #[trigger] self.hist_ink(fb.width as int, fb.height as int, k, qx, qy) implies fb.pixel(qx, qy)
                    == line_color(self.history@[start + k].kind, ui.dark) by {
                assert(histed.pixel(qx, qy) == line_color(self.history@[start + k].kind, ui.dark));
            }
        }
    }
}

/// The console's title.
fn bytes_of_terminal() -> (b: &'static [u8])
    ensures
        ascii(b@),
        b@.len() == 8,
        b@ == lit("Terminal"),
{
    proof {
        reveal_strlit("Terminal");
    }
    crate::text::ascii_lit("Terminal")
}

} // verus!
