use vstd::prelude::*;
use vstd::slice::slice_subrange;
use crate::display::{Framebuffer, fill_rect, painted, kept_above, lemma_fill_frame, lemma_above_rect, lemma_above_painted};
use crate::system::UiSettings;
use crate::text::{ascii, one_line, text_ink, TextWriter, COORD_MAX, lemma_above_ink, lemma_one_line_ink};
use crate::textfmt::{dec, lit, write_u64, write_str, lemma_dec_digits};
use crate::window::{draw_window, window_fits, title_fits, title_color, CORNER_RADIUS, HEADER_H};

verus! {

pub const WIN_WIDTH: usize = 320;
pub const WIN_HEIGHT: usize = 460;
pub const PAD: usize = 12;
pub const DISPLAY_H: usize = 72;
pub const BUTTON_GAP: usize = 8;
pub const BUTTON_ROWS: usize = 5;
pub const BUTTON_COLS: usize = 4;

/// Longest text the display holds.
pub const MAX_DISPLAY_LEN: usize = 32;

/// Numbers are kept in fixed point with six decimal places.
pub const SCALE: i64 = 1_000_000;

/// `10` to the power `n`.
pub open spec fn pow10(n: nat) -> int
    decreases n,
{
    if n == 0 {
        1
    } else {
        10 * pow10((n - 1) as nat)
    }
}

pub proof fn lemma_pow10_mono(a: nat, b: nat)
    requires
        a <= b,
    ensures
        1 <= pow10(a) <= pow10(b),
    decreases b,
{
    if b > 0 {
        if a < b {
            lemma_pow10_mono(a, (b - 1) as nat);
        } else {
            lemma_pow10_mono((a - 1) as nat, (b - 1) as nat);
        }
    }
}

/// A number below `10^k` has at most `k` decimal digits.
pub proof fn lemma_dec_len_pow(n: nat, k: nat)
    requires
        1 <= k,
        n < pow10(k),
    ensures
        1 <= dec(n).len() <= k,
    decreases n,
{
    if n >= 10 {
        assert(k >= 2) by {
            if k == 1 {
                assert(pow10(1) == 10) by {
                    reveal_with_fuel(pow10, 2);
                }
            }
        }
        assert(pow10(k) == 10 * pow10((k - 1) as nat));
        lemma_dec_len_pow(n / 10, (k - 1) as nat);
    }
}

/// Truncating division, as Rust divides signed integers.
pub open spec fn tdiv(a: int, b: int) -> int {
    if a >= 0 {
        a / b
    } else {
        -((-a) / b)
    }
}

/// `x` clamped to the range of `i64`.
pub open spec fn sat64(x: int) -> int {
    if x > i64::MAX {
        i64::MAX as int
    } else if x < i64::MIN {
        i64::MIN as int
    } else {
        x
    }
}

/// `s` with zeros in front up to length `n`.
pub open spec fn zero_pad(s: Seq<u8>, n: nat) -> Seq<u8> {
    if s.len() >= n {
        s
    } else {
        Seq::new((n - s.len()) as nat, |_i: int| 48u8) + s
    }
}

/// Length of `s` without its trailing zero digits.
pub open spec fn zeros_trimmed_len(s: Seq<u8>) -> int
    decreases s.len(),
{
    if s.len() > 0 && s.last() == 48u8 {
        zeros_trimmed_len(s.drop_last())
    } else {
        s.len() as int
    }
}

proof fn lemma_zeros_trimmed_len(s: Seq<u8>)
    ensures
        0 <= zeros_trimmed_len(s) <= s.len(),
    decreases s.len(),
{
    if s.len() > 0 && s.last() == 48u8 {
        lemma_zeros_trimmed_len(s.drop_last());
    }
}

/// The number being typed: `right` with its last `dp` digits after a decimal
/// point once one was typed (padded with zeros to reach them).
pub open spec fn input_text(right: int, has_decimal: bool, dp: nat) -> Seq<u8> {
    let d = dec(right as nat);
    if !has_decimal {
        d
    } else {
        let p = zero_pad(d, dp + 1);
        p.take(p.len() - dp) + seq![46u8] + p.skip(p.len() - dp)
    }
}

/// A fixed-point value as text: sign, whole part, and the fraction without
/// trailing zeros when it is not zero.
pub open spec fn left_text(left: int) -> Seq<u8> {
    let a = if left < 0 {
        -left
    } else {
        left
    };
    let frac = a % 1_000_000;
    let six = zero_pad(dec(frac as nat), 6);
    (if left < 0 {
        seq![45u8]
    } else {
        Seq::empty()
    }) + dec((a / 1_000_000) as nat) + if frac > 0 {
        seq![46u8] + six.take(zeros_trimmed_len(six))
    } else {
        Seq::empty()
    }
}

proof fn lemma_zero_pad(s: Seq<u8>, n: nat)
    requires
        forall|i: int| 0 <= i < s.len() ==> 48 <= #[trigger] s[i] <= 57,
    ensures
        zero_pad(s, n).len() == if s.len() >= n {
            s.len()
        } else {
            n
        },
        forall|i: int| 0 <= i < zero_pad(s, n).len() ==> 48 <= #[trigger] zero_pad(s, n)[i] <= 57,
{
    if s.len() < n {
        let z = Seq::new((n - s.len()) as nat, |_i: int| 48u8);
        assert forall|i: int| 0 <= i < zero_pad(s, n).len() implies 48 <= #[trigger] zero_pad(s, n)[i]
            <= 57 by {
            if i < z.len() {
                assert(zero_pad(s, n)[i] == z[i]);
            } else {
                assert(zero_pad(s, n)[i] == s[i - z.len()]);
            }
        }
    }
}

/// The typed number's text is short ASCII.
proof fn lemma_input_text(right: int, has_decimal: bool, dp: nat)
    requires
        0 <= right <= i64::MAX,
        dp <= 6,
    ensures
        1 <= input_text(right, has_decimal, dp).len() <= 20,
        ascii(input_text(right, has_decimal, dp)),
{
    let d = dec(right as nat);
    assert(pow10(19) == 10_000_000_000_000_000_000) by {
        reveal_with_fuel(pow10, 20);
    }
    lemma_dec_len_pow(right as nat, 19);
    lemma_dec_digits(right as nat);
    if has_decimal {
        let p = zero_pad(d, dp + 1);
        lemma_zero_pad(d, dp + 1);
        let t = p.take(p.len() - dp) + seq![46u8] + p.skip(p.len() - dp);
        assert(t.len() == p.len() + 1);
        assert forall|i: int| 0 <= i < t.len() implies #[trigger] t[i] < 128 by {
            if i < p.len() - dp {
                assert(t[i] == p[i]);
            } else if i > p.len() - dp {
                assert(t[i] == p[i - 1]);
            }
        }
    }
}

/// A displayed value's text is short ASCII.
proof fn lemma_left_text(left: int)
    requires
        i64::MIN < left <= i64::MAX,
    ensures
        1 <= left_text(left).len() <= 21,
        ascii(left_text(left)),
{
    let a = if left < 0 {
        -left
    } else {
        left
    };
    let frac = a % 1_000_000;
    let whole = a / 1_000_000;
    let six = zero_pad(dec(frac as nat), 6);
    assert(pow10(13) == 10_000_000_000_000) by {
        reveal_with_fuel(pow10, 14);
    }
    assert(pow10(6) == 1_000_000) by {
        reveal_with_fuel(pow10, 7);
    }
    lemma_dec_len_pow(whole as nat, 13);
    lemma_dec_len_pow(frac as nat, 6);
    lemma_dec_digits(whole as nat);
    lemma_dec_digits(frac as nat);
    lemma_zero_pad(dec(frac as nat), 6);
    lemma_zeros_trimmed_len(six);
    let sign = if left < 0 {
        seq![45u8]
    } else {
        Seq::<u8>::empty()
    };
    let w = dec(whole as nat);
    let tail = if frac > 0 {
        seq![46u8] + six.take(zeros_trimmed_len(six))
    } else {
        Seq::<u8>::empty()
    };
    let t = sign + w + tail;
    assert(t == left_text(left));
    assert forall|i: int| 0 <= i < t.len() implies #[trigger] t[i] < 128 by {
        if i < sign.len() {
            assert(t[i] == sign[i]);
        } else if i < sign.len() + w.len() {
            assert(t[i] == w[i - sign.len()]);
        } else {
            let j = i - sign.len() - w.len();
            assert(t[i] == tail[j]);
            if j > 0 {
                assert(tail[j] == six[j - 1]);
            }
        }
    }
}

/// Zeros in front of `digits` up to `n` bytes.
fn pad_zeros(digits: &Vec<u8>, n: usize) -> (r: Vec<u8>)
    ensures
        r@ == zero_pad(digits@, n as nat),
{
    let mut p: Vec<u8> = Vec::new();
    let mut z = digits.len();
    while z < n
        invariant
            digits@.len() <= z <= n || (z == digits@.len() && n < z),
            p@ == Seq::new((z - digits@.len()) as nat, |_i: int| 48u8),
        decreases n - z,
    {
        p.push(48u8);
        z = z + 1;
        proof {
            assert(p@ =~= Seq::new((z - digits@.len()) as nat, |_i: int| 48u8));
        }
    }
    write_str(&mut p, digits.as_slice());
    proof {
        if digits@.len() >= n {
            assert(p@ =~= digits@);
        }
    }
    p
}

/// The text of the number being typed (see `input_text`).
fn input_display(right: i64, has_decimal: bool, dp: u32) -> (r: Vec<u8>)
    requires
        right >= 0,
        dp <= 6,
    ensures
        r@ == input_text(right as int, has_decimal, dp as nat),
{
    let mut digits: Vec<u8> = Vec::new();
    write_u64(&mut digits, right as u64);
    proof {
        assert(digits@ =~= dec(right as nat));
    }
    if !has_decimal {
        return digits;
    }
    let p = pad_zeros(&digits, dp as usize + 1);
    proof {
        lemma_dec_digits(right as nat);
        lemma_zero_pad(digits@, (dp + 1) as nat);
    }
    let cut = p.len() - dp as usize;
    let mut out: Vec<u8> = Vec::new();
    write_str(&mut out, slice_subrange(p.as_slice(), 0, cut));
    out.push(46u8);
    write_str(&mut out, slice_subrange(p.as_slice(), cut, p.len()));
    proof {
        assert(out@ =~= input_text(right as int, has_decimal, dp as nat));
    }
    out
}

/// The text of a fixed-point value (see `left_text`).
fn value_display(left: i64) -> (r: Vec<u8>)
    requires
        left != i64::MIN,
    ensures
        r@ == left_text(left as int),
{
    let neg = left < 0;
    let a: u64 = if neg {
        (-left) as u64
    } else {
        left as u64
    };
    let mut out: Vec<u8> = Vec::new();
    if neg {
        out.push(45u8);
    }
    let ghost sign = out@;
    write_u64(&mut out, a / 1_000_000);
    let frac = a % 1_000_000;
    if frac > 0 {
        out.push(46u8);
        let mut digits: Vec<u8> = Vec::new();
        write_u64(&mut digits, frac);
        proof {
            assert(digits@ =~= dec(frac as nat));
        }
        let six = pad_zeros(&digits, 6);
        let mut k = six.len();
        proof {
            lemma_zeros_trimmed_len(six@);
            assert(six@.take(k as int) =~= six@);
        }
        while k > 0 && six[k - 1] == 48u8
            invariant
                k <= six@.len(),
                zeros_trimmed_len(six@) == zeros_trimmed_len(six@.take(k as int)),
            decreases k,
        {
            proof {
                assert(six@.take(k as int).drop_last() =~= six@.take(k - 1));
            }
            k = k - 1;
        }
        proof {
            assert(six@.take(k as int).take(k as int) =~= six@.take(k as int));
        }
        write_str(&mut out, slice_subrange(six.as_slice(), 0, k));
    }
    proof {
        assert(out@ =~= left_text(left as int));
    }
    out
}

/// The pending arithmetic operation.
#[derive(Debug, Copy, Clone, PartialEq, Eq, Structural)]
pub enum Op {
    Nothing,
    Add,
    Sub,
    Mul,
    Div,
}

/// A four-function calculator window. The display shows either the number
/// being typed or the last result; numbers are fixed point with six decimal
/// places.
pub struct Calculator {
    visible: bool,
    win_x: usize,
    win_y: usize,
    win_w: usize,
    win_h: usize,
    display: Vec<u8>,
    left: i64,
    right: i64,
    current_op: Op,
    has_op: bool,
    last_was_eq: bool,
    has_decimal: bool,
    decimal_places: u32,
}

/// A calculator's state as plain values: the window, the display text, the
/// accumulator `left` (scaled), the number being typed `right` (its digits,
/// unscaled, `decimal_places` of them after the point), the pending
/// operation, and whether `=` was the last key.
pub struct CalcView {
    pub visible: bool,
    pub win_x: usize,
    pub win_y: usize,
    pub win_w: usize,
    pub win_h: usize,
    pub display: Seq<u8>,
    pub left: i64,
    pub right: i64,
    pub op: Op,
    pub has_op: bool,
    pub last_was_eq: bool,
    pub has_decimal: bool,
    pub decimal_places: u32,
}

impl View for Calculator {
    type V = CalcView;

    closed spec fn view(&self) -> CalcView {
        CalcView {
            visible: self.visible,
            win_x: self.win_x,
            win_y: self.win_y,
            win_w: self.win_w,
            win_h: self.win_h,
            display: self.display@,
            left: self.left,
            right: self.right,
            op: self.current_op,
            has_op: self.has_op,
            last_was_eq: self.last_was_eq,
            has_decimal: self.has_decimal,
            decimal_places: self.decimal_places,
        }
    }
}

/// The operation a key selects.
pub open spec fn op_of(key: u8) -> Op {
    if key == 43u8 {
        Op::Add
    } else if key == 45u8 {
        Op::Sub
    } else if key == 42u8 {
        Op::Mul
    } else if key == 47u8 {
        Op::Div
    } else {
        Op::Nothing
    }
}

/// The key a typed character stands for: Enter and `=` compute, backspace
/// deletes, `c` clears; other characters stand for themselves.
pub open spec fn char_key(ch: u8) -> u8 {
    if ch == 10u8 || ch == 61u8 {
        61u8
    } else if ch == 8u8 {
        60u8
    } else if ch == 99u8 || ch == 67u8 {
        67u8
    } else {
        ch
    }
}

/// The key on button `(row, col)` of the five by four keypad.
pub open spec fn grid_key(row: int, col: int) -> u8 {
    if row == 0 {
        if col == 0 { 67u8 } else if col == 1 { 60u8 } else if col == 2 { 37u8 } else { 47u8 }
    } else if row == 1 {
        if col == 0 { 55u8 } else if col == 1 { 56u8 } else if col == 2 { 57u8 } else { 42u8 }
    } else if row == 2 {
        if col == 0 { 52u8 } else if col == 1 { 53u8 } else if col == 2 { 54u8 } else { 45u8 }
    } else if row == 3 {
        if col == 0 { 49u8 } else if col == 1 { 50u8 } else if col == 2 { 51u8 } else { 43u8 }
    } else {
        if col == 0 { 46u8 } else if col == 1 { 48u8 } else if col == 2 { 61u8 } else { 43u8 }
    }
}

/// Width of a keypad button.
pub open spec fn button_w() -> int {
    (WIN_WIDTH - 2 * PAD - 3 * BUTTON_GAP) / BUTTON_COLS as int
}

/// Height of a keypad button.
pub open spec fn button_h() -> int {
    (WIN_HEIGHT - HEADER_H - 3 * PAD - DISPLAY_H - 4 * BUTTON_GAP) / BUTTON_ROWS as int
}

/// The key under the point `(x, y)` for a calculator window at `(wx, wy)`:
/// buttons sit on a grid below the display, each cell a button and the gap
/// after it.
pub open spec fn click_key(wx: int, wy: int, x: int, y: int) -> Option<u8> {
    let bx = wx + PAD;
    let by = wy + HEADER_H + PAD + DISPLAY_H + PAD;
    if x < bx || y < by {
        None
    } else {
        let col = (x - bx) / (button_w() + BUTTON_GAP);
        let row = (y - by) / (button_h() + BUTTON_GAP);
        if col >= BUTTON_COLS || row >= BUTTON_ROWS {
            None
        } else {
            Some(grid_key(row, col))
        }
    }
}

impl CalcView {
    /// The state the calculator keeps between keys.
    pub open spec fn wf(self) -> bool {
        &&& 0 <= self.right
        &&& self.decimal_places <= 6
        &&& 1 <= self.display.len() <= 21
        &&& ascii(self.display)
        &&& self.win_w == WIN_WIDTH
        &&& self.win_h == WIN_HEIGHT
    }

    /// Everything reset: display `0`, nothing pending.
    pub open spec fn cleared(self) -> CalcView {
        CalcView {
            display: seq![48u8],
            left: 0,
            right: 0,
            op: Op::Nothing,
            has_op: false,
            has_decimal: false,
            decimal_places: 0,
            last_was_eq: false,
            ..self
        }
    }

    /// Typing after `=` starts over.
    pub open spec fn fresh(self) -> CalcView {
        if self.last_was_eq {
            self.cleared()
        } else {
            self
        }
    }

    /// The display shows the number being typed.
    pub open spec fn show_input(self) -> CalcView {
        CalcView {
            display: input_text(self.right as int, self.has_decimal, self.decimal_places as nat),
            ..self
        }
    }

    /// The number being typed after digit `d`; at most six digits follow the
    /// point, and a lone `0` on the display is replaced.
    pub open spec fn digit(self, d: int) -> CalcView {
        let v = self.fresh();
        if v.has_decimal {
            if v.decimal_places < 6 {
                CalcView {
                    right: (v.right * 10 + d) as i64,
                    decimal_places: (v.decimal_places + 1) as u32,
                    ..v
                }.show_input()
            } else {
                v
            }
        } else if v.right == 0 && v.display == seq![48u8] {
            CalcView { right: d as i64, ..v }.show_input()
        } else {
            CalcView { right: (v.right * 10 + d) as i64, ..v }.show_input()
        }
    }

    /// Digit `d` fits in the number being typed.
    pub open spec fn digit_ok(self, d: int) -> bool {
        let v = self.fresh();
        if v.has_decimal {
            v.decimal_places >= 6 || v.right * 10 + d <= i64::MAX
        } else {
            (v.right == 0 && v.display == seq![48u8]) || v.right * 10 + d <= i64::MAX
        }
    }

    /// A decimal point, once per number.
    pub open spec fn point(self) -> CalcView {
        let v = self.fresh();
        if !v.has_decimal {
            CalcView { has_decimal: true, decimal_places: 0, ..v }.show_input()
        } else {
            v
        }
    }

    /// The number being typed, scaled to fixed point.
    pub open spec fn scaled_right(self) -> int {
        if !self.has_decimal {
            self.right * SCALE
        } else {
            self.right * pow10((6 - self.decimal_places) as nat)
        }
    }

    /// The accumulator after the pending operation with the typed number:
    /// sums and differences saturate, products and quotients are rescaled
    /// and truncated to 64 bits, a division by zero leaves it as it was.
    pub open spec fn applied_left(self) -> int {
        let r = self.scaled_right();
        match self.op {
            Op::Add => sat64(self.left + r),
            Op::Sub => sat64(self.left - r),
            Op::Mul => (tdiv(self.left * r, SCALE as int) as i64) as int,
            Op::Div => if r != 0 {
                (tdiv(self.left * SCALE, r) as i64) as int
            } else {
                self.left as int
            },
            Op::Nothing => r,
        }
    }

    /// The pending operation applied; the display shows the result.
    pub open spec fn applied(self) -> CalcView {
        let l = self.applied_left() as i64;
        CalcView { left: l, display: left_text(l as int), ..self }
    }

    /// The pending operation can be applied: the typed number scales into
    /// 64 bits and the result can be shown.
    pub open spec fn apply_ok(self) -> bool {
        &&& self.scaled_right() <= i64::MAX
        &&& self.applied_left() != i64::MIN
    }

    /// An operator key: the first one takes the typed number as the
    /// accumulator, later ones apply the pending operation first.
    pub open spec fn operator(self, key: u8) -> CalcView {
        let v = if !self.has_op {
            CalcView { left: self.scaled_right() as i64, ..self }
        } else {
            self.applied()
        };
        CalcView {
            op: op_of(key),
            has_op: true,
            right: 0,
            has_decimal: false,
            decimal_places: 0,
            last_was_eq: false,
            ..v
        }
    }

    /// `=`: applies the pending operation, if any.
    pub open spec fn equals(self) -> CalcView {
        if self.has_op {
            CalcView {
                has_op: false,
                op: Op::Nothing,
                last_was_eq: true,
                right: 0,
                has_decimal: false,
                ..self.applied()
            }
        } else {
            self
        }
    }

    /// `%`: the accumulator times 10000 (a hundredth, in fixed point).
    pub open spec fn percent(self) -> CalcView {
        let l = tdiv(self.left * SCALE, 100) as i64;
        CalcView { left: l, display: left_text(l as int), ..self }
    }

    /// Backspace: drops the last typed digit, or the point when no digit
    /// follows it; after `=` it clears.
    pub open spec fn backspace(self) -> CalcView {
        if self.last_was_eq {
            self.cleared()
        } else if self.has_decimal {
            if self.decimal_places > 0 {
                CalcView {
                    right: (self.right / 10) as i64,
                    decimal_places: (self.decimal_places - 1) as u32,
                    ..self
                }.show_input()
            } else {
                CalcView { has_decimal: false, ..self }.show_input()
            }
        } else {
            CalcView { right: (self.right / 10) as i64, ..self }.show_input()
        }
    }

    /// The state after `key`: digits, `.`, `C`, `<` (backspace), the four
    /// operators, `=` and `%`; any other key changes nothing.
    pub open spec fn process(self, key: u8) -> CalcView {
        if 48 <= key <= 57 {
            self.digit(key - 48)
        } else if key == 46u8 {
            self.point()
        } else if key == 67u8 {
            self.cleared()
        } else if key == 60u8 {
            self.backspace()
        } else if key == 43u8 || key == 45u8 || key == 42u8 || key == 47u8 {
            self.operator(key)
        } else if key == 61u8 {
            self.equals()
        } else if key == 37u8 {
            self.percent()
        } else {
            self
        }
    }

    /// `key` can be processed without overflowing 64-bit arithmetic.
    pub open spec fn key_ok(self, key: u8) -> bool {
        if 48 <= key <= 57 {
            self.digit_ok(key - 48)
        } else if key == 43u8 || key == 45u8 || key == 42u8 || key == 47u8 {
            &&& self.scaled_right() <= i64::MAX
            &&& self.has_op ==> self.apply_ok()
        } else if key == 61u8 {
            self.has_op ==> self.apply_ok()
        } else if key == 37u8 {
            i64::MIN <= self.left * SCALE <= i64::MAX
        } else {
            true
        }
    }
}


/// `a + b`, saturating at the bounds of `i64`.
fn sat_add(a: i64, b: i64) -> (r: i64)
    ensures
        r == sat64(a + b),
{
    let s: i128 = a as i128 + b as i128;
    if s > i64::MAX as i128 {
        i64::MAX
    } else if s < i64::MIN as i128 {
        i64::MIN
    } else {
        s as i64
    }
}

/// `a - b`, saturating at the bounds of `i64`.
fn sat_sub(a: i64, b: i64) -> (r: i64)
    ensures
        r == sat64(a - b),
{
    let s: i128 = a as i128 - b as i128;
    if s > i64::MAX as i128 {
        i64::MAX
    } else if s < i64::MIN as i128 {
        i64::MIN
    } else {
        s as i64
    }
}

/// Top-left corner of a `w * h` window centred on the screen.
fn centered_rect(fb: &Framebuffer, w: usize, h: usize) -> (r: (usize, usize))
    requires
        w <= fb.width,
        h <= fb.height,
    ensures
        r == (((fb.width - w) / 2) as usize, ((fb.height - h) / 2) as usize),
{
    ((fb.width - w) / 2, (fb.height - h) / 2)
}

impl Calculator {
    /// A hidden calculator centred on the screen, showing `0`.
    pub fn new(fb: &Framebuffer) -> (c: Calculator)
        requires
            fb.width >= WIN_WIDTH,
            fb.height >= WIN_HEIGHT,
        ensures
            c@.wf(),
            c@ == (CalcView {
                visible: false,
                win_x: ((fb.width - WIN_WIDTH) / 2) as usize,
                win_y: ((fb.height - WIN_HEIGHT) / 2) as usize,
                win_w: WIN_WIDTH,
                win_h: WIN_HEIGHT,
                display: seq![48u8],
                left: 0,
                right: 0,
                op: Op::Nothing,
                has_op: false,
                last_was_eq: false,
                has_decimal: false,
                decimal_places: 0,
            }),
    {
        let (x, y) = centered_rect(fb, WIN_WIDTH, WIN_HEIGHT);
        let mut display: Vec<u8> = Vec::new();
        display.push(48u8);
        let c = Calculator {
            visible: false,
            win_x: x,
            win_y: y,
            win_w: WIN_WIDTH,
            win_h: WIN_HEIGHT,
            display,
            left: 0,
            right: 0,
            current_op: Op::Nothing,
            has_op: false,
            last_was_eq: false,
            has_decimal: false,
            decimal_places: 0,
        };
        proof {
            assert(c@.display =~= seq![48u8]);
        }
        c
    }

    /// Whether the window is shown.
    pub fn is_visible(&self) -> (r: bool)
        ensures
            r == self@.visible,
    {
        self.visible
    }

    /// Shows the window, cleared.
    pub fn show(&mut self)
        requires
            old(self)@.wf(),
        ensures
            final(self)@ == (CalcView { visible: true, ..old(self)@ }).cleared(),
            final(self)@.wf(),
    {
        self.visible = true;
        self.clear();
    }

    /// Hides the window.
    pub fn hide_window(&mut self)
        ensures
            final(self)@ == (CalcView { visible: false, ..old(self)@ }),
    {
        self.visible = false;
    }

    /// The text on the display.
    pub fn display_text(&self) -> (r: &[u8])
        ensures
            r@ == self@.display,
    {
        self.display.as_slice()
    }

    /// The key under the point `(x, y)` (see `click_key`).
    pub fn key_at(&self, fb: &Framebuffer, x: usize, y: usize) -> (r: Option<u8>)
        requires
            self@.wf(),
            self@.win_x + PAD <= usize::MAX,
            self@.win_y + HEADER_H + PAD + DISPLAY_H + PAD <= usize::MAX,
        ensures
            r == click_key(self@.win_x as int, self@.win_y as int, x as int, y as int),
    {
        let (wx, wy, ww, _wh) = self.rect(fb);
        let bx_start = wx + PAD;
        let by_start = wy + HEADER_H + PAD + DISPLAY_H + PAD;
        let bw = (ww - 2 * PAD - 3 * BUTTON_GAP) / BUTTON_COLS;
        let bh = (WIN_HEIGHT - HEADER_H - 3 * PAD - DISPLAY_H - 4 * BUTTON_GAP) / BUTTON_ROWS;
        if x < bx_start || y < by_start {
            return None;
        }
        let col = (x - bx_start) / (bw + BUTTON_GAP);
        let row = (y - by_start) / (bh + BUTTON_GAP);
        if col >= BUTTON_COLS || row >= BUTTON_ROWS {
            return None;
        }
        let key = match (row, col) {
            (0, 0) => 67u8,
            (0, 1) => 60u8,
            (0, 2) => 37u8,
            (0, 3) => 47u8,
            (1, 0) => 55u8,
            (1, 1) => 56u8,
            (1, 2) => 57u8,
            (1, 3) => 42u8,
            (2, 0) => 52u8,
            (2, 1) => 53u8,
            (2, 2) => 54u8,
            (2, 3) => 45u8,
            (3, 0) => 49u8,
            (3, 1) => 50u8,
            (3, 2) => 51u8,
            (3, 3) => 43u8,
            (4, 0) => 46u8,
            (4, 1) => 48u8,
            (4, 2) => 61u8,
            _ => 43u8,
        };
        Some(key)
    }

    /// Presses the button under the point `(x, y)`, if any, while shown.
    pub fn handle_click(&mut self, fb: &Framebuffer, x: usize, y: usize)
        requires
            old(self)@.wf(),
            old(self)@.visible ==> old(self)@.win_x + PAD <= usize::MAX,
            old(self)@.visible ==> old(self)@.win_y + HEADER_H + PAD + DISPLAY_H + PAD <= usize::MAX,
            old(self)@.visible ==> (click_key(
                old(self)@.win_x as int,
                old(self)@.win_y as int,
                x as int,
                y as int,
            ) matches Some(k) ==> old(self)@.key_ok(k)),
        ensures
            final(self)@.wf(),
            final(self)@ == if !old(self)@.visible {
                old(self)@
            } else {
                match click_key(old(self)@.win_x as int, old(self)@.win_y as int, x as int, y as int) {
                    Some(k) => old(self)@.process(k),
                    None => old(self)@,
                }
            },
    {
        if !self.visible {
            return;
        }
        match self.key_at(fb, x, y) {
            Some(key) => self.process_key(key),
            None => {},
        }
    }

    /// Types the character `ch` (see `char_key`) while shown.
    pub fn handle_char(&mut self, fb: &Framebuffer, ch: u8)
        requires
            old(self)@.wf(),
            old(self)@.visible ==> old(self)@.key_ok(char_key(ch)),
        ensures
            final(self)@.wf(),
            final(self)@ == if !old(self)@.visible {
                old(self)@
            } else {
                old(self)@.process(char_key(ch))
            },
    {
        if !self.visible {
            return;
        }
        let key = match ch {
            10u8 | 61u8 => 61u8,
            8u8 => 60u8,
            99u8 | 67u8 => 67u8,
            _ => ch,
        };
        self.process_key(key);
    }

    /// Whether `key` can be processed without overflow (see `key_ok`).
    pub fn accepts_key(&self, key: u8) -> (r: bool)
        requires
            self@.wf(),
        ensures
            r == self@.key_ok(key),
    {
        if key >= 48 && key <= 57 {
            let d = (key - 48) as i128;
            let (right, has_decimal, dp, shows_zero) = if self.last_was_eq {
                (0i64, false, 0u32, true)
            } else {
                (self.right, self.has_decimal, self.decimal_places, self.display.len() == 1 && self.display[0] == 48u8)
            };
            proof {
                if self.display.len() == 1 && self.display@[0] == 48u8 {
                    assert(self.display@ =~= seq![48u8]);
                }
                assert(shows_zero == (self@.fresh().display == seq![48u8]));
            }
            if has_decimal {
                dp >= 6 || right as i128 * 10 + d <= i64::MAX as i128
            } else {
                (right == 0 && shows_zero) || right as i128 * 10 + d <= i64::MAX as i128
            }
        } else if key == 43u8 || key == 45u8 || key == 42u8 || key == 47u8 {
            let wide = self.scaled_wide();
            if wide > i64::MAX as i128 {
                return false;
            }
            if !self.has_op {
                return true;
            }
            self.pending_result(wide as i64) != i64::MIN
        } else if key == 61u8 {
            if !self.has_op {
                return true;
            }
            let wide = self.scaled_wide();
            if wide > i64::MAX as i128 {
                return false;
            }
            self.pending_result(wide as i64) != i64::MIN
        } else if key == 37u8 {
            let a = self.left as i128;
            assert(-0x8000_0000_0000_0000 * 1_000_000 <= a * 1_000_000 <= 0x8000_0000_0000_0000 * 1_000_000)
                by (nonlinear_arith)
                requires
                    -0x8000_0000_0000_0000 <= a <= 0x8000_0000_0000_0000,
            ;
            let p = a * SCALE as i128;
            i64::MIN as i128 <= p && p <= i64::MAX as i128
        } else {
            true
        }
    }

    fn process_key(&mut self, key: u8)
        requires
            old(self)@.wf(),
            old(self)@.key_ok(key),
        ensures
            final(self)@.wf(),
            final(self)@ == old(self)@.process(key),
    {
        match key {
            48u8..=57u8 => self.input_digit(key),
            46u8 => self.input_decimal(),
            67u8 => self.clear(),
            60u8 => self.backspace(),
            43u8 | 45u8 | 42u8 | 47u8 => self.set_operator(key),
            61u8 => self.calculate(),
            37u8 => self.percent(),
            _ => {},
        }
    }

    fn input_digit(&mut self, digit: u8)
        requires
            old(self)@.wf(),
            48 <= digit <= 57,
            old(self)@.digit_ok(digit - 48),
        ensures
            final(self)@.wf(),
            final(self)@ == old(self)@.digit(digit - 48),
    {
        if self.last_was_eq {
            self.clear();
        }
        let d = (digit - 48) as i64;
        if self.has_decimal {
            if self.decimal_places < 6 {
                self.right = self.right * 10 + d;
                self.decimal_places = self.decimal_places + 1;
            } else {
                return;
            }
        } else {
            let shows_zero = self.display.len() == 1 && self.display[0] == 48u8;
            proof {
                if shows_zero {
                    assert(self.display@ =~= seq![48u8]);
                }
                assert(shows_zero == (self.display@ == seq![48u8]));
            }
            if self.right == 0 && shows_zero {
                self.right = d;
            } else {
                self.right = self.right * 10 + d;
            }
        }
        self.update_display_from_input();
    }

    fn update_display_from_input(&mut self)
        requires
            old(self)@.wf() || (0 <= old(self)@.right && old(self)@.decimal_places <= 6
                && old(self)@.win_w == WIN_WIDTH && old(self)@.win_h == WIN_HEIGHT),
        ensures
            final(self)@ == old(self)@.show_input(),
            final(self)@.wf(),
    {
        self.display = input_display(self.right, self.has_decimal, self.decimal_places);
        proof {
            lemma_input_text(self.right as int, self.has_decimal, self.decimal_places as nat);
        }
    }

    fn input_decimal(&mut self)
        requires
            old(self)@.wf(),
        ensures
            final(self)@.wf(),
            final(self)@ == old(self)@.point(),
    {
        if self.last_was_eq {
            self.clear();
        }
        if !self.has_decimal {
            self.has_decimal = true;
            self.decimal_places = 0;
            self.update_display_from_input();
        }
    }

    /// The typed number scaled to fixed point, computed wide enough never to
    /// overflow.
    fn scaled_wide(&self) -> (r: i128)
        requires
            self@.wf(),
        ensures
            r == self@.scaled_right(),
            0 <= r,
    {
        let mut val = self.right as i128;
        if !self.has_decimal {
            assert(0 <= val * 1_000_000 <= i64::MAX * 1_000_000) by (nonlinear_arith)
                requires
                    0 <= val <= i64::MAX,
            ;
            return val * SCALE as i128;
        }
        let n = 6 - self.decimal_places;
        let mut k: u32 = 0;
        proof {
            assert(pow10(6) == 1_000_000) by {
                reveal_with_fuel(pow10, 7);
            }
        }
        while k < n
            invariant
                k <= n <= 6,
                n == 6 - self.decimal_places,
                0 <= self.right,
                val == self.right * pow10(k as nat),
                0 <= val,
                pow10(6) == 1_000_000,
            decreases n - k,
        {
            proof {
                lemma_pow10_mono((k + 1) as nat, 6);
                assert(pow10((k + 1) as nat) == 10 * pow10(k as nat));
                let p = pow10(k as nat);
                assert(self.right * (10 * p) == (self.right * p) * 10) by (nonlinear_arith);
                assert(self.right * (10 * p) <= i64::MAX * 1_000_000) by (nonlinear_arith)
                    requires
                        0 <= self.right <= i64::MAX,
                        0 <= 10 * p <= 1_000_000,
                ;
                assert(0 <= self.right * (10 * p)) by (nonlinear_arith)
                    requires
                        0 <= self.right,
                        0 <= 10 * p,
                ;
            }
            val = val * 10;
            k = k + 1;
        }
        val
    }

    fn get_scaled_right(&self) -> (r: i64)
        requires
            self@.wf(),
            self@.scaled_right() <= i64::MAX,
        ensures
            r == self@.scaled_right(),
            0 <= r,
    {
        self.scaled_wide() as i64
    }

    /// The accumulator after the pending operation with `r_val`, the typed
    /// number scaled.
    fn pending_result(&self, r_val: i64) -> (l: i64)
        requires
            self@.wf(),
            r_val == self@.scaled_right(),
            0 <= r_val,
        ensures
            l == self@.applied_left(),
    {
        match self.current_op {
            Op::Add => sat_add(self.left, r_val),
            Op::Sub => sat_sub(self.left, r_val),
            Op::Mul => {
                let a = self.left as i128;
                let b = r_val as i128;
                assert(-0x8000_0000_0000_0000 * 0x8000_0000_0000_0000 <= a * b <= 0x8000_0000_0000_0000
                    * 0x8000_0000_0000_0000) by (nonlinear_arith)
                    requires
                        -0x8000_0000_0000_0000 <= a <= 0x8000_0000_0000_0000,
                        0 <= b <= 0x8000_0000_0000_0000,
                ;
                let res = (a * b) / (SCALE as i128);
                res as i64
            },
            Op::Div => {
                if r_val != 0 {
                    let a = self.left as i128;
                    assert(-0x8000_0000_0000_0000 * 1_000_000 <= a * 1_000_000 <= 0x8000_0000_0000_0000
                        * 1_000_000) by (nonlinear_arith)
                        requires
                            -0x8000_0000_0000_0000 <= a <= 0x8000_0000_0000_0000,
                    ;
                    let res = (a * (SCALE as i128)) / (r_val as i128);
                    res as i64
                } else {
                    self.left
                }
            },
            Op::Nothing => r_val,
        }
    }

    fn set_operator(&mut self, op_char: u8)
        requires
            old(self)@.wf(),
            op_char == 43u8 || op_char == 45u8 || op_char == 42u8 || op_char == 47u8,
            old(self)@.scaled_right() <= i64::MAX,
            old(self)@.has_op ==> old(self)@.apply_ok(),
        ensures
            final(self)@.wf(),
            final(self)@ == old(self)@.operator(op_char),
    {
        if !self.has_op {
            self.left = self.get_scaled_right();
        } else {
            self.apply_pending_operation();
        }
        self.current_op = match op_char {
            43u8 => Op::Add,
            45u8 => Op::Sub,
            42u8 => Op::Mul,
            47u8 => Op::Div,
            _ => Op::Nothing,
        };
        self.has_op = true;
        self.right = 0;
        self.has_decimal = false;
        self.decimal_places = 0;
        self.last_was_eq = false;
    }

    fn calculate(&mut self)
        requires
            old(self)@.wf(),
            old(self)@.has_op ==> old(self)@.apply_ok(),
        ensures
            final(self)@.wf(),
            final(self)@ == old(self)@.equals(),
    {
        if self.has_op {
            self.apply_pending_operation();
            self.has_op = false;
            self.current_op = Op::Nothing;
            self.last_was_eq = true;
            self.right = 0;
            self.has_decimal = false;
        }
    }

    fn apply_pending_operation(&mut self)
        requires
            old(self)@.wf(),
            old(self)@.apply_ok(),
        ensures
            final(self)@.wf(),
            final(self)@ == old(self)@.applied(),
    {
        let r_val = self.get_scaled_right();
        self.left = self.pending_result(r_val);
        self.format_display_from_left();
    }

    fn format_display_from_left(&mut self)
        requires
            old(self)@.left != i64::MIN,
        ensures
            final(self)@ == (CalcView { display: left_text(old(self)@.left as int), ..old(self)@ }),
            1 <= final(self)@.display.len() <= 21,
            ascii(final(self)@.display),
    {
        self.display = value_display(self.left);
        proof {
            lemma_left_text(self.left as int);
        }
    }

    fn clear(&mut self)
        ensures
            final(self)@ == old(self)@.cleared(),
    {
        let mut display: Vec<u8> = Vec::new();
        display.push(48u8);
        self.display = display;
        self.left = 0;
        self.right = 0;
        self.current_op = Op::Nothing;
        self.has_op = false;
        self.has_decimal = false;
        self.decimal_places = 0;
        self.last_was_eq = false;
        proof {
            assert(self.display@ =~= seq![48u8]);
        }
    }

    fn backspace(&mut self)
        requires
            old(self)@.wf(),
        ensures
            final(self)@.wf(),
            final(self)@ == old(self)@.backspace(),
    {
        if self.last_was_eq {
            self.clear();
            return;
        }
        if self.has_decimal {
            if self.decimal_places > 0 {
                self.right = self.right / 10;
                self.decimal_places = self.decimal_places - 1;
            } else {
                self.has_decimal = false;
            }
        } else {
            self.right = self.right / 10;
        }
        self.update_display_from_input();
        if self.display.len() == 0 {
            self.display.push(48u8);
        }
    }

    fn percent(&mut self)
        requires
            old(self)@.wf(),
            i64::MIN <= old(self)@.left * SCALE <= i64::MAX,
        ensures
            final(self)@.wf(),
            final(self)@ == old(self)@.percent(),
    {
        self.left = (self.left * SCALE) / 100;
        self.format_display_from_left();
    }

    /// The window rectangle.
    pub fn rect(&self, fb: &Framebuffer) -> (r: (usize, usize, usize, usize))
        ensures
            r == (self@.win_x, self@.win_y, self@.win_w, self@.win_h),
    {
        (self.win_x, self.win_y, self.win_w, self.win_h)
    }

    /// Moves the window.
    pub fn set_pos(&mut self, x: usize, y: usize)
        ensures
            final(self)@ == (CalcView { win_x: x, win_y: y, ..old(self)@ }),
    {
        self.win_x = x;
        self.win_y = y;
    }
}

impl CalcView {
    /// The window lies where the drawing code can reach.
    pub open spec fn drawable(self, fb: &Framebuffer) -> bool {
        &&& fb.width <= COORD_MAX
        &&& window_fits(self.win_x as int, self.win_y as int, self.win_w as int, self.win_h as int)
    }
}

/// The label of the button for `key`: the key itself, and `<-` for
/// backspace.
fn button_label(key: u8) -> (l: Vec<u8>)
    requires
        key < 128,
    ensures
        ascii(l@),
        1 <= l@.len() <= 2,
{
    let mut l: Vec<u8> = Vec::new();
    l.push(key);
    if key == 60u8 {
        l.push(45u8);
    }
    l
}

/// The calculator's title.
fn calculator_title() -> (b: &'static [u8])
    ensures
        ascii(b@),
        b@.len() == 10,
        forall|i: int| 0 <= i < b@.len() ==> b@[i] != 10,
        b@ == lit("Calculator"),
{
    proof {
        reveal_strlit("Calculator");
    }
    let b = crate::text::ascii_lit("Calculator");
    proof {
        assert forall|i: int| 0 <= i < b@.len() implies b@[i] != 10 by {
            assert(b@[i] == "Calculator"@[i] as u8);
        }
    }
    b
}

impl Calculator {
    /// Draws the window: frame, the display with its text right-aligned, and
    /// the keypad. Nothing is drawn while it is hidden. When the title fits
    /// on the screen, the title bar's accent stripe shows the accent colour.
    pub fn redraw(&self, fb: &mut Framebuffer, ui: &UiSettings)
        requires
            old(fb).wf(),
            self@.wf(),
            self@.visible ==> self@.drawable(old(fb)),
        ensures
            final(fb).wf(),
            final(fb).same_shape(old(fb)),
            !self@.visible ==> *final(fb) == *old(fb),
            self@.visible && self@.win_x + 110 < old(fb).width ==> painted(
                *final(fb),
                self@.win_x + 8,
                self@.win_y + 14,
                3,
                14,
                ui.accent,
            ),
            self@.visible && self@.win_x + 110 < old(fb).width ==> forall|qx: int, qy: int|
                0 <= qx < old(fb).width && 0 <= qy < old(fb).height && #[trigger] text_ink(
                    old(fb).width as int,
                    self@.win_x + 22,
                    self@.win_y + 13,
                    lit("Calculator"),
                    qx,
                    qy,
                ) ==> final(fb).pixel(qx, qy) == title_color(ui.dark),
            self@.visible ==> forall|qx: int, qy: int|
                0 <= qx < old(fb).width && 0 <= qy < old(fb).height && #[trigger] self@.display_ink(
                    old(fb).width as int,
                    qx,
                    qy,
                ) ==> final(fb).pixel(qx, qy) == display_color(ui.dark),
    {
        if !self.visible {
            return;
        }
        let (x, y, w, h) = self.rect(fb);
        let bg: u32 = if ui.dark { 0x00212121 } else { 0x00FFFFFF };
        let title = calculator_title();
        let chrome = draw_window(fb, ui, x, y, w, h, title);
        let ghost framed = *fb;
        let ghost top = y + HEADER_H;
        let ghost stripe = (x + 8, y + 14, 3int, 14int);
        proof {
            if x + 110 < fb.width {
                assert(title_fits(x as int, w as int, h as int, fb.width as int, title@));
            }
        }
        fill_rect(fb, chrome.content_x, chrome.content_y, chrome.content_w, chrome.content_h, bg);
        proof {
            let a = (chrome.content_x as int, chrome.content_y as int, chrome.content_w as int, chrome.content_h as int);
            lemma_fill_frame(framed, *fb, a.0, a.1, a.2, a.3, bg);
            lemma_above_rect(framed, framed, *fb, top, a);
        }

        let d_x = chrome.content_x + PAD;
        let d_y = chrome.content_y + PAD;
        let d_w = w - 2 * PAD;
        let ghost s1 = *fb;
        fill_rect(fb, d_x, d_y, d_w, DISPLAY_H, if ui.dark { 0x001A1A1A } else { 0x00F5F5F5 });
        proof {
            let a = (d_x as int, d_y as int, d_w as int, DISPLAY_H as int);
            lemma_fill_frame(s1, *fb, a.0, a.1, a.2, a.3, if ui.dark { 0x001A1A1Au32 } else { 0x00F5F5F5u32 });
            lemma_above_rect(framed, s1, *fb, top, a);
        }

        let mut writer = TextWriter::new(fb);
        writer.set_color(if ui.dark { 0x00F0F0F0 } else { 0x00111111 });
        let txt = self.display.as_slice();
        writer.set_pos(d_x + d_w - txt.len() * 8 - 8, d_y + (DISPLAY_H - 10) / 2);
        let ghost s2 = *fb;
        let ghost wy = writer.y as int;
        writer.write_bytes(fb, txt);
        proof {
            lemma_above_ink(framed, s2, *fb, top, writer.fg, wy, writer.y + 8);
        }
        let ghost disp = *fb;
        let ghost keys_top = (d_y + DISPLAY_H + PAD) as int;
        assert(kept_above(disp, disp, keys_top));

        let bw = (w - 2 * PAD - 3 * BUTTON_GAP) / BUTTON_COLS;
        let bh = (h - HEADER_H - 3 * PAD - DISPLAY_H - 4 * BUTTON_GAP) / BUTTON_ROWS;
        let button_bg: u32 = if ui.dark { 0x00333333 } else { 0x00E0E0E0 };
        let mut r: usize = 0;
        while r < BUTTON_ROWS
            invariant
                fb.wf(),
                fb.same_shape(old(fb)),
                fb.width <= COORD_MAX,
                writer.width == fb.width,
                d_x <= 2 * COORD_MAX,
                d_y <= 2 * COORD_MAX,
                bw == 68,
                bh == 55,
                framed.same_shape(old(fb)),
                d_y >= top,
                kept_above(framed, *fb, top),
                disp.same_shape(old(fb)),
                keys_top == d_y + DISPLAY_H + PAD,
                kept_above(disp, *fb, keys_top),
            decreases BUTTON_ROWS - r,
        {
            let mut c: usize = 0;
            while c < BUTTON_COLS
                invariant
                    fb.wf(),
                    fb.same_shape(old(fb)),
                    fb.width <= COORD_MAX,
                    writer.width == fb.width,
                    d_x <= 2 * COORD_MAX,
                    d_y <= 2 * COORD_MAX,
                    bw == 68,
                    bh == 55,
                    r < BUTTON_ROWS,
                    framed.same_shape(old(fb)),
                    d_y >= top,
                    kept_above(framed, *fb, top),
                    disp.same_shape(old(fb)),
                    keys_top == d_y + DISPLAY_H + PAD,
                    kept_above(disp, *fb, keys_top),
                decreases BUTTON_COLS - c,
            {
                assert(c * (bw + BUTTON_GAP) < 4 * 76) by (nonlinear_arith)
                    requires
                        c < 4,
                        bw == 68,
                ;
                assert(r * (bh + BUTTON_GAP) < 5 * 63) by (nonlinear_arith)
                    requires
                        r < 5,
                        bh == 55,
                ;
                let bx = d_x + c * (bw + BUTTON_GAP);
                let by = d_y + DISPLAY_H + PAD + r * (bh + BUTTON_GAP);
                let ghost s3 = *fb;
                fill_rect(fb, bx, by, bw, bh, button_bg);
                proof {
                    let a = (bx as int, by as int, bw as int, bh as int);
                    lemma_fill_frame(s3, *fb, a.0, a.1, a.2, a.3, button_bg);
                    lemma_above_rect(framed, s3, *fb, top, a);
                    lemma_above_rect(disp, s3, *fb, keys_top, a);
                }
                let key = match (r, c) {
                    (0, 0) => 67u8,
                    (0, 1) => 60u8,
                    (0, 2) => 37u8,
                    (0, 3) => 47u8,
                    (1, 0) => 55u8,
                    (1, 1) => 56u8,
                    (1, 2) => 57u8,
                    (1, 3) => 42u8,
                    (2, 0) => 52u8,
                    (2, 1) => 53u8,
                    (2, 2) => 54u8,
                    (2, 3) => 45u8,
                    (3, 0) => 49u8,
                    (3, 1) => 50u8,
                    (3, 2) => 51u8,
                    (3, 3) => 43u8,
                    (4, 0) => 46u8,
                    (4, 1) => 48u8,
                    (4, 2) => 61u8,
                    _ => 43u8,
                };
                let l = button_label(key);
                writer.set_pos(bx + (bw - l.len() * 8) / 2, by + (bh - 10) / 2);
                let ghost s4 = *fb;
                let ghost ly = writer.y as int;
                writer.write_bytes(fb, l.as_slice());
                proof {
                    lemma_above_ink(framed, s4, *fb, top, writer.fg, ly, writer.y + 8);
                    lemma_above_ink(disp, s4, *fb, keys_top, writer.fg, ly, writer.y + 8);
                }
                c = c + 1;
            }
            r = r + 1;
        }
        proof {
            let fw = old(fb).width as int;
            if x + 110 < old(fb).width {
                lemma_above_painted(framed, *fb, top, stripe, ui.accent);
                assert forall|qx: int, qy: int|
                    0 <= qx < old(fb).width && 0 <= qy < old(fb).height && #[trigger] text_ink(
                        fw,
                        x + 22,
                        y + 13,
                        lit("Calculator"),
                        qx,
                        qy,
                    ) implies fb.pixel(qx, qy) == title_color(ui.dark) by {
                    lemma_one_line_ink(fw, x + 22, y + 13, title@, qx, qy);
                    assert(framed.pixel(qx, qy) == title_color(ui.dark));
                }
            }
            assert forall|qx: int, qy: int|
                0 <= qx < old(fb).width && 0 <= qy < old(fb).height && #[trigger] self@.display_ink(fw, qx, qy)
                    implies fb.pixel(qx, qy) == display_color(ui.dark) by {
                let p = self@.display_pos();
                lemma_one_line_ink(fw, p.0, p.1, self@.display, qx, qy);
                assert(disp.pixel(qx, qy) == display_color(ui.dark));
            }
        }
    }
}

/// The colour of the text in the calculator's display.
pub open spec fn display_color(dark: bool) -> u32 {
    if dark {
        0x00F0F0F0
    } else {
        0x00111111
    }
}

impl CalcView {
    /// Where the display text starts: right-aligned in the display field
    /// under the title bar, and centred in its height.
    pub open spec fn display_pos(self) -> (int, int) {
        let d_x = self.win_x + 2 + PAD;
        let d_y = self.win_y + HEADER_H + 2 + PAD;
        let d_w = self.win_w - 2 * PAD;
        (d_x + d_w - 8 * self.display.len() - 8, d_y + (DISPLAY_H - 10) / 2)
    }

    /// Whether the display text, on a screen `fw` pixels wide, lights
    /// `(qx, qy)`, where it stays on one line.
    pub open spec fn display_ink(self, fw: int, qx: int, qy: int) -> bool {
        let p = self.display_pos();
        &&& one_line(fw, p.0, self.display)
        &&& text_ink(fw, p.0, p.1, self.display, qx, qy)
    }
}

/// Backspace undoes a digit: while the display shows the number being typed
/// (and fewer than six decimals are typed), typing a digit and then
/// backspace gives back the same state.
pub proof fn lemma_backspace_undoes_digit(v: CalcView, d: int)
    requires
        v.wf(),
        0 <= d <= 9,
        !v.last_was_eq,
        v.display == input_text(v.right as int, v.has_decimal, v.decimal_places as nat),
        v.has_decimal ==> v.decimal_places < 6,
        v.digit_ok(d),
    ensures
        v.digit(d).backspace() == v,
{
    let w = v.digit(d);
    if !v.has_decimal && v.right == 0 && v.display == seq![48u8] {
        assert(w.right == d);
        assert(w.right / 10 == 0);
    } else {
        assert(w.right == v.right * 10 + d);
        assert((v.right * 10 + d) / 10 == v.right);
    }
}

/// `C` always returns to a clear display: whatever the state, the key `C`
/// shows `0` with nothing pending.
pub proof fn lemma_clear_resets(v: CalcView)
    ensures
        v.process(67u8).display == seq![48u8],
        v.process(67u8).left == 0 && v.process(67u8).right == 0,
        !v.process(67u8).has_op && v.process(67u8).op == Op::Nothing,
        !v.process(67u8).has_decimal && !v.process(67u8).last_was_eq,
{
}

/// After `=`, a digit starts a new number: it acts as on a cleared
/// calculator.
pub proof fn lemma_digit_after_equals(v: CalcView, d: int)
    requires
        v.last_was_eq,
    ensures
        v.digit(d) == v.cleared().digit(d),
{
}


/// A decimal point right after `=` starts a new number: nothing is pending,
/// the accumulator is 0 and the display shows `0.`; a digit `d` typed next
/// shows `0.d`.
pub proof fn lemma_point_after_equals(v: CalcView, d: int)
    requires
        v.last_was_eq,
        0 <= d <= 9,
    ensures
        !v.point().last_was_eq,
        v.point().left == 0,
        !v.point().has_op && v.point().op == Op::Nothing,
        v.point().display == seq![48u8, 46u8],
        v.point().digit(d).display == seq![48u8, 46u8, (48 + d) as u8],
{
    let p = v.point();
    assert(dec(0) == seq![48u8]);
    assert(zero_pad(seq![48u8], 1) == seq![48u8]);
    assert(p.display =~= seq![48u8, 46u8]);
    let q = p.digit(d);
    assert(q.right == d);
    assert(dec(d as nat) == seq![(48 + d) as u8]);
    assert(zero_pad(seq![(48 + d) as u8], 2) =~= seq![48u8, (48 + d) as u8]);
    assert(q.display =~= seq![48u8, 46u8, (48 + d) as u8]);
}

} // verus!
