//! Reading of decimal number text as `f64::from_str` accepts it.
//!
//! The grammar is the standard one: an optional `+`/`-`, then either
//! `nan` / `inf` / `infinity` (ASCII case-insensitive) or digits with an
//! optional `.` fraction (at least one digit in all) and an optional
//! exponent `e`/`E`, optional sign, one or more digits. A finite value is
//! kept as its whole part (capped) and three facts about the binary64
//! number nearest to it, which is what parsing to `f64` gives: whether it
//! reaches the next half, the next whole number, or stays on the whole
//! part. Rounding and whole-number bounds are decided from those, so a text
//! within half a binary64 step of a boundary (such as
//! `59.4999999999999999999`) reads as the boundary, as an `f64` would.

use vstd::prelude::*;

use crate::text::{ascii_lower, chars_eq, to_lower};

verus! {

/// Cap on integer parts: every reader treats values at or above it alike.
pub const INT_CAP: u64 = 10000000000;

/// Cap on exponent magnitudes; far beyond any text length.
pub const EXP_CAP: u128 = 1180591620717411303424;

pub open spec fn is_digit(c: char) -> bool {
    '0' <= c && c <= '9'
}

pub open spec fn digit_of(c: char) -> nat {
    (c as nat - 48) as nat
}

/// Length of the run of ASCII digits at the start of `s`.
pub open spec fn digit_run(s: Seq<char>) -> nat
    decreases s.len(),
{
    if s.len() > 0 && is_digit(s[0]) {
        1 + digit_run(s.skip(1))
    } else {
        0
    }
}

/// Decimal value of a digit string.
pub open spec fn digits_value(ds: Seq<char>) -> nat
    decreases ds.len(),
{
    if ds.len() == 0 {
        0
    } else {
        digits_value(ds.drop_last()) * 10 + digit_of(ds.last())
    }
}

pub open spec fn pow10(k: nat) -> nat
    decreases k,
{
    if k == 0 {
        1
    } else {
        10 * pow10((k - 1) as nat)
    }
}

/// `2^n`.
pub open spec fn two_pow(n: nat) -> nat
    decreases n,
{
    if n == 0 {
        1
    } else {
        2 * two_pow((n - 1) as nat)
    }
}

/// `floor(log2(n))` for `n >= 1` (0 for 0).
pub open spec fn log2_floor(n: nat) -> nat
    decreases n,
{
    if n < 2 {
        0
    } else {
        1 + log2_floor(n / 2)
    }
}

/// What number text denotes: NaN, an infinity, or the exact decimal
/// `0.d1d2...dn * 10^point` (`digits` are the mantissa digits).
pub enum FloatText {
    NotANumber,
    Infinite { negative: bool },
    Finite { negative: bool, digits: Seq<char>, point: int },
}

/// The sign and the text after it.
pub open spec fn split_sign(s: Seq<char>) -> (bool, Seq<char>) {
    if s.len() > 0 && (s[0] == '+' || s[0] == '-') {
        (s[0] == '-', s.skip(1))
    } else {
        (false, s)
    }
}

/// The exponent suffix `[eE][+-]?digits+`, or `None` when malformed.
pub open spec fn exponent_of(r: Seq<char>) -> Option<int> {
    let (eneg, r4) = split_sign(r);
    let c = digit_run(r4);
    if c == 0 || c != r4.len() {
        None
    } else if eneg {
        Some(-(digits_value(r4) as int))
    } else {
        Some(digits_value(r4) as int)
    }
}

/// `f64::from_str` grammar, read exactly.
pub open spec fn float_text(s: Seq<char>) -> Option<FloatText> {
    let (neg, body) = split_sign(s);
    let lb = ascii_lower(body);
    if lb == seq!['n', 'a', 'n'] {
        Some(FloatText::NotANumber)
    } else if lb == seq!['i', 'n', 'f'] || lb == seq!['i', 'n', 'f', 'i', 'n', 'i', 't', 'y'] {
        Some(FloatText::Infinite { negative: neg })
    } else {
        let a = digit_run(body);
        let ip = body.take(a as int);
        let r1 = body.skip(a as int);
        let has_point = r1.len() > 0 && r1[0] == '.';
        let b = if has_point {
            digit_run(r1.skip(1))
        } else {
            0
        };
        let fp = if has_point {
            r1.skip(1).take(b as int)
        } else {
            seq![]
        };
        let r2 = if has_point {
            r1.skip(1).skip(b as int)
        } else {
            r1
        };
        if ip.len() + fp.len() == 0 {
            None
        } else if r2.len() == 0 {
            Some(FloatText::Finite { negative: neg, digits: ip + fp, point: ip.len() as int })
        } else if r2[0] == 'e' || r2[0] == 'E' {
            match exponent_of(r2.skip(1)) {
                Some(e) => Some(
                    FloatText::Finite { negative: neg, digits: ip + fp, point: ip.len() + e },
                ),
                None => None,
            }
        } else {
            None
        }
    }
}

/// Integer part of `0.D * 10^point`.
pub open spec fn int_value(ds: Seq<char>, point: int) -> nat {
    if point <= 0 {
        0
    } else if point <= ds.len() {
        digits_value(ds.take(point))
    } else {
        digits_value(ds) * pow10((point - ds.len()) as nat)
    }
}

/// The digits after the decimal point of `0.D * 10^point`, including the
/// zeros that a negative `point` puts before `D`.
pub open spec fn frac_seq(ds: Seq<char>, point: int) -> Seq<char> {
    if point >= ds.len() {
        seq![]
    } else if point >= 0 {
        ds.skip(point)
    } else {
        Seq::new((-point) as nat, |i: int| '0') + ds
    }
}

/// The fraction `f` of `0.D * 10^point` against `t / 2^s`: a value with the
/// sign of `f * 2^s - t` (it is that difference times `10^n`, `n` the
/// number of fraction digits).
pub open spec fn frac_vs(ds: Seq<char>, point: int, s: nat, t: nat) -> int {
    digits_value(frac_seq(ds, point)) * two_pow(s) - t * pow10(frac_seq(ds, point).len())
}

/// For a whole part `k >= 1`, half the spacing of binary64 numbers between
/// `2^log2(k)` and twice that is `2^-half_gap_shift(k)`.
pub open spec fn half_gap_shift(k: nat) -> nat {
    (53 - log2_floor(k)) as nat
}

/// The binary64 number nearest to `k + f` is at least `k + 1/2`: `f` is at
/// least `1/2` less half the binary64 spacing below `k + 1/2` (a tie goes
/// to `k + 1/2`, whose mantissa is even).
pub open spec fn binary_half_up(ds: Seq<char>, point: int, k: nat) -> bool {
    if k == 0 {
        frac_vs(ds, point, 55, (two_pow(54) - 1) as nat) >= 0
    } else {
        frac_vs(
            ds,
            point,
            half_gap_shift(k),
            (two_pow((half_gap_shift(k) - 1) as nat) - 1) as nat,
        ) >= 0
    }
}

/// The binary64 number nearest to `k + f` is `k + 1` or more: `f` is at
/// least `1` less half the binary64 spacing below `k + 1`.
pub open spec fn binary_next_up(ds: Seq<char>, point: int, k: nat) -> bool {
    if k == 0 {
        frac_vs(ds, point, 54, (two_pow(54) - 1) as nat) >= 0
    } else {
        frac_vs(ds, point, half_gap_shift(k), (two_pow(half_gap_shift(k)) - 1) as nat) >= 0
    }
}

/// For `k >= 1`, the binary64 number nearest to `k + f` is `k` itself: `f`
/// is at most half the binary64 spacing above `k`. False for `k == 0`.
pub open spec fn binary_stays(ds: Seq<char>, point: int, k: nat) -> bool {
    k >= 1 && frac_vs(ds, point, half_gap_shift(k), 1) <= 0
}

/// Fixed-size reading of a number text.
#[derive(Debug, Clone, Copy, PartialEq, Eq, Structural)]
pub enum Decimal {
    NotANumber,
    Infinite { negative: bool },
    /// `int_part` is the integer part capped at `INT_CAP`; below the cap,
    /// the flags place the binary64 number nearest to the value (see
    /// `binary_half_up`, `binary_next_up`, `binary_stays`).
    Finite {
        negative: bool,
        int_part: u64,
        rounds_up: bool,
        reaches_next: bool,
        stays_whole: bool,
    },
}

pub open spec fn min_nat(a: nat, b: nat) -> nat {
    if a < b {
        a
    } else {
        b
    }
}

pub open spec fn reading_of(t: FloatText) -> Decimal {
    match t {
        FloatText::NotANumber => Decimal::NotANumber,
        FloatText::Infinite { negative } => Decimal::Infinite { negative },
        FloatText::Finite { negative, digits, point } => {
            let k = min_nat(int_value(digits, point), INT_CAP as nat);
            Decimal::Finite {
                negative,
                int_part: k as u64,
                rounds_up: k < INT_CAP && binary_half_up(digits, point, k),
                reaches_next: k < INT_CAP && binary_next_up(digits, point, k),
                stays_whole: k < INT_CAP && binary_stays(digits, point, k),
            }
        },
    }
}

/// The reading of `s`, `None` when `f64::from_str` rejects it.
pub open spec fn decimal_of(s: Seq<char>) -> Option<Decimal> {
    match float_text(s) {
        Some(t) => Some(reading_of(t)),
        None => None,
    }
}

/// `f.round() as u32` for `f` the binary64 number read (round half away
/// from zero, then saturate: NaN and negatives give 0, too large gives
/// `u32::MAX`).
pub open spec fn round_to_u32(d: Decimal) -> u32 {
    match d {
        Decimal::NotANumber => 0,
        Decimal::Infinite { negative } => if negative {
            0
        } else {
            u32::MAX
        },
        Decimal::Finite { negative, int_part, rounds_up, .. } => {
            let r = int_part + if rounds_up {
                1nat
            } else {
                0nat
            };
            if negative {
                0
            } else if r > u32::MAX {
                u32::MAX
            } else {
                r as u32
            }
        },
    }
}

/// The binary64 number read is at least `lo` (a whole number from 1 up to
/// `INT_CAP`).
pub open spec fn at_least(d: Decimal, lo: nat) -> bool {
    match d {
        Decimal::NotANumber => false,
        Decimal::Infinite { negative } => !negative,
        Decimal::Finite { negative, int_part, reaches_next, .. } => !negative && (int_part >= lo
            || (int_part + 1 == lo && reaches_next)),
    }
}

/// The binary64 number read is at most `hi` (a whole number from 1 up to
/// below `INT_CAP`).
pub open spec fn at_most(d: Decimal, hi: nat) -> bool {
    match d {
        Decimal::NotANumber => false,
        Decimal::Infinite { negative } => negative,
        Decimal::Finite { negative, int_part, stays_whole, .. } => negative || int_part < hi || (
        int_part == hi && stays_whole),
    }
}

pub proof fn lemma_digit_run_bound(s: Seq<char>)
    ensures
        digit_run(s) <= s.len(),
        forall|i: int| 0 <= i < digit_run(s) ==> is_digit(#[trigger] s[i]),
        digit_run(s) < s.len() ==> !is_digit(s[digit_run(s) as int]),
    decreases s.len(),
{
    if s.len() > 0 && is_digit(s[0]) {
        lemma_digit_run_bound(s.skip(1));
        assert forall|i: int| 0 <= i < digit_run(s) implies is_digit(#[trigger] s[i]) by {
            if i > 0 {
                assert(s[i] == s.skip(1)[i - 1]);
            }
        }
        if digit_run(s) < s.len() {
            assert(s[digit_run(s) as int] == s.skip(1)[digit_run(s.skip(1)) as int]);
        }
    }
}

proof fn lemma_digit_run_exact(s: Seq<char>, n: nat)
    requires
        n <= s.len(),
        forall|i: int| 0 <= i < n ==> is_digit(#[trigger] s[i]),
        n == s.len() || !is_digit(s[n as int]),
    ensures
        digit_run(s) == n,
    decreases n,
{
    if n > 0 {
        assert forall|i: int| 0 <= i < n - 1 implies is_digit(#[trigger] s.skip(1)[i]) by {
            assert(s.skip(1)[i] == s[i + 1]);
        }
        if n - 1 < s.skip(1).len() {
            assert(s.skip(1)[n - 1] == s[n as int]);
        }
        lemma_digit_run_exact(s.skip(1), (n - 1) as nat);
    } else {
        if s.len() > 0 {
            assert(!is_digit(s[0]));
        }
    }
}

/// Number of ASCII digits in `s` from `start` on, up to the first non-digit.
pub fn digit_run_from(s: &[char], start: usize) -> (r: usize)
    requires
        start <= s.len(),
    ensures
        r == digit_run(s@.skip(start as int)),
        start + r <= s.len(),
{
    let mut i = start;
    while i < s.len() && '0' <= s[i] && s[i] <= '9'
        invariant
            start <= i <= s.len(),
            forall|k: int| start <= k < i ==> is_digit(#[trigger] s@[k]),
        decreases s.len() - i,
    {
        i += 1;
    }
    proof {
        let t = s@.skip(start as int);
        assert forall|k: int| 0 <= k < i - start implies is_digit(#[trigger] t[k]) by {
            assert(t[k] == s@[start + k]);
        }
        if i < s.len() {
            assert(t[i - start] == s@[i as int]);
        }
        lemma_digit_run_exact(t, (i - start) as nat);
    }
    i - start
}

proof fn lemma_value_step(ds: Seq<char>, i: int)
    requires
        0 <= i < ds.len(),
    ensures
        digits_value(ds.take(i + 1)) == digits_value(ds.take(i)) * 10 + digit_of(ds[i]),
{
    assert(ds.take(i + 1).drop_last() =~= ds.take(i));
}

/// `min(10*min(a, C) + d, C) == min(10*a + d, C)`.
proof fn lemma_sat_step(a: nat, d: nat, c: nat)
    requires
        c > 0,
    ensures
        min_nat(min_nat(a, c) * 10 + d, c) == min_nat(a * 10 + d, c),
{
}

/// `min(value of ds[lo..hi) prefix, C)` accumulated with saturation.
fn saturated_value(ds: &[char], hi: usize) -> (r: u64)
    requires
        hi <= ds.len(),
        forall|i: int| 0 <= i < ds.len() ==> is_digit(#[trigger] ds@[i]),
    ensures
        r == min_nat(digits_value(ds@.take(hi as int)), INT_CAP as nat),
{
    let mut v: u64 = 0;
    let mut i: usize = 0;
    assert(ds@.take(0) =~= seq![]);
    while i < hi
        invariant
            i <= hi <= ds.len(),
            forall|k: int| 0 <= k < ds.len() ==> is_digit(#[trigger] ds@[k]),
            v == min_nat(digits_value(ds@.take(i as int)), INT_CAP as nat),
        decreases hi - i,
    {
        let d: u64 = ((ds[i] as u32) - 48) as u64;
        assert(is_digit(ds@[i as int]));
        proof {
            lemma_value_step(ds@, i as int);
            lemma_sat_step(digits_value(ds@.take(i as int)), d as nat, INT_CAP as nat);
        }
        let next: u64 = v * 10 + d;
        v = if next > INT_CAP {
            INT_CAP
        } else {
            next
        };
        i += 1;
    }
    v
}

proof fn lemma_pow10_grows(j: nat, k: nat)
    requires
        j <= k,
    ensures
        pow10(j) <= pow10(k),
        pow10(j) >= 1,
    decreases k,
{
    if k > j {
        lemma_pow10_grows(j, (k - 1) as nat);
    } else if k > 0 {
        lemma_pow10_grows(0, (k - 1) as nat);
    }
}

/// Integer part, capped, for a point past the last digit: the value padded with zeros.
fn padded_value(base: u64, pad: u128, Ghost(val): Ghost<nat>) -> (r: u64)
    requires
        base == min_nat(val, INT_CAP as nat),
    ensures
        r == min_nat(val * pow10(pad as nat), INT_CAP as nat),
{
    let mut v = base;
    let mut k: u128 = 0;
    assert(pow10(0) == 1);
    assert(val * pow10(0) == val);
    while k < pad && v != 0 && v != INT_CAP
        invariant
            k <= pad,
            v == min_nat(val * pow10(k as nat), INT_CAP as nat),
        decreases pad - k,
    {
        proof {
            assert(pow10((k + 1) as nat) == 10 * pow10(k as nat));
            assert(val * pow10((k + 1) as nat) == (val * pow10(k as nat)) * 10) by (nonlinear_arith)
                requires
                    pow10((k + 1) as nat) == 10 * pow10(k as nat),
            ;
            lemma_sat_step(val * pow10(k as nat), 0, INT_CAP as nat);
        }
        let next: u64 = v * 10;
        v = if next > INT_CAP {
            INT_CAP
        } else {
            next
        };
        k += 1;
    }
    proof {
        if k < pad {
            lemma_pow10_grows(k as nat, pad as nat);
            let a = pow10(k as nat);
            let b = pow10(pad as nat);
            if v == 0 {
                assert(val * a == 0);
                assert(val == 0) by (nonlinear_arith)
                    requires
                        val * a == 0,
                        a >= 1,
                ;
                assert(val * b == 0);
            } else {
                assert(val * a >= INT_CAP);
                assert(val * b >= val * a) by (nonlinear_arith)
                    requires
                        b >= a,
                ;
            }
        }
    }
    v
}


proof fn lemma_pow10_11()
    ensures
        pow10(11) == 100000000000,
{
    reveal_with_fuel(pow10, 12);
}

proof fn lemma_pow10_add(a: nat, b: nat)
    ensures
        pow10(a + b) == pow10(a) * pow10(b),
    decreases a,
{
    if a > 0 {
        let a1 = (a - 1) as nat;
        lemma_pow10_add(a1, b);
        assert(pow10(a) == 10 * pow10(a1));
        assert(((a + b) - 1) as nat == a1 + b);
        assert(pow10(a + b) == 10 * pow10(a1 + b));
        assert(10 * (pow10(a1) * pow10(b)) == (10 * pow10(a1)) * pow10(b)) by (nonlinear_arith);
    } else {
        assert(pow10(0) == 1);
        assert(a + b == b);
    }
}

proof fn lemma_digits_value_concat(a: Seq<char>, b: Seq<char>)
    ensures
        digits_value(a + b) == digits_value(a) * pow10(b.len()) + digits_value(b),
    decreases b.len(),
{
    if b.len() == 0 {
        assert(a + b =~= a);
        assert(pow10(0) == 1);
        assert(digits_value(b) == 0);
    } else {
        let b1 = b.drop_last();
        lemma_digits_value_concat(a, b1);
        let ab = a + b;
        assert(ab.drop_last() =~= a + b1);
        assert(ab.last() == b.last());
        assert(digits_value(ab) == digits_value(ab.drop_last()) * 10 + digit_of(ab.last()));
        assert(digits_value(b) == digits_value(b1) * 10 + digit_of(b.last()));
        let va = digits_value(a);
        let p = pow10(b1.len());
        assert(pow10(b.len()) == 10 * p);
        assert((va * p + digits_value(b1)) * 10 + digit_of(b.last()) == va * (10 * p) + (
        digits_value(b1) * 10 + digit_of(b.last()))) by (nonlinear_arith);
    }
}

proof fn lemma_digits_value_bound(b: Seq<char>)
    requires
        forall|i: int| 0 <= i < b.len() ==> is_digit(#[trigger] b[i]),
    ensures
        digits_value(b) < pow10(b.len()),
    decreases b.len(),
{
    if b.len() > 0 {
        let b1 = b.drop_last();
        assert forall|i: int| 0 <= i < b1.len() implies is_digit(#[trigger] b1[i]) by {
            assert(b1[i] == b[i]);
        }
        lemma_digits_value_bound(b1);
        assert(is_digit(b[b.len() - 1]));
        assert(digit_of(b.last()) <= 9);
        let v = digits_value(b1);
        let p = pow10(b1.len());
        assert(v * 10 + digit_of(b.last()) < 10 * p) by (nonlinear_arith)
            requires
                v < p,
                digit_of(b.last()) <= 9,
        ;
    }
}

proof fn lemma_zeros_value(n: nat)
    ensures
        digits_value(Seq::new(n, |i: int| '0')) == 0,
    decreases n,
{
    if n > 0 {
        lemma_zeros_value((n - 1) as nat);
        assert(Seq::new(n, |i: int| '0').drop_last() =~= Seq::new((n - 1) as nat, |i: int| '0'));
    }
}

proof fn lemma_two_pow_grows(j: nat, k: nat)
    requires
        j <= k,
    ensures
        two_pow(j) <= two_pow(k),
        two_pow(j) >= 1,
    decreases k,
{
    if k > j {
        lemma_two_pow_grows(j, (k - 1) as nat);
    } else if k > 0 {
        lemma_two_pow_grows(0, (k - 1) as nat);
    }
}

proof fn lemma_log2_below(k: nat, n: nat)
    requires
        k < two_pow(n + 1),
    ensures
        log2_floor(k) <= n,
    decreases n,
{
    if k >= 2 && n > 0 {
        assert(two_pow(n + 1) == 2 * two_pow(n));
        lemma_log2_below(k / 2, (n - 1) as nat);
    } else if k >= 2 {
        assert(two_pow(1) == 2 * two_pow(0));
    }
}

/// Every whole part below the cap spans at most 34 bits.
proof fn lemma_log2_capped(k: nat)
    requires
        k < INT_CAP,
    ensures
        log2_floor(k) <= 33,
{
    assert(two_pow(34) == 17179869184) by {
        reveal_with_fuel(two_pow, 35);
    }
    lemma_log2_below(k, 33);
}

/// How the fraction compares once the first `i` fraction digits are read.
proof fn lemma_frac_tail(fd: Seq<char>, i: int, d: int, t: int)
    requires
        0 <= i <= fd.len(),
        d >= 1,
        forall|k: int| 0 <= k < fd.len() ==> is_digit(#[trigger] fd[k]),
    ensures
        digits_value(fd.take(i)) * d - t * pow10(i as nat) > 0 ==> digits_value(fd) * d - t * pow10(
            fd.len(),
        ) > 0,
        digits_value(fd.take(i)) * d - t * pow10(i as nat) + d <= 0 ==> digits_value(fd) * d - t
            * pow10(fd.len()) < 0,
{
    let head = fd.take(i);
    let tail = fd.skip(i);
    assert(fd =~= head + tail);
    lemma_digits_value_concat(head, tail);
    assert forall|k: int| 0 <= k < tail.len() implies is_digit(#[trigger] tail[k]) by {
        assert(tail[k] == fd[i + k]);
    }
    lemma_digits_value_bound(tail);
    lemma_pow10_add(i as nat, tail.len());
    assert(fd.len() == i + tail.len());
    let v = digits_value(head);
    let r = digits_value(tail);
    let p = pow10(tail.len());
    let q = pow10(i as nat);
    let c = v * d - t * q;
    assert(digits_value(fd) * d - t * pow10(fd.len()) == c * p + r * d) by (nonlinear_arith)
        requires
            digits_value(fd) == v * p + r,
            pow10(fd.len()) == q * p,
            c == v * d - t * q,
    ;
    lemma_pow10_grows(0, tail.len());
    assert(c > 0 ==> c * p + r * d > 0) by (nonlinear_arith)
        requires
            p >= 1,
            r >= 0,
            d >= 1,
    ;
    assert(c + d <= 0 ==> c * p + r * d < 0) by (nonlinear_arith)
        requires
            p >= 1,
            0 <= r < p,
            d >= 1,
    ;
}

/// A point at least 17 places before the digits leaves the fraction below
/// every threshold `t / 2^s` with `t >= 1` and `s <= 55`.
proof fn lemma_far_fraction(ds: Seq<char>, point: int, s: nat, t: nat)
    requires
        point <= -17,
        s <= 55,
        t >= 1,
        forall|i: int| 0 <= i < ds.len() ==> is_digit(#[trigger] ds[i]),
    ensures
        frac_vs(ds, point, s, t) < 0,
{
    let z = (-point) as nat;
    let zs = Seq::new(z, |i: int| '0');
    let fd = frac_seq(ds, point);
    assert(fd == zs + ds);
    lemma_digits_value_concat(zs, ds);
    lemma_zeros_value(z);
    lemma_digits_value_bound(ds);
    lemma_pow10_add(z, ds.len());
    assert(fd.len() == z + ds.len());
    lemma_two_pow_grows(s, 55);
    assert(two_pow(55) == 36028797018963968) by {
        reveal_with_fuel(two_pow, 56);
    }
    assert(pow10(17) == 100000000000000000) by {
        reveal_with_fuel(pow10, 18);
    }
    lemma_pow10_grows(17, z);
    let v = digits_value(ds);
    let pl = pow10(ds.len());
    let pz = pow10(z);
    let ts = two_pow(s);
    assert(digits_value(fd) == v);
    assert(v * ts - t * (pz * pl) < 0) by (nonlinear_arith)
        requires
            v < pl,
            ts <= 36028797018963968,
            pz >= 100000000000000000,
            t >= 1,
            ts >= 1,
    ;
}

fn two_pow_exec(n: u32) -> (r: u64)
    requires
        n <= 60,
    ensures
        r == two_pow(n as nat),
{
    let mut r: u64 = 1;
    let mut j: u32 = 0;
    proof {
        assert(two_pow(60) == 1152921504606846976) by {
            reveal_with_fuel(two_pow, 61);
        }
    }
    while j < n
        invariant
            j <= n <= 60,
            r == two_pow(j as nat),
            two_pow(60) == 1152921504606846976,
        decreases n - j,
    {
        proof {
            lemma_two_pow_grows((j + 1) as nat, 60);
        }
        r = r * 2;
        j += 1;
    }
    r
}

fn log2_floor_exec(k: u64) -> (r: u32)
    requires
        k < INT_CAP,
    ensures
        r == log2_floor(k as nat),
{
    proof {
        lemma_log2_capped(k as nat);
    }
    let mut x = k;
    let mut e: u32 = 0;
    while x >= 2
        invariant
            e + log2_floor(x as nat) == log2_floor(k as nat),
            log2_floor(k as nat) <= 33,
        decreases x,
    {
        x = x / 2;
        e += 1;
    }
    e
}

proof fn lemma_frac_step(fd: Seq<char>, i: int, d: int, t: int, c: int, dg: int)
    requires
        0 <= i < fd.len(),
        dg == digit_of(fd[i]),
        c == digits_value(fd.take(i)) * d - t * pow10(i as nat),
    ensures
        10 * c + dg * d == digits_value(fd.take(i + 1)) * d - t * pow10((i + 1) as nat),
{
    lemma_value_step(fd, i);
    let v = digits_value(fd.take(i));
    let p = pow10(i as nat);
    assert(pow10((i + 1) as nat) == 10 * p);
    assert(10 * (v * d - t * p) + dg * d == (v * 10 + dg) * d - t * (10 * p)) by (nonlinear_arith);
}

proof fn lemma_frac_seq_shape(ds: Seq<char>, point: int, z: int, start: int)
    requires
        forall|i: int| 0 <= i < ds.len() ==> is_digit(#[trigger] ds[i]),
        z == (if point < 0 { -point } else { 0int }),
        start == (if point <= 0 || point >= ds.len() { 0int } else { point }),
    ensures
        frac_seq(ds, point).len() == (if point >= ds.len() { 0int } else { ds.len() - point }),
        forall|k: int|
            0 <= k < frac_seq(ds, point).len() ==> is_digit(#[trigger] frac_seq(ds, point)[k])
                && frac_seq(ds, point)[k] == (if k < z {
                '0'
            } else {
                ds[start + k - z]
            }),
{
    let fd = frac_seq(ds, point);
    assert forall|k: int| 0 <= k < fd.len() implies is_digit(#[trigger] fd[k]) && fd[k] == (if k < z {
        '0'
    } else {
        ds[start + k - z]
    }) by {
        if point < 0 {
            if k >= z {
                assert(fd[k] == ds[k - z]);
            }
        } else {
            assert(fd[k] == ds[point + k]);
        }
    }
}

/// The sign of `frac_vs(ds, point, s, t)`: the fraction digits are read
/// until the comparison is settled.
#[verifier::rlimit(30)]
fn frac_sign(ds: &[char], point: i128, s: u32, t: u64) -> (r: i8)
    requires
        forall|i: int| 0 <= i < ds.len() ==> is_digit(#[trigger] ds@[i]),
        s <= 56,
        t <= two_pow(s as nat),
        -0x1_0000_0000_0000_0000_0000_0000 < point < 0x1_0000_0000_0000_0000_0000_0000,
    ensures
        (r == 1) == (frac_vs(ds@, point as int, s as nat, t as nat) > 0),
        (r == -1) == (frac_vs(ds@, point as int, s as nat, t as nat) < 0),
        (r == 0) == (frac_vs(ds@, point as int, s as nat, t as nat) == 0),
{
    let ghost fd = frac_seq(ds@, point as int);
    let d_u = two_pow_exec(s);
    proof {
        lemma_two_pow_grows(s as nat, 60);
        assert(two_pow(60) == 1152921504606846976) by {
            reveal_with_fuel(two_pow, 61);
        }
    }
    let d: i128 = d_u as i128;
    let len = ds.len();
    let flen: u128 = if point >= len as i128 {
        0
    } else {
        (len as i128 - point) as u128
    };
    let z: u128 = if point < 0 {
        (-point) as u128
    } else {
        0
    };
    let start: usize = if point <= 0 || point >= len as i128 {
        0
    } else {
        point as usize
    };
    proof {
        lemma_frac_seq_shape(ds@, point as int, z as int, start as int);
    }
    let mut c: i128 = -(t as i128);
    let mut i: u128 = 0;
    assert(fd.take(0) =~= seq![]);
    assert(pow10(0) == 1);
    assert(digits_value(fd.take(0)) == 0);
    assert(c == digits_value(fd.take(0)) * d - t * pow10(0)) by (nonlinear_arith)
        requires
            digits_value(fd.take(0)) == 0,
            pow10(0) == 1,
            c == -(t as int),
    ;
    while i < flen
        invariant
            i <= flen == fd.len(),
            fd.len() == (if point >= len { 0int } else { len - point }),
            frac_vs(ds@, point as int, s as nat, t as nat) == digits_value(fd) * d - t * pow10(
                fd.len(),
            ),
            d == two_pow(s as nat),
            1 <= d <= 1152921504606846976,
            t <= d,
            len == ds.len(),
            z == (if point < 0 { -point } else { 0int }),
            start == (if point <= 0 || point >= len { 0int } else { point as int }),
            forall|k: int| 0 <= k < fd.len() ==> is_digit(#[trigger] fd[k]) && fd[k] == (if k < z {
                '0'
            } else {
                ds@[start + k - z]
            }),
            c == digits_value(fd.take(i as int)) * d - t * pow10(i as nat),
            -10 * d < c <= 9 * d,
        decreases flen - i,
    {
        if c > 0 {
            proof {
                lemma_frac_tail(fd, i as int, d as int, t as int);
            }
            return 1;
        }
        if c + d <= 0 {
            proof {
                lemma_frac_tail(fd, i as int, d as int, t as int);
            }
            return -1;
        }
        let ghost fi = fd[i as int];
        assert(is_digit(fi));
        let dg: i128 = if i < z {
            0
        } else {
            let idx: usize = start + (i - z) as usize;
            assert(ds@[idx as int] == fi);
            let ch = ds[idx];
            ((ch as u32) - 48) as i128
        };
        assert(dg == digit_of(fi));
        assert(0 <= dg <= 9);
        assert(0 <= dg * d <= 9 * d) by (nonlinear_arith)
            requires
                0 <= dg <= 9,
                d >= 1,
        ;
        proof {
            lemma_frac_step(fd, i as int, d as int, t as int, c as int, dg as int);
        }
        c = 10 * c + dg * d;
        i += 1;
    }
    assert(fd.take(i as int) =~= fd);
    if c > 0 {
        1
    } else if c < 0 {
        -1
    } else {
        0
    }
}


/// Points far past the digits, or both before them, read alike.
proof fn lemma_far_points(negative: bool, ds: Seq<char>, p1: int, p2: int)
    requires
        (p1 >= ds.len() + 11 && p2 >= ds.len() + 11) || (p1 <= -17 && p2 <= -17),
        forall|i: int| 0 <= i < ds.len() ==> is_digit(#[trigger] ds[i]),
    ensures
        reading_of(FloatText::Finite { negative, digits: ds, point: p1 }) == reading_of(
            FloatText::Finite { negative, digits: ds, point: p2 },
        ),
{
    if p1 >= 0 {
        let v = digits_value(ds);
        lemma_pow10_11();
        lemma_pow10_grows(11, (p1 - ds.len()) as nat);
        lemma_pow10_grows(11, (p2 - ds.len()) as nat);
        let a = pow10((p1 - ds.len()) as nat);
        let b = pow10((p2 - ds.len()) as nat);
        assert(int_value(ds, p1) == v * a);
        assert(int_value(ds, p2) == v * b);
        if v == 0 {
            assert(v * a == 0) by (nonlinear_arith)
                requires
                    v == 0,
            ;
            assert(v * b == 0) by (nonlinear_arith)
                requires
                    v == 0,
            ;
        } else {
            assert(v * a >= a) by (nonlinear_arith)
                requires
                    v >= 1,
            ;
            assert(v * b >= b) by (nonlinear_arith)
                requires
                    v >= 1,
            ;
        }
        assert(frac_seq(ds, p1) =~= seq![]);
        assert(frac_seq(ds, p2) =~= seq![]);
    } else {
        let two54 = (two_pow(54) - 1) as nat;
        assert(two_pow(54) == 18014398509481984) by {
            reveal_with_fuel(two_pow, 55);
        }
        lemma_far_fraction(ds, p1, 55, two54);
        lemma_far_fraction(ds, p2, 55, two54);
        lemma_far_fraction(ds, p1, 54, two54);
        lemma_far_fraction(ds, p2, 54, two54);
    }
}

/// The fixed-size reading of digits `ds` with the decimal point at `point`.
fn reading_at(negative: bool, ds: &[char], point: i128) -> (r: Decimal)
    requires
        forall|i: int| 0 <= i < ds.len() ==> is_digit(#[trigger] ds@[i]),
        -0x1_0000_0000_0000_0000_0000_0000 < point < 0x1_0000_0000_0000_0000_0000_0000,
    ensures
        r == reading_of(FloatText::Finite { negative, digits: ds@, point: point as int }),
{
    let len = ds.len();
    let int_part: u64 = if point <= 0 {
        0
    } else if point <= len as i128 {
        saturated_value(ds, point as usize)
    } else {
        let base = saturated_value(ds, len);
        assert(ds@.take(len as int) =~= ds@);
        padded_value(base, (point - len as i128) as u128, Ghost(digits_value(ds@)))
    };
    let ghost k = int_part as nat;
    if int_part >= INT_CAP {
        return Decimal::Finite {
            negative,
            int_part,
            rounds_up: false,
            reaches_next: false,
            stays_whole: false,
        };
    }
    if int_part == 0 {
        proof {
            lemma_two_pow_grows(0, 54);
            lemma_two_pow_grows(54, 55);
        }
        let t = two_pow_exec(54) - 1;
        let half = frac_sign(ds, point, 55, t);
        let next = frac_sign(ds, point, 54, t);
        return Decimal::Finite {
            negative,
            int_part,
            rounds_up: half >= 0,
            reaches_next: next >= 0,
            stays_whole: false,
        };
    }
    let e = log2_floor_exec(int_part);
    proof {
        lemma_log2_capped(k);
    }
    let sh: u32 = 53 - e;
    assert(sh == half_gap_shift(k));
    let full = two_pow_exec(sh);
    let halfp = two_pow_exec(sh - 1);
    proof {
        lemma_two_pow_grows((sh - 1) as nat, sh as nat);
        lemma_two_pow_grows(0, (sh - 1) as nat);
    }
    let half = frac_sign(ds, point, sh, halfp - 1);
    let next = frac_sign(ds, point, sh, full - 1);
    let stay = frac_sign(ds, point, sh, 1);
    Decimal::Finite {
        negative,
        int_part,
        rounds_up: half >= 0,
        reaches_next: next >= 0,
        stays_whole: stay <= 0,
    }
}

/// The mantissa digits of `body` (integer then fraction digits) and the
/// position right after them, as the grammar reads them.
#[verifier::rlimit(40)]
fn mantissa_digits(body: &[char]) -> (r: (Vec<char>, usize, usize, bool))
    ensures
        ({
            let (ds, a, pos, has_point) = r;
            let r1 = body@.skip(a as int);
            &&& a == digit_run(body@)
            &&& a <= body@.len()
            &&& has_point == (r1.len() > 0 && r1[0] == '.')
            &&& pos <= body@.len()
            &&& ds@ == body@.take(a as int) + (if has_point {
                r1.skip(1).take(digit_run(r1.skip(1)) as int)
            } else {
                seq![]
            })
            &&& body@.skip(pos as int) == (if has_point {
                r1.skip(1).skip(digit_run(r1.skip(1)) as int)
            } else {
                r1
            })
            &&& forall|k: int| 0 <= k < ds@.len() ==> is_digit(#[trigger] ds@[k])
        }),
{
    let len = body.len();
    let a = digit_run_from(body, 0);
    assert(body@.skip(0) =~= body@);
    proof {
        lemma_digit_run_bound(body@);
    }
    let has_point = a < len && body[a] == '.';
    let b: usize = if has_point {
        digit_run_from(body, a + 1)
    } else {
        0
    };
    let pos: usize = if has_point {
        a + 1 + b
    } else {
        a
    };
    let ghost r1 = body@.skip(a as int);
    proof {
        if has_point {
            lemma_digit_run_bound(body@.skip(a + 1));
            assert(r1.skip(1) =~= body@.skip(a + 1));
            assert(r1.skip(1).skip(b as int) =~= body@.skip(pos as int));
        } else {
            assert(r1 =~= body@.skip(pos as int));
        }
    }
    let mut ds: Vec<char> = Vec::new();
    let mut i: usize = 0;
    while i < a
        invariant
            len == body.len(),
            i <= a <= len,
            forall|k: int| 0 <= k < a ==> is_digit(#[trigger] body@[k]),
            ds@ == body@.take(i as int),
        decreases a - i,
    {
        ds.push(body[i]);
        assert(body@.take(i + 1) =~= body@.take(i as int).push(body@[i as int]));
        i += 1;
    }
    if has_point {
        let mut j: usize = 0;
        while j < b
            invariant
                len == body.len(),
                a + 1 + b <= len,
                j <= b,
                b == digit_run(body@.skip(a + 1)),
                ds@ == body@.take(a as int) + body@.skip(a + 1).take(j as int),
            decreases b - j,
        {
            ds.push(body[a + 1 + j]);
            assert(body@.skip(a + 1).take(j + 1) =~= body@.skip(a + 1).take(j as int).push(
                body@[a + 1 + j],
            ));
            j += 1;
        }
    }
    proof {
        if has_point {
            assert(ds@ =~= body@.take(a as int) + r1.skip(1).take(b as int));
        } else {
            assert(ds@ =~= body@.take(a as int) + seq![]);
        }
        assert forall|k: int| 0 <= k < ds@.len() implies is_digit(#[trigger] ds@[k]) by {
            if k < a {
            } else {
                lemma_digit_run_bound(body@.skip(a + 1));
                assert(ds@[k] == body@.skip(a + 1)[k - a]);
            }
        }
    }
    (ds, a, pos, has_point)
}

/// The exponent suffix after `e`/`E` (from `start` to the end of `body`),
/// with its magnitude capped at `EXP_CAP`.
fn exponent_digits(body: &[char], start: usize) -> (r: Option<(bool, u128)>)
    requires
        start <= body.len(),
    ensures
        match exponent_of(body@.skip(start as int)) {
            None => r is None,
            Some(e) => r matches Some((neg, m)) && (neg ==> e <= 0) && (!neg ==> e >= 0) && (if (if e < 0 {
                -e
            } else {
                e
            }) < EXP_CAP {
                m as int == (if e < 0 {
                    -e
                } else {
                    e
                })
            } else {
                m == EXP_CAP
            }),
        },
{
    let len = body.len();
    let ghost r3 = body@.skip(start as int);
    let (eneg, q) = if start < len && (body[start] == '+' || body[start] == '-') {
        (body[start] == '-', start + 1)
    } else {
        (false, start)
    };
    let ghost r4 = split_sign(r3).1;
    assert(r4 =~= body@.skip(q as int));
    let c = digit_run_from(body, q);
    if c == 0 || q + c != len {
        return None;
    }
    proof {
        lemma_digit_run_bound(r4);
    }
    let mut e: u128 = 0;
    let mut k: usize = q;
    assert(r4.take(0) =~= seq![]);
    while k < len
        invariant
            len == body.len(),
            q <= k <= len,
            q + c == len,
            c == digit_run(r4),
            r4 == body@.skip(q as int),
            forall|t: int| 0 <= t < digit_run(r4) ==> is_digit(#[trigger] r4[t]),
            e == (if digits_value(r4.take(k - q)) < EXP_CAP {
                digits_value(r4.take(k - q))
            } else {
                EXP_CAP as nat
            }),
        decreases len - k,
    {
        proof {
            assert(r4[k - q] == body@[k as int]);
            assert(is_digit(r4[k - q]));
            lemma_value_step(r4, k - q);
        }
        let d: u128 = ((body[k] as u32) - 48) as u128;
        let next: u128 = e * 10 + d;
        e = if next > EXP_CAP {
            EXP_CAP
        } else {
            next
        };
        k += 1;
    }
    assert(r4.take(len - q) =~= r4);
    assert(eneg == split_sign(r3).0);
    assert(c == r4.len());
    Some((eneg, e))
}

/// Reads number text the way `f64::from_str` accepts it; `None` when rejected.
#[verifier::rlimit(60)]
pub fn parse_decimal(s: &[char]) -> (r: Option<Decimal>)
    ensures
        r == decimal_of(s@),
{
    let (negative, start) = if s.len() > 0 && (s[0] == '+' || s[0] == '-') {
        (s[0] == '-', 1usize)
    } else {
        (false, 0usize)
    };
    let body = vstd::slice::slice_subrange(s, start, s.len());
    let ghost body_s = split_sign(s@).1;
    assert(body@ =~= body_s);
    assert(negative == split_sign(s@).0);
    let lb = to_lower(body);
    assert(['n', 'a', 'n']@ =~= seq!['n', 'a', 'n']);
    assert(['i', 'n', 'f']@ =~= seq!['i', 'n', 'f']);
    assert(['i', 'n', 'f', 'i', 'n', 'i', 't', 'y']@ =~= seq!['i', 'n', 'f', 'i', 'n', 'i', 't', 'y']);
    if chars_eq(lb.as_slice(), &['n', 'a', 'n']) {
        return Some(Decimal::NotANumber);
    }
    if chars_eq(lb.as_slice(), &['i', 'n', 'f']) || chars_eq(
        lb.as_slice(),
        &['i', 'n', 'f', 'i', 'n', 'i', 't', 'y'],
    ) {
        return Some(Decimal::Infinite { negative });
    }
    let len = body.len();
    let (ds, a, pos, has_point) = mantissa_digits(body);
    let ghost ip = body_s.take(a as int);
    let ghost r1 = body_s.skip(a as int);
    let ghost b = if has_point {
        digit_run(r1.skip(1))
    } else {
        0
    };
    let ghost fp = if has_point {
        r1.skip(1).take(b as int)
    } else {
        seq![]
    };
    let ghost r2 = body@.skip(pos as int);
    assert(ds@ == ip + fp);
    assert(ds@.len() == ip.len() + fp.len());
    if ds.len() == 0 {
        assert(float_text(s@) is None);
        return None;
    }
    if pos == len {
        assert(r2.len() == 0);
        assert(float_text(s@) == Some(
            FloatText::Finite { negative, digits: ds@, point: ip.len() as int },
        ));
        let r = reading_at(negative, ds.as_slice(), a as i128);
        assert(ip.len() == a);
        assert(r == reading_of(FloatText::Finite { negative, digits: ds@, point: ip.len() as int }));
        assert(decimal_of(s@) == Some(reading_of(FloatText::Finite { negative, digits: ds@, point: ip.len() as int })));
        return Some(r);
    }
    assert(r2[0] == body@[pos as int]);
    if !(body[pos] == 'e' || body[pos] == 'E') {
        assert(float_text(s@) is None);
        return None;
    }
    assert(r2.skip(1) =~= body@.skip(pos + 1));
    match exponent_digits(body, pos + 1) {
        None => {
            assert(float_text(s@) is None);
            None
        },
        Some((eneg, e)) => {
            let point: i128 = if eneg {
                (a as i128) - (e as i128)
            } else {
                (a as i128) + (e as i128)
            };
            let r = reading_at(negative, ds.as_slice(), point);
            proof {
                let exact = exponent_of(r2.skip(1))->0;
                assert(float_text(s@) == Some(
                    FloatText::Finite { negative, digits: ds@, point: ip.len() + exact },
                ));
                if e == EXP_CAP {
                    lemma_far_points(negative, ds@, point as int, a + exact);
                } else {
                    assert(point == a + exact);
                }
            }
            Some(r)
        },
    }
}


/// `f.round() as u32` for a reading.
pub fn round_to_u32_exec(d: Decimal) -> (r: u32)
    ensures
        r == round_to_u32(d),
{
    match d {
        Decimal::NotANumber => 0,
        Decimal::Infinite { negative } => if negative {
            0
        } else {
            u32::MAX
        },
        Decimal::Finite { negative, int_part, rounds_up, .. } => {
            if negative {
                return 0;
            }
            let up: u64 = if rounds_up {
                1
            } else {
                0
            };
            if int_part >= INT_CAP {
                return u32::MAX;
            }
            let r = int_part + up;
            if r > u32::MAX as u64 {
                u32::MAX
            } else {
                r as u32
            }
        },
    }
}

/// Whether a reading is at least the whole number `lo`.
pub fn at_least_exec(d: Decimal, lo: u64) -> (r: bool)
    requires
        1 <= lo <= INT_CAP,
    ensures
        r == at_least(d, lo as nat),
{
    match d {
        Decimal::NotANumber => false,
        Decimal::Infinite { negative } => !negative,
        Decimal::Finite { negative, int_part, reaches_next, .. } => !negative && (int_part >= lo
            || (int_part == lo - 1 && reaches_next)),
    }
}

/// Whether a reading is at most the whole number `hi`.
pub fn at_most_exec(d: Decimal, hi: u64) -> (r: bool)
    requires
        1 <= hi < INT_CAP,
    ensures
        r == at_most(d, hi as nat),
{
    match d {
        Decimal::NotANumber => false,
        Decimal::Infinite { negative } => negative,
        Decimal::Finite { negative, int_part, stays_whole, .. } => negative || int_part < hi || (
        int_part == hi && stays_whole),
    }
}


/// `u32::from_str`: an optional `+`, then one or more ASCII digits, value in range.
pub open spec fn parse_u32_spec(s: Seq<char>) -> Option<u32> {
    let body = if s.len() > 0 && s[0] == '+' {
        s.skip(1)
    } else {
        s
    };
    if body.len() > 0 && digit_run(body) == body.len() && digits_value(body) <= u32::MAX {
        Some(digits_value(body) as u32)
    } else {
        None
    }
}

/// `u32::from_str` on characters.
pub fn parse_u32(s: &[char]) -> (r: Option<u32>)
    ensures
        r == parse_u32_spec(s@),
{
    let start: usize = if s.len() > 0 && s[0] == '+' {
        1
    } else {
        0
    };
    let body = vstd::slice::slice_subrange(s, start, s.len());
    let ghost b = if s@.len() > 0 && s@[0] == '+' {
        s@.skip(1)
    } else {
        s@
    };
    assert(body@ =~= b);
    let n = digit_run_from(body, 0);
    assert(body@.skip(0) =~= body@);
    if body.len() == 0 || n != body.len() {
        return None;
    }
    proof {
        lemma_digit_run_bound(body@);
    }
    let cap: u64 = 4294967296;
    let mut v: u64 = 0;
    let mut i: usize = 0;
    assert(body@.take(0) =~= seq![]);
    while i < body.len()
        invariant
            i <= body.len() == n,
            cap == 4294967296,
            n == digit_run(body@),
            forall|k: int| 0 <= k < digit_run(body@) ==> is_digit(#[trigger] body@[k]),
            v == min_nat(digits_value(body@.take(i as int)), cap as nat),
        decreases body.len() - i,
    {
        assert(is_digit(body@[i as int]));
        proof {
            lemma_value_step(body@, i as int);
            lemma_sat_step(digits_value(body@.take(i as int)), digit_of(body@[i as int]), cap as nat);
        }
        let d: u64 = ((body[i] as u32) - 48) as u64;
        let next = v * 10 + d;
        v = if next > cap {
            cap
        } else {
            next
        };
        i += 1;
    }
    assert(body@.take(body.len() as int) =~= body@);
    if v > u32::MAX as u64 {
        None
    } else {
        Some(v as u32)
    }
}

} // verus!
