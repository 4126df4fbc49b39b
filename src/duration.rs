//! Track durations: an exact count of microseconds, read from the frame-coded
//! form `HH:MM:SS:FF` (25 frames per second) or the decimal form `S.F` (where
//! `:` stands for `.`), and shown as whole seconds and hundredths.

use vstd::prelude::*;
use crate::text::{
    is_digit, find_char, char_is_digit, chars_of, position_of, slice_chars, string_of, views,
};

verus! {

/// A track's duration in microseconds.
#[derive(Clone, Copy, Debug, PartialEq, Eq, Structural)]
pub struct TrackDuration {
    pub micros: u64,
}

/// Whether every character of `t` is an ASCII digit.
pub open spec fn all_digits(t: Seq<char>) -> bool {
    forall|i: int| 0 <= i < t.len() ==> is_digit(t[i])
}

/// The value of a digit.
pub open spec fn digit_value(c: char) -> nat {
    (c as int - '0' as int) as nat
}

/// The decimal value of a string of digits; the empty string counts as 0.
pub open spec fn digits_value(t: Seq<char>) -> nat
    decreases t.len(),
{
    if t.len() == 0 {
        0
    } else {
        digits_value(t.drop_last()) * 10 + digit_value(t.last())
    }
}

/// The fields of `s` between the occurrences of `c`; there is always at least one.
pub open spec fn split_on(s: Seq<char>, c: char) -> Seq<Seq<char>>
    decreases s.len(),
{
    let k = find_char(s, c);
    if 0 <= k < s.len() {
        seq![s.subrange(0, k)] + split_on(s.subrange(k + 1, s.len() as int), c)
    } else {
        seq![s]
    }
}

/// Frame-coded reading: exactly four `:`-separated non-empty digit fields
/// `HH:MM:SS:FF`, worth `HH*3600 + MM*60 + SS + FF/25` seconds.
pub open spec fn frame_coded(s: Seq<char>) -> Option<nat> {
    let p = split_on(s, ':');
    if p.len() == 4 && (forall|i: int|
        0 <= i < 4 ==> (#[trigger] p[i]).len() > 0 && all_digits(p[i])) {
        Some(
            (((digits_value(p[0]) * 3600 + digits_value(p[1]) * 60 + digits_value(p[2])) * 25
                + digits_value(p[3])) * 40000) as nat,
        )
    } else {
        None
    }
}

/// `s` with each `:` read as `.`.
pub open spec fn colons_as_dots(s: Seq<char>) -> Seq<char> {
    s.map_values(|c: char| if c == ':' { '.' } else { c })
}

/// Ten to the power `n`.
pub open spec fn pow10(n: nat) -> nat
    decreases n,
{
    if n == 0 {
        1
    } else {
        10 * pow10((n - 1) as nat)
    }
}

/// The microseconds that the digits after a decimal point stand for; digits
/// past the sixth are dropped.
pub open spec fn fraction_micros(f: Seq<char>) -> nat {
    if f.len() >= 6 {
        digits_value(f.subrange(0, 6))
    } else {
        digits_value(f) * pow10((6 - f.len()) as nat)
    }
}

/// Decimal reading: after reading each `:` as `.`, the text splits at `.` into at
/// least two parts, and the first two, `A` and `B`, make the decimal number
/// `A.B`: digits only, at least one of them.
pub open spec fn decimal_coded(s: Seq<char>) -> Option<nat> {
    let p = split_on(colons_as_dots(s), '.');
    if p.len() >= 2 && all_digits(p[0]) && all_digits(p[1]) && p[0].len() + p[1].len() > 0 {
        Some(digits_value(p[0]) * 1000000 + fraction_micros(p[1]))
    } else {
        None
    }
}

/// A reading of a duration as a value of the type, where it fits.
pub open spec fn as_duration(v: Option<nat>) -> Option<TrackDuration> {
    match v {
        Some(n) => if n <= u64::MAX {
            Some(TrackDuration { micros: n as u64 })
        } else {
            None
        },
        None => None,
    }
}

proof fn lemma_digits_prefix_mono(t: Seq<char>, i: int, j: int)
    requires
        0 <= i <= j <= t.len(),
    ensures
        digits_value(t.subrange(0, i)) <= digits_value(t.subrange(0, j)),
    decreases j - i,
{
    if i < j {
        lemma_digits_prefix_mono(t, i, j - 1);
        assert(t.subrange(0, j).drop_last() =~= t.subrange(0, j - 1));
    }
}

/// The value of a string of digits, where it fits in a `u64`.
pub fn parse_digits(t: &Vec<char>) -> (r: Option<u64>)
    ensures
        r == (if all_digits(t@) && digits_value(t@) <= u64::MAX {
            Some(digits_value(t@) as u64)
        } else {
            None::<u64>
        }),
{
    let mut v: u64 = 0;
    let mut i: usize = 0;
    while i < t.len()
        invariant
            i <= t@.len(),
            all_digits(t@.subrange(0, i as int)),
            v == digits_value(t@.subrange(0, i as int)),
        decreases t@.len() - i,
    {
        let c = t[i];
        proof {
            assert(t@.subrange(0, i + 1).drop_last() =~= t@.subrange(0, i as int));
        }
        if !char_is_digit(c) {
            proof {
                assert(!is_digit(t@[i as int]));
            }
            return None;
        }
        let d = (c as u32 - '0' as u32) as u64;
        if v > (u64::MAX - d) / 10 {
            proof {
                lemma_digits_prefix_mono(t@, i + 1, t@.len() as int);
                assert(t@.subrange(0, t@.len() as int) =~= t@);
            }
            return None;
        }
        v = v * 10 + d;
        i = i + 1;
    }
    proof {
        assert(t@.subrange(0, t@.len() as int) =~= t@);
    }
    Some(v)
}

/// The fields of `s` between the occurrences of `c` (see `split_on`).
pub fn split_chars(s: &Vec<char>, c: char) -> (r: Vec<Vec<char>>)
    ensures
        views(r@) == split_on(s@, c),
{
    let mut parts: Vec<Vec<char>> = Vec::new();
    let mut rest: Vec<char> = slice_chars(s, 0, s.len());
    proof {
        assert(rest@ =~= s@);
        assert(views(parts@) + split_on(rest@, c) =~= split_on(s@, c));
    }
    loop
        invariant
            views(parts@) + split_on(rest@, c) == split_on(s@, c),
        decreases rest@.len(),
    {
        let k = position_of(&rest, c);
        if k < rest.len() {
            let head = slice_chars(&rest, 0, k);
            let tail = slice_chars(&rest, k + 1, rest.len());
            proof {
                let pv = views(parts@);
                assert(views(parts@.push(head)) =~= pv.push(head@));
                assert(split_on(rest@, c) == seq![head@] + split_on(tail@, c));
                assert(pv.push(head@) + split_on(tail@, c) =~= pv + (seq![head@] + split_on(tail@, c)));
            }
            parts.push(head);
            rest = tail;
        } else {
            proof {
                let pv = views(parts@);
                assert(views(parts@.push(rest)) =~= pv.push(rest@));
                assert(split_on(rest@, c) == seq![rest@]);
                assert(pv.push(rest@) =~= pv + seq![rest@]);
            }
            parts.push(rest);
            return parts;
        }
    }
}

proof fn lemma_frame_bounds(h: nat, m: nat, s: nat, f: nat)
    ensures
        ((h * 3600 + m * 60 + s) * 25 + f) * 40000 >= h + m + s + f,
{
    assert(((h * 3600 + m * 60 + s) * 25 + f) * 40000 >= h + m + s + f) by (nonlinear_arith);
}

/// Whether every character of `t` is a digit.
fn digits_only(t: &Vec<char>) -> (r: bool)
    ensures
        r == all_digits(t@),
{
    let mut i: usize = 0;
    while i < t.len()
        invariant
            i <= t@.len(),
            forall|j: int| 0 <= j < i ==> is_digit(t@[j]),
        decreases t@.len() - i,
    {
        if !char_is_digit(t[i]) {
            return false;
        }
        i = i + 1;
    }
    true
}

/// Reads a frame-coded duration `HH:MM:SS:FF` (see `frame_coded`); fails on any
/// other shape, and where the value does not fit.
pub fn parse_frame_duration(s: &str) -> (r: Option<TrackDuration>)
    ensures
        r == as_duration(frame_coded(s@)),
{
    let chars = chars_of(s);
    let parts = split_chars(&chars, ':');
    let ghost p = split_on(s@, ':');
    proof {
        assert(parts@.len() == p.len());
        assert forall|i: int| 0 <= i < parts@.len() implies parts@[i]@ == p[i] by {
            assert(views(parts@)[i] == parts@[i]@);
        }
    }
    if parts.len() != 4 {
        return None;
    }
    let mut vals: Vec<u64> = Vec::new();
    let mut i: usize = 0;
    while i < 4
        invariant
            i <= 4,
            p == split_on(s@, ':'),
            parts@.len() == 4,
            p.len() == 4,
            forall|j: int| 0 <= j < 4 ==> parts@[j]@ == p[j],
            vals@.len() == i,
            forall|j: int|
                0 <= j < i ==> p[j].len() > 0 && all_digits(p[j]) && vals@[j]
                    == digits_value(#[trigger] p[j]),
        decreases 4 - i,
    {
        let t = &parts[i];
        if t.len() == 0 || !digits_only(t) {
            proof {
                assert(t@ == p[i as int]);
                assert(!(p[i as int].len() > 0 && all_digits(p[i as int])));
                assert(frame_coded(s@) is None);
            }
            return None;
        }
        match parse_digits(t) {
            Some(v) => {
                vals.push(v);
            },
            None => {
                proof {
                    lemma_frame_bounds(
                        digits_value(p[0]),
                        digits_value(p[1]),
                        digits_value(p[2]),
                        digits_value(p[3]),
                    );
                    assert(digits_value(p[i as int]) > u64::MAX);
                    let h = digits_value(p[0]);
                    let m = digits_value(p[1]);
                    let sc = digits_value(p[2]);
                    let f = digits_value(p[3]);
                    assert(h + m + sc + f >= digits_value(p[i as int]));
                    if frame_coded(s@) is Some {
                        assert(frame_coded(s@)->0 == ((h * 3600 + m * 60 + sc) * 25 + f) * 40000);
                    }
                }
                return None;
            },
        }
        i = i + 1;
    }
    let h = vals[0] as u128;
    let m = vals[1] as u128;
    let sec = vals[2] as u128;
    let f = vals[3] as u128;
    assert(((h * 3600 + m * 60 + sec) * 25 + f) * 40000 <= u128::MAX) by (nonlinear_arith)
        requires
            h <= u64::MAX,
            m <= u64::MAX,
            sec <= u64::MAX,
            f <= u64::MAX,
    ;
    let total: u128 = ((h * 3600 + m * 60 + sec) * 25 + f) * 40000;
    if total > u64::MAX as u128 {
        None
    } else {
        Some(TrackDuration { micros: total as u64 })
    }
}

/// `s` with each `:` read as `.`.
fn colons_to_dots(s: &Vec<char>) -> (r: Vec<char>)
    ensures
        r@ == colons_as_dots(s@),
{
    let mut r: Vec<char> = Vec::new();
    let mut i: usize = 0;
    while i < s.len()
        invariant
            i <= s@.len(),
            r@ == colons_as_dots(s@).subrange(0, i as int),
        decreases s@.len() - i,
    {
        if s[i] == ':' {
            r.push('.');
        } else {
            r.push(s[i]);
        }
        proof {
            assert(r@ =~= colons_as_dots(s@).subrange(0, i + 1));
        }
        i = i + 1;
    }
    proof {
        assert(r@ =~= colons_as_dots(s@));
    }
    r
}

/// The microseconds of the digits after a decimal point (see `fraction_micros`).
fn fraction_value(f: &Vec<char>) -> (r: u64)
    requires
        all_digits(f@),
    ensures
        r == fraction_micros(f@),
        r < 1000000,
{
    let n: usize = if f.len() >= 6 {
        6
    } else {
        f.len()
    };
    let head = slice_chars(f, 0, n);
    proof {
        assert forall|i: int| 0 <= i < head@.len() implies is_digit(head@[i]) by {
            assert(head@[i] == f@[i]);
        }
        lemma_digits_bound(head@);
    }
    let mut v: u64 = match parse_digits(&head) {
        Some(v) => v,
        None => 0,
    };
    let mut k: usize = n;
    proof {
        if f@.len() < 6 {
            assert(head@ =~= f@);
        }
        assert(pow10(0) == 1);
        lemma_pow10_mono(head@.len(), 6);
        lemma_pow10_six();
        assert(all_digits(head@));
        assert(digits_value(head@) < 1000000);
        assert(v == digits_value(head@));
        assert(k - n == 0);
        assert(pow10((k - n) as nat) == 1);
        assert(v == digits_value(head@) * pow10((k - n) as nat));
    }
    while k < 6
        invariant
            n <= k <= 6,
            n == f@.len() || n == 6,
            n < 6 ==> head@ == f@,
            v == digits_value(head@) * pow10((k - n) as nat),
            v < pow10(k as nat),
        decreases 6 - k,
    {
        proof {
            assert(pow10((k + 1 - n) as nat) == 10 * pow10((k - n) as nat));
            assert(pow10((k + 1) as nat) == 10 * pow10(k as nat));
            lemma_pow10_six();
            lemma_pow10_mono(k as nat, 5);
            let dv = digits_value(head@);
            let pk = pow10((k - n) as nat);
            assert(v * 10 == dv * (10 * pk)) by (nonlinear_arith)
                requires
                    v == dv * pk,
            ;
        }
        v = v * 10;
        k = k + 1;
    }
    proof {
        lemma_pow10_six();
        assert(pow10(0) == 1);
    }
    v
}

proof fn lemma_pow10_six()
    ensures
        pow10(6) == 1000000,
{
    reveal_with_fuel(pow10, 7);
}

proof fn lemma_pow10_mono(a: nat, b: nat)
    requires
        a <= b,
    ensures
        pow10(a) <= pow10(b),
    decreases b,
{
    if a < b {
        lemma_pow10_mono(a, (b - 1) as nat);
    }
}

/// A string of `n` digits is worth less than ten to the `n`.
proof fn lemma_digits_bound(t: Seq<char>)
    requires
        all_digits(t),
    ensures
        digits_value(t) < pow10(t.len()),
    decreases t.len(),
{
    if t.len() > 0 {
        let p = t.drop_last();
        assert(all_digits(p)) by {
            assert forall|i: int| 0 <= i < p.len() implies is_digit(p[i]) by {
                assert(p[i] == t[i]);
            }
        }
        lemma_digits_bound(p);
        assert(is_digit(t[t.len() - 1]));
        assert(digit_value(t.last()) < 10);
        assert(pow10(t.len()) == 10 * pow10(p.len()));
    }
}

/// Reads a decimal-coded duration (see `decimal_coded`): `"1:23"` is 1.23
/// seconds; fails where fewer than two parts come out, and where the value does
/// not fit.
pub fn parse_decimal_duration(s: &str) -> (r: Option<TrackDuration>)
    ensures
        r == as_duration(decimal_coded(s@)),
{
    let chars = chars_of(s);
    let dotted = colons_to_dots(&chars);
    let parts = split_chars(&dotted, '.');
    let ghost p = split_on(colons_as_dots(s@), '.');
    proof {
        assert(parts@.len() == p.len());
        assert forall|i: int| 0 <= i < parts@.len() implies parts@[i]@ == p[i] by {
            assert(views(parts@)[i] == parts@[i]@);
        }
    }
    if parts.len() < 2 {
        return None;
    }
    let a = &parts[0];
    let b = &parts[1];
    if !digits_only(a) || !digits_only(b) || (a.len() == 0 && b.len() == 0) {
        return None;
    }
    let frac = fraction_value(b);
    match parse_digits(a) {
        Some(whole) => {
            let total: u128 = whole as u128 * 1000000 + frac as u128;
            if total > u64::MAX as u128 {
                None
            } else {
                Some(TrackDuration { micros: total as u64 })
            }
        },
        None => None,
    }
}

/// The digits of `n` in decimal, most significant first.
pub open spec fn decimal(n: nat) -> Seq<char>
    decreases n,
{
    if n < 10 {
        seq![digit_char(n)]
    } else {
        decimal(n / 10).push(digit_char(n % 10))
    }
}

/// The digit character of a value below ten.
pub open spec fn digit_char(d: nat) -> char {
    (d + '0' as nat) as char
}

/// Whole hundredths of a second, rounded half up.
pub open spec fn hundredths(d: TrackDuration) -> nat {
    ((d.micros + 5000) / 10000) as nat
}

/// A duration shown as whole seconds, `:`, and two digits of hundredths.
pub open spec fn duration_text(d: TrackDuration) -> Seq<char> {
    let h = hundredths(d);
    decimal(h / 100).push(':').push(digit_char((h % 100) / 10)).push(digit_char(h % 10))
}

/// The digit character of a value below ten.
fn digit_of(d: u64) -> (c: char)
    requires
        d < 10,
    ensures
        c == digit_char(d as nat),
{
    match d {
        0 => '0',
        1 => '1',
        2 => '2',
        3 => '3',
        4 => '4',
        5 => '5',
        6 => '6',
        7 => '7',
        8 => '8',
        _ => '9',
    }
}

/// The digits of `n` in decimal.
pub fn decimal_chars(n: u64) -> (r: Vec<char>)
    ensures
        r@ == decimal(n as nat),
    decreases n,
{
    if n < 10 {
        let mut r: Vec<char> = Vec::new();
        r.push(digit_of(n));
        proof {
            assert(r@ =~= seq![digit_char(n as nat)]);
        }
        r
    } else {
        let mut r = decimal_chars(n / 10);
        r.push(digit_of(n % 10));
        r
    }
}

impl TrackDuration {
    /// The duration as `seconds:hundredths`, rounded to the nearest hundredth:
    /// 43.48 seconds show as `43:48`.
    pub fn format_duration(&self) -> (r: String)
        ensures
            r@ == duration_text(*self),
    {
        let h: u64 = self.micros / 10000 + if self.micros % 10000 >= 5000 {
            1
        } else {
            0
        };
        assert(h == hundredths(*self));
        let mut v = decimal_chars(h / 100);
        v.push(':');
        v.push(digit_of((h % 100) / 10));
        v.push(digit_of(h % 10));
        string_of(&v)
    }
}

} // verus!
