//! Decimal numerals: the plain unsigned integers of HTTP headers, and the
//! floating-point numerals (`16`, `2.39`, `1e1`, `inf`) that name the sides of
//! aspect ratios such as `16:9` or `2.39:1`.

use vstd::prelude::*;
use crate::natural::{
    digits_ok, from_digit_chars, le, lemma_pow10_add, lemma_pow10_monotone, lemma_pow10_positive,
    lemma_val_bound, one, shift, val,
};
use crate::text::sub_chars;

verus! {

pub open spec fn is_digit(c: char) -> bool {
    '0' <= c && c <= '9'
}

pub open spec fn digit_value(c: char) -> nat {
    (c as int - '0' as int) as nat
}

/// Every character of `s` is an ASCII digit.
pub open spec fn all_digits(s: Seq<char>) -> bool {
    forall|i: int| 0 <= i < s.len() ==> is_digit(#[trigger] s[i])
}

/// The number that the digits of `s` spell in base ten.
pub open spec fn digits_value(s: Seq<char>) -> nat
    decreases s.len(),
{
    if s.len() == 0 {
        0
    } else {
        digits_value(s.drop_last()) * 10 + digit_value(s.last())
    }
}

/// `10` to the power `k`.
pub open spec fn pow10(k: nat) -> nat
    decreases k,
{
    if k == 0 {
        1
    } else {
        10 * pow10((k - 1) as nat)
    }
}

/// An unsigned integer as `str::parse::<u64>` reads it before the range check:
/// an optional `+`, then one or more digits.
pub open spec fn unsigned_numeral(s: Seq<char>) -> Option<nat> {
    let body = if s.len() > 0 && s[0] == '+' {
        s.drop_first()
    } else {
        s
    };
    if body.len() > 0 && all_digits(body) {
        Some(digits_value(body))
    } else {
        None
    }
}

/// Left-to-right reading of a run of digits with at most one `.`:
/// the value of all digits read, how many digits were read, and, once a `.`
/// was read, how many digits followed it. `None` at any other character.
pub open spec fn scan_decimal(s: Seq<char>) -> Option<(nat, nat, Option<nat>)>
    decreases s.len(),
{
    if s.len() == 0 {
        Some((0, 0, None))
    } else {
        match scan_decimal(s.drop_last()) {
            None => None,
            Some((v, n, f)) => {
                let c = s.last();
                if is_digit(c) {
                    Some(
                        (
                            v * 10 + digit_value(c),
                            n + 1,
                            match f {
                                Some(k) => Some(k + 1),
                                None => None,
                            },
                        ),
                    )
                } else if c == '.' && f is None {
                    Some((v, n, Some(0)))
                } else {
                    None
                }
            },
        }
    }
}

/// The sign of a numeral and the rest of it.
pub open spec fn sign_split(s: Seq<char>) -> (bool, Seq<char>) {
    if s.len() > 0 && (s[0] == '+' || s[0] == '-') {
        (s[0] == '-', s.drop_first())
    } else {
        (false, s)
    }
}

proof fn lemma_digits_value_step(s: Seq<char>, i: int)
    requires
        0 <= i < s.len(),
    ensures
        digits_value(s.take(i + 1)) == digits_value(s.take(i)) * 10 + digit_value(s[i]),
{
    assert(s.take(i + 1).drop_last() =~= s.take(i));
}

proof fn lemma_scan_step(s: Seq<char>, i: int)
    requires
        0 <= i < s.len(),
    ensures
        scan_decimal(s.take(i + 1)) == (match scan_decimal(s.take(i)) {
            None => None,
            Some((v, n, f)) => {
                let c = s[i];
                if is_digit(c) {
                    Some(
                        (
                            v * 10 + digit_value(c),
                            n + 1,
                            match f {
                                Some(k) => Some(k + 1),
                                None => None,
                            },
                        ),
                    )
                } else if c == '.' && f is None {
                    Some((v, n, Some(0)))
                } else {
                    None
                }
            },
        }),
{
    assert(s.take(i + 1).drop_last() =~= s.take(i));
}

/// Once a prefix fails, every longer prefix fails; the value never decreases.
proof fn lemma_scan_monotone(s: Seq<char>, i: int, j: int)
    requires
        0 <= i <= j <= s.len(),
        scan_decimal(s.take(j)) is Some,
    ensures
        scan_decimal(s.take(i)) is Some,
        scan_decimal(s.take(i)).unwrap().0 <= scan_decimal(s.take(j)).unwrap().0,
    decreases j - i,
{
    if i < j {
        lemma_scan_step(s, j - 1);
        lemma_scan_monotone(s, i, j - 1);
    }
}

/// Reads an unsigned integer as `str::parse::<u64>` does.
pub fn parse_u64(s: &str) -> (r: Option<u64>)
    ensures
        r == (match unsigned_numeral(s@) {
            Some(v) => if v <= u64::MAX {
                Some(v as u64)
            } else {
                None
            },
            None => None,
        }),
{
    let cs = crate::text::chars_of(s);
    parse_u64_chars(cs.as_slice())
}

/// Reads the characters of an unsigned integer as `str::parse::<u64>` does.
pub fn parse_u64_chars(cs: &[char]) -> (r: Option<u64>)
    ensures
        r == (match unsigned_numeral(cs@) {
            Some(v) => if v <= u64::MAX {
                Some(v as u64)
            } else {
                None
            },
            None => None,
        }),
{
    let n = cs.len();
    let mut start: usize = 0;
    if n > 0 && cs[0] == '+' {
        start = 1;
    }
    let ghost body = cs@.skip(start as int);
    assert(body =~= (if cs@.len() > 0 && cs@[0] == '+' {
        cs@.drop_first()
    } else {
        cs@
    }));
    if start == n {
        return None;
    }
    let mut v: u64 = 0;
    let mut i: usize = start;
    while i < n
        invariant
            start <= i <= n,
            n == cs@.len(),
            body == cs@.skip(start as int),
            body.len() > 0,
            unsigned_numeral(cs@) == (if all_digits(body) {
                Some(digits_value(body))
            } else {
                None::<nat>
            }),
            all_digits(body.take(i - start)),
            v as nat == digits_value(body.take(i - start)),
        decreases n - i,
    {
        let c = cs[i];
        if !('0' <= c && c <= '9') {
            assert(body[i - start] == c);
            assert(!all_digits(body));
            return None;
        }
        proof {
            lemma_digits_value_step(body, i - start);
        }
        let d = (c as u32 - '0' as u32) as u128;
        let t: u128 = (v as u128) * 10 + d;
        if t > u64::MAX as u128 {
            proof {
                assert(d == digit_value(c));
                assert(digits_value(body.take(i - start + 1)) > u64::MAX);
                lemma_digits_prefix_le(body, i - start + 1);
                assert(body.len() > 0);
                assert(unsigned_numeral(cs@) is Some ==> all_digits(body));
            }
            return None;
        }
        v = t as u64;
        i = i + 1;
        assert(all_digits(body.take(i - start)));
    }
    assert(body.take(i - start) =~= body);
    Some(v)
}

/// A prefix of a digit string never spells a larger number than the whole.
proof fn lemma_digits_prefix_le(s: Seq<char>, i: int)
    requires
        0 <= i <= s.len(),
    ensures
        all_digits(s) ==> digits_value(s.take(i)) <= digits_value(s),
    decreases s.len() - i,
{
    if i < s.len() {
        lemma_digits_prefix_le(s, i + 1);
        lemma_digits_value_step(s, i);
    } else {
        assert(s.take(i) =~= s);
    }
}

pub open spec fn signed(negative: bool, m: int) -> int {
    if negative {
        -m
    } else {
        m
    }
}

/// The sides of an aspect ratio are computed exactly while their magnitude
/// lies between `10^-EXACT_RANGE` and `10^(EXACT_RANGE + 1)`, a range wider
/// than that of `f64`; beyond it they read, as with `f64`, as infinite or zero.
pub const EXACT_RANGE: usize = 400;

/// Exponents beyond this magnitude only matter by their sign.
const EXPONENT_CAP: u128 = 100_000_000_000_000_000_000;

pub open spec fn is_exp_marker(c: char) -> bool {
    c == 'e' || c == 'E'
}

/// `p` is the position of the only exponent marker of `s`.
pub open spec fn only_marker_at(s: Seq<char>, p: int) -> bool {
    &&& 0 <= p < s.len()
    &&& is_exp_marker(s[p])
    &&& forall|j: int| 0 <= j < s.len() && j != p ==> !is_exp_marker(#[trigger] s[j])
}

/// The mantissa of a number and its exponent, if it has one.
pub open spec fn exp_split(s: Seq<char>) -> Option<(Seq<char>, Option<Seq<char>>)> {
    if exists|p: int| only_marker_at(s, p) {
        let p = choose|p: int| only_marker_at(s, p);
        Some((s.take(p), Some(s.skip(p + 1))))
    } else if forall|j: int| 0 <= j < s.len() ==> !is_exp_marker(#[trigger] s[j]) {
        Some((s, None))
    } else {
        None
    }
}

/// An exponent `[+-]digits`.
pub open spec fn exponent_value(s: Seq<char>) -> Option<int> {
    let (neg, body) = sign_split(s);
    if body.len() > 0 && all_digits(body) {
        Some(signed(neg, digits_value(body) as int))
    } else {
        None
    }
}

/// An unsigned number `digits[.digits][(e|E)[+-]digits]`, with at least one
/// digit before the exponent, as `(d, x)` for the value `d * 10^x`.
pub open spec fn number_value(s: Seq<char>) -> Option<(nat, int)> {
    match exp_split(s) {
        Some((m, e)) => match scan_decimal(m) {
            Some((v, n, f)) => if n >= 1 {
                let k: int = match f {
                    Some(k) => k as int,
                    None => 0,
                };
                match e {
                    None => Some((v, -k)),
                    Some(es) => match exponent_value(es) {
                        Some(ev) => Some((v, ev - k)),
                        None => None,
                    },
                }
            } else {
                None
            },
            None => None,
        },
        None => None,
    }
}

/// `s` spells a word whose letters are `lower[i]` or `upper[i]`.
pub open spec fn spells(s: Seq<char>, lower: Seq<char>, upper: Seq<char>) -> bool {
    &&& s.len() == lower.len()
    &&& s.len() == upper.len()
    &&& forall|i: int| 0 <= i < s.len() ==> #[trigger] s[i] == lower[i] || s[i] == upper[i]
}

/// `10^x` for `x >= 0`, else `1`.
pub open spec fn pow10_at(x: int) -> nat {
    pow10(
        if x >= 0 {
            x as nat
        } else {
            0
        },
    )
}

/// `10^-x` for `x < 0`, else `1`.
pub open spec fn pow10_below(x: int) -> nat {
    pow10(
        if x < 0 {
            (-x) as nat
        } else {
            0
        },
    )
}

/// A side `±d * 10^x` as a fraction `(num, den)` with `den >= 0`: exact where
/// `10^-EXACT_RANGE <= d * 10^x < 10^(EXACT_RANGE + 1)`; above, infinite,
/// `(±1, 0)`; below, zero, `(0, 1)`.
pub open spec fn side_fraction(negative: bool, d: nat, x: int) -> (int, int) {
    let a = d * pow10_at(x);
    let b = pow10_below(x);
    let r = EXACT_RANGE as nat;
    if d == 0 {
        (0, 1)
    } else if a >= pow10(r + 1) * b {
        (signed(negative, 1), 0)
    } else if a * pow10(r) < b {
        (0, 1)
    } else {
        (signed(negative, a as int), b as int)
    }
}

/// A side as `f64::from_str` reads it: a sign, then `inf`, `infinity` or
/// `nan` in any case, or a number. As a fraction `(num, den)`: `(±1, 0)` when
/// infinite, `(0, 0)` for `nan`, else [`side_fraction`].
pub open spec fn float_fraction(s: Seq<char>) -> Option<(int, int)> {
    let (neg, body) = sign_split(s);
    if spells(body, "inf"@, "INF"@) || spells(body, "infinity"@, "INFINITY"@) {
        Some((signed(neg, 1), 0))
    } else if spells(body, "nan"@, "NAN"@) {
        Some((0, 0))
    } else {
        match number_value(body) {
            Some((d, x)) => Some(side_fraction(neg, d, x)),
            None => None,
        }
    }
}

/// A fraction `(±num, ±den)` held in digits.
pub struct Fraction {
    pub neg_num: bool,
    pub num: Vec<u8>,
    pub neg_den: bool,
    pub den: Vec<u8>,
}

impl Fraction {
    pub open spec fn wf(&self) -> bool {
        digits_ok(self.num@) && digits_ok(self.den@)
    }

    pub open spec fn value(&self) -> (int, int) {
        (signed(self.neg_num, val(self.num@) as int), signed(self.neg_den, val(self.den@) as int))
    }
}

fn zero_fraction() -> (f: Fraction)
    ensures
        f.wf(),
        !f.neg_den,
        f.value() == (0int, 1int),
{
    let num: Vec<u8> = Vec::new();
    assert(val(num@) == 0);
    Fraction { neg_num: false, num, neg_den: false, den: one() }
}

fn infinite_fraction(negative: bool) -> (f: Fraction)
    ensures
        f.wf(),
        !f.neg_den,
        f.value() == (signed(negative, 1), 0int),
{
    let den: Vec<u8> = Vec::new();
    assert(val(den@) == 0);
    Fraction { neg_num: negative, num: one(), neg_den: false, den }
}

fn undefined_fraction() -> (f: Fraction)
    ensures
        f.wf(),
        !f.neg_den,
        f.value() == (0int, 0int),
{
    let num: Vec<u8> = Vec::new();
    let den: Vec<u8> = Vec::new();
    assert(val(num@) == 0 && val(den@) == 0);
    Fraction { neg_num: false, num, neg_den: false, den }
}

fn spells_exec(s: &[char], lower: &str, upper: &str) -> (r: bool)
    ensures
        r == spells(s@, lower@, upper@),
{
    let lo = crate::text::chars_of(lower);
    let up = crate::text::chars_of(upper);
    if s.len() != lo.len() || s.len() != up.len() {
        return false;
    }
    let n: usize = s.len();
    for i in 0..n
        invariant
            n == s@.len(),
            n == lo@.len(),
            n == up@.len(),
            lo@ == lower@,
            up@ == upper@,
            forall|j: int| 0 <= j < i ==> #[trigger] s@[j] == lo@[j] || s@[j] == up@[j],
    {
        if !(s[i] == lo[i] || s[i] == up[i]) {
            return false;
        }
    }
    true
}

/// Where the exponent marker of `s` is: `None` when there are two or more.
fn exp_marker(s: &[char]) -> (r: Option<Option<usize>>)
    ensures
        r is None ==> exp_split(s@) is None,
        r matches Some(None) ==> exp_split(s@) == Some((s@, None::<Seq<char>>)),
        r matches Some(Some(p)) ==> only_marker_at(s@, p as int) && exp_split(s@) == Some(
            (s@.take(p as int), Some(s@.skip(p + 1))),
        ),
{
    let n: usize = s.len();
    let mut found: Option<usize> = None;
    for i in 0..n
        invariant
            n == s@.len(),
            found matches Some(k) ==> k < i && is_exp_marker(s@[k as int]) && forall|j: int|
                0 <= j < i && j != k ==> !is_exp_marker(#[trigger] s@[j]),
            found is None ==> forall|j: int| 0 <= j < i ==> !is_exp_marker(#[trigger] s@[j]),
    {
        let c: char = s[i];
        if c == 'e' || c == 'E' {
            if found.is_some() {
                proof {
                    let k = found->0 as int;
                    assert(is_exp_marker(s@[k]));
                    assert(is_exp_marker(s@[i as int]));
                    assert forall|m: int| !only_marker_at(s@, m) by {
                        if only_marker_at(s@, m) {
                            assert(k == m);
                            assert(i == m);
                        }
                    }
                }
                return None;
            }
            found = Some(i);
        }
    }
    match found {
        Some(p) => {
            assert(only_marker_at(s@, p as int));
            proof {
                let q = choose|q: int| only_marker_at(s@, q);
                assert(only_marker_at(s@, q));
                if q != p as int {
                    assert(is_exp_marker(s@[q]));
                }
            }
            Some(Some(p))
        },
        None => {
            assert forall|m: int| !only_marker_at(s@, m) by {}
            Some(None)
        },
    }
}

/// The digits of `digits[.digits]` and how many follow the `.`.
fn scan_mantissa(m: &[char]) -> (r: Option<(Vec<char>, usize)>)
    ensures
        r is None ==> !(scan_decimal(m@) matches Some((_, n, _)) && n >= 1),
        r matches Some((ds, k)) ==> {
            &&& all_digits(ds@)
            &&& ds.len() >= 1
            &&& scan_decimal(m@) matches Some((v, n, f))
            &&& v == digits_value(ds@)
            &&& n == ds.len()
            &&& k == (match f {
                Some(f) => f,
                None => 0,
            })
        },
{
    let n: usize = m.len();
    let mut ds: Vec<char> = Vec::new();
    let mut frac: Option<usize> = None;
    assert(m@.take(0) =~= Seq::<char>::empty());
    assert(digits_value(ds@) == 0);
    for i in 0..n
        invariant
            n == m@.len(),
            all_digits(ds@),
            ds.len() <= i,
            frac matches Some(k) ==> k <= i,
            scan_decimal(m@.take(i as int)) == Some(
                (
                    digits_value(ds@),
                    ds.len() as nat,
                    match frac {
                        Some(k) => Some(k as nat),
                        None => None,
                    },
                ),
            ),
    {
        let c: char = m[i];
        proof {
            lemma_scan_step(m@, i as int);
            assert(m@[i as int] == c);
        }
        if '0' <= c && c <= '9' {
            proof {
                assert(ds@.push(c).drop_last() =~= ds@);
            }
            ds.push(c);
            frac = match frac {
                Some(k) => Some(k + 1),
                None => None,
            };
        } else if c == '.' && frac.is_none() {
            frac = Some(0);
        } else {
            proof {
                if scan_decimal(m@) is Some {
                    assert(m@.take(n as int) =~= m@);
                    lemma_scan_monotone(m@, i + 1, n as int);
                }
            }
            return None;
        }
    }
    assert(m@.take(n as int) =~= m@);
    if ds.len() == 0 {
        return None;
    }
    let k: usize = match frac {
        Some(k) => k,
        None => 0,
    };
    Some((ds, k))
}

spec fn capped(v: nat) -> nat {
    if v > EXPONENT_CAP {
        (EXPONENT_CAP + 1) as nat
    } else {
        v
    }
}

/// An exponent `[+-]digits`: its sign and its magnitude, capped.
fn read_exponent(es: &[char]) -> (r: Option<(bool, u128)>)
    ensures
        r is None ==> exponent_value(es@) is None,
        r matches Some((neg, v)) ==> exponent_value(es@) == Some(
            signed(neg, digits_value(sign_split(es@).1) as int),
        ) && v as nat == capped(digits_value(sign_split(es@).1)),
{
    let n: usize = es.len();
    let mut start: usize = 0;
    let mut neg = false;
    if n > 0 && (es[0] == '+' || es[0] == '-') {
        start = 1;
        neg = es[0] == '-';
    }
    let body = sub_chars(es, start, n);
    assert(sign_split(es@) == (neg, body@)) by {
        if es@.len() > 0 && (es@[0] == '+' || es@[0] == '-') {
            assert(es@.drop_first() =~= body@);
        } else {
            assert(es@ =~= body@);
        }
    }
    if body.len() == 0 {
        return None;
    }
    let mut v: u128 = 0;
    assert(body@.take(0) =~= Seq::<char>::empty());
    for i in 0..body.len()
        invariant
            sign_split(es@) == (neg, body@),
            body.len() > 0,
            all_digits(body@.take(i as int)),
            v as nat == capped(digits_value(body@.take(i as int))),
    {
        let c: char = body[i];
        if !('0' <= c && c <= '9') {
            assert(!all_digits(body@)) by {
                assert(body@[i as int] == c);
            }
            return None;
        }
        proof {
            lemma_digits_value_step(body@, i as int);
        }
        let d: u128 = (c as u32 - '0' as u32) as u128;
        if v <= EXPONENT_CAP {
            let t: u128 = v * 10 + d;
            v = if t > EXPONENT_CAP {
                EXPONENT_CAP + 1
            } else {
                t
            };
        }
        assert(all_digits(body@.take(i + 1))) by {
            assert forall|j: int| 0 <= j < i + 1 implies is_digit(#[trigger] body@.take(i + 1)[j]) by {
                if j < i {
                    assert(body@.take(i + 1)[j] == body@.take(i as int)[j]);
                }
            }
        }
    }
    assert(body@.take(body.len() as int) =~= body@);
    Some((neg, v))
}

/// Whether the computed exponent `x` stands for `xx` as far as
/// [`side_fraction`] is concerned, for a mantissa of `n` digits.
pub open spec fn near_exponent(x: int, xx: int, n: nat) -> bool {
    let r = EXACT_RANGE as int;
    &&& (x > r <==> xx > r)
    &&& (x < -(r + n) <==> xx < -(r + n))
    &&& (-(r + n) <= x <= r ==> x == xx)
}

/// A number: its mantissa digits and its exponent.
fn parse_number(s: &[char]) -> (r: Option<(Vec<char>, i128)>)
    ensures
        r is None ==> number_value(s@) is None,
        r matches Some((ds, x)) ==> {
            &&& all_digits(ds@)
            &&& number_value(s@) matches Some((d, xx))
            &&& d == digits_value(ds@)
            &&& near_exponent(x as int, xx, ds.len() as nat)
        },
{
    let split = exp_marker(s);
    let (mantissa, exponent): (Vec<char>, Option<Vec<char>>) = match split {
        None => {
            return None;
        },
        Some(None) => (sub_chars(s, 0, s.len()), None),
        Some(Some(p)) => {
            assert(p < s.len());
            (sub_chars(s, 0, p), Some(sub_chars(s, p + 1, s.len())))
        },
    };
    proof {
        assert(exp_split(s@) matches Some((m, e)) && m == mantissa@ && (match e {
            None => exponent is None,
            Some(es) => exponent matches Some(ev) && ev@ == es,
        })) by {
            if let Some(Some(p)) = split {
                assert(mantissa@ =~= s@.take(p as int));
                assert(exponent->0@ =~= s@.skip(p + 1));
            } else {
                assert(mantissa@ =~= s@);
            }
        }
    }
    let (ds, k) = match scan_mantissa(mantissa.as_slice()) {
        Some(x) => x,
        None => {
            return None;
        },
    };
    let (neg, v): (bool, u128) = match exponent {
        None => (false, 0),
        Some(es) => match read_exponent(es.as_slice()) {
            Some(x) => x,
            None => {
                return None;
            },
        },
    };
    let e: i128 = if neg {
        -(v as i128)
    } else {
        v as i128
    };
    let x: i128 = e - k as i128;
    proof {
        let n = ds.len() as int;
        let r = EXACT_RANGE as int;
        assert(n <= usize::MAX);
        assert(k <= usize::MAX);
        assert(usize::MAX < 0x1_0000_0000_0000_0000);
        if let Some((d, xx)) = number_value(s@) {
            if v <= EXPONENT_CAP {
                assert(x == xx);
            } else {
                assert(-(r + n) > -(EXPONENT_CAP as int));
            }
        }
    }
    Some((ds, x))
}

/// A side `±digits * 10^xx` as [`side_fraction`] reads it.
fn side_value(negative: bool, ds: &Vec<char>, x: i128, Ghost(xx): Ghost<int>) -> (f: Fraction)
    requires
        all_digits(ds@),
        near_exponent(x as int, xx, ds.len() as nat),
    ensures
        f.wf(),
        !f.neg_den,
        f.value() == side_fraction(negative, digits_value(ds@), xx),
{
    let d = from_digit_chars(ds.as_slice());
    let ghost dv = digits_value(ds@);
    let ghost r = EXACT_RANGE as nat;
    let n: usize = ds.len();
    let empty: Vec<u8> = Vec::new();
    assert(val(empty@) == 0);
    if le(&d, &empty) {
        return zero_fraction();
    }
    let range: i128 = EXACT_RANGE as i128;
    if x > range {
        proof {
            let xn = xx as nat;
            lemma_pow10_monotone(r + 1, xn);
            assert(dv * pow10(xn) >= pow10(xn)) by (nonlinear_arith)
                requires
                    dv >= 1,
            ;
            assert(pow10(0) == 1);
            assert(pow10_below(xx) == 1);
            assert(pow10(r + 1) * 1 == pow10(r + 1));
        }
        return infinite_fraction(negative);
    }
    if x < -(range + n as i128) {
        proof {
            let m = (-xx) as nat;
            lemma_val_bound(d@);
            lemma_pow10_add(n as nat, r);
            lemma_pow10_monotone(n as nat + r, m);
            lemma_pow10_monotone(n as nat, n as nat + r);
            lemma_pow10_positive(r);
            lemma_pow10_positive(r + 1);
            assert(pow10(0) == 1);
            assert(pow10_at(xx) == 1);
            assert(pow10_below(xx) == pow10(m));
            let pn = pow10(n as nat);
            let pr = pow10(r);
            assert(dv * pr < pn * pr) by (nonlinear_arith)
                requires
                    dv < pn,
                    pr >= 1,
            ;
            assert(dv < pow10(r + 1) * pow10(m)) by (nonlinear_arith)
                requires
                    dv < pn,
                    pn <= pow10(m),
                    pow10(r + 1) >= 1,
            ;
            assert(xx < -(r as int + n as int));
            assert(dv * pow10_at(xx) == dv) by (nonlinear_arith)
                requires
                    pow10_at(xx) == 1,
            ;
            assert(!(dv * pow10_at(xx) >= pow10(r + 1) * pow10_below(xx)));
            assert(pow10((n + r) as nat) == pn * pr);
            assert(dv * pow10_at(xx) * pow10(r) < pow10_below(xx));
        }
        return zero_fraction();
    }
    assert(x as int == xx);
    let xp: usize = if x >= 0 {
        x as usize
    } else {
        0
    };
    let (xn1, xn2): (usize, usize) = if x < 0 {
        let t: i128 = -x;
        if t > n as i128 {
            (n, (t - n as i128) as usize)
        } else {
            (t as usize, 0)
        }
    } else {
        (0, 0)
    };
    let a = shift(&d, xp);
    let b0 = shift(&one(), xn1);
    let b = shift(&b0, xn2);
    proof {
        lemma_pow10_add(xn1 as nat, xn2 as nat);
        assert(pow10_at(xx) == pow10(xp as nat));
        assert(pow10_below(xx) == pow10((xn1 + xn2) as nat));
        assert(val(b0@) == pow10(xn1 as nat));
        assert(val(b@) == pow10_below(xx));
    }
    let big = shift(&b, EXACT_RANGE + 1);
    assert(val(big@) == val(b@) * pow10(r + 1));
    assert(val(big@) == pow10(r + 1) * val(b@)) by (nonlinear_arith)
        requires
            val(big@) == val(b@) * pow10(r + 1),
    ;
    if le(&big, &a) {
        return infinite_fraction(negative);
    }
    let ar = shift(&a, EXACT_RANGE);
    if le(&b, &ar) {
        return Fraction { neg_num: negative, num: a, neg_den: false, den: b };
    }
    zero_fraction()
}

/// Reads a side of an aspect ratio as [`float_fraction`] does.
pub fn parse_float(cs: &[char]) -> (r: Option<Fraction>)
    ensures
        r matches Some(f) ==> f.wf() && !f.neg_den && float_fraction(cs@) == Some(f.value()),
        r is None ==> float_fraction(cs@) is None,
{
    let n: usize = cs.len();
    let mut start: usize = 0;
    let mut neg = false;
    if n > 0 && (cs[0] == '+' || cs[0] == '-') {
        start = 1;
        neg = cs[0] == '-';
    }
    let body = sub_chars(cs, start, n);
    assert(sign_split(cs@) == (neg, body@)) by {
        if cs@.len() > 0 && (cs@[0] == '+' || cs@[0] == '-') {
            assert(cs@.drop_first() =~= body@);
        } else {
            assert(cs@ =~= body@);
        }
    }
    if spells_exec(body.as_slice(), "inf", "INF") || spells_exec(
        body.as_slice(),
        "infinity",
        "INFINITY",
    ) {
        return Some(infinite_fraction(neg));
    }
    if spells_exec(body.as_slice(), "nan", "NAN") {
        return Some(undefined_fraction());
    }
    match parse_number(body.as_slice()) {
        Some((ds, x)) => Some(side_value(neg, &ds, x, Ghost(number_value(body@).unwrap().1))),
        None => None,
    }
}

} // verus!
