//! Choosing the allowed `aspect_ratio` value that best fits a requested size.
//!
//! An allowed value `W:H` has its sides read as `f64::from_str` reads them
//! (`16`, `2.39`, `1e1`, `inf`), but exactly, as fractions of any size; the
//! distance `|W/H - width/height|` is compared as a fraction, never rounded.

use vstd::prelude::*;
use crate::natural::{abs_diff, digits_ok, le, mul_small, product, sum, val};
use crate::numeral::{float_fraction, parse_float, signed, Fraction};
use crate::text::{chars_of, str_eq, sub_chars, views};

verus! {

/// `k` is the position of the only `:` in `r`.
pub open spec fn only_colon_at(r: Seq<char>, k: int) -> bool {
    &&& 0 <= k < r.len()
    &&& r[k] == ':'
    &&& forall|j: int| 0 <= j < r.len() && j != k ==> r[j] != ':'
}

/// The two sides of `r` when it holds exactly one `:`.
pub open spec fn ratio_sides(r: Seq<char>) -> Option<(Seq<char>, Seq<char>)> {
    if exists|k: int| only_colon_at(r, k) {
        let k = choose|k: int| only_colon_at(r, k);
        Some((r.take(k), r.skip(k + 1)))
    } else {
        None
    }
}

pub open spec fn abs(x: int) -> nat {
    if x < 0 {
        (-x) as nat
    } else {
        x as nat
    }
}

/// The value of a `W:H` string as a fraction `(num, den)`, its sides read as
/// [`float_fraction`] reads them: `num/den == W/H`, and `den == 0` where the
/// quotient is infinite or undefined. `None` when `r` is not `W:H` with two
/// numerals.
#[verifier::opaque]
pub open spec fn ratio_fraction(r: Seq<char>) -> Option<(int, int)> {
    match ratio_sides(r) {
        Some((a, b)) => match (float_fraction(a), float_fraction(b)) {
            (Some((p1, q1)), Some((p2, q2))) => Some((p1 * q2, p2 * q1)),
            _ => None,
        },
        None => None,
    }
}

/// The distance `|num/den - width/height|` as a fraction `(p, q)`, `q > 0`;
/// `None` stands for an infinite distance (`den == 0` or `height == 0`).
pub open spec fn distance(f: (int, int), width: nat, height: nat) -> Option<(nat, nat)> {
    if f.1 == 0 || height == 0 {
        None
    } else {
        Some((abs(f.0 * height - f.1 * width), abs(f.1) * height))
    }
}

/// Distance `d1` is not larger than distance `d2`.
pub open spec fn no_farther(d1: Option<(nat, nat)>, d2: Option<(nat, nat)>) -> bool {
    match (d1, d2) {
        (_, None) => true,
        (None, Some(_)) => false,
        (Some((p1, q1)), Some((p2, q2))) => p1 * q2 <= p2 * q1,
    }
}

/// The distance of an allowed value from `width/height`, when it is a ratio.
pub open spec fn candidate(r: Seq<char>, width: nat, height: nat) -> Option<Option<(nat, nat)>> {
    match ratio_fraction(r) {
        Some(f) => Some(distance(f, width, height)),
        None => None,
    }
}

/// `allowed[i]` is the first of the ratios closest to `width/height`.
pub open spec fn is_closest(allowed: Seq<Seq<char>>, width: nat, height: nat, i: int) -> bool {
    &&& 0 <= i < allowed.len()
    &&& candidate(allowed[i], width, height) is Some
    &&& forall|j: int|
        0 <= j < allowed.len() && (#[trigger] candidate(allowed[j], width, height)) is Some
            ==> no_farther(
            candidate(allowed[i], width, height)->0,
            candidate(allowed[j], width, height)->0,
        )
    &&& forall|j: int|
        0 <= j < i && (#[trigger] candidate(allowed[j], width, height)) is Some ==> !no_farther(
            candidate(allowed[j], width, height)->0,
            candidate(allowed[i], width, height)->0,
        )
}

pub open spec fn allows_custom(allowed: Seq<Seq<char>>) -> bool {
    exists|i: int| 0 <= i < allowed.len() && allowed[i] == "custom"@
}

/// Some allowed value has the form `W:H`.
pub open spec fn has_ratio(allowed: Seq<Seq<char>>, width: nat, height: nat) -> bool {
    exists|i: int| 0 <= i < allowed.len() && (#[trigger] candidate(allowed[i], width, height)) is Some
}

/// The value to send as `aspect_ratio`: `custom` when allowed, else the first
/// closest `W:H` value, else `1:1`.
pub open spec fn best_ratio(allowed: Seq<Seq<char>>, width: nat, height: nat) -> Seq<char> {
    if allows_custom(allowed) {
        "custom"@
    } else if exists|i: int| is_closest(allowed, width, height, i) {
        allowed[choose|i: int| is_closest(allowed, width, height, i)]
    } else {
        "1:1"@
    }
}

/// A distance as computed: `near` is false for an infinite distance, else the
/// distance is `diff / (den * height)`.
struct Closeness {
    near: bool,
    diff: Vec<u8>,
    den: Vec<u8>,
}

impl Closeness {
    spec fn matches(self, d: Option<(nat, nat)>, height: nat) -> bool {
        &&& digits_ok(self.diff@)
        &&& digits_ok(self.den@)
        &&& if self.near {
            &&& d == Some((val(self.diff@), val(self.den@) * height))
            &&& val(self.den@) > 0
            &&& height > 0
        } else {
            d is None
        }
    }
}

pub proof fn lemma_no_farther_total(d1: Option<(nat, nat)>, d2: Option<(nat, nat)>)
    ensures
        no_farther(d1, d2) || no_farther(d2, d1),
{
}

pub proof fn lemma_no_farther_transitive(
    d1: Option<(nat, nat)>,
    d2: Option<(nat, nat)>,
    d3: Option<(nat, nat)>,
)
    requires
        d2 matches Some((p, q)) ==> q > 0,
        no_farther(d1, d2),
        no_farther(d2, d3),
    ensures
        no_farther(d1, d3),
{
    match (d1, d2, d3) {
        (Some((p1, q1)), Some((p2, q2)), Some((p3, q3))) => {
            assert(p1 * q3 <= p3 * q1) by (nonlinear_arith)
                requires
                    p1 * q2 <= p2 * q1,
                    p2 * q3 <= p3 * q2,
                    q2 > 0,
                    p1 >= 0,
                    p2 >= 0,
                    p3 >= 0,
                    q1 >= 0,
                    q3 >= 0,
            {
                assert(p1 * q2 * q3 <= p2 * q1 * q3);
                assert(p2 * q3 * q1 <= p3 * q2 * q1);
                assert(q2 * (p1 * q3) <= q2 * (p3 * q1));
            }
        },
        _ => {},
    }
}

proof fn lemma_candidate_positive(r: Seq<char>, width: nat, height: nat)
    ensures
        candidate(r, width, height) matches Some(Some((p, q))) ==> q > 0,
{
    if let Some(f) = ratio_fraction(r) {
        if f.1 != 0 && height != 0 {
            assert(abs(f.1) * height > 0) by (nonlinear_arith)
                requires
                    abs(f.1) > 0,
                    height > 0,
            ;
        }
    }
}

/// Whether distance `c1` is not larger than distance `c2`.
fn closeness_le(c1: &Closeness, c2: &Closeness, Ghost(d1): Ghost<Option<(nat, nat)>>, Ghost(d2): Ghost<Option<(nat, nat)>>, Ghost(h): Ghost<nat>) -> (r: bool)
    requires
        c1.matches(d1, h),
        c2.matches(d2, h),
    ensures
        r == no_farther(d1, d2),
{
    if !c2.near {
        return true;
    }
    if !c1.near {
        return false;
    }
    let lhs = product(&c1.diff, &c2.den);
    let rhs = product(&c2.diff, &c1.den);
    let r = le(&lhs, &rhs);
    proof {
        let p1 = val(c1.diff@) as int;
        let p2 = val(c2.diff@) as int;
        let q1 = val(c1.den@) as int;
        let q2 = val(c2.den@) as int;
        let hh = h as int;
        assert((p1 * q2 <= p2 * q1) == (p1 * (q2 * hh) <= p2 * (q1 * hh))) by (nonlinear_arith)
            requires
                hh > 0,
        ;
    }
    r
}

/// The position of the only `:` in `cs`, if there is exactly one.
fn only_colon(cs: &[char]) -> (r: Option<usize>)
    ensures
        r matches Some(k) ==> only_colon_at(cs@, k as int),
        r is None ==> !exists|k: int| only_colon_at(cs@, k),
{
    let n = cs.len();
    let mut found: Option<usize> = None;
    for i in 0..n
        invariant
            n == cs@.len(),
            found matches Some(k) ==> k < i && cs@[k as int] == ':' && forall|j: int|
                0 <= j < i && j != k ==> cs@[j] != ':',
            found is None ==> forall|j: int| 0 <= j < i ==> cs@[j] != ':',
    {
        if cs[i] == ':' {
            if found.is_some() {
                proof {
                    let k = found->0 as int;
                    assert forall|m: int| !only_colon_at(cs@, m) by {
                        if only_colon_at(cs@, m) {
                            assert(m == k || m == i);
                        }
                    }
                }
                return None;
            }
            found = Some(i);
        }
    }
    proof {
        if found is None {
            assert forall|m: int| !only_colon_at(cs@, m) by {}
        }
    }
    found
}

/// The exact fraction of a `W:H` string, see [`ratio_fraction`].
fn parse_ratio(r: &str) -> (f: Option<Fraction>)
    ensures
        f matches Some(f) ==> f.wf() && ratio_fraction(r@) == Some(f.value()),
        f is None ==> ratio_fraction(r@) is None,
{
    let cs = chars_of(r);
    proof {
        reveal(ratio_fraction);
    }
    let k = match only_colon(cs.as_slice()) {
        Some(k) => k,
        None => {
            return None;
        },
    };
    proof {
        let c = choose|m: int| only_colon_at(r@, m);
        assert(only_colon_at(r@, c));
        if c != k as int {
            assert(r@[c] == ':');
        }
    }
    assert(k < cs.len());
    assert(ratio_sides(r@) == Some((r@.take(k as int), r@.skip(k + 1))));
    let left = sub_chars(cs.as_slice(), 0, k);
    let right = sub_chars(cs.as_slice(), k + 1, cs.len());
    assert(left@ =~= r@.take(k as int));
    assert(right@ =~= r@.skip(k + 1));
    let w = match parse_float(left.as_slice()) {
        Some(x) => x,
        None => {
            return None;
        },
    };
    let h = match parse_float(right.as_slice()) {
        Some(x) => x,
        None => {
            return None;
        },
    };
    let num = product(&w.num, &h.den);
    let den = product(&h.num, &w.den);
    let f = Fraction { neg_num: w.neg_num, num, neg_den: h.neg_num, den };
    proof {
        reveal(ratio_fraction);
        let a = val(w.num@) as int;
        let b = val(w.den@) as int;
        let c = val(h.num@) as int;
        let d = val(h.den@) as int;
        assert(signed(w.neg_num, a) * d == signed(w.neg_num, a * d)) by (nonlinear_arith);
        assert(signed(h.neg_num, c) * b == signed(h.neg_num, c * b)) by (nonlinear_arith);
    }
    Some(f)
}

/// How far the ratio `r` lies from `width/height`, when `r` is a ratio.
fn closeness_of(r: &str, width: u32, height: u32) -> (c: Option<Closeness>)
    ensures
        c matches Some(c) ==> candidate(r@, width as nat, height as nat) matches Some(d) && c.matches(
            d,
            height as nat,
        ),
        c is None ==> candidate(r@, width as nat, height as nat) is None,
{
    let f = match parse_ratio(r) {
        Some(x) => x,
        None => {
            return None;
        },
    };
    let empty: Vec<u8> = Vec::new();
    assert(val(empty@) == 0);
    if le(&f.den, &empty) || height == 0 {
        return Some(Closeness { near: false, diff: Vec::new(), den: Vec::new() });
    }
    let x = mul_small(&f.num, height);
    let y = mul_small(&f.den, width);
    let diff = if f.neg_num == f.neg_den {
        abs_diff(&x, &y)
    } else {
        sum(&x, &y)
    };
    proof {
        let n = val(f.num@) as int;
        let d = val(f.den@) as int;
        let hh = height as int;
        let ww = width as int;
        let fv = f.value();
        assert(fv.1 != 0);
        assert(signed(f.neg_num, n) * hh - signed(f.neg_den, d) * ww == if f.neg_num == f.neg_den {
            signed(f.neg_num, n * hh - d * ww)
        } else {
            signed(f.neg_num, n * hh + d * ww)
        }) by (nonlinear_arith);
        assert(abs(fv.1) == d);
    }
    Some(Closeness { near: true, diff, den: f.den })
}

/// Picks the `aspect_ratio` value closest to `width/height` among `allowed`.
/// `custom` wins when it is allowed; otherwise the first value `W:H` whose
/// ratio is nearest to `width/height`; `1:1` when no value has that form.
///
/// Distances are compared exactly, as fractions, not as rounded floating-point
/// quotients. Where two ratios lie exactly equally far away, the first listed
/// one wins, even where a floating-point comparison would find the later one
/// closer by a rounding error (for `2:3` and `4:3` at a square size, `2:3`).
/// `W` and `H` are read as `f64::from_str` reads them (`16`, `2.39`, `1e1`,
/// `-inf`, `NaN`), though exactly: only a side of magnitude `10^401` or more
/// reads as infinite, and only one below `10^-400` as zero, as `f64` reads
/// them too. A value with an infinite or undefined quotient or distance (`W:0`,
/// `inf:1`, `nan:1`, or any value when `height` is 0) ranks after every finite
/// one.
pub fn best_aspect_ratio(width: u32, height: u32, allowed: &[String]) -> (r: String)
    ensures
        r@ == best_ratio(views(allowed@), width as nat, height as nat),
{
    let ghost vs = views(allowed@);
    let ghost w = width as nat;
    let ghost h = height as nat;
    let n = allowed.len();
    for i in 0..n
        invariant
            n == allowed@.len(),
            vs == views(allowed@),
            forall|j: int| 0 <= j < i ==> vs[j] != "custom"@,
    {
        if str_eq(allowed[i].as_str(), "custom") {
            assert(vs[i as int] == "custom"@);
            return String::from_str("custom");
        }
    }
    assert(!allows_custom(vs));
    let mut best: Option<(usize, Closeness)> = None;
    for i in 0..n
        invariant
            n == allowed@.len(),
            vs == views(allowed@),
            vs.len() == n,
            w == width as nat,
            h == height as nat,
            best is None ==> forall|j: int| 0 <= j < i ==> (#[trigger] candidate(vs[j], w, h)) is None,
            best matches Some((b, c)) ==> {
                &&& b < i
                &&& candidate(vs[b as int], w, h) matches Some(d) && c.matches(d, h)
                &&& forall|j: int|
                    0 <= j < i && (#[trigger] candidate(vs[j], w, h)) is Some ==> no_farther(
                        candidate(vs[b as int], w, h)->0,
                        candidate(vs[j], w, h)->0,
                    )
                &&& forall|j: int|
                    0 <= j < b && (#[trigger] candidate(vs[j], w, h)) is Some ==> !no_farther(
                        candidate(vs[j], w, h)->0,
                        candidate(vs[b as int], w, h)->0,
                    )
            },
    {
        let c = closeness_of(allowed[i].as_str(), width, height);
        assert(vs[i as int] == allowed@[i as int]@);
        match c {
            None => {},
            Some(c) => {
                let ghost di = candidate(vs[i as int], w, h)->0;
                let replace = match &best {
                    None => true,
                    Some((b, bc)) => {
                        let b = *b;
                        let ghost db = candidate(vs[b as int], w, h)->0;
                        let keep = closeness_le(bc, &c, Ghost(db), Ghost(di), Ghost(h));
                        if !keep {
                            proof {
                                lemma_no_farther_total(db, di);
                                lemma_candidate_positive(vs[b as int], w, h);
                                assert forall|j: int|
                                    0 <= j < i + 1 && (#[trigger] candidate(vs[j], w, h)) is Some
                                        implies no_farther(di, candidate(vs[j], w, h)->0) by {
                                    if j < i {
                                        lemma_no_farther_transitive(di, db, candidate(vs[j], w, h)->0);
                                    }
                                }
                                assert forall|j: int|
                                    0 <= j < i && (#[trigger] candidate(vs[j], w, h)) is Some
                                        implies !no_farther(candidate(vs[j], w, h)->0, di) by {
                                    let dj = candidate(vs[j], w, h)->0;
                                    lemma_candidate_positive(vs[j], w, h);
                                    if no_farther(dj, di) {
                                        lemma_no_farther_transitive(db, dj, di);
                                    }
                                }
                            }
                        }
                        !keep
                    },
                };
                if replace {
                    best = Some((i, c));
                }
            },
        }
    }
    match best {
        Some((b, _)) => {
            assert(is_closest(vs, w, h, b as int));
            proof {
                let k = choose|k: int| is_closest(vs, w, h, k);
                assert(is_closest(vs, w, h, k));
                if k < b {
                    lemma_no_farther_total(candidate(vs[k], w, h)->0, candidate(vs[b as int], w, h)->0);
                } else if k > b {
                    lemma_no_farther_total(candidate(vs[k], w, h)->0, candidate(vs[b as int], w, h)->0);
                }
                assert(k == b);
            }
            allowed[b].clone()
        },
        None => {
            assert(!exists|k: int| is_closest(vs, w, h, k));
            String::from_str("1:1")
        },
    }
}

/// Among the first `n` values, the first of those closest to `width/height`.
proof fn lemma_closest_in_prefix(allowed: Seq<Seq<char>>, width: nat, height: nat, n: int) -> (i: int)
    requires
        0 < n <= allowed.len(),
        exists|j: int| 0 <= j < n && (#[trigger] candidate(allowed[j], width, height)) is Some,
    ensures
        0 <= i < n,
        candidate(allowed[i], width, height) is Some,
        forall|j: int|
            0 <= j < n && (#[trigger] candidate(allowed[j], width, height)) is Some ==> no_farther(
                candidate(allowed[i], width, height)->0,
                candidate(allowed[j], width, height)->0,
            ),
        forall|j: int|
            0 <= j < i && (#[trigger] candidate(allowed[j], width, height)) is Some ==> !no_farther(
                candidate(allowed[j], width, height)->0,
                candidate(allowed[i], width, height)->0,
            ),
    decreases n,
{
    let last = n - 1;
    if !exists|j: int| 0 <= j < last && (#[trigger] candidate(allowed[j], width, height)) is Some {
        assert(candidate(allowed[last], width, height) is Some);
        last
    } else {
        let b = lemma_closest_in_prefix(allowed, width, height, last);
        let db = candidate(allowed[b], width, height)->0;
        if candidate(allowed[last], width, height) is Some {
            let dl = candidate(allowed[last], width, height)->0;
            if !no_farther(db, dl) {
                lemma_no_farther_total(db, dl);
                lemma_candidate_positive(allowed[b], width, height);
                assert forall|j: int|
                    0 <= j < n && (#[trigger] candidate(allowed[j], width, height)) is Some
                        implies no_farther(dl, candidate(allowed[j], width, height)->0) by {
                    if j < last {
                        lemma_no_farther_transitive(dl, db, candidate(allowed[j], width, height)->0);
                    }
                }
                assert forall|j: int|
                    0 <= j < last && (#[trigger] candidate(allowed[j], width, height)) is Some
                        implies !no_farther(candidate(allowed[j], width, height)->0, dl) by {
                    let dj = candidate(allowed[j], width, height)->0;
                    lemma_candidate_positive(allowed[j], width, height);
                    if no_farther(dj, dl) {
                        lemma_no_farther_transitive(db, dj, dl);
                    }
                }
                return last;
            }
        }
        b
    }
}

/// When some allowed value has the form `W:H`, one of them is the closest to
/// `width/height`: `1:1` is sent only when no allowed value is a ratio.
pub proof fn lemma_closest_exists(allowed: Seq<Seq<char>>, width: nat, height: nat)
    requires
        has_ratio(allowed, width, height),
    ensures
        exists|i: int| is_closest(allowed, width, height, i),
{
    let i = lemma_closest_in_prefix(allowed, width, height, allowed.len() as int);
    assert(is_closest(allowed, width, height, i));
}

/// The value sent as `aspect_ratio` is `custom` when that is allowed, else an
/// allowed `W:H` value no farther from `width/height` than any other, else `1:1`
/// exactly when no allowed value is a ratio.
pub proof fn lemma_best_ratio(allowed: Seq<Seq<char>>, width: nat, height: nat)
    ensures
        allows_custom(allowed) ==> best_ratio(allowed, width, height) == "custom"@,
        !allows_custom(allowed) && has_ratio(allowed, width, height) ==> exists|i: int|
            0 <= i < allowed.len() && best_ratio(allowed, width, height) == allowed[i] && forall|j: int|
                0 <= j < allowed.len() && (#[trigger] candidate(allowed[j], width, height)) is Some
                    ==> no_farther(
                    candidate(allowed[i], width, height)->0,
                    candidate(allowed[j], width, height)->0,
                ),
        !allows_custom(allowed) && !has_ratio(allowed, width, height) ==> best_ratio(
            allowed,
            width,
            height,
        ) == "1:1"@,
{
    if !allows_custom(allowed) && has_ratio(allowed, width, height) {
        lemma_closest_exists(allowed, width, height);
        let i = choose|i: int| is_closest(allowed, width, height, i);
        assert(best_ratio(allowed, width, height) == allowed[i]);
    }
    if !has_ratio(allowed, width, height) {
        assert(!exists|i: int| is_closest(allowed, width, height, i));
    }
}

/// The pick made by walking `s` in order and replacing the best value so far
/// only by a strictly closer ratio.
pub open spec fn closest_so_far(s: Seq<Seq<char>>, width: nat, height: nat) -> Option<Seq<char>>
    decreases s.len(),
{
    if s.len() == 0 {
        None
    } else {
        let b = closest_so_far(s.drop_last(), width, height);
        match candidate(s.last(), width, height) {
            None => b,
            Some(dl) => match b {
                None => Some(s.last()),
                Some(bv) => if no_farther(candidate(bv, width, height)->0, dl) {
                    b
                } else {
                    Some(s.last())
                },
            },
        }
    }
}

proof fn lemma_fold_none(s: Seq<Seq<char>>, width: nat, height: nat)
    ensures
        closest_so_far(s, width, height) is None <==> !has_ratio(s, width, height),
    decreases s.len(),
{
    if s.len() > 0 {
        let p = s.drop_last();
        lemma_fold_none(p, width, height);
        if has_ratio(p, width, height) {
            let j = choose|j: int| 0 <= j < p.len() && (#[trigger] candidate(p[j], width, height)) is Some;
            assert(s[j] == p[j]);
        }
        if has_ratio(s, width, height) && !has_ratio(p, width, height) {
            let j = choose|j: int| 0 <= j < s.len() && (#[trigger] candidate(s[j], width, height)) is Some;
            if j < s.len() - 1 {
                assert(p[j] == s[j]);
            }
        }
        if candidate(s.last(), width, height) is Some {
            assert(candidate(s[s.len() - 1], width, height) is Some);
        }
    }
}

proof fn lemma_extend_keep(s: Seq<Seq<char>>, width: nat, height: nat, i: int)
    requires
        s.len() > 0,
        is_closest(s.drop_last(), width, height, i),
        candidate(s.last(), width, height) matches Some(dl) ==> no_farther(
            candidate(s.drop_last()[i], width, height)->0,
            dl,
        ),
    ensures
        is_closest(s, width, height, i),
{
    let p = s.drop_last();
    let n = s.len() as int;
    assert(s[i] == p[i]);
    assert forall|j: int|
        0 <= j < n && (#[trigger] candidate(s[j], width, height)) is Some implies no_farther(
        candidate(s[i], width, height)->0,
        candidate(s[j], width, height)->0,
    ) by {
        if j < n - 1 {
            assert(p[j] == s[j]);
            assert(candidate(p[j], width, height) is Some);
        } else {
            assert(s[j] == s.last());
        }
    }
    assert forall|j: int|
        0 <= j < i && (#[trigger] candidate(s[j], width, height)) is Some implies !no_farther(
        candidate(s[j], width, height)->0,
        candidate(s[i], width, height)->0,
    ) by {
        assert(p[j] == s[j]);
        assert(candidate(p[j], width, height) is Some);
    }
}

proof fn lemma_extend_first(s: Seq<Seq<char>>, width: nat, height: nat)
    requires
        s.len() > 0,
        !has_ratio(s.drop_last(), width, height),
        candidate(s.last(), width, height) is Some,
    ensures
        is_closest(s, width, height, s.len() - 1),
{
    let p = s.drop_last();
    let n = s.len() as int;
    assert(s[n - 1] == s.last());
    assert forall|j: int|
        0 <= j < n && (#[trigger] candidate(s[j], width, height)) is Some implies no_farther(
        candidate(s[n - 1], width, height)->0,
        candidate(s[j], width, height)->0,
    ) by {
        if j < n - 1 {
            assert(p[j] == s[j]);
            assert(candidate(p[j], width, height) is Some);
        }
        if let Some((a, q)) = candidate(s[n - 1], width, height)->0 {
            assert(a * q <= a * q);
        }
    }
    assert forall|j: int|
        0 <= j < n - 1 && (#[trigger] candidate(s[j], width, height)) is Some implies !no_farther(
        candidate(s[j], width, height)->0,
        candidate(s[n - 1], width, height)->0,
    ) by {
        assert(p[j] == s[j]);
        assert(candidate(p[j], width, height) is Some);
    }
}

proof fn lemma_extend_replace(s: Seq<Seq<char>>, width: nat, height: nat, i: int)
    requires
        s.len() > 0,
        is_closest(s.drop_last(), width, height, i),
        candidate(s.last(), width, height) matches Some(dl) && !no_farther(
            candidate(s.drop_last()[i], width, height)->0,
            dl,
        ),
    ensures
        is_closest(s, width, height, s.len() - 1),
{
    let p = s.drop_last();
    let n = s.len() as int;
    let last = n - 1;
    assert(s[last] == s.last());
    assert(s[i] == p[i]);
    let db = candidate(p[i], width, height)->0;
    let dl = candidate(s[last], width, height)->0;
    lemma_no_farther_total(db, dl);
    lemma_candidate_positive(p[i], width, height);
    assert forall|j: int|
        0 <= j < n && (#[trigger] candidate(s[j], width, height)) is Some implies no_farther(
        dl,
        candidate(s[j], width, height)->0,
    ) by {
        if j < last {
            assert(p[j] == s[j]);
            assert(candidate(p[j], width, height) is Some);
            lemma_no_farther_transitive(dl, db, candidate(s[j], width, height)->0);
        } else {
            if let Some((a, q)) = dl {
                assert(a * q <= a * q);
            }
        }
    }
    assert forall|j: int|
        0 <= j < last && (#[trigger] candidate(s[j], width, height)) is Some implies !no_farther(
        candidate(s[j], width, height)->0,
        dl,
    ) by {
        assert(p[j] == s[j]);
        assert(candidate(p[j], width, height) is Some);
        let dj = candidate(s[j], width, height)->0;
        lemma_candidate_positive(s[j], width, height);
        if no_farther(dj, dl) {
            lemma_no_farther_transitive(db, dj, dl);
        }
    }
}

proof fn lemma_fold_witness(s: Seq<Seq<char>>, width: nat, height: nat) -> (i: int)
    requires
        closest_so_far(s, width, height) is Some,
    ensures
        is_closest(s, width, height, i),
        s[i] == closest_so_far(s, width, height)->0,
    decreases s.len(),
{
    let p = s.drop_last();
    let b = closest_so_far(p, width, height);
    if candidate(s.last(), width, height) is None {
        let i = lemma_fold_witness(p, width, height);
        lemma_extend_keep(s, width, height, i);
        i
    } else if b is None {
        lemma_fold_none(p, width, height);
        lemma_extend_first(s, width, height);
        s.len() - 1
    } else {
        let i = lemma_fold_witness(p, width, height);
        let dl = candidate(s.last(), width, height)->0;
        if no_farther(candidate(p[i], width, height)->0, dl) {
            lemma_extend_keep(s, width, height, i);
            i
        } else {
            lemma_extend_replace(s, width, height, i);
            s.len() - 1
        }
    }
}

proof fn lemma_closest_unique(s: Seq<Seq<char>>, width: nat, height: nat, i: int, j: int)
    requires
        is_closest(s, width, height, i),
        is_closest(s, width, height, j),
    ensures
        i == j,
{
    if i < j {
        assert(candidate(s[i], width, height) is Some);
    } else if j < i {
        assert(candidate(s[j], width, height) is Some);
    }
}

/// Without `custom`, the pick is the one made by walking the values in order.
proof fn lemma_best_ratio_is_fold(s: Seq<Seq<char>>, width: nat, height: nat)
    requires
        !allows_custom(s),
    ensures
        best_ratio(s, width, height) == match closest_so_far(s, width, height) {
            Some(v) => v,
            None => "1:1"@,
        },
{
    lemma_fold_none(s, width, height);
    if closest_so_far(s, width, height) is Some {
        let i = lemma_fold_witness(s, width, height);
        let k = choose|k: int| is_closest(s, width, height, k);
        lemma_closest_unique(s, width, height, i, k);
    } else {
        if exists|k: int| is_closest(s, width, height, k) {
            let k = choose|k: int| is_closest(s, width, height, k);
            assert(candidate(s[k], width, height) is Some);
        }
    }
}

pub open spec fn is_ratio(width: nat, height: nat) -> spec_fn(Seq<char>) -> bool {
    |r: Seq<char>| candidate(r, width, height) is Some
}

proof fn lemma_fold_filter(s: Seq<Seq<char>>, width: nat, height: nat)
    ensures
        closest_so_far(s.filter(is_ratio(width, height)), width, height) == closest_so_far(s, width, height),
    decreases s.len(),
{
    if s.len() > 0 {
        let p = s.drop_last();
        lemma_fold_filter(p, width, height);
        assert(p.push(s.last()) =~= s);
        p.lemma_filter_push(s.last(), is_ratio(width, height));
        let f = p.filter(is_ratio(width, height));
        if candidate(s.last(), width, height) is Some {
            assert(f.push(s.last()).drop_last() =~= f);
        }
    } else {
        reveal(Seq::filter);
    }
}

/// Values not of the form `W:H` never change the pick: without `custom`, the
/// result is the same as for the ratios alone, in their order.
pub proof fn lemma_non_ratios_ignored(allowed: Seq<Seq<char>>, width: nat, height: nat)
    requires
        !allows_custom(allowed),
    ensures
        best_ratio(allowed, width, height) == best_ratio(
            allowed.filter(is_ratio(width, height)),
            width,
            height,
        ),
{
    let f = allowed.filter(is_ratio(width, height));
    assert(!allows_custom(f)) by {
        if allows_custom(f) {
            let i = choose|i: int| 0 <= i < f.len() && f[i] == "custom"@;
            assert(f.contains("custom"@));
            allowed.lemma_filter_contains_rev(is_ratio(width, height), "custom"@);
            let j = choose|j: int| 0 <= j < allowed.len() && allowed[j] == "custom"@;
            assert(allows_custom(allowed));
        }
    }
    lemma_best_ratio_is_fold(allowed, width, height);
    lemma_best_ratio_is_fold(f, width, height);
    lemma_fold_filter(allowed, width, height);
}

proof fn lemma_distance_scaled(f: (int, int), width: nat, height: nat, k: nat)
    requires
        k >= 1,
    ensures
        distance(f, width * k, height * k) == match distance(f, width, height) {
            Some((p, q)) => Some(((p * k) as nat, (q * k) as nat)),
            None => None::<(nat, nat)>,
        },
{
    if f.1 != 0 && height != 0 {
        let x = f.0 * height - f.1 * width;
        assert(f.0 * (height * k) - f.1 * (width * k) == x * k) by (nonlinear_arith)
            requires
                x == f.0 * height - f.1 * width,
        ;
        assert(abs(x * k) == abs(x) * k) by (nonlinear_arith)
            requires
                k >= 1,
        ;
        assert(abs(f.1) * (height * k) == abs(f.1) * height * k) by (nonlinear_arith);
        assert(height * k != 0) by (nonlinear_arith)
            requires
                height != 0,
                k >= 1,
        ;
    } else if f.1 != 0 {
        assert(height * k == 0) by (nonlinear_arith)
            requires
                height == 0,
        ;
    }
}

proof fn lemma_candidate_scaled(r: Seq<char>, width: nat, height: nat, k: nat)
    requires
        k >= 1,
    ensures
        candidate(r, width * k, height * k) == match candidate(r, width, height) {
            Some(Some((p, q))) => Some(Some(((p * k) as nat, (q * k) as nat))),
            Some(None) => Some(None::<(nat, nat)>),
            None => None,
        },
{
    if let Some(f) = ratio_fraction(r) {
        lemma_distance_scaled(f, width, height, k);
    }
}

proof fn lemma_no_farther_scaled(d1: Option<(nat, nat)>, d2: Option<(nat, nat)>, k: nat)
    requires
        k >= 1,
    ensures
        no_farther(
            match d1 {
                Some((p, q)) => Some(((p * k) as nat, (q * k) as nat)),
                None => None::<(nat, nat)>,
            },
            match d2 {
                Some((p, q)) => Some(((p * k) as nat, (q * k) as nat)),
                None => None::<(nat, nat)>,
            },
        ) == no_farther(d1, d2),
{
    if let (Some((p1, q1)), Some((p2, q2))) = (d1, d2) {
        assert((p1 * k) * (q2 * k) == (p1 * q2) * (k * k)) by (nonlinear_arith);
        assert((p2 * k) * (q1 * k) == (p2 * q1) * (k * k)) by (nonlinear_arith);
        assert(((p1 * q2) * (k * k) <= (p2 * q1) * (k * k)) == (p1 * q2 <= p2 * q1)) by (nonlinear_arith)
            requires
                k >= 1,
        ;
    }
}

proof fn lemma_fold_scaled(s: Seq<Seq<char>>, width: nat, height: nat, k: nat)
    requires
        k >= 1,
    ensures
        closest_so_far(s, width * k, height * k) == closest_so_far(s, width, height),
    decreases s.len(),
{
    if s.len() > 0 {
        let w2 = width * k;
        let h2 = height * k;
        lemma_fold_scaled(s.drop_last(), width, height, k);
        lemma_candidate_scaled(s.last(), width, height, k);
        let b = closest_so_far(s.drop_last(), width, height);
        assert(closest_so_far(s.drop_last(), w2, h2) == b);
        match candidate(s.last(), width, height) {
            None => {
                assert(candidate(s.last(), w2, h2) is None);
            },
            Some(dl) => {
                assert(candidate(s.last(), w2, h2) is Some);
                match b {
                    None => {},
                    Some(bv) => {
                        let i = lemma_fold_witness(s.drop_last(), width, height);
                        assert(candidate(bv, width, height) is Some);
                        lemma_candidate_scaled(bv, width, height, k);
                        let db = candidate(bv, width, height)->0;
                        lemma_no_farther_scaled(db, dl, k);
                        assert(no_farther(candidate(bv, w2, h2)->0, candidate(s.last(), w2, h2)->0)
                            == no_farther(db, dl));
                    },
                }
            },
        }
    }
}

/// Only the ratio `width/height` matters: scaling both by the same factor
/// picks the same value.
pub proof fn lemma_scale_invariant(allowed: Seq<Seq<char>>, width: nat, height: nat, k: nat)
    requires
        k >= 1,
    ensures
        best_ratio(allowed, width * k, height * k) == best_ratio(allowed, width, height),
{
    if !allows_custom(allowed) {
        lemma_best_ratio_is_fold(allowed, width, height);
        lemma_best_ratio_is_fold(allowed, width * k, height * k);
        lemma_fold_scaled(allowed, width, height, k);
    }
}


/// `r` is a ratio `W:H` whose quotient is finite: its denominator is not 0.
pub open spec fn finite_ratio(r: Seq<char>) -> bool {
    ratio_fraction(r) is Some && ratio_fraction(r).unwrap().1 != 0
}

/// With [`gap_den`], the gap `|W/H - width/height|` of a finite ratio `r` is
/// `gap_num / (gap_den * height)`: `|num * height - den * width|` over
/// `|den| * height` for `W/H == num/den`.
pub open spec fn gap_num(r: Seq<char>, width: nat, height: nat) -> int {
    let f = ratio_fraction(r).unwrap();
    abs(f.0 * height - f.1 * width) as int
}

pub open spec fn gap_den(r: Seq<char>) -> int {
    abs(ratio_fraction(r).unwrap().1) as int
}

proof fn lemma_cancel_height(a: int, b: int, h: int)
    requires
        h > 0,
    ensures
        (a * h <= b * h) == (a <= b),
        (a * h < b * h) == (a < b),
{
    assert((a * h <= b * h) == (a <= b)) by (nonlinear_arith)
        requires
            h > 0,
    ;
    assert((a * h < b * h) == (a < b)) by (nonlinear_arith)
        requires
            h > 0,
    ;
}

/// The distance of a value with quotient `num/den` from `width/height` is
/// `|num/den - width/height|`: as a fraction `p/q`, `q > 0` and
/// `p * (|den| * height) == q * |num * height - den * width|`.
pub proof fn lemma_distance_is_gap(f: (int, int), width: nat, height: nat)
    requires
        f.1 != 0,
        height > 0,
    ensures
        distance(f, width, height) matches Some((p, q)) && q > 0 && p * (abs(f.1) * height) == q * abs(
            f.0 * height - f.1 * width,
        ),
{
    let x = abs(f.0 * height - f.1 * width);
    let d = abs(f.1);
    assert(d * height > 0) by (nonlinear_arith)
        requires
            d > 0,
            height > 0,
    ;
    assert(x * (d * height) == (d * height) * x) by (nonlinear_arith);
}

/// Without `custom`, when `height > 0` and some allowed value is a ratio
/// `W:H` with a finite quotient, the value picked is such a ratio, no allowed
/// finite ratio lies closer to `width/height` (its gap `|W/H - width/height|`
/// is the smallest), and every finite ratio listed before it lies strictly
/// farther away.
pub proof fn lemma_best_is_nearest(allowed: Seq<Seq<char>>, width: nat, height: nat) -> (i: int)
    requires
        !allows_custom(allowed),
        height > 0,
        exists|j: int| 0 <= j < allowed.len() && finite_ratio(#[trigger] allowed[j]),
    ensures
        0 <= i < allowed.len(),
        best_ratio(allowed, width, height) == allowed[i],
        finite_ratio(allowed[i]),
        forall|j: int|
            0 <= j < allowed.len() && finite_ratio(#[trigger] allowed[j]) ==> gap_num(allowed[i], width, height)
                * gap_den(allowed[j]) <= gap_num(allowed[j], width, height) * gap_den(allowed[i]),
        forall|j: int|
            0 <= j < i && finite_ratio(#[trigger] allowed[j]) ==> gap_num(allowed[i], width, height)
                * gap_den(allowed[j]) < gap_num(allowed[j], width, height) * gap_den(allowed[i]),
{
    let j0 = choose|j: int| 0 <= j < allowed.len() && finite_ratio(#[trigger] allowed[j]);
    assert(candidate(allowed[j0], width, height) is Some);
    assert(has_ratio(allowed, width, height));
    lemma_closest_exists(allowed, width, height);
    let k = choose|k: int| is_closest(allowed, width, height, k);
    assert(is_closest(allowed, width, height, k));
    let h = height as int;
    assert(candidate(allowed[j0], width, height)->0 is Some);
    assert(no_farther(candidate(allowed[k], width, height)->0, candidate(allowed[j0], width, height)->0));
    assert(finite_ratio(allowed[k]));
    assert forall|j: int|
        0 <= j < allowed.len() && finite_ratio(#[trigger] allowed[j]) implies gap_num(allowed[k], width, height)
            * gap_den(allowed[j]) <= gap_num(allowed[j], width, height) * gap_den(allowed[k]) by {
        assert(candidate(allowed[j], width, height) is Some);
        let a = gap_num(allowed[k], width, height);
        let b = gap_num(allowed[j], width, height);
        let c = gap_den(allowed[k]);
        let d = gap_den(allowed[j]);
        assert(no_farther(candidate(allowed[k], width, height)->0, candidate(allowed[j], width, height)->0));
        assert(a * (d * h) <= b * (c * h));
        assert(a * (d * h) == (a * d) * h && b * (c * h) == (b * c) * h) by (nonlinear_arith);
        lemma_cancel_height(a * d, b * c, h);
    }
    assert forall|j: int|
        0 <= j < k && finite_ratio(#[trigger] allowed[j]) implies gap_num(allowed[k], width, height)
            * gap_den(allowed[j]) < gap_num(allowed[j], width, height) * gap_den(allowed[k]) by {
        assert(candidate(allowed[j], width, height) is Some);
        let a = gap_num(allowed[k], width, height);
        let b = gap_num(allowed[j], width, height);
        let c = gap_den(allowed[k]);
        let d = gap_den(allowed[j]);
        assert(!no_farther(candidate(allowed[j], width, height)->0, candidate(allowed[k], width, height)->0));
        assert(!(b * (c * h) <= a * (d * h)));
        assert(a * (d * h) == (a * d) * h && b * (c * h) == (b * c) * h) by (nonlinear_arith);
        lemma_cancel_height(a * d, b * c, h);
    }
    k
}

} // verus!
