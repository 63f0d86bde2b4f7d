//! Natural numbers of any size, held as little-endian decimal digits, with the
//! few operations that exact ratio comparison needs.

use vstd::prelude::*;
use crate::numeral::{all_digits, digit_value, digits_value, pow10};

verus! {

/// Every element of `s` is a decimal digit.
pub open spec fn digits_ok(s: Seq<u8>) -> bool {
    forall|i: int| 0 <= i < s.len() ==> #[trigger] s[i] < 10
}

/// The number that the little-endian digits `s` stand for.
pub open spec fn val(s: Seq<u8>) -> nat
    decreases s.len(),
{
    if s.len() == 0 {
        0
    } else {
        val(s.drop_last()) + (s.last() as nat) * pow10((s.len() - 1) as nat)
    }
}

pub proof fn lemma_pow10_positive(k: nat)
    ensures
        pow10(k) >= 1,
    decreases k,
{
    if k > 0 {
        lemma_pow10_positive((k - 1) as nat);
    }
}

pub proof fn lemma_pow10_monotone(i: nat, j: nat)
    requires
        i <= j,
    ensures
        pow10(i) <= pow10(j),
    decreases j,
{
    if i < j {
        lemma_pow10_monotone(i, (j - 1) as nat);
    }
}

pub proof fn lemma_pow10_add(i: nat, j: nat)
    ensures
        pow10(i + j) == pow10(i) * pow10(j),
    decreases j,
{
    if j > 0 {
        let j1 = (j - 1) as nat;
        lemma_pow10_add(i, j1);
        let a = pow10(i);
        let b = pow10(j1);
        let ij1 = (i + j1) as nat;
        assert(pow10(ij1) == a * b);
        assert((i + j) as nat == ij1 + 1);
        assert(pow10(ij1 + 1) == 10 * pow10(ij1));
        assert(pow10(j) == 10 * b);
        assert(10 * (a * b) == a * (10 * b)) by (nonlinear_arith);
    } else {
        assert(pow10(0) == 1);
        assert(i + j == i);
    }
}

proof fn lemma_val_push(s: Seq<u8>, d: u8)
    ensures
        val(s.push(d)) == val(s) + (d as nat) * pow10(s.len()),
{
    assert(s.push(d).drop_last() =~= s);
}

proof fn lemma_val_take_step(s: Seq<u8>, i: int)
    requires
        0 <= i < s.len(),
    ensures
        val(s.take(i + 1)) == val(s.take(i)) + (s[i] as nat) * pow10(i as nat),
{
    assert(s.take(i + 1).drop_last() =~= s.take(i));
}

/// Digits `s` stand for less than `10^len`.
pub proof fn lemma_val_bound(s: Seq<u8>)
    requires
        digits_ok(s),
    ensures
        val(s) < pow10(s.len()),
    decreases s.len(),
{
    if s.len() > 0 {
        let p = s.drop_last();
        assert(digits_ok(p));
        lemma_val_bound(p);
        let q = pow10((s.len() - 1) as nat);
        let l = s.last() as nat;
        assert(s[s.len() - 1] < 10);
        assert(l * q <= 9 * q) by (nonlinear_arith)
            requires
                l <= 9,
        ;
    }
}

/// `a` with zero digits added on top, up to `n` digits.
fn padded(a: &Vec<u8>, n: usize) -> (r: Vec<u8>)
    requires
        a.len() <= n,
        digits_ok(a@),
    ensures
        r.len() == n,
        digits_ok(r@),
        val(r@) == val(a@),
{
    let mut r: Vec<u8> = Vec::new();
    for i in 0..a.len()
        invariant
            r@ == a@.take(i as int),
    {
        r.push(a[i]);
        assert(r@ =~= a@.take(i + 1));
    }
    assert(r@ =~= a@);
    while r.len() < n
        invariant
            r.len() <= n,
            digits_ok(r@),
            val(r@) == val(a@),
        decreases n - r.len(),
    {
        proof {
            lemma_val_push(r@, 0);
        }
        r.push(0);
    }
    r
}

/// `a - b` on digits of one length, and whether it went below zero.
fn sub_same(a: &Vec<u8>, b: &Vec<u8>) -> (r: (Vec<u8>, bool))
    requires
        a.len() == b.len(),
        digits_ok(a@),
        digits_ok(b@),
    ensures
        r.0.len() == a.len(),
        digits_ok(r.0@),
        r.1 == (val(a@) < val(b@)),
        !r.1 ==> val(r.0@) == val(a@) - val(b@),
{
    let n: usize = a.len();
    let mut res: Vec<u8> = Vec::new();
    let mut borrow: u8 = 0;
    for i in 0..n
        invariant
            n == a.len(),
            n == b.len(),
            digits_ok(a@),
            digits_ok(b@),
            res.len() == i,
            digits_ok(res@),
            borrow <= 1,
            val(res@) - borrow * pow10(i as nat) == val(a@.take(i as int)) - val(b@.take(i as int)),
    {
        let x: u8 = a[i];
        let y: u8 = b[i];
        assert(a@[i as int] < 10 && b@[i as int] < 10);
        let d: u8;
        let nb: u8;
        if x >= y + borrow {
            d = x - y - borrow;
            nb = 0;
        } else {
            d = x + 10 - y - borrow;
            nb = 1;
        }
        proof {
            let p = pow10(i as nat);
            lemma_val_push(res@, d);
            lemma_val_take_step(a@, i as int);
            lemma_val_take_step(b@, i as int);
            assert(pow10((i + 1) as nat) == 10 * p);
            let old_v = val(res@);
            let va = val(a@.take(i as int));
            let vb = val(b@.take(i as int));
            assert(old_v + d * p - nb * (10 * p) == va + x * p - (vb + y * p)) by (nonlinear_arith)
                requires
                    old_v - borrow * p == va - vb,
                    d + 10 * 0 == x + 10 * nb - y - borrow,
            ;
        }
        res.push(d);
        borrow = nb;
    }
    proof {
        assert(a@.take(n as int) =~= a@);
        assert(b@.take(n as int) =~= b@);
        lemma_val_bound(res@);
    }
    (res, borrow == 1)
}

/// `a + b` on digits of one length.
fn add_same(a: &Vec<u8>, b: &Vec<u8>) -> (r: Vec<u8>)
    requires
        a.len() == b.len(),
        digits_ok(a@),
        digits_ok(b@),
    ensures
        digits_ok(r@),
        val(r@) == val(a@) + val(b@),
{
    let n: usize = a.len();
    let mut res: Vec<u8> = Vec::new();
    let mut carry: u8 = 0;
    for i in 0..n
        invariant
            n == a.len(),
            n == b.len(),
            digits_ok(a@),
            digits_ok(b@),
            res.len() == i,
            digits_ok(res@),
            carry <= 1,
            val(res@) + carry * pow10(i as nat) == val(a@.take(i as int)) + val(b@.take(i as int)),
    {
        let x: u8 = a[i];
        let y: u8 = b[i];
        assert(a@[i as int] < 10 && b@[i as int] < 10);
        let t: u8 = x + y + carry;
        let d: u8 = t % 10;
        let nc: u8 = t / 10;
        proof {
            let p = pow10(i as nat);
            lemma_val_push(res@, d);
            lemma_val_take_step(a@, i as int);
            lemma_val_take_step(b@, i as int);
            assert(pow10((i + 1) as nat) == 10 * p);
            let old_v = val(res@);
            let va = val(a@.take(i as int));
            let vb = val(b@.take(i as int));
            assert(old_v + d * p + nc * (10 * p) == va + x * p + (vb + y * p)) by (nonlinear_arith)
                requires
                    old_v + carry * p == va + vb,
                    d + 10 * nc == x + y + carry,
            ;
        }
        res.push(d);
        carry = nc;
    }
    proof {
        assert(a@.take(n as int) =~= a@);
        assert(b@.take(n as int) =~= b@);
        lemma_val_push(res@, carry);
    }
    res.push(carry);
    res
}

/// `a + b`.
pub fn sum(a: &Vec<u8>, b: &Vec<u8>) -> (r: Vec<u8>)
    requires
        digits_ok(a@),
        digits_ok(b@),
    ensures
        digits_ok(r@),
        val(r@) == val(a@) + val(b@),
{
    let n: usize = if a.len() < b.len() {
        b.len()
    } else {
        a.len()
    };
    let pa = padded(a, n);
    let pb = padded(b, n);
    add_same(&pa, &pb)
}

/// Whether `val(a) <= val(b)`.
pub fn le(a: &Vec<u8>, b: &Vec<u8>) -> (r: bool)
    requires
        digits_ok(a@),
        digits_ok(b@),
    ensures
        r == (val(a@) <= val(b@)),
{
    let n: usize = if a.len() < b.len() {
        b.len()
    } else {
        a.len()
    };
    let pa = padded(a, n);
    let pb = padded(b, n);
    let (_, below) = sub_same(&pb, &pa);
    !below
}

/// `|a - b|`.
pub fn abs_diff(a: &Vec<u8>, b: &Vec<u8>) -> (r: Vec<u8>)
    requires
        digits_ok(a@),
        digits_ok(b@),
    ensures
        digits_ok(r@),
        val(r@) as int == if val(a@) >= val(b@) {
            val(a@) - val(b@)
        } else {
            val(b@) - val(a@)
        },
{
    let n: usize = if a.len() < b.len() {
        b.len()
    } else {
        a.len()
    };
    let pa = padded(a, n);
    let pb = padded(b, n);
    let (d, below) = sub_same(&pa, &pb);
    if below {
        let (e, _) = sub_same(&pb, &pa);
        e
    } else {
        d
    }
}

/// `a * m` for a machine word `m`.
pub fn mul_small(a: &Vec<u8>, m: u32) -> (r: Vec<u8>)
    requires
        digits_ok(a@),
    ensures
        digits_ok(r@),
        val(r@) == val(a@) * m,
{
    let n: usize = a.len();
    let mut res: Vec<u8> = Vec::new();
    let mut carry: u64 = 0;
    assert(a@.take(0) =~= Seq::<u8>::empty());
    assert(val(a@.take(0)) == 0);
    assert(val(res@) == 0);
    assert(0 * (m as int) == 0);
    for i in 0..n
        invariant
            n == a.len(),
            digits_ok(a@),
            res.len() == i,
            digits_ok(res@),
            carry < 0x1_0000_0000,
            val(res@) + carry * pow10(i as nat) == val(a@.take(i as int)) * m,
    {
        let x: u8 = a[i];
        assert(a@[i as int] < 10);
        assert((x as u64) * (m as u64) <= 9 * 0xffff_ffff) by (nonlinear_arith)
            requires
                x < 10,
                m <= 0xffff_ffff,
        ;
        let t: u64 = (x as u64) * (m as u64) + carry;
        let d: u8 = (t % 10) as u8;
        let nc: u64 = t / 10;
        proof {
            let p = pow10(i as nat);
            lemma_val_push(res@, d);
            lemma_val_take_step(a@, i as int);
            assert(pow10((i + 1) as nat) == 10 * p);
            let old_v = val(res@);
            let va = val(a@.take(i as int));
            assert(old_v + d * p + nc * (10 * p) == (va + x * p) * m) by (nonlinear_arith)
                requires
                    old_v + carry * p == va * m,
                    d + 10 * nc == x * m + carry,
            ;
        }
        res.push(d);
        carry = nc;
    }
    proof {
        assert(a@.take(n as int) =~= a@);
    }
    while carry > 0
        invariant
            digits_ok(res@),
            val(res@) + carry * pow10(res.len() as nat) == val(a@) * m,
        decreases carry,
    {
        let d: u8 = (carry % 10) as u8;
        let nc: u64 = carry / 10;
        proof {
            let p = pow10(res.len() as nat);
            lemma_val_push(res@, d);
            assert(pow10((res.len() + 1) as nat) == 10 * p);
            let old_v = val(res@);
            assert(old_v + d * p + nc * (10 * p) == old_v + carry * p) by (nonlinear_arith)
                requires
                    d + 10 * nc == carry,
            ;
        }
        res.push(d);
        carry = nc;
    }
    res
}

/// `a * 10^k`.
pub fn shift(a: &Vec<u8>, k: usize) -> (r: Vec<u8>)
    requires
        digits_ok(a@),
    ensures
        digits_ok(r@),
        val(r@) == val(a@) * pow10(k as nat),
{
    let mut res: Vec<u8> = Vec::new();
    for j in 0..k
        invariant
            res.len() == j,
            digits_ok(res@),
            val(res@) == 0,
    {
        proof {
            lemma_val_push(res@, 0);
        }
        res.push(0);
    }
    assert(a@.take(0) =~= Seq::<u8>::empty());
    assert(val(a@.take(0)) == 0);
    assert(0 * pow10(k as nat) == 0);
    for i in 0..a.len()
        invariant
            digits_ok(a@),
            res.len() == k + i,
            digits_ok(res@),
            val(res@) == val(a@.take(i as int)) * pow10(k as nat),
    {
        let x: u8 = a[i];
        assert(a@[i as int] < 10);
        proof {
            lemma_val_push(res@, x);
            lemma_val_take_step(a@, i as int);
            lemma_pow10_add(i as nat, k as nat);
            let p = pow10(i as nat);
            let q = pow10(k as nat);
            let va = val(a@.take(i as int));
            assert((va + x * p) * q == va * q + x * (p * q)) by (nonlinear_arith);
            assert((k + i) as nat == (i + k) as nat);
        }
        res.push(x);
    }
    assert(a@.take(a.len() as int) =~= a@);
    res
}

/// `a * b`.
pub fn product(a: &Vec<u8>, b: &Vec<u8>) -> (r: Vec<u8>)
    requires
        digits_ok(a@),
        digits_ok(b@),
    ensures
        digits_ok(r@),
        val(r@) == val(a@) * val(b@),
{
    let mut acc: Vec<u8> = Vec::new();
    assert(b@.take(0) =~= Seq::<u8>::empty());
    assert(val(acc@) == 0);
    assert(val(b@.take(0)) == 0);
    assert(val(a@) * val(b@.take(0)) == 0) by (nonlinear_arith)
        requires
            val(b@.take(0)) == 0,
    ;
    for j in 0..b.len()
        invariant
            digits_ok(a@),
            digits_ok(b@),
            digits_ok(acc@),
            val(acc@) == val(a@) * val(b@.take(j as int)),
    {
        let y: u8 = b[j];
        assert(b@[j as int] < 10);
        let t = mul_small(a, y as u32);
        let u = shift(&t, j);
        let next = sum(&acc, &u);
        proof {
            lemma_val_take_step(b@, j as int);
            let va = val(a@);
            let vb = val(b@.take(j as int));
            let p = pow10(j as nat);
            assert(va * vb + va * y * p == va * (vb + y * p)) by (nonlinear_arith);
        }
        acc = next;
    }
    assert(b@.take(b.len() as int) =~= b@);
    acc
}

/// The number `1`.
pub fn one() -> (r: Vec<u8>)
    ensures
        digits_ok(r@),
        val(r@) == 1,
{
    let mut r: Vec<u8> = Vec::new();
    proof {
        lemma_val_push(r@, 1);
        assert(pow10(0) == 1);
    }
    r.push(1);
    r
}

proof fn lemma_digits_value_cons(c: char, t: Seq<char>)
    ensures
        digits_value(seq![c] + t) == digit_value(c) * pow10(t.len()) + digits_value(t),
    decreases t.len(),
{
    let s = seq![c] + t;
    if t.len() == 0 {
        assert(s.drop_last() =~= Seq::<char>::empty());
        assert(s.last() == c);
        assert(digits_value(s) == digits_value(s.drop_last()) * 10 + digit_value(c));
        assert(digits_value(Seq::<char>::empty()) == 0);
        assert(pow10(0) == 1);
    } else {
        let u = t.drop_last();
        assert(s.drop_last() =~= seq![c] + u);
        assert(s.last() == t.last());
        lemma_digits_value_cons(c, u);
        let p = pow10(u.len());
        let dc = digit_value(c);
        let v = digits_value(u);
        assert(digits_value(s) == digits_value(seq![c] + u) * 10 + digit_value(t.last()));
        assert(digits_value(t) == v * 10 + digit_value(t.last()));
        assert(pow10(t.len()) == 10 * p);
        assert((dc * p + v) * 10 == dc * (10 * p) + v * 10) by (nonlinear_arith);
    }
}

/// The digits of a big-endian run of digit characters.
pub fn from_digit_chars(ds: &[char]) -> (r: Vec<u8>)
    requires
        all_digits(ds@),
    ensures
        r.len() == ds.len(),
        digits_ok(r@),
        val(r@) == digits_value(ds@),
{
    let n: usize = ds.len();
    let mut res: Vec<u8> = Vec::new();
    let mut i: usize = n;
    assert(ds@.subrange(n as int, n as int) =~= Seq::<char>::empty());
    while i > 0
        invariant
            i <= n,
            n == ds.len(),
            all_digits(ds@),
            res.len() == n - i,
            digits_ok(res@),
            val(res@) == digits_value(ds@.subrange(i as int, n as int)),
        decreases i,
    {
        i = i - 1;
        let c: char = ds[i];
        assert(crate::numeral::is_digit(ds@[i as int]));
        let d: u8 = (c as u32 - '0' as u32) as u8;
        proof {
            let t = ds@.subrange(i + 1, n as int);
            assert(ds@.subrange(i as int, n as int) =~= seq![c] + t);
            lemma_digits_value_cons(c, t);
            lemma_val_push(res@, d);
        }
        res.push(d);
    }
    assert(ds@.subrange(0, n as int) =~= ds@);
    res
}

} // verus!
