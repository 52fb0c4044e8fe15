//! Exact natural numbers in base 2^32 (least significant limb first): the
//! products of vote odds, their comparison, and the quotients that reweighting
//! needs.

use vstd::prelude::*;
use crate::weights::ceil_div;

verus! {

/// The base of a limb.
pub open spec fn limb_base() -> int {
    0x1_0000_0000
}

/// The place value of limb `i`: `limb_base()` to the power `i`.
pub open spec fn place(i: int) -> int
    decreases i,
{
    if i <= 0 {
        1
    } else {
        limb_base() * place(i - 1)
    }
}

/// The number that the first `k` limbs of `s` stand for.
pub open spec fn value_upto(s: Seq<u32>, k: int) -> int
    decreases k,
{
    if k <= 0 {
        0
    } else {
        value_upto(s, k - 1) + s[k - 1] * place(k - 1)
    }
}

/// The number that the limbs `s` stand for.
pub open spec fn value(s: Seq<u32>) -> int {
    value_upto(s, s.len() as int)
}

proof fn lemma_place_positive(i: int)
    ensures
        place(i) >= 1,
    decreases i,
{
    if i > 0 {
        lemma_place_positive(i - 1);
        assert(limb_base() * place(i - 1) >= 1) by (nonlinear_arith)
            requires
                place(i - 1) >= 1,
        ;
    }
}

proof fn lemma_value_agree(a: Seq<u32>, b: Seq<u32>, k: int)
    requires
        0 <= k <= a.len(),
        k <= b.len(),
        forall|j: int| 0 <= j < k ==> a[j] == b[j],
    ensures
        value_upto(a, k) == value_upto(b, k),
    decreases k,
{
    if k > 0 {
        lemma_value_agree(a, b, k - 1);
    }
}

proof fn lemma_value_bounds(s: Seq<u32>, k: int)
    requires
        0 <= k <= s.len(),
    ensures
        0 <= value_upto(s, k) < place(k),
    decreases k,
{
    if k > 0 {
        lemma_value_bounds(s, k - 1);
        lemma_place_positive(k - 1);
        let v = value_upto(s, k - 1);
        let p = place(k - 1);
        let d = s[k - 1] as int;
        assert(0 <= v + d * p < limb_base() * p) by (nonlinear_arith)
            requires
                0 <= v < p,
                0 <= d < limb_base(),
        ;
    }
}

/// Appending a zero limb keeps the value.
proof fn lemma_value_push_zero(s: Seq<u32>)
    ensures
        value(s.push(0)) == value(s),
{
    lemma_value_agree(s, s.push(0), s.len() as int);
}

/// `a` times `m`.
pub fn mul_small(a: &Vec<u32>, m: u64) -> (r: Vec<u32>)
    ensures
        value(r@) == value(a@) * m,
{
    let mut out: Vec<u32> = Vec::new();
    let mut carry: u64 = 0;
    let mut i: usize = 0;
    while i < a.len()
        invariant
            i <= a@.len(),
            out@.len() == i,
            carry <= m,
            value(out@) + carry * place(i as int) == value_upto(a@, i as int) * m,
        decreases a@.len() - i,
    {
        let d = a[i] as u128;
        assert(d * (m as u128) + carry as u128 <= 0x1_0000_0000 * (m as u128)) by (nonlinear_arith)
            requires
                d < 0x1_0000_0000,
                carry <= m,
        ;
        assert(0x1_0000_0000 * (m as u128) < 0x1_0000_0000_0000_0000_0000_0000) by (nonlinear_arith);
        let t: u128 = d * (m as u128) + carry as u128;
        let lo = (t % 0x1_0000_0000) as u32;
        let hi = t / 0x1_0000_0000;
        assert(hi <= m) by (nonlinear_arith)
            requires
                t <= 0x1_0000_0000 * (m as u128),
                hi == t / 0x1_0000_0000,
        ;
        proof {
            let ghost p = place(i as int);
            lemma_value_agree(out@, out@.push(lo), i as int);
            assert(value(out@.push(lo)) == value(out@) + lo * p);
            assert(value_upto(a@, i + 1) == value_upto(a@, i as int) + d * p);
            assert(place(i + 1) == limb_base() * p);
            assert(t == lo + 0x1_0000_0000 * hi);
            assert(value(out@) + lo * p + hi * (limb_base() * p) == (value_upto(a@, i as int) + d * p)
                * m) by (nonlinear_arith)
                requires
                    value(out@) + carry * p == value_upto(a@, i as int) * m,
                    t == d * m + carry,
                    t == lo + 0x1_0000_0000 * hi,
                    limb_base() == 0x1_0000_0000,
            ;
        }
        out.push(lo);
        carry = hi as u64;
        i = i + 1;
    }
    while carry > 0
        invariant
            out@.len() >= a@.len(),
            value(out@) + carry * place(out@.len() as int) == value(a@) * m,
        decreases carry,
    {
        let lo = (carry % 0x1_0000_0000) as u32;
        let hi = carry / 0x1_0000_0000;
        proof {
            let ghost p = place(out@.len() as int);
            lemma_value_agree(out@, out@.push(lo), out@.len() as int);
            assert(value(out@.push(lo)) == value(out@) + lo * p);
            assert(place(out@.len() as int + 1) == limb_base() * p);
            assert(carry == lo + 0x1_0000_0000 * hi);
            assert(lo * p + hi * (limb_base() * p) == carry * p) by (nonlinear_arith)
                requires
                    carry == lo + 0x1_0000_0000 * hi,
                    limb_base() == 0x1_0000_0000,
            ;
        }
        out.push(lo);
        carry = hi;
    }
    proof {
        assert(carry * place(out@.len() as int) == 0) by (nonlinear_arith)
            requires
                carry == 0,
        ;
    }
    out
}

/// `a` padded with zero limbs to at least `n` limbs.
fn padded(a: &Vec<u32>, n: usize) -> (r: Vec<u32>)
    ensures
        value(r@) == value(a@),
        r@.len() == if a@.len() >= n {
            a@.len()
        } else {
            n as nat
        },
{
    let mut out = a.clone();
    while out.len() < n
        invariant
            value(out@) == value(a@),
            out@.len() >= a@.len(),
            a@.len() >= n ==> out@.len() == a@.len(),
            out@.len() <= n || out@.len() == a@.len(),
        decreases n - out@.len(),
    {
        proof {
            lemma_value_push_zero(out@);
        }
        out.push(0);
    }
    out
}

/// Whether the value of `a` is at least that of `b`.
pub fn at_least(a: &Vec<u32>, b: &Vec<u32>) -> (r: bool)
    ensures
        r == (value(a@) >= value(b@)),
{
    let n = if a.len() >= b.len() {
        a.len()
    } else {
        b.len()
    };
    let x = padded(a, n);
    let y = padded(b, n);
    // the sign of value_upto(x, i) - value_upto(y, i)
    let mut cmp: i8 = 0;
    let mut i: usize = 0;
    while i < n
        invariant
            x@.len() == n,
            y@.len() == n,
            i <= n,
            cmp == 0 ==> value_upto(x@, i as int) == value_upto(y@, i as int),
            cmp == 1 ==> value_upto(x@, i as int) > value_upto(y@, i as int),
            cmp == -1 ==> value_upto(x@, i as int) < value_upto(y@, i as int),
            cmp == 0 || cmp == 1 || cmp == -1,
        decreases n - i,
    {
        proof {
            lemma_value_bounds(x@, i as int);
            lemma_value_bounds(y@, i as int);
            let p = place(i as int);
            let vx = value_upto(x@, i as int);
            let vy = value_upto(y@, i as int);
            let dx = x@[i as int] as int;
            let dy = y@[i as int] as int;
            if dx > dy {
                assert(vx + dx * p > vy + dy * p) by (nonlinear_arith)
                    requires
                        0 <= vx < p,
                        0 <= vy < p,
                        dx > dy,
                ;
            } else if dx < dy {
                assert(vx + dx * p < vy + dy * p) by (nonlinear_arith)
                    requires
                        0 <= vx < p,
                        0 <= vy < p,
                        dx < dy,
                ;
            }
        }
        if x[i] > y[i] {
            cmp = 1;
        } else if x[i] < y[i] {
            cmp = -1;
        }
        i = i + 1;
    }
    cmp >= 0
}

/// 2 to the power `k`.
pub open spec fn pow2(k: nat) -> int
    decreases k,
{
    if k == 0 {
        1
    } else {
        2 * pow2((k - 1) as nat)
    }
}

pub proof fn lemma_pow2_positive(k: nat)
    ensures
        pow2(k) >= 1,
    decreases k,
{
    if k > 0 {
        lemma_pow2_positive((k - 1) as nat);
    }
}

/// The limbs of `x`.
pub fn from_u64(x: u64) -> (r: Vec<u32>)
    ensures
        value(r@) == x,
{
    let one = vec![1u32];
    assert(value(one@) == 1) by {
        reveal_with_fuel(value_upto, 2);
    }
    let r = mul_small(&one, x);
    assert(value(r@) == x) by (nonlinear_arith)
        requires
            value(r@) == value(one@) * x,
            value(one@) == 1,
    ;
    r
}

/// The limbs of 2 to the power `k`.
pub fn power_of_two(k: u32) -> (r: Vec<u32>)
    ensures
        value(r@) == pow2(k as nat),
{
    let mut out = from_u64(1);
    let mut i: u32 = 0;
    while i < k
        invariant
            i <= k,
            value(out@) == pow2(i as nat),
        decreases k - i,
    {
        out = mul_small(&out, 2);
        i = i + 1;
    }
    out
}

/// `a + b`.
pub fn add_limbs(a: &Vec<u32>, b: &Vec<u32>) -> (r: Vec<u32>)
    ensures
        value(r@) == value(a@) + value(b@),
{
    let n = if a.len() >= b.len() {
        a.len()
    } else {
        b.len()
    };
    let x = padded(a, n);
    let y = padded(b, n);
    let mut out: Vec<u32> = Vec::new();
    let mut carry: u64 = 0;
    let mut i: usize = 0;
    while i < n
        invariant
            x@.len() == n,
            y@.len() == n,
            i <= n,
            out@.len() == i,
            carry <= 1,
            value(out@) + carry * place(i as int) == value_upto(x@, i as int) + value_upto(y@, i as int),
        decreases n - i,
    {
        let s: u64 = x[i] as u64 + y[i] as u64 + carry;
        let lo = (s % 0x1_0000_0000) as u32;
        let hi = s / 0x1_0000_0000;
        proof {
            let p = place(i as int);
            lemma_value_agree(out@, out@.push(lo), i as int);
            assert(value(out@.push(lo)) == value(out@) + lo * p);
            assert(place(i + 1) == limb_base() * p);
            assert(s == lo + 0x1_0000_0000 * hi);
            assert(value(out@) + lo * p + hi * (limb_base() * p) == value(out@) + carry * p + x@[i as int]
                * p + y@[i as int] * p) by (nonlinear_arith)
                requires
                    s == x@[i as int] + y@[i as int] + carry,
                    s == lo + 0x1_0000_0000 * hi,
                    limb_base() == 0x1_0000_0000,
            ;
        }
        out.push(lo);
        carry = hi;
        i = i + 1;
    }
    if carry > 0 {
        proof {
            lemma_value_agree(out@, out@.push(1u32), n as int);
        }
        out.push(1);
    }
    out
}

/// `a * b`.
pub fn mul_limbs(a: &Vec<u32>, b: &Vec<u32>) -> (r: Vec<u32>)
    ensures
        value(r@) == value(a@) * value(b@),
{
    let mut acc: Vec<u32> = Vec::new();
    let mut shifted = a.clone();
    proof {
        assert(value(shifted@) == value(a@) * place(0)) by (nonlinear_arith)
            requires
                shifted@ == a@,
                place(0) == 1,
        ;
    }
    let mut j: usize = 0;
    while j < b.len()
        invariant
            j <= b@.len(),
            value(acc@) == value(a@) * value_upto(b@, j as int),
            value(shifted@) == value(a@) * place(j as int),
        decreases b@.len() - j,
    {
        let term = mul_small(&shifted, b[j] as u64);
        acc = add_limbs(&acc, &term);
        shifted = mul_small(&shifted, 0x1_0000_0000);
        proof {
            let va = value(a@);
            let p = place(j as int);
            assert(place(j + 1) == limb_base() * p);
            assert(value_upto(b@, j + 1) == value_upto(b@, j as int) + b@[j as int] * p);
            assert(va * value_upto(b@, j as int) + va * p * b@[j as int] == va * (value_upto(
                b@,
                j as int,
            ) + b@[j as int] * p)) by (nonlinear_arith);
            assert(va * p * 0x1_0000_0000 == va * (limb_base() * p)) by (nonlinear_arith)
                requires
                    limb_base() == 0x1_0000_0000,
            ;
        }
        j = j + 1;
    }
    acc
}

/// `num / den` rounded up, found by bisection below `hi`.
pub fn ceil_quotient(num: &Vec<u32>, den: &Vec<u32>, hi: u64) -> (r: u64)
    requires
        value(den@) >= 1,
        value(num@) <= hi * value(den@),
    ensures
        r == ceil_div(value(num@), value(den@)),
        r <= hi,
{
    let ghost n = value(num@);
    let ghost d = value(den@);
    proof {
        lemma_value_bounds(num@, num@.len() as int);
    }
    let mut lo: u64 = 0;
    let mut up: u64 = hi;
    while lo < up
        invariant
            d == value(den@),
            n == value(num@),
            d >= 1,
            n >= 0,
            lo <= up <= hi,
            n <= up * d,
            lo == 0 || (lo - 1) * d < n,
        decreases up - lo,
    {
        let mid = lo + (up - lo) / 2;
        let prod = mul_small(den, mid);
        if at_least(&prod, num) {
            up = mid;
        } else {
            proof {
                assert(((mid + 1) - 1) * d == mid * d);
            }
            lo = mid + 1;
        }
    }
    proof {
        let q = lo as int;
        let x = n + d - 1;
        assert(q * d <= x && x < q * d + d) by (nonlinear_arith)
            requires
                n <= q * d,
                q == 0 || (q - 1) * d < n,
                d >= 1,
                n >= 0,
                x == n + d - 1,
        ;
        vstd::arithmetic::div_mod::lemma_fundamental_div_mod_converse(x, d, q, x - q * d);
    }
    lo
}

} // verus!
