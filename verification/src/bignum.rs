//! Signed integers of any size, held as base 2^64 digits (least significant
//! first), with the operations that exact return arithmetic needs: making one
//! from a machine integer, multiplying by a machine integer, and subtracting.

use vstd::prelude::*;

verus! {

/// The base of the digits, 2^64.
pub open spec fn limb_base() -> nat {
    0x1_0000_0000_0000_0000
}

/// `limb_base()` to the power `n`: the weight of digit `n`.
pub open spec fn weight(n: nat) -> nat
    decreases n,
{
    if n == 0 {
        1
    } else {
        weight((n - 1) as nat) * limb_base()
    }
}

/// Digit `i` of `s`, and 0 past its end.
pub open spec fn limb_at(s: Seq<u64>, i: int) -> nat {
    if 0 <= i < s.len() {
        s[i] as nat
    } else {
        0
    }
}

/// The number that the lowest `n` digits of `s` stand for.
pub open spec fn limbs_value(s: Seq<u64>, n: nat) -> nat
    decreases n,
{
    if n == 0 {
        0
    } else {
        limbs_value(s, (n - 1) as nat) + limb_at(s, n - 1) * weight((n - 1) as nat)
    }
}

/// The number that the digits `s` stand for.
pub open spec fn magnitude_value(s: Seq<u64>) -> nat {
    limbs_value(s, s.len())
}

proof fn lemma_weight_positive(n: nat)
    ensures
        weight(n) >= 1,
    decreases n,
{
    if n > 0 {
        lemma_weight_positive((n - 1) as nat);
        let w = weight((n - 1) as nat);
        let b = limb_base();
        assert(w * b >= 1) by (nonlinear_arith)
            requires
                w >= 1,
                b >= 1,
        ;
    }
}

proof fn lemma_limbs_value_agree(s1: Seq<u64>, s2: Seq<u64>, n: nat)
    requires
        forall|i: int| 0 <= i < n ==> limb_at(s1, i) == limb_at(s2, i),
    ensures
        limbs_value(s1, n) == limbs_value(s2, n),
    decreases n,
{
    if n > 0 {
        lemma_limbs_value_agree(s1, s2, (n - 1) as nat);
        assert(limb_at(s1, n - 1) == limb_at(s2, n - 1));
    }
}

proof fn lemma_limbs_value_beyond(s: Seq<u64>, n: nat)
    requires
        n >= s.len(),
    ensures
        limbs_value(s, n) == magnitude_value(s),
    decreases n,
{
    if n > s.len() {
        lemma_limbs_value_beyond(s, (n - 1) as nat);
        assert(limb_at(s, n - 1) == 0);
    }
}

proof fn lemma_limbs_value_bound(s: Seq<u64>, n: nat)
    ensures
        limbs_value(s, n) < weight(n),
    decreases n,
{
    if n > 0 {
        lemma_limbs_value_bound(s, (n - 1) as nat);
        let low = limbs_value(s, (n - 1) as nat);
        let d = limb_at(s, n - 1);
        let w = weight((n - 1) as nat);
        let b = limb_base();
        assert(d < b);
        assert(low + d * w < w * b) by (nonlinear_arith)
            requires
                low < w,
                d < b,
                d >= 0,
        ;
    }
}

proof fn lemma_push_value(s: Seq<u64>, x: u64)
    ensures
        magnitude_value(s.push(x)) == magnitude_value(s) + x * weight(s.len()),
{
    let t = s.push(x);
    assert forall|i: int| 0 <= i < s.len() implies limb_at(t, i) == limb_at(s, i) by {
        assert(t[i] == s[i]);
    }
    lemma_limbs_value_agree(t, s, s.len());
    assert(limb_at(t, s.len() as int) == x);
}

proof fn lemma_mul_step(o: int, c: int, w: int, x: int, m: int, t: int, q: int, r: int, la: int)
    by (nonlinear_arith)
    requires
        o + c * w == la * m,
        t == x * m + c,
        t == q * 0x1_0000_0000_0000_0000 + r,
    ensures
        o + r * w + q * (w * 0x1_0000_0000_0000_0000) == (la + x * w) * m,
{
}

proof fn lemma_add_step(o: int, c: int, w: int, x: int, y: int, t: int, q: int, r: int, la: int, lb: int)
    by (nonlinear_arith)
    requires
        o + c * w == la + lb,
        t == x + y + c,
        t == q * 0x1_0000_0000_0000_0000 + r,
    ensures
        o + r * w + q * (w * 0x1_0000_0000_0000_0000) == (la + x * w) + (lb + y * w),
{
}

proof fn lemma_sub_step(o: int, c: int, w: int, x: int, y: int, t: int, nc: int, r: int, la: int, lb: int)
    by (nonlinear_arith)
    requires
        o - c * w == la - lb,
        t == x + 0x1_0000_0000_0000_0000 - y - c,
        (nc == 0 && r == t - 0x1_0000_0000_0000_0000) || (nc == 1 && r == t),
    ensures
        o + r * w - nc * (w * 0x1_0000_0000_0000_0000) == (la + x * w) - (lb + y * w),
{
}

/// The digits of `a * m`.
pub fn mul_limbs(a: &Vec<u64>, m: u64) -> (r: Vec<u64>)
    ensures
        magnitude_value(r@) == magnitude_value(a@) * m,
{
    let mut out: Vec<u64> = Vec::new();
    let mut carry: u64 = 0;
    let mut i: usize = 0;
    assert(magnitude_value(out@) == 0);
    assert(limbs_value(a@, 0) == 0);
    assert(limbs_value(a@, 0) * m == 0) by (nonlinear_arith)
        requires
            limbs_value(a@, 0) == 0,
    ;
    while i < a.len()
        invariant
            i <= a.len(),
            out.len() == i,
            magnitude_value(out@) + carry * weight(i as nat) == limbs_value(a@, i as nat) * m,
        decreases a.len() - i,
    {
        let x = a[i];
        assert((x as u128) * (m as u128) <= 0xffff_ffff_ffff_fffe_0000_0000_0000_0001u128) by (nonlinear_arith);
        let t: u128 = (x as u128) * (m as u128) + (carry as u128);
        let lo: u64 = (t % 0x1_0000_0000_0000_0000u128) as u64;
        let hi: u64 = (t / 0x1_0000_0000_0000_0000u128) as u64;
        proof {
            let w = weight(i as nat);
            assert(t == (t / 0x1_0000_0000_0000_0000u128) * 0x1_0000_0000_0000_0000 + t % 0x1_0000_0000_0000_0000u128);
            lemma_push_value(out@, lo);
            assert(limb_at(a@, i as int) == x);
            assert(weight((i + 1) as nat) == w * limb_base());
            lemma_mul_step(
                magnitude_value(out@) as int,
                carry as int,
                w as int,
                x as int,
                m as int,
                t as int,
                hi as int,
                lo as int,
                limbs_value(a@, i as nat) as int,
            );
        }
        out.push(lo);
        carry = hi;
        i = i + 1;
    }
    proof {
        lemma_push_value(out@, carry);
    }
    out.push(carry);
    out
}

/// The digits of `a + b`.
pub fn add_limbs(a: &Vec<u64>, b: &Vec<u64>) -> (r: Vec<u64>)
    ensures
        magnitude_value(r@) == magnitude_value(a@) + magnitude_value(b@),
{
    let n: usize = if a.len() < b.len() {
        b.len()
    } else {
        a.len()
    };
    let mut out: Vec<u64> = Vec::new();
    let mut carry: u64 = 0;
    let mut i: usize = 0;
    while i < n
        invariant
            n >= a.len(),
            n >= b.len(),
            i <= n,
            out.len() == i,
            carry <= 1,
            magnitude_value(out@) + carry * weight(i as nat) == limbs_value(a@, i as nat) + limbs_value(b@, i as nat),
        decreases n - i,
    {
        let x: u64 = if i < a.len() {
            a[i]
        } else {
            0
        };
        let y: u64 = if i < b.len() {
            b[i]
        } else {
            0
        };
        let t: u128 = (x as u128) + (y as u128) + (carry as u128);
        let lo: u64 = (t % 0x1_0000_0000_0000_0000u128) as u64;
        let hi: u64 = (t / 0x1_0000_0000_0000_0000u128) as u64;
        proof {
            let w = weight(i as nat);
            assert(t == (t / 0x1_0000_0000_0000_0000u128) * 0x1_0000_0000_0000_0000 + t % 0x1_0000_0000_0000_0000u128);
            lemma_push_value(out@, lo);
            assert(limb_at(a@, i as int) == x);
            assert(limb_at(b@, i as int) == y);
            assert(weight((i + 1) as nat) == w * limb_base());
            lemma_add_step(
                magnitude_value(out@) as int,
                carry as int,
                w as int,
                x as int,
                y as int,
                t as int,
                hi as int,
                lo as int,
                limbs_value(a@, i as nat) as int,
                limbs_value(b@, i as nat) as int,
            );
        }
        out.push(lo);
        carry = hi;
        i = i + 1;
    }
    proof {
        lemma_limbs_value_beyond(a@, n as nat);
        lemma_limbs_value_beyond(b@, n as nat);
        lemma_push_value(out@, carry);
    }
    out.push(carry);
    out
}

/// The digits of `a - b` and `false` when `b <= a`; `true` when `a < b`.
pub fn sub_limbs(a: &Vec<u64>, b: &Vec<u64>) -> (r: (Vec<u64>, bool))
    ensures
        r.1 == (magnitude_value(a@) < magnitude_value(b@)),
        !r.1 ==> magnitude_value(r.0@) == magnitude_value(a@) - magnitude_value(b@),
{
    let n: usize = if a.len() < b.len() {
        b.len()
    } else {
        a.len()
    };
    let mut out: Vec<u64> = Vec::new();
    let mut borrow: u64 = 0;
    let mut i: usize = 0;
    while i < n
        invariant
            n >= a.len(),
            n >= b.len(),
            i <= n,
            out.len() == i,
            borrow <= 1,
            magnitude_value(out@) - borrow * weight(i as nat) == limbs_value(a@, i as nat) - limbs_value(b@, i as nat),
        decreases n - i,
    {
        let x: u64 = if i < a.len() {
            a[i]
        } else {
            0
        };
        let y: u64 = if i < b.len() {
            b[i]
        } else {
            0
        };
        let t: u128 = (x as u128) + 0x1_0000_0000_0000_0000u128 - (y as u128) - (borrow as u128);
        let (lo, next): (u64, u64) = if t >= 0x1_0000_0000_0000_0000u128 {
            ((t - 0x1_0000_0000_0000_0000u128) as u64, 0)
        } else {
            (t as u64, 1)
        };
        proof {
            let w = weight(i as nat);
            lemma_push_value(out@, lo);
            assert(limb_at(a@, i as int) == x);
            assert(limb_at(b@, i as int) == y);
            assert(weight((i + 1) as nat) == w * limb_base());
            lemma_sub_step(
                magnitude_value(out@) as int,
                borrow as int,
                w as int,
                x as int,
                y as int,
                t as int,
                next as int,
                lo as int,
                limbs_value(a@, i as nat) as int,
                limbs_value(b@, i as nat) as int,
            );
        }
        out.push(lo);
        borrow = next;
        i = i + 1;
    }
    proof {
        lemma_limbs_value_beyond(a@, n as nat);
        lemma_limbs_value_beyond(b@, n as nat);
        lemma_limbs_value_bound(out@, n as nat);
    }
    (out, borrow == 1)
}

/// A signed integer of any size: a sign and the digits of its magnitude.
/// Zero may carry either sign.
#[derive(Debug, Clone)]
pub struct BigInt {
    pub negative: bool,
    pub magnitude: Vec<u64>,
}

impl View for BigInt {
    type V = int;

    open spec fn view(&self) -> int {
        if self.negative {
            -(magnitude_value(self.magnitude@) as int)
        } else {
            magnitude_value(self.magnitude@) as int
        }
    }
}

proof fn lemma_two_limbs(lo: u64, hi: u64)
    ensures
        magnitude_value(seq![lo, hi]) == lo + hi * limb_base(),
{
    let s = seq![lo, hi];
    assert(weight(0) == 1);
    assert(weight(1) == limb_base());
    assert(limbs_value(s, 0) == 0);
    assert(limb_at(s, 0) == lo);
    assert(limbs_value(s, 1) == limbs_value(s, 0) + limb_at(s, 0) * weight(0));
    assert(limbs_value(s, 1) == lo);
    assert(limb_at(s, 1) == hi);
    assert(limbs_value(s, 2) == limbs_value(s, 1) + limb_at(s, 1) * weight(1));
}

proof fn lemma_signed_product(neg_a: bool, ma: int, neg_g: bool, mg: int)
    requires
        ma >= 0,
        mg >= 0,
    ensures
        (if neg_a != neg_g { -(ma * mg) } else { ma * mg }) == (if neg_a { -ma } else { ma }) * (if neg_g { -mg } else { mg }),
{
    assert((-ma) * (-mg) == ma * mg) by (nonlinear_arith);
    assert((-ma) * mg == -(ma * mg)) by (nonlinear_arith);
    assert(ma * (-mg) == -(ma * mg)) by (nonlinear_arith);
}

impl BigInt {
    /// The number `x`.
    pub fn from_i128(x: i128) -> (r: BigInt)
        ensures
            r@ == x,
    {
        let m: u128 = if x < 0 {
            ((-(x + 1)) as u128) + 1
        } else {
            x as u128
        };
        let lo: u64 = (m % 0x1_0000_0000_0000_0000u128) as u64;
        let hi: u64 = (m / 0x1_0000_0000_0000_0000u128) as u64;
        let digits: Vec<u64> = vec![lo, hi];
        proof {
            assert(m == (m / 0x1_0000_0000_0000_0000u128) * 0x1_0000_0000_0000_0000 + m % 0x1_0000_0000_0000_0000u128);
            lemma_two_limbs(lo, hi);
            assert(digits@ =~= seq![lo, hi]);
        }
        BigInt { negative: x < 0, magnitude: digits }
    }

    /// The product `self * g`, for a factor below 2^64 in size.
    pub fn mul_small(&self, g: i128) -> (r: BigInt)
        requires
            -0x1_0000_0000_0000_0000 < g < 0x1_0000_0000_0000_0000,
        ensures
            r@ == self@ * g,
    {
        let mg: u64 = if g < 0 {
            (-g) as u64
        } else {
            g as u64
        };
        let digits = mul_limbs(&self.magnitude, mg);
        proof {
            lemma_signed_product(self.negative, magnitude_value(self.magnitude@) as int, g < 0, mg as int);
        }
        BigInt { negative: self.negative != (g < 0), magnitude: digits }
    }

    /// The difference `self - other`.
    pub fn sub(&self, other: &BigInt) -> (r: BigInt)
        ensures
            r@ == self@ - other@,
    {
        if self.negative != other.negative {
            BigInt { negative: self.negative, magnitude: add_limbs(&self.magnitude, &other.magnitude) }
        } else {
            let (d, below) = sub_limbs(&self.magnitude, &other.magnitude);
            if !below {
                BigInt { negative: self.negative, magnitude: d }
            } else {
                let (e, _) = sub_limbs(&other.magnitude, &self.magnitude);
                BigInt { negative: !self.negative, magnitude: e }
            }
        }
    }
}

} // verus!
