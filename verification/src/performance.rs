//! Time-weighted return over sub-periods, computed exactly as a fraction.
//!
//! A sub-period's return is `(end - start - cash_flow) / start`, and 0 for a
//! period that starts from nothing; the time-weighted return chains them:
//! `(1 + r1) * (1 + r2) * ... - 1`, which is 0 for no periods. Amounts are
//! whole numbers in any one unit (a return does not depend on the unit).

use vstd::prelude::*;

use crate::bignum::BigInt;

verus! {

/// One sub-period between cash flows.
#[derive(Debug, Clone, Copy, PartialEq, Eq, Structural)]
pub struct SubPeriod {
    pub start_value: i64,
    pub end_value: i64,
    pub cash_flow: i64,
}

/// The number `numerator / denominator`, held exactly.
#[derive(Debug, Clone)]
pub struct Fraction {
    pub numerator: BigInt,
    pub denominator: BigInt,
}

/// The growth factor `1 + return` of a sub-period, as numerator ...
pub open spec fn growth_num(p: SubPeriod) -> int {
    if p.start_value == 0 {
        1
    } else {
        p.end_value - p.cash_flow
    }
}

/// ... and denominator.
pub open spec fn growth_den(p: SubPeriod) -> int {
    if p.start_value == 0 {
        1
    } else {
        p.start_value as int
    }
}

/// The product of the growth numerators.
pub open spec fn num_product(ps: Seq<SubPeriod>) -> int
    decreases ps.len(),
{
    if ps.len() == 0 {
        1
    } else {
        num_product(ps.drop_last()) * growth_num(ps.last())
    }
}

/// The product of the growth denominators.
pub open spec fn den_product(ps: Seq<SubPeriod>) -> int
    decreases ps.len(),
{
    if ps.len() == 0 {
        1
    } else {
        den_product(ps.drop_last()) * growth_den(ps.last())
    }
}

impl SubPeriod {
    /// The sub-period's return, `(end - start - cash_flow) / start`, or 0
    /// when it starts from nothing.
    pub fn period_return(&self) -> (r: Fraction)
        ensures
            self.start_value == 0 ==> r.numerator@ == 0 && r.denominator@ == 1,
            self.start_value != 0 ==> r.numerator@ == self.end_value - self.start_value - self.cash_flow
                && r.denominator@ == self.start_value,
    {
        if self.start_value == 0 {
            Fraction { numerator: BigInt::from_i128(0), denominator: BigInt::from_i128(1) }
        } else {
            Fraction {
                numerator: BigInt::from_i128(
                    self.end_value as i128 - self.start_value as i128 - self.cash_flow as i128,
                ),
                denominator: BigInt::from_i128(self.start_value as i128),
            }
        }
    }
}

proof fn lemma_den_product_nonzero(ps: Seq<SubPeriod>)
    ensures
        den_product(ps) != 0,
    decreases ps.len(),
{
    if ps.len() > 0 {
        lemma_den_product_nonzero(ps.drop_last());
        assert(growth_den(ps.last()) != 0);
        vstd::arithmetic::mul::lemma_mul_nonzero(den_product(ps.drop_last()), growth_den(ps.last()));
    }
}

/// The time-weighted return of consecutive sub-periods, exactly, as
/// `(N - D) / D` for the products `N / D` of the growth factors.
pub fn calculate_twr_from_periods(periods: &[SubPeriod]) -> (r: Fraction)
    ensures
        r.numerator@ == num_product(periods@) - den_product(periods@),
        r.denominator@ == den_product(periods@),
        r.denominator@ != 0,
{
    let mut num = BigInt::from_i128(1);
    let mut den = BigInt::from_i128(1);
    let mut i: usize = 0;
    assert(periods@.take(0) =~= Seq::<SubPeriod>::empty());
    while i < periods.len()
        invariant
            i <= periods.len(),
            num@ == num_product(periods@.take(i as int)),
            den@ == den_product(periods@.take(i as int)),
        decreases periods.len() - i,
    {
        let p = periods[i];
        let (gn, gd): (i128, i128) = if p.start_value == 0 {
            (1, 1)
        } else {
            (p.end_value as i128 - p.cash_flow as i128, p.start_value as i128)
        };
        let ghost next = periods@.take(i + 1);
        assert(next.drop_last() =~= periods@.take(i as int));
        assert(next.last() == p);
        assert(gn == growth_num(p) && gd == growth_den(p));
        num = num.mul_small(gn);
        den = den.mul_small(gd);
        i = i + 1;
        assert(periods@.take(i as int) == next);
    }
    assert(periods@.take(periods@.len() as int) =~= periods@);
    proof {
        lemma_den_product_nonzero(periods@);
    }
    let numerator = num.sub(&den);
    Fraction { numerator, denominator: den }
}

/// The return of no periods is 0; of one period, that period's return.
pub proof fn lemma_twr_of_few_periods(p: SubPeriod)
    ensures
        num_product(Seq::<SubPeriod>::empty()) - den_product(Seq::<SubPeriod>::empty()) == 0,
        num_product(seq![p]) - den_product(seq![p]) == (if p.start_value == 0 {
            0
        } else {
            p.end_value - p.start_value - p.cash_flow
        }),
        den_product(seq![p]) == (if p.start_value == 0 {
            1
        } else {
            p.start_value as int
        }),
{
    assert(seq![p].drop_last() =~= Seq::<SubPeriod>::empty());
    assert(num_product(Seq::<SubPeriod>::empty()) == 1);
    assert(den_product(Seq::<SubPeriod>::empty()) == 1);
    assert(num_product(seq![p]) == growth_num(p));
    assert(den_product(seq![p]) == growth_den(p));
}

/// Returns chain: the growth over two runs of periods is the product of their
/// growths.
pub proof fn lemma_twr_chains(a: Seq<SubPeriod>, b: Seq<SubPeriod>)
    ensures
        num_product(a + b) == num_product(a) * num_product(b),
        den_product(a + b) == den_product(a) * den_product(b),
    decreases b.len(),
{
    if b.len() == 0 {
        assert(a + b =~= a);
    } else {
        lemma_twr_chains(a, b.drop_last());
        assert((a + b).drop_last() =~= a + b.drop_last());
        assert((a + b).last() == b.last());
        vstd::arithmetic::mul::lemma_mul_is_associative(num_product(a), num_product(b.drop_last()), growth_num(b.last()));
        vstd::arithmetic::mul::lemma_mul_is_associative(den_product(a), den_product(b.drop_last()), growth_den(b.last()));
    }
}

/// A sub-period whose change is only its cash flow earns nothing: adding it
/// leaves the time-weighted return as it was.
pub proof fn lemma_cash_flow_only_period_earns_nothing(a: Seq<SubPeriod>, p: SubPeriod)
    requires
        p.start_value != 0,
        p.end_value - p.cash_flow == p.start_value,
    ensures
        num_product(a.push(p)) * den_product(a) == num_product(a) * den_product(a.push(p)),
        den_product(a.push(p)) != 0,
{
    assert(a.push(p).drop_last() =~= a);
    let n = num_product(a);
    let d = den_product(a);
    let g = p.start_value as int;
    assert(num_product(a.push(p)) == n * g);
    assert(den_product(a.push(p)) == d * g);
    assert((n * g) * d == n * (d * g)) by (nonlinear_arith);
    lemma_den_product_nonzero(a.push(p));
}

} // verus!
