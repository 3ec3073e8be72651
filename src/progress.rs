use vstd::prelude::*;

verus! {

/// A fraction `num / den` with a positive denominator.
#[derive(Clone, Copy, Debug, PartialEq, Eq, Structural)]
pub struct Fraction {
    pub num: u64,
    pub den: u64,
}

/// The mathematical value of a [`Fraction`], as a pair of naturals.
pub struct FractionModel {
    pub num: nat,
    pub den: nat,
}

impl View for Fraction {
    type V = FractionModel;

    open spec fn view(&self) -> FractionModel {
        FractionModel { num: self.num as nat, den: self.den as nat }
    }
}

impl Fraction {
    /// A proper fraction: positive denominator, value in `[0, 1]`.
    pub open spec fn wf(&self) -> bool {
        &&& self.den > 0
        &&& self.num <= self.den
    }
}

/// `a <= b` as rational numbers.
pub open spec fn frac_le(a: FractionModel, b: FractionModel) -> bool {
    a.num * b.den <= b.num * a.den
}

pub open spec fn min_nat(a: nat, b: nat) -> nat {
    if a <= b { a } else { b }
}

/// The share of `duration` that `elapsed` has covered, clamped to one:
/// `min(elapsed, duration) / duration`, which is `min(elapsed / duration, 1)`.
pub open spec fn progress_of(elapsed: nat, duration: nat) -> FractionModel {
    FractionModel { num: min_nat(elapsed, duration), den: duration }
}

/// The progress of a timer of `duration_ms` milliseconds after `elapsed_ms`
/// milliseconds.
pub fn progress(elapsed_ms: u64, duration_ms: u64) -> (r: Fraction)
    requires
        duration_ms > 0,
    ensures
        r.wf(),
        r@ == progress_of(elapsed_ms as nat, duration_ms as nat),
{
    let num: u64 = if elapsed_ms <= duration_ms { elapsed_ms } else { duration_ms };
    Fraction { num, den: duration_ms }
}

/// Progress is the elapsed time over the duration, saturated at one: below
/// the duration it is exactly `t / d`, from the duration on it is `1`.
pub proof fn lemma_progress_is_clamped_ratio(t: nat, d: nat)
    requires
        d > 0,
    ensures
        progress_of(t, d).den == d,
        t <= d ==> progress_of(t, d).num == t,
        t >= d ==> progress_of(t, d).num == progress_of(t, d).den,
        progress_of(t, d).num <= progress_of(t, d).den,
{
}

/// Progress never decreases as time goes on.
pub proof fn lemma_progress_monotone(t1: nat, t2: nat, d: nat)
    requires
        d > 0,
        t1 <= t2,
    ensures
        frac_le(progress_of(t1, d), progress_of(t2, d)),
{
    let a = progress_of(t1, d);
    let b = progress_of(t2, d);
    assert(a.num <= b.num);
    assert(a.num * d <= b.num * d) by (nonlinear_arith)
        requires
            a.num <= b.num,
    ;
}

/// A timer that has just started shows no progress.
pub proof fn lemma_progress_at_start(d: nat)
    requires
        d > 0,
    ensures
        progress_of(0, d).num == 0,
{
}

/// Once the whole duration has passed, progress is complete.
pub proof fn lemma_progress_saturates(t: nat, d: nat)
    requires
        d > 0,
        t >= d,
    ensures
        progress_of(t, d).num == progress_of(t, d).den,
{
}

} // verus!
