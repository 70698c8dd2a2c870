use crate::filter::FilterMask;
use vstd::prelude::*;

verus! {

/// The two ways of searching among the candidates of a mask.
#[derive(Debug, Clone, Copy, PartialEq, Eq, Structural)]
pub enum Strategy {
    /// Scan every candidate and keep the nearest.
    BruteForce,
    /// Search the inner index for more than is wanted and keep what the
    /// mask lets through.
    PostFilter,
}

/// The strategy for a mask: a scan where the selectivity lies below a
/// tenth, the inner index from a tenth on.
pub open spec fn strategy_for(mask: FilterMask) -> Strategy {
    if mask.sparser_than(1, 10) {
        Strategy::BruteForce
    } else {
        Strategy::PostFilter
    }
}

/// The strategy for a mask.
pub fn select_strategy(mask: &FilterMask) -> (r: Strategy)
    ensures
        r == strategy_for(*mask),
{
    if mask.selectivity_below(1, 10) {
        Strategy::BruteForce
    } else {
        Strategy::PostFilter
    }
}

/// The expansion factor for a selectivity, given the ceiling of twice its
/// negated natural logarithm: that ceiling, held between 2 and 50.
pub open spec fn clamp_factor(log_ceiling: int) -> int {
    if log_ceiling < 2 {
        2
    } else if log_ceiling > 50 {
        50
    } else {
        log_ceiling
    }
}

/// The number of results to ask the inner index for: `k` times the
/// expansion factor, but no more than there are live vectors.
pub open spec fn expanded(k: nat, factor: nat, live: nat) -> nat {
    if k * factor <= live {
        k * factor
    } else {
        live
    }
}

/// The expansion factor lies between 2 and 50 and does not fall where the
/// ceiling rises. The ceiling does not rise where the selectivity does, so
/// the factor does not rise with the selectivity.
pub proof fn lemma_factor_monotone(lower: int, higher: int)
    requires
        lower <= higher,
    ensures
        2 <= clamp_factor(lower) <= clamp_factor(higher) <= 50,
{
}

/// The expansion factor for the given ceiling.
pub fn expansion_factor(log_ceiling: usize) -> (r: usize)
    ensures
        r == clamp_factor(log_ceiling as int),
{
    if log_ceiling < 2 {
        2
    } else if log_ceiling > 50 {
        50
    } else {
        log_ceiling
    }
}

/// The number of results to ask the inner index for.
pub fn expanded_k(k: usize, factor: usize, live: usize) -> (r: usize)
    ensures
        r == expanded(k as nat, factor as nat, live as nat),
{
    assert((k as u128) * (factor as u128) <= u128::MAX) by (nonlinear_arith)
        requires
            k <= u64::MAX,
            factor <= u64::MAX,
    ;
    let wide = (k as u128) * (factor as u128);
    if wide <= live as u128 {
        wide as usize
    } else {
        live
    }
}

} // verus!
