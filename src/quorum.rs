//! Supermajority evaluation over a tally of positive and negative votes.
use vstd::prelude::*;

verus! {

/// A fraction of the validator set: a tally reaches a supermajority when it
/// is strictly more than `numerator / denominator` of the set.
#[derive(Clone, Copy, Debug, PartialEq, Eq)]
pub struct Threshold {
    pub numerator: u32,
    pub denominator: u32,
}

/// The outcome that a supermajority settles.
#[derive(Clone, Copy, Debug, PartialEq, Eq)]
pub enum CandidateQuorum {
    /// The candidate is deemed valid.
    Valid,
    /// The candidate is deemed invalid.
    Invalid,
}

/// `count` validators out of `validators` are more than the threshold.
pub open spec fn reaches(count: u32, validators: u32, threshold: Threshold) -> bool {
    count as int * threshold.denominator as int > validators as int * threshold.numerator as int
}

pub open spec fn quorum_spec(positive: u32, negative: u32, validators: u32, threshold: Threshold) -> Option<
    CandidateQuorum,
> {
    if reaches(positive, validators, threshold) {
        Some(CandidateQuorum::Valid)
    } else if reaches(negative, validators, threshold) {
        Some(CandidateQuorum::Invalid)
    } else {
        None
    }
}

impl Threshold {
    /// Strictly more than two thirds.
    pub fn two_thirds() -> (r: Threshold)
        ensures
            r.numerator == 2,
            r.denominator == 3,
    {
        Threshold { numerator: 2, denominator: 3 }
    }
}

/// Whether `count` validators out of `validators` exceed the threshold.
pub fn supermajority(count: u32, validators: u32, threshold: Threshold) -> (r: bool)
    ensures
        r == reaches(count, validators, threshold),
{
    let a = count as u64;
    let b = threshold.denominator as u64;
    let c = validators as u64;
    let d = threshold.numerator as u64;
    assert(a * b <= u32::MAX as int * u32::MAX as int) by (nonlinear_arith)
        requires
            a <= u32::MAX,
            b <= u32::MAX,
    ;
    assert(c * d <= u32::MAX as int * u32::MAX as int) by (nonlinear_arith)
        requires
            c <= u32::MAX,
            d <= u32::MAX,
    ;
    a * b > c * d
}

/// Whether the positive or the negative votes on a candidate form a
/// supermajority of the validator set; the positive side is looked at first.
pub fn check_for_supermajority(positive: u32, negative: u32, validator_count: u32, threshold: Threshold) -> (r:
    Option<CandidateQuorum>)
    ensures
        r == quorum_spec(positive, negative, validator_count, threshold),
{
    if supermajority(positive, validator_count, threshold) {
        Some(CandidateQuorum::Valid)
    } else if supermajority(negative, validator_count, threshold) {
        Some(CandidateQuorum::Invalid)
    } else {
        None
    }
}

} // verus!
