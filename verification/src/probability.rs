//! Probabilities as exact fractions.

use vstd::prelude::*;

verus! {

/// A fraction of two whole numbers.
#[derive(Clone, Copy, Debug, PartialEq, Eq, Structural)]
pub struct Probability {
    pub numerator: u64,
    pub denominator: u64,
}

/// The probability of what never happens.
pub open spec fn never() -> Probability {
    Probability { numerator: 0, denominator: 1 }
}

/// The probability of what always happens.
pub open spec fn always() -> Probability {
    Probability { numerator: 1, denominator: 1 }
}

/// The probability of one out of some equally likely cases.
pub open spec fn one_in(cases: u64) -> Probability {
    Probability { numerator: 1, denominator: cases }
}

/// The probability that two independent things both happen.
pub open spec fn both(first: Probability, second: Probability) -> Probability {
    Probability {
        numerator: (first.numerator * second.numerator) as u64,
        denominator: (first.denominator * second.denominator) as u64,
    }
}

impl Probability {
    /// The probability of what never happens.
    pub fn zero() -> (p: Self)
        ensures
            p == never(),
    {
        Probability { numerator: 0, denominator: 1 }
    }

    /// The probability of what always happens.
    pub fn one() -> (p: Self)
        ensures
            p == always(),
    {
        Probability { numerator: 1, denominator: 1 }
    }

    /// The probability of one out of some equally likely cases.
    pub fn one_out_of(cases: u64) -> (p: Self)
        ensures
            p == one_in(cases),
    {
        Probability { numerator: 1, denominator: cases }
    }

    /// The probability that two independent things both happen.
    pub fn and(self, other: Probability) -> (p: Self)
        requires
            self.numerator * other.numerator <= u64::MAX,
            self.denominator * other.denominator <= u64::MAX,
        ensures
            p == both(self, other),
    {
        Probability {
            numerator: self.numerator * other.numerator,
            denominator: self.denominator * other.denominator,
        }
    }

    /// Whether the probability is above zero.
    pub fn is_positive(self) -> (positive: bool)
        ensures
            positive == (self.numerator > 0),
    {
        self.numerator > 0
    }
}

/// One out of some cases is a whole where all the cases are taken together, and two independent
/// things both happen as often as the one happens among the cases of the other.
pub proof fn chances_multiply(cases: u64, others: u64)
    requires
        cases * others <= u64::MAX,
    ensures
        never().numerator == 0 && never().denominator == 1,
        always().numerator == always().denominator && always().denominator > 0,
        cases * one_in(cases).numerator == one_in(cases).denominator,
        both(one_in(cases), one_in(others)).numerator == 1,
        both(one_in(cases), one_in(others)).denominator == cases * others,
        both(one_in(cases), never()).numerator == 0,
        both(one_in(cases), always()) == one_in(cases),
{
    assert(1u64 * 1u64 == 1);
}

} // verus!
