//! Binding power of operators.

use std::cmp::Ordering;
use vstd::prelude::*;
use vstd::std_specs::cmp::PartialOrdSpec;

verus! {

/// How strongly an operator binds its operands, from weakest to strongest.
///
/// `DefaultZero` is the level of everything that is no operator.  `Negative`
/// is the level of the unary minus sign; it lies above `Power`, so `-2^2` is
/// `(-2)^2`.
#[derive(Debug, Clone, Copy, PartialEq, Eq, Structural)]
pub enum OperPrec {
    DefaultZero,
    AddSub,
    MulDiv,
    Power,
    Negative,
}

impl OperPrec {
    /// The position of the level in the order: 0 for the weakest.
    pub open spec fn rank(self) -> nat {
        match self {
            OperPrec::DefaultZero => 0,
            OperPrec::AddSub => 1,
            OperPrec::MulDiv => 2,
            OperPrec::Power => 3,
            OperPrec::Negative => 4,
        }
    }

    /// The position of the level in the order, as a machine integer.
    pub fn level(&self) -> (r: u8)
        ensures
            r == self.rank(),
    {
        match self {
            OperPrec::DefaultZero => 0,
            OperPrec::AddSub => 1,
            OperPrec::MulDiv => 2,
            OperPrec::Power => 3,
            OperPrec::Negative => 4,
        }
    }
}

impl PartialOrd for OperPrec {
    fn partial_cmp(&self, other: &Self) -> (r: Option<Ordering>) {
        let a: u8 = self.level();
        let b: u8 = other.level();
        if a < b {
            Some(Ordering::Less)
        } else if a == b {
            Some(Ordering::Equal)
        } else {
            Some(Ordering::Greater)
        }
    }
}

/// The levels are ordered by their rank.
impl vstd::std_specs::cmp::PartialOrdSpecImpl for OperPrec {
    open spec fn obeys_partial_cmp_spec() -> bool {
        true
    }

    open spec fn partial_cmp_spec(&self, other: &Self) -> Option<Ordering> {
        if self.rank() < other.rank() {
            Some(Ordering::Less)
        } else if self.rank() == other.rank() {
            Some(Ordering::Equal)
        } else {
            Some(Ordering::Greater)
        }
    }
}

/// The levels are strictly and totally ordered: two levels always compare,
/// they compare as equal only if they are the same level, each is below the
/// other exactly if the other is above it, and the order is transitive.
pub proof fn lemma_levels_are_totally_ordered(a: OperPrec, b: OperPrec, c: OperPrec)
    ensures
        a.partial_cmp_spec(&b) is Some,
        a.partial_cmp_spec(&b) == Some(Ordering::Equal) <==> a == b,
        a.partial_cmp_spec(&b) == Some(Ordering::Less) <==> b.partial_cmp_spec(&a) == Some(
            Ordering::Greater,
        ),
        a.partial_cmp_spec(&b) == Some(Ordering::Less) && b.partial_cmp_spec(&c) == Some(
            Ordering::Less,
        ) ==> a.partial_cmp_spec(&c) == Some(Ordering::Less),
        OperPrec::DefaultZero.partial_cmp_spec(&OperPrec::AddSub) == Some(Ordering::Less),
        OperPrec::AddSub.partial_cmp_spec(&OperPrec::MulDiv) == Some(Ordering::Less),
        OperPrec::MulDiv.partial_cmp_spec(&OperPrec::Power) == Some(Ordering::Less),
        OperPrec::Power.partial_cmp_spec(&OperPrec::Negative) == Some(Ordering::Less),
{
}

} // verus!
