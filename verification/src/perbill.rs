//! Parts per billion: the fixed-point fraction in which thresholds are given.

use vstd::prelude::*;

verus! {

/// One whole, in parts.
pub const BILLION: u32 = 1_000_000_000;

/// The parts per billion that `percent` hundredths are; more than a hundred
/// hundredths count as one whole.
pub open spec fn percent_parts(percent: u32) -> nat {
    if percent > 100 {
        1_000_000_000
    } else {
        (percent * 10_000_000) as nat
    }
}

/// Calls `sp_runtime::Perbill::from_percent` and reads the parts of the result
/// with `deconstruct`. The contract states what the constructor computes: the
/// percentage, capped at a hundred, times a billion and divided by a hundred.
#[verifier::external_body]
fn runtime_parts_of_percent(percent: u32) -> (parts: u32)
    ensures
        parts == percent_parts(percent),
{
    sp_runtime::Perbill::from_percent(percent).deconstruct()
}

/// A fraction between zero and one, in parts per billion.
#[derive(Clone, Copy, Debug, PartialEq, Eq, Structural)]
pub struct Perbill {
    parts: u32,
}

impl View for Perbill {
    type V = nat;

    closed spec fn view(&self) -> nat {
        self.parts as nat
    }
}

impl Perbill {
    /// A fraction is at most one whole.
    #[verifier::type_invariant]
    spec fn within_one(self) -> bool {
        self.parts <= BILLION
    }

    /// The fraction of `parts` billionths; more than a billion count as one
    /// whole.
    pub fn from_parts(parts: u32) -> (p: Self)
        ensures
            p@ == if parts > BILLION {
                BILLION as nat
            } else {
                parts as nat
            },
            p@ <= BILLION,
    {
        if parts > BILLION {
            Perbill { parts: BILLION }
        } else {
            Perbill { parts }
        }
    }

    /// The fraction of `percent` hundredths; more than a hundred count as one
    /// whole.
    pub fn from_percent(percent: u32) -> (p: Self)
        ensures
            p@ == percent_parts(percent),
            p@ <= BILLION,
    {
        Perbill { parts: runtime_parts_of_percent(percent) }
    }

    /// The number of parts per billion.
    pub fn deconstruct(&self) -> (parts: u32)
        ensures
            parts == self@,
            parts <= BILLION,
    {
        proof {
            use_type_invariant(self);
        }
        self.parts
    }
}

} // verus!
