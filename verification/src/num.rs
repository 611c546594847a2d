//! Numbers with a restricted range.

use vstd::prelude::*;

verus! {

/// A 16-bit number that is never 0.
#[derive(Clone, Copy, Debug, Eq, Hash, PartialEq, Structural)]
pub struct NonZeroU16 {
    value: u16,
}

impl NonZeroU16 {
    #[verifier::type_invariant]
    spec fn non_zero(self) -> bool {
        self.value != 0
    }

    /// The number.
    pub closed spec fn view(&self) -> u16 {
        self.value
    }

    /// Creates the number, returning `None` for 0.
    #[must_use]
    pub fn new(value: u16) -> (r: Option<Self>)
        ensures
            r is None <==> value == 0,
            r matches Some(number) ==> number@ == value,
    {
        if value == 0 {
            None
        } else {
            Some(NonZeroU16 { value })
        }
    }

    /// Returns the number.
    #[must_use]
    pub fn get(self) -> (r: u16)
        ensures
            r == self@,
            r != 0,
    {
        proof {
            use_type_invariant(&self);
        }
        self.value
    }
}

/// Every number but zero is kept.
pub proof fn law_numbers_are_kept_but_zero(value: u16, r: Option<NonZeroU16>)
    requires
        call_ensures(NonZeroU16::new, (value,), r),
    ensures
        value == 0 <==> r is None,
        r matches Some(number) ==> forall|back: u16| #[trigger]
            call_ensures(NonZeroU16::get, (number,), back) ==> back == value,
{
}

} // verus!
