//! The balance of an account.

use vstd::prelude::*;

verus! {

/// The money on an account.
#[derive(Debug, Clone, Copy, PartialEq, Eq, Structural)]
pub struct Balance {
    value: i64,
}

impl View for Balance {
    type V = i64;

    closed spec fn view(&self) -> i64 {
        self.value
    }
}

impl Balance {
    /// The balance of `value`.
    pub fn new(value: i64) -> (r: Balance)
        ensures
            r@ == value,
    {
        Balance { value }
    }

    pub fn get_value(&self) -> (r: i64)
        ensures
            r == self@,
    {
        self.value
    }

    /// Adds `amount`.
    pub fn add_amount(&mut self, amount: i64)
        requires
            i64::MIN <= old(self)@ + amount <= i64::MAX,
        ensures
            final(self)@ == old(self)@ + amount,
    {
        self.value = self.value + amount;
    }

    /// Takes `amount` away.
    pub fn sub_amount(&mut self, amount: i64)
        requires
            i64::MIN <= old(self)@ - amount <= i64::MAX,
        ensures
            final(self)@ == old(self)@ - amount,
    {
        self.value = self.value - amount;
    }
}

impl From<i64> for Balance {
    fn from(value: i64) -> (r: Balance) {
        Balance { value }
    }
}

impl vstd::std_specs::convert::FromSpecImpl<i64> for Balance {
    open spec fn obeys_from_spec() -> bool {
        true
    }

    closed spec fn from_spec(value: i64) -> Balance {
        Balance { value }
    }
}

} // verus!
