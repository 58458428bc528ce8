//! The accounts of the bank, by name.

use crate::bank::balance::Balance;
use vstd::hash_map::StringHashMap;
use vstd::prelude::*;

verus! {

/// The balance of the account `k` in `m`; an account not there has none.
pub open spec fn balance_in(m: Map<Seq<char>, i64>, k: Seq<char>) -> i64 {
    if m.contains_key(k) {
        m[k]
    } else {
        0
    }
}

/// The accounts of the bank, by name.
pub struct Storage {
    accounts: StringHashMap<Balance>,
}

impl View for Storage {
    type V = Map<Seq<char>, i64>;

    closed spec fn view(&self) -> Map<Seq<char>, i64> {
        self.accounts@.map_values(|b: Balance| b@)
    }
}

impl Storage {
    /// A bank with no accounts.
    pub fn new() -> (r: Storage)
        ensures
            r@ == Map::<Seq<char>, i64>::empty(),
    {
        let r = Storage { accounts: StringHashMap::new() };
        assert(r@ =~= Map::<Seq<char>, i64>::empty());
        r
    }

    /// The balance of the account `name`, where there is one.
    pub fn get_balance(&self, name: &str) -> (r: Option<i64>)
        ensures
            self@.contains_key(name@) ==> r == Some(self@[name@]),
            !self@.contains_key(name@) ==> r is None,
    {
        match self.accounts.get(name) {
            Some(b) => Some(b.get_value()),
            None => None,
        }
    }

    /// The balance of the account `name`, opening it with nothing where it is
    /// not there yet.
    pub fn balance_or_open(&mut self, name: &String) -> (r: i64)
        ensures
            r == balance_in(old(self)@, name@),
            final(self)@ == old(self)@.insert(name@, r),
    {
        match self.accounts.get(name.as_str()) {
            Some(b) => {
                let v = b.get_value();
                proof {
                    assert(self@ =~= old(self)@.insert(name@, v));
                }
                v
            },
            None => {
                self.accounts.insert(name.clone(), Balance::new(0));
                assert(self@ =~= old(self)@.insert(name@, 0));
                0
            },
        }
    }

    /// Sets the balance of the account `name`, opening it where it is not
    /// there yet.
    pub fn set_balance(&mut self, name: &String, value: i64)
        ensures
            final(self)@ == old(self)@.insert(name@, value),
    {
        self.accounts.insert(name.clone(), Balance::new(value));
        assert(self@ =~= old(self)@.insert(name@, value));
    }
}

} // verus!
