//! Free balances of accounts: the book in which raw transfers are carried
//! out.

use std::collections::HashMap;
use vstd::prelude::*;

verus! {

broadcast use vstd::std_specs::hash::group_hash_axioms;

/// The free balance of `who` in `book`: nothing, if the book has no entry.
pub open spec fn free(book: Map<u64, u128>, who: u64) -> u128 {
    if book.contains_key(who) {
        book[who]
    } else {
        0
    }
}

/// The free balance of every account.
pub struct Balances {
    accounts: HashMap<u64, u128>,
}

impl View for Balances {
    type V = Map<u64, u128>;

    closed spec fn view(&self) -> Map<u64, u128> {
        self.accounts@
    }
}

impl Balances {
    /// A book in which nobody holds anything.
    pub fn new() -> (book: Self)
        ensures
            book@ == Map::<u64, u128>::empty(),
    {
        Balances { accounts: HashMap::new() }
    }

    /// The free balance of `who`.
    pub fn free_balance(&self, who: u64) -> (balance: u128)
        ensures
            balance == free(self@, who),
    {
        match self.accounts.get(&who) {
            Some(balance) => *balance,
            None => 0,
        }
    }

    /// Adds `amount` to the balance of `who`. Returns whether it did: a
    /// balance that would leave the range of the balance type is not touched.
    pub fn deposit(&mut self, who: u64, amount: u128) -> (done: bool)
        ensures
            done == (free(old(self)@, who) + amount <= u128::MAX),
            done ==> final(self)@ == old(self)@.insert(
                who,
                (free(old(self)@, who) + amount) as u128,
            ),
            !done ==> final(self)@ == old(self)@,
    {
        let balance = self.free_balance(who);
        if amount > u128::MAX - balance {
            return false;
        }
        self.accounts.insert(who, balance + amount);
        true
    }

    /// Takes `amount` from the balance of `who`. Returns whether it did: a
    /// balance that does not cover the amount is not touched.
    pub fn withdraw(&mut self, who: u64, amount: u128) -> (done: bool)
        ensures
            done == (free(old(self)@, who) >= amount),
            done ==> final(self)@ == old(self)@.insert(
                who,
                (free(old(self)@, who) - amount) as u128,
            ),
            !done ==> final(self)@ == old(self)@,
    {
        let balance = self.free_balance(who);
        if amount > balance {
            return false;
        }
        self.accounts.insert(who, balance - amount);
        true
    }
}

} // verus!
