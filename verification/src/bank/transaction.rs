//! Transactions on the accounts of the bank, and their combination with `+`.

use crate::bank::storage::{balance_in, Storage};
use vstd::prelude::*;

verus! {

/// Why a transaction was refused.
#[derive(Debug, Clone, Copy, PartialEq, Eq, Structural)]
pub enum TxError {
    InsufficientFunds,
    InvalidAccount,
}

/// What applying a transaction to the accounts `m` comes to: its result and
/// the accounts after it.
pub type Outcome = (Result<(), TxError>, Map<Seq<char>, i64>);

/// A change of the accounts that may be refused.
pub trait Transaction {
    /// The accounts `m` are such that applying the transaction keeps every
    /// balance within `i64`.
    spec fn fits(&self, m: Map<Seq<char>, i64>) -> bool;

    /// What applying the transaction to the accounts `m` comes to.
    spec fn outcome(&self, m: Map<Seq<char>, i64>) -> Outcome;

    /// Applies the transaction to the accounts.
    fn apply(&self, storage: &mut Storage) -> (r: Result<(), TxError>)
        requires
            self.fits(old(storage)@),
        ensures
            (r, final(storage)@) == self.outcome(old(storage)@),
    ;
}

/// Money paid into an account.
pub struct Deposit {
    pub from_account: String,
    pub amount: i64,
}

/// Money moved from one account to another.
pub struct Transfer {
    pub from_account: String,
    pub to_account: String,
    pub amount: i64,
}

/// Money taken from an account.
pub struct Withdraw {
    pub from_account: String,
    pub amount: i64,
}

/// Two transactions applied one after the other.
pub struct TxCombinator<T1, T2> where T1: Transaction, T2: Transaction {
    pub t1: T1,
    pub t2: T2,
}

/// A deposit adds the amount to the account, which it opens where it is not
/// there yet.
pub open spec fn deposit_outcome(m: Map<Seq<char>, i64>, k: Seq<char>, amount: i64) -> Outcome {
    (Ok(()), m.insert(k, (balance_in(m, k) + amount) as i64))
}

/// A withdrawal opens the account where it is not there yet, is refused
/// where the balance is below the amount, and otherwise takes the amount.
pub open spec fn withdraw_outcome(m: Map<Seq<char>, i64>, k: Seq<char>, amount: i64) -> Outcome {
    let b = balance_in(m, k);
    if b < amount {
        (Err(TxError::InsufficientFunds), m.insert(k, b))
    } else {
        (Ok(()), m.insert(k, (b - amount) as i64))
    }
}

/// A transfer opens the sending account where it is not there yet, is
/// refused where its balance is below the amount, and otherwise takes the
/// amount from it and adds it to the receiving account, opened where needed.
pub open spec fn transfer_outcome(
    m: Map<Seq<char>, i64>,
    from: Seq<char>,
    to: Seq<char>,
    amount: i64,
) -> Outcome {
    let b = balance_in(m, from);
    if b < amount {
        (Err(TxError::InsufficientFunds), m.insert(from, b))
    } else {
        let m1 = m.insert(from, (b - amount) as i64);
        (Ok(()), m1.insert(to, (balance_in(m1, to) + amount) as i64))
    }
}

pub open spec fn in_i64(x: int) -> bool {
    i64::MIN <= x <= i64::MAX
}

impl Transaction for Deposit {
    open spec fn fits(&self, m: Map<Seq<char>, i64>) -> bool {
        in_i64(balance_in(m, self.from_account@) + self.amount)
    }

    open spec fn outcome(&self, m: Map<Seq<char>, i64>) -> Outcome {
        deposit_outcome(m, self.from_account@, self.amount)
    }

    fn apply(&self, storage: &mut Storage) -> (r: Result<(), TxError>) {
        let b = storage.balance_or_open(&self.from_account);
        storage.set_balance(&self.from_account, b + self.amount);
        proof {
            assert(storage@ =~= old(storage)@.insert(
                self.from_account@,
                (balance_in(old(storage)@, self.from_account@) + self.amount) as i64,
            ));
        }
        Ok(())
    }
}

impl Transaction for Withdraw {
    open spec fn fits(&self, m: Map<Seq<char>, i64>) -> bool {
        let b = balance_in(m, self.from_account@);
        b >= self.amount ==> in_i64(b - self.amount)
    }

    open spec fn outcome(&self, m: Map<Seq<char>, i64>) -> Outcome {
        withdraw_outcome(m, self.from_account@, self.amount)
    }

    fn apply(&self, storage: &mut Storage) -> (r: Result<(), TxError>) {
        let b = storage.balance_or_open(&self.from_account);
        if b < self.amount {
            return Err(TxError::InsufficientFunds);
        }
        storage.set_balance(&self.from_account, b - self.amount);
        proof {
            assert(storage@ =~= old(storage)@.insert(self.from_account@, (b - self.amount) as i64));
        }
        Ok(())
    }
}

impl Transaction for Transfer {
    open spec fn fits(&self, m: Map<Seq<char>, i64>) -> bool {
        let b = balance_in(m, self.from_account@);
        &&& b >= self.amount ==> in_i64(b - self.amount)
        &&& b >= self.amount ==> in_i64(
            balance_in(m.insert(self.from_account@, (b - self.amount) as i64), self.to_account@)
                + self.amount,
        )
    }

    open spec fn outcome(&self, m: Map<Seq<char>, i64>) -> Outcome {
        transfer_outcome(m, self.from_account@, self.to_account@, self.amount)
    }

    fn apply(&self, storage: &mut Storage) -> (r: Result<(), TxError>) {
        let b = storage.balance_or_open(&self.from_account);
        if b < self.amount {
            return Err(TxError::InsufficientFunds);
        }
        storage.set_balance(&self.from_account, b - self.amount);
        proof {
            assert(storage@ =~= old(storage)@.insert(self.from_account@, (b - self.amount) as i64));
        }
        let c = storage.balance_or_open(&self.to_account);
        storage.set_balance(&self.to_account, c + self.amount);
        proof {
            let m1 = old(storage)@.insert(self.from_account@, (b - self.amount) as i64);
            assert(storage@ =~= m1.insert(self.to_account@, (balance_in(m1, self.to_account@) + self.amount) as i64));
        }
        Ok(())
    }
}

impl<T1: Transaction, T2: Transaction> Transaction for TxCombinator<T1, T2> {
    open spec fn fits(&self, m: Map<Seq<char>, i64>) -> bool {
        &&& self.t1.fits(m)
        &&& self.t1.outcome(m).0 is Ok ==> self.t2.fits(self.t1.outcome(m).1)
    }

    open spec fn outcome(&self, m: Map<Seq<char>, i64>) -> Outcome {
        let first = self.t1.outcome(m);
        if first.0 is Err {
            first
        } else {
            self.t2.outcome(first.1)
        }
    }

    fn apply(&self, storage: &mut Storage) -> (r: Result<(), TxError>) {
        self.t1.apply(storage)?;
        self.t2.apply(storage)?;
        Ok(())
    }
}

impl std::ops::Add<Transfer> for Deposit {
    type Output = TxCombinator<Deposit, Transfer>;

    fn add(self, rhs: Transfer) -> (r: TxCombinator<Deposit, Transfer>) {
        TxCombinator { t1: self, t2: rhs }
    }
}

impl vstd::std_specs::ops::AddSpecImpl<Transfer> for Deposit {
    open spec fn obeys_add_spec() -> bool {
        true
    }

    open spec fn add_req(self, rhs: Transfer) -> bool {
        true
    }

    open spec fn add_spec(self, rhs: Transfer) -> TxCombinator<Deposit, Transfer> {
        TxCombinator { t1: self, t2: rhs }
    }
}

impl std::ops::Add<Deposit> for Transfer {
    type Output = TxCombinator<Transfer, Deposit>;

    fn add(self, rhs: Deposit) -> (r: TxCombinator<Transfer, Deposit>) {
        TxCombinator { t1: self, t2: rhs }
    }
}

impl vstd::std_specs::ops::AddSpecImpl<Deposit> for Transfer {
    open spec fn obeys_add_spec() -> bool {
        true
    }

    open spec fn add_req(self, rhs: Deposit) -> bool {
        true
    }

    open spec fn add_spec(self, rhs: Deposit) -> TxCombinator<Transfer, Deposit> {
        TxCombinator { t1: self, t2: rhs }
    }
}

impl std::ops::Add<Deposit> for Deposit {
    type Output = TxCombinator<Deposit, Deposit>;

    fn add(self, rhs: Deposit) -> (r: TxCombinator<Deposit, Deposit>) {
        TxCombinator { t1: self, t2: rhs }
    }
}

impl vstd::std_specs::ops::AddSpecImpl<Deposit> for Deposit {
    open spec fn obeys_add_spec() -> bool {
        true
    }

    open spec fn add_req(self, rhs: Deposit) -> bool {
        true
    }

    open spec fn add_spec(self, rhs: Deposit) -> TxCombinator<Deposit, Deposit> {
        TxCombinator { t1: self, t2: rhs }
    }
}

impl std::ops::Add<Transfer> for Transfer {
    type Output = TxCombinator<Transfer, Transfer>;

    fn add(self, rhs: Transfer) -> (r: TxCombinator<Transfer, Transfer>) {
        TxCombinator { t1: self, t2: rhs }
    }
}

impl vstd::std_specs::ops::AddSpecImpl<Transfer> for Transfer {
    open spec fn obeys_add_spec() -> bool {
        true
    }

    open spec fn add_req(self, rhs: Transfer) -> bool {
        true
    }

    open spec fn add_spec(self, rhs: Transfer) -> TxCombinator<Transfer, Transfer> {
        TxCombinator { t1: self, t2: rhs }
    }
}

/// Law: a combination applies its first transaction, and its second only
/// where the first was not refused, on the accounts the first left.
pub proof fn law_combination_in_order<T1: Transaction, T2: Transaction>(
    c: TxCombinator<T1, T2>,
    m: Map<Seq<char>, i64>,
)
    ensures
        c.t1.outcome(m).0 is Err ==> c.outcome(m) == c.t1.outcome(m),
        c.t1.outcome(m).0 is Ok ==> c.outcome(m) == c.t2.outcome(c.t1.outcome(m).1),
{
}

/// Law: a transfer that goes through keeps the sum of the two balances, and
/// leaves every other account as it was.
pub proof fn law_transfer_keeps_money(t: Transfer, m: Map<Seq<char>, i64>)
    requires
        t.fits(m),
        t.outcome(m).0 is Ok,
    ensures
        t.from_account@ != t.to_account@ ==> balance_in(t.outcome(m).1, t.from_account@)
            + balance_in(t.outcome(m).1, t.to_account@) == balance_in(m, t.from_account@)
            + balance_in(m, t.to_account@),
        t.from_account@ == t.to_account@ ==> balance_in(t.outcome(m).1, t.from_account@)
            == balance_in(m, t.from_account@),
        forall|k: Seq<char>|
            k != t.from_account@ && k != t.to_account@ ==> balance_in(#[trigger] t.outcome(m).1, k)
                == balance_in(m, k),
{
}

/// Law: a deposit of `x` goes through, leaves the account's old balance (0
/// where it had none) plus `x` on it, and every other balance as it was.
pub proof fn law_deposit_adds(d: Deposit, m: Map<Seq<char>, i64>)
    requires
        d.fits(m),
    ensures
        d.outcome(m).0 == Ok::<(), TxError>(()),
        balance_in(d.outcome(m).1, d.from_account@) == balance_in(m, d.from_account@) + d.amount,
        forall|k: Seq<char>|
            k != d.from_account@ ==> balance_in(#[trigger] d.outcome(m).1, k) == balance_in(m, k),
{
}

/// Law: a withdrawal of `x` from an account whose balance is `b` (0 where it
/// has none) is refused with `InsufficientFunds` exactly when `b < x`, and
/// then changes no balance; otherwise it goes through, leaves `b - x` on the
/// account and every other balance as it was.
pub proof fn law_withdraw_refused_exactly_when_short(w: Withdraw, m: Map<Seq<char>, i64>)
    requires
        w.fits(m),
    ensures
        w.outcome(m).0 is Err <==> balance_in(m, w.from_account@) < w.amount,
        w.outcome(m).0 is Err ==> w.outcome(m).0 == Err::<(), TxError>(TxError::InsufficientFunds),
        w.outcome(m).0 is Err ==> forall|k: Seq<char>|
            balance_in(#[trigger] w.outcome(m).1, k) == balance_in(m, k),
        w.outcome(m).0 is Ok ==> balance_in(w.outcome(m).1, w.from_account@) == balance_in(
            m,
            w.from_account@,
        ) - w.amount,
        w.outcome(m).0 is Ok ==> forall|k: Seq<char>|
            k != w.from_account@ ==> balance_in(#[trigger] w.outcome(m).1, k) == balance_in(m, k),
{
}

/// Law: a transfer of `x` from an account whose balance is `b` (0 where it
/// has none) to another is refused with `InsufficientFunds` exactly when
/// `b < x`, and then changes no balance; otherwise the sender is left with
/// `b - x`, the receiver gains `x`, and every other balance stays.
pub proof fn law_transfer_refused_exactly_when_short(t: Transfer, m: Map<Seq<char>, i64>)
    requires
        t.fits(m),
        t.from_account@ != t.to_account@,
    ensures
        t.outcome(m).0 is Err <==> balance_in(m, t.from_account@) < t.amount,
        t.outcome(m).0 is Err ==> t.outcome(m).0 == Err::<(), TxError>(TxError::InsufficientFunds),
        t.outcome(m).0 is Err ==> forall|k: Seq<char>|
            balance_in(#[trigger] t.outcome(m).1, k) == balance_in(m, k),
        t.outcome(m).0 is Ok ==> balance_in(t.outcome(m).1, t.from_account@) == balance_in(
            m,
            t.from_account@,
        ) - t.amount,
        t.outcome(m).0 is Ok ==> balance_in(t.outcome(m).1, t.to_account@) == balance_in(
            m,
            t.to_account@,
        ) + t.amount,
        t.outcome(m).0 is Ok ==> forall|k: Seq<char>|
            k != t.from_account@ && k != t.to_account@ ==> balance_in(#[trigger] t.outcome(m).1, k)
                == balance_in(m, k),
{
}

/// Law: a refused withdrawal or transfer leaves every balance as it was.
pub proof fn law_refusal_keeps_balances(w: Withdraw, t: Transfer, m: Map<Seq<char>, i64>)
    ensures
        w.outcome(m).0 is Err ==> forall|k: Seq<char>|
            balance_in(#[trigger] w.outcome(m).1, k) == balance_in(m, k),
        t.outcome(m).0 is Err ==> forall|k: Seq<char>|
            balance_in(#[trigger] t.outcome(m).1, k) == balance_in(m, k),
{
}

/// Law: on an account that is not in debt, a deposit then a withdrawal of the
/// same amount goes through and leaves every balance as it was.
pub proof fn law_deposit_then_withdraw(d: Deposit, w: Withdraw, m: Map<Seq<char>, i64>)
    requires
        d.from_account@ == w.from_account@,
        d.amount == w.amount,
        d.fits(m),
        balance_in(m, d.from_account@) >= 0,
    ensures
        w.fits(d.outcome(m).1),
        w.outcome(d.outcome(m).1).0 is Ok,
        forall|k: Seq<char>|
            balance_in(#[trigger] w.outcome(d.outcome(m).1).1, k) == balance_in(m, k),
{
    let k0 = d.from_account@;
    let b = balance_in(m, k0);
    let m1 = d.outcome(m).1;
    assert(m1 == m.insert(k0, (b + d.amount) as i64));
    assert(balance_in(m1, k0) == b + d.amount);
    let m2 = w.outcome(m1).1;
    assert(m2 == m1.insert(k0, b as i64));
    assert forall|k: Seq<char>| balance_in(#[trigger] w.outcome(d.outcome(m).1).1, k) == balance_in(m, k) by {
        if k != k0 {
            assert(balance_in(m2, k) == balance_in(m1, k));
        }
    }
}

} // verus!
