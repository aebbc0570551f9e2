//! Per-client account state and the balance mutations the engine applies.
//!
//! `available` funds are never stored: they are always `total - held`.

use vstd::prelude::*;

use crate::errors::AccountError;

verus! {

/// One client's balances and lock status. `held` is the amount frozen by
/// open disputes; `total` is all settled funds including held; `locked`
/// becomes true at a chargeback and never reverts.
#[derive(Debug, PartialEq, Eq, Clone, Copy, Structural)]
pub struct Client {
    pub held: i128,
    pub total: i128,
    pub locked: bool,
}

impl Client {
    /// Adds a deposit to the settled funds.
    pub fn make_deposit(&mut self, amount: i128)
        requires
            old(self).total + amount <= i128::MAX,
            i128::MIN <= old(self).total + amount,
        ensures
            final(self).total == old(self).total + amount,
            final(self).held == old(self).held,
            final(self).locked == old(self).locked,
    {
        self.total = self.total + amount;
    }

    /// Withdraws `amount` if the available funds cover it; otherwise leaves
    /// the account unchanged and reports the shortfall.
    pub fn make_withdrawal(&mut self, amount: i128) -> (r: Result<(), AccountError>)
        requires
            0 <= amount,
            i128::MIN <= old(self).total - old(self).held <= i128::MAX,
        ensures
            old(self).total - old(self).held >= amount ==> r == Ok::<(), AccountError>(()),
            old(self).total - old(self).held >= amount ==> final(self).total == old(self).total
                - amount && final(self).held == old(self).held && final(self).locked == old(
                self,
            ).locked,
            old(self).total - old(self).held < amount ==> r == Err::<(), AccountError>(
                AccountError::InsufficientFunds,
            ) && *final(self) == *old(self),
    {
        let available = self.total - self.held;
        if available >= amount {
            self.total = self.total - amount;
            Ok(())
        } else {
            Err(AccountError::InsufficientFunds)
        }
    }

    /// Freezes the value of a newly disputed deposit.
    pub fn make_dispute(&mut self, amount: i128)
        requires
            old(self).held + amount <= i128::MAX,
            i128::MIN <= old(self).held + amount,
        ensures
            final(self).held == old(self).held + amount,
            final(self).total == old(self).total,
            final(self).locked == old(self).locked,
    {
        self.held = self.held + amount;
    }

    /// Releases the hold of a resolved dispute; the funds become available
    /// again and `total` is untouched.
    pub fn resolve_transaction(&mut self, amount: i128)
        requires
            i128::MIN <= old(self).held - amount <= i128::MAX,
        ensures
            final(self).held == old(self).held - amount,
            final(self).total == old(self).total,
            final(self).locked == old(self).locked,
    {
        self.held = self.held - amount;
    }

    /// Settles a dispute by chargeback: the held value leaves the account
    /// entirely and the account is locked for good.
    pub fn charge_back(&mut self, amount: i128)
        requires
            i128::MIN <= old(self).held - amount <= i128::MAX,
            i128::MIN <= old(self).total - amount <= i128::MAX,
        ensures
            final(self).held == old(self).held - amount,
            final(self).total == old(self).total - amount,
            final(self).locked == true,
    {
        self.held = self.held - amount;
        self.total = self.total - amount;
        self.locked = true;
    }
}

} // verus!
