//! Laws of the ledger state machine, proved once and for all over the model
//! in [`crate::ledger`]. Because [`crate::bank_engine::BankEngine`] computes
//! exactly [`spec_apply`] and [`spec_outcome`], each law holds of the running
//! engine as well.

use vstd::prelude::*;

use crate::errors::{AccountError, PaymentError};
use crate::ledger::{AccountState, Ledger, spec_apply, spec_outcome, spec_step};
use crate::models::{ClientID, Transaction, TransactionID};

verus! {

/// The accounting identity: settled funds split into held and available.
pub proof fn lemma_total_splits(a: AccountState)
    ensures
        a.total == a.held + a.available(),
{
}

/// No client of the ledger holds any disputed funds.
pub open spec fn nothing_held(l: Ledger) -> bool {
    forall|c: u16| l.accounts.dom().contains(c) ==> (#[trigger] l.accounts[c]).held == 0
}

/// The ledger after a whole sequence of transactions, applied in order.
pub open spec fn spec_apply_all(l: Ledger, ts: Seq<Transaction>) -> Ledger
    decreases ts.len(),
{
    if ts.len() == 0 {
        l
    } else {
        spec_apply(spec_apply_all(l, ts.drop_last()), ts.last())
    }
}

/// Every transaction of the sequence is a deposit.
pub open spec fn all_deposits(ts: Seq<Transaction>) -> bool {
    forall|n: int| 0 <= n < ts.len() ==> (#[trigger] ts[n]) is Deposit
}

/// A deposit freezes nothing: it keeps `held == 0` for every client.
pub proof fn lemma_deposit_keeps_nothing_held(l: Ledger, t: Transaction)
    requires
        nothing_held(l),
        t is Deposit,
    ensures
        nothing_held(spec_apply(l, t)),
{
    let l2 = spec_apply(l, t);
    match t {
        Transaction::Deposit { client_id, tx_id, amount } => {
            assert forall|c: u16|
                l2.accounts.dom().contains(c) implies (#[trigger] l2.accounts[c]).held == 0 by {
                if c != client_id.0 {
                    assert(l.accounts.dom().contains(c));
                }
            }
        },
        _ => {},
    }
}

/// Law: for any sequence of deposits alone, every client's held funds stay
/// zero — and by [`lemma_total_splits`], `total == held + available` in
/// every account state — so each snapshot row shows `held == 0` and
/// `available == total`.
pub proof fn lemma_deposits_only_nothing_held(l: Ledger, ts: Seq<Transaction>)
    requires
        nothing_held(l),
        all_deposits(ts),
    ensures
        nothing_held(spec_apply_all(l, ts)),
    decreases ts.len(),
{
    if ts.len() == 0 {
    } else {
        assert(all_deposits(ts.drop_last())) by {
            assert forall|n: int|
                0 <= n < ts.drop_last().len() implies (#[trigger] ts.drop_last()[n]) is Deposit by {
                assert(ts[n] is Deposit);
            }
        }
        lemma_deposits_only_nothing_held(l, ts.drop_last());
        lemma_deposit_keeps_nothing_held(spec_apply_all(l, ts.drop_last()), ts.last());
    }
}

/// Law: a withdrawal of more than the available funds never succeeds and
/// leaves the ledger exactly as it was; when the account is not locked the
/// error is `InsufficientFunds`.
pub proof fn lemma_overdraft_rejected(
    l: Ledger,
    client_id: ClientID,
    tx_id: TransactionID,
    amount: i128,
)
    requires
        amount > l.account_or_new(client_id.0).available(),
    ensures
        spec_apply(l, Transaction::Withdrawal { client_id, tx_id, amount }) == l,
        spec_outcome(l, Transaction::Withdrawal { client_id, tx_id, amount }) is Err,
        !l.account_or_new(client_id.0).locked ==> spec_outcome(
            l,
            Transaction::Withdrawal { client_id, tx_id, amount },
        ) == Err::<(), PaymentError>(
            (PaymentError::TransactionFailed {
                tx_id,
                client_id,
                source: AccountError::InsufficientFunds,
            }),
        ),
{
}

/// The conditions under which a dispute of `tx_id` by `client_id` succeeds.
pub open spec fn dispute_accepted(l: Ledger, client_id: ClientID, tx_id: TransactionID) -> bool {
    &&& !l.account_or_new(client_id.0).locked
    &&& l.deposits.dom().contains(tx_id.0)
    &&& l.deposits[tx_id.0].client == client_id.0
    &&& l.deposits[tx_id.0].status is Undisputed
}

/// The conditions under which a resolve or chargeback of `tx_id` by
/// `client_id` succeeds.
pub open spec fn settlement_accepted(l: Ledger, client_id: ClientID, tx_id: TransactionID) -> bool {
    &&& !l.account_or_new(client_id.0).locked
    &&& l.deposits.dom().contains(tx_id.0)
    &&& l.deposits[tx_id.0].client == client_id.0
    &&& l.deposits[tx_id.0].status is Disputed
}

/// Law: a dispute followed by its resolve restores the ledger exactly, for
/// any deposit value: `held` and `available` return to their pre-dispute
/// values, and `total` is unchanged throughout, the dispute window included.
pub proof fn lemma_dispute_resolve_round_trip(l: Ledger, client_id: ClientID, tx_id: TransactionID)
    requires
        dispute_accepted(l, client_id, tx_id),
        l.accounts.dom().contains(client_id.0),
    ensures
        spec_outcome(l, Transaction::Dispute { client_id, tx_id }) == Ok::<(), PaymentError>(()),
        spec_apply(l, Transaction::Dispute { client_id, tx_id }).account_or_new(client_id.0).total
            == l.account_or_new(client_id.0).total,
        spec_outcome(
            spec_apply(l, Transaction::Dispute { client_id, tx_id }),
            Transaction::Resolve { client_id, tx_id },
        ) == Ok::<(), PaymentError>(()),
        spec_apply(
            spec_apply(l, Transaction::Dispute { client_id, tx_id }),
            Transaction::Resolve { client_id, tx_id },
        ) == l,
{
    let l1 = spec_apply(l, Transaction::Dispute { client_id, tx_id });
    let l2 = spec_apply(l1, Transaction::Resolve { client_id, tx_id });
    assert(l2.accounts =~= l.accounts);
    assert(l2.deposits =~= l.deposits);
    assert(l2 =~= l);
}

/// Law: a chargeback of a disputed deposit reduces `total` and `held` by
/// exactly the disputed value, locks the account for good, and settles the
/// deposit terminally, so no further dispute-chain transaction can
/// reference it.
pub proof fn lemma_chargeback(l: Ledger, client_id: ClientID, tx_id: TransactionID)
    requires
        settlement_accepted(l, client_id, tx_id),
    ensures
        spec_outcome(l, Transaction::Chargeback { client_id, tx_id }) == Ok::<(), PaymentError>(()),
        spec_apply(l, Transaction::Chargeback { client_id, tx_id }).account_or_new(
            client_id.0,
        ).locked,
        spec_apply(l, Transaction::Chargeback { client_id, tx_id }).account_or_new(
            client_id.0,
        ).total == l.account_or_new(client_id.0).total - l.deposits[tx_id.0].value,
        spec_apply(l, Transaction::Chargeback { client_id, tx_id }).account_or_new(
            client_id.0,
        ).held == l.account_or_new(client_id.0).held - l.deposits[tx_id.0].value,
        spec_apply(l, Transaction::Chargeback { client_id, tx_id }).deposits[tx_id.0].status
            is ChargedBack,
{
}

/// Against a locked account every deposit and withdrawal fails with
/// `AccountLocked`, and the ledger does not change.
pub proof fn lemma_locked_rejects(
    l: Ledger,
    client_id: ClientID,
    tx_id: TransactionID,
    amount: i128,
)
    requires
        l.account_or_new(client_id.0).locked,
    ensures
        spec_step(l, Transaction::Deposit { client_id, tx_id, amount }) == (
            l,
            Err::<(), PaymentError>(PaymentError::AccountLocked(client_id)),
        ),
        spec_step(l, Transaction::Withdrawal { client_id, tx_id, amount }) == (
            l,
            Err::<(), PaymentError>(PaymentError::AccountLocked(client_id)),
        ),
{
}

/// A locked account stays locked, whatever transaction comes next.
pub proof fn lemma_locked_is_permanent(l: Ledger, c: u16, t: Transaction)
    requires
        l.account_or_new(c).locked,
    ensures
        spec_apply(l, t).account_or_new(c).locked,
{
    let l2 = spec_apply(l, t);
    if t.spec_client_id().0 != c {
        if l2.accounts.dom().contains(c) && l.accounts.dom().contains(c) {
            assert(l2.account_or_new(c) == l.account_or_new(c));
        }
    }
}

/// Law: once locked, an account stays locked through any further stream of
/// transactions, and every later deposit or withdrawal against it still
/// fails with `AccountLocked`.
pub proof fn lemma_locked_rejects_forever(
    l: Ledger,
    ts: Seq<Transaction>,
    client_id: ClientID,
    tx_id: TransactionID,
    amount: i128,
)
    requires
        l.account_or_new(client_id.0).locked,
    ensures
        spec_apply_all(l, ts).account_or_new(client_id.0).locked,
        spec_outcome(spec_apply_all(l, ts), Transaction::Deposit { client_id, tx_id, amount })
            == Err::<(), PaymentError>(PaymentError::AccountLocked(client_id)),
        spec_outcome(spec_apply_all(l, ts), Transaction::Withdrawal { client_id, tx_id, amount })
            == Err::<(), PaymentError>(PaymentError::AccountLocked(client_id)),
    decreases ts.len(),
{
    if ts.len() == 0 {
    } else {
        lemma_locked_rejects_forever(l, ts.drop_last(), client_id, tx_id, amount);
        lemma_locked_is_permanent(spec_apply_all(l, ts.drop_last()), client_id.0, ts.last());
    }
    lemma_locked_rejects(spec_apply_all(l, ts), client_id, tx_id, amount);
}

/// Law: a dispute naming a client that does not own the referenced deposit
/// fails with `IncorrectTransactionId` and changes nothing — in particular,
/// neither the owner's nor the disputing client's balances move.
pub proof fn lemma_cross_client_dispute_rejected(
    l: Ledger,
    client_id: ClientID,
    tx_id: TransactionID,
)
    requires
        !l.account_or_new(client_id.0).locked,
        l.deposits.dom().contains(tx_id.0),
        l.deposits[tx_id.0].client != client_id.0,
    ensures
        spec_apply(l, Transaction::Dispute { client_id, tx_id }) == l,
        spec_outcome(l, Transaction::Dispute { client_id, tx_id }) == Err::<(), PaymentError>(
            (PaymentError::TransactionFailed {
                tx_id,
                client_id,
                source: AccountError::IncorrectTransactionId,
            }),
        ),
{
}

} // verus!
