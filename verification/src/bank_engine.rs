//! The account engine: applies one transaction at a time against client and
//! ledger-store state, and produces final account snapshots.
//!
//! The engine's contract is exact: applying a transaction computes
//! [`crate::ledger::spec_step`] of the engine's view, so every business rule
//! is fixed by the model in [`crate::ledger`], and the engine's internal
//! invariant ([`BankEngine::wf`]) keeps every balance inside `i128` however
//! long the stream runs.

use vstd::prelude::*;

use crate::client::Client;
use crate::errors::{AccountError, PaymentError};
use crate::ledger::{AccountState, DepositState, Ledger, spec_apply, spec_dispute_lookup, spec_outcome};
use crate::models::{
    AMOUNT_LIMIT, ClientID, ClientOutput, Deposit, DisputeStatus, Transaction, TransactionID,
};

verus! {

/// One stored deposit together with the transaction identifier that keys it.
#[derive(Debug, PartialEq, Eq, Clone, Copy, Structural)]
pub struct DepositEntry {
    pub tx_id: TransactionID,
    pub dep: Deposit,
}

/// One known client together with its identifier.
#[derive(Debug, PartialEq, Eq, Clone, Copy, Structural)]
struct ClientEntry {
    id: ClientID,
    client: Client,
}

// ---------------------------------------------------------------------------
// Sums over the stored deposits.
//
// The engine's invariant ties each client's balances to sums over the store:
// `held` equals the sum of that client's currently disputed deposits, `total`
// never exceeds the sum of all of the client's deposits, and `total` plus the
// sum of the client's charged-back deposits is never negative. Together with
// the per-deposit bound `AMOUNT_LIMIT` these keep all arithmetic in range.
// ---------------------------------------------------------------------------

/// What one entry contributes to a sum over `client`'s deposits: its value if
/// the owner matches and the status filter (None means any status) accepts it.
spec fn share_of(e: DepositEntry, client: u16, st: Option<DisputeStatus>) -> int {
    if e.dep.client_id.0 == client && (st is None || st == Some(e.dep.status)) {
        e.dep.value as int
    } else {
        0
    }
}

/// The sum of the values of `client`'s deposits that the status filter accepts.
spec fn tally(s: Seq<DepositEntry>, client: u16, st: Option<DisputeStatus>) -> int
    decreases s.len(),
{
    if s.len() == 0 {
        0
    } else {
        tally(s.drop_last(), client, st) + share_of(s.last(), client, st)
    }
}

/// A stored value is within the per-deposit bound.
spec fn entry_ok(e: DepositEntry) -> bool {
    0 <= e.dep.value <= AMOUNT_LIMIT
}

/// `post` is `pre` with entry `j` — which carries `tx_id` — rewritten to the
/// given dispute status, everything else untouched.
pub open spec fn status_rewrite_at(
    pre: Seq<DepositEntry>,
    post: Seq<DepositEntry>,
    j: int,
    tx_id: TransactionID,
    status: DisputeStatus,
) -> bool {
    &&& 0 <= j < pre.len()
    &&& pre[j].tx_id.0 == tx_id.0
    &&& post == pre.update(
        j,
        (DepositEntry {
            tx_id: pre[j].tx_id,
            dep: Deposit {
                client_id: pre[j].dep.client_id,
                value: pre[j].dep.value,
                status,
            },
        }),
    )
}

proof fn lemma_tally_push(s: Seq<DepositEntry>, e: DepositEntry, client: u16, st: Option<DisputeStatus>)
    ensures
        tally(s.push(e), client, st) == tally(s, client, st) + share_of(e, client, st),
{
    assert(s.push(e).drop_last() =~= s);
}

proof fn lemma_tally_update(
    s: Seq<DepositEntry>,
    i: int,
    e: DepositEntry,
    client: u16,
    st: Option<DisputeStatus>,
)
    requires
        0 <= i < s.len(),
    ensures
        tally(s.update(i, e), client, st) == tally(s, client, st) - share_of(s[i], client, st)
            + share_of(e, client, st),
    decreases s.len(),
{
    let su = s.update(i, e);
    if i == s.len() - 1 {
        assert(su.drop_last() =~= s.drop_last());
    } else {
        assert(su.drop_last() =~= s.drop_last().update(i, e));
        lemma_tally_update(s.drop_last(), i, e, client, st);
    }
}

proof fn lemma_tally_bounds(s: Seq<DepositEntry>, client: u16, st: Option<DisputeStatus>)
    requires
        forall|i: int| 0 <= i < s.len() ==> entry_ok(#[trigger] s[i]),
    ensures
        0 <= tally(s, client, st) <= s.len() * AMOUNT_LIMIT,
    decreases s.len(),
{
    if s.len() == 0 {
    } else {
        lemma_tally_bounds(s.drop_last(), client, st);
        assert((s.len() - 1) * AMOUNT_LIMIT + AMOUNT_LIMIT == s.len() * AMOUNT_LIMIT)
            by (nonlinear_arith)
            requires s.len() >= 1,
        ;
    }
}

/// A client's deposits split exactly into the three dispute states.
proof fn lemma_tally_partition(s: Seq<DepositEntry>, client: u16)
    ensures
        tally(s, client, None) == tally(s, client, Some(DisputeStatus::Undisputed)) + tally(
            s,
            client,
            Some(DisputeStatus::Disputed),
        ) + tally(s, client, Some(DisputeStatus::ChargedBack)),
    decreases s.len(),
{
    if s.len() == 0 {
    } else {
        lemma_tally_partition(s.drop_last(), client);
    }
}

/// A client with no stored deposit has every sum equal to zero.
proof fn lemma_tally_absent(s: Seq<DepositEntry>, client: u16, st: Option<DisputeStatus>)
    requires
        forall|i: int| 0 <= i < s.len() ==> (#[trigger] s[i]).dep.client_id.0 != client,
    ensures
        tally(s, client, st) == 0,
    decreases s.len(),
{
    if s.len() == 0 {
    } else {
        lemma_tally_absent(s.drop_last(), client, st);
    }
}

/// A vector is never longer than the address space admits.
proof fn lemma_store_len(v: &Vec<DepositEntry>)
    ensures
        v@.len() <= 0xFFFF_FFFF_FFFF_FFFF,
{
    assert(vstd::std_specs::vec::spec_vec_len(v) == v@.len());
}

/// With a bounded store, every sum fits comfortably inside `i128`.
proof fn lemma_tally_fits(s: Seq<DepositEntry>, client: u16, st: Option<DisputeStatus>)
    requires
        forall|i: int| 0 <= i < s.len() ==> entry_ok(#[trigger] s[i]),
        s.len() <= 0xFFFF_FFFF_FFFF_FFFF,
    ensures
        0 <= tally(s, client, st) <= 0xFFFF_FFFF_FFFF_FFFF * AMOUNT_LIMIT,
{
    lemma_tally_bounds(s, client, st);
    assert(s.len() * AMOUNT_LIMIT <= 0xFFFF_FFFF_FFFF_FFFF * AMOUNT_LIMIT) by (nonlinear_arith)
        requires s.len() <= 0xFFFF_FFFF_FFFF_FFFF,
    ;
}

/// The balances of a client that satisfies [`client_ok`] stay far inside
/// `i128`, so the engine's arithmetic cannot overflow.
proof fn lemma_client_bounds(ds: Seq<DepositEntry>, e: ClientEntry)
    requires
        forall|j: int| 0 <= j < ds.len() ==> entry_ok(#[trigger] ds[j]),
        ds.len() <= 0xFFFF_FFFF_FFFF_FFFF,
        client_ok(ds, e),
    ensures
        0 <= e.client.held as int <= 0xFFFF_FFFF_FFFF_FFFF * AMOUNT_LIMIT,
        e.client.total as int <= 0xFFFF_FFFF_FFFF_FFFF * AMOUNT_LIMIT,
        e.client.total as int >= -(0xFFFF_FFFF_FFFF_FFFF * AMOUNT_LIMIT),
        e.client.total as int - e.client.held as int >= -(0xFFFF_FFFF_FFFF_FFFF * AMOUNT_LIMIT),
{
    lemma_tally_fits(ds, e.id.0, Some(DisputeStatus::Undisputed));
    lemma_tally_fits(ds, e.id.0, Some(DisputeStatus::Disputed));
    lemma_tally_fits(ds, e.id.0, Some(DisputeStatus::ChargedBack));
    lemma_tally_fits(ds, e.id.0, None);
    lemma_tally_partition(ds, e.id.0);
}

// ---------------------------------------------------------------------------
// From the concrete sequences to the model maps.
// ---------------------------------------------------------------------------

/// The map of deposit records that a store sequence denotes.
spec fn deposits_of(s: Seq<DepositEntry>) -> Map<u32, DepositState>
    decreases s.len(),
{
    if s.len() == 0 {
        Map::empty()
    } else {
        deposits_of(s.drop_last()).insert(s.last().tx_id.0, s.last().dep.as_state())
    }
}

/// The map of account states that a client sequence denotes.
spec fn accounts_of(s: Seq<ClientEntry>) -> Map<u16, AccountState>
    decreases s.len(),
{
    if s.len() == 0 {
        Map::empty()
    } else {
        accounts_of(s.drop_last()).insert(s.last().id.0, s.last().client.as_state())
    }
}

proof fn lemma_deposits_of_contains(s: Seq<DepositEntry>, tx: u32)
    ensures
        deposits_of(s).dom().contains(tx) <==> exists|j: int|
            0 <= j < s.len() && (#[trigger] s[j]).tx_id.0 == tx,
    decreases s.len(),
{
    if s.len() == 0 {
    } else {
        lemma_deposits_of_contains(s.drop_last(), tx);
        if deposits_of(s).dom().contains(tx) {
            if s.last().tx_id.0 == tx {
                assert(s[s.len() - 1].tx_id.0 == tx);
            } else {
                let j = choose|j: int| 0 <= j < s.drop_last().len() && (#[trigger] s.drop_last()[j]).tx_id.0 == tx;
                assert(s[j].tx_id.0 == tx);
            }
        }
        if exists|j: int| 0 <= j < s.len() && (#[trigger] s[j]).tx_id.0 == tx {
            let j = choose|j: int| 0 <= j < s.len() && (#[trigger] s[j]).tx_id.0 == tx;
            if j < s.len() - 1 {
                assert(s.drop_last()[j].tx_id.0 == tx);
            }
        }
    }
}

proof fn lemma_deposits_of_get(s: Seq<DepositEntry>, j: int)
    requires
        0 <= j < s.len(),
        forall|j1: int, j2: int|
            0 <= j1 < j2 < s.len() ==> (#[trigger] s[j1]).tx_id.0 != (#[trigger] s[j2]).tx_id.0,
    ensures
        deposits_of(s).dom().contains(s[j].tx_id.0),
        deposits_of(s)[s[j].tx_id.0] == s[j].dep.as_state(),
    decreases s.len(),
{
    if j == s.len() - 1 {
    } else {
        lemma_deposits_of_get(s.drop_last(), j);
        assert(s.drop_last()[j] == s[j]);
        assert(s[j].tx_id.0 != s.last().tx_id.0);
    }
}

proof fn lemma_deposits_of_update(s: Seq<DepositEntry>, i: int, e: DepositEntry)
    requires
        0 <= i < s.len(),
        e.tx_id.0 == s[i].tx_id.0,
        forall|j1: int, j2: int|
            0 <= j1 < j2 < s.len() ==> (#[trigger] s[j1]).tx_id.0 != (#[trigger] s[j2]).tx_id.0,
    ensures
        deposits_of(s.update(i, e)) == deposits_of(s).insert(e.tx_id.0, e.dep.as_state()),
    decreases s.len(),
{
    let su = s.update(i, e);
    if i == s.len() - 1 {
        assert(su.drop_last() =~= s.drop_last());
        assert(deposits_of(su) =~= deposits_of(s).insert(e.tx_id.0, e.dep.as_state()));
    } else {
        assert(su.drop_last() =~= s.drop_last().update(i, e));
        lemma_deposits_of_update(s.drop_last(), i, e);
        assert(s.last().tx_id.0 != e.tx_id.0);
        assert(deposits_of(su) =~= deposits_of(s).insert(e.tx_id.0, e.dep.as_state()));
    }
}

proof fn lemma_accounts_of_contains(s: Seq<ClientEntry>, c: u16)
    ensures
        accounts_of(s).dom().contains(c) <==> exists|i: int|
            0 <= i < s.len() && (#[trigger] s[i]).id.0 == c,
    decreases s.len(),
{
    if s.len() == 0 {
    } else {
        lemma_accounts_of_contains(s.drop_last(), c);
        if accounts_of(s).dom().contains(c) {
            if s.last().id.0 == c {
                assert(s[s.len() - 1].id.0 == c);
            } else {
                let i = choose|i: int| 0 <= i < s.drop_last().len() && (#[trigger] s.drop_last()[i]).id.0 == c;
                assert(s[i].id.0 == c);
            }
        }
        if exists|i: int| 0 <= i < s.len() && (#[trigger] s[i]).id.0 == c {
            let i = choose|i: int| 0 <= i < s.len() && (#[trigger] s[i]).id.0 == c;
            if i < s.len() - 1 {
                assert(s.drop_last()[i].id.0 == c);
            }
        }
    }
}

proof fn lemma_accounts_of_get(s: Seq<ClientEntry>, i: int)
    requires
        0 <= i < s.len(),
        forall|i1: int, i2: int|
            0 <= i1 < i2 < s.len() ==> (#[trigger] s[i1]).id.0 != (#[trigger] s[i2]).id.0,
    ensures
        accounts_of(s).dom().contains(s[i].id.0),
        accounts_of(s)[s[i].id.0] == s[i].client.as_state(),
    decreases s.len(),
{
    if i == s.len() - 1 {
    } else {
        lemma_accounts_of_get(s.drop_last(), i);
        assert(s.drop_last()[i] == s[i]);
        assert(s[i].id.0 != s.last().id.0);
    }
}

proof fn lemma_accounts_of_update(s: Seq<ClientEntry>, i: int, e: ClientEntry)
    requires
        0 <= i < s.len(),
        e.id.0 == s[i].id.0,
        forall|i1: int, i2: int|
            0 <= i1 < i2 < s.len() ==> (#[trigger] s[i1]).id.0 != (#[trigger] s[i2]).id.0,
    ensures
        accounts_of(s.update(i, e)) == accounts_of(s).insert(e.id.0, e.client.as_state()),
    decreases s.len(),
{
    let su = s.update(i, e);
    if i == s.len() - 1 {
        assert(su.drop_last() =~= s.drop_last());
        assert(accounts_of(su) =~= accounts_of(s).insert(e.id.0, e.client.as_state()));
    } else {
        assert(su.drop_last() =~= s.drop_last().update(i, e));
        lemma_accounts_of_update(s.drop_last(), i, e);
        assert(s.last().id.0 != e.id.0);
        assert(accounts_of(su) =~= accounts_of(s).insert(e.id.0, e.client.as_state()));
    }
}

// ---------------------------------------------------------------------------
// The passive store of recorded deposits.
// ---------------------------------------------------------------------------

/// The in-process store of deposit records, a lookup/record service with no
/// business logic of its own. Its view is the map from transaction identifier
/// to recorded deposit.
#[derive(Debug)]
pub struct InMemoryStore {
    data: Vec<DepositEntry>,
}

impl View for InMemoryStore {
    type V = Map<u32, DepositState>;

    closed spec fn view(&self) -> Map<u32, DepositState> {
        deposits_of(self.data@)
    }
}

impl InMemoryStore {
    /// The stored entries, in insertion order.
    pub closed spec fn entries(self) -> Seq<DepositEntry> {
        self.data@
    }

    /// Transaction identifiers never repeat in the store.
    pub closed spec fn wf(self) -> bool {
        forall|j1: int, j2: int|
            0 <= j1 < j2 < self.data@.len() ==> (#[trigger] self.data@[j1]).tx_id.0 != (
            #[trigger] self.data@[j2]).tx_id.0
    }

    /// An empty store.
    pub fn new() -> (r: InMemoryStore)
        ensures
            r.wf(),
            r@ == Map::<u32, DepositState>::empty(),
            r.entries().len() == 0,
    {
        InMemoryStore { data: Vec::new() }
    }

    fn find_tx(&self, tx_id: TransactionID) -> (r: Option<usize>)
        ensures
            r matches Some(j) ==> j < self.data@.len() && self.data@[j as int].tx_id.0 == tx_id.0,
            r is None ==> forall|k: int|
                0 <= k < self.data@.len() ==> (#[trigger] self.data@[k]).tx_id.0 != tx_id.0,
    {
        let mut j: usize = 0;
        while j < self.data.len()
            invariant
                j <= self.data@.len(),
                forall|k: int| 0 <= k < j ==> (#[trigger] self.data@[k]).tx_id.0 != tx_id.0,
            decreases self.data@.len() - j,
        {
            if self.data[j].tx_id.0 == tx_id.0 {
                return Some(j);
            }
            j = j + 1;
        }
        None
    }

    /// Inserts a new deposit record, not yet disputed. The caller is
    /// responsible for the uniqueness of transaction identifiers, which the
    /// input format guarantees; the store performs no duplicate check.
    pub fn record_deposit(&mut self, tx_id: TransactionID, client_id: ClientID, value: i128)
        requires
            old(self).wf(),
            !old(self)@.dom().contains(tx_id.0),
        ensures
            final(self).wf(),
            final(self).entries() == old(self).entries().push(
                (DepositEntry {
                    tx_id,
                    dep: Deposit { client_id, value, status: DisputeStatus::Undisputed },
                }),
            ),
            final(self)@ == old(self)@.insert(
                tx_id.0,
                (DepositState {
                    client: client_id.0,
                    value: value as int,
                    status: DisputeStatus::Undisputed,
                }),
            ),
    {
        let entry = DepositEntry {
            tx_id,
            dep: Deposit { client_id, value, status: DisputeStatus::Undisputed },
        };
        proof {
            lemma_deposits_of_contains(self.data@, tx_id.0);
            assert(self.data@.push(entry).drop_last() =~= self.data@);
        }
        self.data.push(entry);
    }

    /// Looks a deposit record up by transaction identifier; fails with
    /// `MissingTransaction` when no deposit with that identifier was ever
    /// recorded.
    pub fn get_tx_info(&self, tx_id: TransactionID) -> (r: Result<Deposit, AccountError>)
        requires
            self.wf(),
        ensures
            r matches Ok(dep) ==> self@.dom().contains(tx_id.0) && self@[tx_id.0]
                == dep.as_state() && exists|j: int|
                0 <= j < self.entries().len() && (#[trigger] self.entries()[j]) == (DepositEntry {
                    tx_id,
                    dep,
                }),
            r is Err ==> r == Err::<Deposit, AccountError>(AccountError::MissingTransaction)
                && !self@.dom().contains(tx_id.0),
    {
        proof {
            lemma_deposits_of_contains(self.data@, tx_id.0);
        }
        match self.find_tx(tx_id) {
            Some(j) => {
                let entry = self.data[j];
                proof {
                    lemma_deposits_of_get(self.data@, j as int);
                    assert(entry.tx_id.0 == tx_id.0);
                    assert(entry.tx_id == tx_id);
                    assert(self.entries()[j as int] == (DepositEntry { tx_id, dep: entry.dep }));
                }
                Ok(entry.dep)
            },
            None => Err(AccountError::MissingTransaction),
        }
    }

    /// Rewrites the dispute status of an existing record, leaving its owner
    /// and value untouched, and hands back the record's position.
    fn set_status(&mut self, tx_id: TransactionID, status: DisputeStatus) -> (j: usize)
        requires
            old(self).wf(),
            old(self)@.dom().contains(tx_id.0),
        ensures
            final(self).wf(),
            status_rewrite_at(old(self).entries(), final(self).entries(), j as int, tx_id, status),
            final(self)@ == old(self)@.insert(
                tx_id.0,
                (DepositState {
                    client: old(self)@[tx_id.0].client,
                    value: old(self)@[tx_id.0].value,
                    status,
                }),
            ),
    {
        proof {
            lemma_deposits_of_contains(self.data@, tx_id.0);
        }
        match self.find_tx(tx_id) {
            Some(j) => {
                let entry = self.data[j];
                let updated = DepositEntry {
                    tx_id: entry.tx_id,
                    dep: Deposit {
                        client_id: entry.dep.client_id,
                        value: entry.dep.value,
                        status,
                    },
                };
                proof {
                    lemma_deposits_of_get(self.data@, j as int);
                    lemma_deposits_of_update(self.data@, j as int, updated);
                }
                self.data.set(j, updated);
                proof {
                    assert(status_rewrite_at(
                        old(self).entries(),
                        self.entries(),
                        j as int,
                        tx_id,
                        status,
                    ));
                }
                j
            },
            None => {
                proof {
                    assert(false);
                }
                0
            },
        }
    }
}

// ---------------------------------------------------------------------------
// The account engine.
// ---------------------------------------------------------------------------

/// Some client in `cs` carries the identifier `c`.
spec fn has_client(cs: Seq<ClientEntry>, c: u16) -> bool {
    exists|i: int| 0 <= i < cs.len() && (#[trigger] cs[i]).id.0 == c
}

/// Per-client invariant: the balances agree with the sums over the store.
/// `held` is exactly the sum of the client's disputed deposits; `total` never
/// exceeds the sum of all of the client's deposits; and `total` plus the sum
/// of the client's charged-back deposits is never negative.
spec fn client_ok(ds: Seq<DepositEntry>, e: ClientEntry) -> bool {
    &&& e.client.held as int == tally(ds, e.id.0, Some(DisputeStatus::Disputed))
    &&& e.client.total as int <= tally(ds, e.id.0, None)
    &&& e.client.total as int + tally(ds, e.id.0, Some(DisputeStatus::ChargedBack)) >= 0
}

/// The engine's invariant, over its two sequences: identifiers never repeat,
/// stored values are bounded, every deposit's owner is a known client, and
/// every client satisfies [`client_ok`].
spec fn engine_inv(cs: Seq<ClientEntry>, ds: Seq<DepositEntry>) -> bool {
    &&& forall|i1: int, i2: int|
        0 <= i1 < i2 < cs.len() ==> (#[trigger] cs[i1]).id.0 != (#[trigger] cs[i2]).id.0
    &&& forall|j1: int, j2: int|
        0 <= j1 < j2 < ds.len() ==> (#[trigger] ds[j1]).tx_id.0 != (#[trigger] ds[j2]).tx_id.0
    &&& forall|j: int| 0 <= j < ds.len() ==> entry_ok(#[trigger] ds[j])
    &&& forall|j: int| 0 <= j < ds.len() ==> has_client(cs, (#[trigger] ds[j]).dep.client_id.0)
    &&& forall|k: int| 0 <= k < cs.len() ==> client_ok(ds, #[trigger] cs[k])
}

/// An output row faithfully reports the ledger: the row's client is known,
/// the balances are the account's, and `available` is `total - held`.
pub open spec fn row_matches(l: Ledger, row: ClientOutput) -> bool {
    &&& l.accounts.dom().contains(row.client.0)
    &&& row.held as int == l.accounts[row.client.0].held
    &&& row.total as int == l.accounts[row.client.0].total
    &&& row.locked == l.accounts[row.client.0].locked
    &&& row.available as int == l.accounts[row.client.0].available()
}

/// One output row, read off one client entry.
spec fn row_of(e: ClientEntry) -> ClientOutput {
    ClientOutput {
        client: e.id,
        available: (e.client.total - e.client.held) as i128,
        held: e.client.held,
        total: e.client.total,
        locked: e.client.locked,
    }
}

/// The account engine: owns all per-client account state and the deposit
/// store, applies each incoming transaction against both, and is the sole
/// mutator of either. Its view is the [`Ledger`] model.
#[derive(Debug)]
pub struct BankEngine {
    clients: Vec<ClientEntry>,
    transaction_store: InMemoryStore,
}

impl View for BankEngine {
    type V = Ledger;

    closed spec fn view(&self) -> Ledger {
        Ledger {
            accounts: accounts_of(self.clients@),
            deposits: deposits_of(self.transaction_store.data@),
        }
    }
}

impl BankEngine {
    /// The engine's internal invariant: identifiers never repeat, stored
    /// values are bounded by [`AMOUNT_LIMIT`], every deposit's owner is a
    /// known client, and each client satisfies [`client_ok`]. Constructors
    /// establish it and every method preserves it.
    pub closed spec fn wf(self) -> bool {
        &&& engine_inv(self.clients@, self.transaction_store.data@)
        &&& self.transaction_store.wf()
    }

    /// Re-establishes the invariant and computes the two views after the
    /// shared mutation of the dispute-chain transactions: one client entry
    /// rewritten at `i`, one store record rewritten to `status`.
    proof fn finish_status_change(
        &self,
        cs: Seq<ClientEntry>,
        ds: Seq<DepositEntry>,
        i: int,
        entry2: ClientEntry,
        tx_id: TransactionID,
        dep: Deposit,
        status: DisputeStatus,
        jj: int,
    )
        requires
            engine_inv(cs, ds),
            0 <= i < cs.len(),
            dep.client_id.0 == cs[i].id.0,
            entry2.id == cs[i].id,
            exists|j: int|
                0 <= j < ds.len() && (#[trigger] ds[j]) == (DepositEntry { tx_id, dep }),
            self.clients@ == cs.update(i, entry2),
            status_rewrite_at(ds, self.transaction_store.data@, jj, tx_id, status),
            status is Disputed ==> dep.status is Undisputed,
            status is Undisputed ==> dep.status is Disputed,
            status is ChargedBack ==> dep.status is Disputed,
            entry2.client.held as int == cs[i].client.held as int + (
            if status is Disputed {
                dep.value as int
            } else {
                -(dep.value as int)
            }),
            entry2.client.total as int == cs[i].client.total as int - (
            if status is ChargedBack {
                dep.value as int
            } else {
                0
            }),
        ensures
            self.wf(),
            accounts_of(self.clients@) == accounts_of(cs).insert(
                entry2.id.0,
                entry2.client.as_state(),
            ),
            deposits_of(self.transaction_store.data@) == deposits_of(ds).insert(
                tx_id.0,
                (DepositState { client: dep.client_id.0, value: dep.value as int, status }),
            ),
    {
        let cs2 = self.clients@;
        let ds2 = self.transaction_store.data@;
        let j0 = choose|j: int|
            0 <= j < ds.len() && (#[trigger] ds[j]) == (DepositEntry { tx_id, dep });
        let j1 = jj;
        assert(status_rewrite_at(ds, ds2, j1, tx_id, status));
        if j0 != j1 {
            if j0 < j1 {
                assert(ds[j0].tx_id.0 != ds[j1].tx_id.0);
            } else {
                assert(ds[j1].tx_id.0 != ds[j0].tx_id.0);
            }
            assert(false);
        }
        let rec2 = DepositEntry {
            tx_id: ds[j0].tx_id,
            dep: Deposit {
                client_id: ds[j0].dep.client_id,
                value: ds[j0].dep.value,
                status,
            },
        };
        assert(ds2 == ds.update(j0, rec2));
        assert forall|i1: int, i2: int|
            0 <= i1 < i2 < cs2.len() implies (#[trigger] cs2[i1]).id.0 != (
        #[trigger] cs2[i2]).id.0 by {
            assert(cs[i1].id.0 != cs[i2].id.0);
        }
        assert forall|j1: int, j2: int|
            0 <= j1 < j2 < ds2.len() implies (#[trigger] ds2[j1]).tx_id.0 != (
        #[trigger] ds2[j2]).tx_id.0 by {
            assert(ds[j1].tx_id.0 != ds[j2].tx_id.0);
        }
        assert forall|j: int| 0 <= j < ds2.len() implies entry_ok(#[trigger] ds2[j]) by {
            assert(entry_ok(ds[j]));
        }
        assert forall|j: int|
            0 <= j < ds2.len() implies has_client(cs2, (#[trigger] ds2[j]).dep.client_id.0) by {
            assert(ds2[j].dep.client_id == ds[j].dep.client_id);
            assert(has_client(cs, ds[j].dep.client_id.0));
            let w = choose|w: int|
                0 <= w < cs.len() && (#[trigger] cs[w]).id.0 == ds[j].dep.client_id.0;
            assert(cs2[w].id.0 == ds[j].dep.client_id.0);
        }
        assert forall|k: int| 0 <= k < cs2.len() implies client_ok(ds2, #[trigger] cs2[k]) by {
            assert(client_ok(ds, cs[k]));
            assert(entry_ok(ds[j0]));
            lemma_tally_update(ds, j0, rec2, cs2[k].id.0, Some(DisputeStatus::Disputed));
            lemma_tally_update(ds, j0, rec2, cs2[k].id.0, Some(DisputeStatus::ChargedBack));
            lemma_tally_update(ds, j0, rec2, cs2[k].id.0, None);
            if k != i {
                if k < i {
                    assert(cs[k].id.0 != cs[i].id.0);
                } else {
                    assert(cs[i].id.0 != cs[k].id.0);
                }
            }
        }
        lemma_accounts_of_update(cs, i, entry2);
        lemma_deposits_of_update(ds, j0, rec2);
    }

    /// A fresh engine around an empty store: no clients, no records.
    pub fn new(store: InMemoryStore) -> (r: BankEngine)
        requires
            store.entries().len() == 0,
        ensures
            r.wf(),
            r@ == Ledger::empty(),
    {
        let r = BankEngine { clients: Vec::new(), transaction_store: store };
        proof {
            assert(r@ =~= Ledger::empty());
        }
        r
    }

    fn find_client(&self, client_id: ClientID) -> (r: Option<usize>)
        ensures
            r matches Some(i) ==> i < self.clients@.len() && self.clients@[i as int].id.0
                == client_id.0,
            r is None ==> forall|k: int|
                0 <= k < self.clients@.len() ==> (#[trigger] self.clients@[k]).id.0 != client_id.0,
    {
        let mut i: usize = 0;
        while i < self.clients.len()
            invariant
                i <= self.clients@.len(),
                forall|k: int| 0 <= k < i ==> (#[trigger] self.clients@[k]).id.0 != client_id.0,
            decreases self.clients@.len() - i,
        {
            if self.clients[i].id.0 == client_id.0 {
                return Some(i);
            }
            i = i + 1;
        }
        None
    }

    /// Whether a deposit with this transaction identifier was ever recorded.
    /// The input format guarantees identifiers never repeat; an adapter can
    /// use this to refuse an input that breaks that guarantee.
    pub fn contains_transaction(&self, tx_id: TransactionID) -> (r: bool)
        ensures
            r == self@.deposits.dom().contains(tx_id.0),
    {
        proof {
            lemma_deposits_of_contains(self.transaction_store.data@, tx_id.0);
        }
        match self.transaction_store.find_tx(tx_id) {
            Some(_) => true,
            None => false,
        }
    }

    /// Looks up what a dispute-chain transaction names — exactly
    /// [`spec_dispute_lookup`]: first the lock gate, then the deposit record,
    /// then the owner check. On success, hands back the index of the client's
    /// entry and a copy of the record.
    fn get_transaction_info(&self, tx_id: TransactionID, client_id: ClientID) -> (r: Result<
        (usize, Deposit),
        PaymentError,
    >)
        requires
            self.wf(),
        ensures
            r matches Ok(pair) ==> ({
                &&& spec_dispute_lookup(self@, client_id, tx_id) == Ok::<
                    DepositState,
                    PaymentError,
                >(pair.1.as_state())
                &&& pair.0 < self.clients@.len()
                &&& self.clients@[pair.0 as int].id.0 == client_id.0
                &&& self.clients@[pair.0 as int].client.locked == false
                &&& pair.1.client_id.0 == client_id.0
                &&& self@.deposits.dom().contains(tx_id.0)
                &&& self@.deposits[tx_id.0] == pair.1.as_state()
                &&& exists|j: int|
                    0 <= j < self.transaction_store.data@.len()
                        && (#[trigger] self.transaction_store.data@[j]) == (DepositEntry {
                        tx_id,
                        dep: pair.1,
                    })
            }),
            r matches Err(e) ==> spec_dispute_lookup(self@, client_id, tx_id) == Err::<
                DepositState,
                PaymentError,
            >(e),
    {
        proof {
            lemma_accounts_of_contains(self.clients@, client_id.0);
        }
        let found = self.find_client(client_id);
        if let Some(i) = found {
            proof {
                lemma_accounts_of_get(self.clients@, i as int);
            }
            if self.clients[i].client.locked {
                return Err(PaymentError::AccountLocked(client_id));
            }
        }
        let dep = match self.transaction_store.get_tx_info(tx_id) {
            Err(source) => {
                return Err(PaymentError::TransactionFailed { tx_id, client_id, source });
            },
            Ok(dep) => dep,
        };
        if dep.client_id.0 != client_id.0 {
            return Err(
                PaymentError::TransactionFailed {
                    tx_id,
                    client_id,
                    source: AccountError::IncorrectTransactionId,
                },
            );
        }
        match found {
            Some(i) => Ok((i, dep)),
            None => {
                // The record's owner is this client, and the engine's
                // invariant says every owner is a known client: this arm
                // cannot be reached.
                proof {
                    let ds = self.transaction_store.data@;
                    let j = choose|j: int|
                        0 <= j < ds.len() && (#[trigger] ds[j]) == (DepositEntry { tx_id, dep });
                    assert(has_client(self.clients@, ds[j].dep.client_id.0));
                    assert(false);
                }
                Err(
                    PaymentError::TransactionFailed {
                        tx_id,
                        client_id,
                        source: AccountError::MissingTransaction,
                    },
                )
            },
        }
    }

    /// Applies one transaction, as [`crate::ledger::spec_step`] describes:
    /// the new state is exactly `spec_apply` of the old view, and the result
    /// exactly `spec_outcome`. On failure nothing changes — no balance, no
    /// dispute flag, and no account is created.
    ///
    /// The caller supplies amounts the input boundary has validated
    /// ([`Transaction::valid_amounts`]) and, for a deposit, a transaction
    /// identifier never seen before — the input format guarantees both.
    pub fn process_transaction(&mut self, transaction: Transaction) -> (r: Result<
        (),
        PaymentError,
    >)
        requires
            old(self).wf(),
            transaction.valid_amounts(),
            transaction is Deposit ==> !old(self)@.deposits.dom().contains(
                transaction.spec_tx_id().0,
            ),
        ensures
            final(self).wf(),
            final(self)@ == spec_apply(old(self)@, transaction),
            r == spec_outcome(old(self)@, transaction),
    {
        let ghost cs = old(self).clients@;
        let ghost ds = old(self).transaction_store.data@;
        proof {
            lemma_store_len(&self.transaction_store.data);
        }
        match transaction {
            Transaction::Deposit { client_id, tx_id, amount } => {
                let found = self.find_client(client_id);
                proof {
                    lemma_accounts_of_contains(cs, client_id.0);
                }
                match found {
                    Some(i) => {
                        let entry = self.clients[i];
                        proof {
                            lemma_accounts_of_get(cs, i as int);
                        }
                        if entry.client.locked {
                            return Err(PaymentError::AccountLocked(client_id));
                        }
                        proof {
                            lemma_client_bounds(ds, entry);
                        }
                        let mut entry2 = entry;
                        entry2.client.make_deposit(amount);
                        self.clients.set(i, entry2);
                        self.transaction_store.record_deposit(tx_id, client_id, amount);
                        proof {
                            let rec = DepositEntry {
                                tx_id,
                                dep: Deposit {
                                    client_id,
                                    value: amount,
                                    status: DisputeStatus::Undisputed,
                                },
                            };
                            let cs2 = self.clients@;
                            let ds2 = self.transaction_store.data@;
                            assert forall|k: int| 0 <= k < cs2.len() implies client_ok(
                                ds2,
                                #[trigger] cs2[k],
                            ) by {
                                lemma_tally_push(ds, rec, cs2[k].id.0, Some(DisputeStatus::Disputed));
                                lemma_tally_push(
                                    ds,
                                    rec,
                                    cs2[k].id.0,
                                    Some(DisputeStatus::ChargedBack),
                                );
                                lemma_tally_push(ds, rec, cs2[k].id.0, None);
                                assert(client_ok(ds, cs[k]));
                            }
                            assert forall|j: int| 0 <= j < ds2.len() implies has_client(
                                cs2,
                                (#[trigger] ds2[j]).dep.client_id.0,
                            ) by {
                                if j < ds.len() {
                                    assert(has_client(cs, ds[j].dep.client_id.0));
                                    let w = choose|w: int|
                                        0 <= w < cs.len() && (#[trigger] cs[w]).id.0
                                            == ds[j].dep.client_id.0;
                                    assert(cs2[w].id.0 == ds[j].dep.client_id.0);
                                } else {
                                    assert(cs2[i as int].id.0 == client_id.0);
                                }
                            }
                            lemma_accounts_of_update(cs, i as int, entry2);
                            assert(self@ =~= spec_apply(old(self)@, transaction));
                        }
                        Ok(())
                    },
                    None => {
                        proof {
                            assert forall|j: int|
                                0 <= j < ds.len() implies (#[trigger] ds[j]).dep.client_id.0
                                != client_id.0 by {
                                assert(has_client(cs, ds[j].dep.client_id.0));
                            }
                            lemma_tally_absent(ds, client_id.0, Some(DisputeStatus::Disputed));
                            lemma_tally_absent(ds, client_id.0, Some(DisputeStatus::ChargedBack));
                            lemma_tally_absent(ds, client_id.0, None);
                        }
                        let entry = ClientEntry {
                            id: client_id,
                            client: Client { held: 0, total: amount, locked: false },
                        };
                        self.clients.push(entry);
                        self.transaction_store.record_deposit(tx_id, client_id, amount);
                        proof {
                            let rec = DepositEntry {
                                tx_id,
                                dep: Deposit {
                                    client_id,
                                    value: amount,
                                    status: DisputeStatus::Undisputed,
                                },
                            };
                            let cs2 = self.clients@;
                            let ds2 = self.transaction_store.data@;
                            assert(cs2 == cs.push(entry));
                            assert forall|k: int| 0 <= k < cs2.len() implies client_ok(
                                ds2,
                                #[trigger] cs2[k],
                            ) by {
                                lemma_tally_push(ds, rec, cs2[k].id.0, Some(DisputeStatus::Disputed));
                                lemma_tally_push(
                                    ds,
                                    rec,
                                    cs2[k].id.0,
                                    Some(DisputeStatus::ChargedBack),
                                );
                                lemma_tally_push(ds, rec, cs2[k].id.0, None);
                                if k < cs.len() {
                                    assert(client_ok(ds, cs[k]));
                                }
                            }
                            assert forall|j: int| 0 <= j < ds2.len() implies has_client(
                                cs2,
                                (#[trigger] ds2[j]).dep.client_id.0,
                            ) by {
                                if j < ds.len() {
                                    assert(has_client(cs, ds[j].dep.client_id.0));
                                    let w = choose|w: int|
                                        0 <= w < cs.len() && (#[trigger] cs[w]).id.0
                                            == ds[j].dep.client_id.0;
                                    assert(cs2[w].id.0 == ds[j].dep.client_id.0);
                                } else {
                                    assert(cs2[cs.len() as int].id.0 == client_id.0);
                                }
                            }
                            assert(cs.push(entry).drop_last() =~= cs);
                            assert(self@ =~= spec_apply(old(self)@, transaction));
                        }
                        Ok(())
                    },
                }
            },
            Transaction::Withdrawal { client_id, tx_id, amount } => {
                let found = self.find_client(client_id);
                proof {
                    lemma_accounts_of_contains(cs, client_id.0);
                }
                match found {
                    Some(i) => {
                        let entry = self.clients[i];
                        proof {
                            lemma_accounts_of_get(cs, i as int);
                        }
                        if entry.client.locked {
                            return Err(PaymentError::AccountLocked(client_id));
                        }
                        proof {
                            lemma_client_bounds(ds, entry);
                        }
                        let mut entry2 = entry;
                        match entry2.client.make_withdrawal(amount) {
                            Ok(()) => {
                                self.clients.set(i, entry2);
                                proof {
                                    let cs2 = self.clients@;
                                    assert forall|k: int| 0 <= k < cs2.len() implies client_ok(
                                        ds,
                                        #[trigger] cs2[k],
                                    ) by {
                                        assert(client_ok(ds, cs[k]));
                                        if k == i {
                                            lemma_tally_fits(
                                                ds,
                                                entry.id.0,
                                                Some(DisputeStatus::ChargedBack),
                                            );
                                        }
                                    }
                                    assert forall|j: int| 0 <= j < ds.len() implies has_client(
                                        cs2,
                                        (#[trigger] ds[j]).dep.client_id.0,
                                    ) by {
                                        assert(has_client(cs, ds[j].dep.client_id.0));
                                        let w = choose|w: int|
                                            0 <= w < cs.len() && (#[trigger] cs[w]).id.0
                                                == ds[j].dep.client_id.0;
                                        assert(cs2[w].id.0 == ds[j].dep.client_id.0);
                                    }
                                    lemma_accounts_of_update(cs, i as int, entry2);
                                    assert(self@ =~= spec_apply(old(self)@, transaction));
                                }
                                Ok(())
                            },
                            Err(source) => {
                                proof {
                                    assert(self@ =~= spec_apply(old(self)@, transaction));
                                }
                                Err(PaymentError::TransactionFailed { tx_id, client_id, source })
                            },
                        }
                    },
                    None => {
                        if amount > 0 {
                            return Err(
                                PaymentError::TransactionFailed {
                                    tx_id,
                                    client_id,
                                    source: AccountError::InsufficientFunds,
                                },
                            );
                        }
                        proof {
                            assert forall|j: int|
                                0 <= j < ds.len() implies (#[trigger] ds[j]).dep.client_id.0
                                != client_id.0 by {
                                assert(has_client(cs, ds[j].dep.client_id.0));
                            }
                            lemma_tally_absent(ds, client_id.0, Some(DisputeStatus::Disputed));
                            lemma_tally_absent(ds, client_id.0, Some(DisputeStatus::ChargedBack));
                            lemma_tally_absent(ds, client_id.0, None);
                        }
                        let entry = ClientEntry {
                            id: client_id,
                            client: Client { held: 0, total: 0, locked: false },
                        };
                        self.clients.push(entry);
                        proof {
                            let cs2 = self.clients@;
                            assert forall|k: int| 0 <= k < cs2.len() implies client_ok(
                                ds,
                                #[trigger] cs2[k],
                            ) by {
                                if k < cs.len() {
                                    assert(client_ok(ds, cs[k]));
                                }
                            }
                            assert forall|j: int| 0 <= j < ds.len() implies has_client(
                                cs2,
                                (#[trigger] ds[j]).dep.client_id.0,
                            ) by {
                                assert(has_client(cs, ds[j].dep.client_id.0));
                                let w = choose|w: int|
                                    0 <= w < cs.len() && (#[trigger] cs[w]).id.0
                                        == ds[j].dep.client_id.0;
                                assert(cs2[w].id.0 == ds[j].dep.client_id.0);
                            }
                            assert(cs.push(entry).drop_last() =~= cs);
                            assert(self@ =~= spec_apply(old(self)@, transaction));
                        }
                        Ok(())
                    },
                }
            },
            Transaction::Dispute { client_id, tx_id } => {
                let (i, dep) = match self.get_transaction_info(tx_id, client_id) {
                    Err(e) => {
                        return Err(e);
                    },
                    Ok(pair) => pair,
                };
                if dep.status != DisputeStatus::Undisputed {
                    return Err(
                        PaymentError::DisputeFailed {
                            tx_id,
                            client_id,
                            source: AccountError::AlreadyDisputed,
                        },
                    );
                }
                proof {
                    lemma_accounts_of_get(cs, i as int);
                    lemma_client_bounds(ds, cs[i as int]);
                }
                let mut entry2 = self.clients[i];
                entry2.client.make_dispute(dep.value);
                self.clients.set(i, entry2);
                let j = self.transaction_store.set_status(tx_id, DisputeStatus::Disputed);
                proof {
                    self.finish_status_change(
                        cs,
                        ds,
                        i as int,
                        entry2,
                        tx_id,
                        dep,
                        DisputeStatus::Disputed,
                        j as int,
                    );
                    assert(self@ =~= spec_apply(old(self)@, transaction));
                }
                Ok(())
            },
            Transaction::Resolve { client_id, tx_id } => {
                let (i, dep) = match self.get_transaction_info(tx_id, client_id) {
                    Err(e) => {
                        return Err(e);
                    },
                    Ok(pair) => pair,
                };
                if dep.status != DisputeStatus::Disputed {
                    return Err(
                        PaymentError::ResolveFailed {
                            tx_id,
                            client_id,
                            source: AccountError::NotDisputed,
                        },
                    );
                }
                proof {
                    lemma_accounts_of_get(cs, i as int);
                    lemma_client_bounds(ds, cs[i as int]);
                }
                let mut entry2 = self.clients[i];
                entry2.client.resolve_transaction(dep.value);
                self.clients.set(i, entry2);
                let j = self.transaction_store.set_status(tx_id, DisputeStatus::Undisputed);
                proof {
                    self.finish_status_change(
                        cs,
                        ds,
                        i as int,
                        entry2,
                        tx_id,
                        dep,
                        DisputeStatus::Undisputed,
                        j as int,
                    );
                    assert(self@ =~= spec_apply(old(self)@, transaction));
                }
                Ok(())
            },
            Transaction::Chargeback { client_id, tx_id } => {
                let (i, dep) = match self.get_transaction_info(tx_id, client_id) {
                    Err(e) => {
                        return Err(e);
                    },
                    Ok(pair) => pair,
                };
                if dep.status != DisputeStatus::Disputed {
                    return Err(
                        PaymentError::ResolveFailed {
                            tx_id,
                            client_id,
                            source: AccountError::NotDisputed,
                        },
                    );
                }
                proof {
                    lemma_accounts_of_get(cs, i as int);
                    lemma_client_bounds(ds, cs[i as int]);
                }
                let mut entry2 = self.clients[i];
                entry2.client.charge_back(dep.value);
                self.clients.set(i, entry2);
                let j = self.transaction_store.set_status(tx_id, DisputeStatus::ChargedBack);
                proof {
                    self.finish_status_change(
                        cs,
                        ds,
                        i as int,
                        entry2,
                        tx_id,
                        dep,
                        DisputeStatus::ChargedBack,
                        j as int,
                    );
                    assert(self@ =~= spec_apply(old(self)@, transaction));
                }
                Ok(())
            },
        }
    }

    /// The current state of one client, if that client is known.
    pub fn get_client(&self, client_id: ClientID) -> (r: Option<Client>)
        requires
            self.wf(),
        ensures
            r matches Some(c) ==> self@.accounts.dom().contains(client_id.0) && c.as_state()
                == self@.accounts[client_id.0],
            r is None ==> !self@.accounts.dom().contains(client_id.0),
    {
        proof {
            lemma_accounts_of_contains(self.clients@, client_id.0);
        }
        match self.find_client(client_id) {
            Some(i) => {
                proof {
                    lemma_accounts_of_get(self.clients@, i as int);
                }
                Some(self.clients[i].client)
            },
            None => None,
        }
    }

    /// The rows [`BankEngine::generate_output`] emits: a pure function of the
    /// engine's state, so producing output twice without an intervening
    /// mutation gives identical results.
    pub closed spec fn spec_output(self) -> Seq<ClientOutput> {
        Seq::new(self.clients@.len(), |n: int| row_of(self.clients@[n]))
    }

    /// One snapshot row for every known client, each row reporting the
    /// client's balances with `available` computed as `total - held`. Row
    /// order is the order in which the clients were first seen; consumers
    /// must not depend on it.
    pub fn generate_output(&self) -> (r: Vec<ClientOutput>)
        requires
            self.wf(),
        ensures
            r@ == self.spec_output(),
            forall|n: int| 0 <= n < r@.len() ==> row_matches(self@, #[trigger] r@[n]),
            forall|c: u16|
                self@.accounts.dom().contains(c) ==> exists|n: int|
                    0 <= n < r@.len() && (#[trigger] r@[n]).client.0 == c,
            forall|n1: int, n2: int|
                0 <= n1 < n2 < r@.len() ==> (#[trigger] r@[n1]).client.0 != (
                #[trigger] r@[n2]).client.0,
    {
        proof {
            lemma_store_len(&self.transaction_store.data);
        }
        let mut r: Vec<ClientOutput> = Vec::new();
        let mut n: usize = 0;
        while n < self.clients.len()
            invariant
                self.wf(),
                n <= self.clients@.len(),
                r@.len() == n,
                forall|m: int| 0 <= m < n ==> (#[trigger] r@[m]) == row_of(self.clients@[m]),
                self.transaction_store.data@.len() <= 0xFFFF_FFFF_FFFF_FFFF,
            decreases self.clients@.len() - n,
        {
            let entry = self.clients[n];
            proof {
                lemma_client_bounds(self.transaction_store.data@, entry);
            }
            let available = entry.client.total - entry.client.held;
            r.push(
                ClientOutput {
                    client: entry.id,
                    available,
                    held: entry.client.held,
                    total: entry.client.total,
                    locked: entry.client.locked,
                },
            );
            n = n + 1;
        }
        proof {
            assert(r@ =~= self.spec_output());
            assert forall|m: int| 0 <= m < r@.len() implies row_matches(self@, #[trigger] r@[m]) by {
                assert(r@[m] == row_of(self.clients@[m]));
                lemma_client_bounds(self.transaction_store.data@, self.clients@[m]);
                lemma_accounts_of_get(self.clients@, m);
            }
            assert forall|c: u16|
                self@.accounts.dom().contains(c) implies exists|m: int|
                0 <= m < r@.len() && (#[trigger] r@[m]).client.0 == c by {
                lemma_accounts_of_contains(self.clients@, c);
                let w = choose|w: int|
                    0 <= w < self.clients@.len() && (#[trigger] self.clients@[w]).id.0 == c;
                assert(r@[w].client.0 == c);
            }
        }
        r
    }
}

impl Default for InMemoryStore {
    /// An empty store.
    fn default() -> (r: InMemoryStore)
        ensures
            r.wf(),
            r@ == Map::<u32, DepositState>::empty(),
            r.entries().len() == 0,
    {
        InMemoryStore::new()
    }
}

} // verus!
