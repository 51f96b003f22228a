use crate::errors::MyError;
use crate::model::{BalanceTransfer, ClientId, ClientState, Dispute, DisputeStatus, TransactionId};
use std::collections::HashMap;
use vstd::prelude::*;

verus! {

broadcast use vstd::std_specs::hash::group_hash_axioms;

/// What the ledger store holds: one account per client, with the order in
/// which the accounts were created; one balance transfer per transaction id;
/// one dispute per disputed transaction id.
pub struct LedgerModel {
    pub clients: Map<ClientId, ClientState>,
    pub order: Seq<ClientId>,
    pub transfers: Map<TransactionId, BalanceTransfer>,
    pub disputes: Map<TransactionId, Dispute>,
}

impl LedgerModel {
    pub open spec fn empty() -> LedgerModel {
        LedgerModel {
            clients: Map::empty(),
            order: Seq::empty(),
            transfers: Map::empty(),
            disputes: Map::empty(),
        }
    }

    /// The store's own consistency: keys match the records they hold, every
    /// transfer belongs to an existing account, every dispute refers to a
    /// transfer of the same client, and `order` lists each account once.
    pub open spec fn consistent(self) -> bool {
        &&& forall|c: ClientId| #[trigger]
            self.clients.contains_key(c) ==> self.clients[c].client_id == c
        &&& forall|t: TransactionId| #[trigger]
            self.transfers.contains_key(t) ==> {
                &&& self.transfers[t].txn_id == t
                &&& self.clients.contains_key(self.transfers[t].client_id)
            }
        &&& forall|t: TransactionId| #[trigger]
            self.disputes.contains_key(t) ==> {
                &&& self.disputes[t].txn_id == t
                &&& self.disputes[t].status != DisputeStatus::Invalid
                &&& self.transfers.contains_key(t)
                &&& self.transfers[t].client_id == self.disputes[t].client_id
            }
        &&& self.order.no_duplicates()
        &&& forall|c: ClientId| #[trigger] self.clients.contains_key(c) <==> self.order.contains(c)
    }

    /// The accounts in the order of their creation.
    pub open spec fn accounts(self) -> Seq<ClientState> {
        self.order.map_values(|c: ClientId| self.clients[c])
    }

    /// A transfer of client `c` with id `t` is stored.
    pub open spec fn has_transfer(self, c: ClientId, t: TransactionId) -> bool {
        self.transfers.contains_key(t) && self.transfers[t].client_id == c
    }

    /// A dispute of client `c` on transfer `t` is stored, with status `s`.
    pub open spec fn has_dispute_in(
        self,
        c: ClientId,
        t: TransactionId,
        s: DisputeStatus,
    ) -> bool {
        &&& self.disputes.contains_key(t)
        &&& self.disputes[t].client_id == c
        &&& self.disputes[t].status == s
    }

    pub open spec fn add_client(self, c: ClientId) -> LedgerModel {
        LedgerModel {
            clients: self.clients.insert(c, ClientState::fresh(c)),
            order: self.order.push(c),
            ..self
        }
    }
}

/// Adding an account for a client that had none keeps a store consistent.
pub proof fn lemma_add_client(l: LedgerModel, c: ClientId)
    requires
        l.consistent(),
        !l.clients.contains_key(c),
    ensures
        l.add_client(c).consistent(),
{
    let n = l.add_client(c);
    assert forall|d: ClientId| #[trigger] n.clients.contains_key(d) <==> n.order.contains(d) by {
        if d != c {
            if l.order.contains(d) {
                let k = choose|k: int| 0 <= k < l.order.len() && l.order[k] == d;
                assert(n.order[k] == d);
            }
            if n.order.contains(d) {
                let k = choose|k: int| 0 <= k < n.order.len() && n.order[k] == d;
                assert(l.order[k] == d);
            }
        } else {
            assert(n.order[n.order.len() - 1] == d);
        }
    }
    assert forall|i: int, j: int|
        0 <= i < n.order.len() && 0 <= j < n.order.len() && i != j implies n.order[i]
        != n.order[j] by {
        if i < l.order.len() && j < l.order.len() {
        } else if i < l.order.len() {
            assert(l.order.contains(n.order[i]));
        } else {
            assert(l.order.contains(n.order[j]));
        }
    }
}

/// The ledger store of one run: accounts, balance transfers and disputes,
/// kept in memory, so nothing outlives the run.
pub struct TxnDb {
    clients: HashMap<ClientId, ClientState>,
    order: Vec<ClientId>,
    transfers: HashMap<TransactionId, BalanceTransfer>,
    disputes: HashMap<TransactionId, Dispute>,
}

impl View for TxnDb {
    type V = LedgerModel;

    closed spec fn view(&self) -> LedgerModel {
        LedgerModel {
            clients: self.clients@,
            order: self.order@,
            transfers: self.transfers@,
            disputes: self.disputes@,
        }
    }
}

impl TxnDb {
    pub open spec fn wf(&self) -> bool {
        self@.consistent()
    }

    /// An empty store.
    pub fn new() -> (r: TxnDb)
        ensures
            r@ == LedgerModel::empty(),
            r.wf(),
    {
        let r = TxnDb {
            clients: HashMap::new(),
            order: Vec::new(),
            transfers: HashMap::new(),
            disputes: HashMap::new(),
        };
        assert(r@.clients == Map::<ClientId, ClientState>::empty());
        assert(r@.transfers == Map::<TransactionId, BalanceTransfer>::empty());
        assert(r@.disputes == Map::<TransactionId, Dispute>::empty());
        r
    }

    /// Creates the account of a client that has none; fails if one exists.
    pub fn create_client_state(&mut self, client_id: ClientId) -> (r: Result<ClientState, MyError>)
        requires
            old(self).wf(),
        ensures
            final(self).wf(),
            old(self)@.clients.contains_key(client_id) ==> {
                &&& r matches Err(MyError::Db)
                &&& final(self)@ == old(self)@
            },
            !old(self)@.clients.contains_key(client_id) ==> {
                &&& r == Ok::<ClientState, MyError>(ClientState::fresh(client_id))
                &&& final(self)@ == old(self)@.add_client(client_id)
            },
    {
        if self.clients.contains_key(&client_id) {
            return Err(MyError::Db);
        }
        let state = ClientState::init(client_id);
        self.clients.insert(client_id, state);
        self.order.push(client_id);
        proof {
            lemma_add_client(old(self)@, client_id);
            assert(self@ == old(self)@.add_client(client_id));
        }
        Ok(state)
    }

    /// The account of a client, if it has one.
    pub fn get_client_state(&self, client_id: ClientId) -> (r: Result<Option<ClientState>, MyError>)
        requires
            self.wf(),
        ensures
            r == Ok::<Option<ClientState>, MyError>(
                if self@.clients.contains_key(client_id) {
                    Some(self@.clients[client_id])
                } else {
                    None
                },
            ),
    {
        match self.clients.get(&client_id) {
            Some(s) => Ok(Some(*s)),
            None => Ok(None),
        }
    }

    /// The accounts, in the order of their creation.
    pub fn all_clients(&self) -> (r: Vec<ClientState>)
        requires
            self.wf(),
        ensures
            r@ == self@.accounts(),
    {
        let mut r: Vec<ClientState> = Vec::new();
        let mut i: usize = 0;
        while i < self.order.len()
            invariant
                self.wf(),
                i <= self.order@.len(),
                r@ == self@.order.subrange(0, i as int).map_values(|c: ClientId| self@.clients[c]),
            decreases self.order@.len() - i,
        {
            let c = self.order[i];
            assert(self@.order.contains(c)) by {
                assert(self@.order[i as int] == c);
            }
            let s = match self.clients.get(&c) {
                Some(s) => *s,
                None => {
                    assert(false);
                    ClientState::init(c)
                },
            };
            r.push(s);
            i = i + 1;
            assert(self@.order.subrange(0, i as int) == self@.order.subrange(0, i - 1).push(c));
        }
        assert(self@.order.subrange(0, i as int) == self@.order);
        r
    }

    /// Hands each account, in the order of their creation, to `f`.
    pub fn process_all_clients<F: Fn(ClientState)>(&self, f: F) -> (r: Result<(), MyError>)
        requires
            self.wf(),
            forall|s: ClientState| #[trigger] f.requires((s,)),
        ensures
            r is Ok,
            forall|i: int|
                0 <= i < self@.accounts().len() ==> f.ensures((#[trigger] self@.accounts()[i],), ()),
    {
        let all = self.all_clients();
        let mut i: usize = 0;
        while i < all.len()
            invariant
                forall|s: ClientState| #[trigger] f.requires((s,)),
                all@ == self@.accounts(),
                i <= all@.len(),
                forall|j: int| 0 <= j < i ==> f.ensures((#[trigger] all@[j],), ()),
            decreases all.len() - i,
        {
            f(all[i]);
            i = i + 1;
        }
        Ok(())
    }

    /// Overwrites the balances and the lock of an existing account; a client
    /// without an account is left without one.
    pub fn update_client_state(&mut self, client_state: &ClientState) -> (r: Result<(), MyError>)
        requires
            old(self).wf(),
        ensures
            final(self).wf(),
            r is Ok,
            final(self)@ == (LedgerModel {
                clients: if old(self)@.clients.contains_key(client_state.client_id) {
                    old(self)@.clients.insert(client_state.client_id, *client_state)
                } else {
                    old(self)@.clients
                },
                ..old(self)@
            }),
    {
        if self.clients.contains_key(&client_state.client_id) {
            self.clients.insert(client_state.client_id, *client_state);
            proof {
                let o = old(self)@;
                let n = self@;
                assert(n.clients.dom() == o.clients.dom());
                assert forall|c: ClientId| #[trigger] n.clients.contains_key(c) <==> n.order.contains(c) by {
                    assert(n.clients.contains_key(c) == o.clients.contains_key(c));
                }
            }
        }
        Ok(())
    }

    /// Stores a balance transfer when its client has an account and its id is
    /// unused; says whether it did.
    pub fn try_insert_balance_transfer(&mut self, txn: BalanceTransfer) -> (r: Result<bool, MyError>)
        requires
            old(self).wf(),
        ensures
            final(self).wf(),
            r == Ok::<bool, MyError>(
                old(self)@.clients.contains_key(txn.client_id) && !old(self)@.transfers.contains_key(
                    txn.txn_id,
                ),
            ),
            final(self)@ == (LedgerModel {
                transfers: if r == Ok::<bool, MyError>(true) {
                    old(self)@.transfers.insert(txn.txn_id, txn)
                } else {
                    old(self)@.transfers
                },
                ..old(self)@
            }),
    {
        if !self.clients.contains_key(&txn.client_id) || self.transfers.contains_key(&txn.txn_id) {
            return Ok(false);
        }
        self.transfers.insert(txn.txn_id, txn);
        Ok(true)
    }

    /// Opens a dispute on a stored transfer of the same client that was never
    /// disputed; says whether it did.
    pub fn try_insert_dispute(&mut self, client_id: ClientId, txn_id: TransactionId) -> (r: Result<
        bool,
        MyError,
    >)
        requires
            old(self).wf(),
        ensures
            final(self).wf(),
            r == Ok::<bool, MyError>(
                old(self)@.has_transfer(client_id, txn_id) && !old(self)@.disputes.contains_key(
                    txn_id,
                ),
            ),
            final(self)@ == (LedgerModel {
                disputes: if r == Ok::<bool, MyError>(true) {
                    old(self)@.disputes.insert(
                        txn_id,
                        Dispute { client_id, txn_id, status: DisputeStatus::Open },
                    )
                } else {
                    old(self)@.disputes
                },
                ..old(self)@
            }),
    {
        let known = match self.transfers.get(&txn_id) {
            Some(b) => b.client_id == client_id,
            None => false,
        };
        if !known || self.disputes.contains_key(&txn_id) {
            return Ok(false);
        }
        self.disputes.insert(txn_id, Dispute { client_id, txn_id, status: DisputeStatus::Open });
        Ok(true)
    }

    /// Moves the dispute of client `client_id` on `txn_id` from status `from`
    /// to status `to`, if it is in `from`; says whether it did.
    pub fn try_transition_dispute(
        &mut self,
        client_id: ClientId,
        txn_id: TransactionId,
        from: DisputeStatus,
        to: DisputeStatus,
    ) -> (r: Result<bool, MyError>)
        requires
            old(self).wf(),
            to != DisputeStatus::Invalid,
        ensures
            final(self).wf(),
            r == Ok::<bool, MyError>(old(self)@.has_dispute_in(client_id, txn_id, from)),
            final(self)@ == (LedgerModel {
                disputes: if r == Ok::<bool, MyError>(true) {
                    old(self)@.disputes.insert(txn_id, Dispute { client_id, txn_id, status: to })
                } else {
                    old(self)@.disputes
                },
                ..old(self)@
            }),
    {
        let current = match self.disputes.get(&txn_id) {
            Some(d) => *d,
            None => {
                return Ok(false);
            },
        };
        if current.client_id != client_id || current.status != from {
            return Ok(false);
        }
        self.disputes.insert(txn_id, Dispute { client_id, txn_id, status: to });
        Ok(true)
    }

    /// Resolves an open dispute; says whether it did.
    pub fn try_resolve_dispute(&mut self, client_id: ClientId, txn_id: TransactionId) -> (r: Result<
        bool,
        MyError,
    >)
        requires
            old(self).wf(),
        ensures
            final(self).wf(),
            r == Ok::<bool, MyError>(
                old(self)@.has_dispute_in(client_id, txn_id, DisputeStatus::Open),
            ),
            final(self)@ == (LedgerModel {
                disputes: if r == Ok::<bool, MyError>(true) {
                    old(self)@.disputes.insert(
                        txn_id,
                        Dispute { client_id, txn_id, status: DisputeStatus::Resolved },
                    )
                } else {
                    old(self)@.disputes
                },
                ..old(self)@
            }),
    {
        self.try_transition_dispute(client_id, txn_id, DisputeStatus::Open, DisputeStatus::Resolved)
    }

    /// Charges back an open dispute; says whether it did.
    pub fn try_chargeback_dispute(&mut self, client_id: ClientId, txn_id: TransactionId) -> (r:
        Result<bool, MyError>)
        requires
            old(self).wf(),
        ensures
            final(self).wf(),
            r == Ok::<bool, MyError>(
                old(self)@.has_dispute_in(client_id, txn_id, DisputeStatus::Open),
            ),
            final(self)@ == (LedgerModel {
                disputes: if r == Ok::<bool, MyError>(true) {
                    old(self)@.disputes.insert(
                        txn_id,
                        Dispute { client_id, txn_id, status: DisputeStatus::Chargeback },
                    )
                } else {
                    old(self)@.disputes
                },
                ..old(self)@
            }),
    {
        self.try_transition_dispute(
            client_id,
            txn_id,
            DisputeStatus::Open,
            DisputeStatus::Chargeback,
        )
    }

    /// The balance transfer of client `client_id` with id `txn_id`, if stored.
    pub fn get_balance_transfer(&self, client_id: ClientId, txn_id: TransactionId) -> (r: Result<
        Option<BalanceTransfer>,
        MyError,
    >)
        requires
            self.wf(),
        ensures
            r == Ok::<Option<BalanceTransfer>, MyError>(
                if self@.has_transfer(client_id, txn_id) {
                    Some(self@.transfers[txn_id])
                } else {
                    None
                },
            ),
    {
        match self.transfers.get(&txn_id) {
            Some(b) => {
                if b.client_id == client_id {
                    Ok(Some(*b))
                } else {
                    Ok(None)
                }
            },
            None => Ok(None),
        }
    }
}

} // verus!
