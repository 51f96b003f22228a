use crate::db::{lemma_add_client, LedgerModel, TxnDb};
use crate::errors::MyError;
use crate::model::{
    account_text, BalanceTransfer, ClientId, ClientState, Dispute, DisputeStatus, LockedState,
    RawTxnInput, TransactionId, Txn, TxnType,
};
use vstd::prelude::*;
use vstd::relations::injective_on;
use vstd::set_lib::{lemma_int_range, lemma_len_subset, lemma_map_size, set_int_range};

verus! {

/// The command that a record stands for: deposits and withdrawals need a
/// positive amount, and a withdrawal becomes a negative transfer; disputes,
/// resolutions and chargebacks must come without an amount.
pub open spec fn command_of(raw: RawTxnInput) -> Option<Txn> {
    match raw.txn_type {
        TxnType::Invalid => None,
        TxnType::Deposit => match raw.amount {
            Some(a) => if a > 0 {
                Some(
                    Txn::BalanceTransfer(
                        BalanceTransfer { client_id: raw.client_id, txn_id: raw.txn_id, amount: a },
                    ),
                )
            } else {
                None
            },
            None => None,
        },
        TxnType::Withdrawal => match raw.amount {
            Some(a) => if a > 0 {
                Some(
                    Txn::BalanceTransfer(
                        BalanceTransfer {
                            client_id: raw.client_id,
                            txn_id: raw.txn_id,
                            amount: (-a) as i64,
                        },
                    ),
                )
            } else {
                None
            },
            None => None,
        },
        TxnType::Dispute => if raw.amount is Some {
            None
        } else {
            Some(Txn::Dispute { client_id: raw.client_id, txn_id: raw.txn_id })
        },
        TxnType::Resolve => if raw.amount is Some {
            None
        } else {
            Some(Txn::Resolve { client_id: raw.client_id, txn_id: raw.txn_id })
        },
        TxnType::Chargeback => if raw.amount is Some {
            None
        } else {
            Some(Txn::Chargeback { client_id: raw.client_id, txn_id: raw.txn_id })
        },
    }
}

/// Balances that an account can hold: both, and their sum, fit in an `i64`.
pub open spec fn fits(available: int, held: int) -> bool {
    &&& i64::MIN <= available <= i64::MAX
    &&& i64::MIN <= held <= i64::MAX
    &&& i64::MIN <= available + held <= i64::MAX
}

/// `a` with new balances, and `total` their sum.
pub open spec fn with_balances(a: ClientState, available: int, held: int) -> ClientState {
    ClientState {
        available: available as i64,
        held: held as i64,
        total: (available + held) as i64,
        ..a
    }
}

/// `(available, held)` once a dispute on a transfer of `amount` opens: a
/// withdrawal's amount is held on top; a deposit's moves from available to held.
pub open spec fn disputed(a: ClientState, amount: int) -> (int, int) {
    if amount < 0 {
        (a.available as int, a.held - amount)
    } else {
        (a.available - amount, a.held + amount)
    }
}

/// `(available, held)` once the dispute on a transfer of `amount` is resolved:
/// the hold of the dispute is released.
pub open spec fn resolved(a: ClientState, amount: int) -> (int, int) {
    if amount < 0 {
        (a.available as int, a.held + amount)
    } else {
        (a.available + amount, a.held - amount)
    }
}

/// `(available, held)` once the dispute on a transfer of `amount` is charged
/// back: a withdrawal is reversed; a disputed deposit leaves the account.
pub open spec fn charged_back(a: ClientState, amount: int) -> (int, int) {
    if amount < 0 {
        (a.available - amount, a.held + amount)
    } else {
        (a.available as int, a.held - amount)
    }
}

/// The ledger with an account for `c`, created empty if there was none.
pub open spec fn with_client(l: LedgerModel, c: ClientId) -> LedgerModel {
    if l.clients.contains_key(c) {
        l
    } else {
        l.add_client(c)
    }
}

/// The ledger after `txn` is applied to the existing account of its client,
/// or `None` where a rule rejects it: the account is locked; a withdrawal
/// exceeds the available funds; the transaction id was used; the dispute,
/// resolution or chargeback finds no transfer of that client, or no dispute
/// in the right status; or a balance would leave the range of an `i64`.
pub open spec fn apply(l: LedgerModel, txn: Txn) -> Option<LedgerModel> {
    let c = txn.client();
    let a = l.clients[c];
    if a.frozen() {
        None
    } else {
        match txn {
            Txn::BalanceTransfer(b) => {
                let available = a.available + b.amount;
                if b.amount < 0 && available < 0 {
                    None
                } else if !fits(available, a.held as int) {
                    None
                } else if l.transfers.contains_key(b.txn_id) {
                    None
                } else {
                    Some(
                        LedgerModel {
                            clients: l.clients.insert(c, with_balances(a, available, a.held as int)),
                            transfers: l.transfers.insert(b.txn_id, b),
                            ..l
                        },
                    )
                }
            },
            Txn::Dispute { client_id, txn_id } => {
                let (available, held) = disputed(a, l.transfers[txn_id].amount as int);
                if !l.has_transfer(client_id, txn_id) || l.disputes.contains_key(txn_id) {
                    None
                } else if !fits(available, held) {
                    None
                } else {
                    Some(
                        LedgerModel {
                            clients: l.clients.insert(c, with_balances(a, available, held)),
                            disputes: l.disputes.insert(
                                txn_id,
                                Dispute { client_id, txn_id, status: DisputeStatus::Open },
                            ),
                            ..l
                        },
                    )
                }
            },
            Txn::Resolve { client_id, txn_id } => {
                let (available, held) = resolved(a, l.transfers[txn_id].amount as int);
                if !l.has_dispute_in(client_id, txn_id, DisputeStatus::Open) {
                    None
                } else if !fits(available, held) {
                    None
                } else {
                    Some(
                        LedgerModel {
                            clients: l.clients.insert(c, with_balances(a, available, held)),
                            disputes: l.disputes.insert(
                                txn_id,
                                Dispute { client_id, txn_id, status: DisputeStatus::Resolved },
                            ),
                            ..l
                        },
                    )
                }
            },
            Txn::Chargeback { client_id, txn_id } => {
                let (available, held) = charged_back(a, l.transfers[txn_id].amount as int);
                if !l.has_dispute_in(client_id, txn_id, DisputeStatus::Open) {
                    None
                } else if !fits(available, held) {
                    None
                } else {
                    Some(
                        LedgerModel {
                            clients: l.clients.insert(
                                c,
                                ClientState {
                                    locked: LockedState::Locked,
                                    ..with_balances(a, available, held)
                                },
                            ),
                            disputes: l.disputes.insert(
                                txn_id,
                                Dispute { client_id, txn_id, status: DisputeStatus::Chargeback },
                            ),
                            ..l
                        },
                    )
                }
            },
        }
    }
}

/// Whether the record `raw` changes balances or disputes of ledger `l`.
pub open spec fn applies(l: LedgerModel, raw: RawTxnInput) -> bool {
    match command_of(raw) {
        Some(txn) => apply(with_client(l, raw.client_id), txn) is Some,
        None => false,
    }
}

/// The ledger after the record `raw`: an invalid record changes nothing; a
/// valid one creates its client's account if needed, then is applied or
/// rejected.
pub open spec fn step(l: LedgerModel, raw: RawTxnInput) -> LedgerModel {
    match command_of(raw) {
        Some(txn) => {
            let l1 = with_client(l, raw.client_id);
            match apply(l1, txn) {
                Some(l2) => l2,
                None => l1,
            }
        },
        None => l,
    }
}

/// The ledger after the records `raws`, applied in order.
pub open spec fn run(l: LedgerModel, raws: Seq<RawTxnInput>) -> LedgerModel
    decreases raws.len(),
{
    if raws.len() == 0 {
        l
    } else {
        step(run(l, raws.drop_last()), raws.last())
    }
}

/// The texts of some lines.
pub open spec fn lines_view(lines: Seq<String>) -> Seq<Seq<char>> {
    lines.map_values(|line: String| line@)
}

/// The account listing: a header line, then one line per account in the
/// order of their creation.
pub open spec fn report_text(l: LedgerModel) -> Seq<Seq<char>> {
    seq!["client,available,held,total,locked"@] + l.accounts().map_values(
        |a: ClientState| account_text(a),
    )
}

/// Every account's `total` is the sum of its other two balances.
pub open spec fn all_balanced(l: LedgerModel) -> bool {
    forall|c: ClientId| #[trigger] l.clients.contains_key(c) ==> l.clients[c].balanced()
}

/// A ledger that the processor can reach: consistent, finite, balanced.
pub open spec fn ledger_ok(l: LedgerModel) -> bool {
    &&& l.consistent()
    &&& l.clients.dom().finite()
    &&& l.transfers.dom().finite()
    &&& l.disputes.dom().finite()
    &&& all_balanced(l)
}

/// The disputes that have ended, resolved or charged back.
pub open spec fn finished(l: LedgerModel) -> Set<TransactionId> {
    l.disputes.dom().filter(|t: TransactionId| l.disputes[t].status != DisputeStatus::Open)
}

/// The number of records applied to reach `l` from an empty ledger: each
/// transfer, each dispute and each end of a dispute was one.
pub open spec fn applied_count(l: LedgerModel) -> nat {
    l.transfers.dom().len() + l.disputes.dom().len() + finished(l).len()
}

/// A finite set of `u32` values has at most 2^32 elements.
proof fn lemma_u32_set_len(s: Set<u32>)
    requires
        s.finite(),
    ensures
        s.len() <= 0x1_0000_0000,
{
    let f = |x: u32| x as int;
    let ints = s.map(f);
    assert(injective_on(f, s));
    lemma_map_size(s, ints, f);
    lemma_int_range(0, 0x1_0000_0000);
    assert(ints.subset_of(set_int_range(0, 0x1_0000_0000)));
    lemma_len_subset(ints, set_int_range(0, 0x1_0000_0000));
}

/// The ended disputes are a finite part of all disputes.
proof fn lemma_finished_finite(l: LedgerModel)
    requires
        l.disputes.dom().finite(),
    ensures
        finished(l).finite(),
        finished(l).len() <= l.disputes.dom().len(),
{
    lemma_len_subset(finished(l), l.disputes.dom());
}

/// No reachable ledger counts more applied records than a `u64` holds.
proof fn lemma_count_bound(l: LedgerModel)
    requires
        ledger_ok(l),
    ensures
        applied_count(l) <= 3 * 0x1_0000_0000,
{
    lemma_u32_set_len(l.transfers.dom());
    assert(l.disputes.dom().subset_of(l.transfers.dom()));
    lemma_len_subset(l.disputes.dom(), l.transfers.dom());
    lemma_finished_finite(l);
}

/// Creating the account of a client keeps a ledger reachable, and applies no
/// record.
pub proof fn lemma_with_client(l: LedgerModel, c: ClientId)
    requires
        ledger_ok(l),
    ensures
        ledger_ok(with_client(l, c)),
        with_client(l, c).clients.contains_key(c),
        applied_count(with_client(l, c)) == applied_count(l),
{
    if !l.clients.contains_key(c) {
        lemma_add_client(l, c);
        let n = l.add_client(c);
        assert(n.clients.dom() == l.clients.dom().insert(c));
        assert(finished(n) == finished(l));
    }
}

/// Applying a command keeps a ledger reachable, and counts one more record.
pub proof fn lemma_apply(l: LedgerModel, txn: Txn)
    requires
        ledger_ok(l),
        l.clients.contains_key(txn.client()),
        apply(l, txn) is Some,
    ensures
        ledger_ok(apply(l, txn).unwrap()),
        applied_count(apply(l, txn).unwrap()) == applied_count(l) + 1,
        apply(l, txn).unwrap().order == l.order,
        apply(l, txn).unwrap().clients.dom() == l.clients.dom(),
{
    let n = apply(l, txn).unwrap();
    let c = txn.client();
    assert(n.clients.dom() =~= l.clients.dom());
    lemma_finished_finite(l);
    match txn {
        Txn::BalanceTransfer(b) => {
            assert(n.transfers.dom() =~= l.transfers.dom().insert(b.txn_id));
            assert(finished(n) =~= finished(l));
        },
        Txn::Dispute { client_id, txn_id } => {
            assert(n.disputes.dom() =~= l.disputes.dom().insert(txn_id));
            assert(finished(n) =~= finished(l));
        },
        Txn::Resolve { client_id, txn_id } => {
            assert(n.disputes.dom() =~= l.disputes.dom());
            assert(finished(n) =~= finished(l).insert(txn_id));
        },
        Txn::Chargeback { client_id, txn_id } => {
            assert(n.disputes.dom() =~= l.disputes.dom());
            assert(finished(n) =~= finished(l).insert(txn_id));
        },
    }
}

/// Whether the balances `available` and `held` fit an account.
fn balances_fit(available: i128, held: i128) -> (r: bool)
    requires
        -0x1_0000_0000_0000_0000 <= available <= 0x1_0000_0000_0000_0000,
        -0x1_0000_0000_0000_0000 <= held <= 0x1_0000_0000_0000_0000,
    ensures
        r == fits(available as int, held as int),
{
    let lo = i64::MIN as i128;
    let hi = i64::MAX as i128;
    lo <= available && available <= hi && lo <= held && held <= hi && lo <= available + held
        && available + held <= hi
}

/// Applies transaction records, in order, to a ledger store.
pub struct TransactionProcessor {
    db: TxnDb,
    /// The number of records that were applied.
    num_processed: u64,
}

impl TransactionProcessor {
    pub closed spec fn ledger(&self) -> LedgerModel {
        self.db@
    }

    pub closed spec fn processed(&self) -> u64 {
        self.num_processed
    }

    /// The ledger of a well-formed processor is one that the laws speak of.
    pub proof fn lemma_ledger_ok(&self)
        requires
            self.wf(),
        ensures
            ledger_ok(self.ledger()),
    {
    }

    pub closed spec fn wf(&self) -> bool {
        &&& self.db.wf()
        &&& ledger_ok(self.db@)
        &&& self.num_processed == applied_count(self.db@)
    }

    /// A processor over an empty ledger.
    pub fn new() -> (r: Result<TransactionProcessor, MyError>)
        ensures
            r matches Ok(p) && p.wf() && ledger_ok(p.ledger()) && p.ledger() == LedgerModel::empty()
                && p.processed() == 0,
    {
        let p = TransactionProcessor { db: TxnDb::new(), num_processed: 0 };
        proof {
            let l = p.db@;
            assert(l.clients.dom() =~= Set::empty());
            assert(l.transfers.dom() =~= Set::empty());
            assert(l.disputes.dom() =~= Set::empty());
            assert(finished(l) =~= Set::empty());
        }
        Ok(p)
    }

    /// The ledger store.
    pub fn db(&self) -> (r: &TxnDb)
        requires
            self.wf(),
        ensures
            r.wf(),
            r@ == self.ledger(),
    {
        &self.db
    }

    /// The number of records that were applied.
    pub fn num_processed(&self) -> (r: u64)
        ensures
            r == self.processed(),
    {
        self.num_processed
    }

    /// Applies one record to the ledger: an invalid record is dropped; a
    /// valid one creates its client's account if needed, then is applied
    /// unless a rule rejects it (see `apply`).
    pub fn process(&mut self, raw_input: RawTxnInput) -> (r: Result<(), MyError>)
        requires
            old(self).wf(),
        ensures
            final(self).wf(),
            ledger_ok(final(self).ledger()),
            r is Ok,
            final(self).ledger() == step(old(self).ledger(), raw_input),
            final(self).processed() == old(self).processed() + if applies(
                old(self).ledger(),
                raw_input,
            ) {
                1int
            } else {
                0int
            },
    {
        let txn = match self.validate_raw_input(&raw_input) {
            Some(t) => t,
            None => {
                return Ok(());
            },
        };
        let ghost l0 = self.db@;
        proof {
            lemma_with_client(l0, raw_input.client_id);
        }
        let mut state = match self.db.get_client_state(raw_input.client_id) {
            Ok(Some(s)) => s,
            _ => match self.db.create_client_state(raw_input.client_id) {
                Ok(s) => s,
                Err(e) => {
                    return Err(e);
                },
            },
        };
        let ghost l1 = self.db@;
        assert(l1 == with_client(l0, raw_input.client_id));
        assert(state == l1.clients[txn.client()]);
        if state.is_locked() {
            return Ok(());
        }
        match txn {
            Txn::BalanceTransfer(transfer) => {
                let available = state.available as i128 + transfer.amount as i128;
                if transfer.amount < 0 && available < 0 {
                    return Ok(());
                }
                if !balances_fit(available, state.held as i128) {
                    return Ok(());
                }
                match self.db.try_insert_balance_transfer(transfer) {
                    Ok(true) => {},
                    Ok(false) => {
                        return Ok(());
                    },
                    Err(e) => {
                        return Err(e);
                    },
                }
                state.available = available as i64;
            },
            Txn::Dispute { client_id, txn_id } => {
                // The store keeps no dispute without its transfer, so the
                // transfer is read first and the new balances checked before
                // anything changes.
                let transfer = match self.db.get_balance_transfer(client_id, txn_id) {
                    Ok(Some(b)) => b,
                    Ok(None) => {
                        return Ok(());
                    },
                    Err(e) => {
                        return Err(e);
                    },
                };
                let amount = transfer.amount as i128;
                let (available, held) = if amount < 0 {
                    (state.available as i128, state.held as i128 - amount)
                } else {
                    (state.available as i128 - amount, state.held as i128 + amount)
                };
                if !balances_fit(available, held) {
                    return Ok(());
                }
                match self.db.try_insert_dispute(client_id, txn_id) {
                    Ok(true) => {},
                    Ok(false) => {
                        return Ok(());
                    },
                    Err(e) => {
                        return Err(e);
                    },
                }
                state.available = available as i64;
                state.held = held as i64;
            },
            Txn::Resolve { client_id, txn_id } => {
                let transfer = match self.db.get_balance_transfer(client_id, txn_id) {
                    Ok(Some(b)) => b,
                    Ok(None) => {
                        return Ok(());
                    },
                    Err(e) => {
                        return Err(e);
                    },
                };
                let amount = transfer.amount as i128;
                let (available, held) = if amount < 0 {
                    (state.available as i128, state.held as i128 + amount)
                } else {
                    (state.available as i128 + amount, state.held as i128 - amount)
                };
                if !balances_fit(available, held) {
                    return Ok(());
                }
                match self.db.try_resolve_dispute(client_id, txn_id) {
                    Ok(true) => {},
                    Ok(false) => {
                        return Ok(());
                    },
                    Err(e) => {
                        return Err(e);
                    },
                }
                state.available = available as i64;
                state.held = held as i64;
            },
            Txn::Chargeback { client_id, txn_id } => {
                let transfer = match self.db.get_balance_transfer(client_id, txn_id) {
                    Ok(Some(b)) => b,
                    Ok(None) => {
                        return Ok(());
                    },
                    Err(e) => {
                        return Err(e);
                    },
                };
                let amount = transfer.amount as i128;
                let (available, held) = if amount < 0 {
                    (state.available as i128 - amount, state.held as i128 + amount)
                } else {
                    (state.available as i128, state.held as i128 - amount)
                };
                if !balances_fit(available, held) {
                    return Ok(());
                }
                match self.db.try_chargeback_dispute(client_id, txn_id) {
                    Ok(true) => {},
                    Ok(false) => {
                        return Ok(());
                    },
                    Err(e) => {
                        return Err(e);
                    },
                }
                state.available = available as i64;
                state.held = held as i64;
                state.locked = LockedState::Locked;
            },
        }
        state.total = state.available + state.held;
        match self.db.update_client_state(&state) {
            Ok(()) => {},
            Err(e) => {
                return Err(e);
            },
        }
        proof {
            lemma_apply(l1, txn);
            assert(self.db@ == apply(l1, txn).unwrap());
            lemma_count_bound(self.db@);
        }
        self.num_processed = self.num_processed + 1;
        Ok(())
    }

    /// Applies the records in order, see `process`.
    pub fn process_all(&mut self, records: &Vec<RawTxnInput>) -> (r: Result<(), MyError>)
        requires
            old(self).wf(),
        ensures
            final(self).wf(),
            ledger_ok(final(self).ledger()),
            r is Ok,
            final(self).ledger() == run(old(self).ledger(), records@),
    {
        let mut i: usize = 0;
        while i < records.len()
            invariant
                i <= records@.len(),
                self.wf(),
                self.ledger() == run(old(self).ledger(), records@.subrange(0, i as int)),
            decreases records@.len() - i,
        {
            assert(records@.subrange(0, i + 1).drop_last() == records@.subrange(0, i as int));
            match self.process(records[i]) {
                Ok(()) => {},
                Err(e) => {
                    return Err(e);
                },
            }
            i = i + 1;
        }
        assert(records@.subrange(0, i as int) == records@);
        Ok(())
    }

    /// The account listing, see `report_text`.
    pub fn report_lines(&self) -> (r: Vec<String>)
        requires
            self.wf(),
        ensures
            lines_view(r@) == report_text(self.ledger()),
    {
        let accounts = self.db.all_clients();
        let mut lines: Vec<String> = Vec::new();
        lines.push(String::from_str("client,available,held,total,locked"));
        let mut i: usize = 0;
        while i < accounts.len()
            invariant
                i <= accounts@.len(),
                accounts@ == self.ledger().accounts(),
                lines_view(lines@) == report_text(self.ledger()).take(
                    i + 1,
                ),
            decreases accounts@.len() - i,
        {
            let line = accounts[i].display_text();
            let ghost report = report_text(self.ledger());
            assert(report.len() == accounts@.len() + 1);
            assert(report[i + 1] == account_text(accounts@[i as int]));
            let ghost prev = lines@;
            lines.push(line);
            proof {
                assert(lines_view(prev).len() == prev.len());
                assert(prev.len() == i + 1);
                assert(lines@.len() == i + 2);
                assert(report.take(i + 2).len() == i + 2);
                assert forall|j: int| 0 <= j < lines@.len() implies #[trigger] lines_view(lines@)[j]
                    == report.take(i + 2)[j] by {
                    if j < prev.len() {
                        assert(lines@[j] == prev[j]);
                        assert(lines_view(prev)[j] == prev[j]@);
                    }
                }
                assert(lines_view(lines@) =~= report.take(i + 2));
            }
            i = i + 1;
        }
        assert(report_text(self.ledger()).take(i + 1) =~= report_text(self.ledger()));
        lines
    }

    /// The command that a record stands for, or `None` for a record to drop.
    pub fn validate_raw_input(&self, txn: &RawTxnInput) -> (r: Option<Txn>)
        ensures
            r == command_of(*txn),
    {
        match txn.txn_type {
            TxnType::Invalid => None,
            TxnType::Deposit => match txn.amount {
                Some(amount) => {
                    if amount <= 0 {
                        return None;
                    }
                    Some(
                        Txn::BalanceTransfer(
                            BalanceTransfer { client_id: txn.client_id, txn_id: txn.txn_id, amount },
                        ),
                    )
                },
                None => None,
            },
            TxnType::Withdrawal => match txn.amount {
                Some(amount) => {
                    if amount <= 0 {
                        return None;
                    }
                    Some(
                        Txn::BalanceTransfer(
                            BalanceTransfer {
                                client_id: txn.client_id,
                                txn_id: txn.txn_id,
                                amount: -amount,
                            },
                        ),
                    )
                },
                None => None,
            },
            TxnType::Dispute => {
                if txn.amount.is_some() {
                    return None;
                }
                Some(Txn::Dispute { client_id: txn.client_id, txn_id: txn.txn_id })
            },
            TxnType::Resolve => {
                if txn.amount.is_some() {
                    return None;
                }
                Some(Txn::Resolve { client_id: txn.client_id, txn_id: txn.txn_id })
            },
            TxnType::Chargeback => {
                if txn.amount.is_some() {
                    return None;
                }
                Some(Txn::Chargeback { client_id: txn.client_id, txn_id: txn.txn_id })
            },
        }
    }
}

} // verus!
