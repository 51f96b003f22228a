//! Properties of the ledger that hold across records.
use crate::db::LedgerModel;
use crate::model::{
    ClientId, Dispute, DisputeStatus, LockedState, RawTxnInput, TransactionId, TxnType,
};
use crate::transaction_processor::{
    apply, applies, command_of, fits, ledger_ok, lemma_apply, lemma_with_client, run, step,
    with_client,
};
use vstd::prelude::*;

verus! {

/// The record of a dispute, resolution or chargeback of `t` by client `c`.
pub open spec fn claim(kind: TxnType, c: ClientId, t: TransactionId) -> RawTxnInput {
    RawTxnInput { txn_type: kind, client_id: c, txn_id: t, amount: None }
}

/// After every record, each account's `total` is exactly `available + held`,
/// and the ledger stays consistent.
pub proof fn lemma_total_is_sum(l: LedgerModel, raw: RawTxnInput)
    requires
        ledger_ok(l),
    ensures
        ledger_ok(step(l, raw)),
        forall|c: ClientId| #[trigger]
            step(l, raw).clients.contains_key(c) ==> step(l, raw).clients[c].total
                == step(l, raw).clients[c].available + step(l, raw).clients[c].held,
{
    lemma_with_client(l, raw.client_id);
    match command_of(raw) {
        Some(txn) => {
            if apply(with_client(l, raw.client_id), txn) is Some {
                lemma_apply(with_client(l, raw.client_id), txn);
            }
        },
        None => {},
    }
}

/// Once an account is locked, no record changes its balances or its lock.
pub proof fn lemma_locked_account_is_final(l: LedgerModel, raw: RawTxnInput, c: ClientId)
    requires
        ledger_ok(l),
        l.clients.contains_key(c),
        l.clients[c].locked == LockedState::Locked,
    ensures
        step(l, raw).clients.contains_key(c),
        step(l, raw).clients[c] == l.clients[c],
{
    lemma_with_client(l, raw.client_id);
}

/// Over any run of records, every account keeps `total == available + held`.
pub proof fn lemma_run_keeps_totals(l: LedgerModel, raws: Seq<RawTxnInput>)
    requires
        ledger_ok(l),
    ensures
        ledger_ok(run(l, raws)),
        forall|c: ClientId| #[trigger]
            run(l, raws).clients.contains_key(c) ==> run(l, raws).clients[c].total
                == run(l, raws).clients[c].available + run(l, raws).clients[c].held,
    decreases raws.len(),
{
    if raws.len() > 0 {
        lemma_run_keeps_totals(l, raws.drop_last());
        lemma_total_is_sum(run(l, raws.drop_last()), raws.last());
    }
}

/// Once an account is locked, no later run of records changes its balances
/// or its lock.
pub proof fn lemma_locked_account_stays_final(l: LedgerModel, raws: Seq<RawTxnInput>, c: ClientId)
    requires
        ledger_ok(l),
        l.clients.contains_key(c),
        l.clients[c].locked == LockedState::Locked,
    ensures
        run(l, raws).clients.contains_key(c),
        run(l, raws).clients[c] == l.clients[c],
    decreases raws.len(),
{
    if raws.len() > 0 {
        lemma_locked_account_stays_final(l, raws.drop_last(), c);
        lemma_run_keeps_totals(l, raws.drop_last());
        lemma_locked_account_is_final(run(l, raws.drop_last()), raws.last(), c);
    }
}

/// A deposit or withdrawal whose transaction id was used before changes no
/// balance: at most it opens an empty account for a client that had none.
pub proof fn lemma_reused_txn_id_changes_nothing(l: LedgerModel, raw: RawTxnInput)
    requires
        ledger_ok(l),
        raw.txn_type == TxnType::Deposit || raw.txn_type == TxnType::Withdrawal,
        l.transfers.contains_key(raw.txn_id),
    ensures
        step(l, raw) == l || step(l, raw) == with_client(l, raw.client_id),
        forall|c: ClientId| #[trigger]
            l.clients.contains_key(c) ==> step(l, raw).clients[c] == l.clients[c],
{
    lemma_with_client(l, raw.client_id);
}

/// A dispute of `t` followed by its resolution gives back the balances from
/// before the dispute; while the dispute stands, `total` is unchanged where
/// `t` was a deposit. This holds unless the dispute is refused while an
/// earlier dispute of `t` stands open, which the resolution then closes.
pub proof fn lemma_dispute_then_resolve(l: LedgerModel, c: ClientId, t: TransactionId)
    requires
        ledger_ok(l),
        applies(l, claim(TxnType::Dispute, c, t)) || !applies(l, claim(TxnType::Resolve, c, t)),
    ensures
        ({
            let before = with_client(l, c).clients[c];
            let disputed = step(l, claim(TxnType::Dispute, c, t));
            let after = step(disputed, claim(TxnType::Resolve, c, t)).clients[c];
            &&& after.available == before.available
            &&& after.held == before.held
            &&& after.total == before.total
            &&& l.transfers[t].amount >= 0 ==> disputed.clients[c].total == before.total
        }),
{
    let d = claim(TxnType::Dispute, c, t);
    let r = claim(TxnType::Resolve, c, t);
    let l0 = with_client(l, c);
    lemma_with_client(l, c);
    let l1 = step(l, d);
    if applies(l, d) {
        let txn = command_of(d).unwrap();
        lemma_apply(l0, txn);
        assert(l1.has_dispute_in(c, t, DisputeStatus::Open));
        assert(with_client(l1, c) == l1);
        assert(apply(l1, command_of(r).unwrap()) is Some);
    } else {
        assert(l1 == l0);
        assert(with_client(l0, c) == l0);
        assert(with_client(l1, c) == l1);
    }
}

/// A dispute of a deposit that was never disputed moves its amount from
/// `available` to `held` and leaves `total` as it was, where the new balances
/// fit in an `i64`.
pub proof fn lemma_deposit_dispute_holds_amount(l: LedgerModel, c: ClientId, t: TransactionId)
    requires
        ledger_ok(l),
        l.has_transfer(c, t),
        l.transfers[t].amount > 0,
        !l.disputes.contains_key(t),
        !l.clients[c].frozen(),
        fits(
            l.clients[c].available - l.transfers[t].amount,
            l.clients[c].held + l.transfers[t].amount,
        ),
    ensures
        ({
            let a = l.clients[c];
            let x = l.transfers[t].amount;
            let n = step(l, claim(TxnType::Dispute, c, t));
            &&& n.clients[c].available == a.available - x
            &&& n.clients[c].held == a.held + x
            &&& n.clients[c].total == a.total
            &&& n.disputes[t] == Dispute { client_id: c, txn_id: t, status: DisputeStatus::Open }
        }),
{
    assert(l.clients.contains_key(c));
    assert(with_client(l, c) == l);
}

/// A withdrawal of more than the available funds is refused: nothing changes
/// but the opening of an empty account for a client that had none.
pub proof fn lemma_overdraft_refused(l: LedgerModel, raw: RawTxnInput, a: i64)
    requires
        ledger_ok(l),
        raw.txn_type == TxnType::Withdrawal,
        raw.amount == Some(a),
        a > 0,
        a > with_client(l, raw.client_id).clients[raw.client_id].available,
    ensures
        step(l, raw) == with_client(l, raw.client_id),
{
    lemma_with_client(l, raw.client_id);
}

/// A dispute, resolution or chargeback of a transaction id with no transfer
/// of that client is ignored: nothing changes but the opening of an empty
/// account for a client that had none.
pub proof fn lemma_claim_without_transfer_ignored(l: LedgerModel, raw: RawTxnInput)
    requires
        ledger_ok(l),
        raw.txn_type == TxnType::Dispute || raw.txn_type == TxnType::Resolve || raw.txn_type
            == TxnType::Chargeback,
        !l.has_transfer(raw.client_id, raw.txn_id),
    ensures
        step(l, raw) == l || step(l, raw) == with_client(l, raw.client_id),
{
    lemma_with_client(l, raw.client_id);
    let l0 = with_client(l, raw.client_id);
    assert(!l0.has_transfer(raw.client_id, raw.txn_id));
    assert(!l0.has_dispute_in(raw.client_id, raw.txn_id, DisputeStatus::Open));
}

} // verus!
