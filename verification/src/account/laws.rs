//! What holds of every worker, proved from the definition of a step.

use vstd::prelude::*;
use crate::account::AccountView;
use crate::account::AdminView;
use crate::account::ErrorView;
use crate::transaction::DisputeFlag;
use crate::transaction::TransactionView;
use crate::transaction::Type;

verus! {

/// Whether every record is a deposit or a withdrawal.
pub open spec fn only_moves(records: Seq<TransactionView>) -> bool {
    forall|i: int|
        0 <= i < records.len() ==> (#[trigger] records[i]).ttype == Type::Deposit
            || records[i].ttype == Type::Withdrawal
}

/// The running sum of the deposits less the withdrawals that the sum could
/// pay: a withdrawal of more than the sum so far leaves it as it is.
pub open spec fn running_balance(records: Seq<TransactionView>) -> nat
    decreases records.len(),
{
    if records.len() == 0 {
        0
    } else {
        let before = running_balance(records.drop_last());
        let tx = records.last();
        if tx.ttype == Type::Deposit {
            before + tx.value()
        } else if tx.ttype == Type::Withdrawal && tx.value() <= before {
            (before - tx.value()) as nat
        } else {
            before
        }
    }
}

/// Whether the running sum can be stored after each of the records.
pub open spec fn stays_in_range(records: Seq<TransactionView>) -> bool {
    forall|n: int|
        0 <= n <= records.len() ==> #[trigger] running_balance(records.take(n)) <= u64::MAX
}

/// A new account that takes only deposits and withdrawals has the running sum
/// of the deposits less the paid withdrawals available, holds nothing and is
/// not locked.
pub proof fn lemma_moves_keep_running_balance(client_id: u16, records: Seq<TransactionView>)
    requires
        only_moves(records),
        stays_in_range(records),
    ensures
        AdminView::fresh(client_id).run(records).account == (AccountView {
            client_id,
            available: running_balance(records),
            held: 0,
            locked: false,
        }),
    decreases records.len(),
{
    if records.len() > 0 {
        let earlier = records.drop_last();
        assert forall|n: int| 0 <= n <= earlier.len() implies #[trigger] running_balance(
            earlier.take(n),
        ) <= u64::MAX by {
            assert(earlier.take(n) == records.take(n));
        }
        assert(only_moves(earlier));
        lemma_moves_keep_running_balance(client_id, earlier);
        assert(records.take(records.len() as int) == records);
        assert(earlier.take(earlier.len() as int) == earlier);
        assert(running_balance(records) <= u64::MAX);
        assert(running_balance(earlier) <= u64::MAX);
    }
}

/// A dispute of a known record without a flag, on an unlocked account that
/// has the record's amount available, moves that amount from available to
/// held. The total stays; the record is then disputed.
pub proof fn lemma_dispute_holds_amount(state: AdminView, message: TransactionView)
    requires
        message.ttype == Type::Dispute,
        state.history.contains_key(message.tx_id),
        state.history[message.tx_id].flag == DisputeFlag::Clear,
        !state.account.locked,
        state.history[message.tx_id].value() <= state.account.available,
    ensures
        ({
            let amount = state.history[message.tx_id].value();
            let (next, reply) = state.step(Some(message));
            &&& next.account.available == state.account.available - amount
            &&& next.account.held == state.account.held + amount
            &&& next.account.total() == state.account.total()
            &&& next.account.locked == state.account.locked
            &&& next.history[message.tx_id].flag == DisputeFlag::Disputed
            &&& reply == Ok::<AccountView, ErrorView>(next.account)
        }),
{
}

/// A resolve of a known record with a flag, on an unlocked account that
/// holds the record's amount, moves that amount from held back to available.
/// The total stays; the record is then resolved.
pub proof fn lemma_resolve_releases_amount(state: AdminView, message: TransactionView)
    requires
        message.ttype == Type::Resolve,
        state.history.contains_key(message.tx_id),
        state.history[message.tx_id].flag != DisputeFlag::Clear,
        !state.account.locked,
        state.history[message.tx_id].value() <= state.account.held,
    ensures
        ({
            let amount = state.history[message.tx_id].value();
            let (next, reply) = state.step(Some(message));
            &&& next.account.held == state.account.held - amount
            &&& next.account.available == state.account.available + amount
            &&& next.account.total() == state.account.total()
            &&& next.account.locked == state.account.locked
            &&& next.history[message.tx_id].flag == DisputeFlag::Resolved
            &&& reply == Ok::<AccountView, ErrorView>(next.account)
        }),
{
}

/// A resolve straight after the dispute undoes it: the account is as it was
/// before the dispute.
pub proof fn lemma_resolve_reverses_dispute(
    state: AdminView,
    dispute: TransactionView,
    resolve: TransactionView,
)
    requires
        dispute.ttype == Type::Dispute,
        resolve.ttype == Type::Resolve,
        resolve.tx_id == dispute.tx_id,
        state.step(Some(dispute)).1 is Ok,
    ensures
        state.step(Some(dispute)).0.step(Some(resolve)).0.account == state.account,
        state.step(Some(dispute)).0.step(Some(resolve)).1 == Ok::<AccountView, ErrorView>(
            state.account,
        ),
{
}

/// A chargeback of a known record with a flag, on an unlocked account that
/// holds the record's amount, takes that amount out of the held balance and
/// locks the account. The total falls by the amount; the record is then
/// charged back.
pub proof fn lemma_chargeback_removes_amount(state: AdminView, message: TransactionView)
    requires
        message.ttype == Type::Chargeback,
        state.history.contains_key(message.tx_id),
        state.history[message.tx_id].flag != DisputeFlag::Clear,
        !state.account.locked,
        state.history[message.tx_id].value() <= state.account.held,
    ensures
        ({
            let amount = state.history[message.tx_id].value();
            let (next, reply) = state.step(Some(message));
            &&& next.account.held == state.account.held - amount
            &&& next.account.available == state.account.available
            &&& next.account.total() == state.account.total() - amount
            &&& next.account.locked
            &&& next.history[message.tx_id].flag == DisputeFlag::ChargedBack
            &&& reply == Ok::<AccountView, ErrorView>(next.account)
        }),
{
}

/// A locked account is final: whatever the message, the worker's state stays
/// as it is, and no answer is a success.
pub proof fn lemma_locked_is_final(state: AdminView, message: Option<TransactionView>)
    requires
        state.account.locked,
    ensures
        state.step(message).0 == state,
        state.step(message).1 is Err,
{
}

/// A locked account stays as it is through any sequence of records.
pub proof fn lemma_locked_stays_final(state: AdminView, records: Seq<TransactionView>)
    requires
        state.account.locked,
    ensures
        state.run(records) == state,
    decreases records.len(),
{
    if records.len() > 0 {
        lemma_locked_stays_final(state, records.drop_last());
        lemma_locked_is_final(state, Some(records.last()));
    }
}

/// A worker stops on a closed queue, and on a record only where its account
/// is locked; a worker that stops stays as it is.
pub proof fn lemma_stop_is_closed_or_locked(state: AdminView, message: Option<TransactionView>)
    ensures
        state.stops_on(None),
        state.stops_on(message) ==> message is None || state.account.locked,
        state.stops_on(message) ==> state.step(message) == state.stop(),
{
}

/// Taking two queues one after the other is taking them as one.
pub proof fn lemma_run_in_two_parts(
    state: AdminView,
    first: Seq<TransactionView>,
    second: Seq<TransactionView>,
)
    ensures
        state.run(first + second) == state.run(first).run(second),
    decreases second.len(),
{
    if second.len() == 0 {
        assert(first + second == first);
    } else {
        lemma_run_in_two_parts(state, first, second.drop_last());
        assert((first + second).drop_last() == first + second.drop_last());
        assert((first + second).last() == second.last());
    }
}

/// A worker stops on a record only where its account is locked, so the
/// account of a stopped worker is locked.
pub proof fn lemma_stopped_is_locked(state: AdminView, records: Seq<TransactionView>)
    requires
        state.stopped(records),
    ensures
        state.run(records).account.locked,
    decreases records.len(),
{
    if state.stopped(records.drop_last()) {
        lemma_stopped_is_locked(state, records.drop_last());
        lemma_locked_is_final(state.run(records.drop_last()), Some(records.last()));
    }
}

/// No step changes the client that an account belongs to.
pub proof fn lemma_client_is_kept(state: AdminView, records: Seq<TransactionView>)
    ensures
        state.run(records).account.client_id == state.account.client_id,
    decreases records.len(),
{
    if records.len() > 0 {
        lemma_client_is_kept(state, records.drop_last());
    }
}

/// A record that fails leaves the account as it was: no balance is ever
/// changed halfway.
pub proof fn lemma_failed_step_keeps_account(state: AdminView, message: Option<TransactionView>)
    requires
        state.step(message).1 is Err,
    ensures
        state.step(message).0.account == state.account,
{
}

/// A success answers with the account as it stands after the step.
pub proof fn lemma_success_shows_account(state: AdminView, message: Option<TransactionView>)
    requires
        state.step(message).1 is Ok,
    ensures
        state.step(message).1 == Ok::<AccountView, ErrorView>(state.step(message).0.account),
        !state.account.locked,
{
}

/// Only a deposit raises the total of an account, and no step takes it
/// beyond what a balance can store.
pub proof fn lemma_total_stays_in_range(state: AdminView, message: Option<TransactionView>)
    requires
        state.account.total() <= u64::MAX,
    ensures
        state.step(message).0.account.total() <= u64::MAX,
        state.step(message).0.account.total() > state.account.total() ==> (message matches Some(
            tx,
        ) && tx.ttype == Type::Deposit),
{
}

/// Whether the message is a deposit or a withdrawal under this transaction.
pub open spec fn moves_under(message: Option<TransactionView>, tx_id: u32) -> bool {
    match message {
        Some(tx) => tx.tx_id == tx_id && (tx.ttype == Type::Deposit || tx.ttype
            == Type::Withdrawal),
        None => false,
    }
}

/// No step takes a record out of the history. Only a deposit or a withdrawal
/// puts a record in, under its own transaction; any other step leaves every
/// record its kind and its amount.
pub proof fn lemma_history_is_kept(state: AdminView, message: Option<TransactionView>)
    ensures
        forall|tx_id: u32|
            state.history.contains_key(tx_id) ==> #[trigger] state.step(
                message,
            ).0.history.contains_key(tx_id),
        forall|tx_id: u32|
            #[trigger] state.step(message).0.history.contains_key(tx_id)
                && !state.history.contains_key(tx_id) ==> moves_under(message, tx_id),
        forall|tx_id: u32|
            state.history.contains_key(tx_id) && !moves_under(message, tx_id) ==> (
            #[trigger] state.step(message).0.history[tx_id]).flagged(DisputeFlag::Clear)
                == state.history[tx_id].flagged(DisputeFlag::Clear),
{
}

/// No step unlocks an account.
pub proof fn lemma_lock_is_kept(state: AdminView, message: Option<TransactionView>)
    ensures
        state.account.locked ==> state.step(message).0.account.locked,
{
}

/// A dispute of a record that carries a flag already, or of a transaction
/// that the history does not hold, changes nothing.
pub proof fn lemma_vain_dispute_changes_nothing(state: AdminView, message: TransactionView)
    requires
        message.ttype == Type::Dispute,
        !state.history.contains_key(message.tx_id) || state.history[message.tx_id].flag
            != DisputeFlag::Clear,
    ensures
        state.step(Some(message)).0 == state,
        state.step(Some(message)).1 == Err::<AccountView, ErrorView>(
            if state.history.contains_key(message.tx_id) {
                ErrorView::TxAlreadyDisputed
            } else {
                ErrorView::TxNotFound
            },
        ),
{
}

} // verus!
