//! Routing records to one worker per client.

use std::collections::HashMap;
use vstd::prelude::*;
use crate::account::account_views;
use crate::account::Account;
use crate::account::AccountAdmin;
use crate::account::AccountView;
use crate::account::AdminView;
use crate::account::Outcome;
use crate::account::laws::lemma_client_is_kept;
use crate::account::laws::lemma_locked_is_final;
use crate::account::laws::lemma_stopped_is_locked;
use crate::input::Input;
use crate::report::report;
use crate::report::report_text;
use crate::text::texts;
use crate::transaction::source::records_in;
use crate::transaction::source::TransactionIterator;
use crate::transaction::Error;
use crate::transaction::Transaction;
use crate::transaction::TransactionView;

verus! {

/// The records that name the client, in their order.
pub open spec fn records_of(records: Seq<TransactionView>, client_id: u16) -> Seq<
    TransactionView,
>
    decreases records.len(),
{
    if records.len() == 0 {
        Seq::empty()
    } else {
        let earlier = records_of(records.drop_last(), client_id);
        if records.last().client_id == client_id {
            earlier.push(records.last())
        } else {
            earlier
        }
    }
}

/// The clients that the records name, each once, in the order in which they
/// first occur.
pub open spec fn clients_of(records: Seq<TransactionView>) -> Seq<u16>
    decreases records.len(),
{
    if records.len() == 0 {
        Seq::empty()
    } else {
        let earlier = clients_of(records.drop_last());
        let client_id = records.last().client_id;
        if earlier.contains(client_id) {
            earlier
        } else {
            earlier.push(client_id)
        }
    }
}

/// The account of a client once its worker has taken the client's records,
/// in their order. The other clients' records play no part in it. A worker
/// that has stopped takes no more records; they would change nothing, so
/// this is the account that it leaves.
pub open spec fn final_account(records: Seq<TransactionView>, client_id: u16) -> AccountView {
    AdminView::fresh(client_id).run(records_of(records, client_id)).account
}

/// The final accounts of all clients that the records name, in the order in
/// which the clients first occur.
pub open spec fn settle(records: Seq<TransactionView>) -> Seq<AccountView> {
    clients_of(records).map_values(|client_id: u16| final_account(records, client_id))
}

/// A client without a worker has no records.
pub proof fn lemma_new_client_has_no_records(records: Seq<TransactionView>, client_id: u16)
    requires
        !clients_of(records).contains(client_id),
    ensures
        records_of(records, client_id) == Seq::<TransactionView>::empty(),
    decreases records.len(),
{
    if records.len() > 0 {
        let earlier = clients_of(records.drop_last());
        let last = records.last().client_id;
        if earlier.contains(last) {
            assert(last != client_id);
        } else {
            assert(earlier.push(last).last() == last);
            assert(last != client_id);
            assert forall|i: int| 0 <= i < earlier.len() implies earlier[i] != client_id by {
                assert(earlier.push(last)[i] == earlier[i]);
            }
        }
        lemma_new_client_has_no_records(records.drop_last(), client_id);
    }
}

/// One more record adds to its own client's records and to no others'.
pub proof fn lemma_records_of_push(
    records: Seq<TransactionView>,
    tx: TransactionView,
    client_id: u16,
)
    ensures
        records_of(records.push(tx), client_id) == if tx.client_id == client_id {
            records_of(records, client_id).push(tx)
        } else {
            records_of(records, client_id)
        },
{
    assert(records.push(tx).drop_last() == records);
}

/// One more record adds its client to the clients, unless it is among them.
pub proof fn lemma_clients_of_push(records: Seq<TransactionView>, tx: TransactionView)
    ensures
        clients_of(records.push(tx)) == if clients_of(records).contains(tx.client_id) {
            clients_of(records)
        } else {
            clients_of(records).push(tx.client_id)
        },
{
    assert(records.push(tx).drop_last() == records);
}

/// The clients are those that some record names, and none is listed twice.
pub proof fn lemma_clients_are_listed_once(records: Seq<TransactionView>)
    ensures
        clients_of(records).no_duplicates(),
        forall|client_id: u16|
            clients_of(records).contains(client_id) <==> exists|i: int|
                0 <= i < records.len() && (#[trigger] records[i]).client_id == client_id,
    decreases records.len(),
{
    if records.len() > 0 {
        let earlier = records.drop_last();
        let last = records.last().client_id;
        lemma_clients_are_listed_once(earlier);
        assert forall|client_id: u16|
            clients_of(records).contains(client_id) <==> exists|i: int|
                0 <= i < records.len() && (#[trigger] records[i]).client_id == client_id by {
            if clients_of(records).contains(client_id) {
                if clients_of(earlier).contains(client_id) {
                    let i = choose|i: int|
                        0 <= i < earlier.len() && (#[trigger] earlier[i]).client_id == client_id;
                    assert(records[i].client_id == client_id);
                } else {
                    let k = choose|k: int|
                        0 <= k < clients_of(records).len() && clients_of(records)[k] == client_id;
                    assert(client_id == last);
                    assert(records[records.len() - 1].client_id == client_id);
                }
            }
            if exists|i: int|
                0 <= i < records.len() && (#[trigger] records[i]).client_id == client_id {
                let i = choose|i: int|
                    0 <= i < records.len() && (#[trigger] records[i]).client_id == client_id;
                if i < earlier.len() {
                    assert(earlier[i].client_id == client_id);
                    assert(clients_of(earlier).contains(client_id));
                    let k = choose|k: int|
                        0 <= k < clients_of(earlier).len() && clients_of(earlier)[k] == client_id;
                    assert(clients_of(records)[k] == client_id);
                } else {
                    if !clients_of(earlier).contains(last) {
                        assert(clients_of(records)[clients_of(earlier).len() as int] == last);
                    }
                }
            }
        }
    }
}

/// The report lists one account for each client, in the clients' order: the
/// client's own final account.
pub proof fn lemma_report_follows_clients(records: Seq<TransactionView>)
    ensures
        settle(records).len() == clients_of(records).len(),
        forall|i: int|
            0 <= i < settle(records).len() ==> #[trigger] settle(records)[i] == final_account(
                records,
                clients_of(records)[i],
            ),
        forall|i: int|
            0 <= i < settle(records).len() ==> (#[trigger] settle(records)[i]).client_id
                == clients_of(records)[i],
{
    assert forall|i: int| 0 <= i < settle(records).len() implies (#[trigger] settle(
        records,
    )[i]).client_id == clients_of(records)[i] by {
        let client_id = clients_of(records)[i];
        lemma_client_is_kept(AdminView::fresh(client_id), records_of(records, client_id));
    }
}

/// A client's final account depends on the client's own records alone: two
/// inputs that hold the same records of a client, in the same order, report
/// the same account for it, however the records of other clients lie between
/// them.
pub proof fn lemma_other_clients_do_not_matter(
    first: Seq<TransactionView>,
    second: Seq<TransactionView>,
    client_id: u16,
)
    requires
        records_of(first, client_id) == records_of(second, client_id),
    ensures
        final_account(first, client_id) == final_account(second, client_id),
        forall|i: int, j: int|
            0 <= i < settle(first).len() && 0 <= j < settle(second).len() && (#[trigger] settle(
                first,
            )[i]).client_id == client_id && (#[trigger] settle(second)[j]).client_id == client_id
                ==> settle(first)[i] == settle(second)[j],
{
    lemma_report_follows_clients(first);
    lemma_report_follows_clients(second);
}

/// The worker of one client as the router keeps it: once the worker has
/// stopped, the account that it left.
struct Worker {
    admin: AccountAdmin,
    snapshot: Option<Account>,
}

impl Worker {
    /// Whether the worker is where the client's records take it.
    spec fn tracks(self, client_id: u16, records: Seq<TransactionView>) -> bool {
        &&& self.admin@ == AdminView::fresh(client_id).run(records)
        &&& match self.snapshot {
            Some(account) => account@ == self.admin@.account && AdminView::fresh(
                client_id,
            ).stopped(records),
            None => !AdminView::fresh(client_id).stopped(records),
        }
    }
}

/// Whether the routing table and the workers are those of the records seen.
spec fn linked(pipes: Map<u16, usize>, workers: Seq<Worker>, seen: Seq<TransactionView>) -> bool {
    let clients = clients_of(seen);
    &&& workers.len() == clients.len()
    &&& forall|client_id: u16| #[trigger]
        pipes.contains_key(client_id) ==> pipes[client_id] < workers.len()
            && clients[pipes[client_id] as int] == client_id
    &&& forall|i: int|
        0 <= i < workers.len() ==> pipes.contains_key(#[trigger] clients[i]) && pipes[clients[i]]
            == i
    &&& forall|i: int|
        0 <= i < workers.len() ==> (#[trigger] workers[i]).tracks(
            clients[i],
            records_of(seen, clients[i]),
        )
}

/// Hands the record to the worker at `position`, unless that worker has
/// stopped.
fn deliver(workers: &mut Vec<Worker>, position: usize, tx: Transaction, Ghost(records): Ghost<
    Seq<TransactionView>,
>) -> (sent: Result<(), Error>)
    requires
        position < old(workers).len(),
        tx@.is_complete(),
        old(workers)[position as int].tracks(tx@.client_id, records),
    ensures
        final(workers).len() == old(workers).len(),
        forall|i: int|
            0 <= i < old(workers).len() && i != position ==> final(workers)[i] == old(workers)[i],
        final(workers)[position as int].tracks(tx@.client_id, records.push(tx@)),
        match sent {
            Ok(_) => !AdminView::fresh(tx@.client_id).stopped(records),
            Err(Error::Send(dropped)) => dropped == tx && AdminView::fresh(
                tx@.client_id,
            ).stopped(records),
            Err(_) => false,
        },
{
    let ghost start = AdminView::fresh(tx@.client_id);
    assert(records.push(tx@).drop_last() == records);
    if workers[position].snapshot.is_some() {
        proof {
            lemma_stopped_is_locked(start, records);
            lemma_locked_is_final(start.run(records), Some(tx@));
        }
        return Err(Error::Send(tx));
    }
    if let Outcome::Terminated(_, account) = workers[position].admin.take(Some(tx)) {
        workers[position].snapshot = Some(account);
    }
    Ok(())
}

/// Routes one record: to the client's worker, or to a new worker where the
/// client has none yet.
fn route(
    pipes: &mut HashMap<u16, usize>,
    workers: &mut Vec<Worker>,
    tx: Transaction,
    Ghost(seen): Ghost<Seq<TransactionView>>,
) -> (sent: Result<(), Error>)
    requires
        tx@.is_complete(),
        linked(old(pipes)@, old(workers)@, seen),
    ensures
        linked(final(pipes)@, final(workers)@, seen.push(tx@)),
        match sent {
            Ok(_) => !AdminView::fresh(tx@.client_id).stopped(records_of(seen, tx@.client_id)),
            Err(Error::Send(dropped)) => dropped == tx && AdminView::fresh(
                tx@.client_id,
            ).stopped(records_of(seen, tx@.client_id)),
            Err(_) => false,
        },
{
    broadcast use vstd::std_specs::hash::group_hash_axioms;

    let client_id = tx.client_id();
    let ghost clients = clients_of(seen);
    proof {
        lemma_clients_of_push(seen, tx@);
        assert forall|other: u16|
            records_of(seen.push(tx@), other) == if tx@.client_id == other {
                records_of(seen, other).push(tx@)
            } else {
                records_of(seen, other)
            } by {
            lemma_records_of_push(seen, tx@, other);
        }
    }
    let known = match pipes.get(&client_id) {
        Some(position) => Some(*position),
        None => None,
    };
    match known {
        Some(position) => {
            assert(clients[position as int] == client_id);
            assert(clients.contains(client_id));
            let sent = deliver(workers, position, tx, Ghost(records_of(seen, client_id)));
            assert forall|i: int| 0 <= i < workers.len() implies (#[trigger] workers[i]).tracks(
                clients[i],
                records_of(seen.push(tx@), clients[i]),
            ) by {
                if i != position {
                    assert(workers[i] == old(workers)[i]);
                    assert(pipes@[clients[i]] == i);
                }
            }
            sent
        },
        None => {
            let position = workers.len();
            proof {
                if clients.contains(client_id) {
                    let i = choose|i: int| 0 <= i < clients.len() && clients[i] == client_id;
                    assert(pipes@.contains_key(clients[i]));
                }
                lemma_new_client_has_no_records(seen, client_id);
            }
            workers.push(Worker { admin: AccountAdmin::new(client_id), snapshot: None });
            pipes.insert(client_id, position);
            let sent = deliver(workers, position, tx, Ghost(Seq::empty()));
            proof {
                let after = clients.push(client_id);
                assert forall|i: int| 0 <= i < workers.len() implies (#[trigger] workers[i]).tracks(
                    after[i],
                    records_of(seen.push(tx@), after[i]),
                ) by {
                    if i != position {
                        assert(workers[i] == old(workers)[i]);
                        assert(old(pipes)@.contains_key(clients[i]));
                    }
                }
                assert forall|i: int| 0 <= i < workers.len() implies pipes@.contains_key(
                    #[trigger] after[i],
                ) && pipes@[after[i]] == i by {
                    if i != position {
                        assert(old(pipes)@.contains_key(clients[i]));
                    }
                }
            }
            sent
        },
    }
}

/// The accounts that the workers leave once their queues are closed.
fn close(workers: Vec<Worker>, Ghost(seen): Ghost<Seq<TransactionView>>) -> (accounts: Vec<
    Account,
>)
    requires
        workers.len() == clients_of(seen).len(),
        forall|i: int|
            0 <= i < workers.len() ==> (#[trigger] workers[i]).tracks(
                clients_of(seen)[i],
                records_of(seen, clients_of(seen)[i]),
            ),
    ensures
        account_views(accounts@) == settle(seen),
{
    let mut workers = workers;
    let mut accounts: Vec<Account> = Vec::new();
    let mut i: usize = 0;
    while i < workers.len()
        invariant
            i <= workers.len(),
            workers.len() == clients_of(seen).len(),
            accounts.len() == i,
            forall|j: int|
                i <= j < workers.len() ==> (#[trigger] workers[j]).tracks(
                    clients_of(seen)[j],
                    records_of(seen, clients_of(seen)[j]),
                ),
            forall|j: int| 0 <= j < i ==> (#[trigger] accounts[j])@ == settle(seen)[j],
        decreases workers.len() - i,
    {
        let account = match workers[i].snapshot {
            Some(account) => account,
            None => {
                // The queue is closed: the worker stops and leaves its account.
                let _ = workers[i].admin.take(None);
                *workers[i].admin.account()
            },
        };
        accounts.push(account);
        i += 1;
    }
    assert(account_views(accounts@) =~= settle(seen));
    accounts
}

/// The router: it takes the records in their order and keeps one worker per
/// client, made when the client's first record arrives. Its value is the
/// sequence of the records that it has taken.
pub struct Router {
    pipes: HashMap<u16, usize>,
    workers: Vec<Worker>,
    seen: Ghost<Seq<TransactionView>>,
}

impl View for Router {
    type V = Seq<TransactionView>;

    closed spec fn view(&self) -> Seq<TransactionView> {
        self.seen@
    }
}

impl Router {
    #[verifier::type_invariant]
    spec fn workers_follow_records(self) -> bool {
        linked(self.pipes@, self.workers@, self.seen@)
    }

    /// A router that has taken no record and has no worker.
    pub fn new() -> (router: Router)
        ensures
            router@ == Seq::<TransactionView>::empty(),
    {
        broadcast use vstd::std_specs::hash::group_hash_axioms;

        Router { pipes: HashMap::new(), workers: Vec::new(), seen: Ghost(Seq::empty()) }
    }

    /// Takes one record and hands it to its client's worker, which applies it
    /// at once. `Err(Error::Send(tx))` hands the record back: the worker had
    /// stopped before, and the record is dropped.
    pub fn dispatch(&mut self, tx: Transaction) -> (sent: Result<(), Error>)
        requires
            tx@.is_complete(),
        ensures
            final(self)@ == old(self)@.push(tx@),
            match sent {
                Ok(_) => !AdminView::fresh(tx@.client_id).stopped(
                    records_of(old(self)@, tx@.client_id),
                ),
                Err(Error::Send(dropped)) => dropped == tx && AdminView::fresh(
                    tx@.client_id,
                ).stopped(records_of(old(self)@, tx@.client_id)),
                Err(_) => false,
            },
    {
        let mut taken = Router::new();
        std::mem::swap(self, &mut taken);
        proof {
            use_type_invariant(&taken);
        }
        let Router { pipes, workers, seen } = taken;
        let mut pipes = pipes;
        let mut workers = workers;
        let sent = route(&mut pipes, &mut workers, tx, seen);
        *self = Router { pipes, workers, seen: Ghost(seen@.push(tx@)) };
        sent
    }

    /// Closes every queue and collects what the workers leave: the final
    /// account of each client, in the order in which the clients first
    /// occurred.
    pub fn finish(self) -> (accounts: Vec<Account>)
        ensures
            account_views(accounts@) == settle(self@),
    {
        proof {
            use_type_invariant(&self);
        }
        let Router { pipes, workers, seen } = self;
        close(workers, seen)
    }
}

/// Runs the whole input: every record goes to its client's worker, in the
/// order of the input, and the workers' final accounts make the report, in
/// the order in which the clients first occurred. Without `dump_accounts`
/// the records are applied all the same, and nothing is reported.
pub fn drill(input: Input, dump_accounts: bool) -> (lines: Vec<String>)
    ensures
        texts(lines@) == if dump_accounts {
            report_text(settle(records_in(input@)))
        } else {
            Seq::empty()
        },
{
    let ghost all = records_in(input@);
    let mut records = TransactionIterator::new(input);
    let mut router = Router::new();
    loop
        invariant
            router@ + records@ == all,
        ensures
            router@ == all,
        decreases records@.len(),
    {
        let ghost rest = records@;
        match records.next() {
            Some(tx) => {
                let _ = router.dispatch(tx);
                assert(router@ + records@ =~= all) by {
                    assert(rest == seq![rest[0]] + rest.drop_first());
                }
            },
            None => {
                assert(router@ =~= all);
                break ;
            },
        }
    }
    let accounts = router.finish();
    if dump_accounts {
        report(&accounts)
    } else {
        let lines: Vec<String> = Vec::new();
        assert(texts(lines@) =~= Seq::empty());
        lines
    }
}

} // verus!
