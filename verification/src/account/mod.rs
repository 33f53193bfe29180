//! Client accounts.

use std::collections::HashMap;
use vstd::prelude::*;
use crate::transaction::DisputeFlag;
use crate::transaction::Transaction;
use crate::transaction::TransactionView;
use crate::transaction::Type;
use crate::account::laws::lemma_locked_stays_final;
use crate::account::laws::lemma_run_in_two_parts;

pub mod laws;

verus! {

/// The mathematical value of an account. Balances are natural numbers of
/// ten-thousandths of a unit.
pub struct AccountView {
    pub client_id: u16,
    pub available: nat,
    pub held: nat,
    pub locked: bool,
}

impl AccountView {
    /// A new client's account: nothing in it, not locked.
    pub open spec fn fresh(client_id: u16) -> AccountView {
        AccountView { client_id, available: 0, held: 0, locked: false }
    }

    /// Everything the account holds, available or held.
    pub open spec fn total(self) -> nat {
        self.available + self.held
    }

    /// Whether the account can take `amount` more: its total stays within
    /// what a balance can store.
    pub open spec fn has_room(self, amount: nat) -> bool {
        self.total() + amount <= u64::MAX
    }

    /// The account with `amount` more available.
    pub open spec fn credit_available(self, amount: nat) -> AccountView {
        AccountView { available: self.available + amount, ..self }
    }

    /// The account with `amount` less available.
    pub open spec fn debit_available(self, amount: nat) -> AccountView
        recommends
            amount <= self.available,
    {
        AccountView { available: (self.available - amount) as nat, ..self }
    }

    /// The account with `amount` more held.
    pub open spec fn credit_held(self, amount: nat) -> AccountView {
        AccountView { held: self.held + amount, ..self }
    }

    /// The account with `amount` less held.
    pub open spec fn debit_held(self, amount: nat) -> AccountView
        recommends
            amount <= self.held,
    {
        AccountView { held: (self.held - amount) as nat, ..self }
    }

    /// The account, locked or not as given.
    pub open spec fn with_lock(self, locked: bool) -> AccountView {
        AccountView { locked, ..self }
    }
}

/// Why an operation on an account, or a worker's step, did not succeed.
#[derive(Debug, Clone, Copy, PartialEq, Eq)]
pub enum Error {
    /// The credit would take the account's total beyond what a balance can
    /// store.
    FundsExceeded,
    /// The balance is lower than the amount to take from it.
    DepositTooLow,
    /// The record is of no kind that a worker handles.
    OperationNotSupported,
    /// The account's history holds no such transaction.
    TxNotFound,
    /// The account is locked. No operation here answers with it: a worker
    /// that meets its locked account stops, and answers with `Handle`.
    AccountLocked,
    /// The transaction carries no flag, so there is nothing to settle.
    TxNotDisputed,
    /// The transaction carries a flag already.
    TxAlreadyDisputed,
    /// The worker has stopped; this is the account as it leaves it.
    Handle(Account),
}

/// The mathematical value of an [`Error`], variant by variant.
pub enum ErrorView {
    FundsExceeded,
    DepositTooLow,
    OperationNotSupported,
    TxNotFound,
    /// The account is locked. No operation here answers with it: a worker
    /// that meets its locked account stops, and answers with `Handle`.
    AccountLocked,
    TxNotDisputed,
    TxAlreadyDisputed,
    Handle(AccountView),
}

impl View for Error {
    type V = ErrorView;

    open spec fn view(&self) -> ErrorView {
        match *self {
            Error::FundsExceeded => ErrorView::FundsExceeded,
            Error::DepositTooLow => ErrorView::DepositTooLow,
            Error::OperationNotSupported => ErrorView::OperationNotSupported,
            Error::TxNotFound => ErrorView::TxNotFound,
            Error::AccountLocked => ErrorView::AccountLocked,
            Error::TxNotDisputed => ErrorView::TxNotDisputed,
            Error::TxAlreadyDisputed => ErrorView::TxAlreadyDisputed,
            Error::Handle(account) => ErrorView::Handle(account@),
        }
    }
}

/// A client's account: what is available, what is held under dispute, and
/// whether the account is locked. The total of the two balances always fits
/// in a `u64`.
#[derive(Debug, Clone, Copy, PartialEq, Eq)]
pub struct Account {
    client_id: u16,
    available: u64,
    held: u64,
    locked: bool,
}

impl View for Account {
    type V = AccountView;

    closed spec fn view(&self) -> AccountView {
        AccountView {
            client_id: self.client_id,
            available: self.available as nat,
            held: self.held as nat,
            locked: self.locked,
        }
    }
}

impl Account {
    #[verifier::type_invariant]
    spec fn total_fits(self) -> bool {
        self.available + self.held <= u64::MAX
    }

    /// An account with the given balances, whose total fits in a `u64`.
    pub fn new(client_id: u16, available: u64, held: u64, locked: bool) -> (account: Self)
        requires
            available + held <= u64::MAX,
        ensures
            account@ == (AccountView {
                client_id,
                available: available as nat,
                held: held as nat,
                locked,
            }),
    {
        Account { client_id, available, held, locked }
    }

    /// An unlocked account with the given balances, whose total fits in a
    /// `u64`.
    pub fn new_unlocked(client_id: u16, available: u64, held: u64) -> (account: Self)
        requires
            available + held <= u64::MAX,
        ensures
            account@ == (AccountView {
                client_id,
                available: available as nat,
                held: held as nat,
                locked: false,
            }),
    {
        Account { client_id, available, held, locked: false }
    }

    /// The client that the account belongs to.
    pub fn client_id(&self) -> (client_id: u16)
        ensures
            client_id == self@.client_id,
    {
        self.client_id
    }

    /// What the client can use.
    pub fn available(&self) -> (amount: u64)
        ensures
            amount == self@.available,
    {
        self.available
    }

    /// What is held under dispute.
    pub fn held(&self) -> (amount: u64)
        ensures
            amount == self@.held,
    {
        self.held
    }

    /// What is available and what is held, together.
    pub fn total(&self) -> (amount: u64)
        ensures
            amount == self@.total(),
    {
        proof {
            use_type_invariant(self);
        }
        self.available + self.held
    }

    /// Adds `amount` to the available balance, unless the account has no room
    /// for it.
    pub fn add_available(&mut self, amount: u64) -> (r: Result<(), Error>)
        ensures
            match r {
                Ok(_) => old(self)@.has_room(amount as nat) && final(self)@
                    == old(self)@.credit_available(amount as nat),
                Err(e) => !old(self)@.has_room(amount as nat) && e@ == ErrorView::FundsExceeded
                    && final(self)@ == old(self)@,
            },
    {
        proof {
            use_type_invariant(&*self);
        }
        if amount > u64::MAX - self.available - self.held {
            return Err(Error::FundsExceeded);
        }
        self.available += amount;
        Ok(())
    }

    /// Takes `amount` from the available balance, unless it is lower.
    pub fn sub_available(&mut self, amount: u64) -> (r: Result<(), Error>)
        ensures
            match r {
                Ok(_) => amount <= old(self)@.available && final(self)@
                    == old(self)@.debit_available(amount as nat),
                Err(e) => amount > old(self)@.available && e@ == ErrorView::DepositTooLow
                    && final(self)@ == old(self)@,
            },
    {
        proof {
            use_type_invariant(&*self);
        }
        if self.available < amount {
            return Err(Error::DepositTooLow);
        }
        self.available -= amount;
        Ok(())
    }

    /// Adds `amount` to the held balance, unless the account has no room for
    /// it.
    pub fn add_held(&mut self, amount: u64) -> (r: Result<(), Error>)
        ensures
            match r {
                Ok(_) => old(self)@.has_room(amount as nat) && final(self)@
                    == old(self)@.credit_held(amount as nat),
                Err(e) => !old(self)@.has_room(amount as nat) && e@ == ErrorView::FundsExceeded
                    && final(self)@ == old(self)@,
            },
    {
        proof {
            use_type_invariant(&*self);
        }
        if amount > u64::MAX - self.available - self.held {
            return Err(Error::FundsExceeded);
        }
        self.held += amount;
        Ok(())
    }

    /// Takes `amount` from the held balance, unless it is lower.
    pub fn sub_held(&mut self, amount: u64) -> (r: Result<(), Error>)
        ensures
            match r {
                Ok(_) => amount <= old(self)@.held && final(self)@ == old(self)@.debit_held(
                    amount as nat,
                ),
                Err(e) => amount > old(self)@.held && e@ == ErrorView::DepositTooLow
                    && final(self)@ == old(self)@,
            },
    {
        proof {
            use_type_invariant(&*self);
        }
        if self.held < amount {
            return Err(Error::DepositTooLow);
        }
        self.held -= amount;
        Ok(())
    }

    /// Whether the account is locked.
    pub fn is_locked(&self) -> (locked: bool)
        ensures
            locked == self@.locked,
    {
        self.locked
    }

    /// Locks or unlocks the account.
    pub fn set_locked(&mut self, locked: bool)
        ensures
            final(self)@ == old(self)@.with_lock(locked),
    {
        proof {
            use_type_invariant(&*self);
        }
        self.locked = locked;
    }
}

/// Why a worker has stopped.
#[derive(Debug, Clone, Copy, PartialEq, Eq)]
pub enum Reason {
    /// A record met the locked account.
    Locked,
    /// The queue was closed.
    Closed,
}

/// What a message leaves of a worker: a worker that goes on, or one that has
/// stopped, with the reason and the account as it leaves it.
#[derive(Debug, Clone, Copy, PartialEq, Eq)]
pub enum Outcome {
    /// The worker waits for its next message.
    Active,
    /// The worker has stopped, and this is why and what it leaves.
    Terminated(Reason, Account),
}

/// The mathematical values of a list of accounts.
pub open spec fn account_views(accounts: Seq<Account>) -> Seq<AccountView> {
    accounts.map_values(|account: Account| account@)
}

/// What a worker answers to one message: the account as it now stands, or why
/// the message had no effect.
pub type Reply = Result<AccountView, ErrorView>;

/// The mathematical value of a worker: its account, and the history of the
/// deposits and withdrawals it has seen, by transaction.
pub struct AdminView {
    pub account: AccountView,
    pub history: Map<u32, TransactionView>,
}

impl AdminView {
    /// The worker of a new client.
    pub open spec fn fresh(client_id: u16) -> AdminView {
        AdminView { account: AccountView::fresh(client_id), history: Map::empty() }
    }

    /// The answer of a worker that stops: the account as it leaves it.
    pub open spec fn stop(self) -> (AdminView, Reply) {
        (self, Err(ErrorView::Handle(self.account)))
    }

    /// The answer of a worker that drops a record.
    pub open spec fn refuse(self, error: ErrorView) -> (AdminView, Reply) {
        (self, Err(error))
    }

    /// A deposit enters the history, then credits the available balance. At
    /// the limit of what a balance can store the credit fails; the record
    /// stays in the history.
    pub open spec fn deposit(self, tx: TransactionView) -> (AdminView, Reply) {
        if self.account.locked {
            self.stop()
        } else {
            let history = self.history.insert(tx.tx_id, tx);
            if self.account.has_room(tx.value()) {
                let account = self.account.credit_available(tx.value());
                (AdminView { account, history }, Ok(account))
            } else {
                (AdminView { account: self.account, history }, Err(ErrorView::FundsExceeded))
            }
        }
    }

    /// A withdrawal enters the history, then debits the available balance.
    /// Where the balance is too low the debit fails; the record stays in the
    /// history.
    pub open spec fn withdrawal(self, tx: TransactionView) -> (AdminView, Reply) {
        if self.account.locked {
            self.stop()
        } else {
            let history = self.history.insert(tx.tx_id, tx);
            if tx.value() <= self.account.available {
                let account = self.account.debit_available(tx.value());
                (AdminView { account, history }, Ok(account))
            } else {
                (AdminView { account: self.account, history }, Err(ErrorView::DepositTooLow))
            }
        }
    }

    /// A dispute of a known record without a flag moves the record's amount
    /// from available to held and flags the record as disputed.
    pub open spec fn dispute(self, tx_id: u32) -> (AdminView, Reply) {
        if !self.history.contains_key(tx_id) {
            self.refuse(ErrorView::TxNotFound)
        } else if self.history[tx_id].flag != DisputeFlag::Clear {
            self.refuse(ErrorView::TxAlreadyDisputed)
        } else if self.account.locked {
            self.stop()
        } else if self.history[tx_id].value() > self.account.available {
            self.refuse(ErrorView::DepositTooLow)
        } else {
            let target = self.history[tx_id];
            let account = self.account.debit_available(target.value()).credit_held(
                target.value(),
            );
            let history = self.history.insert(tx_id, target.flagged(DisputeFlag::Disputed));
            (AdminView { account, history }, Ok(account))
        }
    }

    /// A resolve of a known record with any flag moves the record's amount
    /// from held back to available and flags the record as resolved.
    pub open spec fn resolve(self, tx_id: u32) -> (AdminView, Reply) {
        if !self.history.contains_key(tx_id) {
            self.refuse(ErrorView::TxNotFound)
        } else if self.history[tx_id].flag == DisputeFlag::Clear {
            self.refuse(ErrorView::TxNotDisputed)
        } else if self.account.locked {
            self.stop()
        } else if self.history[tx_id].value() > self.account.held {
            self.refuse(ErrorView::DepositTooLow)
        } else {
            let target = self.history[tx_id];
            let account = self.account.debit_held(target.value()).credit_available(
                target.value(),
            );
            let history = self.history.insert(tx_id, target.flagged(DisputeFlag::Resolved));
            (AdminView { account, history }, Ok(account))
        }
    }

    /// A chargeback of a known record with any flag takes the record's
    /// amount out of the held balance, locks the account and flags the record
    /// as charged back.
    pub open spec fn chargeback(self, tx_id: u32) -> (AdminView, Reply) {
        if !self.history.contains_key(tx_id) {
            self.refuse(ErrorView::TxNotFound)
        } else if self.history[tx_id].flag == DisputeFlag::Clear {
            self.refuse(ErrorView::TxNotDisputed)
        } else if self.account.locked {
            self.stop()
        } else if self.history[tx_id].value() > self.account.held {
            self.refuse(ErrorView::DepositTooLow)
        } else {
            let target = self.history[tx_id];
            let account = self.account.debit_held(target.value()).with_lock(true);
            let history = self.history.insert(tx_id, target.flagged(DisputeFlag::ChargedBack));
            (AdminView { account, history }, Ok(account))
        }
    }

    /// One step of a worker: the state it moves to and what it answers. No
    /// message means that the queue was closed: the worker stops.
    pub open spec fn step(self, message: Option<TransactionView>) -> (AdminView, Reply) {
        match message {
            None => self.stop(),
            Some(tx) => match tx.ttype {
                Type::Deposit => self.deposit(tx),
                Type::Withdrawal => self.withdrawal(tx),
                Type::Dispute => self.dispute(tx.tx_id),
                Type::Resolve => self.resolve(tx.tx_id),
                Type::Chargeback => self.chargeback(tx.tx_id),
                Type::ERR => self.refuse(ErrorView::OperationNotSupported),
            },
        }
    }
}

impl AdminView {
    /// Whether the worker stops on the message: it answers with the account
    /// as it leaves it.
    pub open spec fn stops_on(self, message: Option<TransactionView>) -> bool {
        self.step(message).1 matches Err(ErrorView::Handle(_))
    }

    /// The state of a worker after it has taken the records one after
    /// another.
    pub open spec fn run(self, records: Seq<TransactionView>) -> AdminView
        decreases records.len(),
    {
        if records.len() == 0 {
            self
        } else {
            self.run(records.drop_last()).step(Some(records.last())).0
        }
    }

    /// Whether the worker has stopped by the time it has taken the records:
    /// one of them met the locked account, and the worker answered with the
    /// account as it leaves it.
    pub open spec fn stopped(self, records: Seq<TransactionView>) -> bool
        decreases records.len(),
    {
        if records.len() == 0 {
            false
        } else {
            self.stopped(records.drop_last()) || self.run(records.drop_last()).stops_on(
                Some(records.last()),
            )
        }
    }
}

/// The mathematical value of a message.
pub open spec fn message_view(message: Option<Transaction>) -> Option<TransactionView> {
    match message {
        Some(tx) => Some(tx@),
        None => None,
    }
}

/// The mathematical values of a queue of records.
pub open spec fn queue_view(queue: Seq<Transaction>) -> Seq<TransactionView> {
    queue.map_values(|tx: Transaction| tx@)
}

/// The mathematical value of an answer.
pub open spec fn reply_view(reply: Result<&Account, Error>) -> Reply {
    match reply {
        Ok(account) => Ok(account@),
        Err(error) => Err(error@),
    }
}

/// The value of an answer whose success shows the given account.
spec fn reply_with(reply: Result<(), Error>, account: Account) -> Reply {
    match reply {
        Ok(_) => Ok(account@),
        Err(error) => Err(error@),
    }
}

/// The worker of one client: the account, and the history of the client's
/// deposits and withdrawals. Every record in the history carries an amount.
pub struct AccountAdmin {
    account: Account,
    tx_history: HashMap<u32, Transaction>,
}

/// The value of a worker with the given account and history.
spec fn admin_view(account: Account, history: Map<u32, Transaction>) -> AdminView {
    AdminView { account: account@, history: history.map_values(|tx: Transaction| tx@) }
}

/// Whether every record of the history carries an amount.
spec fn carries_amounts(history: Map<u32, Transaction>) -> bool {
    forall|tx_id: u32| #[trigger]
        history.contains_key(tx_id) ==> history[tx_id]@.amount is Some
}

impl View for AccountAdmin {
    type V = AdminView;

    closed spec fn view(&self) -> AdminView {
        admin_view(self.account, self.tx_history@)
    }
}

/// The record that the history holds under `tx_id`, if any.
fn find(history: &HashMap<u32, Transaction>, tx_id: u32) -> (found: Option<Transaction>)
    ensures
        match found {
            Some(tx) => history@.contains_key(tx_id) && history@[tx_id] == tx,
            None => !history@.contains_key(tx_id),
        },
{
    broadcast use vstd::std_specs::hash::group_hash_axioms;

    match history.get(&tx_id) {
        Some(tx) => Some(*tx),
        None => None,
    }
}

/// Puts `tx` into the history under `tx_id`.
fn record(history: &mut HashMap<u32, Transaction>, tx_id: u32, tx: Transaction)
    ensures
        final(history)@ == old(history)@.insert(tx_id, tx),
        forall|account: Account|
            admin_view(account, final(history)@).history == admin_view(
                account,
                old(history)@,
            ).history.insert(tx_id, tx@),
{
    broadcast use vstd::std_specs::hash::group_hash_axioms;

    history.insert(tx_id, tx);
    assert forall|account: Account|
        admin_view(account, history@).history == admin_view(
            account,
            old(history)@,
        ).history.insert(tx_id, tx@) by {
        assert(admin_view(account, history@).history =~= admin_view(
            account,
            old(history)@,
        ).history.insert(tx_id, tx@));
    }
}

/// One step of a worker on its two parts.
fn apply(
    account: &mut Account,
    history: &mut HashMap<u32, Transaction>,
    message: Option<Transaction>,
) -> (reply: Result<(), Error>)
    requires
        carries_amounts(old(history)@),
        message matches Some(tx) ==> tx@.is_complete(),
    ensures
        carries_amounts(final(history)@),
        (admin_view(*final(account), final(history)@), reply_with(reply, *final(account)))
            == admin_view(*old(account), old(history)@).step(message_view(message)),
{
    proof {
        use_type_invariant(&*account);
    }
    let tx = match message {
        Some(tx) => tx,
        None => {
            return Err(Error::Handle(*account));
        },
    };
    let tx_id = tx.tx_id();
    match tx.transaction_type() {
        Type::Deposit => {
            if account.is_locked() {
                return Err(Error::Handle(*account));
            }
            let amount = tx.amount().unwrap();
            record(history, tx_id, tx);
            account.add_available(amount)?;
            Ok(())
        },
        Type::Withdrawal => {
            if account.is_locked() {
                return Err(Error::Handle(*account));
            }
            let amount = tx.amount().unwrap();
            record(history, tx_id, tx);
            account.sub_available(amount)?;
            Ok(())
        },
        Type::Dispute => {
            match find(history, tx_id) {
                None => Err(Error::TxNotFound),
                Some(to_be_disputed_tx) => {
                    let mut to_be_disputed_tx = to_be_disputed_tx;
                    if !to_be_disputed_tx.is_emtpy_flags() {
                        return Err(Error::TxAlreadyDisputed);
                    }
                    if account.is_locked() {
                        return Err(Error::Handle(*account));
                    }
                    let amount = to_be_disputed_tx.amount().unwrap();
                    account.sub_available(amount)?;
                    to_be_disputed_tx.mark_disputed();
                    record(history, tx_id, to_be_disputed_tx);
                    // The total is what it was before the debit: there is room.
                    account.add_held(amount)?;
                    Ok(())
                },
            }
        },
        Type::Resolve => {
            match find(history, tx_id) {
                None => Err(Error::TxNotFound),
                Some(disputed_tx) => {
                    let mut disputed_tx = disputed_tx;
                    if disputed_tx.is_emtpy_flags() {
                        return Err(Error::TxNotDisputed);
                    }
                    if account.is_locked() {
                        return Err(Error::Handle(*account));
                    }
                    let amount = disputed_tx.amount().unwrap();
                    account.sub_held(amount)?;
                    disputed_tx.mark_resolved();
                    record(history, tx_id, disputed_tx);
                    // The total is what it was before the debit: there is room.
                    account.add_available(amount)?;
                    Ok(())
                },
            }
        },
        Type::Chargeback => {
            match find(history, tx_id) {
                None => Err(Error::TxNotFound),
                Some(disputed_tx) => {
                    let mut disputed_tx = disputed_tx;
                    if disputed_tx.is_emtpy_flags() {
                        return Err(Error::TxNotDisputed);
                    }
                    if account.is_locked() {
                        return Err(Error::Handle(*account));
                    }
                    let amount = disputed_tx.amount().unwrap();
                    account.sub_held(amount)?;
                    account.set_locked(true);
                    disputed_tx.mark_charged_back();
                    record(history, tx_id, disputed_tx);
                    Ok(())
                },
            }
        },
        Type::ERR => Err(Error::OperationNotSupported),
    }
}

impl AccountAdmin {
    #[verifier::type_invariant]
    spec fn history_carries_amounts(self) -> bool {
        carries_amounts(self.tx_history@)
    }

    /// The worker of a new client: an empty, unlocked account and no history.
    pub fn new(id: u16) -> (admin: AccountAdmin)
        ensures
            admin@ == AdminView::fresh(id),
    {
        let admin = AccountAdmin {
            account: Account::new_unlocked(id, 0, 0),
            tx_history: HashMap::new(),
        };
        assert(admin@.history =~= Map::empty());
        admin
    }

    /// The client that the worker serves.
    pub fn id(&self) -> (id: u16)
        ensures
            id == self@.account.client_id,
    {
        self.account.client_id()
    }

    /// The account as it stands.
    pub fn account(&self) -> (account: &Account)
        ensures
            account@ == self@.account,
    {
        &self.account
    }

    /// The record that the history holds for the transaction, if any.
    pub fn transaction(&self, tx_id: u32) -> (found: Option<Transaction>)
        ensures
            match found {
                Some(tx) => self@.history.contains_key(tx_id) && self@.history[tx_id] == tx@,
                None => !self@.history.contains_key(tx_id),
            },
    {
        find(&self.tx_history, tx_id)
    }

    /// How many records the history holds.
    pub fn history_len(&self) -> (records: usize)
        ensures
            records == self@.history.len(),
    {
        broadcast use vstd::std_specs::hash::group_hash_axioms;

        assert(self@.history.dom() =~= self.tx_history@.dom());
        self.tx_history.len()
    }

    /// Replaces the account; the history stays.
    pub fn set_account(&mut self, account: Account)
        ensures
            final(self)@ == (AdminView { account: account@, history: old(self)@.history }),
    {
        proof {
            use_type_invariant(&*self);
        }
        self.account = account;
    }

    /// Puts a record into the history, under its own transaction, in place of
    /// the record that the history may hold for it. The account stays.
    pub fn insert_transaction(&mut self, tx: Transaction)
        requires
            tx@.amount is Some,
        ensures
            final(self)@ == (AdminView {
                account: old(self)@.account,
                history: old(self)@.history.insert(tx@.tx_id, tx@),
            }),
    {
        proof {
            use_type_invariant(&*self);
        }
        let mut history = HashMap::new();
        std::mem::swap(&mut history, &mut self.tx_history);
        record(&mut history, tx.tx_id(), tx);
        self.tx_history = history;
    }

    /// Takes one message from the queue: a record, or `None` for a closed
    /// queue. The worker moves as [`AdminView::step`] says, and answers with
    /// the account as it then stands, or with the reason why the record did
    /// not take effect. `Error::Handle` says that the worker has stopped, on a
    /// closed queue or on a record that met the locked account, and shows the
    /// account as the worker leaves it; after any other error the worker goes
    /// on. A deposit and a withdrawal come with their amount.
    pub fn handle(&mut self, message: Option<Transaction>) -> (reply: Result<&Account, Error>)
        requires
            message matches Some(tx) ==> tx@.is_complete(),
        ensures
            (final(self)@, reply_view(reply)) == old(self)@.step(message_view(message)),
    {
        proof {
            use_type_invariant(&*self);
        }
        let mut account = self.account;
        let mut history = HashMap::new();
        std::mem::swap(&mut history, &mut self.tx_history);
        let reply = apply(&mut account, &mut history, message);
        self.account = account;
        self.tx_history = history;
        match reply {
            Ok(_) => Ok(&self.account),
            Err(error) => Err(error),
        }
    }

    /// Takes one message as [`AccountAdmin::handle`] does, and tells whether
    /// the worker goes on. A worker that stops does so for one of two
    /// reasons: its queue was closed, or a record met its locked account.
    /// Whatever else a record fails on leaves the worker active.
    pub fn take(&mut self, message: Option<Transaction>) -> (outcome: Outcome)
        requires
            message matches Some(tx) ==> tx@.is_complete(),
        ensures
            final(self)@ == old(self)@.step(message_view(message)).0,
            match outcome {
                Outcome::Active => !old(self)@.stops_on(message_view(message)),
                Outcome::Terminated(reason, account) => old(self)@.stops_on(message_view(message))
                    && account@ == final(self)@.account && (reason == Reason::Closed
                    <==> message is None),
            },
    {
        let closed = message.is_none();
        match self.handle(message) {
            Err(Error::Handle(account)) => Outcome::Terminated(
                if closed {
                    Reason::Closed
                } else {
                    Reason::Locked
                },
                account,
            ),
            _ => Outcome::Active,
        }
    }

    /// Drains a queue that is then closed: the worker takes the records in
    /// their order until it stops, on a record that meets the locked account
    /// or at the end of the queue, and returns the account as it leaves it.
    /// The records behind the one that stops the worker are dropped; they
    /// would change nothing.
    pub fn drain(&mut self, queue: &Vec<Transaction>) -> (left: Account)
        requires
            forall|i: int| 0 <= i < queue.len() ==> (#[trigger] queue[i])@.is_complete(),
        ensures
            final(self)@ == old(self)@.run(queue_view(queue@)),
            left@ == final(self)@.account,
    {
        let ghost records = queue_view(queue@);
        let mut i: usize = 0;
        while i < queue.len()
            invariant
                i <= queue.len(),
                records == queue_view(queue@),
                forall|i: int| 0 <= i < queue.len() ==> (#[trigger] queue[i])@.is_complete(),
                self@ == old(self)@.run(records.take(i as int)),
            decreases queue.len() - i,
        {
            assert(records.take(i + 1).drop_last() == records.take(i as int));
            assert(records.take(i + 1).last() == queue[i as int]@);
            if let Outcome::Terminated(_, account) = self.take(Some(queue[i])) {
                proof {
                    lemma_run_in_two_parts(
                        old(self)@,
                        records.take(i + 1),
                        records.skip(i + 1),
                    );
                    lemma_locked_stays_final(self@, records.skip(i + 1));
                    assert(records.take(i + 1) + records.skip(i + 1) == records);
                }
                return account;
            }
            i += 1;
        }
        assert(records.take(i as int) == records);
        // The queue is closed: the worker stops and leaves its account.
        let _ = self.take(None);
        *self.account()
    }
}

} // verus!
