//! The ledger engine: client accounts and the history of standard
//! transactions, and the rules by which each transaction changes them.
//!
//! What a transaction does is stated over a mathematical model, [`Ledger`]:
//! `Ledger::process` gives the next state and the outcome, and
//! `PaymentsEngine::process_transaction` is proved to do exactly that.
//!
//! Two policy choices. An addition whose exact result leaves the range of
//! decimals is refused with `BalanceOverflow`, never saturated; within the
//! range a balance is exact where it fits in 96 bits, and otherwise rounded
//! to fewer digits as `rust_decimal` rounds it. And a deposit whose dispute
//! was resolved may be disputed again. Every balance update is computed
//! before anything is written, so a failed transaction leaves the ledger as
//! it found it, but for the account that was created for its client.

use crate::domain::{
    ClientId, Transaction, TransactionId, TransactionStatus, TransactionType,
};
use crate::money::{lemma_add_exact, lemma_units_bounded, Money, MAX_MANTISSA};
use std::collections::HashMap;
use vstd::prelude::*;

verus! {

broadcast use vstd::std_specs::hash::group_hash_axioms;

/// The balances of one client.
#[derive(Clone, Copy, Debug)]
pub struct ClientAccount {
    pub available_balance: Money,
    pub held_balance: Money,
    pub locked: bool,
}

impl ClientAccount {
    pub open spec fn wf(self) -> bool {
        self.available_balance.wf() && self.held_balance.wf()
    }

    /// The account a client gets on first reference: zero balances, unlocked.
    pub open spec fn fresh() -> ClientAccount {
        ClientAccount {
            available_balance: Money { mantissa: 0, scale: 0 },
            held_balance: Money { mantissa: 0, scale: 0 },
            locked: false,
        }
    }

    /// Available plus held, exactly, in units of 10^-28.
    pub open spec fn total_units(self) -> int {
        self.available_balance.units() + self.held_balance.units()
    }

    /// Available plus held: exact where it can be held exactly, rounded as
    /// `rust_decimal` rounds otherwise, and the largest value where the sum
    /// leaves the range.
    pub open spec fn total_spec(self) -> Money {
        match Money::add_result(self.available_balance, self.held_balance) {
            Some(t) => t,
            None => Money { mantissa: MAX_MANTISSA, scale: 0 },
        }
    }

    /// Available plus held: exact where it can be held exactly, rounded as
    /// `rust_decimal` rounds otherwise, and the largest value where the sum
    /// leaves the range.
    pub fn total(&self) -> (r: Money)
        requires
            self.wf(),
        ensures
            r == self.total_spec(),
            r.wf(),
            Money::in_range_units(self.total_units()) ==> r == Money::add_value(
                self.available_balance,
                self.held_balance,
            ),
            Money::add_is_exact(self.available_balance, self.held_balance) ==> r.units()
                == self.total_units(),
    {
        proof {
            if Money::add_is_exact(self.available_balance, self.held_balance) {
                lemma_add_exact(self.available_balance, self.held_balance);
                lemma_units_bounded(
                    Money::exact_add(self.available_balance, self.held_balance),
                );
            }
        }
        match self.available_balance.checked_add(self.held_balance) {
            Some(t) => t,
            None => Money::max_value(),
        }
    }
}

impl Default for ClientAccount {
    fn default() -> (r: ClientAccount)
        ensures
            r == ClientAccount::fresh(),
    {
        ClientAccount {
            available_balance: Money::zero(),
            held_balance: Money::zero(),
            locked: false,
        }
    }
}

/// Why a transaction was not applied.
#[derive(Clone, Copy, Debug, PartialEq, Eq, Structural)]
pub enum ProcessingError {
    MissingAmount,
    InsufficientFunds,
    BalanceOverflow,
    AccountLocked,
    TransactionNotFound,
    InvalidTransactionStatus,
    InvalidDispute,
}

/// The state of an engine: the accounts by client id and the recorded
/// standard transactions by transaction id.
pub struct Ledger {
    pub accounts: Map<u16, ClientAccount>,
    pub history: Map<u32, Transaction>,
}

impl Ledger {
    /// No accounts and no history.
    pub open spec fn empty() -> Ledger {
        Ledger { accounts: Map::empty(), history: Map::empty() }
    }

    /// Every balance is a valid decimal, and every history entry is a standard
    /// transaction, recorded under its own id, with a valid amount and a
    /// status past `Pending`.
    pub open spec fn wf(self) -> bool {
        &&& forall|c: u16| self.accounts.contains_key(c) ==> (#[trigger] self.accounts[c]).wf()
        &&& forall|id: u32|
            self.history.contains_key(id) ==> Ledger::entry_wf(id, #[trigger] self.history[id])
    }

    pub open spec fn entry_wf(id: u32, t: Transaction) -> bool {
        &&& t.tx.0 == id
        &&& t.tx_type.is_standard()
        &&& t.amount is Some
        &&& t.amount->0.wf()
        &&& !(t.tx_status is Pending)
    }

    /// The ledger with an account for client `c`, created fresh if it had none.
    pub open spec fn with_account(self, c: u16) -> Ledger {
        if self.accounts.contains_key(c) {
            self
        } else {
            Ledger { accounts: self.accounts.insert(c, ClientAccount::fresh()), history: self.history }
        }
    }

    /// The ledger with the account of client `c` replaced by `a`.
    pub open spec fn set_account(self, c: u16, a: ClientAccount) -> Ledger {
        Ledger { accounts: self.accounts.insert(c, a), history: self.history }
    }

    /// The ledger with `t` recorded under the id `id`.
    pub open spec fn record(self, id: u32, t: Transaction) -> Ledger {
        Ledger { accounts: self.accounts, history: self.history.insert(id, t) }
    }

    /// The recorded transaction that a referential transaction `t` names: the
    /// entry under its id, provided it belongs to the same client.
    pub open spec fn find(self, t: Transaction) -> Option<Transaction> {
        if self.history.contains_key(t.tx.0) && self.history[t.tx.0].client == t.client {
            Some(self.history[t.tx.0])
        } else {
            None
        }
    }

    /// The next state and the outcome of processing `t`: the client's account
    /// is created if need be; a locked account refuses everything; a standard
    /// transaction whose id is already recorded is a no-op; otherwise the
    /// transition of `t`'s type applies.
    pub open spec fn process(self, t: Transaction) -> (Ledger, Result<(), ProcessingError>) {
        let s = self.with_account(t.client.0);
        if s.accounts[t.client.0].locked {
            (s, Err(ProcessingError::AccountLocked))
        } else if t.tx_type.is_standard() && s.history.contains_key(t.tx.0) {
            (s, Ok(()))
        } else {
            match t.tx_type {
                TransactionType::Deposit => s.deposit(t),
                TransactionType::Withdrawal => s.withdrawal(t),
                TransactionType::Dispute => s.dispute(t),
                TransactionType::Resolve => s.resolve(t),
                TransactionType::Chargeback => s.chargeback(t),
            }
        }
    }

    /// A deposit adds its amount to the available balance and is recorded as
    /// settled.
    pub open spec fn deposit(self, t: Transaction) -> (Ledger, Result<(), ProcessingError>) {
        let c = t.client.0;
        let acct = self.accounts[c];
        match t.amount {
            None => (self, Err(ProcessingError::MissingAmount)),
            Some(a) => match Money::add_result(acct.available_balance, a.money()) {
                None => (self, Err(ProcessingError::BalanceOverflow)),
                Some(v) => (
                    self.set_account(
                        c,
                        ClientAccount {
                            available_balance: v,
                            held_balance: acct.held_balance,
                            locked: acct.locked,
                        },
                    ).record(t.tx.0, Ledger::with_status(t, TransactionStatus::Settled)),
                    Ok(()),
                ),
            },
        }
    }

    /// A withdrawal takes its amount from the available balance, which must
    /// hold it, and is recorded as settled.
    pub open spec fn withdrawal(self, t: Transaction) -> (Ledger, Result<(), ProcessingError>) {
        let c = t.client.0;
        let acct = self.accounts[c];
        match t.amount {
            None => (self, Err(ProcessingError::MissingAmount)),
            Some(a) => if acct.available_balance.units() < a.money().units() {
                (self, Err(ProcessingError::InsufficientFunds))
            } else {
                match Money::sub_result(acct.available_balance, a.money()) {
                    None => (self, Err(ProcessingError::BalanceOverflow)),
                    Some(v) => (
                        self.set_account(
                            c,
                            ClientAccount {
                                available_balance: v,
                                held_balance: acct.held_balance,
                                locked: acct.locked,
                            },
                        ).record(t.tx.0, Ledger::with_status(t, TransactionStatus::Settled)),
                        Ok(()),
                    ),
                }
            },
        }
    }

    /// A dispute moves the amount of a settled or resolved deposit of the same
    /// client from available to held, and marks the deposit disputed.
    pub open spec fn dispute(self, t: Transaction) -> (Ledger, Result<(), ProcessingError>) {
        let c = t.client.0;
        let acct = self.accounts[c];
        match self.find(t) {
            None => (self, Err(ProcessingError::TransactionNotFound)),
            Some(o) => if !(o.tx_type is Deposit) {
                (self, Err(ProcessingError::InvalidDispute))
            } else if !(o.tx_status is Settled || o.tx_status is Resolved) {
                (self, Err(ProcessingError::InvalidDispute))
            } else {
                match o.amount {
                    None => (self, Err(ProcessingError::MissingAmount)),
                    Some(a) => if acct.available_balance.units() < a.money().units() {
                        (self, Err(ProcessingError::InsufficientFunds))
                    } else {
                        match (
                            Money::add_result(acct.held_balance, a.money()),
                            Money::sub_result(acct.available_balance, a.money()),
                        ) {
                            (Some(h), Some(v)) => (
                                self.set_account(
                                    c,
                                    ClientAccount {
                                        available_balance: v,
                                        held_balance: h,
                                        locked: acct.locked,
                                    },
                                ).record(
                                    t.tx.0,
                                    Ledger::with_status(o, TransactionStatus::Disputed),
                                ),
                                Ok(()),
                            ),
                            _ => (self, Err(ProcessingError::BalanceOverflow)),
                        }
                    },
                }
            },
        }
    }

    /// A resolve moves the amount of a disputed deposit of the same client
    /// from held back to available, and marks the deposit resolved.
    pub open spec fn resolve(self, t: Transaction) -> (Ledger, Result<(), ProcessingError>) {
        let c = t.client.0;
        let acct = self.accounts[c];
        match self.find(t) {
            None => (self, Err(ProcessingError::TransactionNotFound)),
            Some(o) => if !(o.tx_status is Disputed) {
                (self, Err(ProcessingError::InvalidTransactionStatus))
            } else {
                match o.amount {
                    None => (self, Err(ProcessingError::MissingAmount)),
                    Some(a) => match (
                        Money::add_result(acct.available_balance, a.money()),
                        Money::sub_result(acct.held_balance, a.money()),
                    ) {
                        (Some(v), Some(h)) => (
                            self.set_account(
                                c,
                                ClientAccount {
                                    available_balance: v,
                                    held_balance: h,
                                    locked: acct.locked,
                                },
                            ).record(t.tx.0, Ledger::with_status(o, TransactionStatus::Resolved)),
                            Ok(()),
                        ),
                        _ => (self, Err(ProcessingError::BalanceOverflow)),
                    },
                }
            },
        }
    }

    /// A chargeback takes the amount of a disputed deposit of the same client
    /// out of held, locks the account for good, and marks the deposit charged
    /// back.
    pub open spec fn chargeback(self, t: Transaction) -> (Ledger, Result<(), ProcessingError>) {
        let c = t.client.0;
        let acct = self.accounts[c];
        match self.find(t) {
            None => (self, Err(ProcessingError::TransactionNotFound)),
            Some(o) => if !(o.tx_status is Disputed) {
                (self, Err(ProcessingError::InvalidTransactionStatus))
            } else {
                match o.amount {
                    None => (self, Err(ProcessingError::MissingAmount)),
                    Some(a) => match Money::sub_result(acct.held_balance, a.money()) {
                        Some(h) => (
                            self.set_account(
                                c,
                                ClientAccount {
                                    available_balance: acct.available_balance,
                                    held_balance: h,
                                    locked: true,
                                },
                            ).record(
                                t.tx.0,
                                Ledger::with_status(o, TransactionStatus::ChargedBack),
                            ),
                            Ok(()),
                        ),
                        None => (self, Err(ProcessingError::BalanceOverflow)),
                    },
                }
            },
        }
    }

    /// `t` with its status replaced by `st`.
    pub open spec fn with_status(t: Transaction, st: TransactionStatus) -> Transaction {
        Transaction {
            tx_type: t.tx_type,
            client: t.client,
            tx: t.tx,
            amount: t.amount,
            tx_status: st,
        }
    }

    /// The state after processing `ts` in order.
    pub open spec fn run(self, ts: Seq<Transaction>) -> Ledger
        decreases ts.len(),
    {
        if ts.len() == 0 {
            self
        } else {
            self.run(ts.drop_last()).process(ts.last()).0
        }
    }

    /// The outcomes of processing `ts` in order, one for each transaction.
    pub open spec fn outcomes(self, ts: Seq<Transaction>) -> Seq<Result<(), ProcessingError>>
        decreases ts.len(),
    {
        if ts.len() == 0 {
            Seq::empty()
        } else {
            self.outcomes(ts.drop_last()).push(self.run(ts.drop_last()).process(ts.last()).1)
        }
    }
}

/// The ledger engine. Accounts are keyed by client id and the history by
/// transaction id; both only grow.
pub struct PaymentsEngine {
    clients: HashMap<u16, ClientAccount>,
    transaction_history: HashMap<u32, Transaction>,
}

impl View for PaymentsEngine {
    type V = Ledger;

    closed spec fn view(&self) -> Ledger {
        Ledger { accounts: self.clients@, history: self.transaction_history@ }
    }
}

impl Default for PaymentsEngine {
    fn default() -> (r: PaymentsEngine)
        ensures
            r@ == Ledger::empty(),
            r.wf(),
    {
        PaymentsEngine::new()
    }
}

impl PaymentsEngine {
    pub open spec fn wf(&self) -> bool {
        self@.wf()
    }

    /// An engine with no accounts and no history.
    pub fn new() -> (r: PaymentsEngine)
        ensures
            r@ == Ledger::empty(),
            r.wf(),
    {
        let r = PaymentsEngine { clients: HashMap::new(), transaction_history: HashMap::new() };
        proof {
            assert(r@.accounts =~= Map::empty());
            assert(r@.history =~= Map::empty());
        }
        r
    }

    /// Applies `transaction`; the new state and the outcome are those that
    /// `Ledger::process` gives. On an error nothing changes but the lazily
    /// created account.
    pub fn process_transaction(&mut self, transaction: Transaction) -> (r: Result<
        (),
        ProcessingError,
    >)
        requires
            old(self).wf(),
        ensures
            final(self).wf(),
            (final(self)@, r) == old(self)@.process(transaction),
            r is Err ==> final(self)@ == old(self)@.with_account(transaction.client.0),
    {
        let c = transaction.client.value();
        let account = match self.clients.get(&c) {
            Some(a) => *a,
            None => {
                let a = ClientAccount::default();
                self.clients.insert(c, a);
                a
            },
        };
        proof {
            assert(self@ == old(self)@.with_account(c));
        }
        if account.locked {
            return Err(ProcessingError::AccountLocked);
        }
        if transaction.tx_type.is_standard_transaction() && self.transaction_history.contains_key(
            &transaction.tx.value(),
        ) {
            return Ok(());
        }
        let r = match transaction.tx_type {
            TransactionType::Deposit => self.process_deposit(transaction, account),
            TransactionType::Withdrawal => self.process_withdrawal(transaction, account),
            TransactionType::Dispute => self.process_dispute(transaction, account),
            TransactionType::Resolve => self.process_resolve(transaction, account),
            TransactionType::Chargeback => self.process_chargeback(transaction, account),
        };
        r
    }

    fn process_deposit(&mut self, transaction: Transaction, account: ClientAccount) -> (r: Result<
        (),
        ProcessingError,
    >)
        requires
            old(self)@.wf(),
            transaction.tx_type is Deposit,
            old(self)@.accounts.contains_key(transaction.client.0),
            old(self)@.accounts[transaction.client.0] == account,
        ensures
            final(self)@.wf(),
            (final(self)@, r) == old(self)@.deposit(transaction),
    {
        let amount = match transaction.amount {
            Some(a) => a.value(),
            None => return Err(ProcessingError::MissingAmount),
        };
        let available = match account.available_balance.checked_add(amount) {
            Some(v) => v,
            None => return Err(ProcessingError::BalanceOverflow),
        };
        let updated = ClientAccount {
            available_balance: available,
            held_balance: account.held_balance,
            locked: account.locked,
        };
        self.clients.insert(transaction.client.value(), updated);
        let settled = Transaction {
            tx_type: transaction.tx_type,
            client: transaction.client,
            tx: transaction.tx,
            amount: transaction.amount,
            tx_status: TransactionStatus::Settled,
        };
        self.transaction_history.insert(transaction.tx.value(), settled);
        proof {
            assert(self@.accounts =~= old(self)@.deposit(transaction).0.accounts);
            assert(self@.history =~= old(self)@.deposit(transaction).0.history);
        }
        Ok(())
    }

    fn process_withdrawal(&mut self, transaction: Transaction, account: ClientAccount) -> (r:
        Result<(), ProcessingError>)
        requires
            old(self)@.wf(),
            transaction.tx_type is Withdrawal,
            old(self)@.accounts.contains_key(transaction.client.0),
            old(self)@.accounts[transaction.client.0] == account,
        ensures
            final(self)@.wf(),
            (final(self)@, r) == old(self)@.withdrawal(transaction),
    {
        let amount = match transaction.amount {
            Some(a) => a.value(),
            None => return Err(ProcessingError::MissingAmount),
        };
        if account.available_balance.less_than(&amount) {
            return Err(ProcessingError::InsufficientFunds);
        }
        let available = match account.available_balance.checked_sub(amount) {
            Some(v) => v,
            None => return Err(ProcessingError::BalanceOverflow),
        };
        let updated = ClientAccount {
            available_balance: available,
            held_balance: account.held_balance,
            locked: account.locked,
        };
        self.clients.insert(transaction.client.value(), updated);
        let settled = Transaction {
            tx_type: transaction.tx_type,
            client: transaction.client,
            tx: transaction.tx,
            amount: transaction.amount,
            tx_status: TransactionStatus::Settled,
        };
        self.transaction_history.insert(transaction.tx.value(), settled);
        proof {
            assert(self@.accounts =~= old(self)@.withdrawal(transaction).0.accounts);
            assert(self@.history =~= old(self)@.withdrawal(transaction).0.history);
        }
        Ok(())
    }

    /// The recorded transaction that `transaction` refers to, if it belongs to
    /// the same client; a mismatch looks the same as a missing entry.
    fn find_referenced(&self, transaction: &Transaction) -> (r: Result<
        Transaction,
        ProcessingError,
    >)
        requires
            self@.wf(),
        ensures
            match self@.find(*transaction) {
                Some(o) => r == Ok::<Transaction, ProcessingError>(o),
                None => r == Err::<Transaction, ProcessingError>(
                    ProcessingError::TransactionNotFound,
                ),
            },
    {
        match self.transaction_history.get(&transaction.tx.value()) {
            Some(o) => {
                if o.client == transaction.client {
                    Ok(*o)
                } else {
                    Err(ProcessingError::TransactionNotFound)
                }
            },
            None => Err(ProcessingError::TransactionNotFound),
        }
    }

    fn process_dispute(&mut self, transaction: Transaction, account: ClientAccount) -> (r: Result<
        (),
        ProcessingError,
    >)
        requires
            old(self)@.wf(),
            old(self)@.accounts.contains_key(transaction.client.0),
            old(self)@.accounts[transaction.client.0] == account,
        ensures
            final(self)@.wf(),
            (final(self)@, r) == old(self)@.dispute(transaction),
    {
        let referenced = self.find_referenced(&transaction)?;
        if !matches!(referenced.tx_type, TransactionType::Deposit) {
            return Err(ProcessingError::InvalidDispute);
        }
        if !matches!(referenced.tx_status, TransactionStatus::Settled | TransactionStatus::Resolved) {
            return Err(ProcessingError::InvalidDispute);
        }
        let amount = match referenced.amount {
            Some(a) => a.value(),
            None => return Err(ProcessingError::MissingAmount),
        };
        if account.available_balance.less_than(&amount) {
            return Err(ProcessingError::InsufficientFunds);
        }
        let held = match account.held_balance.checked_add(amount) {
            Some(h) => h,
            None => return Err(ProcessingError::BalanceOverflow),
        };
        let available = match account.available_balance.checked_sub(amount) {
            Some(v) => v,
            None => return Err(ProcessingError::BalanceOverflow),
        };
        let updated = ClientAccount {
            available_balance: available,
            held_balance: held,
            locked: account.locked,
        };
        self.clients.insert(transaction.client.value(), updated);
        let disputed = Transaction {
            tx_type: referenced.tx_type,
            client: referenced.client,
            tx: referenced.tx,
            amount: referenced.amount,
            tx_status: TransactionStatus::Disputed,
        };
        self.transaction_history.insert(transaction.tx.value(), disputed);
        proof {
            assert(self@.accounts =~= old(self)@.dispute(transaction).0.accounts);
            assert(self@.history =~= old(self)@.dispute(transaction).0.history);
        }
        Ok(())
    }

    fn process_resolve(&mut self, transaction: Transaction, account: ClientAccount) -> (r: Result<
        (),
        ProcessingError,
    >)
        requires
            old(self)@.wf(),
            old(self)@.accounts.contains_key(transaction.client.0),
            old(self)@.accounts[transaction.client.0] == account,
        ensures
            final(self)@.wf(),
            (final(self)@, r) == old(self)@.resolve(transaction),
    {
        let referenced = self.find_referenced(&transaction)?;
        if !matches!(referenced.tx_status, TransactionStatus::Disputed) {
            return Err(ProcessingError::InvalidTransactionStatus);
        }
        let amount = match referenced.amount {
            Some(a) => a.value(),
            None => return Err(ProcessingError::MissingAmount),
        };
        let available = match account.available_balance.checked_add(amount) {
            Some(v) => v,
            None => return Err(ProcessingError::BalanceOverflow),
        };
        let held = match account.held_balance.checked_sub(amount) {
            Some(h) => h,
            None => return Err(ProcessingError::BalanceOverflow),
        };
        let updated = ClientAccount {
            available_balance: available,
            held_balance: held,
            locked: account.locked,
        };
        self.clients.insert(transaction.client.value(), updated);
        let resolved = Transaction {
            tx_type: referenced.tx_type,
            client: referenced.client,
            tx: referenced.tx,
            amount: referenced.amount,
            tx_status: TransactionStatus::Resolved,
        };
        self.transaction_history.insert(transaction.tx.value(), resolved);
        proof {
            assert(self@.accounts =~= old(self)@.resolve(transaction).0.accounts);
            assert(self@.history =~= old(self)@.resolve(transaction).0.history);
        }
        Ok(())
    }

    fn process_chargeback(&mut self, transaction: Transaction, account: ClientAccount) -> (r:
        Result<(), ProcessingError>)
        requires
            old(self)@.wf(),
            old(self)@.accounts.contains_key(transaction.client.0),
            old(self)@.accounts[transaction.client.0] == account,
        ensures
            final(self)@.wf(),
            (final(self)@, r) == old(self)@.chargeback(transaction),
    {
        let referenced = self.find_referenced(&transaction)?;
        if !matches!(referenced.tx_status, TransactionStatus::Disputed) {
            return Err(ProcessingError::InvalidTransactionStatus);
        }
        let amount = match referenced.amount {
            Some(a) => a.value(),
            None => return Err(ProcessingError::MissingAmount),
        };
        let held = match account.held_balance.checked_sub(amount) {
            Some(h) => h,
            None => return Err(ProcessingError::BalanceOverflow),
        };
        let updated = ClientAccount {
            available_balance: account.available_balance,
            held_balance: held,
            locked: true,
        };
        self.clients.insert(transaction.client.value(), updated);
        let charged_back = Transaction {
            tx_type: referenced.tx_type,
            client: referenced.client,
            tx: referenced.tx,
            amount: referenced.amount,
            tx_status: TransactionStatus::ChargedBack,
        };
        self.transaction_history.insert(transaction.tx.value(), charged_back);
        proof {
            assert(self@.accounts =~= old(self)@.chargeback(transaction).0.accounts);
            assert(self@.history =~= old(self)@.chargeback(transaction).0.history);
        }
        Ok(())
    }

    /// Read-only access to the accounts, by client id.
    pub fn client_accounts(&self) -> (r: &HashMap<u16, ClientAccount>)
        ensures
            r@ == self@.accounts,
    {
        &self.clients
    }

    /// Read-only access to the recorded transactions, by transaction id.
    pub fn transaction_history(&self) -> (r: &HashMap<u32, Transaction>)
        ensures
            r@ == self@.history,
    {
        &self.transaction_history
    }

    /// Locks the account of `client_id`, if it has one; nothing else changes.
    pub fn lock_account(&mut self, client_id: ClientId)
        requires
            old(self).wf(),
        ensures
            final(self).wf(),
            final(self)@.history == old(self)@.history,
            old(self)@.accounts.contains_key(client_id.0) ==> final(self)@.accounts == old(
                self,
            )@.accounts.insert(
                client_id.0,
                ClientAccount {
                    available_balance: old(self)@.accounts[client_id.0].available_balance,
                    held_balance: old(self)@.accounts[client_id.0].held_balance,
                    locked: true,
                },
            ),
            !old(self)@.accounts.contains_key(client_id.0) ==> final(self)@ == old(self)@,
    {
        let c = client_id.value();
        match self.clients.get(&c) {
            Some(a) => {
                let locked = ClientAccount {
                    available_balance: a.available_balance,
                    held_balance: a.held_balance,
                    locked: true,
                };
                self.clients.insert(c, locked);
                proof {
                    assert(old(self)@.accounts[c].wf());
                    assert(self@.history == old(self)@.history);
                    assert forall|k: u16| #[trigger]
                        self@.accounts.contains_key(k) implies self@.accounts[k].wf() by {
                        if k != c {
                            assert(old(self)@.accounts.contains_key(k));
                        }
                    }
                }
            },
            None => {},
        }
    }

    /// Applies `transactions` in order and gives the outcome of each.
    pub fn process_transactions(&mut self, transactions: Vec<Transaction>) -> (r: Vec<
        Result<(), ProcessingError>,
    >)
        requires
            old(self).wf(),
        ensures
            final(self).wf(),
            final(self)@ == old(self)@.run(transactions@),
            r@ == old(self)@.outcomes(transactions@),
    {
        let mut outcomes: Vec<Result<(), ProcessingError>> = Vec::new();
        let mut i: usize = 0;
        while i < transactions.len()
            invariant
                self.wf(),
                i <= transactions@.len(),
                self@ == old(self)@.run(transactions@.take(i as int)),
                outcomes@ == old(self)@.outcomes(transactions@.take(i as int)),
            decreases transactions@.len() - i,
        {
            proof {
                assert(transactions@.take(i as int + 1).drop_last() =~= transactions@.take(i as int));
            }
            let outcome = self.process_transaction(transactions[i]);
            outcomes.push(outcome);
            i = i + 1;
        }
        proof {
            assert(transactions@.take(i as int) =~= transactions@);
        }
        outcomes
    }
}

} // verus!
