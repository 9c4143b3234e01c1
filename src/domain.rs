//! The values a transaction is made of: client and transaction identifiers,
//! the transaction's type and status, and the strictly positive amount.

use crate::engine::ClientAccount;
use crate::money::{lemma_units_sign, Money};
use vstd::prelude::*;

verus! {

/// The identifier of a client account.
#[derive(Clone, Copy, Debug, PartialEq, Eq, Hash, Structural)]
pub struct ClientId(pub u16);

impl ClientId {
    pub fn new(val: u16) -> (r: Self)
        ensures
            r.0 == val,
    {
        ClientId(val)
    }

    pub fn value(&self) -> (r: u16)
        ensures
            r == self.0,
    {
        self.0
    }
}

/// The identifier of a transaction.
#[derive(Clone, Copy, Debug, PartialEq, Eq, Hash, Structural)]
pub struct TransactionId(pub u32);

impl TransactionId {
    pub fn new(val: u32) -> (r: Self)
        ensures
            r.0 == val,
    {
        TransactionId(val)
    }

    pub fn value(&self) -> (r: u32)
        ensures
            r == self.0,
    {
        self.0
    }
}

/// What a transaction does. Deposits and withdrawals carry an amount of their
/// own; disputes, resolves and chargebacks act on an earlier deposit.
#[derive(Clone, Copy, Debug, PartialEq, Eq, Structural)]
pub enum TransactionType {
    Deposit,
    Withdrawal,
    Dispute,
    Resolve,
    Chargeback,
}

impl TransactionType {
    /// Deposits and withdrawals are the standard transactions.
    pub open spec fn is_standard(self) -> bool {
        self is Deposit || self is Withdrawal
    }

    pub fn is_standard_transaction(&self) -> (r: bool)
        ensures
            r == self.is_standard(),
    {
        match self {
            TransactionType::Deposit | TransactionType::Withdrawal => true,
            _ => false,
        }
    }
}

/// Where a standard transaction stands in its lifecycle.
#[derive(Clone, Copy, Debug, PartialEq, Eq, Structural)]
pub enum TransactionStatus {
    Pending,
    Settled,
    Disputed,
    Resolved,
    ChargedBack,
}

/// A strictly positive quantity of money.
#[derive(Clone, Copy, Debug)]
pub struct Amount(Money);

/// Why a value is no amount.
#[derive(Clone, Copy, Debug)]
pub enum AmountError {
    NonPositiveAmount(Money),
}

impl Amount {
    #[verifier::type_invariant]
    spec fn positive(self) -> bool {
        self.0.wf() && self.0.mantissa > 0
    }

    /// The quantity held.
    pub closed spec fn money(self) -> Money {
        self.0
    }

    /// A valid value above zero, as every amount is.
    pub open spec fn wf(self) -> bool {
        self.money().wf() && self.money().units() > 0
    }

    /// An amount of `val`, which must be above zero.
    pub fn new(val: Money) -> (r: Result<Amount, AmountError>)
        requires
            val.wf(),
        ensures
            val.units() > 0 ==> (r matches Ok(a) && a.money() == val),
            val.units() <= 0 ==> (r matches Err(AmountError::NonPositiveAmount(v)) && v == val),
    {
        proof {
            lemma_units_sign(val);
        }
        if val.mantissa > 0 {
            Ok(Amount(val))
        } else {
            Err(AmountError::NonPositiveAmount(val))
        }
    }

    /// The quantity held: a valid value above zero.
    pub fn value(&self) -> (r: Money)
        ensures
            r == self.money(),
            r.wf(),
            r.units() > 0,
            self.wf(),
    {
        proof {
            use_type_invariant(self);
            lemma_units_sign(self.0);
        }
        self.0
    }
}

/// A transaction as it arrives, before the engine has seen it.
#[derive(Clone, Copy, Debug)]
pub struct TransactionRow {
    pub tx_type: TransactionType,
    pub client: ClientId,
    pub tx: TransactionId,
    pub amount: Option<Amount>,
}

/// A transaction, as the engine records it in its history.
#[derive(Clone, Copy, Debug)]
pub struct Transaction {
    pub tx_type: TransactionType,
    pub client: ClientId,
    pub tx: TransactionId,
    pub amount: Option<Amount>,
    pub tx_status: TransactionStatus,
}

impl From<TransactionRow> for Transaction {
    /// The row's fields, with the status `Pending`.
    fn from(value: TransactionRow) -> (r: Transaction) {
        Transaction {
            tx_type: value.tx_type,
            client: value.client,
            tx: value.tx,
            amount: value.amount,
            tx_status: TransactionStatus::Pending,
        }
    }
}

impl vstd::std_specs::convert::FromSpecImpl<TransactionRow> for Transaction {
    open spec fn obeys_from_spec() -> bool {
        true
    }

    open spec fn from_spec(v: TransactionRow) -> Transaction {
        Transaction {
            tx_type: v.tx_type,
            client: v.client,
            tx: v.tx,
            amount: v.amount,
            tx_status: TransactionStatus::Pending,
        }
    }
}

/// One row of the account report: a client's balances, their total, and
/// whether the account is locked.
#[derive(Clone, Copy, Debug)]
pub struct ClientAccountOutput {
    pub client: ClientId,
    pub available: Money,
    pub held: Money,
    pub total: Money,
    pub locked: bool,
}

impl ClientAccountOutput {
    /// The report row of `client_account`, which belongs to `client_id`.
    pub fn new(client_id: ClientId, client_account: &ClientAccount) -> (r: ClientAccountOutput)
        requires
            client_account.wf(),
        ensures
            r.client == client_id,
            r.available == client_account.available_balance,
            r.held == client_account.held_balance,
            r.total == client_account.total_spec(),
            r.locked == client_account.locked,
    {
        ClientAccountOutput {
            client: client_id,
            available: client_account.available_balance,
            held: client_account.held_balance,
            total: client_account.total(),
            locked: client_account.locked,
        }
    }
}

} // verus!
