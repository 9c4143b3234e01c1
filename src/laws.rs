//! What holds of every ledger and every sequence of transactions, proved over
//! the model that `PaymentsEngine::process_transaction` is proved to follow.

use crate::domain::{Amount, ClientId, Transaction, TransactionId, TransactionStatus, TransactionType};
use crate::engine::{ClientAccount, Ledger, ProcessingError};
use crate::money::{
    lemma_add_exact, lemma_aligned_units, lemma_beyond_range_not_exact, lemma_units_bounded, lemma_pow10_positive, lemma_sub_exact, lemma_units_sign,
    pow10, Money, MAX_SCALE,
};
use vstd::prelude::*;
use vstd::set::fold::{is_fun_commutative, lemma_fold_empty, lemma_fold_insert};

verus! {

/// A transaction of type `ty` for client `c` under id `id`, with `amount`.
pub open spec fn transaction_of(
    ty: TransactionType,
    c: ClientId,
    id: TransactionId,
    amount: Option<Amount>,
) -> Transaction {
    Transaction { tx_type: ty, client: c, tx: id, amount, tx_status: TransactionStatus::Pending }
}

/// Processing works on the ledger with the client's account in place, so it
/// gives the same whether or not that account was there before.
pub proof fn lemma_process_after_account(s: Ledger, t: Transaction)
    ensures
        s.with_account(t.client.0).process(t) == s.process(t),
{
}

/// A transaction addressed to a locked account fails with `AccountLocked` and
/// leaves the ledger as it was.
pub proof fn lemma_locked_account_refuses(s: Ledger, t: Transaction)
    requires
        s.accounts.contains_key(t.client.0),
        s.accounts[t.client.0].locked,
    ensures
        s.process(t) == (s, Err::<(), ProcessingError>(ProcessingError::AccountLocked)),
{
}

/// A transaction changes no account but that of its own client.
pub proof fn lemma_other_accounts_untouched(s: Ledger, t: Transaction, c: u16)
    requires
        t.client.0 != c,
    ensures
        s.process(t).0.accounts.contains_key(c) == s.accounts.contains_key(c),
        s.accounts.contains_key(c) ==> s.process(t).0.accounts[c] == s.accounts[c],
{
}

/// Once an account is locked it stays exactly as it is, whatever follows, and
/// every later transaction addressed to it fails with `AccountLocked`.
pub proof fn lemma_lock_is_permanent(s: Ledger, ts: Seq<Transaction>, c: u16)
    requires
        s.accounts.contains_key(c),
        s.accounts[c].locked,
    ensures
        s.run(ts).accounts.contains_key(c),
        s.run(ts).accounts[c] == s.accounts[c],
        s.outcomes(ts).len() == ts.len(),
        forall|i: int|
            0 <= i < ts.len() && ts[i].client.0 == c ==> s.outcomes(ts)[i] == Err::<
                (),
                ProcessingError,
            >(ProcessingError::AccountLocked),
    decreases ts.len(),
{
    if ts.len() > 0 {
        let init = ts.drop_last();
        let t = ts.last();
        lemma_lock_is_permanent(s, init, c);
        let m = s.run(init);
        if t.client.0 == c {
            lemma_locked_account_refuses(m, t);
        } else {
            lemma_other_accounts_untouched(m, t, c);
        }
        assert forall|i: int|
            0 <= i < ts.len() && ts[i].client.0 == c implies s.outcomes(ts)[i] == Err::<
                (),
                ProcessingError,
            >(ProcessingError::AccountLocked) by {
            if i < ts.len() - 1 {
                assert(init[i] == ts[i]);
            }
        }
    }
}

/// Replaying a deposit or withdrawal whose id is already recorded, for a client
/// that has an account, leaves every balance and the history as they were.
pub proof fn lemma_replay_is_noop(s: Ledger, t: Transaction)
    requires
        t.tx_type.is_standard(),
        s.history.contains_key(t.tx.0),
        s.accounts.contains_key(t.client.0),
    ensures
        s.process(t).0 == s,
        s.process(t).1 == if s.accounts[t.client.0].locked {
            Err::<(), ProcessingError>(ProcessingError::AccountLocked)
        } else {
            Ok(())
        },
{
}

/// Processing a deposit or withdrawal a second time, right after the first,
/// changes nothing; where the first succeeded, so does the second.
pub proof fn lemma_duplicate_is_noop(s: Ledger, t: Transaction)
    requires
        t.tx_type.is_standard(),
    ensures
        s.process(t).0.process(t).0 == s.process(t).0,
        s.process(t).1 is Ok ==> s.process(t).0.process(t).1 is Ok,
{
    let s1 = s.with_account(t.client.0);
    lemma_process_after_account(s, t);
    let r = s.process(t);
    if r.1 is Ok && !s1.history.contains_key(t.tx.0) {
        assert(r.0.history.contains_key(t.tx.0));
        assert(r.0.accounts.contains_key(t.client.0));
        lemma_replay_is_noop(r.0, t);
    } else {
        assert(r.0 == s1);
    }
}

/// A deposit of `a` to a client without an account, disputed and then resolved,
/// leaves `a` available and nothing held, as the deposit alone did.
pub proof fn lemma_dispute_then_resolve(s: Ledger, c: ClientId, id: TransactionId, a: Amount)
    requires
        !s.accounts.contains_key(c.0),
        !s.history.contains_key(id.0),
        a.wf(),
    ensures
        ({
            let s1 = s.process(transaction_of(TransactionType::Deposit, c, id, Some(a)));
            let s2 = s1.0.process(transaction_of(TransactionType::Dispute, c, id, None));
            let s3 = s2.0.process(transaction_of(TransactionType::Resolve, c, id, None));
            &&& s1.1 is Ok && s2.1 is Ok && s3.1 is Ok
            &&& s3.0.accounts[c.0].available_balance == a.money()
            &&& s3.0.accounts[c.0].available_balance == s1.0.accounts[c.0].available_balance
            &&& s3.0.accounts[c.0].held_balance.units() == 0
            &&& s1.0.accounts[c.0].held_balance.units() == 0
            &&& !s3.0.accounts[c.0].locked
        }),
{
    lemma_units_sign(a.money());
    let s1 = s.process(transaction_of(TransactionType::Deposit, c, id, Some(a)));
    lemma_add_exact(ClientAccount::fresh().available_balance, a.money());
    assert(s1.0.accounts[c.0].available_balance == a.money());
    assert(a.money().aligned(a.money().scale) == a.money().mantissa) by {
        assert(crate::money::pow10(0) == 1);
    }
    let s2 = s1.0.process(transaction_of(TransactionType::Dispute, c, id, None));
    assert(s2.1 is Ok);
    assert(s2.0.accounts[c.0].available_balance.mantissa == 0);
    assert(s2.0.accounts[c.0].held_balance == a.money());
    let s3 = s2.0.process(transaction_of(TransactionType::Resolve, c, id, None));
    assert(s3.1 is Ok);
    lemma_units_sign(s3.0.accounts[c.0].held_balance);
}

/// A deposit of `a` to a client without an account, disputed and then charged
/// back, leaves nothing available and nothing held, locks the account, and every
/// later transaction for that client fails with `AccountLocked`.
pub proof fn lemma_dispute_then_chargeback(s: Ledger, c: ClientId, id: TransactionId, a: Amount)
    requires
        !s.accounts.contains_key(c.0),
        !s.history.contains_key(id.0),
        a.wf(),
    ensures
        ({
            let s1 = s.process(transaction_of(TransactionType::Deposit, c, id, Some(a)));
            let s2 = s1.0.process(transaction_of(TransactionType::Dispute, c, id, None));
            let s3 = s2.0.process(transaction_of(TransactionType::Chargeback, c, id, None));
            &&& s1.1 is Ok && s2.1 is Ok && s3.1 is Ok
            &&& s3.0.accounts[c.0].available_balance.units() == 0
            &&& s3.0.accounts[c.0].held_balance.units() == 0
            &&& s3.0.accounts[c.0].locked
            &&& forall|t: Transaction|
                t.client == c ==> #[trigger] s3.0.process(t) == (
                    s3.0,
                    Err::<(), ProcessingError>(ProcessingError::AccountLocked),
                )
        }),
{
    lemma_units_sign(a.money());
    let s1 = s.process(transaction_of(TransactionType::Deposit, c, id, Some(a)));
    lemma_add_exact(ClientAccount::fresh().available_balance, a.money());
    assert(s1.0.accounts[c.0].available_balance == a.money());
    assert(a.money().aligned(a.money().scale) == a.money().mantissa) by {
        assert(crate::money::pow10(0) == 1);
    }
    let s2 = s1.0.process(transaction_of(TransactionType::Dispute, c, id, None));
    assert(s2.1 is Ok);
    assert(s2.0.accounts[c.0].available_balance.mantissa == 0);
    assert(s2.0.accounts[c.0].held_balance == a.money());
    let s3 = s2.0.process(transaction_of(TransactionType::Chargeback, c, id, None));
    assert(s3.1 is Ok);
    lemma_units_sign(s3.0.accounts[c.0].held_balance);
    lemma_units_sign(s3.0.accounts[c.0].available_balance);
    assert forall|t: Transaction| t.client == c implies #[trigger] s3.0.process(t) == (
        s3.0,
        Err::<(), ProcessingError>(ProcessingError::AccountLocked),
    ) by {
        lemma_locked_account_refuses(s3.0, t);
    }
}

/// What client `c` holds on `s`: available plus held, in units of 10^-28, or
/// zero where it has no account.
pub open spec fn holdings(s: Ledger, c: u16) -> int {
    if s.accounts.contains_key(c) {
        s.accounts[c].total_units()
    } else {
        0
    }
}

/// What processing `t` on `s` brings client `c`: the amount of a deposit that
/// was applied, less that of a withdrawal that was applied, and nothing for
/// anything else (a failure, a replay, a dispute or a resolve).
pub open spec fn flow(s: Ledger, t: Transaction, c: u16) -> int {
    if t.client.0 == c && s.process(t).1 is Ok && !s.history.contains_key(t.tx.0) {
        match (t.tx_type, t.amount) {
            (TransactionType::Deposit, Some(a)) => a.money().units(),
            (TransactionType::Withdrawal, Some(a)) => -a.money().units(),
            _ => 0,
        }
    } else {
        0
    }
}

/// What processing `ts` in order from `s` brings client `c`: its applied
/// deposits less its applied withdrawals.
pub open spec fn net_flow(s: Ledger, ts: Seq<Transaction>, c: u16) -> int
    decreases ts.len(),
{
    if ts.len() == 0 {
        0
    } else {
        net_flow(s, ts.drop_last(), c) + flow(s.run(ts.drop_last()), ts.last(), c)
    }
}

/// Each balance update that processing `t` on `s` would make can be held
/// exactly, so nothing is rounded.
pub open spec fn exact_step(s: Ledger, t: Transaction) -> bool {
    let s1 = s.with_account(t.client.0);
    let acct = s1.accounts[t.client.0];
    match t.tx_type {
        TransactionType::Deposit => t.amount matches Some(a) ==> Money::add_is_exact(
            acct.available_balance,
            a.money(),
        ),
        TransactionType::Withdrawal => t.amount matches Some(a) ==> Money::sub_is_exact(
            acct.available_balance,
            a.money(),
        ),
        TransactionType::Dispute => s1.find(t) matches Some(o) ==> (o.amount matches Some(a)
            ==> (Money::add_is_exact(acct.held_balance, a.money()) && Money::sub_is_exact(
            acct.available_balance,
            a.money(),
        ))),
        TransactionType::Resolve => s1.find(t) matches Some(o) ==> (o.amount matches Some(a)
            ==> (Money::add_is_exact(acct.available_balance, a.money()) && Money::sub_is_exact(
            acct.held_balance,
            a.money(),
        ))),
        TransactionType::Chargeback => s1.find(t) matches Some(o) ==> (o.amount matches Some(a)
            ==> Money::sub_is_exact(acct.held_balance, a.money())),
    }
}

/// Every balance update along the processing of `ts` from `s` can be held
/// exactly.
pub open spec fn exact_run(s: Ledger, ts: Seq<Transaction>) -> bool
    decreases ts.len(),
{
    if ts.len() == 0 {
        true
    } else {
        exact_run(s, ts.drop_last()) && exact_step(s.run(ts.drop_last()), ts.last())
    }
}


/// A step whose balance updates are exact keeps the ledger well formed and,
/// short of a chargeback, changes a client's holdings by exactly what it
/// brings that client.
pub proof fn lemma_step_conserves(s: Ledger, t: Transaction, c: u16)
    requires
        s.wf(),
        t.amount matches Some(a) ==> a.wf(),
        exact_step(s, t),
    ensures
        s.process(t).0.wf(),
        !(t.tx_type is Chargeback) ==> holdings(s.process(t).0, c) == holdings(s, c) + flow(
            s,
            t,
            c,
        ),
{
    lemma_process_after_account(s, t);
    let s1 = s.with_account(t.client.0);
    let acct = s1.accounts[t.client.0];
    assert(s1.wf());
    if !s.accounts.contains_key(t.client.0) {
        lemma_units_sign(acct.available_balance);
        lemma_units_sign(acct.held_balance);
    }
    assert(holdings(s1, c) == holdings(s, c));
    if !acct.locked && !(t.tx_type.is_standard() && s1.history.contains_key(t.tx.0)) {
        match t.tx_type {
            TransactionType::Deposit => {
                match t.amount {
                    Some(a) => {
                        if Money::add_is_exact(acct.available_balance, a.money()) {
                            lemma_add_exact(acct.available_balance, a.money());
                        }
                    },
                    None => {},
                }
            },
            TransactionType::Withdrawal => {
                match t.amount {
                    Some(a) => {
                        if Money::sub_is_exact(acct.available_balance, a.money()) {
                            lemma_sub_exact(acct.available_balance, a.money());
                        }
                    },
                    None => {},
                }
            },
            TransactionType::Dispute => {
                match s1.find(t) {
                    Some(o) => {
                        match o.amount {
                            Some(a) => {
                                if Money::add_is_exact(acct.held_balance, a.money()) {
                                    lemma_add_exact(acct.held_balance, a.money());
                                }
                                if Money::sub_is_exact(acct.available_balance, a.money()) {
                                    lemma_sub_exact(acct.available_balance, a.money());
                                }
                            },
                            None => {},
                        }
                    },
                    None => {},
                }
            },
            TransactionType::Resolve => {
                match s1.find(t) {
                    Some(o) => {
                        match o.amount {
                            Some(a) => {
                                if Money::add_is_exact(acct.available_balance, a.money()) {
                                    lemma_add_exact(acct.available_balance, a.money());
                                }
                                if Money::sub_is_exact(acct.held_balance, a.money()) {
                                    lemma_sub_exact(acct.held_balance, a.money());
                                }
                            },
                            None => {},
                        }
                    },
                    None => {},
                }
            },
            TransactionType::Chargeback => {
                match s1.find(t) {
                    Some(o) => {
                        match o.amount {
                            Some(a) => {
                                if Money::sub_is_exact(acct.held_balance, a.money()) {
                                    lemma_sub_exact(acct.held_balance, a.money());
                                }
                            },
                            None => {},
                        }
                    },
                    None => {},
                }
            },
        }
    }
}

/// Conservation: over a run with no chargeback in which no balance is
/// rounded, each client's available plus held moves by exactly its applied
/// deposits less its applied withdrawals.
pub proof fn lemma_conservation(s: Ledger, ts: Seq<Transaction>, c: u16)
    requires
        s.wf(),
        forall|i: int| 0 <= i < ts.len() ==> !(#[trigger] ts[i].tx_type is Chargeback),
        forall|i: int| 0 <= i < ts.len() ==> (#[trigger] ts[i].amount matches Some(a) ==> a.wf()),
        exact_run(s, ts),
    ensures
        s.run(ts).wf(),
        holdings(s.run(ts), c) == holdings(s, c) + net_flow(s, ts, c),
    decreases ts.len(),
{
    if ts.len() > 0 {
        let init = ts.drop_last();
        assert forall|i: int| 0 <= i < init.len() implies init[i] == ts[i] by {}
        lemma_conservation(s, init, c);
        lemma_step_conserves(s.run(init), ts.last(), c);
    }
}

/// Conservation from an empty engine: over a run with no chargeback in which
/// no balance is rounded, each client's available plus held is exactly its
/// applied deposits less its applied withdrawals.
pub proof fn lemma_conservation_from_empty(ts: Seq<Transaction>, c: u16)
    requires
        forall|i: int| 0 <= i < ts.len() ==> !(#[trigger] ts[i].tx_type is Chargeback),
        forall|i: int| 0 <= i < ts.len() ==> (#[trigger] ts[i].amount matches Some(a) ==> a.wf()),
        exact_run(Ledger::empty(), ts),
    ensures
        holdings(Ledger::empty().run(ts), c) == net_flow(Ledger::empty(), ts, c),
{
    lemma_conservation(Ledger::empty(), ts, c);
}

/// What entry `id` of `h` keeps held for client `c`: its amount while it is a
/// disputed transaction of `c`, and nothing otherwise.
pub open spec fn held_part(h: Map<u32, Transaction>, c: u16, id: u32) -> int {
    if h.contains_key(id) && h[id].client.0 == c && h[id].tx_status is Disputed
        && h[id].amount is Some {
        h[id].amount->0.money().units()
    } else {
        0
    }
}

/// What the entries of `h` under `ids` keep held for client `c`, together.
pub open spec fn held_sum(h: Map<u32, Transaction>, c: u16, ids: Set<u32>) -> int {
    ids.fold(0int, |acc: int, id: u32| acc + held_part(h, c, id))
}

proof fn lemma_held_sum_insert(h: Map<u32, Transaction>, c: u16, ids: Set<u32>, k: u32)
    requires
        ids.finite(),
        !ids.contains(k),
    ensures
        held_sum(h, c, ids.insert(k)) == held_sum(h, c, ids) + held_part(h, c, k),
{
    let f = |acc: int, id: u32| acc + held_part(h, c, id);
    assert(is_fun_commutative(f));
    lemma_fold_insert(ids, 0int, f, k);
}

/// The sum over `ids` depends only on the parts of the entries under `ids`.
proof fn lemma_held_sum_agree(
    h1: Map<u32, Transaction>,
    h2: Map<u32, Transaction>,
    c: u16,
    ids: Set<u32>,
)
    requires
        ids.finite(),
        forall|id: u32| ids.contains(id) ==> held_part(h1, c, id) == held_part(h2, c, id),
    ensures
        held_sum(h1, c, ids) == held_sum(h2, c, ids),
    decreases ids.len(),
{
    if ids.len() == 0 {
        assert(ids =~= Set::empty());
        lemma_fold_empty(0int, |acc: int, id: u32| acc + held_part(h1, c, id));
        lemma_fold_empty(0int, |acc: int, id: u32| acc + held_part(h2, c, id));
    } else {
        let k = ids.choose();
        let rest = ids.remove(k);
        lemma_held_sum_agree(h1, h2, c, rest);
        assert(rest.insert(k) =~= ids);
        lemma_held_sum_insert(h1, c, rest, k);
        lemma_held_sum_insert(h2, c, rest, k);
    }
}

/// Parts that are never negative give a sum that is not, and parts that are
/// all zero give zero.
proof fn lemma_held_sum_sign(h: Map<u32, Transaction>, c: u16, ids: Set<u32>)
    requires
        ids.finite(),
    ensures
        (forall|id: u32| ids.contains(id) ==> held_part(h, c, id) >= 0) ==> held_sum(h, c, ids)
            >= 0,
        (forall|id: u32| ids.contains(id) ==> held_part(h, c, id) == 0) ==> held_sum(h, c, ids)
            == 0,
    decreases ids.len(),
{
    if ids.len() == 0 {
        assert(ids =~= Set::empty());
        lemma_fold_empty(0int, |acc: int, id: u32| acc + held_part(h, c, id));
    } else {
        let k = ids.choose();
        let rest = ids.remove(k);
        lemma_held_sum_sign(h, c, rest);
        assert(rest.insert(k) =~= ids);
        lemma_held_sum_insert(h, c, rest, k);
    }
}

/// Replacing one entry changes the sum by the change in that entry's part.
proof fn lemma_held_sum_update(h: Map<u32, Transaction>, c: u16, k: u32, v: Transaction)
    requires
        h.dom().finite(),
    ensures
        held_sum(h.insert(k, v), c, h.insert(k, v).dom()) == held_sum(h, c, h.dom()) - held_part(
            h,
            c,
            k,
        ) + held_part(h.insert(k, v), c, k),
{
    let h2 = h.insert(k, v);
    let rest = h.dom().remove(k);
    assert(h2.dom() =~= rest.insert(k));
    lemma_held_sum_insert(h2, c, rest, k);
    lemma_held_sum_agree(h, h2, c, rest);
    if h.dom().contains(k) {
        assert(h.dom() =~= rest.insert(k));
        lemma_held_sum_insert(h, c, rest, k);
    } else {
        assert(h.dom() =~= rest);
    }
}

/// Where every part is at least zero, the whole is at least the part of `k`.
proof fn lemma_held_sum_covers(h: Map<u32, Transaction>, c: u16, k: u32)
    requires
        h.dom().finite(),
        h.dom().contains(k),
        forall|id: u32| h.dom().contains(id) ==> held_part(h, c, id) >= 0,
    ensures
        held_sum(h, c, h.dom()) >= held_part(h, c, k),
{
    let rest = h.dom().remove(k);
    assert(h.dom() =~= rest.insert(k));
    lemma_held_sum_insert(h, c, rest, k);
    lemma_held_sum_sign(h, c, rest);
}

/// The ledger keeps its books straight: every recorded transaction belongs to
/// a client with an account; no balance is negative; each held balance is
/// exactly what its client's disputed deposits add up to, at a scale no finer
/// than that of any of them.
pub open spec fn balanced(s: Ledger) -> bool {
    &&& s.history.dom().finite()
    &&& forall|id: u32| #[trigger]
        s.history.contains_key(id) ==> s.accounts.contains_key(s.history[id].client.0)
    &&& forall|c: u16| #[trigger]
        s.accounts.contains_key(c) ==> {
            &&& s.accounts[c].available_balance.units() >= 0
            &&& s.accounts[c].held_balance.units() >= 0
            &&& s.accounts[c].held_balance.units() == held_sum(s.history, c, s.history.dom())
        }
    &&& forall|id: u32| #[trigger]
        s.history.contains_key(id) && s.history[id].tx_status is Disputed ==> s.history[id].amount->0.money().scale
            <= s.accounts[s.history[id].client.0].held_balance.scale
}

/// An empty engine is balanced.
pub proof fn lemma_empty_is_balanced()
    ensures
        balanced(Ledger::empty()),
{
    assert(Ledger::empty().history.dom() =~= Set::empty());
}

/// Every part of a well-formed history is at least zero.
proof fn lemma_parts_nonneg(s: Ledger, c: u16)
    requires
        s.wf(),
    ensures
        forall|id: u32| s.history.dom().contains(id) ==> held_part(s.history, c, id) >= 0,
{
    assert forall|id: u32| s.history.dom().contains(id) implies held_part(s.history, c, id)
        >= 0 by {
        assert(Ledger::entry_wf(id, s.history[id]));
    }
}

/// Creating a client's account keeps the ledger balanced.
pub proof fn lemma_with_account_balanced(s: Ledger, c: u16)
    requires
        s.wf(),
        balanced(s),
    ensures
        balanced(s.with_account(c)),
        s.with_account(c).wf(),
{
    if !s.accounts.contains_key(c) {
        let s1 = s.with_account(c);
        lemma_units_sign(s1.accounts[c].available_balance);
        assert forall|id: u32| s.history.dom().contains(id) implies held_part(s.history, c, id)
            == 0 by {
            assert(s.accounts.contains_key(s.history[id].client.0));
        }
        lemma_held_sum_sign(s.history, c, s.history.dom());
    }
}

/// On a balanced ledger a client's held balance covers each of its disputed
/// deposits, at a scale that holds the amount, so taking one back out of held
/// is exact and leaves nothing negative.
pub proof fn lemma_release_is_exact(s: Ledger, c: u16, k: u32)
    requires
        s.wf(),
        balanced(s),
        s.history.contains_key(k),
        s.history[k].client.0 == c,
        s.history[k].tx_status is Disputed,
    ensures
        Money::sub_is_exact(s.accounts[c].held_balance, s.history[k].amount->0.money()),
        s.history[k].amount->0.money().units() <= s.accounts[c].held_balance.units(),
{
    assert(Ledger::entry_wf(k, s.history[k]));
    let a = s.history[k].amount->0.money();
    let held = s.accounts[c].held_balance;
    assert(s.accounts.contains_key(c));
    assert(held.wf());
    lemma_parts_nonneg(s, c);
    lemma_held_sum_covers(s.history, c, k);
    lemma_units_sign(a);
    lemma_units_sign(held);
    let sc = held.scale;
    assert(Money::common_scale(held, a) == sc);
    lemma_aligned_units(a, sc);
    lemma_aligned_units(held, sc);
    assert(held.aligned(sc) == held.mantissa) by {
        assert(pow10(0) == 1);
    }
    let p = pow10((MAX_SCALE - sc) as nat);
    lemma_pow10_positive((MAX_SCALE - sc) as nat);
    let x = a.aligned(sc);
    let y = held.mantissa as int;
    assert(0 < x <= y) by (nonlinear_arith)
        requires
            x * p == a.units(),
            y * p == held.units(),
            0 < a.units() <= held.units(),
            p > 0,
    ;
}

/// Replacing client `c0`'s account by `n` and recording `v` under `k` keeps the
/// ledger balanced, where `n` moves held by exactly the change in what entry
/// `k` keeps held and the amounts `c0` has in dispute fit `n`'s held scale.
proof fn lemma_update_balanced(s: Ledger, c0: u16, k: u32, v: Transaction, n: ClientAccount)
    requires
        s.wf(),
        balanced(s),
        s.accounts.contains_key(c0),
        v.client.0 == c0,
        v.amount is Some,
        v.amount->0.wf(),
        s.history.contains_key(k) ==> s.history[k].client.0 == c0,
        n.available_balance.units() >= 0,
        n.held_balance.units() == s.accounts[c0].held_balance.units() - held_part(
            s.history,
            c0,
            k,
        ) + held_part(s.history.insert(k, v), c0, k),
        forall|id: u32|
            #![trigger s.history.insert(k, v)[id]]
            s.history.insert(k, v).contains_key(id) && s.history.insert(k, v)[id].tx_status is Disputed
                && s.history.insert(k, v)[id].client.0 == c0 ==> s.history.insert(
                k,
                v,
            )[id].amount->0.money().scale <= n.held_balance.scale,
    ensures
        balanced(s.set_account(c0, n).record(k, v)),
{
    let h2 = s.history.insert(k, v);
    let r = s.set_account(c0, n).record(k, v);
    assert(h2.dom() =~= s.history.dom().insert(k));
    assert forall|c: u16| #[trigger] r.accounts.contains_key(c) implies {
        &&& r.accounts[c].available_balance.units() >= 0
        &&& r.accounts[c].held_balance.units() >= 0
        &&& r.accounts[c].held_balance.units() == held_sum(r.history, c, r.history.dom())
    } by {
        lemma_held_sum_update(s.history, c, k, v);
        if c == c0 {
            assert forall|id: u32| h2.dom().contains(id) implies held_part(h2, c, id) >= 0 by {
                if id != k {
                    assert(Ledger::entry_wf(id, s.history[id]));
                }
            }
            lemma_held_sum_sign(h2, c, h2.dom());
        }
    }
    assert forall|id: u32| #[trigger]
        r.history.contains_key(id) && r.history[id].tx_status is Disputed implies r.history[id].amount->0.money().scale
        <= r.accounts[r.history[id].client.0].held_balance.scale by {
        if r.history[id].client.0 == c0 {
        } else {
            assert(id != k);
            assert(s.history.contains_key(id));
        }
    }
    assert forall|id: u32| #[trigger]
        r.history.contains_key(id) implies r.accounts.contains_key(r.history[id].client.0) by {
        if id != k {
            assert(s.history.contains_key(id));
        }
    }
}

/// Balances never go negative: every transaction whose balance updates are
/// exact keeps a balanced ledger balanced, so no available or held balance
/// drops below zero and held stays the sum of the client's disputed deposits.
pub proof fn lemma_process_keeps_balanced(s: Ledger, t: Transaction)
    requires
        s.wf(),
        balanced(s),
        t.amount matches Some(a) ==> a.wf(),
        exact_step(s, t),
    ensures
        balanced(s.process(t).0),
{
    lemma_process_after_account(s, t);
    let c0 = t.client.0;
    let k = t.tx.0;
    lemma_with_account_balanced(s, c0);
    let s1 = s.with_account(c0);
    let acct = s1.accounts[c0];
    let h = s1.history;
    assert(s1.accounts.contains_key(c0));
    if !acct.locked && !(t.tx_type.is_standard() && h.contains_key(k)) {
        lemma_parts_nonneg(s1, c0);
        lemma_units_sign(acct.held_balance);
        match t.tx_type {
            TransactionType::Deposit => {
                match t.amount {
                    Some(a) => {
                        if Money::add_is_exact(acct.available_balance, a.money()) {
                            lemma_add_exact(acct.available_balance, a.money());
                            let v = Ledger::with_status(t, TransactionStatus::Settled);
                            let n = ClientAccount {
                                available_balance: Money::exact_add(
                                    acct.available_balance,
                                    a.money(),
                                ),
                                held_balance: acct.held_balance,
                                locked: acct.locked,
                            };
                            lemma_update_balanced(s1, c0, k, v, n);
                        }
                    },
                    None => {},
                }
            },
            TransactionType::Withdrawal => {
                match t.amount {
                    Some(a) => {
                        if Money::sub_is_exact(acct.available_balance, a.money())
                            && a.money().units() <= acct.available_balance.units() {
                            lemma_sub_exact(acct.available_balance, a.money());
                            let v = Ledger::with_status(t, TransactionStatus::Settled);
                            let n = ClientAccount {
                                available_balance: Money::exact_sub(
                                    acct.available_balance,
                                    a.money(),
                                ),
                                held_balance: acct.held_balance,
                                locked: acct.locked,
                            };
                            lemma_update_balanced(s1, c0, k, v, n);
                        }
                    },
                    None => {},
                }
            },
            TransactionType::Dispute => {
                if h.contains_key(k) && h[k].client == t.client {
                    let o = h[k];
                    assert(Ledger::entry_wf(k, o));
                    let a = o.amount->0.money();
                    lemma_units_sign(a);
                    if Money::add_is_exact(acct.held_balance, a) && Money::sub_is_exact(
                        acct.available_balance,
                        a,
                    ) && (o.tx_status is Settled || o.tx_status is Resolved)
                        && a.units() <= acct.available_balance.units() {
                        lemma_add_exact(acct.held_balance, a);
                        lemma_sub_exact(acct.available_balance, a);
                        let v = Ledger::with_status(o, TransactionStatus::Disputed);
                        let n = ClientAccount {
                            available_balance: Money::exact_sub(acct.available_balance, a),
                            held_balance: Money::exact_add(acct.held_balance, a),
                            locked: acct.locked,
                        };
                        let h2 = h.insert(k, v);
                        assert forall|id: u32|
                            #![trigger h2[id]]
                            h2.contains_key(id) && h2[id].tx_status is Disputed && h2[id].client.0
                                == c0 implies h2[id].amount->0.money().scale
                            <= n.held_balance.scale by {
                            if id != k {
                                assert(Ledger::entry_wf(id, h[id]));
                                lemma_held_sum_covers(h, c0, id);
                                lemma_units_sign(h[id].amount->0.money());
                            }
                        }
                        lemma_update_balanced(s1, c0, k, v, n);
                    }
                }
            },
            TransactionType::Resolve => {
                if h.contains_key(k) && h[k].client == t.client && h[k].tx_status is Disputed {
                    let o = h[k];
                    assert(Ledger::entry_wf(k, o));
                    let a = o.amount->0.money();
                    lemma_units_sign(a);
                    lemma_release_is_exact(s1, c0, k);
                    lemma_sub_exact(acct.held_balance, a);
                    if Money::add_is_exact(acct.available_balance, a) {
                        lemma_add_exact(acct.available_balance, a);
                        let v = Ledger::with_status(o, TransactionStatus::Resolved);
                        let n = ClientAccount {
                            available_balance: Money::exact_add(acct.available_balance, a),
                            held_balance: Money::exact_sub(acct.held_balance, a),
                            locked: acct.locked,
                        };
                        lemma_update_balanced(s1, c0, k, v, n);
                    }
                }
            },
            TransactionType::Chargeback => {
                if h.contains_key(k) && h[k].client == t.client && h[k].tx_status is Disputed {
                    let o = h[k];
                    assert(Ledger::entry_wf(k, o));
                    let a = o.amount->0.money();
                    lemma_units_sign(a);
                    lemma_release_is_exact(s1, c0, k);
                    lemma_sub_exact(acct.held_balance, a);
                    let v = Ledger::with_status(o, TransactionStatus::ChargedBack);
                    let n = ClientAccount {
                        available_balance: acct.available_balance,
                        held_balance: Money::exact_sub(acct.held_balance, a),
                        locked: true,
                    };
                    lemma_update_balanced(s1, c0, k, v, n);
                }
            },
        }
    }
}

/// A run in which no balance is rounded keeps a well-formed, balanced ledger
/// so.
pub proof fn lemma_run_keeps_balanced(s: Ledger, ts: Seq<Transaction>)
    requires
        s.wf(),
        balanced(s),
        forall|i: int| 0 <= i < ts.len() ==> (#[trigger] ts[i].amount matches Some(a) ==> a.wf()),
        exact_run(s, ts),
    ensures
        s.run(ts).wf(),
        balanced(s.run(ts)),
    decreases ts.len(),
{
    if ts.len() > 0 {
        let init = ts.drop_last();
        assert forall|i: int| 0 <= i < init.len() implies init[i] == ts[i] by {}
        lemma_run_keeps_balanced(s, init);
        lemma_step_conserves(s.run(init), ts.last(), 0);
        lemma_process_keeps_balanced(s.run(init), ts.last());
    }
}

/// From an empty engine, over any run in which no balance is rounded, no
/// client's available or held balance is ever negative, and held is exactly
/// the sum of the client's deposits under dispute.
pub proof fn lemma_balances_never_negative(ts: Seq<Transaction>, c: u16)
    requires
        forall|i: int| 0 <= i < ts.len() ==> (#[trigger] ts[i].amount matches Some(a) ==> a.wf()),
        exact_run(Ledger::empty(), ts),
    ensures
        Ledger::empty().run(ts).accounts.contains_key(c) ==> {
            let acct = Ledger::empty().run(ts).accounts[c];
            &&& acct.available_balance.units() >= 0
            &&& acct.held_balance.units() >= 0
            &&& acct.held_balance.units() == held_sum(
                Ledger::empty().run(ts).history,
                c,
                Ledger::empty().run(ts).history.dom(),
            )
        },
{
    lemma_empty_is_balanced();
    lemma_run_keeps_balanced(Ledger::empty(), ts);
}

/// On a balanced ledger, a chargeback of a disputed deposit of the same client
/// always succeeds, and a resolve of one fails only where available plus the
/// amount leaves the range: taking the amount out of held never fails.
pub proof fn lemma_release_succeeds(s: Ledger, t: Transaction)
    requires
        s.wf(),
        balanced(s),
        t.tx_type is Resolve || t.tx_type is Chargeback,
        s.accounts.contains_key(t.client.0),
        !s.accounts[t.client.0].locked,
        s.find(t) matches Some(o) && o.tx_status is Disputed,
    ensures
        t.tx_type is Chargeback ==> s.process(t).1 is Ok,
        t.tx_type is Resolve ==> (s.process(t).1 is Ok <==> Money::in_range_units(
            s.accounts[t.client.0].available_balance.units() + s.history[
                t.tx.0
            ].amount->0.money().units(),
        )),
        t.tx_type is Resolve ==> (s.process(t).1 is Err ==> s.process(t).1 == Err::<
            (),
            ProcessingError,
        >(ProcessingError::BalanceOverflow)),
{
    lemma_release_is_exact(s, t.client.0, t.tx.0);
    assert(Ledger::entry_wf(t.tx.0, s.history[t.tx.0]));
    assert(s.accounts[t.client.0].wf());
    lemma_sub_exact(s.accounts[t.client.0].held_balance, s.history[t.tx.0].amount->0.money());
}

/// Dispute reversibility, from any state: where a dispute succeeds without
/// rounding, the resolve of the same deposit that follows succeeds too and
/// gives the account back the available and held values it had before.
pub proof fn lemma_dispute_is_reversible(s: Ledger, c: ClientId, id: TransactionId)
    requires
        s.wf(),
        s.process(transaction_of(TransactionType::Dispute, c, id, None)).1 is Ok,
        exact_step(s, transaction_of(TransactionType::Dispute, c, id, None)),
    ensures
        ({
            let before = s.with_account(c.0).accounts[c.0];
            let s2 = s.process(transaction_of(TransactionType::Dispute, c, id, None)).0;
            let s3 = s2.process(transaction_of(TransactionType::Resolve, c, id, None));
            &&& s3.1 is Ok
            &&& s3.0.accounts[c.0].available_balance.units() == before.available_balance.units()
            &&& s3.0.accounts[c.0].held_balance.units() == before.held_balance.units()
            &&& s3.0.history[id.0].tx_status is Resolved
        }),
{
    let d = transaction_of(TransactionType::Dispute, c, id, None);
    lemma_process_after_account(s, d);
    let s1 = s.with_account(c.0);
    assert(s1.wf()) by {
        if !s.accounts.contains_key(c.0) {
            assert(s1.accounts[c.0] == ClientAccount::fresh());
        }
    }
    let acct = s1.accounts[c.0];
    assert(s1.accounts.contains_key(c.0));
    let o = s1.history[id.0];
    assert(Ledger::entry_wf(id.0, o));
    let a = o.amount->0.money();
    let avail = acct.available_balance;
    let held = acct.held_balance;
    lemma_units_sign(a);
    lemma_units_sign(avail);
    lemma_add_exact(held, a);
    lemma_sub_exact(avail, a);
    let avail2 = Money::exact_sub(avail, a);
    let held2 = Money::exact_add(held, a);
    assert(pow10(0) == 1);
    // The updated balances sit at a scale where putting the amount back is exact.
    let sa = Money::common_scale(avail, a);
    assert(Money::common_scale(avail2, a) == sa || avail2.mantissa == 0);
    if avail2.mantissa != 0 {
        assert(avail2.aligned(sa) == avail.aligned(sa) - a.aligned(sa));
        assert(Money::sum_fits(avail2, a));
    }
    lemma_add_exact(avail2, a);
    if held.mantissa != 0 {
        let sh = Money::common_scale(held, a);
        assert(Money::add_is_exact(held, a));
        assert(Money::sum_fits(held, a));
        assert(held2.mantissa == held.aligned(sh) + a.aligned(sh));
        assert(Money::common_scale(held2, a) == sh);
        assert(held2.aligned(sh) == held2.mantissa * pow10(0));
        assert(held2.aligned(sh) == held.aligned(sh) + a.aligned(sh));
        assert(Money::difference_fits(held2, a));
    } else {
        assert(held2 == a);
        assert(a.aligned(a.scale) == a.mantissa * pow10(0));
        assert(Money::difference_fits(a, a));
    }
    lemma_sub_exact(held2, a);
}

/// An addition beyond the range is refused: a deposit whose exact sum with the
/// available balance exceeds the largest decimal fails with `BalanceOverflow`,
/// and so does a dispute whose held sum, or a resolve whose available sum, does.
/// Only the client's account creation remains.
pub proof fn lemma_addition_beyond_range_overflows(s: Ledger, t: Transaction)
    requires
        s.wf(),
        !s.with_account(t.client.0).accounts[t.client.0].locked,
        ({
            let acct = s.with_account(t.client.0).accounts[t.client.0];
            match t.tx_type {
                TransactionType::Deposit => !s.history.contains_key(t.tx.0) && (t.amount matches Some(
                    a,
                ) && a.wf() && !Money::in_range_units(
                    acct.available_balance.units() + a.money().units(),
                )),
                TransactionType::Dispute => (s.find(t) matches Some(o) && o.tx_type is Deposit && (
                o.tx_status is Settled || o.tx_status is Resolved) && acct.available_balance.units()
                    >= o.amount->0.money().units() && !Money::in_range_units(
                    acct.held_balance.units() + o.amount->0.money().units(),
                )),
                TransactionType::Resolve => (s.find(t) matches Some(o) && o.tx_status is Disputed
                    && !Money::in_range_units(
                    acct.available_balance.units() + o.amount->0.money().units(),
                )),
                _ => false,
            }
        }),
    ensures
        s.process(t) == (
            s.with_account(t.client.0),
            Err::<(), ProcessingError>(ProcessingError::BalanceOverflow),
        ),
{
    let s1 = s.with_account(t.client.0);
    assert(s1.wf()) by {
        if !s.accounts.contains_key(t.client.0) {
            assert(s1.accounts[t.client.0] == ClientAccount::fresh());
        }
    }
    assert(s1.accounts.contains_key(t.client.0));
    let acct = s1.accounts[t.client.0];
    match t.tx_type {
        TransactionType::Deposit => {
            lemma_beyond_range_not_exact(acct.available_balance, t.amount->0.money());
        },
        TransactionType::Dispute => {
            assert(Ledger::entry_wf(t.tx.0, s.history[t.tx.0]));
            lemma_beyond_range_not_exact(acct.held_balance, s.history[t.tx.0].amount->0.money());
        },
        TransactionType::Resolve => {
            assert(Ledger::entry_wf(t.tx.0, s.history[t.tx.0]));
            lemma_beyond_range_not_exact(
                acct.available_balance,
                s.history[t.tx.0].amount->0.money(),
            );
        },
        _ => {},
    }
}

/// Updates within the range succeed: a deposit whose exact sum with the
/// available balance is within the range, a withdrawal that the available
/// balance covers, and a dispute that available covers and whose held sum is
/// within the range. A covered subtraction never fails.
pub proof fn lemma_updates_within_range_succeed(s: Ledger, t: Transaction)
    requires
        s.wf(),
        !s.with_account(t.client.0).accounts[t.client.0].locked,
        ({
            let acct = s.with_account(t.client.0).accounts[t.client.0];
            match t.tx_type {
                TransactionType::Deposit => !s.history.contains_key(t.tx.0) && (t.amount matches Some(
                    a,
                ) && a.wf() && Money::in_range_units(
                    acct.available_balance.units() + a.money().units(),
                )),
                TransactionType::Withdrawal => !s.history.contains_key(t.tx.0) && (
                t.amount matches Some(a) && a.wf() && a.money().units()
                    <= acct.available_balance.units()),
                TransactionType::Dispute => (s.find(t) matches Some(o) && o.tx_type is Deposit && (
                o.tx_status is Settled || o.tx_status is Resolved) && acct.available_balance.units()
                    >= o.amount->0.money().units() && Money::in_range_units(
                    acct.held_balance.units() + o.amount->0.money().units(),
                )),
                _ => false,
            }
        }),
    ensures
        s.process(t).1 is Ok,
{
    let s1 = s.with_account(t.client.0);
    assert(s1.wf()) by {
        if !s.accounts.contains_key(t.client.0) {
            assert(s1.accounts[t.client.0] == ClientAccount::fresh());
        }
    }
    assert(s1.accounts.contains_key(t.client.0));
    let acct = s1.accounts[t.client.0];
    lemma_units_bounded(acct.available_balance);
    match t.tx_type {
        TransactionType::Withdrawal => {
            lemma_units_sign(t.amount->0.money());
        },
        TransactionType::Dispute => {
            assert(Ledger::entry_wf(t.tx.0, s.history[t.tx.0]));
            lemma_units_sign(s.history[t.tx.0].amount->0.money());
        },
        _ => {},
    }
}

} // verus!
