use payments_engine::domain::TransactionType::{Chargeback, Deposit, Dispute, Resolve, Withdrawal};
use payments_engine::domain::{
    Amount, AmountError, ClientAccountOutput, ClientId, Transaction, TransactionId, TransactionRow,
    TransactionStatus, TransactionType,
};
use payments_engine::engine::{ClientAccount, PaymentsEngine, ProcessingError};
use payments_engine::money::Money;

fn tx(tx_type: TransactionType, client: u16, id: u32, amount: Option<Money>) -> Transaction {
    Transaction {
        tx_type,
        client: ClientId::new(client),
        tx: TransactionId::new(id),
        amount: amount.map(|a| Amount::new(a).unwrap()),
        tx_status: TransactionStatus::Pending,
    }
}

fn account(engine: &PaymentsEngine, client: u16) -> ClientAccount {
    *engine.client_accounts().get(&client).unwrap()
}

#[test]
fn scenario_two_clients_with_resolved_dispute() {
    let mut engine = PaymentsEngine::new();
    let outcomes = engine.process_transactions(vec![
        tx(Deposit, 1, 1, Some(Money::new(10, 1))),
        tx(Deposit, 2, 2, Some(Money::new(20, 1))),
        tx(Deposit, 1, 3, Some(Money::new(20, 1))),
        tx(Withdrawal, 1, 4, Some(Money::new(15, 1))),
        tx(Dispute, 1, 1, None),
        tx(Resolve, 1, 1, None),
    ]);
    assert_eq!(outcomes, vec![Ok(()); 6]);
    assert_eq!(engine.client_accounts().len(), 2);

    let one = account(&engine, 1);
    assert_eq!(one.available_balance, Money::new(15000, 4));
    assert_eq!(one.held_balance, Money::new(0, 4));
    assert!(!one.locked);

    let two = account(&engine, 2);
    assert_eq!(two.available_balance, Money::new(20000, 4));
    assert_eq!(two.held_balance, Money::new(0, 4));
    assert!(!two.locked);
}

#[test]
fn scenario_chargeback_locks_account() {
    let mut engine = PaymentsEngine::new();
    let outcomes = engine.process_transactions(vec![
        tx(Deposit, 1, 1, Some(Money::new(10, 1))),
        tx(Dispute, 1, 1, None),
        tx(Chargeback, 1, 1, None),
    ]);
    assert_eq!(outcomes, vec![Ok(()); 3]);

    let one = account(&engine, 1);
    assert_eq!(one.available_balance, Money::new(0, 4));
    assert_eq!(one.held_balance, Money::new(0, 4));
    assert!(one.locked);
}

#[test]
fn scenario_non_positive_amount_is_rejected() {
    let negative = Amount::new(Money::new(-10, 1));
    assert!(matches!(negative, Err(AmountError::NonPositiveAmount(v)) if v == Money::new(-1, 0)));
    let zero = Amount::new(Money::zero());
    assert!(matches!(zero, Err(AmountError::NonPositiveAmount(_))));

    let engine = PaymentsEngine::new();
    assert!(engine.client_accounts().get(&1).is_none());
}

#[test]
fn amount_keeps_its_value() {
    let amount = Amount::new(Money::new(123456, 4)).unwrap();
    assert_eq!(amount.value().mantissa(), 123456);
    assert_eq!(amount.value().scale(), 4);
}

#[test]
fn replayed_deposit_changes_nothing() {
    let mut engine = PaymentsEngine::new();
    let deposit = tx(Deposit, 3, 7, Some(Money::new(425, 2)));
    engine.process_transaction(deposit).unwrap();
    let before = account(&engine, 3);
    assert_eq!(engine.process_transaction(deposit), Ok(()));
    let after = account(&engine, 3);
    assert_eq!(before.available_balance, after.available_balance);
    assert_eq!(before.held_balance, after.held_balance);
    assert_eq!(engine.transaction_history().len(), 1);
}

#[test]
fn replayed_withdrawal_changes_nothing() {
    let mut engine = PaymentsEngine::new();
    engine.process_transaction(tx(Deposit, 3, 1, Some(Money::new(10, 0)))).unwrap();
    let withdrawal = tx(Withdrawal, 3, 2, Some(Money::new(4, 0)));
    engine.process_transaction(withdrawal).unwrap();
    assert_eq!(engine.process_transaction(withdrawal), Ok(()));
    assert_eq!(account(&engine, 3).available_balance, Money::new(6, 0));
}

#[test]
fn conservation_without_chargeback() {
    let mut engine = PaymentsEngine::new();
    let outcomes = engine.process_transactions(vec![
        tx(Deposit, 5, 1, Some(Money::new(1234, 2))),
        tx(Deposit, 5, 2, Some(Money::new(5, 1))),
        tx(Withdrawal, 5, 3, Some(Money::new(100, 0))),
        tx(Withdrawal, 5, 4, Some(Money::new(84, 1))),
        tx(Dispute, 5, 2, None),
    ]);
    assert_eq!(
        outcomes,
        vec![Ok(()), Ok(()), Err(ProcessingError::InsufficientFunds), Ok(()), Ok(())]
    );
    let five = account(&engine, 5);
    // 12.34 + 0.5 - 8.4
    assert_eq!(five.total(), Money::new(444, 2));
    assert_eq!(five.held_balance, Money::new(5, 1));
    assert_eq!(five.available_balance, Money::new(394, 2));
}

#[test]
fn dispute_then_resolve_restores_deposit() {
    let mut engine = PaymentsEngine::new();
    let amount = Money::new(7777, 3);
    engine.process_transaction(tx(Deposit, 9, 1, Some(amount))).unwrap();
    engine.process_transaction(tx(Dispute, 9, 1, None)).unwrap();
    engine.process_transaction(tx(Resolve, 9, 1, None)).unwrap();
    let nine = account(&engine, 9);
    assert_eq!(nine.available_balance, amount);
    assert_eq!(nine.held_balance, Money::zero());
    assert!(!nine.locked);
}

#[test]
fn chargeback_then_everything_is_refused() {
    let mut engine = PaymentsEngine::new();
    engine.process_transaction(tx(Deposit, 4, 1, Some(Money::new(3, 0)))).unwrap();
    engine.process_transaction(tx(Dispute, 4, 1, None)).unwrap();
    engine.process_transaction(tx(Chargeback, 4, 1, None)).unwrap();
    let four = account(&engine, 4);
    assert_eq!(four.available_balance, Money::zero());
    assert_eq!(four.held_balance, Money::zero());
    assert!(four.locked);
    for t in [
        tx(Deposit, 4, 2, Some(Money::new(1, 0))),
        tx(Withdrawal, 4, 3, Some(Money::new(1, 0))),
        tx(Dispute, 4, 1, None),
        tx(Resolve, 4, 1, None),
        tx(Chargeback, 4, 1, None),
    ] {
        assert_eq!(engine.process_transaction(t), Err(ProcessingError::AccountLocked));
    }
}

#[test]
fn locked_account_refuses_resolve_of_other_dispute() {
    let mut engine = PaymentsEngine::new();
    let outcomes = engine.process_transactions(vec![
        tx(Deposit, 6, 1, Some(Money::new(5, 0))),
        tx(Deposit, 6, 2, Some(Money::new(7, 0))),
        tx(Dispute, 6, 1, None),
        tx(Dispute, 6, 2, None),
        tx(Chargeback, 6, 1, None),
        tx(Resolve, 6, 2, None),
    ]);
    assert_eq!(outcomes[5], Err(ProcessingError::AccountLocked));
    let six = account(&engine, 6);
    assert_eq!(six.held_balance, Money::new(7, 0));
    assert_eq!(six.available_balance, Money::zero());
    assert!(six.locked);
}

#[test]
fn other_clients_are_untouched_by_a_lock() {
    let mut engine = PaymentsEngine::new();
    engine.process_transaction(tx(Deposit, 1, 1, Some(Money::new(5, 0)))).unwrap();
    engine.process_transaction(tx(Deposit, 2, 2, Some(Money::new(6, 0)))).unwrap();
    engine.lock_account(ClientId::new(1));
    assert_eq!(engine.process_transaction(tx(Deposit, 2, 3, Some(Money::new(1, 0)))), Ok(()));
    assert_eq!(account(&engine, 2).available_balance, Money::new(7, 0));
    engine.lock_account(ClientId::new(42));
    assert!(engine.client_accounts().get(&42).is_none());
}

#[test]
fn deposit_beyond_range_is_rejected() {
    let mut engine = PaymentsEngine::new();
    engine.process_transaction(tx(Deposit, 1, 1, Some(Money::max_value()))).unwrap();
    assert_eq!(
        engine.process_transaction(tx(Deposit, 1, 2, Some(Money::new(1, 1)))),
        Err(ProcessingError::BalanceOverflow)
    );
    assert_eq!(account(&engine, 1).available_balance, Money::max_value());
    assert!(engine.transaction_history().get(&2).is_none());
}

#[test]
fn deposit_that_needs_more_digits_is_rounded() {
    let mut engine = PaymentsEngine::new();
    engine.process_transaction(tx(Deposit, 1, 1, Some(Money::new(10, 0)))).unwrap();
    assert_eq!(engine.process_transaction(tx(Deposit, 1, 2, Some(Money::new(1, 28)))), Ok(()));
    assert_eq!(account(&engine, 1).available_balance, Money::new(10, 0));
    assert_eq!(
        engine.process_transaction(tx(Deposit, 1, 3, Some(Money::new(1, 27)))),
        Ok(())
    );
    assert_eq!(
        account(&engine, 1).available_balance,
        Money::new(10000000000000000000000000001, 27)
    );
}

#[test]
fn large_balance_takes_small_updates() {
    let big = Money::new(10000000000000000000000000000, 0);
    let mut engine = PaymentsEngine::new();
    engine.process_transaction(tx(Deposit, 1, 1, Some(big))).unwrap();
    assert_eq!(engine.process_transaction(tx(Deposit, 1, 2, Some(Money::new(1, 1)))), Ok(()));
    assert_eq!(engine.process_transaction(tx(Withdrawal, 1, 3, Some(Money::new(1, 1)))), Ok(()));
    assert_eq!(account(&engine, 1).available_balance, big);
}

#[test]
fn dispute_and_resolve_beside_a_large_deposit() {
    let mut engine = PaymentsEngine::new();
    let outcomes = engine.process_transactions(vec![
        tx(Deposit, 1, 1, Some(Money::new(1, 1))),
        tx(Dispute, 1, 1, None),
        tx(Deposit, 1, 2, Some(Money::new(70000000000000000000000000000, 0))),
        tx(Resolve, 1, 1, None),
        tx(Dispute, 1, 1, None),
    ]);
    assert_eq!(outcomes, vec![Ok(()); 5]);
    let one = account(&engine, 1);
    assert_eq!(one.held_balance, Money::new(1, 1));
    assert_eq!(one.available_balance, Money::new(70000000000000000000000000000, 0));
}

#[test]
fn total_is_the_sum_within_range() {
    let acct = ClientAccount {
        available_balance: Money::new(10000000000000000000000000000, 0),
        held_balance: Money::new(1, 1),
        locked: false,
    };
    assert_eq!(acct.total(), Money::new(10000000000000000000000000000, 0));
    assert_ne!(acct.total(), Money::max_value());
}

#[test]
fn withdrawal_covered_by_the_largest_balance_succeeds() {
    let mut engine = PaymentsEngine::new();
    engine.process_transaction(tx(Deposit, 1, 1, Some(Money::max_value()))).unwrap();
    assert_eq!(engine.process_transaction(tx(Withdrawal, 1, 2, Some(Money::new(1, 1)))), Ok(()));
    assert_eq!(engine.process_transaction(tx(Withdrawal, 1, 3, Some(Money::new(1, 0)))), Ok(()));
    assert!(account(&engine, 1).available_balance.less_than(&Money::max_value()));
}

#[test]
fn dispute_held_overflow() {
    let mut engine = PaymentsEngine::new();
    engine.process_transaction(tx(Deposit, 1, 1, Some(Money::max_value()))).unwrap();
    engine.process_transaction(tx(Dispute, 1, 1, None)).unwrap();
    engine.process_transaction(tx(Deposit, 1, 2, Some(Money::max_value()))).unwrap();
    assert_eq!(
        engine.process_transaction(tx(Dispute, 1, 2, None)),
        Err(ProcessingError::BalanceOverflow)
    );
    let one = account(&engine, 1);
    assert_eq!(one.available_balance, Money::max_value());
    assert_eq!(one.held_balance, Money::max_value());
    assert_eq!(one.total(), Money::max_value());
}

#[test]
fn resolve_of_resolved_is_invalid_status() {
    let mut engine = PaymentsEngine::new();
    engine.process_transaction(tx(Deposit, 1, 1, Some(Money::new(2, 0)))).unwrap();
    engine.process_transaction(tx(Dispute, 1, 1, None)).unwrap();
    engine.process_transaction(tx(Resolve, 1, 1, None)).unwrap();
    assert_eq!(
        engine.process_transaction(tx(Resolve, 1, 1, None)),
        Err(ProcessingError::InvalidTransactionStatus)
    );
    let status = engine.transaction_history().get(&1).unwrap().tx_status;
    assert_eq!(status, TransactionStatus::Resolved);
}

#[test]
fn money_sum_and_difference() {
    let a = Money::new(15, 1);
    let b = Money::new(225, 2);
    let sum = a.checked_add(b).unwrap();
    assert_eq!(sum.mantissa(), 375);
    assert_eq!(sum.scale(), 2);
    let difference = a.checked_sub(b).unwrap();
    assert_eq!(difference.mantissa(), -75);
    assert_eq!(difference.scale(), 2);
    assert_eq!(Money::max_value().checked_add(Money::new(1, 0)), None);
    assert_eq!(Money::new(-79228162514264337593543950335, 0).checked_sub(Money::new(1, 0)), None);
}

#[test]
fn money_compares_by_value() {
    assert_eq!(Money::new(10, 1), Money::new(1, 0));
    assert_ne!(Money::new(10, 1), Money::new(1, 1));
    assert!(Money::new(1, 1).less_than(&Money::new(1, 0)));
    assert!(!Money::new(1, 0).less_than(&Money::new(10, 1)));
    assert!(Money::new(1, 0).same_value(&Money::new(1000, 3)));
}

#[test]
fn total_saturates_at_max() {
    let acct = ClientAccount {
        available_balance: Money::max_value(),
        held_balance: Money::new(1, 0),
        locked: false,
    };
    assert_eq!(acct.total(), Money::max_value());
}

#[test]
fn transaction_from_row_is_pending() {
    let row = TransactionRow {
        tx_type: Withdrawal,
        client: ClientId::new(3),
        tx: TransactionId::new(8),
        amount: Some(Amount::new(Money::new(5, 0)).unwrap()),
    };
    let t = Transaction::from(row);
    assert_eq!(t.tx_type, Withdrawal);
    assert_eq!(t.client, ClientId::new(3));
    assert_eq!(t.tx.value(), 8);
    assert_eq!(t.tx_status, TransactionStatus::Pending);
    assert!(t.tx_type.is_standard_transaction());
    assert!(!Dispute.is_standard_transaction());
}

#[test]
fn report_row_of_account() {
    let acct = ClientAccount {
        available_balance: Money::new(15, 1),
        held_balance: Money::new(25, 2),
        locked: true,
    };
    let row = ClientAccountOutput::new(ClientId::new(2), &acct);
    assert_eq!(row.client.value(), 2);
    assert_eq!(row.total, Money::new(175, 2));
    assert_eq!(row.available, Money::new(15, 1));
    assert!(row.locked);
}
