// The client state machine, exercised through its public operations.
// Amounts are fixed-point: 10000 stands for one currency unit.

use toy_processor::client::Client;
use toy_processor::transaction::{Transaction, TxType};

#[test]
fn test_new_client() {
    let client: Client = Client::new(1);

    assert_eq!(client.get_id(), 1);
    assert_eq!(client.get_available_amount(), 0);
    assert_eq!(client.get_held_amount(), 0);
    assert_eq!(client.get_total_amount(), 0);
}

#[test]
fn test_client_amount_operations() {
    let mut client: Client = Client::new(1);

    client.increase_available_amount(40000);
    assert_eq!(client.get_available_amount(), 40000);

    client.increase_held_amount(50000);
    assert_eq!(client.get_held_amount(), 50000);

    assert_eq!(client.get_total_amount(), 90000);

    client.decrease_held_amount(20000);
    client.decrease_available_amount(30000);
    assert_eq!(client.get_held_amount(), 30000);
    assert_eq!(client.get_available_amount(), 10000);
    assert_eq!(client.get_total_amount(), 40000);
}

#[test]
fn test_client_tx_operations() {
    let mut client: Client = Client::new(1);
    let mut deposit_transaction: Transaction = Transaction {
        tx_type: TxType::Deposit,
        tx: 1,
        amount: 20000,
        client: 1,
    };

    // Verify successful deposit transaction
    assert_eq!((), client.consume_deposit(deposit_transaction).unwrap());
    assert_eq!(20000, client.get_available_amount());
    assert_eq!(deposit_transaction, *client.get_transaction(1).unwrap());
    assert_eq!(20000, client.get_total_amount());

    let withdraw_transaction: Transaction = Transaction {
        tx_type: TxType::Withdrawal,
        tx: 2,
        amount: 10000,
        client: 1,
    };

    // Verify successful withdrawal transaction
    assert_eq!((), client.consume_withdrawal(withdraw_transaction).unwrap());
    assert_eq!(10000, client.get_available_amount());
    assert_eq!(withdraw_transaction, *client.get_transaction(2).unwrap());
    assert_eq!(10000, client.get_total_amount());

    // Add more deposit transactions, so we can dispute/resolve/chargeback
    deposit_transaction.tx += 2;
    deposit_transaction.amount += 40000;
    assert_eq!((), client.consume_deposit(deposit_transaction).unwrap());
    assert_eq!(deposit_transaction, *client.get_transaction(3).unwrap());

    deposit_transaction.tx += 1;
    assert_eq!((), client.consume_deposit(deposit_transaction).unwrap());
    assert_eq!(deposit_transaction, *client.get_transaction(4).unwrap());

    // Dispute DEPOSIT transaction
    let mut dispute_transaction: Transaction = Transaction {
        tx_type: TxType::Dispute,
        tx: 4,
        amount: 0,
        client: 1,
    };
    assert_eq!((), client.consume_dispute(dispute_transaction).unwrap());
    assert_eq!(true, client.check_disputed_transaction(4));
    assert_eq!(60000, client.get_held_amount());
    assert_eq!(70000, client.get_available_amount());

    // Resolve DEPOSIT transaction
    let resolve_transaction: Transaction = Transaction {
        tx_type: TxType::Resolve,
        tx: 4,
        amount: 0,
        client: 1,
    };

    assert_eq!((), client.consume_resolve(resolve_transaction).unwrap());
    assert_eq!(true, client.check_resolved_transaction(4));
    assert_eq!(false, client.check_disputed_transaction(4));
    assert_eq!(130000, client.get_available_amount());
    assert_eq!(0, client.get_held_amount());

    if let Ok(()) = client.consume_dispute(dispute_transaction) {
        panic!("Cannot dispute transaction already resolved.")
    }

    // Dispute another DEPOSIT transaction and do a successful chargeback
    dispute_transaction.tx = 3;
    assert_eq!((), client.consume_dispute(dispute_transaction).unwrap());
    assert_eq!(true, client.check_disputed_transaction(3));
    assert_eq!(60000, client.get_held_amount());
    assert_eq!(70000, client.get_available_amount());

    let chargeback_transaction: Transaction = Transaction {
        tx_type: TxType::Chargeback,
        tx: 3,
        amount: 0,
        client: 1,
    };

    assert_eq!(
        (),
        client.consume_chargeback(chargeback_transaction).unwrap()
    );
    assert_eq!(false, client.check_disputed_transaction(3));
    assert_eq!(true, client.check_resolved_transaction(3));
    assert_eq!(0, client.get_held_amount());
    assert_eq!(70000, client.get_available_amount());
    assert_eq!(true, client.is_locked());
}

#[test]
fn test_client_tx_withdrawal() {
    let mut client: Client = Client::new(1);
    client.increase_available_amount(100000);
    let mut withdraw_transaction: Transaction = Transaction {
        tx_type: TxType::Withdrawal,
        tx: 1,
        amount: 20000,
        client: 1,
    };

    // Verify first successful withdrawal transaction
    assert_eq!((), client.consume_withdrawal(withdraw_transaction).unwrap());
    assert_eq!(80000, client.get_available_amount());
    assert_eq!(withdraw_transaction, *client.get_transaction(1).unwrap());
    assert_eq!(80000, client.get_total_amount());

    // Verify second successful withdrawal transaction
    withdraw_transaction.tx += 1;
    assert_eq!((), client.consume_withdrawal(withdraw_transaction).unwrap());
    assert_eq!(60000, client.get_available_amount());
    assert_eq!(withdraw_transaction, *client.get_transaction(2).unwrap());
    assert_eq!(60000, client.get_total_amount());

    // Dispute both transactions
    let mut dispute_transaction: Transaction = Transaction {
        tx_type: TxType::Dispute,
        tx: 1,
        amount: 0,
        client: 1,
    };

    assert_eq!((), client.consume_dispute(dispute_transaction).unwrap());
    assert_eq!(true, client.check_disputed_transaction(1));
    assert_eq!(0, client.get_held_amount());
    assert_eq!(60000, client.get_available_amount());

    dispute_transaction.tx += 1;
    assert_eq!((), client.consume_dispute(dispute_transaction).unwrap());
    assert_eq!(true, client.check_disputed_transaction(2));
    assert_eq!(0, client.get_held_amount());
    assert_eq!(60000, client.get_available_amount());

    // Resolve first transaction
    let resolve_transaction: Transaction = Transaction {
        tx_type: TxType::Resolve,
        tx: 1,
        amount: 0,
        client: 1,
    };

    assert_eq!((), client.consume_resolve(resolve_transaction).unwrap());
    assert_eq!(true, client.check_resolved_transaction(1));
    assert_eq!(false, client.check_disputed_transaction(1));
    assert_eq!(60000, client.get_available_amount());

    // Chargeback second transaction
    let chargeback_transaction: Transaction = Transaction {
        tx_type: TxType::Chargeback,
        tx: 2,
        amount: 0,
        client: 1,
    };

    assert_eq!(
        (),
        client.consume_chargeback(chargeback_transaction).unwrap()
    );
    assert_eq!(true, client.check_resolved_transaction(2));
    assert_eq!(false, client.check_disputed_transaction(2));
    assert_eq!(80000, client.get_available_amount());
    assert_eq!(true, client.is_locked());
}

#[test]
fn test_tx_errors() {
    let mut client: Client = Client::new(1);
    let mut deposit_transaction: Transaction = Transaction {
        tx_type: TxType::Deposit,
        tx: 1,
        amount: 200000,
        client: 1,
    };
    // Add two transactions
    assert_eq!((), client.consume_deposit(deposit_transaction).unwrap());
    deposit_transaction.tx += 1;
    assert_eq!((), client.consume_deposit(deposit_transaction).unwrap());

    // Try to withdraw more than available
    let withdrawal_transaction: Transaction = Transaction {
        tx_type: TxType::Withdrawal,
        tx: 3,
        amount: 500000,
        client: 1,
    };
    assert_eq!(
        "PROCESSOR ERROR: Invalid withdrawal transaction 3. Available amount is smaller than withdraw amount.",
        client
            .consume_withdrawal(withdrawal_transaction)
            .unwrap_err()
            .message()
    );

    // Try to process transaction with same id
    assert_eq!(
        "PROCESSOR ERROR: Transaction with ID: 2 already exists.",
        client
            .consume_deposit(deposit_transaction)
            .unwrap_err()
            .message()
    );

    let mut dispute_transaction: Transaction = Transaction {
        tx_type: TxType::Dispute,
        tx: 1,
        amount: 0,
        client: 1,
    };

    // Dispute first transaction
    assert_eq!((), client.consume_dispute(dispute_transaction).unwrap());

    // Double dispute the second transaction
    dispute_transaction.tx = 2;
    assert_eq!((), client.consume_dispute(dispute_transaction).unwrap());
    assert_eq!(
        "PROCESSOR ERROR: Transaction 2 is already disputed/resolved.",
        client
            .consume_dispute(dispute_transaction)
            .unwrap_err()
            .message()
    );

    // Resolve second transaction and then try to resolve it again
    let resolve_transaction: Transaction = Transaction {
        tx_type: TxType::Resolve,
        tx: 2,
        amount: 0,
        client: 1,
    };
    assert_eq!((), client.consume_resolve(resolve_transaction).unwrap());
    assert_eq!(
        "PROCESSOR ERROR: Transaction 2 is not disputed.",
        client
            .consume_resolve(resolve_transaction)
            .unwrap_err()
            .message()
    );

    // Chargeback first transaction and then try to chargeback again
    let chargeback_transaction: Transaction = Transaction {
        tx_type: TxType::Chargeback,
        tx: 1,
        amount: 0,
        client: 1,
    };
    assert_eq!(
        (),
        client.consume_chargeback(chargeback_transaction).unwrap()
    );
    assert_eq!(
        "PROCESSOR ERROR: Transaction 1 is not disputed.",
        client
            .consume_chargeback(chargeback_transaction)
            .unwrap_err()
            .message()
    );
}

#[test]
fn test_new_transaction() {
    let transaction: Transaction = Transaction {
        tx_type: TxType::Deposit,
        client: 1,
        tx: 1,
        amount: 100456,
    };

    assert_eq!(transaction.get_tx_id(), 1);
    assert_eq!(transaction.get_client_id(), 1);
    assert_eq!(transaction.get_tx_type(), TxType::Deposit);
    assert_eq!(transaction.get_amount(), 100456);
}
