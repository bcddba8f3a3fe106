use ledger::{Amount, Client, Transaction, TxType};

/// The amount written `x` in decimal notation.
fn dec(x: f64) -> Amount {
    Amount::from_units((x * 10_000.0).round() as i128)
}

#[test]
fn transaction_test_deposit() {
    let mut clients: Vec<Client> = Vec::new();
    let tx = Transaction {
        tx_type: TxType::Deposit,
        client_id: 1,
        tx_id: 1,
        amount: Some(dec(1.0)),
        disputed: false,
    };

    tx.deposit(&mut clients);

    assert_eq!(dec(1.0), clients.first().unwrap().available_funds);
    assert_eq!(dec(1.0), clients.first().unwrap().total_funds);

    tx.deposit(&mut clients);
    assert_eq!(dec(2.0), clients.first().unwrap().available_funds);
    assert_eq!(dec(2.0), clients.first().unwrap().total_funds);
    assert_eq!(1, clients.len())
}

#[test]
fn transaction_test_withdrawal() {
    let mut clients: Vec<Client> = Vec::new();
    let tx_d = Transaction {
        tx_type: TxType::Deposit,
        client_id: 1,
        tx_id: 1,
        amount: Some(dec(1.0)),
        disputed: false,
    };

    let mut tx_w = Transaction {
        tx_type: TxType::Withdrawal,
        client_id: 1,
        tx_id: 2,
        amount: Some(dec(0.5)),
        disputed: false,
    };

    //use never funded the account, so there is no account
    tx_w.withdrawal(&mut clients);
    assert!(clients.is_empty());

    //account is created, funded and takes out money
    tx_d.deposit(&mut clients);
    tx_w.withdrawal(&mut clients);

    assert_eq!(dec(0.5), clients.first().unwrap().available_funds);
    assert_eq!(dec(0.5), clients.first().unwrap().total_funds);

    //withdraw more money than the account has
    tx_w.amount = Some(dec(5.0));

    tx_w.withdrawal(&mut clients);

    assert_eq!(dec(0.5), clients.first().unwrap().available_funds);
    assert_eq!(dec(0.5), clients.first().unwrap().total_funds)
}

#[test]
fn transaction_test_withdrawal_resolve() {
    let mut clients: Vec<Client> = Vec::new();
    let tx_d = Transaction {
        tx_type: TxType::Deposit,
        client_id: 1,
        tx_id: 1,
        amount: Some(dec(10.0)),
        disputed: false,
    };

    let tx_w = Transaction {
        tx_type: TxType::Withdrawal,
        client_id: 1,
        tx_id: 2,
        amount: Some(dec(2.0)),
        disputed: false,
    };

    let tx_dispute = Transaction {
        tx_type: TxType::Dispute,
        client_id: 1,
        tx_id: 2,
        amount: None,
        disputed: false,
    };

    let tx_resolve = Transaction {
        tx_type: TxType::Resolve,
        client_id: 1,
        tx_id: 2,
        amount: None,
        disputed: false,
    };

    //create and fund the account
    tx_d.deposit(&mut clients);

    //withdraw an amount
    tx_w.withdrawal(&mut clients);

    //try to resolve a not disputed transaction (nothing should happen)
    tx_resolve.resolve(&mut clients);
    {
        let c = clients.first().unwrap();

        assert_eq!(dec(8.0), c.available_funds);
        assert_eq!(dec(0.0), c.held_funds);
        assert!(!c.transactions.get(1).unwrap().disputed);
    }

    //dispute the withdrawal
    tx_dispute.dispute(&mut clients);

    {
        let c = clients.first().unwrap();

        assert_eq!(dec(6.0), c.available_funds);
        assert_eq!(dec(2.0), c.held_funds);
        assert_eq!(dec(8.0), c.total_funds);
        assert!(c.transactions.get(1).unwrap().disputed);
    }

    //resolve the disputed transaction
    tx_resolve.resolve(&mut clients);

    let c = clients.first().unwrap();
    assert_eq!(dec(8.0), c.available_funds);
    assert_eq!(dec(0.0), c.held_funds);
    assert_eq!(dec(8.0), c.total_funds);

    assert!(!c.transactions.get(1).unwrap().disputed);
    assert!(!c.locked)
}
#[test]
fn transaction_test_withdrawal_chargeback() {
    let mut clients: Vec<Client> = Vec::new();
    let tx_d = Transaction {
        tx_type: TxType::Deposit,
        client_id: 1,
        tx_id: 1,
        amount: Some(dec(10.0)),
        disputed: false,
    };

    let tx_w = Transaction {
        tx_type: TxType::Withdrawal,
        client_id: 1,
        tx_id: 2,
        amount: Some(dec(2.0)),
        disputed: false,
    };

    let tx_dispute = Transaction {
        tx_type: TxType::Dispute,
        client_id: 1,
        tx_id: 2,
        amount: None,
        disputed: false,
    };

    let tx_chargeback = Transaction {
        tx_type: TxType::Chargeback,
        client_id: 1,
        tx_id: 2,
        amount: None,
        disputed: false,
    };

    //create and fund the account
    tx_d.deposit(&mut clients);

    //withdraw an amount
    tx_w.withdrawal(&mut clients);

    //try to chargeback a not disputed transaction (nothing should happen)
    tx_chargeback.chargeback(&mut clients);
    {
        let c = clients.first().unwrap();

        assert_eq!(dec(8.0), c.available_funds);
        assert_eq!(dec(0.0), c.held_funds);
        assert!(!c.transactions.get(1).unwrap().disputed);
    }

    //dispute the withdrawal
    tx_dispute.dispute(&mut clients);

    //client reverses the transaction
    tx_chargeback.chargeback(&mut clients);

    let c = clients.first().unwrap();
    assert_eq!(dec(0.0), c.held_funds);
    assert_eq!(dec(10.0), c.total_funds);
    assert!(c.locked)
}

#[test]
fn transaction_test_deposit_chargeback() {
    let mut clients: Vec<Client> = Vec::new();
    let tx_d = Transaction {
        tx_type: TxType::Deposit,
        client_id: 1,
        tx_id: 1,
        amount: Some(dec(10.0)),
        disputed: false,
    };

    let tx_dd = Transaction {
        tx_type: TxType::Deposit,
        client_id: 1,
        tx_id: 2,
        amount: Some(dec(10.0)),
        disputed: false,
    };

    let tx_dispute = Transaction {
        tx_type: TxType::Dispute,
        client_id: 1,
        tx_id: 2,
        amount: None,
        disputed: false,
    };

    let tx_chargeback = Transaction {
        tx_type: TxType::Chargeback,
        client_id: 1,
        tx_id: 2,
        amount: None,
        disputed: false,
    };

    tx_d.deposit(&mut clients);
    tx_dd.deposit(&mut clients);

    assert_eq!(dec(20.0), clients.first().unwrap().total_funds);

    tx_dispute.dispute(&mut clients);
    tx_chargeback.chargeback(&mut clients);

    assert_eq!(1, clients.len());
    {
        let c = clients.first().unwrap();

        assert_eq!(dec(10.0), c.total_funds);
        assert!(c.locked)
    }

    //doing something with a locked account is not possible
    tx_dd.deposit(&mut clients);
    assert_eq!(dec(10.0), clients.first().unwrap().total_funds)
}

#[test]
fn transaction_test_deposit_resolve() {
    let mut clients: Vec<Client> = Vec::new();
    let tx_d = Transaction {
        tx_type: TxType::Deposit,
        client_id: 1,
        tx_id: 1,
        amount: Some(dec(10.0)),
        disputed: false,
    };

    let tx_dd = Transaction {
        tx_type: TxType::Deposit,
        client_id: 1,
        tx_id: 2,
        amount: Some(dec(10.0)),
        disputed: false,
    };

    let tx_dispute = Transaction {
        tx_type: TxType::Dispute,
        client_id: 1,
        tx_id: 2,
        amount: None,
        disputed: false,
    };

    let tx_chargeback = Transaction {
        tx_type: TxType::Resolve,
        client_id: 1,
        tx_id: 2,
        amount: None,
        disputed: false,
    };

    tx_d.deposit(&mut clients);
    tx_dd.deposit(&mut clients);

    assert_eq!(dec(20.0), clients.first().unwrap().total_funds);

    tx_dispute.dispute(&mut clients);
    tx_chargeback.resolve(&mut clients);

    assert_eq!(1, clients.len());
    let c = clients.first().unwrap();

    assert_eq!(dec(0.0), c.held_funds);
    assert_eq!(dec(20.0), c.total_funds);
}
