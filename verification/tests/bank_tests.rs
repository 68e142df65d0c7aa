use bank::account::{Account, AccountID};
use bank::ledger::{Bank, BankError};
use bank::log::{Operation, OperationKind};

#[test]
fn account_new_account_works() {
    let account1 = Account::new(100);
    let account2 = Account::new(200);
    assert_eq!(account1.balance, 100);
    assert_eq!(account2.balance, 200);
}

#[test]
fn bank_register_account_works() {
    let mut bank = Bank::default();
    let account1 = Account::new(100);
    let account2 = Account::new(200);

    let account1_id = account1.id;
    let account2_id = account2.id;

    let operation1_id = bank.register_account(account1).unwrap();
    let operation2_id = bank.register_account(account2).unwrap();

    assert_ne!(operation1_id, operation2_id);

    assert_eq!(
        bank.get_operation(operation1_id),
        Some(Operation {
            id: operation1_id,
            kind: OperationKind::Register {
                id: account1_id,
                balance: 100
            }
        })
    );

    assert_eq!(
        bank.get_operation(operation2_id),
        Some(Operation {
            id: operation2_id,
            kind: OperationKind::Register {
                id: account2_id,
                balance: 200
            }
        })
    );

    let account3 = account1;
    assert_eq!(
        bank.register_account(account3),
        Err(BankError::AlreadyExists)
    );
}

#[test]
fn bank_get_balance_works() {
    let mut bank = Bank::default();

    let account1 = Account::new(100);
    let account2 = Account::new(200);
    let account1_id = account1.id;
    let account2_id = account2.id;
    let account_undifned_id = AccountID::new();

    bank.register_account(account1).unwrap();
    bank.register_account(account2).unwrap();

    assert_eq!(bank.get_balance(account1_id), Ok(100));
    assert_eq!(bank.get_balance(account2_id), Ok(200));
    assert_eq!(
        bank.get_balance(account_undifned_id),
        Err(BankError::NotFound)
    );
}

#[test]
fn bank_deposit_works() {
    let mut bank = Bank::default();
    let account = Account::new(100);
    let account_id = account.id;

    bank.register_account(account).unwrap();

    assert_eq!(bank.deposit(account_id, 0), Err(BankError::ZeroAmount));

    let operation_id = bank.deposit(account_id, 50).unwrap();
    assert_eq!(
        bank.get_operation(operation_id).unwrap().kind,
        OperationKind::Deposit {
            id: account_id,
            amount: 50,
        }
    );
    assert_eq!(bank.get_balance(account_id).unwrap(), 150);

    let account_undifned_id = AccountID::new();
    assert_eq!(
        bank.deposit(account_undifned_id, 40),
        Err(BankError::NotFound)
    );
}

#[test]
fn bank_withdraw_works() {
    let mut bank = Bank::default();
    let account = Account::new(100);
    let account_id = account.id;
    bank.register_account(account).unwrap();

    assert_eq!(bank.withdraw(account_id, 0), Err(BankError::ZeroAmount));
    assert_eq!(
        bank.withdraw(account_id, 200),
        Err(BankError::InsufficientFunds)
    );

    let operation_id = bank.withdraw(account_id, 50).unwrap();
    assert_eq!(
        bank.get_operation(operation_id).unwrap().kind,
        OperationKind::Withdraw {
            id: account_id,
            amount: 50
        }
    );
    assert_eq!(bank.get_balance(account_id).unwrap(), 50);

    let account_undifned_id = AccountID::new();
    assert_eq!(
        bank.withdraw(account_undifned_id, 10),
        Err(BankError::NotFound)
    )
}

#[test]
fn bank_transfer_works() {
    let mut bank = Bank::default();
    let sender = Account::new(100);
    let receiver = Account::new(200);
    let sender_id = sender.id;
    let receiver_id = receiver.id;

    bank.register_account(sender).unwrap();
    bank.register_account(receiver).unwrap();

    assert_eq!(
        bank.transfer(sender_id, receiver_id, 0),
        Err(BankError::ZeroAmount)
    );
    assert_eq!(
        bank.transfer(sender_id, receiver_id, 1000),
        Err(BankError::InsufficientFunds)
    );
    assert_eq!(
        bank.transfer(sender_id, sender_id, 50),
        Err(BankError::TransferToItself)
    );

    let operation_id = bank.transfer(sender_id, receiver_id, 50).unwrap();
    assert_eq!(
        bank.get_operation(operation_id).unwrap().kind,
        OperationKind::Transfer {
            sender_id,
            receiver_id,
            amount: 50
        },
    );

    assert_eq!(bank.get_balance(sender_id).unwrap(), 50);
    assert_eq!(bank.get_balance(receiver_id).unwrap(), 250);
}

#[test]
fn bank_get_all_operations_works() {
    let mut bank = Bank::default();

    let account1 = Account::new(100);
    let account2 = Account::new(200);
    let account3 = Account::new(300);

    let account1_id = account1.id;
    let account2_id = account2.id;
    let account3_id = account3.id;

    bank.register_account(account1).unwrap();
    bank.register_account(account2).unwrap();
    bank.register_account(account3).unwrap();

    bank.deposit(account1_id, 50).unwrap();
    bank.withdraw(account2_id, 50).unwrap();
    bank.transfer(account3_id, account2_id, 10).unwrap();

    let operations = bank
        .get_all_operations()
        .iter()
        .map(|operation| operation.kind)
        .collect::<Vec<OperationKind>>();

    let expected_operations = vec![
        OperationKind::Register {
            id: account1_id,
            balance: 100,
        },
        OperationKind::Register {
            id: account2_id,
            balance: 200,
        },
        OperationKind::Register {
            id: account3_id,
            balance: 300,
        },
        OperationKind::Deposit {
            id: account1_id,
            amount: 50,
        },
        OperationKind::Withdraw {
            id: account2_id,
            amount: 50,
        },
        OperationKind::Transfer {
            sender_id: account3_id,
            receiver_id: account2_id,
            amount: 10,
        },
    ];

    assert_eq!(expected_operations, operations);
}

#[test]
fn bank_get_account_operations_works() {
    let mut bank = Bank::default();

    let account1 = Account::new(100);
    let account2 = Account::new(200);
    let account3 = Account::new(300);

    let account1_id = account1.id;
    let account2_id = account2.id;
    let account3_id = account3.id;

    bank.register_account(account1).unwrap();
    bank.register_account(account2).unwrap();
    bank.register_account(account3).unwrap();

    bank.deposit(account1_id, 50).unwrap();
    bank.withdraw(account2_id, 50).unwrap();
    bank.transfer(account3_id, account2_id, 20).unwrap();
    bank.deposit(account1_id, 150).unwrap();
    bank.withdraw(account1_id, 10).unwrap();
    bank.transfer(account1_id, account2_id, 10).unwrap();

    let account1_operations = bank
        .get_account_operations(account1_id)
        .iter()
        .map(|operation| operation.kind)
        .collect::<Vec<OperationKind>>();

    let account1_expected_operations = vec![
        OperationKind::Register {
            id: account1_id,
            balance: 100,
        },
        OperationKind::Deposit {
            id: account1_id,
            amount: 50,
        },
        OperationKind::Deposit {
            id: account1_id,
            amount: 150,
        },
        OperationKind::Withdraw {
            id: account1_id,
            amount: 10,
        },
        OperationKind::Transfer {
            sender_id: account1_id,
            receiver_id: account2_id,
            amount: 10,
        },
    ];

    assert_eq!(account1_expected_operations, account1_operations);

    let account2_operations = bank
        .get_account_operations(account2_id)
        .iter()
        .map(|operation| operation.kind)
        .collect::<Vec<OperationKind>>();

    let account2_expected_operations = vec![
        OperationKind::Register {
            id: account2_id,
            balance: 200,
        },
        OperationKind::Withdraw {
            id: account2_id,
            amount: 50,
        },
        OperationKind::Transfer {
            sender_id: account3_id,
            receiver_id: account2_id,
            amount: 20,
        },
        OperationKind::Transfer {
            sender_id: account1_id,
            receiver_id: account2_id,
            amount: 10,
        },
    ];

    assert_eq!(account2_expected_operations, account2_operations);

    let account3_operations = bank
        .get_account_operations(account3_id)
        .iter()
        .map(|operation| operation.kind)
        .collect::<Vec<OperationKind>>();

    let account3_expected_operations = vec![
        OperationKind::Register {
            id: account3_id,
            balance: 300,
        },
        OperationKind::Transfer {
            sender_id: account3_id,
            receiver_id: account2_id,
            amount: 20,
        },
    ];

    assert_eq!(account3_expected_operations, account3_operations);
}

#[test]
fn bank_restore_works() {
    let mut bank1 = Bank::default();

    let account1 = Account::new(100);
    let account2 = Account::new(200);
    let account3 = Account::new(300);

    let account1_id = account1.id;
    let account2_id = account2.id;
    let account3_id = account3.id;

    bank1.register_account(account1).unwrap();
    bank1.register_account(account2).unwrap();
    bank1.register_account(account3).unwrap();

    bank1.deposit(account1_id, 50).unwrap();
    bank1.withdraw(account2_id, 50).unwrap();
    bank1.transfer(account3_id, account2_id, 20).unwrap();
    bank1.deposit(account1_id, 150).unwrap();
    bank1.withdraw(account1_id, 10).unwrap();
    bank1.transfer(account1_id, account2_id, 10).unwrap();

    let bank2 = Bank::restore(&bank1.get_all_operations()).unwrap();

    assert_eq!(bank1, bank2)
}
