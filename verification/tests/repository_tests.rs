use bank::account::Account;
use bank::log::OperationKind;
use bank::repository::{Repository, RepositoryError};

#[test]
fn repository_new_bank_works() {
    let bank_id = Repository::default().new_bank();
    assert_eq!(bank_id, 1);
}

#[test]
fn repository_current_bank_id_works() {
    let mut repository = Repository::default();
    assert_eq!(repository.current_bank_id(), 0);

    repository.new_bank();
    assert_eq!(repository.current_bank_id(), 1);
}

#[test]
fn repository_change_bank_works() {
    let mut repository = Repository::default();
    repository.new_bank();
    repository.new_bank();
    repository.new_bank();

    assert_eq!(repository.current_bank_id(), 3);

    assert!(repository.change_bank(1).is_ok());
    assert_eq!(repository.current_bank_id(), 1);
    assert!(repository.change_bank(2).is_ok());
    assert_eq!(repository.current_bank_id(), 2);
    assert!(repository.change_bank(3).is_ok());
    assert_eq!(repository.current_bank_id(), 3);

    assert_eq!(
        Err(RepositoryError::InvalidBankId),
        repository.change_bank(0)
    );
    assert_eq!(
        Err(RepositoryError::InvalidBankId),
        repository.change_bank(4)
    );
    assert_eq!(
        Err(RepositoryError::InvalidBankId),
        repository.change_bank(100)
    );

    assert_eq!(repository.current_bank_id(), 3);
}

#[test]
fn repository_register_account_works() {
    let mut repository = Repository::default();
    assert!(repository.register_account(100).is_ok());
    assert!(repository.register_account(0).is_ok());
}

#[test]
fn repository_get_balance_works() {
    let mut repository = Repository::default();
    let (account_id, _) = repository.register_account(100).unwrap();
    assert_eq!(100, repository.get_balance(account_id).unwrap());

    let fake_account = Account::new(10);
    assert!(repository.get_balance(fake_account.id).is_err());
}

#[test]
fn repository_deposit_works() {
    let mut repository = Repository::default();
    let (account_id, _) = repository.register_account(100).unwrap();
    assert!(repository.deposit(account_id, 10).is_ok());
    assert_eq!(110, repository.get_balance(account_id).unwrap());
}

#[test]
fn repository_withdraw_works() {
    let mut repository = Repository::default();
    let (account_id, _) = repository.register_account(100).unwrap();
    assert!(repository.withdraw(account_id, 10).is_ok());
    assert_eq!(90, repository.get_balance(account_id).unwrap());
}

#[test]
fn repository_transfer_works() {
    let mut repository = Repository::default();
    let (sender_id, _) = repository.register_account(100).unwrap();
    let (receiver_id, _) = repository.register_account(100).unwrap();
    assert!(repository.transfer(sender_id, receiver_id, 10).is_ok());
    assert_eq!(90, repository.get_balance(sender_id).unwrap());
    assert_eq!(110, repository.get_balance(receiver_id).unwrap());
}

#[test]
fn repository_get_account_operations_works() {
    let mut repository = Repository::default();
    let (account1_id, _) = repository.register_account(100).unwrap();
    repository.deposit(account1_id, 10).unwrap();
    repository.withdraw(account1_id, 10).unwrap();

    let (account2_id, _) = repository.register_account(50).unwrap();
    repository.transfer(account1_id, account2_id, 10).unwrap();

    let operations: Vec<OperationKind> = repository
        .get_account_operations(account1_id)
        .iter()
        .map(|op| op.kind)
        .collect();

    let expected: Vec<OperationKind> = vec![
        OperationKind::Register {
            id: account1_id,
            balance: 100,
        },
        OperationKind::Deposit {
            id: account1_id,
            amount: 10,
        },
        OperationKind::Withdraw {
            id: account1_id,
            amount: 10,
        },
        OperationKind::Transfer {
            sender_id: account1_id,
            receiver_id: account2_id,
            amount: 10,
        },
    ];
    assert_eq!(operations, expected);
}

#[test]
fn repository_get_all_operations_works() {
    let mut repository = Repository::default();
    let (account1_id, _) = repository.register_account(100).unwrap();
    repository.deposit(account1_id, 10).unwrap();
    repository.withdraw(account1_id, 10).unwrap();

    let (account2_id, _) = repository.register_account(50).unwrap();
    repository.transfer(account1_id, account2_id, 10).unwrap();

    let operations: Vec<OperationKind> = repository
        .get_all_operations()
        .iter()
        .map(|op| op.kind)
        .collect();

    let expected: Vec<OperationKind> = vec![
        OperationKind::Register {
            id: account1_id,
            balance: 100,
        },
        OperationKind::Deposit {
            id: account1_id,
            amount: 10,
        },
        OperationKind::Withdraw {
            id: account1_id,
            amount: 10,
        },
        OperationKind::Register {
            id: account2_id,
            balance: 50,
        },
        OperationKind::Transfer {
            sender_id: account1_id,
            receiver_id: account2_id,
            amount: 10,
        },
    ];
    assert_eq!(operations, expected);
}

#[test]
fn repository_restore_bank_works() {
    let mut repository = Repository::default();
    let (account1_id, _) = repository.register_account(100).unwrap();
    let (account2_id, _) = repository.register_account(50).unwrap();

    repository.deposit(account1_id, 100).unwrap();
    repository.deposit(account2_id, 250).unwrap();
    repository.transfer(account1_id, account2_id, 50).unwrap();
    repository.withdraw(account2_id, 50).unwrap();

    repository.new_bank();
    repository.register_account(150).unwrap();
    repository.register_account(10).unwrap();

    repository.restore_bank(1).unwrap();

    let restored_bank_operations = repository
        .get_all_operations()
        .iter()
        .map(|op| op.to_text())
        .collect::<Vec<_>>();

    assert_eq!(3, repository.current_bank_id());

    repository.change_bank(1).unwrap();

    let original_bank_operations = repository
        .get_all_operations()
        .iter()
        .map(|op| op.to_text())
        .collect::<Vec<_>>();

    assert_eq!(original_bank_operations, restored_bank_operations);
}
