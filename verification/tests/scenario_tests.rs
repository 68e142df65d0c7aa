use bank::account::{Account, AccountID};
use bank::actor::{command_fits, execute, Reply};
use bank::command::Command;
use bank::ledger::{Bank, BankError};
use bank::log::{Operation, OperationID, OperationKind};
use bank::repository::{Repository, RepositoryError};
use bank::text::u64_to_string;

#[test]
fn ledger_scenario_works() {
    let mut bank = Bank::new();
    let a = Account::new(100);
    let b = Account::new(50);
    let a_id = a.id;
    let b_id = b.id;

    bank.register_account(a).unwrap();
    bank.register_account(b).unwrap();

    bank.deposit(a_id, 100).unwrap();
    assert_eq!(bank.get_balance(a_id), Ok(200));

    bank.transfer(a_id, b_id, 50).unwrap();
    assert_eq!(bank.get_balance(a_id), Ok(150));
    assert_eq!(bank.get_balance(b_id), Ok(100));

    assert_eq!(bank.withdraw(b_id, 200), Err(BankError::InsufficientFunds));
    assert_eq!(bank.get_balance(b_id), Ok(100));

    let kinds: Vec<OperationKind> = bank
        .get_all_operations()
        .iter()
        .map(|op| op.kind)
        .collect();
    let expected = vec![
        OperationKind::Register {
            id: a_id,
            balance: 100,
        },
        OperationKind::Register {
            id: b_id,
            balance: 50,
        },
        OperationKind::Deposit {
            id: a_id,
            amount: 100,
        },
        OperationKind::Transfer {
            sender_id: a_id,
            receiver_id: b_id,
            amount: 50,
        },
    ];
    assert_eq!(kinds, expected);
}

#[test]
fn empty_repository_auto_creates_bank_one() {
    let mut repository = Repository::new();
    assert_eq!(repository.current_bank_id(), 0);

    let (account_id, _operation_id) = repository.register_account(10).unwrap();
    assert_eq!(repository.current_bank_id(), 1);
    assert_eq!(repository.get_balance(account_id), Ok(10));
}

#[test]
fn change_bank_failure_keeps_current() {
    let mut repository = Repository::new();
    repository.new_bank();
    repository.new_bank();
    repository.new_bank();

    repository.change_bank(2).unwrap();
    assert_eq!(repository.current_bank_id(), 2);

    assert_eq!(
        repository.change_bank(5),
        Err(RepositoryError::InvalidBankId)
    );
    assert_eq!(repository.current_bank_id(), 2);
}

#[test]
fn restore_round_trip_preserves_ledger() {
    let mut bank = Bank::new();
    let a = Account::new(7);
    let b = Account::new(0);
    let a_id = a.id;
    let b_id = b.id;
    bank.register_account(a).unwrap();
    bank.register_account(b).unwrap();
    bank.deposit(b_id, 3).unwrap();
    bank.transfer(a_id, b_id, 2).unwrap();
    bank.withdraw(a_id, 5).unwrap();

    let restored = Bank::restore(&bank.get_all_operations()).unwrap();
    assert_eq!(restored, bank);
    assert_eq!(restored.get_balance(a_id), Ok(0));
    assert_eq!(restored.get_balance(b_id), Ok(5));
}

#[test]
fn restore_rejects_foreign_log() {
    let mut bank = Bank::new();
    let a = Account::new(10);
    let a_id = a.id;
    bank.register_account(a).unwrap();
    bank.withdraw(a_id, 4).unwrap();

    // Drop the register operation: the withdrawal then meets an empty
    // registry and replay must fail fast with the original error.
    let operations = bank.get_all_operations();
    let tail = operations[1..].to_vec();
    assert_eq!(Bank::restore(&tail).unwrap_err(), BankError::NotFound);
}

#[test]
fn for_account_is_subsequence_of_all() {
    let mut bank = Bank::new();
    let a = Account::new(1);
    let b = Account::new(2);
    let a_id = a.id;
    let b_id = b.id;
    bank.register_account(a).unwrap();
    bank.register_account(b).unwrap();
    bank.deposit(a_id, 5).unwrap();
    bank.deposit(b_id, 6).unwrap();
    bank.transfer(b_id, a_id, 3).unwrap();

    let all = bank.get_all_operations();
    let touching_a: Vec<_> = all
        .iter()
        .filter(|op| match op.kind {
            OperationKind::Register { id, .. } => id == a_id,
            OperationKind::Deposit { id, .. } => id == a_id,
            OperationKind::Withdraw { id, .. } => id == a_id,
            OperationKind::Transfer {
                sender_id,
                receiver_id,
                ..
            } => sender_id == a_id || receiver_id == a_id,
        })
        .copied()
        .collect();
    assert_eq!(bank.get_account_operations(a_id), touching_a);
}

#[test]
fn transfer_keeps_debit_when_receiver_is_unknown() {
    let mut bank = Bank::new();
    let a = Account::new(100);
    let a_id = a.id;
    bank.register_account(a).unwrap();

    let ghost_receiver = AccountID::new();
    assert_eq!(
        bank.transfer(a_id, ghost_receiver, 30),
        Err(BankError::NotFound)
    );
    // The deliberate asymmetry: the debit stands.
    assert_eq!(bank.get_balance(a_id), Ok(70));
    assert_eq!(bank.get_all_operations().len(), 1);
}

#[test]
fn every_bank_error_variant_is_reachable() {
    let mut bank = Bank::new();
    let a = Account::new(10);
    let b = Account::new(10);
    let a_id = a.id;
    let b_id = b.id;
    bank.register_account(a).unwrap();
    bank.register_account(b).unwrap();

    assert_eq!(
        bank.register_account(Account { id: a_id, balance: 1 }),
        Err(BankError::AlreadyExists)
    );
    assert_eq!(bank.deposit(a_id, 0), Err(BankError::ZeroAmount));
    assert_eq!(
        bank.get_balance(AccountID::new()),
        Err(BankError::NotFound)
    );
    assert_eq!(bank.withdraw(a_id, 11), Err(BankError::InsufficientFunds));
    assert_eq!(
        bank.transfer(a_id, a_id, 1),
        Err(BankError::TransferToItself)
    );
    assert_eq!(bank.transfer(a_id, b_id, 0), Err(BankError::ZeroAmount));
    assert_eq!(BankError::NotFound.message(), "Account not found");
    assert_eq!(BankError::InsufficientFunds.message(), "Insufficient funds");
}

#[test]
fn execute_drives_the_repository() {
    let mut repository = Repository::new();

    let reply = execute(&mut repository, &Command::NewBank);
    assert_eq!(reply, Reply::Ack { bank: 0, result: 1 });

    let reply = execute(&mut repository, &Command::WhichBank);
    assert_eq!(reply, Reply::Ack { bank: 1, result: 1 });

    let reply = execute(&mut repository, &Command::RegisterAccount { balance: 100 });
    let account = match reply {
        Reply::Registered { bank, account, .. } => {
            assert_eq!(bank, 1);
            account
        }
        other => panic!("unexpected reply: {:?}", other),
    };

    let deposit = Command::Deposit {
        id: account,
        balance: 25,
    };
    assert!(command_fits(&repository, &deposit));
    let reply = execute(&mut repository, &deposit);
    assert!(matches!(reply, Reply::Done { bank: 1, .. }));

    let reply = execute(&mut repository, &Command::GetBalance { id: account });
    assert_eq!(
        reply,
        Reply::Balance {
            bank: 1,
            amount: 125
        }
    );

    let reply = execute(&mut repository, &Command::ChangeBank { id: 9 });
    assert_eq!(
        reply,
        Reply::Failed {
            bank: 1,
            error: RepositoryError::InvalidBankId
        }
    );

    let restore = Command::RestoreBank { id: 1 };
    assert!(command_fits(&repository, &restore));
    let reply = execute(&mut repository, &restore);
    assert_eq!(reply, Reply::Ack { bank: 1, result: 2 });

    let reply = execute(&mut repository, &Command::ListAllOperations);
    match reply {
        Reply::Listing { bank, operations } => {
            assert_eq!(bank, 2);
            assert_eq!(operations.len(), 2);
        }
        other => panic!("unexpected reply: {:?}", other),
    }
}

#[test]
fn execute_get_balance_auto_creates_bank_one() {
    let mut repository = Repository::new();
    let reply = execute(
        &mut repository,
        &Command::GetBalance {
            id: AccountID::new(),
        },
    );
    assert_eq!(
        reply,
        Reply::Failed {
            bank: 1,
            error: RepositoryError::BankError(BankError::NotFound)
        }
    );
    assert_eq!(repository.current_bank_id(), 1);
}

#[test]
fn execute_listing_on_empty_repository_creates_nothing() {
    let mut repository = Repository::new();
    let reply = execute(&mut repository, &Command::ListAllOperations);
    match reply {
        Reply::Listing { bank, operations } => {
            assert_eq!(bank, 0);
            assert!(operations.is_empty());
        }
        other => panic!("unexpected reply: {:?}", other),
    }
    assert_eq!(repository.current_bank_id(), 0);
}

#[test]
fn command_fits_spots_a_deposit_overflow() {
    let mut repository = Repository::new();
    let (account, _) = repository.register_account(u64::MAX - 5).unwrap();
    assert!(command_fits(
        &repository,
        &Command::Deposit {
            id: account,
            balance: 5
        }
    ));
    assert!(!command_fits(
        &repository,
        &Command::Deposit {
            id: account,
            balance: 6
        }
    ));
    assert!(command_fits(
        &repository,
        &Command::Deposit {
            id: AccountID::new(),
            balance: u64::MAX
        }
    ));
}

#[test]
fn replay_fits_check_accepts_every_stored_log() {
    let mut repository = Repository::new();
    let (a, _) = repository.register_account(100).unwrap();
    let (b, _) = repository.register_account(0).unwrap();
    repository.deposit(b, 40).unwrap();
    repository.transfer(a, b, 10).unwrap();
    assert!(Bank::replay_fits_check(&repository.get_all_operations()));
}

#[test]
fn operation_text_renders_canonically() {
    let account = AccountID::parse_str("97c56a4e-0d75-4a82-b683-628b8c219fa3").unwrap();
    let op = Operation {
        id: OperationID(1),
        kind: OperationKind::Register {
            id: account,
            balance: 100,
        },
    };
    assert_eq!(
        op.to_text(),
        "00000000-0000-0000-0000-000000000001: (Register 97c56a4e-0d75-4a82-b683-628b8c219fa3 100)"
    );
    let transfer = Operation {
        id: OperationID(2),
        kind: OperationKind::Transfer {
            sender_id: account,
            receiver_id: AccountID(0xff),
            amount: 7,
        },
    };
    assert_eq!(
        transfer.to_text(),
        "00000000-0000-0000-0000-000000000002: (Transfer 97c56a4e-0d75-4a82-b683-628b8c219fa3 00000000-0000-0000-0000-0000000000ff 7)"
    );
}

#[test]
fn u64_to_string_renders_decimals() {
    assert_eq!(u64_to_string(0), "0");
    assert_eq!(u64_to_string(7), "7");
    assert_eq!(u64_to_string(12034), "12034");
    assert_eq!(u64_to_string(u64::MAX), "18446744073709551615");
}
