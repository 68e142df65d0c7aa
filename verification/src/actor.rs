//! The command interpreter the serializing actor runs.
//!
//! One logical owner holds the `Repository` and calls `execute` for each
//! incoming command, in arrival order; sessions only send commands and await
//! replies. Everything here is synchronous and CPU-bound — the channel loop
//! and all I/O live with the transport.

use vstd::prelude::*;

use crate::account::AccountID;
use crate::command::Command;
use crate::ledger::{delta_fits, delta_result, replay, replay_fits, transfer_fits, transfer_result, Bank, BankError};
use crate::log::{account_ops, Operation, OperationID, OperationKind};
use crate::repository::{Repository, RepositoryError};

verus! {

/// What the actor answers: enough for the transport to render every reply
/// shape of the line protocol.
#[derive(Clone, PartialEq, Debug)]
pub enum Reply {
    /// A bank-level acknowledgement: the bank ordinal shown, and a resulting
    /// bank id.
    Ack { bank: u64, result: u64 },
    /// A freshly registered account with the operation that recorded it.
    Registered { bank: u64, operation: OperationID, account: AccountID },
    /// A balance query's answer.
    Balance { bank: u64, amount: u64 },
    /// A completed deposit, withdrawal or transfer.
    Done { bank: u64, operation: OperationID },
    /// A listing of operations.
    Listing { bank: u64, operations: Vec<Operation> },
    /// A rejected command, with the error to render.
    Failed { bank: u64, error: RepositoryError },
    /// A command the repository does not handle (`Quit`, `Help`).
    Ignored { bank: u64 },
}

/// The machine-limit side conditions a command must meet so that executing
/// it cannot overflow a 64-bit balance: exactly the arithmetic preconditions
/// of `deposit`, `transfer` and `restore_bank`.
pub open spec fn spec_command_fits(repo: Repository, cmd: Command) -> bool {
    match cmd {
        Command::Deposit { id, balance } => repo.banks_seq().len() > 0 ==> delta_fits(
            repo.cur_bank().balances(),
            id,
            balance as int,
        ),
        Command::Transfer { sender, receiver, amount } => repo.banks_seq().len() > 0
            ==> transfer_fits(repo.cur_bank().balances(), sender, receiver, amount),
        Command::RestoreBank { id } => 1 <= id <= repo.banks_seq().len() ==> replay_fits(
            repo.banks_seq()[id - 1].ops(),
        ),
        _ => true,
    }
}

/// Decides `spec_command_fits` executably, so an unverified caller can test
/// a command before handing it to `execute`.
pub fn command_fits(repo: &Repository, cmd: &Command) -> (r: bool)
    requires
        repo.wf(),
    ensures
        r == spec_command_fits(*repo, *cmd),
{
    match *cmd {
        Command::Deposit { id, balance } => {
            if !repo.has_banks() {
                return true;
            }
            match repo.balance_of(id) {
                Some(b) => balance <= u64::MAX - b,
                None => true,
            }
        },
        Command::Transfer { sender, receiver, amount } => {
            if !repo.has_banks() {
                return true;
            }
            if sender.0 == receiver.0 {
                return true;
            }
            match repo.balance_of(sender) {
                None => true,
                Some(sender_balance) => {
                    if amount == 0 || sender_balance < amount {
                        true
                    } else {
                        match repo.balance_of(receiver) {
                            None => true,
                            Some(receiver_balance) => amount <= u64::MAX - receiver_balance,
                        }
                    }
                },
            }
        },
        Command::RestoreBank { id } => {
            match repo.operations_of_bank(id) {
                Some(operations) => Bank::replay_fits_check(&operations),
                None => true,
            }
        },
        _ => true,
    }
}

/// Executes one typed command against the repository and builds the reply,
/// exactly as the serialized actor does for each received message.
pub fn execute(repo: &mut Repository, cmd: &Command) -> (r: Reply)
    requires
        old(repo).wf(),
        spec_command_fits(*old(repo), *cmd),
    ensures
        final(repo).wf(),
        match *cmd {
            Command::NewBank => {
                &&& final(repo).banks_seq().len() == old(repo).banks_seq().len() + 1
                &&& forall|i: int|
                    0 <= i < old(repo).banks_seq().len() ==> final(repo).banks_seq()[i] == old(repo).banks_seq()[i]
                &&& final(repo).current() == old(repo).banks_seq().len()
                &&& final(repo).cur_bank().consistent()
                &&& final(repo).cur_bank().balances() == Map::<AccountID, u64>::empty()
                &&& final(repo).cur_bank().ops() == Seq::<Operation>::empty()
                &&& (r matches Reply::Ack { bank, result } && bank as int == old(repo).banks_seq().len() && result as int == old(repo).banks_seq().len() + 1)
            },
            Command::ChangeBank { id } => {
                &&& final(repo).banks_seq() == old(repo).banks_seq()
                &&& if 1 <= id <= old(repo).banks_seq().len() {
                    final(repo).current() == id - 1 && (r matches Reply::Ack { bank, result }
                        && bank as int == old(repo).spec_current_bank_id() && result == id)
                } else {
                    final(repo).current() == old(repo).current() && (r matches Reply::Failed {
                        bank,
                        error,
                    } && bank as int == old(repo).spec_current_bank_id() && error
                        == RepositoryError::InvalidBankId)
                }
            },
            Command::WhichBank => {
                &&& final(repo).banks_seq().len() > 0
                &&& old(repo).banks_seq().len() > 0 ==> *final(repo) == *old(repo)
                &&& old(repo).banks_seq().len() == 0 ==> final(repo).banks_seq().len() == 1 && final(repo).current() == 0 && final(repo).cur_bank().consistent() && final(repo).cur_bank().balances() == Map::<AccountID, u64>::empty() && final(repo).cur_bank().ops() == Seq::<Operation>::empty()
                &&& (r matches Reply::Ack { bank, result } && bank as int == final(repo).spec_current_bank_id() && result as int == final(repo).spec_current_bank_id())
            },
            Command::RestoreBank { id } => {
                &&& if 1 <= id <= old(repo).banks_seq().len() && replay(
                    old(repo).banks_seq()[id - 1].ops(),
                ) is Ok {
                    &&& final(repo).banks_seq().len() == old(repo).banks_seq().len() + 1
                    &&& forall|i: int|
                        0 <= i < old(repo).banks_seq().len() ==> final(repo).banks_seq()[i] == old(repo).banks_seq()[i]
                    &&& final(repo).current() == old(repo).banks_seq().len()
                    &&& final(repo).cur_bank().consistent()
                    &&& final(repo).cur_bank().ops() == old(repo).banks_seq()[id - 1].ops()
                    &&& replay(old(repo).banks_seq()[id - 1].ops()) == Ok::<
                        Map<AccountID, u64>,
                        BankError,
                    >(final(repo).cur_bank().balances())
                    &&& (r matches Reply::Ack { bank, result } && bank as int == old(repo).spec_current_bank_id() && result as int == old(repo).banks_seq().len() + 1)
                } else {
                    &&& *final(repo) == *old(repo)
                    &&& (r matches Reply::Failed { bank, error } && bank as int == old(repo).spec_current_bank_id() && error == (if 1 <= id <= old(repo).banks_seq().len() {
                        RepositoryError::BankError(
                            replay(old(repo).banks_seq()[id - 1].ops())->Err_0,
                        )
                    } else {
                        RepositoryError::InvalidBankId
                    }))
                }
            },
            Command::RegisterAccount { balance } => {
                let b0_bal = if old(repo).banks_seq().len() == 0 {
                    Map::<AccountID, u64>::empty()
                } else {
                    old(repo).cur_bank().balances()
                };
                let b0_ops = if old(repo).banks_seq().len() == 0 {
                    Seq::<Operation>::empty()
                } else {
                    old(repo).cur_bank().ops()
                };
                &&& final(repo).banks_seq().len() > 0
                &&& old(repo).delegation_frame(*final(repo))
                &&& ((old(repo).banks_seq().len() == 0 || old(repo).cur_bank().consistent())
                    ==> final(repo).cur_bank().consistent())
                &&& match r {
                    Reply::Registered { bank, operation, account } => {
                        &&& bank as int == final(repo).spec_current_bank_id()
                        &&& !b0_bal.contains_key(account)
                        &&& final(repo).cur_bank().balances() == b0_bal.insert(account, balance)
                        &&& final(repo).cur_bank().ops() == b0_ops.push(
                            Operation {
                                id: operation,
                                kind: OperationKind::Register { id: account, balance },
                            },
                        )
                    },
                    Reply::Failed { bank, error } => {
                        &&& bank as int == final(repo).spec_current_bank_id()
                        &&& error == RepositoryError::BankError(BankError::AlreadyExists)
                        &&& b0_bal != Map::<AccountID, u64>::empty()
                        &&& final(repo).cur_bank().balances() == b0_bal
                        &&& final(repo).cur_bank().ops() == b0_ops
                    },
                    _ => false,
                }
            },
            Command::GetBalance { id } => {
                let b0_bal = if old(repo).banks_seq().len() == 0 {
                    Map::<AccountID, u64>::empty()
                } else {
                    old(repo).cur_bank().balances()
                };
                &&& final(repo).banks_seq().len() > 0
                &&& old(repo).delegation_frame(*final(repo))
                &&& (old(repo).banks_seq().len() > 0 ==> *final(repo) == *old(repo))
                &&& (old(repo).banks_seq().len() == 0 ==> final(repo).cur_bank().consistent()
                    && final(repo).cur_bank().balances() == Map::<AccountID, u64>::empty()
                    && final(repo).cur_bank().ops() == Seq::<Operation>::empty())
                &&& r == (if b0_bal.contains_key(id) {
                    Reply::Balance {
                        bank: (final(repo).spec_current_bank_id()) as u64,
                        amount: b0_bal[id],
                    }
                } else {
                    Reply::Failed {
                        bank: (final(repo).spec_current_bank_id()) as u64,
                        error: RepositoryError::BankError(BankError::NotFound),
                    }
                })
            },
            Command::Deposit { id, balance } => {
                let b0_bal = if old(repo).banks_seq().len() == 0 {
                    Map::<AccountID, u64>::empty()
                } else {
                    old(repo).cur_bank().balances()
                };
                let b0_ops = if old(repo).banks_seq().len() == 0 {
                    Seq::<Operation>::empty()
                } else {
                    old(repo).cur_bank().ops()
                };
                let d = delta_result(b0_bal, id, balance as int);
                &&& final(repo).banks_seq().len() > 0
                &&& old(repo).delegation_frame(*final(repo))
                &&& ((old(repo).banks_seq().len() == 0 || old(repo).cur_bank().consistent())
                    ==> final(repo).cur_bank().consistent())
                &&& match r {
                    Reply::Done { bank, operation } => {
                        &&& bank as int == final(repo).spec_current_bank_id()
                        &&& d == Ok::<Map<AccountID, u64>, BankError>(
                            final(repo).cur_bank().balances(),
                        )
                        &&& final(repo).cur_bank().ops() == b0_ops.push(
                            Operation {
                                id: operation,
                                kind: OperationKind::Deposit { id, amount: balance },
                            },
                        )
                    },
                    Reply::Failed { bank, error } => {
                        &&& bank as int == final(repo).spec_current_bank_id()
                        &&& (error matches RepositoryError::BankError(e) && d == Err::<
                            Map<AccountID, u64>,
                            BankError,
                        >(e))
                        &&& final(repo).cur_bank().balances() == b0_bal
                        &&& final(repo).cur_bank().ops() == b0_ops
                    },
                    _ => false,
                }
            },
            Command::Withdraw { id, balance } => {
                let b0_bal = if old(repo).banks_seq().len() == 0 {
                    Map::<AccountID, u64>::empty()
                } else {
                    old(repo).cur_bank().balances()
                };
                let b0_ops = if old(repo).banks_seq().len() == 0 {
                    Seq::<Operation>::empty()
                } else {
                    old(repo).cur_bank().ops()
                };
                let d = delta_result(b0_bal, id, -(balance as int));
                &&& final(repo).banks_seq().len() > 0
                &&& old(repo).delegation_frame(*final(repo))
                &&& ((old(repo).banks_seq().len() == 0 || old(repo).cur_bank().consistent())
                    ==> final(repo).cur_bank().consistent())
                &&& match r {
                    Reply::Done { bank, operation } => {
                        &&& bank as int == final(repo).spec_current_bank_id()
                        &&& d == Ok::<Map<AccountID, u64>, BankError>(
                            final(repo).cur_bank().balances(),
                        )
                        &&& final(repo).cur_bank().ops() == b0_ops.push(
                            Operation {
                                id: operation,
                                kind: OperationKind::Withdraw { id, amount: balance },
                            },
                        )
                    },
                    Reply::Failed { bank, error } => {
                        &&& bank as int == final(repo).spec_current_bank_id()
                        &&& (error matches RepositoryError::BankError(e) && d == Err::<
                            Map<AccountID, u64>,
                            BankError,
                        >(e))
                        &&& final(repo).cur_bank().balances() == b0_bal
                        &&& final(repo).cur_bank().ops() == b0_ops
                    },
                    _ => false,
                }
            },
            Command::Transfer { sender, receiver, amount } => {
                let b0_bal = if old(repo).banks_seq().len() == 0 {
                    Map::<AccountID, u64>::empty()
                } else {
                    old(repo).cur_bank().balances()
                };
                let b0_ops = if old(repo).banks_seq().len() == 0 {
                    Seq::<Operation>::empty()
                } else {
                    old(repo).cur_bank().ops()
                };
                let t = transfer_result(b0_bal, sender, receiver, amount);
                &&& final(repo).banks_seq().len() > 0
                &&& old(repo).delegation_frame(*final(repo))
                &&& ((old(repo).banks_seq().len() == 0 || old(repo).cur_bank().consistent()) && (
                r matches Reply::Done { .. } || final(repo).cur_bank().balances() == b0_bal)
                    ==> final(repo).cur_bank().consistent())
                &&& match r {
                    Reply::Done { bank, operation } => {
                        &&& bank as int == final(repo).spec_current_bank_id()
                        &&& t == Ok::<Map<AccountID, u64>, BankError>(
                            final(repo).cur_bank().balances(),
                        )
                        &&& final(repo).cur_bank().ops() == b0_ops.push(
                            Operation {
                                id: operation,
                                kind: OperationKind::Transfer {
                                    sender_id: sender,
                                    receiver_id: receiver,
                                    amount,
                                },
                            },
                        )
                    },
                    Reply::Failed { bank, error } => {
                        &&& bank as int == final(repo).spec_current_bank_id()
                        &&& (error matches RepositoryError::BankError(e) && t == Err::<
                            Map<AccountID, u64>,
                            BankError,
                        >(e))
                        &&& final(repo).cur_bank().ops() == b0_ops
                        &&& final(repo).cur_bank().balances() == (if sender != receiver {
                            match delta_result(b0_bal, sender, -(amount as int)) {
                                Ok(m1) => m1,
                                Err(_) => b0_bal,
                            }
                        } else {
                            b0_bal
                        })
                    },
                    _ => false,
                }
            },
            Command::ListAccountOperations { id } => {
                &&& *final(repo) == *old(repo)
                &&& (r matches Reply::Listing { bank, operations } && bank as int == old(repo).spec_current_bank_id() && operations@ == (if old(repo).banks_seq().len() == 0 {
                    Seq::<Operation>::empty()
                } else {
                    account_ops(old(repo).cur_bank().ops(), id)
                }))
            },
            Command::ListAllOperations => {
                &&& *final(repo) == *old(repo)
                &&& (r matches Reply::Listing { bank, operations } && bank as int == old(repo).spec_current_bank_id() && operations@ == (if old(repo).banks_seq().len() == 0 {
                    Seq::<Operation>::empty()
                } else {
                    old(repo).cur_bank().ops()
                }))
            },
            Command::Quit => *final(repo) == *old(repo) && (r matches Reply::Ignored { bank }
                && bank as int == old(repo).spec_current_bank_id()),
            Command::Help => *final(repo) == *old(repo) && (r matches Reply::Ignored { bank }
                && bank as int == old(repo).spec_current_bank_id()),
        },
{
    match *cmd {
        Command::NewBank => {
            let new_id = repo.new_bank();
            Reply::Ack { bank: (new_id - 1) as u64, result: new_id as u64 }
        },
        Command::ChangeBank { id } => {
            let shown = repo.current_bank_id();
            match repo.change_bank(id) {
                Ok(()) => Reply::Ack { bank: shown as u64, result: id },
                Err(_) => Reply::Failed {
                    bank: shown as u64,
                    error: RepositoryError::InvalidBankId,
                },
            }
        },
        Command::WhichBank => {
            if repo.current_bank_id() == 0 {
                repo.new_bank();
            }
            let current = repo.current_bank_id();
            Reply::Ack { bank: current as u64, result: current as u64 }
        },
        Command::RestoreBank { id } => {
            let shown = repo.current_bank_id();
            match repo.restore_bank(id) {
                Ok(()) => {
                    let result = repo.current_bank_id();
                    Reply::Ack { bank: shown as u64, result: result as u64 }
                },
                Err(e) => Reply::Failed { bank: shown as u64, error: e },
            }
        },
        Command::RegisterAccount { balance } => {
            let outcome = repo.register_account(balance);
            let shown = repo.current_bank_id();
            match outcome {
                Ok((account_id, operation_id)) => Reply::Registered {
                    bank: shown as u64,
                    operation: operation_id,
                    account: account_id,
                },
                Err(e) => Reply::Failed { bank: shown as u64, error: e },
            }
        },
        Command::GetBalance { id } => {
            let outcome = repo.get_balance(id);
            let shown = repo.current_bank_id();
            match outcome {
                Ok(amount) => Reply::Balance { bank: shown as u64, amount },
                Err(e) => Reply::Failed { bank: shown as u64, error: e },
            }
        },
        Command::Deposit { id, balance } => {
            let outcome = repo.deposit(id, balance);
            let shown = repo.current_bank_id();
            match outcome {
                Ok(operation_id) => Reply::Done { bank: shown as u64, operation: operation_id },
                Err(e) => Reply::Failed { bank: shown as u64, error: e },
            }
        },
        Command::Withdraw { id, balance } => {
            let outcome = repo.withdraw(id, balance);
            let shown = repo.current_bank_id();
            match outcome {
                Ok(operation_id) => Reply::Done { bank: shown as u64, operation: operation_id },
                Err(e) => Reply::Failed { bank: shown as u64, error: e },
            }
        },
        Command::Transfer { sender, receiver, amount } => {
            let outcome = repo.transfer(sender, receiver, amount);
            let shown = repo.current_bank_id();
            match outcome {
                Ok(operation_id) => Reply::Done { bank: shown as u64, operation: operation_id },
                Err(e) => Reply::Failed { bank: shown as u64, error: e },
            }
        },
        Command::ListAccountOperations { id } => {
            let operations = repo.get_account_operations(id);
            Reply::Listing { bank: repo.current_bank_id() as u64, operations }
        },
        Command::ListAllOperations => {
            let operations = repo.get_all_operations();
            Reply::Listing { bank: repo.current_bank_id() as u64, operations }
        },
        Command::Quit => Reply::Ignored { bank: repo.current_bank_id() as u64 },
        Command::Help => Reply::Ignored { bank: repo.current_bank_id() as u64 },
    }
}

} // verus!
