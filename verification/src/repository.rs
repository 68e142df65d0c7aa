//! The repository: an ordered collection of ledgers ("banks") and the index
//! of the current one.
//!
//! Bank ids shown to callers are 1-based; 0 means "no bank yet". Mutating
//! calls on an empty repository lazily create bank 1 first; the listing
//! queries return nothing on an empty repository.

use vstd::prelude::*;

use crate::account::{Account, AccountID};
use crate::ledger::{
    delta_fits, delta_result, replay, replay_fits, transfer_fits, transfer_result, Bank, BankError,
};
use crate::log::{account_ops, Operation, OperationID};

verus! {

/// A repository-level rejection: a bad bank id, or a ledger error passed
/// through unchanged.
#[derive(Copy, Clone, PartialEq, Eq, Structural, Debug)]
pub enum RepositoryError {
    InvalidBankId,
    BankError(BankError),
}

/// The collection of all ledgers plus the current-bank selector.
pub struct Repository {
    banks: Vec<Bank>,
    current_bank: usize,
}

impl Repository {
    /// The stored ledgers, in creation order.
    pub closed spec fn banks_seq(&self) -> Seq<Bank> {
        self.banks@
    }

    /// The 0-based index of the current ledger.
    pub closed spec fn current(&self) -> int {
        self.current_bank as int
    }

    /// The current ledger (meaningful only when one exists).
    pub open spec fn cur_bank(&self) -> Bank {
        self.banks_seq()[self.current()]
    }

    /// Structural invariant: the selector is in range (0 on an empty
    /// repository) and every stored ledger is well-formed.
    pub open spec fn wf(&self) -> bool {
        &&& (self.banks_seq().len() == 0 ==> self.current() == 0)
        &&& (self.banks_seq().len() > 0 ==> 0 <= self.current() < self.banks_seq().len())
        &&& forall|i: int| 0 <= i < self.banks_seq().len() ==> (#[trigger] self.banks_seq()[i]).wf()
    }

    /// The 1-based id of the current bank, or 0 when none exists yet.
    pub open spec fn spec_current_bank_id(&self) -> int {
        if self.banks_seq().len() == 0 {
            0
        } else {
            self.current() + 1
        }
    }

    /// The frame of a call delegated to the current bank: bank 1 is lazily
    /// created exactly when none existed, the selector does not move, and no
    /// bank other than the current one changes.
    pub open spec fn delegation_frame(self, new_repo: Repository) -> bool {
        &&& new_repo.banks_seq().len() == (if self.banks_seq().len() == 0 {
            1int
        } else {
            self.banks_seq().len() as int
        })
        &&& new_repo.current() == (if self.banks_seq().len() == 0 {
            0int
        } else {
            self.current()
        })
        &&& forall|i: int|
            0 <= i < self.banks_seq().len() && i != new_repo.current()
                ==> new_repo.banks_seq()[i] == self.banks_seq()[i]
    }

    /// An empty repository: no banks, current id 0.
    pub fn new() -> (r: Repository)
        ensures
            r.wf(),
            r.banks_seq() == Seq::<Bank>::empty(),
            r.current() == 0,
    {
        Repository { banks: Vec::new(), current_bank: 0 }
    }

    /// The 1-based id of the current bank; 0 while no bank exists.
    pub fn current_bank_id(&self) -> (r: usize)
        requires
            self.wf(),
        ensures
            r as int == self.spec_current_bank_id(),
    {
        if self.banks.is_empty() {
            0
        } else {
            proof {
                assert(self.banks@.len() == self.banks.len());
            }
            self.current_bank + 1
        }
    }

    /// Appends a fresh empty ledger, makes it current, and returns its
    /// 1-based id.
    pub fn new_bank(&mut self) -> (r: usize)
        requires
            old(self).wf(),
        ensures
            final(self).wf(),
            final(self).banks_seq().len() == old(self).banks_seq().len() + 1,
            forall|i: int|
                0 <= i < old(self).banks_seq().len() ==> final(self).banks_seq()[i] == old(self).banks_seq()[i],
            final(self).banks_seq().last().wf(),
            final(self).banks_seq().last().consistent(),
            final(self).banks_seq().last().balances() == Map::<AccountID, u64>::empty(),
            final(self).banks_seq().last().ops() == Seq::<Operation>::empty(),
            final(self).current() == old(self).banks_seq().len(),
            r as int == old(self).banks_seq().len() + 1,
    {
        self.banks.push(Bank::new());
        self.current_bank = self.banks.len() - 1;
        self.current_bank + 1
    }

    /// Makes the bank with the given 1-based id current; rejects an id
    /// outside `[1, number of banks]` and then changes nothing.
    pub fn change_bank(&mut self, id: u64) -> (r: Result<(), RepositoryError>)
        requires
            old(self).wf(),
        ensures
            final(self).wf(),
            final(self).banks_seq() == old(self).banks_seq(),
            if 1 <= id <= old(self).banks_seq().len() {
                r == Ok::<(), RepositoryError>(()) && final(self).current() == id - 1
            } else {
                r == Err::<(), RepositoryError>(RepositoryError::InvalidBankId) && final(self).current() == old(self).current()
            },
    {
        if id < 1 || id > self.banks.len() as u64 {
            return Err(RepositoryError::InvalidBankId);
        }
        self.current_bank = (id - 1) as usize;
        Ok(())
    }

    /// Lazily creates bank 1 when the repository is still empty.
    fn ensure_bank(&mut self)
        requires
            old(self).wf(),
        ensures
            final(self).wf(),
            final(self).banks_seq().len() > 0,
            old(self).banks_seq().len() > 0 ==> *final(self) == *old(self),
            old(self).banks_seq().len() == 0 ==> {
                &&& final(self).banks_seq().len() == 1
                &&& final(self).current() == 0
                &&& final(self).cur_bank().consistent()
                &&& final(self).cur_bank().balances() == Map::<AccountID, u64>::empty()
                &&& final(self).cur_bank().ops() == Seq::<Operation>::empty()
            },
    {
        if self.banks.is_empty() {
            self.new_bank();
        }
    }

    /// Registers a fresh randomly identified account with the given starting
    /// balance in the current bank (created first if none exists). Returns
    /// the new account's id with the logged operation's id, or the ledger's
    /// rejection (a random identifier already taken).
    pub fn register_account(&mut self, balance: u64) -> (r: Result<
        (AccountID, OperationID),
        RepositoryError,
    >)
        requires
            old(self).wf(),
        ensures
            final(self).wf(),
            final(self).banks_seq().len() > 0,
            old(self).delegation_frame(*final(self)),
            final(self).spec_current_bank_id() == if old(self).banks_seq().len() == 0 {
                1int
            } else {
                old(self).spec_current_bank_id()
            },
            (old(self).banks_seq().len() == 0 || old(self).cur_bank().consistent()) ==> final(self).cur_bank().consistent(),
            ({
                let b0_bal = if old(self).banks_seq().len() == 0 {
                    Map::<AccountID, u64>::empty()
                } else {
                    old(self).cur_bank().balances()
                };
                let b0_ops = if old(self).banks_seq().len() == 0 {
                    Seq::<Operation>::empty()
                } else {
                    old(self).cur_bank().ops()
                };
                match r {
                    Ok((account_id, operation_id)) => {
                        &&& !b0_bal.contains_key(account_id)
                        &&& final(self).cur_bank().balances() == b0_bal.insert(account_id, balance)
                        &&& final(self).cur_bank().ops() == b0_ops.push(
                            Operation {
                                id: operation_id,
                                kind: crate::log::OperationKind::Register {
                                    id: account_id,
                                    balance,
                                },
                            },
                        )
                    },
                    Err(RepositoryError::BankError(e)) => {
                        &&& e == BankError::AlreadyExists
                        &&& final(self).cur_bank().balances() == b0_bal
                        &&& final(self).cur_bank().ops() == b0_ops
                    },
                    Err(RepositoryError::InvalidBankId) => false,
                }
            }),
            ({
                let b0_bal = if old(self).banks_seq().len() == 0 {
                    Map::<AccountID, u64>::empty()
                } else {
                    old(self).cur_bank().balances()
                };
                r is Err ==> b0_bal != Map::<AccountID, u64>::empty()
            }),
    {
        self.ensure_bank();
        let k = self.current_bank;
        let account = Account::new(balance);
        let account_id = account.id;
        let bank = &mut self.banks[k];
        let outcome = bank.register_account(account);
        match outcome {
            Ok(operation_id) => Ok((account_id, operation_id)),
            Err(e) => {
                proof {
                    let b0_bal = if old(self).banks_seq().len() == 0 {
                        Map::<AccountID, u64>::empty()
                    } else {
                        old(self).cur_bank().balances()
                    };
                    assert(b0_bal.contains_key(account_id));
                    assert(!Map::<AccountID, u64>::empty().contains_key(account_id));
                }
                Err(RepositoryError::BankError(e))
            },
        }
    }

    /// The balance of the given account in the current bank, created first
    /// if none exists (and then necessarily empty, so the lookup fails).
    pub fn get_balance(&mut self, id: AccountID) -> (r: Result<u64, RepositoryError>)
        requires
            old(self).wf(),
        ensures
            final(self).wf(),
            final(self).banks_seq().len() > 0,
            old(self).delegation_frame(*final(self)),
            ({
                let b0_bal = if old(self).banks_seq().len() == 0 {
                    Map::<AccountID, u64>::empty()
                } else {
                    old(self).cur_bank().balances()
                };
                r == if b0_bal.contains_key(id) {
                    Ok::<u64, RepositoryError>(b0_bal[id])
                } else {
                    Err::<u64, RepositoryError>(RepositoryError::BankError(BankError::NotFound))
                }
            }),
            old(self).banks_seq().len() > 0 ==> *final(self) == *old(self),
            old(self).banks_seq().len() == 0 ==> final(self).cur_bank().consistent() && final(self).cur_bank().balances() == Map::<AccountID, u64>::empty() && final(self).cur_bank().ops() == Seq::<Operation>::empty(),
    {
        self.ensure_bank();
        let k = self.current_bank;
        let outcome = self.banks[k].get_balance(id);
        match outcome {
            Ok(balance) => Ok(balance),
            Err(e) => Err(RepositoryError::BankError(e)),
        }
    }

    /// Deposits into the current bank (created first if none exists),
    /// passing the ledger's exact outcome through.
    pub fn deposit(&mut self, id: AccountID, amount: u64) -> (r: Result<
        OperationID,
        RepositoryError,
    >)
        requires
            old(self).wf(),
            old(self).banks_seq().len() > 0 ==> delta_fits(
                old(self).cur_bank().balances(),
                id,
                amount as int,
            ),
        ensures
            final(self).wf(),
            final(self).banks_seq().len() > 0,
            old(self).delegation_frame(*final(self)),
            (old(self).banks_seq().len() == 0 || old(self).cur_bank().consistent()) ==> final(self).cur_bank().consistent(),
            ({
                let b0_bal = if old(self).banks_seq().len() == 0 {
                    Map::<AccountID, u64>::empty()
                } else {
                    old(self).cur_bank().balances()
                };
                let b0_ops = if old(self).banks_seq().len() == 0 {
                    Seq::<Operation>::empty()
                } else {
                    old(self).cur_bank().ops()
                };
                let d = delta_result(b0_bal, id, amount as int);
                match r {
                    Ok(operation_id) => d == Ok::<Map<AccountID, u64>, BankError>(
                        final(self).cur_bank().balances(),
                    ) && final(self).cur_bank().ops() == b0_ops.push(
                        Operation {
                            id: operation_id,
                            kind: crate::log::OperationKind::Deposit { id, amount },
                        },
                    ),
                    Err(RepositoryError::BankError(e)) => d == Err::<
                        Map<AccountID, u64>,
                        BankError,
                    >(e) && final(self).cur_bank().balances() == b0_bal && final(self).cur_bank().ops() == b0_ops,
                    Err(RepositoryError::InvalidBankId) => false,
                }
            }),
    {
        self.ensure_bank();
        let k = self.current_bank;
        let bank = &mut self.banks[k];
        let outcome = bank.deposit(id, amount);
        match outcome {
            Ok(operation_id) => Ok(operation_id),
            Err(e) => Err(RepositoryError::BankError(e)),
        }
    }

    /// Withdraws from the current bank (created first if none exists),
    /// passing the ledger's exact outcome through.
    pub fn withdraw(&mut self, id: AccountID, amount: u64) -> (r: Result<
        OperationID,
        RepositoryError,
    >)
        requires
            old(self).wf(),
        ensures
            final(self).wf(),
            final(self).banks_seq().len() > 0,
            old(self).delegation_frame(*final(self)),
            (old(self).banks_seq().len() == 0 || old(self).cur_bank().consistent()) ==> final(self).cur_bank().consistent(),
            ({
                let b0_bal = if old(self).banks_seq().len() == 0 {
                    Map::<AccountID, u64>::empty()
                } else {
                    old(self).cur_bank().balances()
                };
                let b0_ops = if old(self).banks_seq().len() == 0 {
                    Seq::<Operation>::empty()
                } else {
                    old(self).cur_bank().ops()
                };
                let d = delta_result(b0_bal, id, -(amount as int));
                match r {
                    Ok(operation_id) => d == Ok::<Map<AccountID, u64>, BankError>(
                        final(self).cur_bank().balances(),
                    ) && final(self).cur_bank().ops() == b0_ops.push(
                        Operation {
                            id: operation_id,
                            kind: crate::log::OperationKind::Withdraw { id, amount },
                        },
                    ),
                    Err(RepositoryError::BankError(e)) => d == Err::<
                        Map<AccountID, u64>,
                        BankError,
                    >(e) && final(self).cur_bank().balances() == b0_bal && final(self).cur_bank().ops() == b0_ops,
                    Err(RepositoryError::InvalidBankId) => false,
                }
            }),
    {
        self.ensure_bank();
        let k = self.current_bank;
        let bank = &mut self.banks[k];
        let outcome = bank.withdraw(id, amount);
        match outcome {
            Ok(operation_id) => Ok(operation_id),
            Err(e) => Err(RepositoryError::BankError(e)),
        }
    }

    /// Transfers between two accounts of the current bank (created first if
    /// none exists), passing the ledger's exact outcome through — including
    /// the deliberately kept debit when only the credit leg fails.
    pub fn transfer(
        &mut self,
        sender_id: AccountID,
        receiver_id: AccountID,
        amount: u64,
    ) -> (r: Result<OperationID, RepositoryError>)
        requires
            old(self).wf(),
            old(self).banks_seq().len() > 0 ==> transfer_fits(
                old(self).cur_bank().balances(),
                sender_id,
                receiver_id,
                amount,
            ),
        ensures
            final(self).wf(),
            final(self).banks_seq().len() > 0,
            old(self).delegation_frame(*final(self)),
            ({
                let b0_bal = if old(self).banks_seq().len() == 0 {
                    Map::<AccountID, u64>::empty()
                } else {
                    old(self).cur_bank().balances()
                };
                (old(self).banks_seq().len() == 0 || old(self).cur_bank().consistent()) && (
                r is Ok || final(self).cur_bank().balances() == b0_bal) ==> final(self).cur_bank().consistent()
            }),
            ({
                let b0_bal = if old(self).banks_seq().len() == 0 {
                    Map::<AccountID, u64>::empty()
                } else {
                    old(self).cur_bank().balances()
                };
                let b0_ops = if old(self).banks_seq().len() == 0 {
                    Seq::<Operation>::empty()
                } else {
                    old(self).cur_bank().ops()
                };
                let t = transfer_result(b0_bal, sender_id, receiver_id, amount);
                match r {
                    Ok(operation_id) => t == Ok::<Map<AccountID, u64>, BankError>(
                        final(self).cur_bank().balances(),
                    ) && final(self).cur_bank().ops() == b0_ops.push(
                        Operation {
                            id: operation_id,
                            kind: crate::log::OperationKind::Transfer {
                                sender_id,
                                receiver_id,
                                amount,
                            },
                        },
                    ),
                    Err(RepositoryError::BankError(e)) => t == Err::<
                        Map<AccountID, u64>,
                        BankError,
                    >(e) && final(self).cur_bank().ops() == b0_ops && final(self).cur_bank().balances() == (if sender_id != receiver_id {
                        match delta_result(b0_bal, sender_id, -(amount as int)) {
                            Ok(m1) => m1,
                            Err(_) => b0_bal,
                        }
                    } else {
                        b0_bal
                    }),
                    Err(RepositoryError::InvalidBankId) => false,
                }
            }),
    {
        self.ensure_bank();
        let k = self.current_bank;
        let bank = &mut self.banks[k];
        let outcome = bank.transfer(sender_id, receiver_id, amount);
        match outcome {
            Ok(operation_id) => Ok(operation_id),
            Err(e) => Err(RepositoryError::BankError(e)),
        }
    }

    /// Replays the full log of the bank with the given 1-based id into a new
    /// ledger appended to the collection and made current; rejects a bad id,
    /// and passes any replay failure through with nothing changed.
    pub fn restore_bank(&mut self, id: u64) -> (r: Result<(), RepositoryError>)
        requires
            old(self).wf(),
            1 <= id <= old(self).banks_seq().len() ==> replay_fits(
                old(self).banks_seq()[id - 1].ops(),
            ),
        ensures
            final(self).wf(),
            match r {
                Ok(()) => {
                    &&& 1 <= id <= old(self).banks_seq().len()
                    &&& final(self).banks_seq().len() == old(self).banks_seq().len() + 1
                    &&& forall|i: int|
                        0 <= i < old(self).banks_seq().len() ==> final(self).banks_seq()[i] == old(self).banks_seq()[i]
                    &&& final(self).current() == old(self).banks_seq().len()
                    &&& final(self).cur_bank().consistent()
                    &&& final(self).cur_bank().ops() == old(self).banks_seq()[id - 1].ops()
                    &&& replay(old(self).banks_seq()[id - 1].ops()) == Ok::<
                        Map<AccountID, u64>,
                        BankError,
                    >(final(self).cur_bank().balances())
                },
                Err(RepositoryError::InvalidBankId) => !(1 <= id <= old(self).banks_seq().len())
                    && *final(self) == *old(self),
                Err(RepositoryError::BankError(e)) => {
                    &&& 1 <= id <= old(self).banks_seq().len()
                    &&& replay(old(self).banks_seq()[id - 1].ops()) == Err::<
                        Map<AccountID, u64>,
                        BankError,
                    >(e)
                    &&& *final(self) == *old(self)
                },
            },
    {
        if id < 1 || id > self.banks.len() as u64 {
            return Err(RepositoryError::InvalidBankId);
        }
        let source = (id - 1) as usize;
        let operations = self.banks[source].get_all_operations();
        match Bank::restore(&operations) {
            Ok(new_bank) => {
                self.banks.push(new_bank);
                self.current_bank = self.banks.len() - 1;
                Ok(())
            },
            Err(e) => Err(RepositoryError::BankError(e)),
        }
    }

    /// The operations of the current bank that reference the given account,
    /// in append order; empty while no bank exists.
    pub fn get_account_operations(&self, id: AccountID) -> (r: Vec<Operation>)
        requires
            self.wf(),
        ensures
            r@ == if self.banks_seq().len() == 0 {
                Seq::<Operation>::empty()
            } else {
                account_ops(self.cur_bank().ops(), id)
            },
    {
        if self.banks.is_empty() {
            Vec::new()
        } else {
            self.banks[self.current_bank].get_account_operations(id)
        }
    }

    /// The full log of the current bank, in insertion order; empty while no
    /// bank exists.
    pub fn get_all_operations(&self) -> (r: Vec<Operation>)
        requires
            self.wf(),
        ensures
            r@ == if self.banks_seq().len() == 0 {
                Seq::<Operation>::empty()
            } else {
                self.cur_bank().ops()
            },
    {
        if self.banks.is_empty() {
            Vec::new()
        } else {
            self.banks[self.current_bank].get_all_operations()
        }
    }

    /// Whether any bank exists yet.
    pub fn has_banks(&self) -> (r: bool)
        ensures
            r == (self.banks_seq().len() > 0),
    {
        !self.banks.is_empty()
    }

    /// The balance the given account holds in the current bank, if banks
    /// exist and the account is registered there.
    pub fn balance_of(&self, id: AccountID) -> (r: Option<u64>)
        requires
            self.wf(),
        ensures
            r == if self.banks_seq().len() > 0 && self.cur_bank().balances().contains_key(id) {
                Some(self.cur_bank().balances()[id])
            } else {
                None::<u64>
            },
    {
        if self.banks.is_empty() {
            return None;
        }
        match self.banks[self.current_bank].get_balance(id) {
            Ok(balance) => Some(balance),
            Err(_) => None,
        }
    }

    /// The full log of the bank with the given 1-based id, or nothing for an
    /// id out of range.
    pub fn operations_of_bank(&self, id: u64) -> (r: Option<Vec<Operation>>)
        requires
            self.wf(),
        ensures
            match r {
                Some(v) => 1 <= id <= self.banks_seq().len() && v@ == self.banks_seq()[id
                    - 1].ops(),
                None => !(1 <= id <= self.banks_seq().len()),
            },
    {
        if id < 1 || id > self.banks.len() as u64 {
            return None;
        }
        Some(self.banks[(id - 1) as usize].get_all_operations())
    }
}

impl Default for Repository {
    /// An empty repository.
    fn default() -> (r: Repository)
        ensures
            r.wf(),
            r.banks_seq() == Seq::<Bank>::empty(),
            r.current() == 0,
    {
        Repository::new()
    }
}

} // verus!
