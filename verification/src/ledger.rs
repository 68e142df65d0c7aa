//! One ledger ("bank"): an account registry plus its operations log.
//!
//! Every accepted command is atomic: it is fully applied and logged, or
//! rejected with no trace. The one deliberate exception is a transfer whose
//! debit succeeds and whose credit then fails (the receiver does not exist):
//! the debit is not rolled back, and nothing is logged. The contracts below
//! state that case explicitly.

use vstd::prelude::*;

use crate::account::{Account, AccountID};
use crate::log::{
    account_ops, find_last, touches, Operation, OperationID, OperationKind, OperationsLog,
};

verus! {

/// Everything a ledger operation can be rejected with.
#[derive(Copy, Clone, PartialEq, Eq, Structural, Debug)]
pub enum BankError {
    NotFound,
    AlreadyExists,
    ZeroAmount,
    InsufficientFunds,
    TransferToItself,
}

impl BankError {
    /// The human-readable text of this error.
    pub fn message(&self) -> (r: &'static str)
        ensures
            self is NotFound ==> r@ == "Account not found"@,
            self is AlreadyExists ==> r@ == "Account already exists"@,
            self is ZeroAmount ==> r@ == "Zero amount"@,
            self is InsufficientFunds ==> r@ == "Insufficient funds"@,
            self is TransferToItself ==> r@ == "Transfer to itself"@,
    {
        match self {
            BankError::NotFound => "Account not found",
            BankError::AlreadyExists => "Account already exists",
            BankError::ZeroAmount => "Zero amount",
            BankError::InsufficientFunds => "Insufficient funds",
            BankError::TransferToItself => "Transfer to itself",
        }
    }
}

/// The registry a sequence of account records stands for: the balance of
/// each identifier, later records taking precedence (never needed while the
/// identifiers stay distinct).
pub open spec fn accounts_as_map(s: Seq<Account>) -> Map<AccountID, u64>
    decreases s.len(),
{
    if s.len() == 0 {
        Map::empty()
    } else {
        accounts_as_map(s.drop_last()).insert(s.last().id, s.last().balance)
    }
}

/// Distinct account identifiers.
pub open spec fn unique_ids(s: Seq<Account>) -> bool {
    forall|i: int, j: int| 0 <= i < j < s.len() ==> s[i].id != s[j].id
}

/// The identifiers of a sequence of account records, in order.
pub open spec fn record_ids(s: Seq<Account>) -> Seq<AccountID> {
    s.map_values(|a: Account| a.id)
}

/// The accounts a log registers, in registration order.
pub open spec fn register_ids(ops: Seq<Operation>) -> Seq<AccountID>
    decreases ops.len(),
{
    if ops.len() == 0 {
        Seq::empty()
    } else {
        register_ids(ops.drop_last()) + (match ops.last().kind {
            OperationKind::Register { id, .. } => seq![id],
            _ => Seq::empty(),
        })
    }
}

/// Appending one operation extends the registration order by that
/// operation's registered account, if it registers one.
proof fn lemma_register_ids_push(ops: Seq<Operation>, op: Operation)
    ensures
        register_ids(ops.push(op)) == register_ids(ops) + (match op.kind {
            OperationKind::Register { id, .. } => seq![id],
            _ => Seq::<AccountID>::empty(),
        }),
{
    assert(ops.push(op).drop_last() =~= ops);
    assert(ops.push(op).last() == op);
}

proof fn lemma_map_membership(s: Seq<Account>, id: AccountID)
    ensures
        accounts_as_map(s).contains_key(id) <==> exists|i: int| 0 <= i < s.len() && s[i].id == id,
    decreases s.len(),
{
    if s.len() > 0 {
        lemma_map_membership(s.drop_last(), id);
        if accounts_as_map(s).contains_key(id) {
            if s.last().id != id {
                let i = choose|i: int| 0 <= i < s.drop_last().len() && s.drop_last()[i].id == id;
                assert(s[i].id == id);
            }
        }
        if exists|i: int| 0 <= i < s.len() && s[i].id == id {
            let i = choose|i: int| 0 <= i < s.len() && s[i].id == id;
            if i < s.len() - 1 {
                assert(s.drop_last()[i].id == id);
            }
        }
    }
}

proof fn lemma_map_value_at(s: Seq<Account>, k: int)
    requires
        unique_ids(s),
        0 <= k < s.len(),
    ensures
        accounts_as_map(s).contains_key(s[k].id),
        accounts_as_map(s)[s[k].id] == s[k].balance,
    decreases s.len(),
{
    if k == s.len() - 1 {
        lemma_map_membership(s, s[k].id);
    } else {
        assert(s.drop_last()[k] == s[k]);
        lemma_map_value_at(s.drop_last(), k);
    }
}

proof fn lemma_map_update(s: Seq<Account>, k: int, a: Account)
    requires
        unique_ids(s),
        0 <= k < s.len(),
        s[k].id == a.id,
    ensures
        accounts_as_map(s.update(k, a)) == accounts_as_map(s).insert(a.id, a.balance),
    decreases s.len(),
{
    let upd = s.update(k, a);
    if k == s.len() - 1 {
        assert(upd.drop_last() =~= s.drop_last());
        assert(accounts_as_map(upd) == accounts_as_map(s.drop_last()).insert(a.id, a.balance));
        assert(accounts_as_map(s.drop_last()).insert(s.last().id, s.last().balance).insert(
            a.id,
            a.balance,
        ) =~= accounts_as_map(s.drop_last()).insert(a.id, a.balance));
    } else {
        assert(upd.last() == s.last());
        assert(upd.drop_last() =~= s.drop_last().update(k, a));
        assert(s.drop_last()[k] == s[k]);
        lemma_map_update(s.drop_last(), k, a);
        assert(s[k].id != s.last().id);
        assert(accounts_as_map(s.drop_last()).insert(a.id, a.balance).insert(
            s.last().id,
            s.last().balance,
        ) =~= accounts_as_map(s.drop_last()).insert(s.last().id, s.last().balance).insert(
            a.id,
            a.balance,
        ));
    }
}

/// One isolated set of accounts plus its operations log.
#[derive(Debug)]
pub struct Bank {
    accounts: Vec<Account>,
    operations_log: OperationsLog,
}

impl Bank {
    /// The registry this ledger holds: each registered identifier's balance.
    pub closed spec fn balances(&self) -> Map<AccountID, u64> {
        accounts_as_map(self.accounts@)
    }

    /// The full operation log, in insertion order.
    pub closed spec fn ops(&self) -> Seq<Operation> {
        self.operations_log@
    }

    /// Structural invariant: distinct account identifiers, a well-formed log
    /// index, and no degenerate self-transfer in the log.
    pub closed spec fn wf(&self) -> bool {
        &&& unique_ids(self.accounts@)
        &&& self.operations_log.wf()
        &&& no_self_transfer(self.operations_log@)
    }

    /// An empty ledger.
    pub fn new() -> (r: Bank)
        ensures
            r.wf(),
            r.consistent(),
            r.balances() == Map::<AccountID, u64>::empty(),
            r.ops() == Seq::<Operation>::empty(),
    {
        let r = Bank { accounts: Vec::new(), operations_log: OperationsLog::new() };
        proof {
            assert(record_ids(r.accounts@) =~= register_ids(r.operations_log@));
        }
        r
    }

    /// The position of the record holding the given identifier, if any.
    fn find_account(&self, id: AccountID) -> (r: Option<usize>)
        requires
            self.wf(),
        ensures
            match r {
                Some(k) => k < self.accounts@.len() && self.accounts@[k as int].id == id
                    && self.balances().contains_key(id) && self.balances()[id]
                    == self.accounts@[k as int].balance,
                None => !self.balances().contains_key(id),
            },
    {
        let n = self.accounts.len();
        let mut k: usize = 0;
        while k < n
            invariant
                self.wf(),
                k <= n,
                n == self.accounts@.len(),
                forall|j: int| 0 <= j < k ==> self.accounts@[j].id != id,
            decreases n - k,
        {
            if self.accounts[k].id.0 == id.0 {
                proof {
                    lemma_map_value_at(self.accounts@, k as int);
                }
                return Some(k);
            }
            k = k + 1;
        }
        proof {
            lemma_map_membership(self.accounts@, id);
        }
        None
    }

    /// Inserts the record if its identifier is new; rejects it otherwise.
    /// Never logs.
    fn do_register_account(&mut self, account: Account) -> (r: Result<(), BankError>)
        requires
            old(self).wf(),
        ensures
            final(self).wf(),
            final(self).ops() == old(self).ops(),
            match r {
                Ok(()) => final(self).accounts@ == old(self).accounts@.push(account),
                Err(_) => final(self).accounts@ == old(self).accounts@,
            },
            match r {
                Ok(()) => !old(self).balances().contains_key(account.id) && final(self).balances()
                    == old(self).balances().insert(account.id, account.balance),
                Err(e) => e == BankError::AlreadyExists && old(self).balances().contains_key(
                    account.id,
                ) && final(self).balances() == old(self).balances(),
            },
    {
        if self.find_account(account.id).is_some() {
            return Err(BankError::AlreadyExists);
        }
        let ghost s0 = self.accounts@;
        self.accounts.push(account);
        proof {
            assert(self.accounts@.drop_last() =~= s0);
            lemma_map_membership(s0, account.id);
            assert forall|i: int, j: int|
                0 <= i < j < self.accounts@.len() implies self.accounts@[i].id
                != self.accounts@[j].id by {
                if j == self.accounts@.len() - 1 {
                    if self.accounts@[i].id == account.id {
                        assert(s0[i].id == account.id);
                    }
                }
            }
        }
        Ok(())
    }

    /// Registers a new account and, on success, logs a `Register` operation
    /// carrying the account's exact identifier and starting balance; returns
    /// the fresh operation identifier. On failure nothing is logged.
    pub fn register_account(&mut self, account: Account) -> (r: Result<OperationID, BankError>)
        requires
            old(self).wf(),
        ensures
            final(self).wf(),
            old(self).consistent() ==> final(self).consistent(),
            match r {
                Ok(op_id) => {
                    &&& !old(self).balances().contains_key(account.id)
                    &&& final(self).balances() == old(self).balances().insert(
                        account.id,
                        account.balance,
                    )
                    &&& final(self).ops() == old(self).ops().push(
                        Operation {
                            id: op_id,
                            kind: OperationKind::Register {
                                id: account.id,
                                balance: account.balance,
                            },
                        },
                    )
                },
                Err(e) => {
                    &&& e == BankError::AlreadyExists
                    &&& old(self).balances().contains_key(account.id)
                    &&& final(self).balances() == old(self).balances()
                    &&& final(self).ops() == old(self).ops()
                },
            },
    {
        match self.do_register_account(account) {
            Ok(()) => {},
            Err(e) => {
                return Err(e);
            },
        }
        let operation_id = self.operations_log.log(
            OperationKind::Register { id: account.id, balance: account.balance },
        );
        proof {
            assert(no_self_transfer(self.operations_log@));
            lemma_replay_push(old(self).ops(), self.ops().last());
            lemma_register_ids_push(old(self).ops(), self.ops().last());
            assert(record_ids(self.accounts@) =~= record_ids(old(self).accounts@) + seq![
                account.id,
            ]);
        }
        Ok(operation_id)
    }

    /// The balance of the given account, or `NotFound`.
    pub fn get_balance(&self, id: AccountID) -> (r: Result<u64, BankError>)
        requires
            self.wf(),
        ensures
            r == if self.balances().contains_key(id) {
                Ok::<u64, BankError>(self.balances()[id])
            } else {
                Err::<u64, BankError>(BankError::NotFound)
            },
    {
        match self.find_account(id) {
            Some(k) => Ok(self.accounts[k].balance),
            None => Err(BankError::NotFound),
        }
    }

    /// The most recently logged operation under the given identifier.
    pub fn get_operation(&self, operation_id: OperationID) -> (r: Option<Operation>)
        ensures
            r == find_last(self.ops(), operation_id),
    {
        self.operations_log.get(operation_id)
    }

    /// Every logged operation, in global insertion order.
    pub fn get_all_operations(&self) -> (r: Vec<Operation>)
        ensures
            r@ == self.ops(),
    {
        self.operations_log.get_all_operations()
    }

    /// The operations referencing the given account, in the order they were
    /// appended to this ledger's log.
    pub fn get_account_operations(&self, account_id: AccountID) -> (r: Vec<Operation>)
        requires
            self.wf(),
        ensures
            r@ == account_ops(self.ops(), account_id),
    {
        self.operations_log.get_account_operations(account_id)
    }
}

/// No logged transfer names the same account as sender and receiver. Ledgers
/// reject such transfers before logging, so their logs satisfy this.
pub open spec fn no_self_transfer(ops: Seq<Operation>) -> bool {
    forall|i: int|
        0 <= i < ops.len() ==> match #[trigger] ops[i].kind {
            OperationKind::Transfer { sender_id, receiver_id, .. } => sender_id != receiver_id,
            _ => true,
        }
}

/// The signed amount an absolute value and a direction stand for.
pub open spec fn signed_of(amount_abs: u64, negative: bool) -> int {
    if negative {
        -(amount_abs as int)
    } else {
        amount_abs as int
    }
}

/// The outcome of changing one balance by a signed amount: rejects a zero
/// amount, an unknown account, and a balance that would become negative;
/// otherwise the one balance is replaced by its exact new value.
pub open spec fn delta_result(m: Map<AccountID, u64>, id: AccountID, amount: int) -> Result<
    Map<AccountID, u64>,
    BankError,
> {
    if amount == 0 {
        Err(BankError::ZeroAmount)
    } else if !m.contains_key(id) {
        Err(BankError::NotFound)
    } else if m[id] + amount < 0 {
        Err(BankError::InsufficientFunds)
    } else {
        Ok(m.insert(id, (m[id] + amount) as u64))
    }
}

/// The changed balance stays within the unsigned 64-bit machine limit.
pub open spec fn delta_fits(m: Map<AccountID, u64>, id: AccountID, amount: int) -> bool {
    m.contains_key(id) ==> m[id] + amount <= u64::MAX
}

/// The outcome of a transfer: rejected outright between an account and
/// itself; otherwise the sender is debited, then the receiver credited, each
/// leg as `delta_result`, the first failure winning.
pub open spec fn transfer_result(
    m: Map<AccountID, u64>,
    sender_id: AccountID,
    receiver_id: AccountID,
    amount: u64,
) -> Result<Map<AccountID, u64>, BankError> {
    if sender_id == receiver_id {
        Err(BankError::TransferToItself)
    } else {
        match delta_result(m, sender_id, -(amount as int)) {
            Ok(m1) => delta_result(m1, receiver_id, amount as int),
            Err(e) => Err(e),
        }
    }
}

/// The credit leg of a transfer stays within the machine limit.
pub open spec fn transfer_fits(
    m: Map<AccountID, u64>,
    sender_id: AccountID,
    receiver_id: AccountID,
    amount: u64,
) -> bool {
    sender_id != receiver_id ==> match delta_result(m, sender_id, -(amount as int)) {
        Ok(m1) => delta_fits(m1, receiver_id, amount as int),
        Err(_) => true,
    }
}

/// What one logged operation does to a registry when replayed.
pub open spec fn apply_kind(m: Map<AccountID, u64>, k: OperationKind) -> Result<
    Map<AccountID, u64>,
    BankError,
> {
    match k {
        OperationKind::Register { id, balance } => if m.contains_key(id) {
            Err(BankError::AlreadyExists)
        } else {
            Ok(m.insert(id, balance))
        },
        OperationKind::Deposit { id, amount } => delta_result(m, id, amount as int),
        OperationKind::Withdraw { id, amount } => delta_result(m, id, -(amount as int)),
        OperationKind::Transfer { sender_id, receiver_id, amount } => transfer_result(
            m,
            sender_id,
            receiver_id,
            amount,
        ),
    }
}

/// Replaying one logged operation stays within the machine limits.
pub open spec fn kind_fits(m: Map<AccountID, u64>, k: OperationKind) -> bool {
    match k {
        OperationKind::Register { .. } => true,
        OperationKind::Deposit { id, amount } => delta_fits(m, id, amount as int),
        OperationKind::Withdraw { .. } => true,
        OperationKind::Transfer { sender_id, receiver_id, amount } => transfer_fits(
            m,
            sender_id,
            receiver_id,
            amount,
        ),
    }
}

/// Replaying a whole log from an empty registry, failing fast on the first
/// step that would not have succeeded.
pub open spec fn replay(ops: Seq<Operation>) -> Result<Map<AccountID, u64>, BankError>
    decreases ops.len(),
{
    if ops.len() == 0 {
        Ok(Map::empty())
    } else {
        match replay(ops.drop_last()) {
            Ok(m) => apply_kind(m, ops.last().kind),
            Err(e) => Err(e),
        }
    }
}

/// Every successful step of a replay stays within the machine limits.
pub open spec fn replay_fits(ops: Seq<Operation>) -> bool
    decreases ops.len(),
{
    if ops.len() == 0 {
        true
    } else {
        replay_fits(ops.drop_last()) && (replay(ops.drop_last()) matches Ok(m) ==> kind_fits(
            m,
            ops.last().kind,
        ))
    }
}

/// Unfolds a replay across a single appended operation.
pub proof fn lemma_replay_push(ops: Seq<Operation>, op: Operation)
    ensures
        replay(ops.push(op)) == (match replay(ops) {
            Ok(m) => apply_kind(m, op.kind),
            Err(e) => Err(e),
        }),
        replay_fits(ops.push(op)) == (replay_fits(ops) && (replay(ops) matches Ok(m)
            ==> kind_fits(m, op.kind))),
{
    assert(ops.push(op).drop_last() =~= ops);
    assert(ops.push(op).last() == op);
}

/// A replay that fails on some prefix fails the same way as a whole.
proof fn lemma_replay_error_persists(ops: Seq<Operation>, j: int)
    requires
        0 <= j <= ops.len(),
        replay(ops.take(j)) is Err,
    ensures
        replay(ops) == replay(ops.take(j)),
    decreases ops.len() - j,
{
    if j == ops.len() {
        assert(ops.take(j) =~= ops);
    } else {
        assert(ops.take(j + 1).drop_last() =~= ops.take(j));
        lemma_replay_error_persists(ops, j + 1);
    }
}

/// Machine-limit bounds on a whole replay restrict every prefix too.
proof fn lemma_replay_fits_prefix(ops: Seq<Operation>, j: int)
    requires
        replay_fits(ops),
        0 <= j <= ops.len(),
    ensures
        replay_fits(ops.take(j)),
    decreases ops.len(),
{
    if j == ops.len() {
        assert(ops.take(j) =~= ops);
    } else if ops.len() > 0 {
        assert(ops.drop_last().take(j) =~= ops.take(j));
        lemma_replay_fits_prefix(ops.drop_last(), j);
    }
}

/// A replay that has already failed stays within the machine limits from
/// that step on: the later bound conditions are vacuous.
proof fn lemma_replay_fits_after_error(ops: Seq<Operation>, j: int)
    requires
        0 <= j <= ops.len(),
        replay_fits(ops.take(j)),
        replay(ops.take(j)) is Err,
    ensures
        replay_fits(ops),
    decreases ops.len() - j,
{
    if j == ops.len() {
        assert(ops.take(j) =~= ops);
    } else {
        assert(ops.take(j + 1).drop_last() =~= ops.take(j));
        lemma_replay_fits_after_error(ops, j + 1);
    }
}

impl Bank {
    /// Whether the stored account records stand in registration order: their
    /// identifiers are exactly the log's `Register` operations' accounts, in
    /// order.
    pub closed spec fn records_follow_log(&self) -> bool {
        record_ids(self.accounts@) == register_ids(self.operations_log@)
    }

    /// Whether this ledger is exactly what replaying its own log yields: the
    /// registry matches the replay and the records stand in registration
    /// order. Holds after any history that avoided the kept-debit transfer
    /// case.
    pub open spec fn consistent(&self) -> bool {
        &&& self.wf()
        &&& self.records_follow_log()
        &&& replay_fits(self.ops())
        &&& replay(self.ops()) == Ok::<Map<AccountID, u64>, BankError>(self.balances())
    }

    /// Changes one balance by `amount_abs`, downward when `negative`. The
    /// single arithmetic primitive under deposits, withdrawals and both legs
    /// of a transfer. Never logs.
    fn apply_delta(&mut self, id: AccountID, amount_abs: u64, negative: bool) -> (r: Result<
        (),
        BankError,
    >)
        requires
            old(self).wf(),
            delta_fits(old(self).balances(), id, signed_of(amount_abs, negative)),
        ensures
            final(self).wf(),
            final(self).ops() == old(self).ops(),
            record_ids(final(self).accounts@) == record_ids(old(self).accounts@),
            ({
                let d = delta_result(old(self).balances(), id, signed_of(amount_abs, negative));
                match r {
                    Ok(()) => d == Ok::<Map<AccountID, u64>, BankError>(final(self).balances()),
                    Err(e) => d == Err::<Map<AccountID, u64>, BankError>(e) && final(self).balances() == old(self).balances(),
                }
            }),
    {
        if amount_abs == 0 {
            return Err(BankError::ZeroAmount);
        }
        let k = match self.find_account(id) {
            Some(k) => k,
            None => {
                return Err(BankError::NotFound);
            },
        };
        let ghost s0 = self.accounts@;
        let stored_id = self.accounts[k].id;
        let balance = self.accounts[k].balance;
        let new_balance: u64 = if negative {
            if balance < amount_abs {
                return Err(BankError::InsufficientFunds);
            }
            balance - amount_abs
        } else {
            balance + amount_abs
        };
        self.accounts[k] = Account { id: stored_id, balance: new_balance };
        proof {
            lemma_map_update(s0, k as int, self.accounts@[k as int]);
            assert forall|i: int, j: int|
                0 <= i < j < self.accounts@.len() implies self.accounts@[i].id
                != self.accounts@[j].id by {
                assert(s0[i].id == self.accounts@[i].id || i == k);
                assert(s0[j].id == self.accounts@[j].id || j == k);
            }
            assert(record_ids(self.accounts@) =~= record_ids(s0));
        }
        Ok(())
    }

    /// Adds `amount` to the account's balance and, on success, logs a
    /// `Deposit` and returns its fresh operation identifier. On failure
    /// (zero amount, unknown account) nothing changes and nothing is logged.
    pub fn deposit(&mut self, id: AccountID, amount: u64) -> (r: Result<OperationID, BankError>)
        requires
            old(self).wf(),
            delta_fits(old(self).balances(), id, amount as int),
        ensures
            final(self).wf(),
            old(self).consistent() ==> final(self).consistent(),
            ({
                let d = delta_result(old(self).balances(), id, amount as int);
                match r {
                    Ok(op_id) => d == Ok::<Map<AccountID, u64>, BankError>(final(self).balances())
                        && final(self).ops() == old(self).ops().push(
                        Operation { id: op_id, kind: OperationKind::Deposit { id, amount } },
                    ),
                    Err(e) => d == Err::<Map<AccountID, u64>, BankError>(e) && final(self).balances() == old(self).balances() && final(self).ops() == old(self).ops(),
                }
            }),
    {
        match self.apply_delta(id, amount, false) {
            Ok(()) => {},
            Err(e) => {
                return Err(e);
            },
        }
        let operation_id = self.operations_log.log(OperationKind::Deposit { id, amount });
        proof {
            assert(no_self_transfer(self.operations_log@));
            lemma_replay_push(old(self).ops(), self.ops().last());
            lemma_register_ids_push(old(self).ops(), self.ops().last());
            assert(register_ids(old(self).ops()) + Seq::<AccountID>::empty() =~= register_ids(
                old(self).ops(),
            ));
        }
        Ok(operation_id)
    }

    /// Subtracts `amount` from the account's balance and, on success, logs a
    /// `Withdraw` and returns its fresh operation identifier. On failure
    /// (zero amount, unknown account, insufficient funds) nothing changes
    /// and nothing is logged.
    pub fn withdraw(&mut self, id: AccountID, amount: u64) -> (r: Result<OperationID, BankError>)
        requires
            old(self).wf(),
        ensures
            final(self).wf(),
            old(self).consistent() ==> final(self).consistent(),
            ({
                let d = delta_result(old(self).balances(), id, -(amount as int));
                match r {
                    Ok(op_id) => d == Ok::<Map<AccountID, u64>, BankError>(final(self).balances())
                        && final(self).ops() == old(self).ops().push(
                        Operation { id: op_id, kind: OperationKind::Withdraw { id, amount } },
                    ),
                    Err(e) => d == Err::<Map<AccountID, u64>, BankError>(e) && final(self).balances() == old(self).balances() && final(self).ops() == old(self).ops(),
                }
            }),
    {
        match self.apply_delta(id, amount, true) {
            Ok(()) => {},
            Err(e) => {
                return Err(e);
            },
        }
        let operation_id = self.operations_log.log(OperationKind::Withdraw { id, amount });
        proof {
            assert(no_self_transfer(self.operations_log@));
            lemma_replay_push(old(self).ops(), self.ops().last());
            lemma_register_ids_push(old(self).ops(), self.ops().last());
            assert(register_ids(old(self).ops()) + Seq::<AccountID>::empty() =~= register_ids(
                old(self).ops(),
            ));
        }
        Ok(operation_id)
    }

    /// Debits the sender, then credits the receiver. Never logs. On a failed
    /// debit nothing changes; if the debit succeeds and the credit then
    /// fails, the debit is deliberately kept (see the module note).
    fn do_transfer(
        &mut self,
        sender_id: AccountID,
        receiver_id: AccountID,
        amount: u64,
    ) -> (r: Result<(), BankError>)
        requires
            old(self).wf(),
            transfer_fits(old(self).balances(), sender_id, receiver_id, amount),
        ensures
            final(self).wf(),
            final(self).ops() == old(self).ops(),
            record_ids(final(self).accounts@) == record_ids(old(self).accounts@),
            ({
                let t = transfer_result(old(self).balances(), sender_id, receiver_id, amount);
                match r {
                    Ok(()) => t == Ok::<Map<AccountID, u64>, BankError>(final(self).balances()),
                    Err(e) => t == Err::<Map<AccountID, u64>, BankError>(e) && final(self).balances() == (if sender_id != receiver_id {
                        match delta_result(old(self).balances(), sender_id, -(amount as int)) {
                            Ok(m1) => m1,
                            Err(_) => old(self).balances(),
                        }
                    } else {
                        old(self).balances()
                    }),
                }
            }),
    {
        if sender_id.0 == receiver_id.0 {
            return Err(BankError::TransferToItself);
        }
        match self.apply_delta(sender_id, amount, true) {
            Ok(()) => {},
            Err(e) => {
                return Err(e);
            },
        }
        match self.apply_delta(receiver_id, amount, false) {
            Ok(()) => {},
            Err(e) => {
                return Err(e);
            },
        }
        Ok(())
    }

    /// Moves `amount` from sender to receiver and, on success, logs a
    /// `Transfer` and returns its fresh operation identifier. A transfer to
    /// the same account is rejected before anything changes. A failed debit
    /// changes nothing; a credit that fails after a successful debit keeps
    /// the debit (stated below) and logs nothing.
    pub fn transfer(
        &mut self,
        sender_id: AccountID,
        receiver_id: AccountID,
        amount: u64,
    ) -> (r: Result<OperationID, BankError>)
        requires
            old(self).wf(),
            transfer_fits(old(self).balances(), sender_id, receiver_id, amount),
        ensures
            final(self).wf(),
            old(self).consistent() && (r is Ok || final(self).balances() == old(self).balances())
                ==> final(self).consistent(),
            ({
                let t = transfer_result(old(self).balances(), sender_id, receiver_id, amount);
                match r {
                    Ok(op_id) => t == Ok::<Map<AccountID, u64>, BankError>(final(self).balances())
                        && final(self).ops() == old(self).ops().push(
                        Operation {
                            id: op_id,
                            kind: OperationKind::Transfer { sender_id, receiver_id, amount },
                        },
                    ),
                    Err(e) => t == Err::<Map<AccountID, u64>, BankError>(e) && final(self).ops()
                        == old(self).ops() && final(self).balances() == (if sender_id
                        != receiver_id {
                        match delta_result(old(self).balances(), sender_id, -(amount as int)) {
                            Ok(m1) => m1,
                            Err(_) => old(self).balances(),
                        }
                    } else {
                        old(self).balances()
                    }),
                }
            }),
    {
        match self.do_transfer(sender_id, receiver_id, amount) {
            Ok(()) => {},
            Err(e) => {
                return Err(e);
            },
        }
        let operation_id = self.operations_log.log(
            OperationKind::Transfer { sender_id, receiver_id, amount },
        );
        proof {
            assert(no_self_transfer(self.operations_log@));
            lemma_replay_push(old(self).ops(), self.ops().last());
            lemma_register_ids_push(old(self).ops(), self.ops().last());
            assert(register_ids(old(self).ops()) + Seq::<AccountID>::empty() =~= register_ids(
                old(self).ops(),
            ));
        }
        Ok(operation_id)
    }

    /// Builds a brand-new ledger by replaying, in order, every operation of
    /// the given sequence: registers recreate accounts with their exact
    /// original identifiers and balances, the other kinds re-apply the same
    /// delta logic. The first step that would not have succeeded aborts the
    /// replay and is returned; success yields a consistent ledger whose
    /// registry and log match the replayed sequence exactly.
    pub fn restore(operations: &Vec<Operation>) -> (r: Result<Bank, BankError>)
        requires
            replay_fits(operations@),
        ensures
            match r {
                Ok(bank) => bank.consistent() && replay(operations@) == Ok::<
                    Map<AccountID, u64>,
                    BankError,
                >(bank.balances()) && bank.ops() == operations@,
                Err(e) => replay(operations@) == Err::<Map<AccountID, u64>, BankError>(e),
            },
    {
        let mut bank = Bank::new();
        let n = operations.len();
        proof {
            assert(operations@.take(0) =~= Seq::<Operation>::empty());
        }
        let mut i: usize = 0;
        while i < n
            invariant
                bank.wf(),
                bank.records_follow_log(),
                i <= n,
                n == operations@.len(),
                replay_fits(operations@),
                bank.ops() == operations@.take(i as int),
                replay(operations@.take(i as int)) == Ok::<Map<AccountID, u64>, BankError>(
                    bank.balances(),
                ),
            decreases n - i,
        {
            let op = operations[i];
            let ghost accounts_before = bank.accounts@;
            let ghost ops_before = bank.operations_log@;
            proof {
                assert(operations@.take(i as int + 1).drop_last() =~= operations@.take(i as int));
                assert(operations@.take(i as int + 1).last() == operations@[i as int]);
                lemma_replay_fits_prefix(operations@, i as int + 1);
                assert(kind_fits(bank.balances(), op.kind));
            }
            let step: Result<(), BankError> = match op.kind {
                OperationKind::Register { id, balance } => bank.do_register_account(
                    Account { id, balance },
                ),
                OperationKind::Deposit { id, amount } => bank.apply_delta(id, amount, false),
                OperationKind::Withdraw { id, amount } => bank.apply_delta(id, amount, true),
                OperationKind::Transfer { sender_id, receiver_id, amount } => bank.do_transfer(
                    sender_id,
                    receiver_id,
                    amount,
                ),
            };
            match step {
                Ok(()) => {},
                Err(e) => {
                    proof {
                        assert(replay(operations@.take(i as int + 1)) == Err::<
                            Map<AccountID, u64>,
                            BankError,
                        >(e));
                        lemma_replay_error_persists(operations@, i as int + 1);
                    }
                    return Err(e);
                },
            }
            bank.operations_log.log_operation(op);
            proof {
                assert(bank.ops() =~= operations@.take(i as int + 1));
                assert(no_self_transfer(bank.operations_log@));
                lemma_register_ids_push(ops_before, op);
                match op.kind {
                    OperationKind::Register { id, .. } => {
                        assert(record_ids(bank.accounts@) =~= record_ids(accounts_before) + seq![
                            id,
                        ]);
                    },
                    _ => {
                        assert(record_ids(bank.accounts@) == record_ids(accounts_before));
                        assert(register_ids(ops_before) + Seq::<AccountID>::empty()
                            =~= register_ids(ops_before));
                    },
                }
            }
            i = i + 1;
        }
        proof {
            assert(operations@.take(n as int) =~= operations@);
            lemma_replay_fits_prefix(operations@, n as int);
        }
        Ok(bank)
    }

    /// The stored account records, in registration order.
    pub closed spec fn accounts_list(&self) -> Seq<Account> {
        self.accounts@
    }

    /// Whether replaying the given operations stays within the unsigned
    /// 64-bit machine limits at every successful step — exactly `restore`'s
    /// arithmetic precondition. Runs a throwaway replay with explicit bound
    /// checks, so unverified callers can test before restoring.
    pub fn replay_fits_check(operations: &Vec<Operation>) -> (r: bool)
        ensures
            r == replay_fits(operations@),
    {
        let mut bank = Bank::new();
        let n = operations.len();
        proof {
            assert(operations@.take(0) =~= Seq::<Operation>::empty());
        }
        let mut i: usize = 0;
        while i < n
            invariant
                bank.wf(),
                i <= n,
                n == operations@.len(),
                replay_fits(operations@.take(i as int)),
                replay(operations@.take(i as int)) == Ok::<Map<AccountID, u64>, BankError>(
                    bank.balances(),
                ),
            decreases n - i,
        {
            let op = operations[i];
            proof {
                assert(operations@.take(i as int + 1).drop_last() =~= operations@.take(i as int));
                assert(operations@.take(i as int + 1).last() == operations@[i as int]);
            }
            let fits: bool = match op.kind {
                OperationKind::Register { .. } => true,
                OperationKind::Deposit { id, amount } => match bank.get_balance(id) {
                    Ok(b) => amount <= u64::MAX - b,
                    Err(_) => true,
                },
                OperationKind::Withdraw { .. } => true,
                OperationKind::Transfer { sender_id, receiver_id, amount } => {
                    if sender_id.0 == receiver_id.0 {
                        true
                    } else {
                        match bank.get_balance(sender_id) {
                            Err(_) => true,
                            Ok(sender_balance) => {
                                if amount == 0 || sender_balance < amount {
                                    true
                                } else {
                                    match bank.get_balance(receiver_id) {
                                        Err(_) => true,
                                        Ok(receiver_balance) => amount <= u64::MAX
                                            - receiver_balance,
                                    }
                                }
                            },
                        }
                    }
                },
            };
            proof {
                assert(fits == kind_fits(bank.balances(), op.kind));
            }
            if !fits {
                proof {
                    if replay_fits(operations@) {
                        lemma_replay_fits_prefix(operations@, i as int + 1);
                        assert(false);
                    }
                }
                return false;
            }
            let step: Result<(), BankError> = match op.kind {
                OperationKind::Register { id, balance } => bank.do_register_account(
                    Account { id, balance },
                ),
                OperationKind::Deposit { id, amount } => bank.apply_delta(id, amount, false),
                OperationKind::Withdraw { id, amount } => bank.apply_delta(id, amount, true),
                OperationKind::Transfer { sender_id, receiver_id, amount } => bank.do_transfer(
                    sender_id,
                    receiver_id,
                    amount,
                ),
            };
            match step {
                Ok(()) => {},
                Err(_) => {
                    proof {
                        lemma_replay_fits_after_error(operations@, i as int + 1);
                    }
                    return true;
                },
            }
            i = i + 1;
        }
        proof {
            assert(operations@.take(n as int) =~= operations@);
        }
        true
    }
}

impl Default for Bank {
    /// An empty ledger.
    fn default() -> (r: Bank)
        ensures
            r.wf(),
            r.consistent(),
            r.balances() == Map::<AccountID, u64>::empty(),
            r.ops() == Seq::<Operation>::empty(),
    {
        Bank::new()
    }
}

impl PartialEq for Bank {
    /// Two ledgers are equal when they hold the same account records in the
    /// same order and the same log in the same order.
    fn eq(&self, other: &Bank) -> (r: bool) {
        let n = self.accounts.len();
        if n != other.accounts.len() {
            proof {
                assert(self.accounts@ != other.accounts@);
            }
            return false;
        }
        let mut k: usize = 0;
        while k < n
            invariant
                k <= n,
                n == self.accounts@.len(),
                n == other.accounts@.len(),
                forall|j: int| 0 <= j < k ==> self.accounts@[j] == other.accounts@[j],
            decreases n - k,
        {
            let a = self.accounts[k];
            let b = other.accounts[k];
            if !(a == b) {
                proof {
                    assert(self.accounts@[k as int] != other.accounts@[k as int]);
                }
                return false;
            }
            k = k + 1;
        }
        proof {
            assert(self.accounts@ =~= other.accounts@);
        }
        self.operations_log.same_operations(&other.operations_log)
    }
}

impl vstd::std_specs::cmp::PartialEqSpecImpl for Bank {
    open spec fn obeys_eq_spec() -> bool {
        true
    }

    open spec fn eq_spec(&self, other: &Bank) -> bool {
        self.accounts_list() == other.accounts_list() && self.ops() == other.ops()
    }
}

/// Law: balances are unsigned 64-bit values, so no registered account's
/// balance is ever observed negative, whatever the operation history.
pub proof fn lemma_balance_never_negative(bank: Bank, a: AccountID)
    requires
        bank.balances().contains_key(a),
    ensures
        bank.balances()[a] >= 0,
{
}

/// Law: a zero-amount balance change is always rejected with `ZeroAmount`,
/// whatever the registry; by `deposit`'s and `withdraw`'s contracts the
/// registry and the log are then left unchanged.
pub proof fn lemma_zero_amount_always_fails(m: Map<AccountID, u64>, id: AccountID)
    ensures
        delta_result(m, id, 0) == Err::<Map<AccountID, u64>, BankError>(BankError::ZeroAmount),
{
}

/// Law: a transfer from an account to itself is always rejected with
/// `TransferToItself`, whatever the registry and the amount; by `transfer`'s
/// contract the registry and the log are then left unchanged.
pub proof fn lemma_self_transfer_always_fails(m: Map<AccountID, u64>, id: AccountID, amount: u64)
    ensures
        transfer_result(m, id, id, amount) == Err::<Map<AccountID, u64>, BankError>(
            BankError::TransferToItself,
        ),
{
}

/// Two well-formed ledgers whose records stand in registration order, with
/// the same log and the same balances, hold the same account records in the
/// same order: the record list is determined by the log and the registry.
pub proof fn lemma_same_state_same_records(x: Bank, y: Bank)
    requires
        x.wf(),
        x.records_follow_log(),
        y.wf(),
        y.records_follow_log(),
        x.ops() == y.ops(),
        x.balances() == y.balances(),
    ensures
        x.accounts_list() == y.accounts_list(),
{
    let xs = x.accounts_list();
    let ys = y.accounts_list();
    assert(record_ids(xs) == record_ids(ys));
    assert forall|i: int| 0 <= i < xs.len() implies xs[i] == ys[i] by {
        assert(record_ids(xs)[i] == xs[i].id);
        assert(record_ids(ys)[i] == ys[i].id);
        lemma_map_value_at(xs, i);
        lemma_map_value_at(ys, i);
    }
    assert(xs =~= ys);
}

/// Law (round trip): restoring from a consistent ledger's full log succeeds
/// and yields a ledger with the same balances, the same log, and the same
/// account records in the same order — the two ledgers are equal, exactly as
/// `eq_spec` compares them. The premises are what
/// `restore(source.get_all_operations())` ensures.
pub proof fn lemma_restore_round_trip(source: Bank, restored: Bank)
    requires
        source.consistent(),
        restored.consistent(),
        restored.ops() == source.ops(),
        replay(source.ops()) == Ok::<Map<AccountID, u64>, BankError>(restored.balances()),
    ensures
        restored.balances() == source.balances(),
        restored.ops() == source.ops(),
        restored.accounts_list() == source.accounts_list(),
{
    lemma_same_state_same_records(source, restored);
}

proof fn lemma_account_ops_filter(ops: Seq<Operation>, a: AccountID)
    requires
        no_self_transfer(ops),
        ops.len() <= usize::MAX,
    ensures
        account_ops(ops, a) == ops.filter(|op: Operation| touches(op.kind, a)),
    decreases ops.len(),
{
    reveal(Seq::filter);
    let pred = |op: Operation| touches(op.kind, a);
    if ops.len() == 0 {
        assert(account_ops(ops, a) =~= ops.filter(pred));
    } else {
        let prefix = ops.drop_last();
        let last = ops.last();
        assert forall|i: int| 0 <= i < prefix.len() implies match #[trigger] prefix[i].kind {
            OperationKind::Transfer { sender_id, receiver_id, .. } => sender_id != receiver_id,
            _ => true,
        } by {
            assert(prefix[i] == ops[i]);
        }
        lemma_account_ops_filter(prefix, a);
        crate::log::lemma_account_positions_bounds(prefix, a);
        let ap = crate::log::account_positions(ops, a);
        let app = crate::log::account_positions(prefix, a);
        let c = crate::log::touch_count(last.kind, a);
        assert(c <= 1);
        assert(ap == app + Seq::new(c, |i: int| (ops.len() - 1) as usize));
        assert(account_ops(prefix, a).len() == app.len());
        assert forall|i: int| 0 <= i < app.len() implies account_ops(ops, a)[i] == account_ops(
            prefix,
            a,
        )[i] by {
            assert(ap[i] == app[i]);
            assert(app[i] < prefix.len());
            assert(ops[app[i] as int] == prefix[app[i] as int]);
        }
        if touches(last.kind, a) {
            assert(c == 1);
            assert(ap.len() == app.len() + 1);
            assert(ap[app.len() as int] == (ops.len() - 1) as usize);
            assert(account_ops(ops, a)[app.len() as int] == last);
            assert(ops.filter(pred) == prefix.filter(pred).push(last));
            assert(account_ops(ops, a) =~= ops.filter(pred));
        } else {
            assert(c == 0);
            assert(ap =~= app);
            assert(ops.filter(pred) == prefix.filter(pred));
            assert(account_ops(ops, a) =~= ops.filter(pred));
        }
    }
}

/// Law: the operations reported for one account are exactly the subsequence
/// of the full log whose kind references that account, in the same relative
/// order — one entry per referencing role, and a well-formed ledger's log
/// never references the same account twice in one operation.
pub proof fn lemma_for_account_is_filtered_log(bank: Bank, a: AccountID)
    requires
        bank.wf(),
    ensures
        account_ops(bank.ops(), a) == bank.ops().filter(|op: Operation| touches(op.kind, a)),
{
    bank.operations_log.lemma_len_bounded();
    lemma_account_ops_filter(bank.ops(), a);
}

} // verus!
