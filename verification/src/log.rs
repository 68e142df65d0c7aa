//! The append-only operations log.
//!
//! The log owns the globally ordered sequence of operations and a secondary
//! index from account identifier to the positions (into the global sequence)
//! of the operations that reference that account, kept in append order.

use vstd::prelude::*;

use crate::account::{canonical_id_text, fresh_id_bits, id_bits_to_text, AccountID};
use crate::text::{dec_digits, u64_to_string};

verus! {

/// A globally unique, opaque 128-bit operation identifier, the log's key.
#[derive(Copy, Clone, PartialEq, Eq, Structural, Hash, Debug)]
pub struct OperationID(pub u128);

impl OperationID {
    /// Draws a fresh random identifier.
    pub fn new() -> OperationID {
        OperationID(fresh_id_bits())
    }

    /// Renders the identifier in its canonical text form.
    pub fn to_text(&self) -> (r: String)
        ensures
            r@ == crate::account::canonical_id_text(self.0),
            crate::account::is_canonical_id_text(r@),
            crate::account::id_text_value(r@) == self.0 as int,
    {
        crate::account::id_bits_to_text(self.0)
    }
}

/// What an accepted mutation did: one variant per command that changes a
/// ledger. Amounts and balances are unsigned 64-bit values.
#[derive(Copy, Clone, PartialEq, Eq, Structural, Debug)]
pub enum OperationKind {
    Register { id: AccountID, balance: u64 },
    Deposit { id: AccountID, amount: u64 },
    Withdraw { id: AccountID, amount: u64 },
    Transfer { sender_id: AccountID, receiver_id: AccountID, amount: u64 },
}

/// One logged record: an identifier and the mutation it stands for.
#[derive(Copy, Clone, PartialEq, Eq, Structural, Debug)]
pub struct Operation {
    pub id: OperationID,
    pub kind: OperationKind,
}

/// A kind rendered as prose: its name, then its arguments in order,
/// space-separated, identifiers in canonical text.
pub open spec fn kind_text(k: OperationKind) -> Seq<char> {
    match k {
        OperationKind::Register { id, balance } => "Register "@ + canonical_id_text(id.0) + " "@
            + dec_digits(balance as nat),
        OperationKind::Deposit { id, amount } => "Deposit "@ + canonical_id_text(id.0) + " "@
            + dec_digits(amount as nat),
        OperationKind::Withdraw { id, amount } => "Withdraw "@ + canonical_id_text(id.0) + " "@
            + dec_digits(amount as nat),
        OperationKind::Transfer { sender_id, receiver_id, amount } => "Transfer "@
            + canonical_id_text(sender_id.0) + " "@ + canonical_id_text(receiver_id.0) + " "@
            + dec_digits(amount as nat),
    }
}

/// An operation rendered as prose: its identifier, then its kind in
/// parentheses.
pub open spec fn operation_text(op: Operation) -> Seq<char> {
    canonical_id_text(op.id.0) + ": ("@ + kind_text(op.kind) + ")"@
}

impl OperationKind {
    /// Renders the kind as prose.
    pub fn to_text(&self) -> (r: String)
        ensures
            r@ == kind_text(*self),
    {
        match *self {
            OperationKind::Register { id, balance } => {
                let mut out = "Register ".to_owned();
                out.append(id_bits_to_text(id.0).as_str());
                out.append(" ");
                out.append(u64_to_string(balance).as_str());
                proof {
                    reveal_strlit(" ");
                }
                out
            },
            OperationKind::Deposit { id, amount } => {
                let mut out = "Deposit ".to_owned();
                out.append(id_bits_to_text(id.0).as_str());
                out.append(" ");
                out.append(u64_to_string(amount).as_str());
                proof {
                    reveal_strlit(" ");
                }
                out
            },
            OperationKind::Withdraw { id, amount } => {
                let mut out = "Withdraw ".to_owned();
                out.append(id_bits_to_text(id.0).as_str());
                out.append(" ");
                out.append(u64_to_string(amount).as_str());
                proof {
                    reveal_strlit(" ");
                }
                out
            },
            OperationKind::Transfer { sender_id, receiver_id, amount } => {
                let mut out = "Transfer ".to_owned();
                out.append(id_bits_to_text(sender_id.0).as_str());
                out.append(" ");
                out.append(id_bits_to_text(receiver_id.0).as_str());
                out.append(" ");
                out.append(u64_to_string(amount).as_str());
                proof {
                    reveal_strlit(" ");
                }
                out
            },
        }
    }
}

impl Operation {
    /// Renders the operation as prose.
    pub fn to_text(&self) -> (r: String)
        ensures
            r@ == operation_text(*self),
    {
        let mut out = self.id.to_text();
        out.append(": (");
        out.append(self.kind.to_text().as_str());
        out.append(")");
        proof {
            reveal_strlit(": (");
            reveal_strlit(")");
        }
        out
    }
}

/// Whether a kind references the given account at all.
pub open spec fn touches(k: OperationKind, a: AccountID) -> bool {
    match k {
        OperationKind::Register { id, .. } => id == a,
        OperationKind::Deposit { id, .. } => id == a,
        OperationKind::Withdraw { id, .. } => id == a,
        OperationKind::Transfer { sender_id, receiver_id, .. } => sender_id == a
            || receiver_id == a,
    }
}

/// How many index entries a kind contributes for the given account: one per
/// referencing role (a transfer lists its sender and then its receiver).
pub open spec fn touch_count(k: OperationKind, a: AccountID) -> nat {
    match k {
        OperationKind::Register { id, .. } => if id == a {
            1nat
        } else {
            0nat
        },
        OperationKind::Deposit { id, .. } => if id == a {
            1nat
        } else {
            0nat
        },
        OperationKind::Withdraw { id, .. } => if id == a {
            1nat
        } else {
            0nat
        },
        OperationKind::Transfer { sender_id, receiver_id, .. } => (if sender_id == a {
            1nat
        } else {
            0nat
        }) + (if receiver_id == a {
            1nat
        } else {
            0nat
        }),
    }
}

/// The positions, in append order, of the operations in `ops` that reference
/// account `a`, with one position per referencing role of the operation.
pub open spec fn account_positions(ops: Seq<Operation>, a: AccountID) -> Seq<usize>
    decreases ops.len(),
{
    if ops.len() == 0 {
        Seq::empty()
    } else {
        account_positions(ops.drop_last(), a) + Seq::new(
            touch_count(ops.last().kind, a),
            |i: int| (ops.len() - 1) as usize,
        )
    }
}

/// The operations of `ops` that reference account `a`, in append order.
pub open spec fn account_ops(ops: Seq<Operation>, a: AccountID) -> Seq<Operation> {
    account_positions(ops, a).map_values(|p: usize| ops[p as int])
}

/// The most recently logged operation carrying the given identifier, if any.
pub open spec fn find_last(ops: Seq<Operation>, id: OperationID) -> Option<Operation>
    decreases ops.len(),
{
    if ops.len() == 0 {
        None
    } else if ops.last().id == id {
        Some(ops.last())
    } else {
        find_last(ops.drop_last(), id)
    }
}

/// One secondary-index entry: an account and the positions of the operations
/// that reference it.
#[derive(Debug)]
struct IndexEntry {
    account: AccountID,
    positions: Vec<usize>,
}

spec fn unique_accounts(idx: Seq<IndexEntry>) -> bool {
    forall|i: int, j: int|
        0 <= i < j < idx.len() ==> idx[i].account != idx[j].account
}

spec fn entry_positions(idx: Seq<IndexEntry>, a: AccountID) -> Seq<usize>
    decreases idx.len(),
{
    if idx.len() == 0 {
        Seq::empty()
    } else if idx.last().account == a {
        idx.last().positions@
    } else {
        entry_positions(idx.drop_last(), a)
    }
}

/// The log: the authoritative operation sequence plus the per-account index.
/// Operation payloads are never duplicated; the index holds positions only.
#[derive(Debug)]
pub struct OperationsLog {
    operations: Vec<Operation>,
    account_index: Vec<IndexEntry>,
}

impl View for OperationsLog {
    type V = Seq<Operation>;

    closed spec fn view(&self) -> Seq<Operation> {
        self.operations@
    }
}

proof fn lemma_entry_positions_at(idx: Seq<IndexEntry>, k: int)
    requires
        unique_accounts(idx),
        0 <= k < idx.len(),
    ensures
        entry_positions(idx, idx[k].account) == idx[k].positions@,
    decreases idx.len(),
{
    if k == idx.len() - 1 {
    } else {
        assert(idx.drop_last()[k] == idx[k]);
        lemma_entry_positions_at(idx.drop_last(), k);
    }
}

proof fn lemma_entry_positions_absent(idx: Seq<IndexEntry>, a: AccountID)
    requires
        forall|j: int| 0 <= j < idx.len() ==> idx[j].account != a,
    ensures
        entry_positions(idx, a) == Seq::<usize>::empty(),
    decreases idx.len(),
{
    if idx.len() > 0 {
        lemma_entry_positions_absent(idx.drop_last(), a);
    }
}

proof fn lemma_entry_positions_update(idx: Seq<IndexEntry>, k: int, e: IndexEntry, b: AccountID)
    requires
        unique_accounts(idx),
        0 <= k < idx.len(),
        e.account == idx[k].account,
    ensures
        entry_positions(idx.update(k, e), b) == if b == e.account {
            e.positions@
        } else {
            entry_positions(idx, b)
        },
    decreases idx.len(),
{
    let upd = idx.update(k, e);
    if k == idx.len() - 1 {
        assert(upd.drop_last() =~= idx.drop_last());
        if b != e.account {
            assert(entry_positions(upd, b) == entry_positions(idx.drop_last(), b));
        } else {
            lemma_entry_positions_at(idx, k);
        }
    } else {
        assert(upd.last() == idx.last());
        assert(upd.drop_last() =~= idx.drop_last().update(k, e));
        assert(idx.drop_last()[k] == idx[k]);
        lemma_entry_positions_update(idx.drop_last(), k, e, b);
        if idx.last().account == b {
            if b == e.account {
                assert(idx[k].account == idx[idx.len() - 1].account);
                assert(false);
            }
        }
    }
}

proof fn lemma_entry_positions_push(idx: Seq<IndexEntry>, e: IndexEntry, b: AccountID)
    ensures
        entry_positions(idx.push(e), b) == if b == e.account {
            e.positions@
        } else {
            entry_positions(idx, b)
        },
{
    assert(idx.push(e).drop_last() =~= idx);
    assert(idx.push(e).last() == e);
}

/// Every stored position points inside the operation sequence.
pub proof fn lemma_account_positions_bounds(ops: Seq<Operation>, a: AccountID)
    ensures
        forall|i: int|
            0 <= i < account_positions(ops, a).len() ==> (#[trigger] account_positions(ops, a)[i])
                < ops.len(),
    decreases ops.len(),
{
    if ops.len() > 0 {
        lemma_account_positions_bounds(ops.drop_last(), a);
        assert forall|i: int| 0 <= i < account_positions(ops, a).len() implies (
        #[trigger] account_positions(ops, a)[i]) < ops.len() by {
            let prefix = account_positions(ops.drop_last(), a);
            if i < prefix.len() {
                assert(account_positions(ops, a)[i] == prefix[i]);
            }
        }
    }
}

/// Appending one operation extends an account's positions by that operation's
/// referencing roles, and no other account's.
pub proof fn lemma_account_positions_push(ops: Seq<Operation>, op: Operation, a: AccountID)
    ensures
        account_positions(ops.push(op), a) == account_positions(ops, a) + Seq::new(
            touch_count(op.kind, a),
            |i: int| ops.len() as usize,
        ),
{
    assert(ops.push(op).drop_last() =~= ops);
    assert(ops.push(op).last() == op);
}

impl OperationsLog {
    /// The log's structural invariant: the index accounts are distinct and
    /// each entry holds exactly that account's positions.
    pub closed spec fn wf(&self) -> bool {
        &&& unique_accounts(self.account_index@)
        &&& forall|a: AccountID| #[trigger]
            entry_positions(self.account_index@, a) == account_positions(self.operations@, a)
    }

    /// An empty log.
    pub fn new() -> (r: OperationsLog)
        ensures
            r.wf(),
            r@ == Seq::<Operation>::empty(),
    {
        let r = OperationsLog { operations: Vec::new(), account_index: Vec::new() };
        proof {
            assert forall|a: AccountID| #[trigger]
                entry_positions(r.account_index@, a) == account_positions(r.operations@, a) by {
                assert(entry_positions(r.account_index@, a) == Seq::<usize>::empty());
                assert(account_positions(r.operations@, a) == Seq::<usize>::empty());
            }
        }
        r
    }

    /// The most recently logged operation with the given identifier.
    pub fn get(&self, operation_id: OperationID) -> (r: Option<Operation>)
        ensures
            r == find_last(self@, operation_id),
    {
        let n = self.operations.len();
        proof {
            assert(self@.take(n as int) =~= self@);
        }
        let mut k: usize = n;
        while k > 0
            invariant
                k <= n,
                n == self@.len(),
                find_last(self@, operation_id) == find_last(self@.take(k as int), operation_id),
            decreases k,
        {
            k = k - 1;
            let candidate = self.operations[k];
            proof {
                assert(self@.take(k as int + 1).last() == self@[k as int]);
                assert(self@.take(k as int + 1).drop_last() =~= self@.take(k as int));
            }
            if candidate.id.0 == operation_id.0 {
                proof {
                    assert(candidate == self@.take(k as int + 1).last());
                }
                return Some(candidate);
            }
        }
        proof {
            assert(self@.take(0) =~= Seq::<Operation>::empty());
        }
        None
    }

    /// Records one position for one account in the secondary index.
    fn log_for_account(&mut self, account_id: AccountID, pos: usize)
        requires
            unique_accounts(old(self).account_index@),
        ensures
            unique_accounts(final(self).account_index@),
            final(self).operations == old(self).operations,
            forall|b: AccountID| #[trigger]
                entry_positions(final(self).account_index@, b) == if b == account_id {
                    entry_positions(old(self).account_index@, b).push(pos)
                } else {
                    entry_positions(old(self).account_index@, b)
                },
    {
        let ghost idx0 = self.account_index@;
        let n = self.account_index.len();
        let mut k: usize = 0;
        while k < n
            invariant
                k <= n,
                n == self.account_index@.len(),
                self == old(self),
                idx0 == self.account_index@,
                unique_accounts(idx0),
                forall|j: int| 0 <= j < k ==> self.account_index@[j].account != account_id,
            decreases n - k,
        {
            if self.account_index[k].account.0 == account_id.0 {
                let ghost old_entry = self.account_index@[k as int];
                self.account_index[k].positions.push(pos);
                proof {
                    let new_entry = self.account_index@[k as int];
                    assert(new_entry.account == account_id);
                    assert(new_entry.positions@ == old_entry.positions@.push(pos));
                    assert(self.account_index@ =~= idx0.update(k as int, new_entry));
                    assert forall|b: AccountID| #[trigger]
                        entry_positions(self.account_index@, b) == if b == account_id {
                            entry_positions(idx0, b).push(pos)
                        } else {
                            entry_positions(idx0, b)
                        } by {
                        lemma_entry_positions_update(idx0, k as int, new_entry, b);
                        if b == account_id {
                            lemma_entry_positions_at(idx0, k as int);
                        }
                    }
                    assert(unique_accounts(self.account_index@));
                }
                return ;
            }
            k = k + 1;
        }
        let mut positions: Vec<usize> = Vec::new();
        positions.push(pos);
        let entry = IndexEntry { account: account_id, positions };
        self.account_index.push(entry);
        proof {
            let new_entry = self.account_index@.last();
            assert forall|b: AccountID| #[trigger]
                entry_positions(self.account_index@, b) == if b == account_id {
                    entry_positions(idx0, b).push(pos)
                } else {
                    entry_positions(idx0, b)
                } by {
                lemma_entry_positions_push(idx0, new_entry, b);
                if b == account_id {
                    lemma_entry_positions_absent(idx0, b);
                    assert(entry_positions(idx0, b).push(pos) =~= new_entry.positions@);
                }
            }
            assert forall|i: int, j: int|
                0 <= i < j < self.account_index@.len() implies self.account_index@[i].account
                != self.account_index@[j].account by {
                if j < idx0.len() {
                } else {
                    assert(self.account_index@[j].account == account_id);
                }
            }
        }
    }

    /// Appends an already-identified operation, indexing every account its
    /// kind references (sender first, then receiver, for a transfer).
    pub fn log_operation(&mut self, operation: Operation)
        requires
            old(self).wf(),
        ensures
            final(self).wf(),
            final(self)@ == old(self)@.push(operation),
    {
        let ghost ops0 = self.operations@;
        let pos = self.operations.len();
        self.operations.push(operation);
        proof {
            assert forall|a: AccountID|
                account_positions(self.operations@, a) == account_positions(ops0, a) + Seq::new(
                    touch_count(operation.kind, a),
                    |i: int| pos,
                ) by {
                lemma_account_positions_push(ops0, operation, a);
            }
        }
        match operation.kind {
            OperationKind::Register { id, .. } => {
                self.log_for_account(id, pos);
                proof {
                    Self::lemma_one_touch_wf(ops0, operation, id, self.account_index@, pos);
                }
            },
            OperationKind::Deposit { id, .. } => {
                self.log_for_account(id, pos);
                proof {
                    Self::lemma_one_touch_wf(ops0, operation, id, self.account_index@, pos);
                }
            },
            OperationKind::Withdraw { id, .. } => {
                self.log_for_account(id, pos);
                proof {
                    Self::lemma_one_touch_wf(ops0, operation, id, self.account_index@, pos);
                }
            },
            OperationKind::Transfer { sender_id, receiver_id, .. } => {
                let ghost idx_before = self.account_index@;
                self.log_for_account(sender_id, pos);
                self.log_for_account(receiver_id, pos);
                proof {
                    assert forall|a: AccountID| #[trigger]
                        entry_positions(self.account_index@, a) == account_positions(
                            self.operations@,
                            a,
                        ) by {
                        let before = entry_positions(idx_before, a);
                        let target = before + Seq::new(
                            touch_count(operation.kind, a),
                            |i: int| pos,
                        );
                        if a == sender_id && a == receiver_id {
                            assert(entry_positions(self.account_index@, a) == before.push(
                                pos,
                            ).push(pos));
                            assert(before.push(pos).push(pos) =~= target);
                        } else if a == sender_id {
                            assert(entry_positions(self.account_index@, a) == before.push(pos));
                            assert(before.push(pos) =~= target);
                        } else if a == receiver_id {
                            assert(entry_positions(self.account_index@, a) == before.push(pos));
                            assert(before.push(pos) =~= target);
                        } else {
                            assert(entry_positions(self.account_index@, a) == before);
                            assert(before =~= target);
                        }
                    }
                }
            },
        }
    }

    /// Proof helper for the single-account kinds of `log_operation`.
    proof fn lemma_one_touch_wf(
        ops0: Seq<Operation>,
        operation: Operation,
        id: AccountID,
        idx: Seq<IndexEntry>,
        pos: usize,
    )
        requires
            touch_count(operation.kind, id) == 1,
            forall|b: AccountID| touches(operation.kind, b) ==> b == id,
            forall|b: AccountID| #[trigger]
                entry_positions(idx, b) == if b == id {
                    account_positions(ops0, b).push(pos)
                } else {
                    account_positions(ops0, b)
                },
            forall|b: AccountID| !touches(operation.kind, b) ==> touch_count(operation.kind, b)
                == 0,
        ensures
            forall|a: AccountID| #[trigger]
                entry_positions(idx, a) == account_positions(ops0, a) + Seq::new(
                    touch_count(operation.kind, a),
                    |i: int| pos,
                ),
    {
        assert forall|a: AccountID| #[trigger]
            entry_positions(idx, a) == account_positions(ops0, a) + Seq::new(
                touch_count(operation.kind, a),
                |i: int| pos,
            ) by {
            let before = account_positions(ops0, a);
            let target = before + Seq::new(touch_count(operation.kind, a), |i: int| pos);
            if a == id {
                assert(before.push(pos) =~= target);
            } else {
                assert(before =~= target);
            }
        }
    }

    /// Allocates a fresh random identifier, logs the operation under it, and
    /// returns the identifier. Validation happens before logging; this call
    /// never fails.
    pub fn log(&mut self, operation_kind: OperationKind) -> (r: OperationID)
        requires
            old(self).wf(),
        ensures
            final(self).wf(),
            final(self)@ == old(self)@.push(Operation { id: r, kind: operation_kind }),
    {
        let operation_id = OperationID::new();
        self.log_operation(Operation { id: operation_id, kind: operation_kind });
        operation_id
    }

    /// Every logged operation, in global insertion order.
    pub fn get_all_operations(&self) -> (r: Vec<Operation>)
        ensures
            r@ == self@,
    {
        let mut r: Vec<Operation> = Vec::new();
        let n = self.operations.len();
        let mut k: usize = 0;
        while k < n
            invariant
                k <= n,
                n == self@.len(),
                r@ == self@.take(k as int),
            decreases n - k,
        {
            r.push(self.operations[k]);
            proof {
                assert(r@ =~= self@.take(k as int + 1));
            }
            k = k + 1;
        }
        proof {
            assert(self@.take(n as int) =~= self@);
        }
        r
    }

    /// Whether two logs hold the same operations in the same order.
    pub fn same_operations(&self, other: &OperationsLog) -> (r: bool)
        ensures
            r == (self@ == other@),
    {
        let n = self.operations.len();
        if n != other.operations.len() {
            proof {
                assert(self@ != other@);
            }
            return false;
        }
        let mut k: usize = 0;
        while k < n
            invariant
                k <= n,
                n == self@.len(),
                n == other@.len(),
                forall|j: int| 0 <= j < k ==> self@[j] == other@[j],
            decreases n - k,
        {
            let a = self.operations[k];
            let b = other.operations[k];
            if !(a == b) {
                proof {
                    assert(self@[k as int] != other@[k as int]);
                }
                return false;
            }
            k = k + 1;
        }
        proof {
            assert(self@ =~= other@);
        }
        true
    }

    /// The operations referencing the given account, in the order they were
    /// appended to the global log.
    pub fn get_account_operations(&self, account_id: AccountID) -> (r: Vec<Operation>)
        requires
            self.wf(),
        ensures
            r@ == account_ops(self@, account_id),
    {
        proof {
            lemma_account_positions_bounds(self@, account_id);
        }
        let ghost positions = account_positions(self@, account_id);
        let mut r: Vec<Operation> = Vec::new();
        let n = self.account_index.len();
        let mut k: usize = 0;
        while k < n
            invariant
                self.wf(),
                k <= n,
                n == self.account_index@.len(),
                r@ == Seq::<Operation>::empty(),
                positions == account_positions(self@, account_id),
                forall|j: int| 0 <= j < positions.len() ==> (#[trigger] positions[j]) < self@.len(),
                forall|j: int| 0 <= j < k ==> self.account_index@[j].account != account_id,
            decreases n - k,
        {
            if self.account_index[k].account.0 == account_id.0 {
                proof {
                    lemma_entry_positions_at(self.account_index@, k as int);
                    assert(self.account_index@[k as int].positions@ == positions);
                    assert(account_ops(self@, account_id).take(0) =~= Seq::<Operation>::empty());
                }
                let entry_len = self.account_index[k].positions.len();
                let mut i: usize = 0;
                while i < entry_len
                    invariant
                        i <= entry_len,
                        0 <= k < self.account_index@.len(),
                        self.account_index@[k as int].positions@ == positions,
                        entry_len == positions.len(),
                        positions == account_positions(self@, account_id),
                        forall|j: int|
                            0 <= j < positions.len() ==> (#[trigger] positions[j]) < self@.len(),
                        r@ == account_ops(self@, account_id).take(i as int),
                    decreases entry_len - i,
                {
                    let p = self.account_index[k].positions[i];
                    r.push(self.operations[p]);
                    proof {
                        assert(account_ops(self@, account_id)[i as int] == self@[positions[
                            i as int] as int]);
                        assert(r@ =~= account_ops(self@, account_id).take(i as int + 1));
                    }
                    i = i + 1;
                }
                proof {
                    assert(account_ops(self@, account_id).take(entry_len as int) =~= account_ops(
                        self@,
                        account_id,
                    ));
                }
                return r;
            }
            k = k + 1;
        }
        proof {
            lemma_entry_positions_absent(self.account_index@, account_id);
            assert(account_positions(self@, account_id) == Seq::<usize>::empty());
            assert(account_ops(self@, account_id) =~= Seq::<Operation>::empty());
        }
        r
    }
}


impl OperationsLog {
    /// A log is held in a vector, so its length fits the machine word.
    pub proof fn lemma_len_bounded(&self)
        ensures
            self@.len() <= usize::MAX,
    {
        assert(self.operations.len() == self.operations@.len());
    }
}

} // verus!
