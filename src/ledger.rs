use vstd::hash_map::HashMapWithView;
use vstd::hash_set::HashSetWithView;
use crate::decode::{decoded, DecodeError};
use vstd::prelude::*;

verus! {

broadcast use vstd::std_specs::hash::group_hash_axioms;

/// Final and intermediate state of one client: balances are fixed-point
/// amounts in ten-thousandths of a currency unit.
#[derive(Clone, Copy, Debug, PartialEq, Eq, Structural)]
pub struct Account {
    pub client: u16,
    pub available: i64,
    pub held: i64,
    pub total: i64,
    pub locked: bool,
}

/// One decoded transaction. Deposits and withdrawals carry a non-negative
/// amount; disputes, resolves and chargebacks refer to an earlier deposit or
/// withdrawal by its transaction id.
#[derive(Clone, Copy, Debug, PartialEq, Eq, Structural)]
pub enum Transaction {
    Deposit { client: u16, tx: u32, amount: u64 },
    Withdrawal { client: u16, tx: u32, amount: u64 },
    Dispute { client: u16, tx: u32 },
    Resolve { client: u16, tx: u32 },
    Chargeback { client: u16, tx: u32 },
}

/// What the ledger keeps of a deposit or withdrawal so that later disputes
/// can find its client and amount.
#[derive(Clone, Copy, Debug, PartialEq, Eq, Structural)]
pub struct Revertible {
    pub client: u16,
    pub amount: u64,
}

/// The two configurable points of the transition rules.
#[derive(Clone, Copy, Debug, PartialEq, Eq, Structural)]
pub struct Policy {
    /// A locked account refuses further deposits and withdrawals.
    pub locked_blocks_transfers: bool,
    /// A withdrawal may leave the available balance at exactly zero.
    pub allow_zero_available: bool,
}

/// Why a transaction was discarded without any change of state.
#[derive(Clone, Copy, Debug, PartialEq, Eq, Structural)]
pub enum Rejection {
    InsufficientFunds,
    AccountLocked,
    Overflow,
    UnknownTransaction,
    ClientMismatch,
    AlreadyDisputed,
    NotDisputed,
}

/// What became of one transaction.
#[derive(Clone, Copy, Debug, PartialEq, Eq, Structural)]
pub enum Outcome {
    Applied,
    Rejected(Rejection),
}

impl Rejection {
    /// An expected business-rule rejection, as opposed to a protocol violation.
    pub fn is_routine(&self) -> (r: bool)
        ensures
            r == (*self == Rejection::InsufficientFunds || *self == Rejection::AccountLocked),
    {
        match self {
            Rejection::InsufficientFunds => true,
            Rejection::AccountLocked => true,
            _ => false,
        }
    }
}

impl Policy {
    /// Locked accounts are not treated specially; a withdrawal must leave a
    /// strictly positive available balance.
    pub fn standard() -> (r: Policy)
        ensures
            r == standard_policy(),
    {
        Policy { locked_blocks_transfers: false, allow_zero_available: false }
    }
}

pub open spec fn standard_policy() -> Policy {
    Policy { locked_blocks_transfers: false, allow_zero_available: false }
}

pub open spec fn fits_i64(v: int) -> bool {
    i64::MIN <= v <= i64::MAX
}

pub open spec fn fresh_account(client: u16) -> Account {
    Account { client, available: 0, held: 0, total: 0, locked: false }
}

/// Mathematical model of a ledger.
pub struct LedgerState {
    pub accounts: Map<u16, Account>,
    /// Clients in the order in which their accounts were created.
    pub order: Seq<u16>,
    pub history: Map<u32, Revertible>,
    pub disputed: Set<u32>,
    pub policy: Policy,
}

impl LedgerState {
    pub open spec fn empty(policy: Policy) -> LedgerState {
        LedgerState {
            accounts: Map::empty(),
            order: Seq::empty(),
            history: Map::empty(),
            disputed: Set::empty(),
            policy,
        }
    }

    /// Well-formedness: `order` lists each client with an account exactly
    /// once; every account is stored under its own client id and has
    /// `total == available + held`; a disputed id is in the history; every
    /// record of the history belongs to a client with an account.
    pub open spec fn wf(self) -> bool {
        &&& self.order.no_duplicates()
        &&& forall|c: u16| self.accounts.contains_key(c) <==> self.order.contains(c)
        &&& forall|c: u16| #[trigger]
            self.accounts.contains_key(c) ==> self.accounts[c].client == c
                && self.accounts[c].total == self.accounts[c].available
                + self.accounts[c].held
        &&& forall|tx: u32| #[trigger]
            self.disputed.contains(tx) ==> self.history.contains_key(tx)
        &&& forall|tx: u32| #[trigger]
            self.history.contains_key(tx) ==> self.accounts.contains_key(self.history[tx].client)
    }

    /// The account of `c`, or a fresh one when `c` has none yet.
    pub open spec fn account_of(self, c: u16) -> Account {
        if self.accounts.contains_key(c) {
            self.accounts[c]
        } else {
            fresh_account(c)
        }
    }

    pub open spec fn with_account(self, a: Account) -> LedgerState {
        LedgerState {
            accounts: self.accounts.insert(a.client, a),
            order: if self.accounts.contains_key(a.client) {
                self.order
            } else {
                self.order.push(a.client)
            },
            ..self
        }
    }

    /// The accounts in creation order.
    pub open spec fn snapshot(self) -> Seq<Account> {
        self.order.map_values(|c: u16| self.accounts[c])
    }

    pub open spec fn transfers_blocked(self, c: u16) -> bool {
        self.policy.locked_blocks_transfers && self.account_of(c).locked
    }

    pub open spec fn funds_suffice(self, remaining: int) -> bool {
        if self.policy.allow_zero_available {
            remaining >= 0
        } else {
            remaining > 0
        }
    }

    /// Checks shared by dispute, resolve and chargeback on `tx` for client `c`:
    /// the referenced record exists, belongs to `c`, and is in the dispute
    /// state that the kind requires.
    pub open spec fn reference_check(self, c: u16, tx: u32, want_disputed: bool) -> Option<
        Rejection,
    > {
        if !self.history.contains_key(tx) {
            Some(Rejection::UnknownTransaction)
        } else if self.history[tx].client != c {
            Some(Rejection::ClientMismatch)
        } else if want_disputed && !self.disputed.contains(tx) {
            Some(Rejection::NotDisputed)
        } else if !want_disputed && self.disputed.contains(tx) {
            Some(Rejection::AlreadyDisputed)
        } else {
            None
        }
    }

    /// Whether `t` is accepted, and if not, why.
    pub open spec fn outcome(self, t: Transaction) -> Outcome {
        match t {
            Transaction::Deposit { client, tx, amount } => {
                let a = self.account_of(client);
                if self.transfers_blocked(client) {
                    Outcome::Rejected(Rejection::AccountLocked)
                } else if !fits_i64(a.available + amount) || !fits_i64(a.total + amount) {
                    Outcome::Rejected(Rejection::Overflow)
                } else {
                    Outcome::Applied
                }
            },
            Transaction::Withdrawal { client, tx, amount } => {
                let a = self.account_of(client);
                if self.transfers_blocked(client) {
                    Outcome::Rejected(Rejection::AccountLocked)
                } else if !self.funds_suffice(a.available - amount) {
                    Outcome::Rejected(Rejection::InsufficientFunds)
                } else if !fits_i64(a.available - amount) || !fits_i64(a.total - amount) {
                    Outcome::Rejected(Rejection::Overflow)
                } else {
                    Outcome::Applied
                }
            },
            Transaction::Dispute { client, tx } => {
                match self.reference_check(client, tx, false) {
                    Some(r) => Outcome::Rejected(r),
                    None => {
                        let a = self.account_of(client);
                        let v = self.history[tx].amount;
                        if !fits_i64(a.available - v) || !fits_i64(a.held + v) {
                            Outcome::Rejected(Rejection::Overflow)
                        } else {
                            Outcome::Applied
                        }
                    },
                }
            },
            Transaction::Resolve { client, tx } => {
                match self.reference_check(client, tx, true) {
                    Some(r) => Outcome::Rejected(r),
                    None => {
                        let a = self.account_of(client);
                        let v = self.history[tx].amount;
                        if !fits_i64(a.available + v) || !fits_i64(a.held - v) {
                            Outcome::Rejected(Rejection::Overflow)
                        } else {
                            Outcome::Applied
                        }
                    },
                }
            },
            Transaction::Chargeback { client, tx } => {
                match self.reference_check(client, tx, true) {
                    Some(r) => Outcome::Rejected(r),
                    None => {
                        let a = self.account_of(client);
                        let v = self.history[tx].amount;
                        if !fits_i64(a.held - v) || !fits_i64(a.total - v) {
                            Outcome::Rejected(Rejection::Overflow)
                        } else {
                            Outcome::Applied
                        }
                    },
                }
            },
        }
    }

    /// The state after `t` is applied, assuming it is accepted.
    pub open spec fn effect(self, t: Transaction) -> LedgerState {
        match t {
            Transaction::Deposit { client, tx, amount } => {
                let a = self.account_of(client);
                let s = self.with_account(
                    Account {
                        available: (a.available + amount) as i64,
                        total: (a.total + amount) as i64,
                        ..a
                    },
                );
                LedgerState { history: s.history.insert(tx, Revertible { client, amount }), ..s }
            },
            Transaction::Withdrawal { client, tx, amount } => {
                let a = self.account_of(client);
                let s = self.with_account(
                    Account {
                        available: (a.available - amount) as i64,
                        total: (a.total - amount) as i64,
                        ..a
                    },
                );
                LedgerState { history: s.history.insert(tx, Revertible { client, amount }), ..s }
            },
            Transaction::Dispute { client, tx } => {
                let a = self.account_of(client);
                let v = self.history[tx].amount;
                let s = self.with_account(
                    Account {
                        available: (a.available - v) as i64,
                        held: (a.held + v) as i64,
                        ..a
                    },
                );
                LedgerState { disputed: s.disputed.insert(tx), ..s }
            },
            Transaction::Resolve { client, tx } => {
                let a = self.account_of(client);
                let v = self.history[tx].amount;
                let s = self.with_account(
                    Account {
                        available: (a.available + v) as i64,
                        held: (a.held - v) as i64,
                        ..a
                    },
                );
                LedgerState { disputed: s.disputed.remove(tx), ..s }
            },
            Transaction::Chargeback { client, tx } => {
                let a = self.account_of(client);
                let v = self.history[tx].amount;
                let s = self.with_account(
                    Account {
                        held: (a.held - v) as i64,
                        total: (a.total - v) as i64,
                        locked: true,
                        ..a
                    },
                );
                LedgerState { disputed: s.disputed.remove(tx), ..s }
            },
        }
    }

    /// The transition function: an accepted transaction takes effect, a
    /// rejected one leaves the state exactly as it was.
    pub open spec fn next(self, t: Transaction) -> LedgerState {
        if self.outcome(t) == Outcome::Applied {
            self.effect(t)
        } else {
            self
        }
    }

    /// The state after the transactions of `ts`, in order.
    pub open spec fn replay(self, ts: Seq<Transaction>) -> LedgerState
        decreases ts.len(),
    {
        if ts.len() == 0 {
            self
        } else {
            self.replay(ts.drop_last()).next(ts.last())
        }
    }
}

/// The ledger: client accounts, the revertible history and the set of
/// transactions under dispute.
pub struct Ledger {
    accounts: HashMapWithView<u16, Account>,
    order: Vec<u16>,
    history: HashMapWithView<u32, Revertible>,
    disputed: HashSetWithView<u32>,
    policy: Policy,
}

impl View for Ledger {
    type V = LedgerState;

    closed spec fn view(&self) -> LedgerState {
        LedgerState {
            accounts: self.accounts@,
            order: self.order@,
            history: self.history@,
            disputed: self.disputed@,
            policy: self.policy,
        }
    }
}

/// `v` as an `i64`, when it is one.
fn to_i64(v: i128) -> (r: Option<i64>)
    ensures
        r matches Some(x) ==> x == v,
        r is None <==> !fits_i64(v as int),
{
    if i64::MIN as i128 <= v && v <= i64::MAX as i128 {
        Some(v as i64)
    } else {
        None
    }
}

impl Ledger {
    pub open spec fn wf(&self) -> bool {
        self@.wf()
    }

    /// An empty ledger under the standard policy.
    pub fn new() -> (r: Ledger)
        ensures
            r.wf(),
            r@ == LedgerState::empty(standard_policy()),
    {
        Ledger::with_policy(Policy::standard())
    }

    /// An empty ledger under `policy`.
    pub fn with_policy(policy: Policy) -> (r: Ledger)
        ensures
            r.wf(),
            r@ == LedgerState::empty(policy),
    {
        let r = Ledger {
            accounts: HashMapWithView::new(),
            order: Vec::new(),
            history: HashMapWithView::new(),
            disputed: HashSetWithView::new(),
            policy,
        };
        assert(r@.accounts =~= Map::empty());
        assert(r@.order =~= Seq::empty());
        r
    }

    pub fn policy(&self) -> (r: Policy)
        ensures
            r == self@.policy,
    {
        self.policy
    }

    /// The account of `client`, if one was created.
    pub fn account(&self, client: u16) -> (r: Option<Account>)
        ensures
            r == (if self@.accounts.contains_key(client) {
                Some(self@.accounts[client])
            } else {
                None
            }),
    {
        match self.accounts.get(&client) {
            Some(a) => Some(*a),
            None => None,
        }
    }

    /// Whether transaction `tx` is currently under dispute.
    pub fn is_disputed(&self, tx: u32) -> (r: bool)
        ensures
            r == self@.disputed.contains(tx),
    {
        self.disputed.contains(&tx)
    }

    /// The number of accounts.
    pub fn len(&self) -> (r: usize)
        requires
            self.wf(),
        ensures
            r == self@.accounts.len(),
    {
        proof {
            lemma_order_len(self@);
        }
        self.order.len()
    }

    /// Lookup-or-create: the account of `client`, or a fresh one.
    fn account_or_fresh(&self, client: u16) -> (r: Account)
        ensures
            r == self@.account_of(client),
    {
        match self.accounts.get(&client) {
            Some(a) => *a,
            None => Account { client, available: 0, held: 0, total: 0, locked: false },
        }
    }

    fn store(&mut self, a: Account)
        requires
            old(self).wf(),
            a.total == a.available + a.held,
        ensures
            final(self).wf(),
            final(self)@ == old(self)@.with_account(a),
    {
        let ghost s = self@;
        if !self.accounts.contains_key(&a.client) {
            self.order.push(a.client);
        }
        self.accounts.insert(a.client, a);
        assert(self@.order =~= s.with_account(a).order);
        proof {
            lemma_with_account_wf(s, a);
        }
    }

    /// Applies one transaction: it takes effect exactly when its checks pass,
    /// and otherwise the ledger is left unchanged.
    pub fn apply(&mut self, t: Transaction) -> (r: Outcome)
        requires
            old(self).wf(),
        ensures
            final(self).wf(),
            r == old(self)@.outcome(t),
            final(self)@ == old(self)@.next(t),
    {
        match t {
            Transaction::Deposit { client, tx, amount } => {
                let a = self.account_or_fresh(client);
                if self.policy.locked_blocks_transfers && a.locked {
                    return Outcome::Rejected(Rejection::AccountLocked);
                }
                let avail = to_i64(a.available as i128 + amount as i128);
                let total = to_i64(a.total as i128 + amount as i128);
                match (avail, total) {
                    (Some(available), Some(total)) => {
                        self.store(Account { available, total, ..a });
                        self.history.insert(tx, Revertible { client, amount });
                        Outcome::Applied
                    },
                    _ => Outcome::Rejected(Rejection::Overflow),
                }
            },
            Transaction::Withdrawal { client, tx, amount } => {
                let a = self.account_or_fresh(client);
                if self.policy.locked_blocks_transfers && a.locked {
                    return Outcome::Rejected(Rejection::AccountLocked);
                }
                let rest = a.available as i128 - amount as i128;
                let enough = if self.policy.allow_zero_available {
                    rest >= 0
                } else {
                    rest > 0
                };
                if !enough {
                    return Outcome::Rejected(Rejection::InsufficientFunds);
                }
                let avail = to_i64(rest);
                let total = to_i64(a.total as i128 - amount as i128);
                match (avail, total) {
                    (Some(available), Some(total)) => {
                        self.store(Account { available, total, ..a });
                        self.history.insert(tx, Revertible { client, amount });
                        Outcome::Applied
                    },
                    _ => Outcome::Rejected(Rejection::Overflow),
                }
            },
            Transaction::Dispute { client, tx } => {
                let v = match self.check_reference(client, tx, false) {
                    Ok(v) => v,
                    Err(r) => return Outcome::Rejected(r),
                };
                let a = self.account_or_fresh(client);
                let avail = to_i64(a.available as i128 - v as i128);
                let held = to_i64(a.held as i128 + v as i128);
                match (avail, held) {
                    (Some(available), Some(held)) => {
                        self.store(Account { available, held, ..a });
                        self.disputed.insert(tx);
                        Outcome::Applied
                    },
                    _ => Outcome::Rejected(Rejection::Overflow),
                }
            },
            Transaction::Resolve { client, tx } => {
                let v = match self.check_reference(client, tx, true) {
                    Ok(v) => v,
                    Err(r) => return Outcome::Rejected(r),
                };
                let a = self.account_or_fresh(client);
                let avail = to_i64(a.available as i128 + v as i128);
                let held = to_i64(a.held as i128 - v as i128);
                match (avail, held) {
                    (Some(available), Some(held)) => {
                        self.store(Account { available, held, ..a });
                        self.disputed.remove(&tx);
                        Outcome::Applied
                    },
                    _ => Outcome::Rejected(Rejection::Overflow),
                }
            },
            Transaction::Chargeback { client, tx } => {
                let v = match self.check_reference(client, tx, true) {
                    Ok(v) => v,
                    Err(r) => return Outcome::Rejected(r),
                };
                let a = self.account_or_fresh(client);
                let held = to_i64(a.held as i128 - v as i128);
                let total = to_i64(a.total as i128 - v as i128);
                match (held, total) {
                    (Some(held), Some(total)) => {
                        self.store(Account { held, total, locked: true, ..a });
                        self.disputed.remove(&tx);
                        Outcome::Applied
                    },
                    _ => Outcome::Rejected(Rejection::Overflow),
                }
            },
        }
    }

    /// Decodes one row and applies it. A row that does not decode leaves the
    /// ledger unchanged.
    pub fn apply_row(&mut self, kind: &str, client: &str, tx: &str, amount: &str) -> (r: Result<
        Outcome,
        DecodeError,
    >)
        requires
            old(self).wf(),
        ensures
            final(self).wf(),
            match decoded(kind@, client@, tx@, amount@) {
                Ok(t) => r == Ok::<Outcome, DecodeError>(old(self)@.outcome(t)) && final(self)@
                    == old(self)@.next(t),
                Err(e) => r == Err::<Outcome, DecodeError>(e) && final(self)@ == old(self)@,
            },
    {
        match crate::decode::decode(kind, client, tx, amount) {
            Ok(t) => Ok(self.apply(t)),
            Err(e) => Err(e),
        }
    }

    /// The amount of the referenced record when the reference checks pass.
    fn check_reference(&self, client: u16, tx: u32, want_disputed: bool) -> (r: Result<
        u64,
        Rejection,
    >)
        ensures
            match self@.reference_check(client, tx, want_disputed) {
                Some(e) => r == Err::<u64, Rejection>(e),
                None => r == Ok::<u64, Rejection>(self@.history[tx].amount),
            },
    {
        let rec = match self.history.get(&tx) {
            Some(rec) => *rec,
            None => return Err(Rejection::UnknownTransaction),
        };
        if rec.client != client {
            return Err(Rejection::ClientMismatch);
        }
        let disputed = self.disputed.contains(&tx);
        if want_disputed && !disputed {
            return Err(Rejection::NotDisputed);
        }
        if !want_disputed && disputed {
            return Err(Rejection::AlreadyDisputed);
        }
        Ok(rec.amount)
    }

    /// Applies the transactions of `ts` in order and returns each outcome.
    pub fn apply_all(&mut self, ts: &Vec<Transaction>) -> (r: Vec<Outcome>)
        requires
            old(self).wf(),
        ensures
            final(self).wf(),
            final(self)@ == old(self)@.replay(ts@),
            r@.len() == ts@.len(),
            forall|i: int|
                0 <= i < ts@.len() ==> r@[i] == #[trigger] old(self)@.replay(
                    ts@.subrange(0, i),
                ).outcome(ts@[i]),
    {
        let ghost s0 = self@;
        let mut out: Vec<Outcome> = Vec::new();
        let mut i: usize = 0;
        while i < ts.len()
            invariant
                self.wf(),
                i <= ts@.len(),
                self@ == s0.replay(ts@.subrange(0, i as int)),
                out@.len() == i,
                forall|j: int|
                    0 <= j < i ==> out@[j] == #[trigger] s0.replay(ts@.subrange(0, j)).outcome(
                        ts@[j],
                    ),
            decreases ts@.len() - i,
        {
            let ghost pre = ts@.subrange(0, i as int);
            let o = self.apply(ts[i]);
            out.push(o);
            assert(ts@.subrange(0, i + 1).drop_last() =~= pre);
            i = i + 1;
        }
        assert(ts@.subrange(0, ts@.len() as int) =~= ts@);
        out
    }

    /// The accounts, one per client, in the order in which they were created.
    pub fn snapshot(&self) -> (r: Vec<Account>)
        requires
            self.wf(),
        ensures
            r@ == self@.snapshot(),
    {
        let mut out: Vec<Account> = Vec::new();
        let mut i: usize = 0;
        while i < self.order.len()
            invariant
                self.wf(),
                i <= self@.order.len(),
                out@ =~= self@.order.subrange(0, i as int).map_values(
                    |c: u16| self@.accounts[c],
                ),
            decreases self@.order.len() - i,
        {
            let c = self.order[i];
            assert(self@.order.contains(c));
            match self.accounts.get(&c) {
                Some(a) => out.push(*a),
                None => {},
            }
            i = i + 1;
        }
        assert(self@.order.subrange(0, self@.order.len() as int) =~= self@.order);
        out
    }
}

pub(crate) proof fn lemma_with_account_wf(s: LedgerState, a: Account)
    requires
        s.wf(),
        a.total == a.available + a.held,
    ensures
        s.with_account(a).wf(),
{
    let t = s.with_account(a);
        assert forall|c: u16| t.accounts.contains_key(c) <==> t.order.contains(c) by {
        if c != a.client && !s.accounts.contains_key(a.client) {
            assert(s.order.push(a.client).contains(c) ==> s.order.contains(c)) by {
                if s.order.push(a.client).contains(c) {
                    let i = choose|i: int|
                        0 <= i < s.order.push(a.client).len() && s.order.push(a.client)[i]
                            == c;
                    assert(i < s.order.len());
                }
            }
            assert(s.order.contains(c) ==> s.order.push(a.client).contains(c)) by {
                if s.order.contains(c) {
                    let i = choose|i: int| 0 <= i < s.order.len() && s.order[i] == c;
                    assert(s.order.push(a.client)[i] == c);
                }
            }
        }
        if c == a.client && !s.accounts.contains_key(a.client) {
            assert(t.order[s.order.len() as int] == c);
        }
    }
    assert(t.order.no_duplicates()) by {
        if !s.accounts.contains_key(a.client) {
            assert forall|i: int, j: int|
                0 <= i < t.order.len() && 0 <= j < t.order.len() && i != j implies
                t.order[i] != t.order[j] by {
                if i == s.order.len() && j < s.order.len() {
                    assert(s.order.contains(s.order[j]));
                }
                if j == s.order.len() && i < s.order.len() {
                    assert(s.order.contains(s.order[i]));
                }
            }
        }
    }
}

proof fn lemma_order_len(s: LedgerState)
    requires
        s.wf(),
    ensures
        s.accounts.len() == s.order.len(),
{
    s.order.unique_seq_to_set();
    assert(s.accounts.dom() =~= s.order.to_set());
}

} // verus!
