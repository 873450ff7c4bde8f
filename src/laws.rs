use crate::decode::{decoded, kind_of, DecodeError};
use crate::ledger::{
    fits_i64, lemma_with_account_wf, standard_policy, Account, LedgerState, Outcome, Rejection,
    Transaction,
};
use vstd::prelude::*;

verus! {

/// Every transition keeps the ledger well formed; in particular each
/// account's total stays equal to its available plus held funds.
pub proof fn lemma_next_keeps_balances(s: LedgerState, t: Transaction)
    requires
        s.wf(),
    ensures
        s.next(t).wf(),
        forall|c: u16| #[trigger]
            s.next(t).accounts.contains_key(c) ==> s.next(t).accounts[c].total == s.next(
                t,
            ).accounts[c].available + s.next(t).accounts[c].held,
{
    if s.outcome(t) == Outcome::Applied {
        match t {
            Transaction::Deposit { client, tx, amount } => {
                let a = s.account_of(client);
                lemma_with_account_wf(
                    s,
                    Account {
                        available: (a.available + amount) as i64,
                        total: (a.total + amount) as i64,
                        ..a
                    },
                );
            },
            Transaction::Withdrawal { client, tx, amount } => {
                let a = s.account_of(client);
                lemma_with_account_wf(
                    s,
                    Account {
                        available: (a.available - amount) as i64,
                        total: (a.total - amount) as i64,
                        ..a
                    },
                );
            },
            Transaction::Dispute { client, tx } => {
                let a = s.account_of(client);
                let v = s.history[tx].amount;
                lemma_with_account_wf(
                    s,
                    Account {
                        available: (a.available - v) as i64,
                        held: (a.held + v) as i64,
                        ..a
                    },
                );
            },
            Transaction::Resolve { client, tx } => {
                let a = s.account_of(client);
                let v = s.history[tx].amount;
                lemma_with_account_wf(
                    s,
                    Account {
                        available: (a.available + v) as i64,
                        held: (a.held - v) as i64,
                        ..a
                    },
                );
            },
            Transaction::Chargeback { client, tx } => {
                let a = s.account_of(client);
                let v = s.history[tx].amount;
                lemma_with_account_wf(
                    s,
                    Account { held: (a.held - v) as i64, total: (a.total - v) as i64, locked: true, ..a },
                );
            },
        }
    }
}

/// At every point of a replay, every account's total equals its available
/// plus held funds.
pub proof fn lemma_replay_keeps_balances(s: LedgerState, ts: Seq<Transaction>)
    requires
        s.wf(),
    ensures
        s.replay(ts).wf(),
        forall|c: u16| #[trigger]
            s.replay(ts).accounts.contains_key(c) ==> s.replay(ts).accounts[c].total == s.replay(
                ts,
            ).accounts[c].available + s.replay(ts).accounts[c].held,
    decreases ts.len(),
{
    if ts.len() > 0 {
        lemma_replay_keeps_balances(s, ts.drop_last());
        lemma_next_keeps_balances(s.replay(ts.drop_last()), ts.last());
    }
}

/// A rejected transaction changes nothing, and applying it again is
/// rejected for the same reason and again changes nothing.
pub proof fn lemma_rejection_idempotent(s: LedgerState, t: Transaction)
    requires
        s.outcome(t) != Outcome::Applied,
    ensures
        s.next(t) == s,
        s.next(t).outcome(t) == s.outcome(t),
        s.next(t).next(t) == s,
{
}

/// A row whose kind keyword is not recognised fails to decode as such.
pub proof fn lemma_unknown_kind_dropped(
    kind: Seq<char>,
    client: Seq<char>,
    tx: Seq<char>,
    amount: Seq<char>,
)
    requires
        kind_of(kind) is None,
    ensures
        decoded(kind, client, tx, amount) == Err::<Transaction, DecodeError>(
            DecodeError::UnknownKind,
        ),
{
}

/// Life of a dispute on an accepted deposit of `amount` under id `tx`:
/// the dispute moves exactly `amount` from available to held and marks `tx`;
/// a second dispute is rejected; a resolve restores the account and unmarks
/// `tx`; a chargeback instead takes `amount` off held and total and locks
/// the account.
pub proof fn lemma_dispute_lifecycle(s: LedgerState, client: u16, tx: u32, amount: u64)
    requires
        s.wf(),
        !s.disputed.contains(tx),
        s.outcome(Transaction::Deposit { client, tx, amount }) == Outcome::Applied,
        fits_i64(s.account_of(client).held + amount),
    ensures
        ({
            let s1 = s.next(Transaction::Deposit { client, tx, amount });
            let d = Transaction::Dispute { client, tx };
            let s2 = s1.next(d);
            let before = s1.accounts[client];
            let during = s2.accounts[client];
            &&& s1.outcome(d) == Outcome::Applied
            &&& during.available == before.available - amount
            &&& during.held == before.held + amount
            &&& during.total == before.total
            &&& during.locked == before.locked
            &&& s2.disputed.contains(tx)
            &&& s2.outcome(d) == Outcome::Rejected(Rejection::AlreadyDisputed)
            &&& s2.outcome(Transaction::Resolve { client, tx }) == Outcome::Applied
            &&& s2.next(Transaction::Resolve { client, tx }).accounts[client] == before
            &&& !s2.next(Transaction::Resolve { client, tx }).disputed.contains(tx)
            &&& s2.outcome(Transaction::Chargeback { client, tx }) == Outcome::Applied
            &&& s2.next(Transaction::Chargeback { client, tx }).accounts[client] == (Account {
                client,
                available: (before.available - amount) as i64,
                held: before.held,
                total: (before.total - amount) as i64,
                locked: true,
            })
            &&& !s2.next(Transaction::Chargeback { client, tx }).disputed.contains(tx)
        }),
{
    let s1 = s.next(Transaction::Deposit { client, tx, amount });
    assert(s1.accounts.contains_key(client));
    assert(s1.history[tx] == crate::ledger::Revertible { client, amount });
    assert(s1.account_of(client).client == client);
}

/// Under the standard policy a withdrawal that would leave the available
/// balance at zero or below is rejected and changes nothing; one that leaves
/// it strictly positive is applied and takes exactly `amount` off.
pub proof fn lemma_withdrawal_boundary(s: LedgerState, client: u16, tx: u32, amount: u64)
    requires
        s.wf(),
        s.policy == standard_policy(),
    ensures
        ({
            let w = Transaction::Withdrawal { client, tx, amount };
            let a = s.account_of(client);
            &&& a.available - amount <= 0 ==> s.outcome(w) == Outcome::Rejected(
                Rejection::InsufficientFunds,
            ) && s.next(w) == s
            &&& a.available - amount > 0 && fits_i64(a.total - amount) ==> s.outcome(w)
                == Outcome::Applied && s.next(w).accounts[client].available == a.available
                - amount && s.next(w).accounts[client].total == a.total - amount
        }),
{
}

} // verus!
