use vstd::prelude::*;

use crate::amount::{fits, Amount};
use crate::processor::{
    apply_spec, balanced, dispute_spec, fresh_account, ledger_step, replay, resolve_spec, Account,
    Error, Operation, Transaction,
};

verus! {

/// Every balance of the account can be held by an amount.
pub open spec fn in_range(a: Account) -> bool {
    fits(a.available) && fits(a.held) && fits(a.total)
}

/// Every account of the ledger is balanced.
pub open spec fn all_balanced(m: Map<u16, Account>) -> bool {
    forall|k: u16| #[trigger] m.contains_key(k) ==> balanced(m[k])
}

/// Total equals available plus held in every account, after any sequence of
/// operations on a ledger where it held at the start.
pub proof fn lemma_replay_keeps_balance(m: Map<u16, Account>, ts: Seq<Transaction>)
    requires
        all_balanced(m),
    ensures
        all_balanced(replay(m, ts)),
    decreases ts.len(),
{
    assert(balanced(fresh_account()));
    if ts.len() > 0 {
        lemma_replay_keeps_balance(m, ts.drop_last());
        let prev = replay(m, ts.drop_last());
        let t = ts.last();
        let a = if prev.contains_key(t.client) {
            prev[t.client]
        } else {
            fresh_account()
        };
        crate::processor::lemma_apply_keeps_balance(a, t);
        let next = ledger_step(prev, t).0;
        assert forall|k: u16| #[trigger] next.contains_key(k) implies balanced(next[k]) by {
            if k != t.client {
                assert(prev.contains_key(k));
            }
        }
    }
}

/// A ledger built by a sequence of operations holds an account for exactly the
/// clients that were there at the start or that some operation names.
pub proof fn lemma_replay_clients(m: Map<u16, Account>, ts: Seq<Transaction>, c: u16)
    ensures
        replay(m, ts).contains_key(c) <==> (m.contains_key(c) || exists|i: int|
            0 <= i < ts.len() && (#[trigger] ts[i]).client == c),
    decreases ts.len(),
{
    if ts.len() > 0 {
        let prefix = ts.drop_last();
        lemma_replay_clients(m, prefix, c);
        if exists|i: int| 0 <= i < ts.len() && (#[trigger] ts[i]).client == c {
            let i = choose|i: int| 0 <= i < ts.len() && (#[trigger] ts[i]).client == c;
            if i < ts.len() - 1 {
                assert(prefix[i] == ts[i]);
            }
        }
        if exists|i: int| 0 <= i < prefix.len() && (#[trigger] prefix[i]).client == c {
            let i = choose|i: int| 0 <= i < prefix.len() && (#[trigger] prefix[i]).client == c;
            assert(ts[i] == prefix[i]);
        }
    }
}

/// A locked account refuses every operation with `Locked` and stays as it is.
pub proof fn lemma_locked_refuses(a: Account, t: Transaction)
    requires
        a.locked,
    ensures
        apply_spec(a, t) == (a, Err::<(), Error>(Error::Locked)),
{
}

/// Once an account is locked, no sequence of operations changes it.
pub proof fn lemma_locked_account_frozen(m: Map<u16, Account>, ts: Seq<Transaction>, c: u16)
    requires
        m.contains_key(c),
        m[c].locked,
    ensures
        replay(m, ts).contains_key(c),
        replay(m, ts)[c] == m[c],
    decreases ts.len(),
{
    if ts.len() > 0 {
        lemma_locked_account_frozen(m, ts.drop_last(), c);
    }
}

/// A dispute that succeeds, followed at once by the resolution of the same
/// transaction, returns the account to where it was before the dispute.
pub proof fn lemma_dispute_then_resolve(a: Account, tx: u32)
    requires
        in_range(a),
        dispute_spec(a, tx).1 is Ok,
    ensures
        resolve_spec(dispute_spec(a, tx).0, tx) == (a, Ok::<(), Error>(())),
{
    let b = dispute_spec(a, tx).0;
    let c = resolve_spec(b, tx).0;
    assert(c.history =~= a.history);
}

/// A resolution that succeeds, followed at once by a new dispute of the same
/// transaction, returns the account to where it was before the resolution.
pub proof fn lemma_resolve_then_dispute(a: Account, tx: u32)
    requires
        in_range(a),
        resolve_spec(a, tx).1 is Ok,
    ensures
        dispute_spec(resolve_spec(a, tx).0, tx) == (a, Ok::<(), Error>(())),
{
    let b = resolve_spec(a, tx).0;
    let c = dispute_spec(b, tx).0;
    assert(c.history =~= a.history);
}

/// Deposits of one amount `x` to a client that had no account leave exactly
/// `n * x` available and in total, and nothing held, after `n` of them, so long
/// as `n * x` can be held by an amount.
pub proof fn lemma_repeated_deposits(m: Map<u16, Account>, ts: Seq<Transaction>, c: u16, x: Amount)
    requires
        !m.contains_key(c),
        x@ >= 0,
        fits(ts.len() * x@),
        forall|i: int|
            0 <= i < ts.len() ==> (#[trigger] ts[i]).kind == Operation::Deposit && ts[i].client == c
                && ts[i].amount == Some(x),
    ensures
        ts.len() > 0 ==> {
            &&& replay(m, ts).contains_key(c)
            &&& replay(m, ts)[c].available == ts.len() * x@
            &&& replay(m, ts)[c].total == ts.len() * x@
            &&& replay(m, ts)[c].held == 0
            &&& !replay(m, ts)[c].locked
        },
        ts.len() == 0 ==> !replay(m, ts).contains_key(c),
    decreases ts.len(),
{
    if ts.len() > 0 {
        let n = ts.len() as int;
        let prefix = ts.drop_last();
        assert(0 <= (n - 1) * x@ <= n * x@) by (nonlinear_arith)
            requires
                n >= 1,
                x@ >= 0,
        ;
        assert((n - 1) * x@ + x@ == n * x@) by (nonlinear_arith);
        assert(forall|i: int| 0 <= i < prefix.len() ==> #[trigger] prefix[i] == ts[i]);
        lemma_repeated_deposits(m, prefix, c, x);
        let t = ts.last();
        assert(ts[n - 1] == t);
        let prev = replay(m, prefix);
        let a = if prev.contains_key(c) {
            prev[c]
        } else {
            fresh_account()
        };
        if n == 1 {
            assert((n - 1) * x@ == 0) by (nonlinear_arith)
                requires
                    n == 1,
            ;
        }
        assert(a.available == (n - 1) * x@ && a.total == (n - 1) * x@ && a.held == 0 && !a.locked);
        assert(replay(m, ts) == ledger_step(prev, t).0);
        assert(apply_spec(a, t).0.available == n * x@);
    }
}

} // verus!
