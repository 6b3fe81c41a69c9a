use std::collections::HashMap;

use vstd::prelude::*;

use crate::amount::{fits, Amount};

verus! {

broadcast use vstd::std_specs::hash::group_hash_axioms;

/// The kind of an operation addressed to a client account.
#[derive(Clone, Copy, Debug, PartialEq, Eq, Structural)]
pub enum Operation {
    Deposit,
    Withdrawal,
    Dispute,
    Resolve,
    Chargeback,
}

/// One operation record: its kind, the client and transaction it names, and an
/// amount, present for deposits and withdrawals only.
#[derive(Clone, Copy, Debug, PartialEq, Eq, Structural)]
pub struct Transaction {
    pub kind: Operation,
    pub client: u16,
    pub tx: u32,
    pub amount: Option<Amount>,
}

/// Why an operation was refused. A refused operation changes nothing.
#[derive(Clone, Copy, Debug, PartialEq, Eq, Structural)]
pub enum Error {
    /// A withdrawal asked for more than is available; carries the shortfall.
    InsussficientFunds(Amount),
    /// No deposit with the given transaction id is recorded for the client.
    NoTransaction,
    /// The transaction is already under dispute.
    AlreadyDisputed,
    /// The transaction is not under dispute.
    NotDisputed,
    /// The account is locked.
    Locked,
    /// A deposit or withdrawal came without an amount.
    MissingAmount,
    /// A dispute, resolve or chargeback came with an amount.
    UnnecessaryAmount,
    /// A balance would leave the range that an amount can hold.
    Overflow,
}

/// The abstract state of one client account.
pub struct Account {
    pub available: int,
    pub held: int,
    pub total: int,
    pub locked: bool,
    /// Recorded deposits: transaction id to amount and whether it is disputed.
    pub history: Map<u32, (int, bool)>,
}

/// The account a client has before any operation names it.
pub open spec fn fresh_account() -> Account {
    Account { available: 0, held: 0, total: 0, locked: false, history: Map::empty() }
}

/// The balance invariant: the total is what is available plus what is held.
pub open spec fn balanced(a: Account) -> bool {
    a.total == a.available + a.held
}

/// A deposit of `amount` under transaction id `tx`.
pub open spec fn deposit_spec(a: Account, tx: u32, amount: int) -> (Account, Result<(), Error>) {
    if fits(a.available + amount) && fits(a.total + amount) {
        (
            Account {
                available: a.available + amount,
                total: a.total + amount,
                history: a.history.insert(tx, (amount, false)),
                ..a
            },
            Ok(()),
        )
    } else {
        (a, Err(Error::Overflow))
    }
}

/// A withdrawal of `amount`.
pub open spec fn withdraw_spec(a: Account, amount: int) -> (Account, Result<(), Error>) {
    if a.available < amount {
        if fits(amount - a.available) {
            (a, Err(Error::InsussficientFunds(Amount { units: (amount - a.available) as i128 })))
        } else {
            (a, Err(Error::Overflow))
        }
    } else if fits(a.available - amount) && fits(a.total - amount) {
        (Account { available: a.available - amount, total: a.total - amount, ..a }, Ok(()))
    } else {
        (a, Err(Error::Overflow))
    }
}

/// A dispute of the deposit recorded under `tx`.
pub open spec fn dispute_spec(a: Account, tx: u32) -> (Account, Result<(), Error>) {
    if !a.history.contains_key(tx) {
        (a, Err(Error::NoTransaction))
    } else {
        let amount = a.history[tx].0;
        if a.history[tx].1 {
            (a, Err(Error::AlreadyDisputed))
        } else if fits(a.available - amount) && fits(a.held + amount) {
            (
                Account {
                    available: a.available - amount,
                    held: a.held + amount,
                    history: a.history.insert(tx, (amount, true)),
                    ..a
                },
                Ok(()),
            )
        } else {
            (a, Err(Error::Overflow))
        }
    }
}

/// The resolution of the dispute on `tx`.
pub open spec fn resolve_spec(a: Account, tx: u32) -> (Account, Result<(), Error>) {
    if !a.history.contains_key(tx) {
        (a, Err(Error::NoTransaction))
    } else {
        let amount = a.history[tx].0;
        if !a.history[tx].1 {
            (a, Err(Error::NotDisputed))
        } else if fits(a.held - amount) && fits(a.available + amount) {
            (
                Account {
                    available: a.available + amount,
                    held: a.held - amount,
                    history: a.history.insert(tx, (amount, false)),
                    ..a
                },
                Ok(()),
            )
        } else {
            (a, Err(Error::Overflow))
        }
    }
}

/// The chargeback of the disputed deposit `tx`, which locks the account.
pub open spec fn chargeback_spec(a: Account, tx: u32) -> (Account, Result<(), Error>) {
    if !a.history.contains_key(tx) {
        (a, Err(Error::NoTransaction))
    } else {
        let amount = a.history[tx].0;
        if !a.history[tx].1 {
            (a, Err(Error::NotDisputed))
        } else if fits(a.held - amount) && fits(a.total - amount) {
            (
                Account {
                    held: a.held - amount,
                    total: a.total - amount,
                    locked: true,
                    history: a.history.insert(tx, (amount, false)),
                    ..a
                },
                Ok(()),
            )
        } else {
            (a, Err(Error::Overflow))
        }
    }
}

/// One operation applied to an account: a locked account refuses everything, an
/// amount that does not match the kind is refused, the rest goes to the kind's
/// transition.
pub open spec fn apply_spec(a: Account, t: Transaction) -> (Account, Result<(), Error>) {
    if a.locked {
        (a, Err(Error::Locked))
    } else {
        match (t.kind, t.amount) {
            (Operation::Deposit, Some(x)) => deposit_spec(a, t.tx, x@),
            (Operation::Withdrawal, Some(x)) => withdraw_spec(a, x@),
            (Operation::Dispute, None) => dispute_spec(a, t.tx),
            (Operation::Resolve, None) => resolve_spec(a, t.tx),
            (Operation::Chargeback, None) => chargeback_spec(a, t.tx),
            (_, None) => (a, Err(Error::MissingAmount)),
            (_, Some(_)) => (a, Err(Error::UnnecessaryAmount)),
        }
    }
}

/// One client's balances and its recorded deposits.
#[derive(Debug)]
pub struct Client {
    pub available: Amount,
    pub held: Amount,
    pub total: Amount,
    pub locked: bool,
    /// Deposits by transaction id, each with whether it is disputed.
    transactions: HashMap<u32, (Amount, bool)>,
}

impl Client {
    /// The recorded deposits, as amounts and dispute flags.
    pub closed spec fn history(&self) -> Map<u32, (int, bool)> {
        Map::new(
            |t: u32| self.transactions@.contains_key(t),
            |t: u32| (self.transactions@[t].0@, self.transactions@[t].1),
        )
    }

    /// Records a deposit of `amount` under `tx` and credits it. A reused `tx`
    /// replaces the earlier record.
    pub fn deposit(&mut self, tx: u32, amount: Amount) -> (r: Result<(), Error>)
        ensures
            (final(self)@, r) == deposit_spec(old(self)@, tx, amount@),
    {
        let available = match self.available.checked_add(amount) {
            Some(v) => v,
            None => return Err(Error::Overflow),
        };
        let total = match self.total.checked_add(amount) {
            Some(v) => v,
            None => return Err(Error::Overflow),
        };
        self.available = available;
        self.total = total;
        self.transactions.insert(tx, (amount, false));
        assert(self.history() =~= old(self).history().insert(tx, (amount@, false)));
        Ok(())
    }

    /// Debits `amount` if that much is available; otherwise reports the shortfall.
    pub fn withdraw(&mut self, amount: Amount) -> (r: Result<(), Error>)
        ensures
            (final(self)@, r) == withdraw_spec(old(self)@, amount@),
    {
        if self.available.units < amount.units {
            return match amount.checked_sub(self.available) {
                Some(shortfall) => Err(Error::InsussficientFunds(shortfall)),
                None => Err(Error::Overflow),
            };
        }
        let available = match self.available.checked_sub(amount) {
            Some(v) => v,
            None => return Err(Error::Overflow),
        };
        let total = match self.total.checked_sub(amount) {
            Some(v) => v,
            None => return Err(Error::Overflow),
        };
        self.available = available;
        self.total = total;
        Ok(())
    }

    /// Moves the amount of deposit `tx` from available to held and marks it disputed.
    pub fn dispute(&mut self, tx: u32) -> (r: Result<(), Error>)
        ensures
            (final(self)@, r) == dispute_spec(old(self)@, tx),
    {
        let (amount, disputed) = match self.transactions.get(&tx) {
            Some(entry) => *entry,
            None => return Err(Error::NoTransaction),
        };
        if disputed {
            return Err(Error::AlreadyDisputed);
        }
        let available = match self.available.checked_sub(amount) {
            Some(v) => v,
            None => return Err(Error::Overflow),
        };
        let held = match self.held.checked_add(amount) {
            Some(v) => v,
            None => return Err(Error::Overflow),
        };
        self.available = available;
        self.held = held;
        self.transactions.insert(tx, (amount, true));
        assert(self.history() =~= old(self).history().insert(tx, (amount@, true)));
        Ok(())
    }

    /// Ends the dispute on `tx`: its amount goes back from held to available.
    pub fn resolve(&mut self, tx: u32) -> (r: Result<(), Error>)
        ensures
            (final(self)@, r) == resolve_spec(old(self)@, tx),
    {
        let (amount, disputed) = match self.transactions.get(&tx) {
            Some(entry) => *entry,
            None => return Err(Error::NoTransaction),
        };
        if !disputed {
            return Err(Error::NotDisputed);
        }
        let held = match self.held.checked_sub(amount) {
            Some(v) => v,
            None => return Err(Error::Overflow),
        };
        let available = match self.available.checked_add(amount) {
            Some(v) => v,
            None => return Err(Error::Overflow),
        };
        self.held = held;
        self.available = available;
        self.transactions.insert(tx, (amount, false));
        assert(self.history() =~= old(self).history().insert(tx, (amount@, false)));
        Ok(())
    }

    /// Reverses the disputed deposit `tx`: its amount leaves held and total, the
    /// dispute closes and the account locks.
    pub fn chargeback(&mut self, tx: u32) -> (r: Result<(), Error>)
        ensures
            (final(self)@, r) == chargeback_spec(old(self)@, tx),
    {
        let (amount, disputed) = match self.transactions.get(&tx) {
            Some(entry) => *entry,
            None => return Err(Error::NoTransaction),
        };
        if !disputed {
            return Err(Error::NotDisputed);
        }
        let held = match self.held.checked_sub(amount) {
            Some(v) => v,
            None => return Err(Error::Overflow),
        };
        let total = match self.total.checked_sub(amount) {
            Some(v) => v,
            None => return Err(Error::Overflow),
        };
        self.held = held;
        self.total = total;
        self.transactions.insert(tx, (amount, false));
        self.locked = true;
        assert(self.history() =~= old(self).history().insert(tx, (amount@, false)));
        Ok(())
    }
}

impl Client {
    /// Available, held and total funds, and whether the account is locked.
    pub fn snapshot(&self) -> (r: (Amount, Amount, Amount, bool))
        ensures
            r.0@ == self@.available,
            r.1@ == self@.held,
            r.2@ == self@.total,
            r.3 == self@.locked,
    {
        (self.available, self.held, self.total, self.locked)
    }
}

impl View for Client {
    type V = Account;

    closed spec fn view(&self) -> Account {
        Account {
            available: self.available@,
            held: self.held@,
            total: self.total@,
            locked: self.locked,
            history: self.history(),
        }
    }
}

impl Default for Client {
    /// A new account: zero balances, unlocked, nothing recorded.
    fn default() -> (r: Client)
        ensures
            r@ == fresh_account(),
    {
        let r = Client {
            available: Amount::zero(),
            held: Amount::zero(),
            total: Amount::zero(),
            locked: false,
            transactions: HashMap::new(),
        };
        assert(r.history() =~= Map::empty());
        r
    }
}

/// The ledger after one operation: the named client's account, or a fresh one
/// where the client is new, takes the transition and is stored back.
pub open spec fn ledger_step(m: Map<u16, Account>, t: Transaction) -> (
    Map<u16, Account>,
    Result<(), Error>,
) {
    let a = if m.contains_key(t.client) {
        m[t.client]
    } else {
        fresh_account()
    };
    (m.insert(t.client, apply_spec(a, t).0), apply_spec(a, t).1)
}

/// The ledger after the operations of `ts`, in order, whatever each returned.
pub open spec fn replay(m: Map<u16, Account>, ts: Seq<Transaction>) -> Map<u16, Account>
    decreases ts.len(),
{
    if ts.len() == 0 {
        m
    } else {
        ledger_step(replay(m, ts.drop_last()), ts.last()).0
    }
}

/// Every transition keeps the total equal to available plus held.
pub proof fn lemma_apply_keeps_balance(a: Account, t: Transaction)
    requires
        balanced(a),
    ensures
        balanced(apply_spec(a, t).0),
{
}

/// The registry of client accounts, created on first reference.
pub struct Processor {
    clients: HashMap<u16, Client>,
}

impl Processor {
    /// The accounts by client id.
    pub closed spec fn accounts(&self) -> Map<u16, Account> {
        Map::new(|k: u16| self.clients@.contains_key(k), |k: u16| self.clients@[k]@)
    }

    /// Every account is balanced.
    pub open spec fn wf(&self) -> bool {
        forall|k: u16| #[trigger]
            self.accounts().contains_key(k) ==> balanced(self.accounts()[k])
    }

    /// Applies one operation to its client's account, creating the account on
    /// first reference, and returns what the account's transition returned.
    pub fn process(&mut self, transaction: Transaction) -> (r: Result<(), Error>)
        requires
            old(self).wf(),
        ensures
            final(self).wf(),
            (final(self).accounts(), r) == ledger_step(old(self).accounts(), transaction),
    {
        let mut client = match self.clients.remove(&transaction.client) {
            Some(c) => c,
            None => Client::default(),
        };
        let ghost before = client@;
        let r = if client.locked {
            Err(Error::Locked)
        } else {
            match (transaction.kind, transaction.amount) {
                (Operation::Deposit, Some(amount)) => client.deposit(transaction.tx, amount),
                (Operation::Withdrawal, Some(amount)) => client.withdraw(amount),
                (Operation::Dispute, None) => client.dispute(transaction.tx),
                (Operation::Resolve, None) => client.resolve(transaction.tx),
                (Operation::Chargeback, None) => client.chargeback(transaction.tx),
                (_, None) => Err(Error::MissingAmount),
                (_, Some(_)) => Err(Error::UnnecessaryAmount),
            }
        };
        let ghost after = client@;
        self.clients.insert(transaction.client, client);
        proof {
            let a = if old(self).accounts().contains_key(transaction.client) {
                old(self).accounts()[transaction.client]
            } else {
                fresh_account()
            };
            assert(before == a);
            assert((after, r) == apply_spec(a, transaction));
            assert(self.accounts() =~= old(self).accounts().insert(transaction.client, after));
            lemma_apply_keeps_balance(a, transaction);
        }
        r
    }

    /// The accounts, read only.
    pub fn clients(&self) -> (r: &HashMap<u16, Client>)
        ensures
            forall|k: u16| #[trigger] r@.contains_key(k) == self.accounts().contains_key(k),
            forall|k: u16| #[trigger] r@.contains_key(k) ==> r@[k]@ == self.accounts()[k],
    {
        &self.clients
    }

    /// Applies the operations in order to a new registry; a refused operation is
    /// skipped.
    pub fn from_iter(transactions: Vec<Transaction>) -> (r: Processor)
        ensures
            r.wf(),
            r.accounts() == replay(Map::empty(), transactions@),
    {
        let mut processor = Processor::default();
        let mut i: usize = 0;
        while i < transactions.len()
            invariant
                i <= transactions.len(),
                processor.wf(),
                processor.accounts() == replay(Map::empty(), transactions@.subrange(0, i as int)),
            decreases transactions.len() - i,
        {
            let _ = processor.process(transactions[i]);
            proof {
                let next = transactions@.subrange(0, i + 1);
                assert(next.drop_last() =~= transactions@.subrange(0, i as int));
            }
            i = i + 1;
        }
        assert(transactions@.subrange(0, i as int) =~= transactions@);
        processor
    }
}

impl Default for Processor {
    /// An empty registry.
    fn default() -> (r: Processor)
        ensures
            r.wf(),
            r.accounts() == Map::<u16, Account>::empty(),
    {
        let r = Processor { clients: HashMap::new() };
        assert(r.accounts() =~= Map::empty());
        r
    }
}

} // verus!
