use vstd::prelude::*;
use crate::error::LedgerError;

verus! {

/// A key of the balance table: (counterparty, account).
pub type Key = (Seq<char>, Seq<char>);

/// The amount recorded under `k`; a key without an entry holds 0.
pub open spec fn amount_at(m: Map<Key, int>, k: Key) -> int {
    if m.contains_key(k) {
        m[k]
    } else {
        0
    }
}

/// `m` after `amount` is added under `k`; the entry is created if absent.
pub open spec fn credited(m: Map<Key, int>, k: Key, amount: int) -> Map<Key, int> {
    m.insert(k, amount_at(m, k) + amount)
}

/// `m` after `amount` is taken from under `k`; an absent entry (which holds 0) stays absent.
pub open spec fn debited(m: Map<Key, int>, k: Key, amount: int) -> Map<Key, int> {
    if m.contains_key(k) {
        m.insert(k, m[k] - amount)
    } else {
        m
    }
}

/// What a credit of `amount` under `k` does to the table `m` (giving `m2`) and
/// returns (`r`): it succeeds exactly when the sum stays in range.
pub open spec fn credit_outcome(
    m: Map<Key, int>,
    m2: Map<Key, int>,
    k: Key,
    amount: u128,
    r: Result<(), LedgerError>,
) -> bool {
    let sum = amount_at(m, k) + amount;
    if sum <= max_amount() {
        r is Ok && m2 == credited(m, k, amount as int)
    } else {
        r == Err::<(), LedgerError>(LedgerError::ArithmeticOverflow) && m2 == m
    }
}

/// A successful credit of `amount` under `k`, read back at once, gives the
/// amount held before plus `amount`.
pub proof fn lemma_credit_then_get(m: Map<Key, int>, m2: Map<Key, int>, k: Key, amount: u128, r: Result<(), LedgerError>)
    requires
        credit_outcome(m, m2, k, amount, r),
        r is Ok,
    ensures
        amount_at(m2, k) == amount_at(m, k) + amount,
{
}

/// The largest amount an entry can hold.
pub open spec fn max_amount() -> int {
    u128::MAX as int
}

struct Entry {
    counterparty: String,
    account: String,
    amount: u128,
}

impl Entry {
    spec fn key(&self) -> Key {
        (self.counterparty@, self.account@)
    }
}

/// Balances keyed by (counterparty, account).
pub struct BalanceTable {
    entries: Vec<Entry>,
}

impl View for BalanceTable {
    type V = Map<Key, int>;

    closed spec fn view(&self) -> Map<Key, int> {
        Map::new(
            |k: Key| exists|i: int| 0 <= i < self.entries@.len() && self.entries@[i].key() == k,
            |k: Key|
                self.entries@[choose|i: int|
                    0 <= i < self.entries@.len() && self.entries@[i].key() == k].amount as int,
        )
    }
}

impl BalanceTable {
    /// No key has two entries.
    pub closed spec fn wf(&self) -> bool {
        forall|i: int, j: int|
            0 <= i < j < self.entries@.len() ==> #[trigger] self.entries@[i].key()
                != #[trigger] self.entries@[j].key()
    }

    proof fn lemma_entry_in_view(&self, i: int)
        requires
            self.wf(),
            0 <= i < self.entries@.len(),
        ensures
            self@.contains_key(self.entries@[i].key()),
            self@[self.entries@[i].key()] == self.entries@[i].amount as int,
    {
        let k = self.entries@[i].key();
        assert(self@.contains_key(k));
        let j = choose|j: int| 0 <= j < self.entries@.len() && self.entries@[j].key() == k;
        assert(j == i) by {
            if j < i {
                assert(self.entries@[j].key() != self.entries@[i].key());
            } else if i < j {
                assert(self.entries@[i].key() != self.entries@[j].key());
            }
        }
    }

    /// Every entry of a well-formed table holds a value in range.
    pub proof fn lemma_amounts_in_range(&self)
        requires
            self.wf(),
        ensures
            forall|k: Key| #[trigger] self@.contains_key(k) ==> 0 <= self@[k] <= max_amount(),
    {
        assert forall|k: Key| #[trigger] self@.contains_key(k) implies 0 <= self@[k] <= max_amount() by {
            let i = choose|i: int| 0 <= i < self.entries@.len() && self.entries@[i].key() == k;
            self.lemma_entry_in_view(i);
        }
    }

    /// An empty table.
    pub fn new() -> (r: BalanceTable)
        ensures
            r.wf(),
            r@ == Map::<Key, int>::empty(),
    {
        let r = BalanceTable { entries: Vec::new() };
        assert(r@ =~= Map::<Key, int>::empty());
        r
    }

    fn position(&self, counterparty: &String, account: &String) -> (r: Option<usize>)
        requires
            self.wf(),
        ensures
            match r {
                Some(i) => i < self.entries@.len() && self.entries@[i as int].key() == (
                counterparty@, account@),
                None => !self@.contains_key((counterparty@, account@)),
            },
    {
        let mut i: usize = 0;
        while i < self.entries.len()
            invariant
                i <= self.entries@.len(),
                forall|k: int| 0 <= k < i ==> self.entries@[k].key() != (counterparty@, account@),
            decreases self.entries@.len() - i,
        {
            if self.entries[i].counterparty == *counterparty && self.entries[i].account == *account {
                return Some(i);
            }
            i = i + 1;
        }
        None
    }

    /// The amount held under (counterparty, account); 0 where there is no entry.
    pub fn get(&self, counterparty: &String, account: &String) -> (r: u128)
        requires
            self.wf(),
        ensures
            r as int == amount_at(self@, (counterparty@, account@)),
    {
        match self.position(counterparty, account) {
            Some(i) => {
                proof {
                    self.lemma_entry_in_view(i as int);
                }
                self.entries[i].amount
            },
            None => 0,
        }
    }

    proof fn lemma_set_amount(old_t: &BalanceTable, new_t: &BalanceTable, i: int, v: u128)
        requires
            old_t.wf(),
            0 <= i < old_t.entries@.len(),
            new_t.entries@ == old_t.entries@.update(
                i,
                Entry {
                    counterparty: old_t.entries@[i].counterparty,
                    account: old_t.entries@[i].account,
                    amount: v,
                },
            ),
        ensures
            new_t.wf(),
            new_t@ == old_t@.insert(old_t.entries@[i].key(), v as int),
    {
        let k = old_t.entries@[i].key();
        assert(new_t.wf()) by {
            assert forall|a: int, b: int| 0 <= a < b < new_t.entries@.len() implies
                #[trigger] new_t.entries@[a].key() != #[trigger] new_t.entries@[b].key() by {
                assert(old_t.entries@[a].key() == new_t.entries@[a].key());
                assert(old_t.entries@[b].key() == new_t.entries@[b].key());
            }
        }
        assert forall|x: Key| #[trigger] new_t@.contains_key(x) <==> old_t@.insert(k, v as int).contains_key(x) by {
            if new_t@.contains_key(x) {
                let j = choose|j: int| 0 <= j < new_t.entries@.len() && new_t.entries@[j].key() == x;
                assert(old_t.entries@[j].key() == x);
            }
            if old_t@.contains_key(x) {
                let j = choose|j: int| 0 <= j < old_t.entries@.len() && old_t.entries@[j].key() == x;
                assert(new_t.entries@[j].key() == x);
            }
            if x == k {
                assert(new_t.entries@[i].key() == x);
            }
        }
        assert forall|x: Key| #[trigger] new_t@.contains_key(x) implies new_t@[x] == old_t@.insert(
            k,
            v as int,
        )[x] by {
            let j = choose|j: int| 0 <= j < new_t.entries@.len() && new_t.entries@[j].key() == x;
            new_t.lemma_entry_in_view(j);
            if j != i {
                old_t.lemma_entry_in_view(j);
            }
        }
        assert(new_t@ =~= old_t@.insert(k, v as int));
    }

    proof fn lemma_push(old_t: &BalanceTable, new_t: &BalanceTable, e: Entry)
        requires
            old_t.wf(),
            !old_t@.contains_key(e.key()),
            new_t.entries@ == old_t.entries@.push(e),
        ensures
            new_t.wf(),
            new_t@ == old_t@.insert(e.key(), e.amount as int),
    {
        let n = old_t.entries@.len() as int;
        assert(new_t.wf()) by {
            assert forall|a: int, b: int| 0 <= a < b < new_t.entries@.len() implies
                #[trigger] new_t.entries@[a].key() != #[trigger] new_t.entries@[b].key() by {
                if b == n {
                    assert(old_t@.contains_key(old_t.entries@[a].key()));
                } else {
                    assert(old_t.entries@[a] == new_t.entries@[a]);
                    assert(old_t.entries@[b] == new_t.entries@[b]);
                }
            }
        }
        assert forall|x: Key| #[trigger] new_t@.contains_key(x) <==> old_t@.insert(
            e.key(),
            e.amount as int,
        ).contains_key(x) by {
            if new_t@.contains_key(x) && x != e.key() {
                let j = choose|j: int| 0 <= j < new_t.entries@.len() && new_t.entries@[j].key() == x;
                assert(old_t.entries@[j].key() == x);
            }
            if old_t@.contains_key(x) {
                let j = choose|j: int| 0 <= j < old_t.entries@.len() && old_t.entries@[j].key() == x;
                assert(new_t.entries@[j].key() == x);
            }
            if x == e.key() {
                assert(new_t.entries@[n].key() == x);
            }
        }
        assert forall|x: Key| #[trigger] new_t@.contains_key(x) implies new_t@[x] == old_t@.insert(
            e.key(),
            e.amount as int,
        )[x] by {
            let j = choose|j: int| 0 <= j < new_t.entries@.len() && new_t.entries@[j].key() == x;
            new_t.lemma_entry_in_view(j);
            if j != n {
                assert(old_t.entries@[j] == new_t.entries@[j]);
                old_t.lemma_entry_in_view(j);
            }
        }
        assert(new_t@ =~= old_t@.insert(e.key(), e.amount as int));
    }

    /// Adds `amount` to the entry of (counterparty, account), creating it if absent.
    /// Fails with `ArithmeticOverflow`, changing nothing, where the sum is out of range.
    pub fn credit(&mut self, counterparty: &String, account: &String, amount: u128) -> (r: Result<
        (),
        LedgerError,
    >)
        requires
            old(self).wf(),
        ensures
            final(self).wf(),
            credit_outcome(old(self)@, final(self)@, (counterparty@, account@), amount, r),
            r is Err ==> *final(self) == *old(self),
    {
        match self.position(counterparty, account) {
            Some(i) => {
                proof {
                    self.lemma_entry_in_view(i as int);
                }
                let current = self.entries[i].amount;
                match current.checked_add(amount) {
                    Some(sum) => {
                        let ghost before = *self;
                        self.entries[i].amount = sum;
                        proof {
                            BalanceTable::lemma_set_amount(&before, self, i as int, sum);
                        }
                        Ok(())
                    },
                    None => Err(LedgerError::ArithmeticOverflow),
                }
            },
            None => {
                let ghost before = *self;
                let e = Entry { counterparty: counterparty.clone(), account: account.clone(), amount };
                let ghost ge = e;
                self.entries.push(e);
                proof {
                    BalanceTable::lemma_push(&before, self, ge);
                }
                Ok(())
            },
        }
    }

    /// Subtracts `amount` from the entry of (counterparty, account).
    /// Fails with `InsufficientBalance`, changing nothing, where the entry holds less.
    pub fn debit(&mut self, counterparty: &String, account: &String, amount: u128) -> (r: Result<
        (),
        LedgerError,
    >)
        requires
            old(self).wf(),
        ensures
            final(self).wf(),
            ({
                let k = (counterparty@, account@);
                let held = amount_at(old(self)@, k);
                match r {
                    Ok(()) => amount <= held && final(self)@ == debited(old(self)@, k, amount as int),
                    Err(e) => e == LedgerError::InsufficientBalance {
                        balance: held as u128,
                        requested: amount,
                    } && amount > held && *final(self) == *old(self),
                }
            }),
    {
        match self.position(counterparty, account) {
            Some(i) => {
                proof {
                    self.lemma_entry_in_view(i as int);
                }
                let current = self.entries[i].amount;
                if amount <= current {
                    let ghost before = *self;
                    self.entries[i].amount = current - amount;
                    proof {
                        BalanceTable::lemma_set_amount(&before, self, i as int, (current - amount) as u128);
                    }
                    Ok(())
                } else {
                    Err(LedgerError::InsufficientBalance { balance: current, requested: amount })
                }
            },
            None => {
                if amount == 0 {
                    Ok(())
                } else {
                    Err(LedgerError::InsufficientBalance { balance: 0, requested: amount })
                }
            },
        }
    }
}

} // verus!
