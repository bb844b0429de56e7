use vstd::prelude::*;
use crate::balances::max_amount;
use crate::error::LedgerError;

verus! {

/// The amount recorded for account `k`; an account without an entry holds 0.
pub open spec fn held_by(m: Map<Seq<char>, int>, k: Seq<char>) -> int {
    if m.contains_key(k) {
        m[k]
    } else {
        0
    }
}

/// `m` after `amount` is taken from account `k`; an absent entry (which holds 0) stays absent.
pub open spec fn taken_from(m: Map<Seq<char>, int>, k: Seq<char>, amount: int) -> Map<Seq<char>, int> {
    if m.contains_key(k) {
        m.insert(k, m[k] - amount)
    } else {
        m
    }
}

/// `m` after `amount` moves from account `from` to account `to`; the entry of `to`
/// is created if absent.
pub open spec fn moved(m: Map<Seq<char>, int>, from: Seq<char>, to: Seq<char>, amount: int) -> Map<
    Seq<char>,
    int,
> {
    if from == to {
        m
    } else {
        taken_from(m, from, amount).insert(to, held_by(m, to) + amount)
    }
}

struct Entry {
    account: String,
    amount: u128,
}

impl Entry {
    spec fn key(&self) -> Seq<char> {
        self.account@
    }
}

/// Balances keyed by account alone.
pub struct AccountTable {
    entries: Vec<Entry>,
}

impl View for AccountTable {
    type V = Map<Seq<char>, int>;

    closed spec fn view(&self) -> Map<Seq<char>, int> {
        Map::new(
            |k: Seq<char>| exists|i: int| 0 <= i < self.entries@.len() && self.entries@[i].key() == k,
            |k: Seq<char>|
                self.entries@[choose|i: int|
                    0 <= i < self.entries@.len() && self.entries@[i].key() == k].amount as int,
        )
    }
}

impl AccountTable {
    /// No key has two entries.
    pub closed spec fn wf(&self) -> bool {
        forall|i: int, j: int|
            0 <= i < j < self.entries@.len() ==> #[trigger] self.entries@[i].key()
                != #[trigger] self.entries@[j].key()
    }

    proof fn lemma_entry_in_view(&self, i: int)
        requires
            self.wf(),
            0 <= i < self.entries@.len(),
        ensures
            self@.contains_key(self.entries@[i].key()),
            self@[self.entries@[i].key()] == self.entries@[i].amount as int,
    {
        let k = self.entries@[i].key();
        assert(self@.contains_key(k));
        let j = choose|j: int| 0 <= j < self.entries@.len() && self.entries@[j].key() == k;
        assert(j == i) by {
            if j < i {
                assert(self.entries@[j].key() != self.entries@[i].key());
            } else if i < j {
                assert(self.entries@[i].key() != self.entries@[j].key());
            }
        }
    }

    /// Every entry of a well-formed table holds a value in range.
    pub proof fn lemma_amounts_in_range(&self)
        requires
            self.wf(),
        ensures
            forall|k: Seq<char>| #[trigger] self@.contains_key(k) ==> 0 <= self@[k] <= max_amount(),
    {
        assert forall|k: Seq<char>| #[trigger] self@.contains_key(k) implies 0 <= self@[k] <= max_amount() by {
            let i = choose|i: int| 0 <= i < self.entries@.len() && self.entries@[i].key() == k;
            self.lemma_entry_in_view(i);
        }
    }

    /// An empty table.
    pub fn new() -> (r: AccountTable)
        ensures
            r.wf(),
            r@ == Map::<Seq<char>, int>::empty(),
    {
        let r = AccountTable { entries: Vec::new() };
        assert(r@ =~= Map::<Seq<char>, int>::empty());
        r
    }

    fn position(&self, account: &String) -> (r: Option<usize>)
        requires
            self.wf(),
        ensures
            match r {
                Some(i) => i < self.entries@.len() && self.entries@[i as int].key() == account@,
                None => !self@.contains_key(account@),
            },
    {
        let mut i: usize = 0;
        while i < self.entries.len()
            invariant
                i <= self.entries@.len(),
                forall|k: int| 0 <= k < i ==> self.entries@[k].key() != account@,
            decreases self.entries@.len() - i,
        {
            if self.entries[i].account == *account {
                return Some(i);
            }
            i = i + 1;
        }
        None
    }

    /// The amount held by `account`; 0 where there is no entry.
    pub fn get(&self, account: &String) -> (r: u128)
        requires
            self.wf(),
        ensures
            r as int == held_by(self@, account@),
    {
        match self.position(account) {
            Some(i) => {
                proof {
                    self.lemma_entry_in_view(i as int);
                }
                self.entries[i].amount
            },
            None => 0,
        }
    }

    proof fn lemma_set_amount(old_t: &AccountTable, new_t: &AccountTable, i: int, v: u128)
        requires
            old_t.wf(),
            0 <= i < old_t.entries@.len(),
            new_t.entries@ == old_t.entries@.update(
                i,
                Entry {
                    account: old_t.entries@[i].account,
                    amount: v,
                },
            ),
        ensures
            new_t.wf(),
            new_t@ == old_t@.insert(old_t.entries@[i].key(), v as int),
    {
        let k = old_t.entries@[i].key();
        assert(new_t.wf()) by {
            assert forall|a: int, b: int| 0 <= a < b < new_t.entries@.len() implies
                #[trigger] new_t.entries@[a].key() != #[trigger] new_t.entries@[b].key() by {
                assert(old_t.entries@[a].key() == new_t.entries@[a].key());
                assert(old_t.entries@[b].key() == new_t.entries@[b].key());
            }
        }
        assert forall|x: Seq<char>| #[trigger] new_t@.contains_key(x) <==> old_t@.insert(k, v as int).contains_key(x) by {
            if new_t@.contains_key(x) {
                let j = choose|j: int| 0 <= j < new_t.entries@.len() && new_t.entries@[j].key() == x;
                assert(old_t.entries@[j].key() == x);
            }
            if old_t@.contains_key(x) {
                let j = choose|j: int| 0 <= j < old_t.entries@.len() && old_t.entries@[j].key() == x;
                assert(new_t.entries@[j].key() == x);
            }
            if x == k {
                assert(new_t.entries@[i].key() == x);
            }
        }
        assert forall|x: Seq<char>| #[trigger] new_t@.contains_key(x) implies new_t@[x] == old_t@.insert(
            k,
            v as int,
        )[x] by {
            let j = choose|j: int| 0 <= j < new_t.entries@.len() && new_t.entries@[j].key() == x;
            new_t.lemma_entry_in_view(j);
            if j != i {
                old_t.lemma_entry_in_view(j);
            }
        }
        assert(new_t@ =~= old_t@.insert(k, v as int));
    }

    proof fn lemma_push(old_t: &AccountTable, new_t: &AccountTable, e: Entry)
        requires
            old_t.wf(),
            !old_t@.contains_key(e.key()),
            new_t.entries@ == old_t.entries@.push(e),
        ensures
            new_t.wf(),
            new_t@ == old_t@.insert(e.key(), e.amount as int),
    {
        let n = old_t.entries@.len() as int;
        assert(new_t.wf()) by {
            assert forall|a: int, b: int| 0 <= a < b < new_t.entries@.len() implies
                #[trigger] new_t.entries@[a].key() != #[trigger] new_t.entries@[b].key() by {
                if b == n {
                    assert(old_t@.contains_key(old_t.entries@[a].key()));
                } else {
                    assert(old_t.entries@[a] == new_t.entries@[a]);
                    assert(old_t.entries@[b] == new_t.entries@[b]);
                }
            }
        }
        assert forall|x: Seq<char>| #[trigger] new_t@.contains_key(x) <==> old_t@.insert(
            e.key(),
            e.amount as int,
        ).contains_key(x) by {
            if new_t@.contains_key(x) && x != e.key() {
                let j = choose|j: int| 0 <= j < new_t.entries@.len() && new_t.entries@[j].key() == x;
                assert(old_t.entries@[j].key() == x);
            }
            if old_t@.contains_key(x) {
                let j = choose|j: int| 0 <= j < old_t.entries@.len() && old_t.entries@[j].key() == x;
                assert(new_t.entries@[j].key() == x);
            }
            if x == e.key() {
                assert(new_t.entries@[n].key() == x);
            }
        }
        assert forall|x: Seq<char>| #[trigger] new_t@.contains_key(x) implies new_t@[x] == old_t@.insert(
            e.key(),
            e.amount as int,
        )[x] by {
            let j = choose|j: int| 0 <= j < new_t.entries@.len() && new_t.entries@[j].key() == x;
            new_t.lemma_entry_in_view(j);
            if j != n {
                assert(old_t.entries@[j] == new_t.entries@[j]);
                old_t.lemma_entry_in_view(j);
            }
        }
        assert(new_t@ =~= old_t@.insert(e.key(), e.amount as int));
    }

    /// Adds `amount` to the entry of `account`, creating it if absent.
    /// Fails with `ArithmeticOverflow`, changing nothing, where the sum is out of range.
    pub fn credit(&mut self, account: &String, amount: u128) -> (r: Result<
        (),
        LedgerError,
    >)
        requires
            old(self).wf(),
        ensures
            final(self).wf(),
            ({
                let k = account@;
                let sum = held_by(old(self)@, k) + amount;
                match r {
                    Ok(()) => sum <= max_amount() && final(self)@ == old(self)@.insert(k, sum),
                    Err(e) => e == LedgerError::ArithmeticOverflow && sum > max_amount()
                        && *final(self) == *old(self),
                }
            }),
    {
        match self.position(account) {
            Some(i) => {
                proof {
                    self.lemma_entry_in_view(i as int);
                }
                let current = self.entries[i].amount;
                match current.checked_add(amount) {
                    Some(sum) => {
                        let ghost before = *self;
                        self.entries[i].amount = sum;
                        proof {
                            AccountTable::lemma_set_amount(&before, self, i as int, sum);
                        }
                        Ok(())
                    },
                    None => Err(LedgerError::ArithmeticOverflow),
                }
            },
            None => {
                let ghost before = *self;
                let e = Entry { account: account.clone(), amount };
                let ghost ge = e;
                self.entries.push(e);
                proof {
                    AccountTable::lemma_push(&before, self, ge);
                }
                Ok(())
            },
        }
    }

    /// Subtracts `amount` from the entry of `account`.
    /// Fails with `InsufficientBalance`, changing nothing, where the entry holds less.
    pub fn debit(&mut self, account: &String, amount: u128) -> (r: Result<
        (),
        LedgerError,
    >)
        requires
            old(self).wf(),
        ensures
            final(self).wf(),
            ({
                let k = account@;
                let held = held_by(old(self)@, k);
                match r {
                    Ok(()) => amount <= held && final(self)@ == taken_from(old(self)@, k, amount as int),
                    Err(e) => e == LedgerError::InsufficientBalance {
                        balance: held as u128,
                        requested: amount,
                    } && amount > held && *final(self) == *old(self),
                }
            }),
    {
        match self.position(account) {
            Some(i) => {
                proof {
                    self.lemma_entry_in_view(i as int);
                }
                let current = self.entries[i].amount;
                if amount <= current {
                    let ghost before = *self;
                    self.entries[i].amount = current - amount;
                    proof {
                        AccountTable::lemma_set_amount(&before, self, i as int, (current - amount) as u128);
                    }
                    Ok(())
                } else {
                    Err(LedgerError::InsufficientBalance { balance: current, requested: amount })
                }
            },
            None => {
                if amount == 0 {
                    Ok(())
                } else {
                    Err(LedgerError::InsufficientBalance { balance: 0, requested: amount })
                }
            },
        }
    }

    /// Whether `account` has an entry.
    pub fn contains(&self, account: &String) -> (r: bool)
        requires
            self.wf(),
        ensures
            r == self@.contains_key(account@),
    {
        match self.position(account) {
            Some(i) => {
                proof {
                    self.lemma_entry_in_view(i as int);
                }
                true
            },
            None => false,
        }
    }

    /// Moves `amount` from `from` to `to`. Fails with `InsufficientBalance` where
    /// `from` holds less, and with `ArithmeticOverflow` where `to` (another account)
    /// would exceed the range; a failure changes nothing.
    pub fn move_amount(&mut self, from: &String, to: &String, amount: u128) -> (r: Result<
        (),
        LedgerError,
    >)
        requires
            old(self).wf(),
        ensures
            final(self).wf(),
            ({
                let held = held_by(old(self)@, from@);
                if amount > held {
                    r == Err::<(), LedgerError>(
                        LedgerError::InsufficientBalance { balance: held as u128, requested: amount },
                    ) && *final(self) == *old(self)
                } else if from@ != to@ && held_by(old(self)@, to@) + amount > max_amount() {
                    r == Err::<(), LedgerError>(LedgerError::ArithmeticOverflow) && *final(self)
                        == *old(self)
                } else {
                    r is Ok && final(self)@ == moved(old(self)@, from@, to@, amount as int)
                }
            }),
    {
        let held = self.get(from);
        if amount > held {
            return Err(LedgerError::InsufficientBalance { balance: held, requested: amount });
        }
        if *from == *to {
            return Ok(());
        }
        let held_to = self.get(to);
        if held_to.checked_add(amount).is_none() {
            return Err(LedgerError::ArithmeticOverflow);
        }
        let ghost m0 = self@;
        match self.debit(from, amount) {
            Ok(()) => {},
            Err(e) => return Err(e),
        }
        assert(held_by(self@, to@) == held_by(m0, to@));
        match self.credit(to, amount) {
            Ok(()) => {},
            Err(e) => return Err(e),
        }
        Ok(())
    }
}

} // verus!
