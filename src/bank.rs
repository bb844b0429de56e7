use vstd::prelude::*;
use crate::balances::{amount_at, credited, debited, max_amount, BalanceTable, Key};
use crate::error::LedgerError;
use crate::idset::IdentitySet;
use crate::message::{decode_message, message_kind, MessageKind};
use vstd::string::StringSliceAdditionalSpecFns;

verus! {

/// An outbound request, issued by `Bank::transfer`, asking the counterparty to move
/// `amount` back out to `account`. The ledger has already debited the amount; the
/// outcome comes back through `Bank::resolve_relay`.
#[derive(Debug)]
pub struct RelayRequest {
    pub id: u64,
    pub counterparty: String,
    pub account: String,
    pub amount: u128,
}

/// The ledger: balances keyed by (counterparty, account), a whitelist of trusted
/// counterparties, a fixed administrator, and the relays still awaiting an outcome.
///
/// Relays out follow debit-then-relay with a compensating credit: the balance is
/// debited when the relay is issued, and credited back if the relay fails.
pub struct Bank {
    owner: String,
    whitelist: IdentitySet,
    registered: IdentitySet,
    balances: BalanceTable,
    pending: Vec<RelayRequest>,
    next_relay_id: u64,
}

/// `b` differs from `a` at most in its balance table.
pub open spec fn same_but_balances(a: &Bank, b: &Bank) -> bool {
    &&& b.owner_id() == a.owner_id()
    &&& b.whitelisted() == a.whitelisted()
    &&& b.registered_accounts() == a.registered_accounts()
    &&& b.pending_relays() == a.pending_relays()
    &&& b.next_relay() == a.next_relay()
}

/// What `wl_remove_acc` called by `caller` on `id` does: the administrator takes
/// `id` off the whitelist and changes nothing else; anyone else is refused and
/// changes nothing.
pub open spec fn removal_outcome(
    a: &Bank,
    b: &Bank,
    caller: Seq<char>,
    id: Seq<char>,
    r: Result<(), LedgerError>,
) -> bool {
    if caller == a.owner_id() {
        r is Ok && b.whitelisted() == a.whitelisted().remove(id) && same_but_balances_and_whitelist(a, b)
            && b.balances() == a.balances()
    } else {
        r == Err::<(), LedgerError>(LedgerError::Unauthorized) && *b == *a
    }
}

/// `b` differs from `a` at most in its balance table and whitelist.
pub open spec fn same_but_balances_and_whitelist(a: &Bank, b: &Bank) -> bool {
    &&& b.owner_id() == a.owner_id()
    &&& b.registered_accounts() == a.registered_accounts()
    &&& b.pending_relays() == a.pending_relays()
    &&& b.next_relay() == a.next_relay()
}

/// Removing an identity that is not whitelisted, twice in a row, is a no-op both
/// times (a success where the administrator calls), and the identity is not
/// whitelisted after either call.
pub proof fn lemma_remove_absent_twice(
    b0: &Bank,
    b1: &Bank,
    b2: &Bank,
    caller: Seq<char>,
    id: Seq<char>,
    r1: Result<(), LedgerError>,
    r2: Result<(), LedgerError>,
)
    requires
        !b0.whitelisted().contains(id),
        removal_outcome(b0, b1, caller, id, r1),
        removal_outcome(b1, b2, caller, id, r2),
    ensures
        b1.whitelisted() == b0.whitelisted(),
        b2.whitelisted() == b0.whitelisted(),
        !b1.whitelisted().contains(id),
        !b2.whitelisted().contains(id),
        caller == b0.owner_id() ==> r1 is Ok && r2 is Ok,
{
    assert(b0.whitelisted().remove(id) =~= b0.whitelisted());
}

/// A successful deposit notification, read back at once with `balance_of`, gives
/// the balance held before plus the amount deposited.
pub proof fn lemma_deposit_then_balance(
    a: &Bank,
    b: &Bank,
    caller: Seq<char>,
    sender: Seq<char>,
    amount: u128,
    msg: Seq<u8>,
    r: Result<u128, LedgerError>,
)
    requires
        notification_outcome(a, b, caller, sender, amount, msg, r),
        message_kind(msg) == Some(MessageKind::Deposit),
        r is Ok,
    ensures
        amount_at(b.balances(), (caller, sender)) == amount_at(a.balances(), (caller, sender))
            + amount,
        r == Ok::<u128, LedgerError>(0),
{
}

/// What a transfer notification does: `caller` is the immediate caller (the
/// counterparty), `sender` the account on whose behalf value moved. `r` is the
/// result, `Ok` holding the amount refused; `b` is the ledger after the call.
pub open spec fn notification_outcome(
    a: &Bank,
    b: &Bank,
    caller: Seq<char>,
    sender: Seq<char>,
    amount: u128,
    msg: Seq<u8>,
    r: Result<u128, LedgerError>,
) -> bool {
    let k = (caller, sender);
    let held = amount_at(a.balances(), k);
    match message_kind(msg) {
        None => r == Err::<u128, LedgerError>(LedgerError::MalformedMessage) && *b == *a,
        Some(MessageKind::Other) => r == Ok::<u128, LedgerError>(amount) && *b == *a,
        Some(kind) => if !a.whitelisted().contains(caller) {
            r == Err::<u128, LedgerError>(LedgerError::Unauthorized) && *b == *a
        } else if kind == MessageKind::Deposit {
            if held + amount > max_amount() {
                r == Err::<u128, LedgerError>(LedgerError::ArithmeticOverflow) && *b == *a
            } else {
                r == Ok::<u128, LedgerError>(0) && b.balances() == credited(
                    a.balances(),
                    k,
                    amount as int,
                ) && same_but_balances(a, b)
            }
        } else {
            if amount > held {
                r == Err::<u128, LedgerError>(
                    LedgerError::InsufficientBalance { balance: held as u128, requested: amount },
                ) && *b == *a
            } else {
                r == Ok::<u128, LedgerError>(0) && b.balances() == debited(
                    a.balances(),
                    k,
                    amount as int,
                ) && same_but_balances(a, b)
            }
        },
    }
}

impl Bank {
    /// The administrator, fixed at construction.
    pub closed spec fn owner_id(&self) -> Seq<char> {
        self.owner@
    }

    /// The counterparties trusted to move balances.
    pub closed spec fn whitelisted(&self) -> Set<Seq<char>> {
        self.whitelist@
    }

    /// The accounts that the administrator registered.
    pub closed spec fn registered_accounts(&self) -> Set<Seq<char>> {
        self.registered@
    }

    /// The balance table.
    pub closed spec fn balances(&self) -> Map<Key, int> {
        self.balances@
    }

    /// The relays issued and not yet resolved, oldest first.
    pub closed spec fn pending_relays(&self) -> Seq<RelayRequest> {
        self.pending@
    }

    /// The id that the next relay will get.
    pub closed spec fn next_relay(&self) -> u64 {
        self.next_relay_id
    }

    /// The representation invariant: the sets and the table are well formed, and the
    /// pending relays have increasing ids below the next one.
    pub closed spec fn wf(&self) -> bool {
        &&& self.whitelist.wf()
        &&& self.registered.wf()
        &&& self.balances.wf()
        &&& forall|i: int, j: int|
            0 <= i < j < self.pending@.len() ==> #[trigger] self.pending@[i].id
                < #[trigger] self.pending@[j].id
        &&& forall|i: int| 0 <= i < self.pending@.len() ==> #[trigger] self.pending@[i].id < self.next_relay_id
    }

    /// No balance of a well-formed ledger is negative.
    pub proof fn lemma_balances_nonnegative(&self)
        requires
            self.wf(),
        ensures
            forall|k: Key| #[trigger] self.balances().contains_key(k) ==> self.balances()[k] >= 0,
    {
        self.balances.lemma_amounts_in_range();
    }

    /// A ledger administered by `owner`, with no whitelist, accounts, balances or relays.
    pub fn new(owner: String) -> (r: Bank)
        ensures
            r.wf(),
            r.owner_id() == owner@,
            r.whitelisted() == Set::<Seq<char>>::empty(),
            r.registered_accounts() == Set::<Seq<char>>::empty(),
            r.balances() == Map::<Key, int>::empty(),
            r.pending_relays() == Seq::<RelayRequest>::empty(),
            r.next_relay() == 0,
    {
        Bank {
            owner,
            whitelist: IdentitySet::new(),
            registered: IdentitySet::new(),
            balances: BalanceTable::new(),
            pending: Vec::new(),
            next_relay_id: 0,
        }
    }

    /// Whether `acc_id` is a whitelisted counterparty.
    pub fn wl_contains(&self, acc_id: &String) -> (r: bool)
        ensures
            r == self.whitelisted().contains(acc_id@),
    {
        self.whitelist.contains(acc_id)
    }

    /// Whitelists `acc_id`. Only the administrator may call it.
    pub fn wl_add_acc(&mut self, caller: &String, acc_id: String) -> (r: Result<(), LedgerError>)
        requires
            old(self).wf(),
        ensures
            final(self).wf(),
            caller@ == old(self).owner_id() ==> r is Ok && final(self).whitelisted() == old(
                self,
            ).whitelisted().insert(acc_id@) && final(self).owner_id() == old(self).owner_id()
                && final(self).registered_accounts() == old(self).registered_accounts()
                && final(self).balances() == old(self).balances() && final(self).pending_relays()
                == old(self).pending_relays() && final(self).next_relay() == old(self).next_relay(),
            caller@ != old(self).owner_id() ==> r == Err::<(), LedgerError>(
                LedgerError::Unauthorized,
            ) && *final(self) == *old(self),
    {
        if *caller != self.owner {
            return Err(LedgerError::Unauthorized);
        }
        self.whitelist.insert(acc_id);
        Ok(())
    }

    /// Takes `acc_id` off the whitelist. Only the administrator may call it.
    pub fn wl_remove_acc(&mut self, caller: &String, acc_id: &String) -> (r: Result<(), LedgerError>)
        requires
            old(self).wf(),
        ensures
            final(self).wf(),
            removal_outcome(old(self), final(self), caller@, acc_id@, r),
    {
        if *caller != self.owner {
            return Err(LedgerError::Unauthorized);
        }
        self.whitelist.remove(acc_id);
        Ok(())
    }

    /// Registers the account `acc_id`. Only the administrator may call it;
    /// registering twice is harmless.
    pub fn add_acc(&mut self, caller: &String, acc_id: String) -> (r: Result<(), LedgerError>)
        requires
            old(self).wf(),
        ensures
            final(self).wf(),
            caller@ == old(self).owner_id() ==> r is Ok && final(self).registered_accounts()
                == old(self).registered_accounts().insert(acc_id@) && final(self).owner_id()
                == old(self).owner_id() && final(self).whitelisted() == old(self).whitelisted()
                && final(self).balances() == old(self).balances() && final(self).pending_relays()
                == old(self).pending_relays() && final(self).next_relay() == old(self).next_relay(),
            caller@ != old(self).owner_id() ==> r == Err::<(), LedgerError>(
                LedgerError::Unauthorized,
            ) && *final(self) == *old(self),
    {
        if *caller != self.owner {
            return Err(LedgerError::Unauthorized);
        }
        self.registered.insert(acc_id);
        Ok(())
    }

    /// Whether the administrator registered `acc_id`.
    pub fn is_registered(&self, acc_id: &String) -> (r: bool)
        ensures
            r == self.registered_accounts().contains(acc_id@),
    {
        self.registered.contains(acc_id)
    }

    /// The balance of `acc_id` with `counterparty`; 0 where there is no entry.
    pub fn balance_of(&self, counterparty: &String, acc_id: &String) -> (r: u128)
        requires
            self.wf(),
        ensures
            r as int == amount_at(self.balances(), (counterparty@, acc_id@)),
    {
        self.balances.get(counterparty, acc_id)
    }

    /// Handles a notification that `amount` moved to this ledger on behalf of
    /// `sender_id`, sent by the immediate caller `caller`, with the intent in `msg`.
    /// A deposit credits (caller, sender_id); a withdrawal debits it; both need
    /// `caller` whitelisted and refuse nothing. A well-formed message of another
    /// kind changes nothing and refuses the whole amount. Returns the amount refused.
    pub fn ft_on_transfer(&mut self, caller: &String, sender_id: &String, amount: u128, msg: &str) -> (r:
        Result<u128, LedgerError>)
        requires
            old(self).wf(),
        ensures
            final(self).wf(),
            notification_outcome(old(self), final(self), caller@, sender_id@, amount, msg.spec_bytes(), r),
    {
        let kind = match decode_message(msg) {
            Ok(k) => k,
            Err(e) => return Err(e),
        };
        match kind {
            MessageKind::Other => Ok(amount),
            MessageKind::Deposit => {
                if !self.whitelist.contains(caller) {
                    return Err(LedgerError::Unauthorized);
                }
                match self.balances.credit(caller, sender_id, amount) {
                    Ok(()) => Ok(0),
                    Err(e) => Err(e),
                }
            },
            MessageKind::Withdrawal => {
                if !self.whitelist.contains(caller) {
                    return Err(LedgerError::Unauthorized);
                }
                match self.balances.debit(caller, sender_id, amount) {
                    Ok(()) => Ok(0),
                    Err(e) => Err(e),
                }
            },
        }
    }
    /// Relays `amount` of the caller's balance with the whitelisted counterparty
    /// `acc_id` back out through that counterparty. The balance is debited now,
    /// before the relay is requested; the returned request stays pending until
    /// `resolve_relay` reports its outcome.
    pub fn transfer(&mut self, caller: &String, acc_id: String, amount: u128) -> (r: Result<
        RelayRequest,
        LedgerError,
    >)
        requires
            old(self).wf(),
        ensures
            final(self).wf(),
            ({
                let k = (acc_id@, caller@);
                let held = amount_at(old(self).balances(), k);
                if !old(self).whitelisted().contains(acc_id@) {
                    r == Err::<RelayRequest, LedgerError>(LedgerError::Unauthorized) && *final(self)
                        == *old(self)
                } else if amount > held {
                    r == Err::<RelayRequest, LedgerError>(
                        LedgerError::InsufficientBalance { balance: held as u128, requested: amount },
                    ) && *final(self) == *old(self)
                } else if old(self).next_relay() == u64::MAX {
                    r == Err::<RelayRequest, LedgerError>(LedgerError::ArithmeticOverflow)
                        && *final(self) == *old(self)
                } else {
                    &&& r matches Ok(req)
                    &&& req.id == old(self).next_relay()
                    &&& req.counterparty@ == acc_id@
                    &&& req.account@ == caller@
                    &&& req.amount == amount
                    &&& final(self).balances() == debited(old(self).balances(), k, amount as int)
                    &&& final(self).pending_relays() == old(self).pending_relays().push(req)
                    &&& final(self).next_relay() == old(self).next_relay() + 1
                    &&& final(self).owner_id() == old(self).owner_id()
                    &&& final(self).whitelisted() == old(self).whitelisted()
                    &&& final(self).registered_accounts() == old(self).registered_accounts()
                }
            }),
    {
        if !self.whitelist.contains(&acc_id) {
            return Err(LedgerError::Unauthorized);
        }
        let held = self.balances.get(&acc_id, caller);
        if amount > held {
            return Err(LedgerError::InsufficientBalance { balance: held, requested: amount });
        }
        if self.next_relay_id == u64::MAX {
            return Err(LedgerError::ArithmeticOverflow);
        }
        match self.balances.debit(&acc_id, caller, amount) {
            Ok(()) => {},
            Err(e) => return Err(e),
        }
        let id = self.next_relay_id;
        let stored = RelayRequest { id, counterparty: acc_id.clone(), account: caller.clone(), amount };
        let req = RelayRequest { id, counterparty: acc_id, account: caller.clone(), amount };
        self.pending.push(stored);
        self.next_relay_id = id + 1;
        Ok(req)
    }

    fn pending_position(&self, id: u64) -> (r: Option<usize>)
        ensures
            match r {
                Some(i) => i < self.pending@.len() && self.pending@[i as int].id == id,
                None => forall|i: int| 0 <= i < self.pending@.len() ==> self.pending@[i].id != id,
            },
    {
        let mut i: usize = 0;
        while i < self.pending.len()
            invariant
                i <= self.pending@.len(),
                forall|k: int| 0 <= k < i ==> self.pending@[k].id != id,
            decreases self.pending@.len() - i,
        {
            if self.pending[i].id == id {
                return Some(i);
            }
            i = i + 1;
        }
        None
    }

    /// Receives the outcome of the pending relay `id`. A relay that went through is
    /// closed; one that failed is closed and its amount credited back to the entry
    /// it was debited from.
    pub fn resolve_relay(&mut self, id: u64, succeeded: bool) -> (r: Result<(), LedgerError>)
        requires
            old(self).wf(),
        ensures
            final(self).wf(),
            (forall|i: int| 0 <= i < old(self).pending_relays().len() ==> #[trigger] old(self).pending_relays()[i].id != id)
                ==> r == Err::<(), LedgerError>(LedgerError::UnknownRelay) && *final(self) == *old(self),
            forall|i: int|
                0 <= i < old(self).pending_relays().len() && #[trigger] old(self).pending_relays()[i].id == id
                    ==> {
                    let req = old(self).pending_relays()[i];
                    let k = (req.counterparty@, req.account@);
                    let back = if succeeded { 0 } else { req.amount as int };
                    if amount_at(old(self).balances(), k) + back > max_amount() {
                        r == Err::<(), LedgerError>(LedgerError::ArithmeticOverflow) && *final(self) == *old(self)
                    } else {
                        &&& r is Ok
                        &&& final(self).pending_relays() == old(self).pending_relays().remove(i)
                        &&& final(self).balances() == (if succeeded {
                            old(self).balances()
                        } else {
                            credited(old(self).balances(), k, back)
                        })
                        &&& final(self).next_relay() == old(self).next_relay()
                        &&& final(self).owner_id() == old(self).owner_id()
                        &&& final(self).whitelisted() == old(self).whitelisted()
                        &&& final(self).registered_accounts() == old(self).registered_accounts()
                    }
                },
    {
        let p = match self.pending_position(id) {
            Some(p) => p,
            None => return Err(LedgerError::UnknownRelay),
        };
        proof {
            assert(old(self).pending_relays()[p as int].id == id);
            assert forall|i: int|
                0 <= i < self.pending@.len() && #[trigger] self.pending@[i].id == id implies i == p by {
                if i < p {
                    assert(self.pending@[i].id < self.pending@[p as int].id);
                } else if p < i {
                    assert(self.pending@[p as int].id < self.pending@[i].id);
                }
            }
            self.balances.lemma_amounts_in_range();
        }
        if !succeeded {
            let ghost k = (self.pending@[p as int].counterparty@, self.pending@[p as int].account@);
            let amount = self.pending[p].amount;
            let credit = self.balances.credit(&self.pending[p].counterparty, &self.pending[p].account, amount);
            match credit {
                Ok(()) => {},
                Err(e) => return Err(e),
            }
        }
        let ghost before = self.pending@;
        self.pending.remove(p);
        proof {
            assert forall|i: int, j: int|
                0 <= i < j < self.pending@.len() implies #[trigger] self.pending@[i].id
                    < #[trigger] self.pending@[j].id by {
                let bi = if i < p { i } else { i + 1 };
                let bj = if j < p { j } else { j + 1 };
                assert(self.pending@[i] == before[bi]);
                assert(self.pending@[j] == before[bj]);
            }
            assert forall|i: int| 0 <= i < self.pending@.len() implies #[trigger] self.pending@[i].id
                < self.next_relay_id by {
                let bi = if i < p { i } else { i + 1 };
                assert(self.pending@[i] == before[bi]);
            }
        }
        Ok(())
    }
}

} // verus!
