use vstd::prelude::*;
use crate::accounts::{held_by, moved, AccountTable};
use crate::balances::max_amount;
use crate::error::LedgerError;
use crate::idset::IdentitySet;

verus! {

/// A transfer-and-notify call issued by `Token::transfer`: `amount` has moved from
/// `sender_id` to `receiver`, which is to be notified with `msg`. Its answer, the
/// amount refused, comes back through `Token::resolve_transfer`.
#[derive(Debug)]
pub struct TransferCall {
    pub receiver: String,
    pub sender_id: String,
    pub amount: u128,
    pub msg: String,
}

/// The peer ledger: balances keyed by account, a whitelist of trusted
/// counterparties, and a fixed administrator.
pub struct Token {
    owner: String,
    whitelist: IdentitySet,
    balances: AccountTable,
}

/// The amount that a refused answer hands back: what was refused, at most what was
/// sent, at most what the receiver still holds.
pub open spec fn refund_of(amount: u128, refused: u128, receiver_holds: int) -> int {
    let asked = if refused < amount {
        refused as int
    } else {
        amount as int
    };
    if asked < receiver_holds {
        asked
    } else {
        receiver_holds
    }
}

impl Token {
    /// The administrator, fixed at construction.
    pub closed spec fn owner_id(&self) -> Seq<char> {
        self.owner@
    }

    /// The counterparties trusted to move balances.
    pub closed spec fn whitelisted(&self) -> Set<Seq<char>> {
        self.whitelist@
    }

    /// The balance table; an account with an entry is registered.
    pub closed spec fn balances(&self) -> Map<Seq<char>, int> {
        self.balances@
    }

    /// The representation invariant: the whitelist and the table are well formed.
    pub closed spec fn wf(&self) -> bool {
        self.whitelist.wf() && self.balances.wf()
    }

    /// No balance of a well-formed ledger is negative.
    pub proof fn lemma_balances_nonnegative(&self)
        requires
            self.wf(),
        ensures
            forall|k: Seq<char>| #[trigger] self.balances().contains_key(k) ==> self.balances()[k] >= 0,
    {
        self.balances.lemma_amounts_in_range();
    }

    /// A ledger administered by `owner`, with no whitelist and no accounts.
    pub fn new(owner: String) -> (r: Token)
        ensures
            r.wf(),
            r.owner_id() == owner@,
            r.whitelisted() == Set::<Seq<char>>::empty(),
            r.balances() == Map::<Seq<char>, int>::empty(),
    {
        Token { owner, whitelist: IdentitySet::new(), balances: AccountTable::new() }
    }

    /// The balance of `acc_id`; 0 where it has no entry.
    pub fn balance_of(&self, acc_id: &String) -> (r: u128)
        requires
            self.wf(),
        ensures
            r as int == held_by(self.balances(), acc_id@),
    {
        self.balances.get(acc_id)
    }

    /// Whether `acc_id` has an entry.
    pub fn is_registered(&self, acc_id: &String) -> (r: bool)
        requires
            self.wf(),
        ensures
            r == self.balances().contains_key(acc_id@),
    {
        self.balances.contains(acc_id)
    }

    /// Whether `acc_id` is a whitelisted counterparty.
    pub fn wl_contains(&self, acc_id: &String) -> (r: bool)
        ensures
            r == self.whitelisted().contains(acc_id@),
    {
        self.whitelist.contains(acc_id)
    }

    /// Whitelists `acc_id`. Only the administrator may call it.
    pub fn wl_add_acc(&mut self, caller: &String, acc_id: String) -> (r: Result<(), LedgerError>)
        requires
            old(self).wf(),
        ensures
            final(self).wf(),
            caller@ == old(self).owner_id() ==> r is Ok && final(self).whitelisted() == old(
                self,
            ).whitelisted().insert(acc_id@) && final(self).owner_id() == old(self).owner_id()
                && final(self).balances() == old(self).balances(),
            caller@ != old(self).owner_id() ==> r == Err::<(), LedgerError>(
                LedgerError::Unauthorized,
            ) && *final(self) == *old(self),
    {
        if *caller != self.owner {
            return Err(LedgerError::Unauthorized);
        }
        self.whitelist.insert(acc_id);
        Ok(())
    }

    /// Takes `acc_id` off the whitelist. Only the administrator may call it.
    pub fn wl_remove_acc(&mut self, caller: &String, acc_id: &String) -> (r: Result<(), LedgerError>)
        requires
            old(self).wf(),
        ensures
            final(self).wf(),
            caller@ == old(self).owner_id() ==> r is Ok && final(self).whitelisted() == old(
                self,
            ).whitelisted().remove(acc_id@) && final(self).owner_id() == old(self).owner_id()
                && final(self).balances() == old(self).balances(),
            caller@ != old(self).owner_id() ==> r == Err::<(), LedgerError>(
                LedgerError::Unauthorized,
            ) && *final(self) == *old(self),
    {
        if *caller != self.owner {
            return Err(LedgerError::Unauthorized);
        }
        self.whitelist.remove(acc_id);
        Ok(())
    }

    /// Registers `acc_id` with a zero entry; an existing entry keeps its amount.
    /// Only the administrator may call it.
    pub fn add_acc(&mut self, caller: &String, acc_id: &String) -> (r: Result<(), LedgerError>)
        requires
            old(self).wf(),
        ensures
            final(self).wf(),
            caller@ == old(self).owner_id() ==> r is Ok && final(self).balances() == old(
                self,
            ).balances().insert(acc_id@, held_by(old(self).balances(), acc_id@))
                && final(self).owner_id() == old(self).owner_id() && final(self).whitelisted()
                == old(self).whitelisted(),
            caller@ != old(self).owner_id() ==> r == Err::<(), LedgerError>(
                LedgerError::Unauthorized,
            ) && *final(self) == *old(self),
    {
        if *caller != self.owner {
            return Err(LedgerError::Unauthorized);
        }
        proof {
            self.balances.lemma_amounts_in_range();
        }
        self.balances.credit(acc_id, 0)
    }

    /// Credits `amount` to `acc_id`. The caller must be the administrator and
    /// whitelisted.
    pub fn create_amount(&mut self, caller: &String, acc_id: &String, amount: u128) -> (r: Result<
        (),
        LedgerError,
    >)
        requires
            old(self).wf(),
        ensures
            final(self).wf(),
            ({
                let sum = held_by(old(self).balances(), acc_id@) + amount;
                if caller@ != old(self).owner_id() || !old(self).whitelisted().contains(caller@) {
                    r == Err::<(), LedgerError>(LedgerError::Unauthorized) && *final(self)
                        == *old(self)
                } else if sum > max_amount() {
                    r == Err::<(), LedgerError>(LedgerError::ArithmeticOverflow) && *final(self)
                        == *old(self)
                } else {
                    r is Ok && final(self).balances() == old(self).balances().insert(acc_id@, sum)
                        && final(self).owner_id() == old(self).owner_id()
                        && final(self).whitelisted() == old(self).whitelisted()
                }
            }),
    {
        if *caller != self.owner || !self.whitelist.contains(caller) {
            return Err(LedgerError::Unauthorized);
        }
        self.balances.credit(acc_id, amount)
    }

    /// Moves `amount` from the caller to `receiver`.
    pub fn transfer_internal(&mut self, caller: &String, receiver: &String, amount: u128) -> (r:
        Result<(), LedgerError>)
        requires
            old(self).wf(),
        ensures
            final(self).wf(),
            ({
                let held = held_by(old(self).balances(), caller@);
                if amount > held {
                    r == Err::<(), LedgerError>(
                        LedgerError::InsufficientBalance { balance: held as u128, requested: amount },
                    ) && *final(self) == *old(self)
                } else if caller@ != receiver@ && held_by(old(self).balances(), receiver@) + amount
                    > max_amount() {
                    r == Err::<(), LedgerError>(LedgerError::ArithmeticOverflow) && *final(self)
                        == *old(self)
                } else {
                    r is Ok && final(self).balances() == moved(
                        old(self).balances(),
                        caller@,
                        receiver@,
                        amount as int,
                    ) && final(self).owner_id() == old(self).owner_id()
                        && final(self).whitelisted() == old(self).whitelisted()
                }
            }),
    {
        self.balances.move_amount(caller, receiver, amount)
    }

    /// Moves `amount` from the caller to the whitelisted counterparty `acc_id` and
    /// returns the notification to deliver to it, carrying `msg`.
    pub fn transfer(&mut self, caller: &String, acc_id: String, amount: u128, msg: String) -> (r:
        Result<TransferCall, LedgerError>)
        requires
            old(self).wf(),
        ensures
            final(self).wf(),
            ({
                let held = held_by(old(self).balances(), caller@);
                if !old(self).whitelisted().contains(acc_id@) {
                    r == Err::<TransferCall, LedgerError>(LedgerError::Unauthorized) && *final(self)
                        == *old(self)
                } else if amount > held {
                    r == Err::<TransferCall, LedgerError>(
                        LedgerError::InsufficientBalance { balance: held as u128, requested: amount },
                    ) && *final(self) == *old(self)
                } else if caller@ != acc_id@ && held_by(old(self).balances(), acc_id@) + amount
                    > max_amount() {
                    r == Err::<TransferCall, LedgerError>(LedgerError::ArithmeticOverflow)
                        && *final(self) == *old(self)
                } else {
                    &&& r matches Ok(call)
                    &&& call.receiver@ == acc_id@
                    &&& call.sender_id@ == caller@
                    &&& call.amount == amount
                    &&& call.msg@ == msg@
                    &&& final(self).balances() == moved(
                        old(self).balances(),
                        caller@,
                        acc_id@,
                        amount as int,
                    )
                    &&& final(self).owner_id() == old(self).owner_id()
                    &&& final(self).whitelisted() == old(self).whitelisted()
                }
            }),
    {
        if !self.whitelist.contains(&acc_id) {
            return Err(LedgerError::Unauthorized);
        }
        match self.balances.move_amount(caller, &acc_id, amount) {
            Ok(()) => Ok(TransferCall { receiver: acc_id, sender_id: caller.clone(), amount, msg }),
            Err(e) => Err(e),
        }
    }

    /// Settles a transfer-and-notify call once the receiver has answered that it
    /// refused `refused`: the refund (see `refund_of`) moves back from the receiver
    /// to the sender. Returns the amount refunded.
    pub fn resolve_transfer(&mut self, call: &TransferCall, refused: u128) -> (r: Result<
        u128,
        LedgerError,
    >)
        requires
            old(self).wf(),
        ensures
            final(self).wf(),
            ({
                let refund = refund_of(
                    call.amount,
                    refused,
                    held_by(old(self).balances(), call.receiver@),
                );
                if call.receiver@ != call.sender_id@ && held_by(
                    old(self).balances(),
                    call.sender_id@,
                ) + refund > max_amount() {
                    r == Err::<u128, LedgerError>(LedgerError::ArithmeticOverflow) && *final(self)
                        == *old(self)
                } else {
                    r == Ok::<u128, LedgerError>(refund as u128) && final(self).balances() == moved(
                        old(self).balances(),
                        call.receiver@,
                        call.sender_id@,
                        refund,
                    ) && final(self).owner_id() == old(self).owner_id()
                        && final(self).whitelisted() == old(self).whitelisted()
                }
            }),
    {
        let holds = self.balances.get(&call.receiver);
        let asked = if refused < call.amount {
            refused
        } else {
            call.amount
        };
        let refund = if asked < holds {
            asked
        } else {
            holds
        };
        match self.balances.move_amount(&call.receiver, &call.sender_id, refund) {
            Ok(()) => Ok(refund),
            Err(e) => Err(e),
        }
    }

    /// Handles a notification from the immediate caller `caller` that value moved
    /// to this ledger on behalf of `sender_id`: the whitelisted caller's holding
    /// pays `amount` out to `sender_id`. `msg` is not read. Returns the amount
    /// refused, always 0.
    pub fn ft_on_transfer(&mut self, caller: &String, sender_id: &String, amount: u128, msg: &str) -> (r:
        Result<u128, LedgerError>)
        requires
            old(self).wf(),
        ensures
            final(self).wf(),
            ({
                let held = held_by(old(self).balances(), caller@);
                if !old(self).whitelisted().contains(caller@) {
                    r == Err::<u128, LedgerError>(LedgerError::Unauthorized) && *final(self)
                        == *old(self)
                } else if amount > held {
                    r == Err::<u128, LedgerError>(
                        LedgerError::InsufficientBalance { balance: held as u128, requested: amount },
                    ) && *final(self) == *old(self)
                } else if caller@ != sender_id@ && held_by(old(self).balances(), sender_id@) + amount
                    > max_amount() {
                    r == Err::<u128, LedgerError>(LedgerError::ArithmeticOverflow) && *final(self)
                        == *old(self)
                } else {
                    r == Ok::<u128, LedgerError>(0) && final(self).balances() == moved(
                        old(self).balances(),
                        caller@,
                        sender_id@,
                        amount as int,
                    ) && final(self).owner_id() == old(self).owner_id()
                        && final(self).whitelisted() == old(self).whitelisted()
                }
            }),
    {
        if !self.whitelist.contains(caller) {
            return Err(LedgerError::Unauthorized);
        }
        match self.balances.move_amount(caller, sender_id, amount) {
            Ok(()) => Ok(0),
            Err(e) => Err(e),
        }
    }
}

} // verus!
