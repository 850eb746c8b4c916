use vstd::prelude::*;
use std::collections::HashMap;

verus! {

broadcast use vstd::std_specs::hash::group_hash_axioms;

/// Storage key of one account's balance of one asset, packing the
/// account identifier into the high half and the asset identifier into
/// the low half of a word.
pub open spec fn bal_key(account: u32, asset: u32) -> int {
    account * 0x1_0000_0000 + asset
}

/// Distinct (account, asset) pairs pack to distinct keys.
pub proof fn lemma_bal_key_injective(a1: u32, t1: u32, a2: u32, t2: u32)
    ensures
        bal_key(a1, t1) == bal_key(a2, t2) ==> a1 == a2 && t1 == t2,
{
    assert(bal_key(a1, t1) == bal_key(a2, t2) ==> a1 == a2 && t1 == t2) by (nonlinear_arith);
}

/// The balance a map of packed keys assigns to one account and asset:
/// the stored amount, or zero where no entry exists.
pub open spec fn bal_of(m: Map<u64, u64>, account: u32, asset: u32) -> int {
    if m.contains_key(bal_key(account, asset) as u64) {
        m[bal_key(account, asset) as u64] as int
    } else {
        0
    }
}

/// Two balance maps agree on every account and asset.
pub open spec fn same_balances(m1: Map<u64, u64>, m2: Map<u64, u64>) -> bool {
    forall|a: u32, t: u32| #[trigger] bal_of(m1, a, t) == bal_of(m2, a, t)
}

/// The ledger of balances: the model of the external value-transfer
/// collaborator.  It maps each (account, asset) pair to the units of
/// that asset the account holds, and moves value only through operations
/// that either take full effect or leave every balance unchanged.
pub struct Balances {
    store: HashMap<u64, u64>,
}

impl View for Balances {
    type V = Map<u64, u64>;

    closed spec fn view(&self) -> Map<u64, u64> {
        self.store@
    }
}

impl Balances {
    /// An empty ledger: every balance is zero.
    pub fn new() -> (r: Balances)
        ensures
            forall|a: u32, t: u32| #[trigger] bal_of(r@, a, t) == 0,
    {
        Balances { store: HashMap::new() }
    }

    fn key(account: u32, asset: u32) -> (k: u64)
        ensures
            k == bal_key(account, asset),
    {
        (account as u64) * 0x1_0000_0000u64 + (asset as u64)
    }

    /// Read one balance.
    pub fn balance_of(&self, account: u32, asset: u32) -> (r: u64)
        ensures
            r == bal_of(self@, account, asset),
    {
        let k = Self::key(account, asset);
        match self.store.get(&k) {
            Some(v) => *v,
            None => 0,
        }
    }

    /// Credit an account with `amount` units of `asset`.  Fails, changing
    /// nothing, exactly when the credited balance would not be
    /// representable.
    pub fn deposit(&mut self, account: u32, asset: u32, amount: u64) -> (r: bool)
        ensures
            r == (bal_of(old(self)@, account, asset) + amount <= u64::MAX),
            r ==> bal_of(final(self)@, account, asset) == bal_of(old(self)@, account, asset)
                + amount,
            !r ==> same_balances(final(self)@, old(self)@),
            forall|a: u32, t: u32|
                (a != account || t != asset) ==> #[trigger] bal_of(final(self)@, a, t) == bal_of(
                    old(self)@,
                    a,
                    t,
                ),
    {
        let k = Self::key(account, asset);
        let cur: u64 = self.balance_of(account, asset);
        if amount > u64::MAX - cur {
            return false;
        }
        self.store.insert(k, cur + amount);
        proof {
            assert forall|a: u32, t: u32| (a != account || t != asset) implies #[trigger] bal_of(
                self@,
                a,
                t,
            ) == bal_of(old(self)@, a, t) by {
                lemma_bal_key_injective(a, t, account, asset);
            }
        }
        true
    }

    /// Debit an account of `amount` units of `asset`.  Fails, changing
    /// nothing, exactly when the account's balance is insufficient.
    pub fn withdraw(&mut self, account: u32, asset: u32, amount: u64) -> (r: bool)
        ensures
            r == (amount <= bal_of(old(self)@, account, asset)),
            r ==> bal_of(final(self)@, account, asset) == bal_of(old(self)@, account, asset)
                - amount,
            !r ==> same_balances(final(self)@, old(self)@),
            forall|a: u32, t: u32|
                (a != account || t != asset) ==> #[trigger] bal_of(final(self)@, a, t) == bal_of(
                    old(self)@,
                    a,
                    t,
                ),
    {
        let k = Self::key(account, asset);
        let cur: u64 = self.balance_of(account, asset);
        if amount > cur {
            return false;
        }
        self.store.insert(k, cur - amount);
        proof {
            assert forall|a: u32, t: u32| (a != account || t != asset) implies #[trigger] bal_of(
                self@,
                a,
                t,
            ) == bal_of(old(self)@, a, t) by {
                lemma_bal_key_injective(a, t, account, asset);
            }
        }
        true
    }

    /// Move `amount` units of `asset` from one account to another,
    /// atomically: on any failure every balance is left unchanged.
    /// Succeeds exactly when the source balance suffices and the credited
    /// destination balance stays representable.
    pub fn transfer(&mut self, from: u32, to: u32, asset: u32, amount: u64) -> (r: bool)
        ensures
            r == (amount <= bal_of(old(self)@, from, asset) && (from == to || bal_of(
                old(self)@,
                to,
                asset,
            ) + amount <= u64::MAX)),
            !r ==> same_balances(final(self)@, old(self)@),
            r && from == to ==> same_balances(final(self)@, old(self)@),
            r && from != to ==> {
                &&& bal_of(final(self)@, from, asset) == bal_of(old(self)@, from, asset) - amount
                &&& bal_of(final(self)@, to, asset) == bal_of(old(self)@, to, asset) + amount
                &&& forall|a: u32, t: u32|
                    ((a != from && a != to) || t != asset) ==> #[trigger] bal_of(final(self)@, a, t)
                        == bal_of(old(self)@, a, t)
            },
    {
        if from == to {
            let cur = self.balance_of(from, asset);
            return amount <= cur;
        }
        if !self.withdraw(from, asset, amount) {
            return false;
        }
        if !self.deposit(to, asset, amount) {
            let restored = self.deposit(from, asset, amount);
            assert(restored);
            return false;
        }
        true
    }
}

} // verus!
