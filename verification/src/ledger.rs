//! The ledger itself: balances, total supply, allowances, and the
//! administrative state (owner, pause flag, blacklist), together with every
//! operation that reads or changes them.
//!
//! The host that embeds the ledger passes the identity of the caller into
//! each operation and persists the `Token` value between calls. Each
//! operation validates fully before it mutates anything, so a failing call
//! returns the ledger exactly as it found it.

use crate::errors::Error;
use crate::events::Approval;
use crate::events::BlacklistUpdated;
use crate::events::OwnershipTransferred;
use crate::events::Paused;
use crate::events::Transfer;
use crate::sparse::keys_distinct;
use crate::sparse::lemma_lookup_absent;
use crate::sparse::lemma_lookup_at_index;
use crate::sparse::lemma_lookup_le_sum;
use crate::sparse::lemma_push;
use crate::sparse::lemma_sum_nonneg;
use crate::sparse::lemma_two_lookups_le_sum;
use crate::sparse::lemma_update;
use crate::sparse::lookup;
use crate::sparse::sum_values;
use vstd::prelude::*;

verus! {

/// An account identity: an opaque fixed-size identifier chosen by the host.
pub type AccountId = u64;

/// No account occurs twice in the list.
pub open spec fn accounts_distinct(s: Seq<AccountId>) -> bool {
    forall|i: int, j: int| 0 <= i < j < s.len() ==> s[i] != s[j]
}

/// The fungible-token ledger.
///
/// Balances and allowances are sparse: an account (or owner/spender pair)
/// with no stored entry has balance (or allowance) zero. The well-formedness
/// invariant [`Token::wf`] ties the `total_supply` scalar to the sum of all
/// stored balances; every operation preserves it.
pub struct Token {
    balances: Vec<(AccountId, u128)>,
    allowances: Vec<((AccountId, AccountId), u128)>,
    blacklist: Vec<AccountId>,
    owner: AccountId,
    total_supply: u128,
    paused: bool,
}

impl Token {
    /// Well-formedness: the sparse stores have pairwise distinct keys and the
    /// recorded total supply equals the sum of all stored balances.
    pub closed spec fn wf(self) -> bool {
        &&& keys_distinct(self.balances@)
        &&& keys_distinct(self.allowances@)
        &&& accounts_distinct(self.blacklist@)
        &&& self.total_supply as int == sum_values(self.balances@)
    }

    /// The balance of `account`; zero if the account was never credited.
    pub closed spec fn spec_balance_of(self, account: AccountId) -> u128 {
        lookup(self.balances@, account)
    }

    /// How much `spender` may still move out of `owner`'s balance.
    pub closed spec fn spec_allowance(self, owner: AccountId, spender: AccountId) -> u128 {
        lookup(self.allowances@, (owner, spender))
    }

    /// Whether `account` is currently blacklisted.
    pub closed spec fn spec_is_blacklisted(self, account: AccountId) -> bool {
        self.blacklist@.contains(account)
    }

    /// The recorded total supply.
    pub closed spec fn spec_total_supply(self) -> u128 {
        self.total_supply
    }

    /// The identity holding owner rights.
    pub closed spec fn spec_owner(self) -> AccountId {
        self.owner
    }

    /// Whether the global pause flag is set.
    pub closed spec fn spec_is_paused(self) -> bool {
        self.paused
    }

    /// The sum of all stored balances. Accounts without a stored entry have
    /// balance zero and contribute nothing.
    pub closed spec fn spec_sum_of_balances(self) -> int {
        sum_values(self.balances@)
    }

    /// The balance table as a total map from accounts to balances.
    pub closed spec fn balances_map(self) -> Map<AccountId, u128> {
        Map::total(|a: AccountId| lookup(self.balances@, a))
    }

    /// Walk the entries of a batch in list order with the running total
    /// `acc`: the first blacklisted recipient is reported as
    /// `AccountBlacklisted`; a running total that would pass the 128-bit
    /// maximum, as `Overflow`.
    pub open spec fn spec_batch_scan(self, entries: Seq<(AccountId, u128)>, acc: int) -> Option<
        Error,
    >
        decreases entries.len(),
    {
        if entries.len() == 0 {
            None
        } else if self.spec_is_blacklisted(entries[0].0) {
            Some(Error::AccountBlacklisted)
        } else if acc + entries[0].1 > u128::MAX {
            Some(Error::Overflow)
        } else {
            self.spec_batch_scan(entries.drop_first(), acc + entries[0].1)
        }
    }

    /// The validation verdict for a whole batch sent by `caller`, decided
    /// before anything is applied: the error the batch fails with, or `None`
    /// when every entry may be applied.
    pub open spec fn spec_batch_outcome(
        self,
        caller: AccountId,
        entries: Seq<(AccountId, u128)>,
    ) -> Option<Error> {
        if self.spec_is_paused() {
            Some(Error::ContractPaused)
        } else if self.spec_is_blacklisted(caller) {
            Some(Error::AccountBlacklisted)
        } else {
            match self.spec_batch_scan(entries, 0) {
                Some(e) => Some(e),
                None => if self.spec_balance_of(caller) < sum_values(entries) {
                    Some(Error::InsufficientBalance)
                } else {
                    None
                },
            }
        }
    }
}

/// Every account reads the same balance in both states.
pub open spec fn balances_unchanged(pre: Token, post: Token) -> bool {
    forall|a: AccountId| post.spec_balance_of(a) == pre.spec_balance_of(a)
}

/// Every owner/spender pair reads the same allowance in both states.
pub open spec fn allowances_unchanged(pre: Token, post: Token) -> bool {
    forall|o: AccountId, s: AccountId| post.spec_allowance(o, s) == pre.spec_allowance(o, s)
}

/// Every account has the same blacklist flag in both states.
pub open spec fn blacklist_unchanged(pre: Token, post: Token) -> bool {
    forall|a: AccountId| post.spec_is_blacklisted(a) == pre.spec_is_blacklisted(a)
}

/// Owner, pause flag, and total supply read the same in both states.
pub open spec fn admin_unchanged(pre: Token, post: Token) -> bool {
    &&& post.spec_owner() == pre.spec_owner()
    &&& post.spec_is_paused() == pre.spec_is_paused()
    &&& post.spec_total_supply() == pre.spec_total_supply()
}

/// The balance map after moving `amount` from `from` to `to`. The debit is
/// written first and the credit reads the debited state, so a self-transfer
/// leaves the map unchanged.
pub open spec fn spec_transfer(
    b: Map<AccountId, u128>,
    from: AccountId,
    to: AccountId,
    amount: u128,
) -> Map<AccountId, u128> {
    let debited = b.insert(from, (b[from] - amount) as u128);
    debited.insert(to, (debited[to] + amount) as u128)
}

/// The balance map after applying a batch sent by `from`, entry by entry in
/// list order; zero-amount entries move nothing.
pub open spec fn spec_apply_entries(
    b: Map<AccountId, u128>,
    from: AccountId,
    entries: Seq<(AccountId, u128)>,
) -> Map<AccountId, u128>
    decreases entries.len(),
{
    if entries.len() == 0 {
        b
    } else {
        let stepped = if entries[0].1 == 0 {
            b
        } else {
            spec_transfer(b, from, entries[0].0, entries[0].1)
        };
        spec_apply_entries(stepped, from, entries.drop_first())
    }
}

/// The transfer notifications a successful batch raises: one per entry that
/// actually moved tokens, in list order.
pub open spec fn spec_batch_events(from: AccountId, entries: Seq<(AccountId, u128)>) -> Seq<
    Transfer,
>
    decreases entries.len(),
{
    if entries.len() == 0 {
        Seq::empty()
    } else {
        let rest = spec_batch_events(from, entries.drop_first());
        if entries[0].1 == 0 {
            rest
        } else {
            seq![(Transfer { from: Some(from), to: Some(entries[0].0), value: entries[0].1 })]
                + rest
        }
    }
}

/// The balance map is total and agrees everywhere with `spec_balance_of`.
/// This connects the per-account reading of most contracts with the map
/// transition that `batch_transfer` states.
pub proof fn lemma_balances_map_agrees(token: Token, account: AccountId)
    ensures
        token.balances_map().dom().contains(account),
        token.balances_map()[account] == token.spec_balance_of(account),
{
}

/// Conservation: in every well-formed ledger the recorded total supply equals
/// the sum of all balances. Since each operation requires and re-establishes
/// well-formedness, this holds after every sequence of operations.
pub proof fn lemma_conservation(token: Token)
    requires
        token.wf(),
    ensures
        token.spec_total_supply() as int == token.spec_sum_of_balances(),
{
}

/// No single balance can exceed the total supply of a well-formed ledger.
/// This is why crediting an account with tokens debited from another can
/// never overflow the 128-bit range.
pub proof fn lemma_balance_le_supply(token: Token, account: AccountId)
    requires
        token.wf(),
    ensures
        token.spec_balance_of(account) <= token.spec_total_supply(),
{
    lemma_lookup_le_sum(token.balances@, account);
}

impl Token {
    /// Create a fresh ledger: the creating caller becomes the owner; the
    /// supply is zero, all balances and allowances are zero, nobody is
    /// blacklisted, and the ledger is not paused.
    pub fn new(caller: AccountId) -> (token: Token)
        ensures
            token.wf(),
            token.spec_owner() == caller,
            token.spec_total_supply() == 0,
            !token.spec_is_paused(),
            forall|a: AccountId| token.spec_balance_of(a) == 0,
            forall|o: AccountId, s: AccountId| token.spec_allowance(o, s) == 0,
            forall|a: AccountId| !token.spec_is_blacklisted(a),
    {
        Token {
            balances: Vec::new(),
            allowances: Vec::new(),
            blacklist: Vec::new(),
            owner: caller,
            total_supply: 0,
            paused: false,
        }
    }

    /// The balance of `account`.
    pub fn balance_of(&self, account: AccountId) -> (balance: u128)
        requires
            self.wf(),
        ensures
            balance == self.spec_balance_of(account),
    {
        self.balance_lookup(account)
    }

    /// How much `spender` may still move out of `owner`'s balance.
    pub fn allowance(&self, owner: AccountId, spender: AccountId) -> (amount: u128)
        requires
            self.wf(),
        ensures
            amount == self.spec_allowance(owner, spender),
    {
        self.allowance_lookup(owner, spender)
    }

    /// Whether `account` is currently blacklisted.
    pub fn is_blacklisted(&self, account: AccountId) -> (blacklisted: bool)
        ensures
            blacklisted == self.spec_is_blacklisted(account),
    {
        self.blacklist_contains(account)
    }

    /// The recorded total supply.
    pub fn total_supply(&self) -> (supply: u128)
        ensures
            supply == self.spec_total_supply(),
    {
        self.total_supply
    }

    /// The identity holding owner rights.
    pub fn owner(&self) -> (owner: AccountId)
        ensures
            owner == self.spec_owner(),
    {
        self.owner
    }

    /// Whether the global pause flag is set.
    pub fn is_paused(&self) -> (paused: bool)
        ensures
            paused == self.spec_is_paused(),
    {
        self.paused
    }

    /// Scan the balance store for `account`.
    fn balance_lookup(&self, account: AccountId) -> (balance: u128)
        requires
            keys_distinct(self.balances@),
        ensures
            balance == lookup(self.balances@, account),
    {
        let n = self.balances.len();
        let mut i: usize = 0;
        while i < n
            invariant
                n == self.balances.len(),
                i <= n,
                keys_distinct(self.balances@),
                forall|j: int| 0 <= j < i ==> self.balances@[j].0 != account,
            decreases n - i,
        {
            let entry = self.balances[i];
            if entry.0 == account {
                proof {
                    lemma_lookup_at_index(self.balances@, i as int);
                }
                return entry.1;
            }
            i += 1;
        }
        proof {
            lemma_lookup_absent(self.balances@, account);
        }
        0
    }

    /// Write `value` as the balance of `account`, updating the existing entry
    /// or appending one for a key seen for the first time.
    fn balance_store(&mut self, account: AccountId, value: u128)
        requires
            keys_distinct(old(self).balances@),
        ensures
            keys_distinct(final(self).balances@),
            lookup(final(self).balances@, account) == value,
            forall|x: AccountId|
                x != account ==> lookup(final(self).balances@, x) == lookup(
                    old(self).balances@,
                    x,
                ),
            sum_values(final(self).balances@) == sum_values(old(self).balances@) - lookup(
                old(self).balances@,
                account,
            ) + value,
            final(self).allowances == old(self).allowances,
            final(self).blacklist == old(self).blacklist,
            final(self).owner == old(self).owner,
            final(self).total_supply == old(self).total_supply,
            final(self).paused == old(self).paused,
    {
        let n = self.balances.len();
        let mut i: usize = 0;
        while i < n
            invariant
                *self == *old(self),
                n == self.balances.len(),
                i <= n,
                keys_distinct(self.balances@),
                forall|j: int| 0 <= j < i ==> self.balances@[j].0 != account,
            decreases n - i,
        {
            if self.balances[i].0 == account {
                proof {
                    lemma_lookup_at_index(self.balances@, i as int);
                    lemma_update(self.balances@, i as int, value);
                }
                self.balances.set(i, (account, value));
                return;
            }
            i += 1;
        }
        proof {
            lemma_lookup_absent(self.balances@, account);
            lemma_push(self.balances@, account, value);
        }
        self.balances.push((account, value));
    }

    /// Scan the allowance store for the `(owner, spender)` pair.
    fn allowance_lookup(&self, owner: AccountId, spender: AccountId) -> (amount: u128)
        requires
            keys_distinct(self.allowances@),
        ensures
            amount == lookup(self.allowances@, (owner, spender)),
    {
        let n = self.allowances.len();
        let mut i: usize = 0;
        while i < n
            invariant
                n == self.allowances.len(),
                i <= n,
                keys_distinct(self.allowances@),
                forall|j: int| 0 <= j < i ==> self.allowances@[j].0 != (owner, spender),
            decreases n - i,
        {
            let entry = self.allowances[i];
            if entry.0.0 == owner && entry.0.1 == spender {
                proof {
                    lemma_lookup_at_index(self.allowances@, i as int);
                }
                return entry.1;
            }
            i += 1;
        }
        proof {
            lemma_lookup_absent(self.allowances@, (owner, spender));
        }
        0
    }

    /// Write `value` as the allowance of the `(owner, spender)` pair.
    fn allowance_store(&mut self, owner: AccountId, spender: AccountId, value: u128)
        requires
            keys_distinct(old(self).allowances@),
        ensures
            keys_distinct(final(self).allowances@),
            lookup(final(self).allowances@, (owner, spender)) == value,
            forall|o: AccountId, s: AccountId|
                (o, s) != (owner, spender) ==> lookup(final(self).allowances@, (o, s)) == lookup(
                    old(self).allowances@,
                    (o, s),
                ),
            final(self).balances == old(self).balances,
            final(self).blacklist == old(self).blacklist,
            final(self).owner == old(self).owner,
            final(self).total_supply == old(self).total_supply,
            final(self).paused == old(self).paused,
    {
        let n = self.allowances.len();
        let mut i: usize = 0;
        while i < n
            invariant
                *self == *old(self),
                n == self.allowances.len(),
                i <= n,
                keys_distinct(self.allowances@),
                forall|j: int| 0 <= j < i ==> self.allowances@[j].0 != (owner, spender),
            decreases n - i,
        {
            let entry = self.allowances[i];
            if entry.0.0 == owner && entry.0.1 == spender {
                proof {
                    lemma_lookup_at_index(self.allowances@, i as int);
                    lemma_update(self.allowances@, i as int, value);
                }
                self.allowances.set(i, ((owner, spender), value));
                return;
            }
            i += 1;
        }
        proof {
            lemma_lookup_absent(self.allowances@, (owner, spender));
            lemma_push(self.allowances@, (owner, spender), value);
        }
        self.allowances.push(((owner, spender), value));
    }

    /// Scan the blacklist for `account`.
    fn blacklist_contains(&self, account: AccountId) -> (found: bool)
        ensures
            found == self.blacklist@.contains(account),
    {
        let n = self.blacklist.len();
        let mut i: usize = 0;
        while i < n
            invariant
                n == self.blacklist.len(),
                i <= n,
                forall|j: int| 0 <= j < i ==> self.blacklist@[j] != account,
            decreases n - i,
        {
            if self.blacklist[i] == account {
                assert(self.blacklist@[i as int] == account);
                return true;
            }
            i += 1;
        }
        false
    }

    /// Move `amount` from `from` to `to`: debit first, then credit, so a
    /// self-transfer nets to no change. The caller has already validated the
    /// move; under the supply invariant the credit can never overflow.
    fn apply_transfer(&mut self, from: AccountId, to: AccountId, amount: u128)
        requires
            old(self).wf(),
            amount <= old(self).spec_balance_of(from),
            from != to ==> old(self).spec_balance_of(to) + amount <= u128::MAX,
        ensures
            final(self).wf(),
            final(self).balances_map() == spec_transfer(
                old(self).balances_map(),
                from,
                to,
                amount,
            ),
            from != to ==> final(self).spec_balance_of(from) == old(self).spec_balance_of(from)
                - amount,
            from != to ==> final(self).spec_balance_of(to) == old(self).spec_balance_of(to)
                + amount,
            from == to ==> final(self).spec_balance_of(to) == old(self).spec_balance_of(to),
            forall|a: AccountId|
                a != from && a != to ==> final(self).spec_balance_of(a) == old(
                    self,
                ).spec_balance_of(a),
            allowances_unchanged(*old(self), *final(self)),
            blacklist_unchanged(*old(self), *final(self)),
            admin_unchanged(*old(self), *final(self)),
    {
        let from_balance = self.balance_lookup(from);
        self.balance_store(from, from_balance - amount);
        let to_balance = self.balance_lookup(to);
        self.balance_store(to, to_balance + amount);
        proof {
            assert(self.balances_map() =~= spec_transfer(
                old(self).balances_map(),
                from,
                to,
                amount,
            ));
        }
    }

    /// Create `amount` new tokens in `to`'s balance. Only the owner may mint;
    /// minting is exempt from the pause flag. Fails with `Overflow` exactly
    /// when the new total supply would not fit in 128 bits — by conservation,
    /// the credited balance then always fits as well.
    pub fn mint(&mut self, caller: AccountId, to: AccountId, amount: u128) -> (result: Result<
        Transfer,
        Error,
    >)
        requires
            old(self).wf(),
        ensures
            final(self).wf(),
            result == (if caller != old(self).spec_owner() {
                Err::<Transfer, Error>(Error::Unauthorized)
            } else if old(self).spec_is_blacklisted(to) {
                Err::<Transfer, Error>(Error::AccountBlacklisted)
            } else if amount == 0 {
                Err::<Transfer, Error>(Error::InvalidAmount)
            } else if old(self).spec_total_supply() + amount > u128::MAX {
                Err::<Transfer, Error>(Error::Overflow)
            } else {
                Ok::<Transfer, Error>((Transfer { from: None, to: Some(to), value: amount }))
            }),
            result is Err ==> *final(self) == *old(self),
            result is Ok ==> {
                &&& final(self).spec_balance_of(to) == old(self).spec_balance_of(to) + amount
                &&& forall|a: AccountId|
                    a != to ==> final(self).spec_balance_of(a) == old(self).spec_balance_of(a)
                &&& final(self).spec_total_supply() == old(self).spec_total_supply() + amount
                &&& allowances_unchanged(*old(self), *final(self))
                &&& blacklist_unchanged(*old(self), *final(self))
                &&& final(self).spec_owner() == old(self).spec_owner()
                &&& final(self).spec_is_paused() == old(self).spec_is_paused()
            },
    {
        if caller != self.owner {
            return Err(Error::Unauthorized);
        }
        if self.blacklist_contains(to) {
            return Err(Error::AccountBlacklisted);
        }
        if amount == 0 {
            return Err(Error::InvalidAmount);
        }
        let balance = self.balance_lookup(to);
        match self.total_supply.checked_add(amount) {
            None => Err(Error::Overflow),
            Some(new_supply) => {
                proof {
                    lemma_lookup_le_sum(self.balances@, to);
                }
                self.balance_store(to, balance + amount);
                self.total_supply = new_supply;
                Ok(Transfer { from: None, to: Some(to), value: amount })
            },
        }
    }

    /// Destroy `amount` tokens from the caller's balance. Burning is gated by
    /// the pause flag and the blacklist. Balance sufficiency is checked
    /// before the zero-amount check, so burning zero from any balance fails
    /// with `InvalidAmount`, while over-burning fails with
    /// `InsufficientBalance` whatever the amount. Under the supply invariant
    /// the supply debit can never underflow.
    pub fn burn(&mut self, caller: AccountId, amount: u128) -> (result: Result<Transfer, Error>)
        requires
            old(self).wf(),
        ensures
            final(self).wf(),
            result == (if old(self).spec_is_paused() {
                Err::<Transfer, Error>(Error::ContractPaused)
            } else if old(self).spec_is_blacklisted(caller) {
                Err::<Transfer, Error>(Error::AccountBlacklisted)
            } else if old(self).spec_balance_of(caller) < amount {
                Err::<Transfer, Error>(Error::InsufficientBalance)
            } else if amount == 0 {
                Err::<Transfer, Error>(Error::InvalidAmount)
            } else {
                Ok::<Transfer, Error>((Transfer { from: Some(caller), to: None, value: amount }))
            }),
            result is Err ==> *final(self) == *old(self),
            result is Ok ==> {
                &&& final(self).spec_balance_of(caller) == old(self).spec_balance_of(caller)
                    - amount
                &&& forall|a: AccountId|
                    a != caller ==> final(self).spec_balance_of(a) == old(self).spec_balance_of(a)
                &&& final(self).spec_total_supply() == old(self).spec_total_supply() - amount
                &&& allowances_unchanged(*old(self), *final(self))
                &&& blacklist_unchanged(*old(self), *final(self))
                &&& final(self).spec_owner() == old(self).spec_owner()
                &&& final(self).spec_is_paused() == old(self).spec_is_paused()
            },
    {
        if self.paused {
            return Err(Error::ContractPaused);
        }
        if self.blacklist_contains(caller) {
            return Err(Error::AccountBlacklisted);
        }
        let balance = self.balance_lookup(caller);
        if balance < amount {
            return Err(Error::InsufficientBalance);
        }
        if amount == 0 {
            return Err(Error::InvalidAmount);
        }
        proof {
            lemma_lookup_le_sum(self.balances@, caller);
        }
        self.balance_store(caller, balance - amount);
        self.total_supply = self.total_supply - amount;
        Ok(Transfer { from: Some(caller), to: None, value: amount })
    }

    /// Move `amount` from the caller to `to`. Gated by the pause flag and by
    /// the blacklist on both ends. The supply is unchanged, and under the
    /// supply invariant the credit can never overflow, so `Overflow` is never
    /// returned. A transfer to oneself passes the same validation and leaves
    /// every balance unchanged.
    pub fn transfer(&mut self, caller: AccountId, to: AccountId, amount: u128) -> (result: Result<
        Transfer,
        Error,
    >)
        requires
            old(self).wf(),
        ensures
            final(self).wf(),
            result == (if old(self).spec_is_paused() {
                Err::<Transfer, Error>(Error::ContractPaused)
            } else if old(self).spec_is_blacklisted(caller) || old(self).spec_is_blacklisted(to) {
                Err::<Transfer, Error>(Error::AccountBlacklisted)
            } else if amount == 0 {
                Err::<Transfer, Error>(Error::InvalidAmount)
            } else if old(self).spec_balance_of(caller) < amount {
                Err::<Transfer, Error>(Error::InsufficientBalance)
            } else {
                Ok::<Transfer, Error>(
                    (Transfer { from: Some(caller), to: Some(to), value: amount }),
                )
            }),
            result is Err ==> *final(self) == *old(self),
            result is Ok ==> {
                &&& caller != to ==> final(self).spec_balance_of(caller) == old(
                    self,
                ).spec_balance_of(caller) - amount
                &&& caller != to ==> final(self).spec_balance_of(to) == old(self).spec_balance_of(
                    to,
                ) + amount
                &&& caller == to ==> final(self).spec_balance_of(caller) == old(
                    self,
                ).spec_balance_of(caller)
                &&& forall|a: AccountId|
                    a != caller && a != to ==> final(self).spec_balance_of(a) == old(
                        self,
                    ).spec_balance_of(a)
                &&& final(self).spec_total_supply() == old(self).spec_total_supply()
                &&& allowances_unchanged(*old(self), *final(self))
                &&& blacklist_unchanged(*old(self), *final(self))
                &&& final(self).spec_owner() == old(self).spec_owner()
                &&& final(self).spec_is_paused() == old(self).spec_is_paused()
            },
    {
        if self.paused {
            return Err(Error::ContractPaused);
        }
        if self.blacklist_contains(caller) {
            return Err(Error::AccountBlacklisted);
        }
        if self.blacklist_contains(to) {
            return Err(Error::AccountBlacklisted);
        }
        if amount == 0 {
            return Err(Error::InvalidAmount);
        }
        let from_balance = self.balance_lookup(caller);
        if from_balance < amount {
            return Err(Error::InsufficientBalance);
        }
        proof {
            if caller != to {
                lemma_two_lookups_le_sum(self.balances@, to, caller);
            }
        }
        self.apply_transfer(caller, to, amount);
        Ok(Transfer { from: Some(caller), to: Some(to), value: amount })
    }

    /// Set the allowance of `spender` on the caller's balance to `amount`.
    /// This is an absolute replace, not an increment. An approval is a quota,
    /// not a balance lock: it neither checks nor reserves the caller's
    /// current balance, and it is not gated by the pause flag.
    pub fn approve(&mut self, caller: AccountId, spender: AccountId, amount: u128) -> (result:
        Result<Approval, Error>)
        requires
            old(self).wf(),
        ensures
            final(self).wf(),
            result == (if caller == spender {
                Err::<Approval, Error>(Error::SelfApproval)
            } else if old(self).spec_is_blacklisted(caller) || old(self).spec_is_blacklisted(
                spender,
            ) {
                Err::<Approval, Error>(Error::AccountBlacklisted)
            } else {
                Ok::<Approval, Error>((Approval { owner: caller, spender, value: amount }))
            }),
            result is Err ==> *final(self) == *old(self),
            result is Ok ==> {
                &&& final(self).spec_allowance(caller, spender) == amount
                &&& forall|o: AccountId, s: AccountId|
                    (o, s) != (caller, spender) ==> final(self).spec_allowance(o, s) == old(
                        self,
                    ).spec_allowance(o, s)
                &&& balances_unchanged(*old(self), *final(self))
                &&& blacklist_unchanged(*old(self), *final(self))
                &&& admin_unchanged(*old(self), *final(self))
            },
    {
        if caller == spender {
            return Err(Error::SelfApproval);
        }
        if self.blacklist_contains(caller) {
            return Err(Error::AccountBlacklisted);
        }
        if self.blacklist_contains(spender) {
            return Err(Error::AccountBlacklisted);
        }
        self.allowance_store(caller, spender, amount);
        Ok(Approval { owner: caller, spender, value: amount })
    }

    /// Move `amount` from `from` to `to` on the strength of the allowance
    /// `from` granted the caller. The allowance is checked before the
    /// balance, so a delegated spend within the allowance but beyond the
    /// owner's balance fails with `InsufficientBalance` — an allowance never
    /// guarantees funds. The allowance debit and the balance movement are one
    /// atomic step: on any failure neither has happened.
    pub fn transfer_from(
        &mut self,
        caller: AccountId,
        from: AccountId,
        to: AccountId,
        amount: u128,
    ) -> (result: Result<Transfer, Error>)
        requires
            old(self).wf(),
        ensures
            final(self).wf(),
            result == (if old(self).spec_is_paused() {
                Err::<Transfer, Error>(Error::ContractPaused)
            } else if old(self).spec_is_blacklisted(from) || old(self).spec_is_blacklisted(to)
                || old(self).spec_is_blacklisted(caller) {
                Err::<Transfer, Error>(Error::AccountBlacklisted)
            } else if old(self).spec_allowance(from, caller) < amount {
                Err::<Transfer, Error>(Error::InsufficientAllowance)
            } else if amount == 0 {
                Err::<Transfer, Error>(Error::InvalidAmount)
            } else if old(self).spec_balance_of(from) < amount {
                Err::<Transfer, Error>(Error::InsufficientBalance)
            } else {
                Ok::<Transfer, Error>((Transfer { from: Some(from), to: Some(to), value: amount }))
            }),
            result is Err ==> *final(self) == *old(self),
            result is Ok ==> {
                &&& final(self).spec_allowance(from, caller) == old(self).spec_allowance(
                    from,
                    caller,
                ) - amount
                &&& forall|o: AccountId, s: AccountId|
                    (o, s) != (from, caller) ==> final(self).spec_allowance(o, s) == old(
                        self,
                    ).spec_allowance(o, s)
                &&& from != to ==> final(self).spec_balance_of(from) == old(self).spec_balance_of(
                    from,
                ) - amount
                &&& from != to ==> final(self).spec_balance_of(to) == old(self).spec_balance_of(to)
                    + amount
                &&& from == to ==> final(self).spec_balance_of(from) == old(self).spec_balance_of(
                    from,
                )
                &&& forall|a: AccountId|
                    a != from && a != to ==> final(self).spec_balance_of(a) == old(
                        self,
                    ).spec_balance_of(a)
                &&& final(self).spec_total_supply() == old(self).spec_total_supply()
                &&& blacklist_unchanged(*old(self), *final(self))
                &&& final(self).spec_owner() == old(self).spec_owner()
                &&& final(self).spec_is_paused() == old(self).spec_is_paused()
            },
    {
        if self.paused {
            return Err(Error::ContractPaused);
        }
        if self.blacklist_contains(from) {
            return Err(Error::AccountBlacklisted);
        }
        if self.blacklist_contains(to) {
            return Err(Error::AccountBlacklisted);
        }
        if self.blacklist_contains(caller) {
            return Err(Error::AccountBlacklisted);
        }
        let current_allowance = self.allowance_lookup(from, caller);
        if current_allowance < amount {
            return Err(Error::InsufficientAllowance);
        }
        if amount == 0 {
            return Err(Error::InvalidAmount);
        }
        let from_balance = self.balance_lookup(from);
        if from_balance < amount {
            return Err(Error::InsufficientBalance);
        }
        proof {
            if from != to {
                lemma_two_lookups_le_sum(self.balances@, to, from);
            }
        }
        self.allowance_store(from, caller, current_allowance - amount);
        self.apply_transfer(from, to, amount);
        Ok(Transfer { from: Some(from), to: Some(to), value: amount })
    }

    /// Raise the allowance of `spender` by `added_value`, reading and
    /// writing the allowance atomically within this one call.
    pub fn increase_allowance(
        &mut self,
        caller: AccountId,
        spender: AccountId,
        added_value: u128,
    ) -> (result: Result<Approval, Error>)
        requires
            old(self).wf(),
        ensures
            final(self).wf(),
            result == (if old(self).spec_allowance(caller, spender) + added_value > u128::MAX {
                Err::<Approval, Error>(Error::Overflow)
            } else if caller == spender {
                Err::<Approval, Error>(Error::SelfApproval)
            } else if old(self).spec_is_blacklisted(caller) || old(self).spec_is_blacklisted(
                spender,
            ) {
                Err::<Approval, Error>(Error::AccountBlacklisted)
            } else {
                Ok::<Approval, Error>(
                    (Approval {
                        owner: caller,
                        spender,
                        value: (old(self).spec_allowance(caller, spender) + added_value) as u128,
                    }),
                )
            }),
            result is Err ==> *final(self) == *old(self),
            result is Ok ==> {
                &&& final(self).spec_allowance(caller, spender) == old(self).spec_allowance(
                    caller,
                    spender,
                ) + added_value
                &&& forall|o: AccountId, s: AccountId|
                    (o, s) != (caller, spender) ==> final(self).spec_allowance(o, s) == old(
                        self,
                    ).spec_allowance(o, s)
                &&& balances_unchanged(*old(self), *final(self))
                &&& blacklist_unchanged(*old(self), *final(self))
                &&& admin_unchanged(*old(self), *final(self))
            },
    {
        let current_allowance = self.allowance_lookup(caller, spender);
        match current_allowance.checked_add(added_value) {
            None => Err(Error::Overflow),
            Some(new_allowance) => self.approve(caller, spender, new_allowance),
        }
    }

    /// Lower the allowance of `spender` by `subtracted_value`, failing with
    /// `InsufficientAllowance` if that would take it below zero.
    pub fn decrease_allowance(
        &mut self,
        caller: AccountId,
        spender: AccountId,
        subtracted_value: u128,
    ) -> (result: Result<Approval, Error>)
        requires
            old(self).wf(),
        ensures
            final(self).wf(),
            result == (if old(self).spec_allowance(caller, spender) < subtracted_value {
                Err::<Approval, Error>(Error::InsufficientAllowance)
            } else if caller == spender {
                Err::<Approval, Error>(Error::SelfApproval)
            } else if old(self).spec_is_blacklisted(caller) || old(self).spec_is_blacklisted(
                spender,
            ) {
                Err::<Approval, Error>(Error::AccountBlacklisted)
            } else {
                Ok::<Approval, Error>(
                    (Approval {
                        owner: caller,
                        spender,
                        value: (old(self).spec_allowance(caller, spender) - subtracted_value)
                            as u128,
                    }),
                )
            }),
            result is Err ==> *final(self) == *old(self),
            result is Ok ==> {
                &&& final(self).spec_allowance(caller, spender) == old(self).spec_allowance(
                    caller,
                    spender,
                ) - subtracted_value
                &&& forall|o: AccountId, s: AccountId|
                    (o, s) != (caller, spender) ==> final(self).spec_allowance(o, s) == old(
                        self,
                    ).spec_allowance(o, s)
                &&& balances_unchanged(*old(self), *final(self))
                &&& blacklist_unchanged(*old(self), *final(self))
                &&& admin_unchanged(*old(self), *final(self))
            },
    {
        let current_allowance = self.allowance_lookup(caller, spender);
        if current_allowance < subtracted_value {
            return Err(Error::InsufficientAllowance);
        }
        self.approve(caller, spender, current_allowance - subtracted_value)
    }

    /// Transfer to many recipients in one all-or-nothing operation. The
    /// whole list is validated first — pause, blacklisting of the caller and
    /// of every recipient, and that the checked sum of all amounts fits the
    /// caller's balance — and only then applied, so any failure leaves every
    /// balance exactly as before the call. Zero-amount entries are silently
    /// skipped, and an empty list is a legal no-op. Once validation has
    /// passed, the supply invariant rules out overflow in every individual
    /// credit, so the apply phase cannot fail.
    pub fn batch_transfer(&mut self, caller: AccountId, recipients: Vec<(AccountId, u128)>) -> (result:
        Result<Vec<Transfer>, Error>)
        requires
            old(self).wf(),
        ensures
            final(self).wf(),
            result is Err ==> *final(self) == *old(self),
            old(self).spec_batch_outcome(caller, recipients@) matches Some(e) ==> result == Err::<
                Vec<Transfer>,
                Error,
            >(e),
            old(self).spec_batch_outcome(caller, recipients@) is None ==> {
                &&& result is Ok
                &&& result->Ok_0@ == spec_batch_events(caller, recipients@)
                &&& final(self).balances_map() == spec_apply_entries(
                    old(self).balances_map(),
                    caller,
                    recipients@,
                )
                &&& final(self).spec_total_supply() == old(self).spec_total_supply()
                &&& allowances_unchanged(*old(self), *final(self))
                &&& blacklist_unchanged(*old(self), *final(self))
                &&& final(self).spec_owner() == old(self).spec_owner()
                &&& final(self).spec_is_paused() == old(self).spec_is_paused()
            },
    {
        if self.paused {
            return Err(Error::ContractPaused);
        }
        if self.blacklist_contains(caller) {
            return Err(Error::AccountBlacklisted);
        }
        let n = recipients.len();
        proof {
            assert(recipients@.skip(0) =~= recipients@);
        }
        let mut total_amount: u128 = 0;
        let mut i: usize = 0;
        while i < n
            invariant
                *self == *old(self),
                self.wf(),
                !self.spec_is_paused(),
                !self.spec_is_blacklisted(caller),
                n == recipients.len(),
                i <= n,
                self.spec_batch_scan(recipients@, 0) == self.spec_batch_scan(
                    recipients@.skip(i as int),
                    total_amount as int,
                ),
                sum_values(recipients@) == total_amount + sum_values(recipients@.skip(i as int)),
            decreases n - i,
        {
            let entry = recipients[i];
            proof {
                assert(recipients@.skip(i as int)[0] == entry);
                assert(recipients@.skip(i as int).drop_first() =~= recipients@.skip(i as int + 1));
            }
            if self.blacklist_contains(entry.0) {
                proof {
                    assert(self.spec_batch_scan(recipients@.skip(i as int), total_amount as int)
                        == Some(Error::AccountBlacklisted));
                }
                return Err(Error::AccountBlacklisted);
            }
            match total_amount.checked_add(entry.1) {
                None => {
                    proof {
                        assert(self.spec_batch_scan(recipients@.skip(i as int), total_amount as int)
                            == Some(Error::Overflow));
                    }
                    return Err(Error::Overflow);
                },
                Some(new_total) => {
                    total_amount = new_total;
                },
            }
            i += 1;
        }
        proof {
            assert(recipients@.skip(n as int) =~= Seq::<(AccountId, u128)>::empty());
        }
        let from_balance = self.balance_lookup(caller);
        if from_balance < total_amount {
            return Err(Error::InsufficientBalance);
        }
        let mut events: Vec<Transfer> = Vec::new();
        proof {
            assert(recipients@.skip(0) =~= recipients@);
            assert(Seq::<Transfer>::empty() + spec_batch_events(caller, recipients@)
                =~= spec_batch_events(caller, recipients@));
        }
        let mut i: usize = 0;
        while i < n
            invariant
                self.wf(),
                n == recipients.len(),
                i <= n,
                old(self).spec_batch_outcome(caller, recipients@) is None,
                spec_apply_entries(old(self).balances_map(), caller, recipients@)
                    == spec_apply_entries(self.balances_map(), caller, recipients@.skip(i as int)),
                events@ + spec_batch_events(caller, recipients@.skip(i as int))
                    == spec_batch_events(caller, recipients@),
                self.spec_balance_of(caller) >= sum_values(recipients@.skip(i as int)),
                self.spec_total_supply() == old(self).spec_total_supply(),
                allowances_unchanged(*old(self), *self),
                blacklist_unchanged(*old(self), *self),
                self.spec_owner() == old(self).spec_owner(),
                self.spec_is_paused() == old(self).spec_is_paused(),
            decreases n - i,
        {
            let entry = recipients[i];
            proof {
                assert(recipients@.skip(i as int)[0] == entry);
                assert(recipients@.skip(i as int).drop_first() =~= recipients@.skip(i as int + 1));
                lemma_sum_nonneg(recipients@.skip(i as int + 1));
            }
            if entry.1 > 0 {
                proof {
                    if caller != entry.0 {
                        lemma_two_lookups_le_sum(self.balances@, entry.0, caller);
                    }
                }
                let ghost pre_map = self.balances_map();
                let ghost pre_events = events@;
                self.apply_transfer(caller, entry.0, entry.1);
                events.push(Transfer { from: Some(caller), to: Some(entry.0), value: entry.1 });
                proof {
                    let t = Transfer { from: Some(caller), to: Some(entry.0), value: entry.1 };
                    assert(spec_apply_entries(pre_map, caller, recipients@.skip(i as int))
                        == spec_apply_entries(
                        spec_transfer(pre_map, caller, entry.0, entry.1),
                        caller,
                        recipients@.skip(i as int + 1),
                    ));
                    assert(spec_batch_events(caller, recipients@.skip(i as int)) == seq![t]
                        + spec_batch_events(caller, recipients@.skip(i as int + 1)));
                    assert(events@ =~= pre_events + seq![t]);
                    assert((pre_events + seq![t]) + spec_batch_events(
                        caller,
                        recipients@.skip(i as int + 1),
                    ) =~= pre_events + (seq![t] + spec_batch_events(
                        caller,
                        recipients@.skip(i as int + 1),
                    )));
                }
            }
            i += 1;
        }
        proof {
            assert(recipients@.skip(n as int) =~= Seq::<(AccountId, u128)>::empty());
            assert(events@ + Seq::<Transfer>::empty() =~= events@);
        }
        Ok(events)
    }

    /// Set the global pause flag. Owner-only. Pausing an already paused
    /// ledger succeeds as a no-op and raises no notification; only the call
    /// that actually flips the flag returns a `Paused` payload.
    pub fn pause(&mut self, caller: AccountId) -> (result: Result<Option<Paused>, Error>)
        requires
            old(self).wf(),
        ensures
            final(self).wf(),
            result == (if caller != old(self).spec_owner() {
                Err::<Option<Paused>, Error>(Error::Unauthorized)
            } else if old(self).spec_is_paused() {
                Ok::<Option<Paused>, Error>(None)
            } else {
                Ok::<Option<Paused>, Error>(Some((Paused { paused: true })))
            }),
            result is Err ==> *final(self) == *old(self),
            result is Ok ==> {
                &&& final(self).spec_is_paused()
                &&& balances_unchanged(*old(self), *final(self))
                &&& allowances_unchanged(*old(self), *final(self))
                &&& blacklist_unchanged(*old(self), *final(self))
                &&& final(self).spec_owner() == old(self).spec_owner()
                &&& final(self).spec_total_supply() == old(self).spec_total_supply()
            },
            caller == old(self).spec_owner() && old(self).spec_is_paused() ==> *final(self) == *old(
                self,
            ),
    {
        if caller != self.owner {
            return Err(Error::Unauthorized);
        }
        if self.paused {
            return Ok(None);
        }
        self.paused = true;
        Ok(Some(Paused { paused: true }))
    }

    /// Clear the global pause flag. Owner-only, and a no-op without a
    /// notification when the ledger is not paused.
    pub fn unpause(&mut self, caller: AccountId) -> (result: Result<Option<Paused>, Error>)
        requires
            old(self).wf(),
        ensures
            final(self).wf(),
            result == (if caller != old(self).spec_owner() {
                Err::<Option<Paused>, Error>(Error::Unauthorized)
            } else if !old(self).spec_is_paused() {
                Ok::<Option<Paused>, Error>(None)
            } else {
                Ok::<Option<Paused>, Error>(Some((Paused { paused: false })))
            }),
            result is Err ==> *final(self) == *old(self),
            result is Ok ==> {
                &&& !final(self).spec_is_paused()
                &&& balances_unchanged(*old(self), *final(self))
                &&& allowances_unchanged(*old(self), *final(self))
                &&& blacklist_unchanged(*old(self), *final(self))
                &&& final(self).spec_owner() == old(self).spec_owner()
                &&& final(self).spec_total_supply() == old(self).spec_total_supply()
            },
            caller == old(self).spec_owner() && !old(self).spec_is_paused() ==> *final(self)
                == *old(self),
    {
        if caller != self.owner {
            return Err(Error::Unauthorized);
        }
        if !self.paused {
            return Ok(None);
        }
        self.paused = false;
        Ok(Some(Paused { paused: false }))
    }

    /// Blacklist `account`. Owner-only, and the owner itself can never be
    /// blacklisted — that attempt fails with `Unauthorized`, which protects
    /// against locking the owner out. Blacklisting an already blacklisted
    /// account succeeds and raises the notification again.
    pub fn blacklist(&mut self, caller: AccountId, account: AccountId) -> (result: Result<
        BlacklistUpdated,
        Error,
    >)
        requires
            old(self).wf(),
        ensures
            final(self).wf(),
            result == (if caller != old(self).spec_owner() || account == old(self).spec_owner() {
                Err::<BlacklistUpdated, Error>(Error::Unauthorized)
            } else {
                Ok::<BlacklistUpdated, Error>((BlacklistUpdated { account, blacklisted: true }))
            }),
            result is Err ==> *final(self) == *old(self),
            result is Ok ==> {
                &&& final(self).spec_is_blacklisted(account)
                &&& forall|x: AccountId|
                    x != account ==> final(self).spec_is_blacklisted(x) == old(
                        self,
                    ).spec_is_blacklisted(x)
                &&& balances_unchanged(*old(self), *final(self))
                &&& allowances_unchanged(*old(self), *final(self))
                &&& admin_unchanged(*old(self), *final(self))
            },
    {
        if caller != self.owner {
            return Err(Error::Unauthorized);
        }
        if account == self.owner {
            return Err(Error::Unauthorized);
        }
        self.blacklist_add(account);
        Ok(BlacklistUpdated { account, blacklisted: true })
    }

    /// Remove `account` from the blacklist. Owner-only. Clearing an account
    /// that is not blacklisted succeeds and still raises the notification,
    /// mirroring that the flag is simply written to false.
    pub fn unblacklist(&mut self, caller: AccountId, account: AccountId) -> (result: Result<
        BlacklistUpdated,
        Error,
    >)
        requires
            old(self).wf(),
        ensures
            final(self).wf(),
            result == (if caller != old(self).spec_owner() {
                Err::<BlacklistUpdated, Error>(Error::Unauthorized)
            } else {
                Ok::<BlacklistUpdated, Error>((BlacklistUpdated { account, blacklisted: false }))
            }),
            result is Err ==> *final(self) == *old(self),
            result is Ok ==> {
                &&& !final(self).spec_is_blacklisted(account)
                &&& forall|x: AccountId|
                    x != account ==> final(self).spec_is_blacklisted(x) == old(
                        self,
                    ).spec_is_blacklisted(x)
                &&& balances_unchanged(*old(self), *final(self))
                &&& allowances_unchanged(*old(self), *final(self))
                &&& admin_unchanged(*old(self), *final(self))
            },
    {
        if caller != self.owner {
            return Err(Error::Unauthorized);
        }
        self.blacklist_remove(account);
        Ok(BlacklistUpdated { account, blacklisted: false })
    }

    /// Hand owner rights to `new_owner`, effective immediately. Owner-only.
    /// There is always exactly one owner.
    pub fn transfer_ownership(&mut self, caller: AccountId, new_owner: AccountId) -> (result:
        Result<OwnershipTransferred, Error>)
        requires
            old(self).wf(),
        ensures
            final(self).wf(),
            result == (if caller != old(self).spec_owner() {
                Err::<OwnershipTransferred, Error>(Error::Unauthorized)
            } else {
                Ok::<OwnershipTransferred, Error>(
                    (OwnershipTransferred {
                        previous_owner: old(self).spec_owner(),
                        new_owner,
                    }),
                )
            }),
            result is Err ==> *final(self) == *old(self),
            result is Ok ==> {
                &&& final(self).spec_owner() == new_owner
                &&& balances_unchanged(*old(self), *final(self))
                &&& allowances_unchanged(*old(self), *final(self))
                &&& blacklist_unchanged(*old(self), *final(self))
                &&& final(self).spec_is_paused() == old(self).spec_is_paused()
                &&& final(self).spec_total_supply() == old(self).spec_total_supply()
            },
    {
        if caller != self.owner {
            return Err(Error::Unauthorized);
        }
        let previous_owner = self.owner;
        self.owner = new_owner;
        Ok(OwnershipTransferred { previous_owner, new_owner })
    }

    /// The stored balance entries, for a host that persists the ledger
    /// between calls. Entries carry pairwise distinct keys; an account
    /// without an entry has balance zero.
    pub fn balance_entries(&self) -> (entries: Vec<(AccountId, u128)>)
        requires
            self.wf(),
        ensures
            keys_distinct(entries@),
            forall|a: AccountId| lookup(entries@, a) == self.spec_balance_of(a),
            sum_values(entries@) == self.spec_sum_of_balances(),
    {
        let n = self.balances.len();
        let mut entries: Vec<(AccountId, u128)> = Vec::new();
        let mut i: usize = 0;
        while i < n
            invariant
                n == self.balances.len(),
                i <= n,
                entries@ == self.balances@.take(i as int),
            decreases n - i,
        {
            entries.push(self.balances[i]);
            proof {
                assert(entries@ =~= self.balances@.take(i as int + 1));
            }
            i += 1;
        }
        proof {
            assert(entries@ =~= self.balances@);
        }
        entries
    }

    /// The stored allowance entries, keyed by `(owner, spender)`, for a host
    /// that persists the ledger between calls.
    pub fn allowance_entries(&self) -> (entries: Vec<((AccountId, AccountId), u128)>)
        requires
            self.wf(),
        ensures
            keys_distinct(entries@),
            forall|o: AccountId, s: AccountId|
                lookup(entries@, (o, s)) == self.spec_allowance(o, s),
    {
        let n = self.allowances.len();
        let mut entries: Vec<((AccountId, AccountId), u128)> = Vec::new();
        let mut i: usize = 0;
        while i < n
            invariant
                n == self.allowances.len(),
                i <= n,
                entries@ == self.allowances@.take(i as int),
            decreases n - i,
        {
            entries.push(self.allowances[i]);
            proof {
                assert(entries@ =~= self.allowances@.take(i as int + 1));
            }
            i += 1;
        }
        proof {
            assert(entries@ =~= self.allowances@);
        }
        entries
    }

    /// The accounts currently blacklisted, each listed once, for a host that
    /// persists the ledger between calls.
    pub fn blacklisted_accounts(&self) -> (accounts: Vec<AccountId>)
        requires
            self.wf(),
        ensures
            accounts_distinct(accounts@),
            forall|x: AccountId| accounts@.contains(x) == self.spec_is_blacklisted(x),
    {
        let n = self.blacklist.len();
        let mut accounts: Vec<AccountId> = Vec::new();
        let mut i: usize = 0;
        while i < n
            invariant
                n == self.blacklist.len(),
                i <= n,
                accounts@ == self.blacklist@.take(i as int),
            decreases n - i,
        {
            accounts.push(self.blacklist[i]);
            proof {
                assert(accounts@ =~= self.blacklist@.take(i as int + 1));
            }
            i += 1;
        }
        proof {
            assert(accounts@ =~= self.blacklist@);
        }
        accounts
    }

    /// Rebuild a ledger from parts a host persisted. Succeeds exactly when
    /// the parts are a well-formed state: pairwise distinct keys in each
    /// store and a recorded total supply equal to the sum of the balances.
    pub fn from_parts(
        balances: Vec<(AccountId, u128)>,
        allowances: Vec<((AccountId, AccountId), u128)>,
        blacklist: Vec<AccountId>,
        owner: AccountId,
        total_supply: u128,
        paused: bool,
    ) -> (result: Option<Token>)
        ensures
            result is Some <==> {
                &&& keys_distinct(balances@)
                &&& keys_distinct(allowances@)
                &&& accounts_distinct(blacklist@)
                &&& total_supply as int == sum_values(balances@)
            },
            result matches Some(t) ==> {
                &&& t.wf()
                &&& t.spec_owner() == owner
                &&& t.spec_total_supply() == total_supply
                &&& t.spec_is_paused() == paused
                &&& forall|a: AccountId| t.spec_balance_of(a) == lookup(balances@, a)
                &&& forall|o: AccountId, s: AccountId|
                    t.spec_allowance(o, s) == lookup(allowances@, (o, s))
                &&& forall|x: AccountId| t.spec_is_blacklisted(x) == blacklist@.contains(x)
            },
    {
        if !balance_keys_distinct_check(&balances) {
            return None;
        }
        if !allowance_keys_distinct_check(&allowances) {
            return None;
        }
        if !accounts_distinct_check(&blacklist) {
            return None;
        }
        match checked_sum(&balances) {
            None => None,
            Some(sum) => {
                if sum != total_supply {
                    None
                } else {
                    Some(Token { balances, allowances, blacklist, owner, total_supply, paused })
                }
            },
        }
    }

    /// Add `account` to the blacklist if it is not already there.
    fn blacklist_add(&mut self, account: AccountId)
        requires
            accounts_distinct(old(self).blacklist@),
        ensures
            accounts_distinct(final(self).blacklist@),
            forall|x: AccountId|
                final(self).blacklist@.contains(x) <==> (old(self).blacklist@.contains(x) || x
                    == account),
            final(self).balances == old(self).balances,
            final(self).allowances == old(self).allowances,
            final(self).owner == old(self).owner,
            final(self).total_supply == old(self).total_supply,
            final(self).paused == old(self).paused,
    {
        if !self.blacklist_contains(account) {
            proof {
                lemma_accounts_push(self.blacklist@, account);
            }
            self.blacklist.push(account);
        }
    }

    /// Remove `account` from the blacklist if it is there.
    fn blacklist_remove(&mut self, account: AccountId)
        requires
            accounts_distinct(old(self).blacklist@),
        ensures
            accounts_distinct(final(self).blacklist@),
            forall|x: AccountId|
                final(self).blacklist@.contains(x) <==> (old(self).blacklist@.contains(x) && x
                    != account),
            final(self).balances == old(self).balances,
            final(self).allowances == old(self).allowances,
            final(self).owner == old(self).owner,
            final(self).total_supply == old(self).total_supply,
            final(self).paused == old(self).paused,
    {
        let n = self.blacklist.len();
        let mut i: usize = 0;
        while i < n
            invariant
                *self == *old(self),
                n == self.blacklist.len(),
                i <= n,
                accounts_distinct(self.blacklist@),
                forall|j: int| 0 <= j < i ==> self.blacklist@[j] != account,
            decreases n - i,
        {
            if self.blacklist[i] == account {
                proof {
                    lemma_accounts_remove(self.blacklist@, i as int);
                }
                self.blacklist.remove(i);
                return;
            }
            i += 1;
        }
        assert forall|x: AccountId|
            self.blacklist@.contains(x) <==> (old(self).blacklist@.contains(x) && x
                != account) by {
            if self.blacklist@.contains(account) {
                let j = choose|j: int|
                    0 <= j < self.blacklist@.len() && self.blacklist@[j] == account;
            }
        }
    }
}

/// Whether the balance entries carry pairwise distinct keys.
fn balance_keys_distinct_check(entries: &Vec<(AccountId, u128)>) -> (distinct: bool)
    ensures
        distinct == keys_distinct(entries@),
{
    let n = entries.len();
    let mut i: usize = 0;
    while i < n
        invariant
            n == entries@.len(),
            i <= n,
            forall|a: int, b: int| 0 <= a < b < n && a < i ==> entries@[a].0 != entries@[b].0,
        decreases n - i,
    {
        let mut j: usize = i + 1;
        while j < n
            invariant
                n == entries@.len(),
                i < n,
                i + 1 <= j <= n,
                forall|a: int, b: int| 0 <= a < b < n && a < i ==> entries@[a].0 != entries@[b].0,
                forall|b: int| i < b < j ==> entries@[i as int].0 != entries@[b].0,
            decreases n - j,
        {
            if entries[i].0 == entries[j].0 {
                assert(!keys_distinct(entries@));
                return false;
            }
            j += 1;
        }
        i += 1;
    }
    true
}

/// Whether the allowance entries carry pairwise distinct key pairs.
fn allowance_keys_distinct_check(entries: &Vec<((AccountId, AccountId), u128)>) -> (distinct:
    bool)
    ensures
        distinct == keys_distinct(entries@),
{
    let n = entries.len();
    let mut i: usize = 0;
    while i < n
        invariant
            n == entries@.len(),
            i <= n,
            forall|a: int, b: int| 0 <= a < b < n && a < i ==> entries@[a].0 != entries@[b].0,
        decreases n - i,
    {
        let mut j: usize = i + 1;
        while j < n
            invariant
                n == entries@.len(),
                i < n,
                i + 1 <= j <= n,
                forall|a: int, b: int| 0 <= a < b < n && a < i ==> entries@[a].0 != entries@[b].0,
                forall|b: int| i < b < j ==> entries@[i as int].0 != entries@[b].0,
            decreases n - j,
        {
            if entries[i].0.0 == entries[j].0.0 && entries[i].0.1 == entries[j].0.1 {
                assert(entries@[i as int].0 == entries@[j as int].0);
                assert(!keys_distinct(entries@));
                return false;
            }
            j += 1;
        }
        i += 1;
    }
    true
}

/// Whether each account occurs at most once in the list.
fn accounts_distinct_check(accounts: &Vec<AccountId>) -> (distinct: bool)
    ensures
        distinct == accounts_distinct(accounts@),
{
    let n = accounts.len();
    let mut i: usize = 0;
    while i < n
        invariant
            n == accounts@.len(),
            i <= n,
            forall|a: int, b: int| 0 <= a < b < n && a < i ==> accounts@[a] != accounts@[b],
        decreases n - i,
    {
        let mut j: usize = i + 1;
        while j < n
            invariant
                n == accounts@.len(),
                i < n,
                i + 1 <= j <= n,
                forall|a: int, b: int| 0 <= a < b < n && a < i ==> accounts@[a] != accounts@[b],
                forall|b: int| i < b < j ==> accounts@[i as int] != accounts@[b],
            decreases n - j,
        {
            if accounts[i] == accounts[j] {
                assert(!accounts_distinct(accounts@));
                return false;
            }
            j += 1;
        }
        i += 1;
    }
    true
}

/// The checked sum of the stored values, or `None` past the 128-bit maximum.
fn checked_sum(entries: &Vec<(AccountId, u128)>) -> (result: Option<u128>)
    ensures
        result matches Some(s) ==> s as int == sum_values(entries@),
        result is None ==> sum_values(entries@) > u128::MAX,
{
    let n = entries.len();
    proof {
        assert(entries@.skip(0) =~= entries@);
    }
    let mut acc: u128 = 0;
    let mut i: usize = 0;
    while i < n
        invariant
            n == entries@.len(),
            i <= n,
            sum_values(entries@) == acc + sum_values(entries@.skip(i as int)),
        decreases n - i,
    {
        let entry = entries[i];
        proof {
            assert(entries@.skip(i as int)[0] == entry);
            assert(entries@.skip(i as int).drop_first() =~= entries@.skip(i as int + 1));
            lemma_sum_nonneg(entries@.skip(i as int + 1));
        }
        match acc.checked_add(entry.1) {
            None => {
                return None;
            },
            Some(next) => {
                acc = next;
            },
        }
        i += 1;
    }
    proof {
        assert(entries@.skip(n as int) =~= Seq::<(AccountId, u128)>::empty());
    }
    Some(acc)
}

/// What pushing a fresh account onto a distinct list does to membership.
proof fn lemma_accounts_push(s: Seq<AccountId>, account: AccountId)
    requires
        accounts_distinct(s),
        !s.contains(account),
    ensures
        accounts_distinct(s.push(account)),
        forall|x: AccountId|
            #[trigger] s.push(account).contains(x) <==> (s.contains(x) || x == account),
{
    let p = s.push(account);
    assert forall|i: int, j: int| 0 <= i < j < p.len() implies p[i] != p[j] by {
        if j < s.len() {
            assert(p[i] == s[i] && p[j] == s[j]);
        } else {
            assert(p[j] == account);
            assert(p[i] == s[i]);
            assert(s.contains(s[i]));
        }
    }
    assert forall|x: AccountId| #[trigger] p.contains(x) implies (s.contains(x) || x
        == account) by {
        let i = choose|i: int| 0 <= i < p.len() && p[i] == x;
        if i < s.len() {
            assert(s[i] == x);
        }
    }
    assert forall|x: AccountId| (s.contains(x) || x == account) implies #[trigger] p.contains(
        x,
    ) by {
        if s.contains(x) {
            let i = choose|i: int| 0 <= i < s.len() && s[i] == x;
            assert(p[i] == x);
        } else {
            assert(p[s.len() as int] == x);
        }
    }
}

/// What removing the one entry at index `i` from a distinct list does to
/// membership.
proof fn lemma_accounts_remove(s: Seq<AccountId>, i: int)
    requires
        accounts_distinct(s),
        0 <= i < s.len(),
    ensures
        accounts_distinct(s.remove(i)),
        forall|x: AccountId| #[trigger] s.remove(i).contains(x) <==> (s.contains(x) && x != s[i]),
{
    let r = s.remove(i);
    s.remove_ensures(i);
    assert forall|a: int, b: int| 0 <= a < b < r.len() implies r[a] != r[b] by {
        let a0: int = if a < i {
            a
        } else {
            a + 1
        };
        let b0: int = if b < i {
            b
        } else {
            b + 1
        };
        assert(r[a] == s[a0] && r[b] == s[b0]);
    }
    assert forall|x: AccountId| #[trigger] r.contains(x) implies (s.contains(x) && x != s[i]) by {
        let a = choose|a: int| 0 <= a < r.len() && r[a] == x;
        let a0: int = if a < i {
            a
        } else {
            a + 1
        };
        assert(s[a0] == x);
        assert(a0 != i);
    }
    assert forall|x: AccountId| (s.contains(x) && x != s[i]) implies #[trigger] r.contains(x) by {
        let a0 = choose|a0: int| 0 <= a0 < s.len() && s[a0] == x;
        if a0 < i {
            assert(r[a0] == x);
        } else {
            assert(r[a0 - 1] == x);
        }
    }
}

} // verus!
