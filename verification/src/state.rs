//! The authoritative account and module store. Accounts are kept in a vector
//! with pairwise-distinct addresses; every operation's contract is stated
//! pointwise over the spec-level lookup functions below, together with how
//! the sum of all balances moved. Balances never underflow: an operation that
//! would underflow or overflow returns its error and leaves the state as it
//! was.

use vstd::prelude::*;
use crate::address::Address;
use crate::changeset::{self, has_change, AccountChange, ChangeSet};
use crate::ident::{self, ModuleId};

verus! {

/// May this per-account change land on this account state? The resulting
/// balance must stay in the `u64` range, the sequence number must not wrap,
/// and no added module name may collide with a present one or with another
/// name in the same change.
pub open spec fn applicable_entry(accounts: Seq<Account>, c: AccountChange) -> bool {
    &&& 0 <= balance_of(accounts, c.address@) + c.balance_delta <= u64::MAX
    &&& seq_of(accounts, c.address@) + c.sequence_increment <= u64::MAX
    &&& forall|k: int|
        0 <= k < c.modules_added@.len() ==> !modules_of(accounts, c.address@).contains(
            (#[trigger] c.modules_added@[k])@,
        )
    &&& forall|k1: int, k2: int|
        0 <= k1 < k2 < c.modules_added@.len() ==> c.modules_added@[k1]@ != c.modules_added@[k2]@
}

/// May this change-set land on this account state? Every entry must be
/// applicable and the deltas must sum to zero: `apply` conserves the sum of
/// balances.
pub open spec fn applicable(accounts: Seq<Account>, cc: Seq<AccountChange>) -> bool {
    &&& changeset::net_delta(cc) == 0
    &&& forall|j: int| 0 <= j < cc.len() ==> applicable_entry(accounts, #[trigger] cc[j])
}

/// Why a state operation was refused. The state is unchanged in every case.
#[derive(PartialEq, Eq, Structural, Clone, Copy, Debug)]
pub enum StateError {
    /// The sending account does not exist.
    SenderNotFound,
    /// The named account does not exist.
    AccountNotFound,
    /// The account's balance cannot cover the requested amount.
    InsufficientBalance,
    /// A credit would push a balance past `u64::MAX`.
    BalanceOverflow,
    /// A sequence number would pass `u64::MAX`.
    SequenceOverflow,
    /// A mint would push the total supply past `u64::MAX`.
    SupplyOverflow,
    /// A change-set's balance deltas do not sum to zero.
    UnbalancedChangeSet,
    /// A module is already published under the same identity.
    ModuleCollision,
}

/// One account: identity, balance in MIST, transaction counter, and the
/// names of the modules it has published.
pub struct Account {
    pub address: Address,
    pub balance: u64,
    pub sequence_number: u64,
    pub modules: Vec<String>,
}

/// Does some account in `s` have address `a`?
pub open spec fn has_acc(s: Seq<Account>, a: Seq<u8>) -> bool {
    exists|i: int| 0 <= i < s.len() && s[i].address@ == a
}

/// The index of the account with address `a`.
pub open spec fn idx_of(s: Seq<Account>, a: Seq<u8>) -> int {
    choose|i: int| 0 <= i < s.len() && s[i].address@ == a
}

/// Addresses are pairwise distinct.
pub open spec fn uniq_accounts(s: Seq<Account>) -> bool {
    forall|i: int, j: int| 0 <= i < j < s.len() ==> s[i].address@ != s[j].address@
}

/// Distinct, well-formed addresses throughout.
pub open spec fn accounts_wf(s: Seq<Account>) -> bool {
    uniq_accounts(s) && forall|i: int| 0 <= i < s.len() ==> (#[trigger] s[i]).address.wf()
}

/// The balance of address `a`, zero when absent.
pub open spec fn balance_of(s: Seq<Account>, a: Seq<u8>) -> u64 {
    if has_acc(s, a) {
        s[idx_of(s, a)].balance
    } else {
        0u64
    }
}

/// The sequence number of address `a`, zero when absent.
pub open spec fn seq_of(s: Seq<Account>, a: Seq<u8>) -> u64 {
    if has_acc(s, a) {
        s[idx_of(s, a)].sequence_number
    } else {
        0u64
    }
}

/// The module names of address `a`, empty when absent.
pub open spec fn modules_of(s: Seq<Account>, a: Seq<u8>) -> Seq<Seq<char>> {
    if has_acc(s, a) {
        s[idx_of(s, a)].modules@.map_values(|m: String| m@)
    } else {
        Seq::empty()
    }
}

/// The sum of all balances.
pub open spec fn sum_bal(s: Seq<Account>) -> int
    decreases s.len(),
{
    if s.len() == 0 {
        0
    } else {
        sum_bal(s.drop_last()) + s.last().balance
    }
}

/// The account at a valid index of a duplicate-free sequence is the one its
/// address looks up.
pub proof fn lemma_at_idx(s: Seq<Account>, i: int)
    requires
        uniq_accounts(s),
        0 <= i < s.len(),
    ensures
        has_acc(s, s[i].address@),
        idx_of(s, s[i].address@) == i,
{
    assert(has_acc(s, s[i].address@));
    let j = idx_of(s, s[i].address@);
    assert(0 <= j < s.len() && s[j].address@ == s[i].address@);
    if j < i {
        assert(s[j].address@ != s[i].address@);
    }
    if i < j {
        assert(s[i].address@ != s[j].address@);
    }
}

/// Replacing the account at `i` by one with the same address: lookups at the
/// address see the new account, lookups elsewhere are untouched.
pub proof fn lemma_update_keeps(s: Seq<Account>, i: int, x: Account, a: Seq<u8>)
    requires
        uniq_accounts(s),
        0 <= i < s.len(),
        x.address@ == s[i].address@,
    ensures
        uniq_accounts(s.update(i, x)),
        has_acc(s.update(i, x), a) == has_acc(s, a),
        balance_of(s.update(i, x), a) == if a == x.address@ {
            x.balance
        } else {
            balance_of(s, a)
        },
        seq_of(s.update(i, x), a) == if a == x.address@ {
            x.sequence_number
        } else {
            seq_of(s, a)
        },
        modules_of(s.update(i, x), a) == if a == x.address@ {
            x.modules@.map_values(|m: String| m@)
        } else {
            modules_of(s, a)
        },
{
    let t = s.update(i, x);
    assert(forall|k: int| 0 <= k < s.len() ==> (#[trigger] t[k]).address@ == s[k].address@);
    assert(uniq_accounts(t));
    if has_acc(s, a) {
        let j = idx_of(s, a);
        assert(0 <= j < s.len() && s[j].address@ == a);
        assert(t[j].address@ == a);
        assert(has_acc(t, a));
        lemma_at_idx(t, j);
        if a == x.address@ {
            lemma_at_idx(s, i);
            assert(j == i);
        } else {
            assert(j != i);
        }
    } else {
        if has_acc(t, a) {
            let k = idx_of(t, a);
            assert(0 <= k < t.len() && t[k].address@ == a);
            assert(s[k].address@ == a);
        }
    }
}

/// Appending an account with a fresh address: lookups at the new address see
/// it, lookups elsewhere are untouched.
pub proof fn lemma_push_keeps(s: Seq<Account>, x: Account, a: Seq<u8>)
    requires
        uniq_accounts(s),
        !has_acc(s, x.address@),
    ensures
        uniq_accounts(s.push(x)),
        has_acc(s.push(x), a) == (has_acc(s, a) || a == x.address@),
        balance_of(s.push(x), a) == if a == x.address@ {
            x.balance
        } else {
            balance_of(s, a)
        },
        seq_of(s.push(x), a) == if a == x.address@ {
            x.sequence_number
        } else {
            seq_of(s, a)
        },
        modules_of(s.push(x), a) == if a == x.address@ {
            x.modules@.map_values(|m: String| m@)
        } else {
            modules_of(s, a)
        },
{
    let t = s.push(x);
    assert(forall|k: int| 0 <= k < s.len() ==> (#[trigger] t[k]).address@ == s[k].address@);
    assert(t[s.len() as int].address@ == x.address@);
    assert forall|i: int, j: int| 0 <= i < j < t.len() implies t[i].address@ != t[j].address@ by {
        if j == s.len() {
            if t[i].address@ == x.address@ {
                assert(has_acc(s, x.address@));
            }
        }
    }
    if a == x.address@ {
        assert(has_acc(t, a));
        lemma_at_idx(t, s.len() as int);
    } else {
        if has_acc(s, a) {
            let j = idx_of(s, a);
            assert(t[j].address@ == a);
            assert(has_acc(t, a));
            lemma_at_idx(t, j);
        } else {
            if has_acc(t, a) {
                let k = idx_of(t, a);
                assert(0 <= k < t.len() && t[k].address@ == a);
                assert(k != s.len());
                assert(s[k].address@ == a);
            }
        }
    }
}

/// The sum after replacing one account moves by the difference of balances.
pub proof fn lemma_sum_update(s: Seq<Account>, i: int, x: Account)
    requires
        0 <= i < s.len(),
    ensures
        sum_bal(s.update(i, x)) == sum_bal(s) + x.balance - s[i].balance,
    decreases s.len(),
{
    let t = s.update(i, x);
    if i == s.len() - 1 {
        assert(t.drop_last() =~= s.drop_last());
        assert(t.last() == x);
    } else {
        lemma_sum_update(s.drop_last(), i, x);
        assert(t.drop_last() =~= s.drop_last().update(i, x));
        assert(t.last() == s.last());
    }
}

/// The sum after appending an account grows by its balance.
pub proof fn lemma_sum_push(s: Seq<Account>, x: Account)
    ensures
        sum_bal(s.push(x)) == sum_bal(s) + x.balance,
{
    assert(s.push(x).drop_last() =~= s);
    assert(s.push(x).last() == x);
}

/// The sum of balances is nonnegative.
pub proof fn lemma_sum_nonneg(s: Seq<Account>)
    ensures
        sum_bal(s) >= 0,
    decreases s.len(),
{
    if s.len() > 0 {
        lemma_sum_nonneg(s.drop_last());
    }
}

/// Each account's balance is at most the sum of all balances.
pub proof fn lemma_sum_ge_elem(s: Seq<Account>, i: int)
    requires
        0 <= i < s.len(),
    ensures
        sum_bal(s) >= s[i].balance,
    decreases s.len(),
{
    if i == s.len() - 1 {
        lemma_sum_nonneg(s.drop_last());
    } else {
        lemma_sum_ge_elem(s.drop_last(), i);
        assert(s.drop_last()[i] == s[i]);
    }
}

impl Account {
    /// Well-formed: a 32-byte address.
    pub open spec fn wf(&self) -> bool {
        self.address.wf()
    }

    /// Does this account list a module of the given name?
    pub open spec fn spec_has_module(&self, name: Seq<char>) -> bool {
        exists|i: int| 0 <= i < self.modules@.len() && (#[trigger] self.modules@[i])@ == name
    }

    /// A fresh account with the given address and balance.
    pub fn new(address: Address, balance: u64) -> (a: Account)
        ensures
            a.address@ == address@,
            a.balance == balance,
            a.sequence_number == 0,
            a.modules@.len() == 0,
            address.wf() ==> a.wf(),
    {
        Account { address, balance, sequence_number: 0, modules: Vec::new() }
    }

    /// Record a module name, once: a name already present is not repeated.
    pub fn add_module(&mut self, module_name: String)
        ensures
            old(self).spec_has_module(module_name@) ==> final(self).modules@ == old(self).modules@,
            !old(self).spec_has_module(module_name@) ==> final(self).modules@ == old(
                self,
            ).modules@.push(module_name),
            final(self).address@ == old(self).address@,
            final(self).balance == old(self).balance,
            final(self).sequence_number == old(self).sequence_number,
    {
        let n = self.modules.len();
        let mut i: usize = 0;
        while i < n
            invariant
                i <= n,
                n == self.modules@.len(),
                forall|j: int| 0 <= j < i ==> (#[trigger] self.modules@[j])@ != module_name@,
            decreases n - i,
        {
            if ident::string_eq(&self.modules[i], &module_name) {
                return ;
            }
            i = i + 1;
        }
        self.modules.push(module_name);
    }

    /// Count one more transaction sent by this account.
    pub fn increment_sequence(&mut self)
        requires
            old(self).sequence_number < u64::MAX,
        ensures
            final(self).sequence_number == old(self).sequence_number + 1,
            final(self).address@ == old(self).address@,
            final(self).balance == old(self).balance,
            final(self).modules@ == old(self).modules@,
    {
        self.sequence_number = self.sequence_number + 1;
    }

    /// A copy of this account with the same view.
    pub fn duplicate(&self) -> (r: Account)
        ensures
            r.address@ == self.address@,
            r.balance == self.balance,
            r.sequence_number == self.sequence_number,
            r.modules@.map_values(|m: String| m@) == self.modules@.map_values(|m: String| m@),
            self.wf() ==> r.wf(),
    {
        let mut mods: Vec<String> = Vec::new();
        let n = self.modules.len();
        let mut i: usize = 0;
        while i < n
            invariant
                i <= n,
                n == self.modules@.len(),
                mods@.len() == i,
                forall|j: int| 0 <= j < i ==> (#[trigger] mods@[j])@ == self.modules@[j]@,
            decreases n - i,
        {
            mods.push(ident::clone_string(&self.modules[i]));
            i = i + 1;
        }
        let r = Account {
            address: self.address.duplicate(),
            balance: self.balance,
            sequence_number: self.sequence_number,
            modules: mods,
        };
        proof {
            assert(r.modules@.map_values(|m: String| m@) =~= self.modules@.map_values(
                |m: String| m@,
            ));
        }
        r
    }
}

/// One published bytecode blob, keyed by its module identity.
pub struct ModuleRecord {
    pub id: ModuleId,
    pub bytes: Vec<u8>,
}

/// Is a module of the given identity published in `m`?
pub open spec fn has_module(m: Seq<ModuleRecord>, addr: Seq<u8>, name: Seq<char>) -> bool {
    exists|i: int|
        0 <= i < m.len() && (#[trigger] m[i]).id.address@ == addr && m[i].id.name@ == name
}

/// The index of the module with the given identity.
pub open spec fn module_idx(m: Seq<ModuleRecord>, addr: Seq<u8>, name: Seq<char>) -> int {
    choose|i: int|
        0 <= i < m.len() && (#[trigger] m[i]).id.address@ == addr && m[i].id.name@ == name
}

/// The published bytes of a module identity, empty when absent.
pub open spec fn module_bytes_of(m: Seq<ModuleRecord>, addr: Seq<u8>, name: Seq<char>) -> Seq<u8> {
    if has_module(m, addr, name) {
        m[module_idx(m, addr, name)].bytes@
    } else {
        Seq::empty()
    }
}

/// Module identities are pairwise distinct and well formed.
pub open spec fn modules_wf(m: Seq<ModuleRecord>) -> bool {
    &&& forall|i: int, j: int|
        0 <= i < j < m.len() ==> !((#[trigger] m[i]).id.address@ == (#[trigger] m[j]).id.address@
            && m[i].id.name@ == m[j].id.name@)
    &&& forall|i: int| 0 <= i < m.len() ==> (#[trigger] m[i]).id.wf()
}

/// The total supply allocated at genesis: 10^19 MIST.
pub const TOTAL_SUPPLY_MIST: u64 = 10_000_000_000_000_000_000;

/// The canonical account and module store.
pub struct StateManager {
    pub accounts: Vec<Account>,
    pub modules: Vec<ModuleRecord>,
    pub total_supply: u64,
}

impl StateManager {
    /// Distinct account addresses, distinct module identities.
    pub open spec fn wf(&self) -> bool {
        accounts_wf(self.accounts@) && modules_wf(self.modules@)
    }

    /// The books balance: the sum of all balances equals the total supply.
    pub open spec fn balanced(&self) -> bool {
        sum_bal(self.accounts@) == self.total_supply
    }

    /// Genesis: the developer address holds the whole supply, and the
    /// genesis, standard-library, system and DAO accounts exist with zero
    /// balance.
    pub fn new() -> (s: StateManager)
        ensures
            s.wf(),
            s.balanced(),
            s.total_supply == TOTAL_SUPPLY_MIST,
            s.accounts@.len() == 5,
            s.modules@.len() == 0,
            balance_of(s.accounts@, crate::address::reserved_addr(0xde)) == TOTAL_SUPPLY_MIST,
            balance_of(s.accounts@, crate::address::reserved_addr(0)) == 0,
            balance_of(s.accounts@, crate::address::reserved_addr(1)) == 0,
            balance_of(s.accounts@, crate::address::reserved_addr(2)) == 0,
            balance_of(s.accounts@, crate::address::reserved_addr(0xda)) == 0,
            has_acc(s.accounts@, crate::address::reserved_addr(0)),
            has_acc(s.accounts@, crate::address::reserved_addr(1)),
            has_acc(s.accounts@, crate::address::reserved_addr(2)),
            has_acc(s.accounts@, crate::address::reserved_addr(0xda)),
            has_acc(s.accounts@, crate::address::reserved_addr(0xde)),
            forall|a: Seq<u8>| seq_of(s.accounts@, a) == 0,
            forall|a: Seq<u8>| modules_of(s.accounts@, a) =~= Seq::<Seq<char>>::empty(),
    {
        let mut accounts: Vec<Account> = Vec::new();
        let a0 = Account::new(Address::genesis_address(), 0);
        let a1 = Account::new(Address::std_address(), 0);
        let a2 = Account::new(Address::kanari_system_address(), 0);
        let a3 = Account::new(Address::dao_address(), 0);
        let a4 = Account::new(Address::dev_address(), TOTAL_SUPPLY_MIST);
        proof {
            lemma_sum_push(accounts@, a0);
            lemma_sum_push(accounts@.push(a0), a1);
            lemma_sum_push(accounts@.push(a0).push(a1), a2);
            lemma_sum_push(accounts@.push(a0).push(a1).push(a2), a3);
            lemma_sum_push(accounts@.push(a0).push(a1).push(a2).push(a3), a4);
        }
        accounts.push(a0);
        accounts.push(a1);
        accounts.push(a2);
        accounts.push(a3);
        accounts.push(a4);
        let s = StateManager { accounts, modules: Vec::new(), total_supply: TOTAL_SUPPLY_MIST };
        proof {
            let v = s.accounts@;
            assert forall|i: int, j: int| 0 <= i < j < v.len() implies v[i].address@
                != v[j].address@ by {
                assert(v[0].address@[31] == 0u8);
                assert(v[1].address@[31] == 1u8);
                assert(v[2].address@[31] == 2u8);
                assert(v[3].address@[31] == 0xdau8);
                assert(v[4].address@[31] == 0xdeu8);
            }
            assert(accounts_wf(v));
            assert forall|a: Seq<u8>| seq_of(v, a) == 0 by {
                if has_acc(v, a) {
                    let i = idx_of(v, a);
                    assert(0 <= i < v.len() && v[i].address@ == a);
                }
            }
            assert forall|a: Seq<u8>| modules_of(v, a) =~= Seq::<Seq<char>>::empty() by {
                if has_acc(v, a) {
                    let i = idx_of(v, a);
                    assert(0 <= i < v.len() && v[i].address@ == a);
                    assert(v[i].modules@.len() == 0);
                }
            }
            lemma_at_idx(v, 0);
            lemma_at_idx(v, 1);
            lemma_at_idx(v, 2);
            lemma_at_idx(v, 3);
            lemma_at_idx(v, 4);
        }
        s
    }

    /// The index of the account with the given address, if any.
    pub fn find_account(&self, address: &Address) -> (r: Option<usize>)
        requires
            self.wf(),
        ensures
            r is Some <==> has_acc(self.accounts@, address@),
            r is Some ==> r->0 < self.accounts@.len() && r->0 == idx_of(self.accounts@, address@)
                && self.accounts@[r->0 as int].address@ == address@,
    {
        let n = self.accounts.len();
        let mut i: usize = 0;
        while i < n
            invariant
                i <= n,
                n == self.accounts@.len(),
                self.wf(),
                forall|j: int| 0 <= j < i ==> (#[trigger] self.accounts@[j]).address@ != address@,
            decreases n - i,
        {
            if self.accounts[i].address.eq_addr(address) {
                proof {
                    lemma_at_idx(self.accounts@, i as int);
                }
                return Some(i);
            }
            i = i + 1;
        }
        proof {
            if has_acc(self.accounts@, address@) {
                let j = idx_of(self.accounts@, address@);
                assert(0 <= j < n && self.accounts@[j].address@ == address@);
            }
        }
        None
    }

    /// The account with the given address.
    pub fn get_account(&self, address: &Address) -> (r: Option<&Account>)
        requires
            self.wf(),
        ensures
            r is Some <==> has_acc(self.accounts@, address@),
            r is Some ==> *r->0 == self.accounts@[idx_of(self.accounts@, address@)],
    {
        match self.find_account(address) {
            Some(i) => Some(&self.accounts[i]),
            None => None,
        }
    }

    /// The balance of the given address; zero when the account is missing.
    pub fn get_balance(&self, address: &Address) -> (b: u64)
        requires
            self.wf(),
        ensures
            b == balance_of(self.accounts@, address@),
    {
        match self.find_account(address) {
            Some(i) => self.accounts[i].balance,
            None => 0,
        }
    }

    /// The number of accounts.
    pub fn account_count(&self) -> (n: usize)
        ensures
            n == self.accounts@.len(),
    {
        self.accounts.len()
    }

    /// The index of the account with the given address, creating it with a
    /// zero balance when missing. No balance, sequence number or module list
    /// changes.
    pub fn get_or_create_account(&mut self, address: Address) -> (i: usize)
        requires
            old(self).wf(),
            address.wf(),
        ensures
            final(self).wf(),
            final(self).total_supply == old(self).total_supply,
            final(self).modules@ == old(self).modules@,
            i < final(self).accounts@.len(),
            final(self).accounts@[i as int].address@ == address@,
            i == idx_of(final(self).accounts@, address@),
            has_acc(final(self).accounts@, address@),
            has_acc(old(self).accounts@, address@) ==> final(self).accounts@ == old(
                self,
            ).accounts@,
            !has_acc(old(self).accounts@, address@) ==> final(self).accounts@.len() == old(
                self,
            ).accounts@.len() + 1,
            sum_bal(final(self).accounts@) == sum_bal(old(self).accounts@),
            old(self).balanced() ==> final(self).balanced(),
            forall|a: Seq<u8>|
                balance_of(final(self).accounts@, a) == balance_of(old(self).accounts@, a),
            forall|a: Seq<u8>| seq_of(final(self).accounts@, a) == seq_of(old(self).accounts@, a),
            forall|a: Seq<u8>|
                modules_of(final(self).accounts@, a) =~= modules_of(old(self).accounts@, a),
            forall|a: Seq<u8>|
                has_acc(final(self).accounts@, a) == (has_acc(old(self).accounts@, a) || a
                    == address@),
    {
        match self.find_account(&address) {
            Some(i) => {
                proof {
                    assert forall|a: Seq<u8>|
                        has_acc(final(self).accounts@, a) == (has_acc(old(self).accounts@, a) || a
                            == address@) by {}
                }
                i
            },
            None => {
                let i = self.accounts.len();
                let fresh = Account::new(address, 0);
                proof {
                    lemma_sum_push(self.accounts@, fresh);
                }
                let ghost pre = self.accounts@;
                self.accounts.push(fresh);
                proof {
                    assert forall|a: Seq<u8>| #![all_triggers] balance_of(self.accounts@, a)
                        == balance_of(pre, a) && seq_of(self.accounts@, a) == seq_of(pre, a)
                        && modules_of(self.accounts@, a) =~= modules_of(pre, a) && has_acc(
                        self.accounts@,
                        a,
                    ) == (has_acc(pre, a) || a == fresh.address@) by {
                        lemma_push_keeps(pre, fresh, a);
                        if a == fresh.address@ {
                            assert(balance_of(pre, a) == 0);
                            assert(seq_of(pre, a) == 0);
                            assert(modules_of(pre, a) =~= Seq::<Seq<char>>::empty());
                            assert(fresh.modules@.map_values(|m: String| m@)
                                =~= Seq::<Seq<char>>::empty());
                        }
                    }
                    lemma_push_keeps(pre, fresh, fresh.address@);
                    lemma_at_idx(self.accounts@, i as int);
                    assert(forall|k: int|
                        0 <= k < self.accounts@.len() ==> (#[trigger] self.accounts@[k]).address.wf());
                }
                i
            },
        }
    }

    /// Move `amount` MIST between accounts. The sender must exist and cover
    /// the amount; the receiver is created when missing; a credit past
    /// `u64::MAX` is refused. On success the sender's sequence number rises
    /// by one. On any error the state is exactly as before.
    pub fn transfer(&mut self, from: &Address, to: &Address, amount: u64) -> (r: Result<
        (),
        StateError,
    >)
        requires
            old(self).wf(),
            to.wf(),
        ensures
            final(self).wf(),
            final(self).total_supply == old(self).total_supply,
            final(self).modules@ == old(self).modules@,
            r is Ok <==> has_acc(old(self).accounts@, from@) && balance_of(
                old(self).accounts@,
                from@,
            ) >= amount && seq_of(old(self).accounts@, from@) < u64::MAX && (from@ == to@
                || balance_of(old(self).accounts@, to@) + amount <= u64::MAX),
            r is Err ==> *final(self) == *old(self) && (!has_acc(old(self).accounts@, from@) ==> r
                == Result::<(), StateError>::Err(StateError::SenderNotFound)) && (has_acc(
                old(self).accounts@,
                from@,
            ) && balance_of(old(self).accounts@, from@) < amount ==> r == Result::<(),
                StateError,
            >::Err(StateError::InsufficientBalance)),
            r is Ok ==> forall|a: Seq<u8>|
                balance_of(final(self).accounts@, a) as int == balance_of(old(self).accounts@, a)
                    - (if a == from@ {
                    amount as int
                } else {
                    0
                }) + (if a == to@ {
                    amount as int
                } else {
                    0
                }),
            r is Ok ==> forall|a: Seq<u8>|
                seq_of(final(self).accounts@, a) as int == seq_of(old(self).accounts@, a) + (
                if a == from@ {
                    1int
                } else {
                    0int
                }),
            forall|a: Seq<u8>|
                modules_of(final(self).accounts@, a) =~= modules_of(old(self).accounts@, a),
            forall|a: Seq<u8>|
                has_acc(final(self).accounts@, a) == (has_acc(old(self).accounts@, a) || (r is Ok
                    && a == to@)),
            sum_bal(final(self).accounts@) == sum_bal(old(self).accounts@),
            old(self).balanced() ==> final(self).balanced(),
    {
        let fi = match self.find_account(from) {
            Some(i) => i,
            None => {
                return Err(StateError::SenderNotFound);
            },
        };
        let sender_balance = self.accounts[fi].balance;
        if sender_balance < amount {
            return Err(StateError::InsufficientBalance);
        }
        let sender_seq = self.accounts[fi].sequence_number;
        if sender_seq == u64::MAX {
            return Err(StateError::SequenceOverflow);
        }
        if from.eq_addr(to) {
            // A self-transfer moves nothing; only the sequence number rises.
            let ghost pre = self.accounts@;
            self.accounts[fi].sequence_number = sender_seq + 1;
            proof {
                let ghost x = self.accounts@[fi as int];
                assert(self.accounts@ =~= pre.update(fi as int, x));
                lemma_sum_update(pre, fi as int, x);
                assert forall|a: Seq<u8>| #![all_triggers] balance_of(self.accounts@, a)
                    == balance_of(pre, a) && seq_of(self.accounts@, a) == (if a == from@ {
                    seq_of(pre, a) + 1
                } else {
                    seq_of(pre, a) as int
                }) && modules_of(self.accounts@, a) =~= modules_of(pre, a) && has_acc(
                    self.accounts@,
                    a,
                ) == has_acc(pre, a) by {
                    lemma_update_keeps(pre, fi as int, x, a);
                    lemma_at_idx(pre, fi as int);
                }
                assert(forall|k: int|
                    0 <= k < self.accounts@.len() ==> (#[trigger] self.accounts@[k]).address.wf());
            }
            return Ok(());
        }
        // Check the credit side before mutating anything.
        let credit_ok: Option<usize> = match self.find_account(to) {
            Some(ti) => {
                let to_balance = self.accounts[ti].balance;
                match to_balance.checked_add(amount) {
                    Some(_) => Some(ti),
                    None => {
                        return Err(StateError::BalanceOverflow);
                    },
                }
            },
            None => {
                // A fresh account receives `amount` directly; amount <= u64::MAX.
                None
            },
        };
        proof {
            lemma_at_idx(old(self).accounts@, fi as int);
        }
        // Debit the sender and count its transaction.
        let ghost pre = self.accounts@;
        self.accounts[fi].balance = sender_balance - amount;
        let ghost mid1 = self.accounts@;
        self.accounts[fi].sequence_number = sender_seq + 1;
        let ghost mid2 = self.accounts@;
        proof {
            let x1 = mid1[fi as int];
            let x2 = mid2[fi as int];
            assert(mid1 =~= pre.update(fi as int, x1));
            assert(mid2 =~= mid1.update(fi as int, x2));
            lemma_sum_update(pre, fi as int, x1);
            lemma_sum_update(mid1, fi as int, x2);
            lemma_at_idx(pre, fi as int);
            assert forall|a: Seq<u8>| #![all_triggers] balance_of(mid2, a) == (if a == from@ {
                balance_of(pre, a) - amount
            } else {
                balance_of(pre, a) as int
            }) && seq_of(mid2, a) == (if a == from@ {
                seq_of(pre, a) + 1
            } else {
                seq_of(pre, a) as int
            }) && modules_of(mid2, a) =~= modules_of(pre, a) && has_acc(mid2, a) == has_acc(
                pre,
                a,
            ) by {
                lemma_update_keeps(pre, fi as int, x1, a);
                lemma_update_keeps(mid1, fi as int, x2, a);
                lemma_at_idx(mid1, fi as int);
            }
        }
        // Credit the receiver.
        match credit_ok {
            Some(ti) => {
                let to_balance = self.accounts[ti].balance;
                self.accounts[ti].balance = to_balance + amount;
                proof {
                    let y = self.accounts@[ti as int];
                    assert(self.accounts@ =~= mid2.update(ti as int, y));
                    lemma_sum_update(mid2, ti as int, y);
                    lemma_at_idx(mid2, ti as int);
                    lemma_at_idx(pre, ti as int);
                    assert forall|a: Seq<u8>| #![all_triggers] balance_of(self.accounts@, a) == (
                    if a == to@ {
                        balance_of(mid2, a) + amount
                    } else {
                        balance_of(mid2, a) as int
                    }) && seq_of(self.accounts@, a) == seq_of(mid2, a) && modules_of(
                        self.accounts@,
                        a,
                    ) =~= modules_of(mid2, a) && has_acc(self.accounts@, a) == has_acc(
                        mid2,
                        a,
                    ) by {
                        lemma_update_keeps(mid2, ti as int, y, a);
                    }
                    assert(forall|k: int|
                        0 <= k < self.accounts@.len() ==> (#[trigger] self.accounts@[k]).address.wf());
                }
                Ok(())
            },
            None => {
                let fresh = Account::new(to.duplicate(), amount);
                proof {
                    lemma_sum_push(mid2, fresh);
                }
                self.accounts.push(fresh);
                proof {
                    assert forall|a: Seq<u8>| #![all_triggers] balance_of(self.accounts@, a) == (
                    if a == to@ {
                        balance_of(mid2, a) + amount
                    } else {
                        balance_of(mid2, a) as int
                    }) && seq_of(self.accounts@, a) == seq_of(mid2, a) && modules_of(
                        self.accounts@,
                        a,
                    ) =~= modules_of(mid2, a) && has_acc(self.accounts@, a) == (has_acc(mid2, a)
                        || a == to@) by {
                        lemma_push_keeps(mid2, fresh, a);
                        if a == to@ {
                            assert(balance_of(mid2, a) == 0);
                            assert(seq_of(mid2, a) == 0);
                            assert(modules_of(mid2, a) =~= Seq::<Seq<char>>::empty());
                            assert(fresh.modules@.map_values(|m: String| m@)
                                =~= Seq::<Seq<char>>::empty());
                        }
                    }
                    lemma_push_keeps(mid2, fresh, to@);
                    assert(forall|k: int|
                        0 <= k < self.accounts@.len() ==> (#[trigger] self.accounts@[k]).address.wf());
                }
                Ok(())
            },
        }
    }

    /// Create `amount` MIST at the given address, raising the total supply by
    /// the same amount. Refused when the account's balance or the total
    /// supply would pass `u64::MAX`.
    pub fn mint(&mut self, to: &Address, amount: u64) -> (r: Result<(), StateError>)
        requires
            old(self).wf(),
            to.wf(),
        ensures
            final(self).wf(),
            final(self).modules@ == old(self).modules@,
            r is Ok <==> old(self).total_supply + amount <= u64::MAX && balance_of(
                old(self).accounts@,
                to@,
            ) + amount <= u64::MAX,
            r is Err ==> *final(self) == *old(self),
            r is Ok ==> final(self).total_supply == old(self).total_supply + amount,
            r is Ok ==> forall|a: Seq<u8>|
                balance_of(final(self).accounts@, a) as int == balance_of(old(self).accounts@, a)
                    + (if a == to@ {
                    amount as int
                } else {
                    0
                }),
            forall|a: Seq<u8>| seq_of(final(self).accounts@, a) == seq_of(old(self).accounts@, a),
            forall|a: Seq<u8>|
                modules_of(final(self).accounts@, a) =~= modules_of(old(self).accounts@, a),
            r is Ok ==> sum_bal(final(self).accounts@) == sum_bal(old(self).accounts@) + amount,
            old(self).balanced() ==> final(self).balanced(),
    {
        let new_supply = match self.total_supply.checked_add(amount) {
            Some(v) => v,
            None => {
                return Err(StateError::SupplyOverflow);
            },
        };
        let bal = self.get_balance(to);
        let new_bal = match bal.checked_add(amount) {
            Some(v) => v,
            None => {
                return Err(StateError::BalanceOverflow);
            },
        };
        let i = self.get_or_create_account(to.duplicate());
        let ghost mid = self.accounts@;
        proof {
            assert(self.accounts@[i as int].balance == balance_of(self.accounts@, to@));
        }
        self.accounts[i].balance = new_bal;
        self.total_supply = new_supply;
        proof {
            let x = self.accounts@[i as int];
            assert(self.accounts@ =~= mid.update(i as int, x));
            lemma_sum_update(mid, i as int, x);
            lemma_at_idx(mid, i as int);
            assert forall|a: Seq<u8>| #![all_triggers] balance_of(self.accounts@, a) == (if a
                == to@ {
                balance_of(mid, a) + amount
            } else {
                balance_of(mid, a) as int
            }) && seq_of(self.accounts@, a) == seq_of(mid, a) && modules_of(self.accounts@, a)
                =~= modules_of(mid, a) by {
                lemma_update_keeps(mid, i as int, x, a);
            }
            assert(forall|k: int|
                0 <= k < self.accounts@.len() ==> (#[trigger] self.accounts@[k]).address.wf());
        }
        Ok(())
    }

    /// Destroy `amount` MIST held by the given account, lowering the total
    /// supply by the same amount. The account must exist and cover the
    /// amount.
    pub fn burn(&mut self, from: &Address, amount: u64) -> (r: Result<(), StateError>)
        requires
            old(self).wf(),
            old(self).balanced(),
        ensures
            final(self).wf(),
            final(self).modules@ == old(self).modules@,
            r is Ok <==> has_acc(old(self).accounts@, from@) && balance_of(
                old(self).accounts@,
                from@,
            ) >= amount,
            r is Err ==> *final(self) == *old(self) && (!has_acc(old(self).accounts@, from@) ==> r
                == Result::<(), StateError>::Err(StateError::AccountNotFound)),
            r is Ok ==> final(self).total_supply == old(self).total_supply - amount,
            r is Ok ==> forall|a: Seq<u8>|
                balance_of(final(self).accounts@, a) as int == balance_of(old(self).accounts@, a)
                    - (if a == from@ {
                    amount as int
                } else {
                    0
                }),
            forall|a: Seq<u8>| seq_of(final(self).accounts@, a) == seq_of(old(self).accounts@, a),
            forall|a: Seq<u8>|
                modules_of(final(self).accounts@, a) =~= modules_of(old(self).accounts@, a),
            final(self).balanced(),
    {
        let i = match self.find_account(from) {
            Some(i) => i,
            None => {
                return Err(StateError::AccountNotFound);
            },
        };
        let bal = self.accounts[i].balance;
        if bal < amount {
            return Err(StateError::InsufficientBalance);
        }
        proof {
            lemma_sum_ge_elem(self.accounts@, i as int);
            lemma_sum_nonneg(self.accounts@);
        }
        let ghost pre = self.accounts@;
        self.accounts[i].balance = bal - amount;
        self.total_supply = self.total_supply - amount;
        proof {
            let x = self.accounts@[i as int];
            assert(self.accounts@ =~= pre.update(i as int, x));
            lemma_sum_update(pre, i as int, x);
            lemma_at_idx(pre, i as int);
            assert forall|a: Seq<u8>| #![all_triggers] balance_of(self.accounts@, a) == (if a
                == from@ {
                balance_of(pre, a) - amount
            } else {
                balance_of(pre, a) as int
            }) && seq_of(self.accounts@, a) == seq_of(pre, a) && modules_of(self.accounts@, a)
                =~= modules_of(pre, a) by {
                lemma_update_keeps(pre, i as int, x, a);
            }
            assert(forall|k: int|
                0 <= k < self.accounts@.len() ==> (#[trigger] self.accounts@[k]).address.wf());
        }
        Ok(())
    }

    /// Credit gas fees to the DAO address, creating its account if missing.
    /// This is the credit half of a fee settlement: the caller debits the
    /// payer by the same amount, so the pair conserves the sum of balances.
    pub fn collect_gas(&mut self, gas_amount: u64) -> (r: Result<(), StateError>)
        requires
            old(self).wf(),
        ensures
            final(self).wf(),
            final(self).total_supply == old(self).total_supply,
            final(self).modules@ == old(self).modules@,
            r is Ok <==> balance_of(old(self).accounts@, crate::address::reserved_addr(0xda))
                + gas_amount <= u64::MAX,
            r is Err ==> *final(self) == *old(self),
            r is Ok ==> forall|a: Seq<u8>|
                balance_of(final(self).accounts@, a) as int == balance_of(old(self).accounts@, a)
                    + (if a == crate::address::reserved_addr(0xda) {
                    gas_amount as int
                } else {
                    0
                }),
            forall|a: Seq<u8>| seq_of(final(self).accounts@, a) == seq_of(old(self).accounts@, a),
            forall|a: Seq<u8>|
                modules_of(final(self).accounts@, a) =~= modules_of(old(self).accounts@, a),
            r is Ok ==> forall|a: Seq<u8>|
                has_acc(final(self).accounts@, a) == (has_acc(old(self).accounts@, a) || a
                    == crate::address::reserved_addr(0xda)),
            r is Err ==> forall|a: Seq<u8>|
                has_acc(final(self).accounts@, a) == has_acc(old(self).accounts@, a),
            r is Ok ==> sum_bal(final(self).accounts@) == sum_bal(old(self).accounts@)
                + gas_amount,
    {
        let dao = Address::dao_address();
        let bal = self.get_balance(&dao);
        let new_bal = match bal.checked_add(gas_amount) {
            Some(v) => v,
            None => {
                return Err(StateError::BalanceOverflow);
            },
        };
        let i = self.get_or_create_account(dao);
        let ghost mid = self.accounts@;
        proof {
            assert(self.accounts@[i as int].balance == balance_of(self.accounts@,
                crate::address::reserved_addr(0xda)));
        }
        self.accounts[i].balance = new_bal;
        proof {
            let x = self.accounts@[i as int];
            assert(self.accounts@ =~= mid.update(i as int, x));
            lemma_sum_update(mid, i as int, x);
            lemma_at_idx(mid, i as int);
            assert forall|a: Seq<u8>| #![all_triggers] balance_of(self.accounts@, a) == (if a
                == crate::address::reserved_addr(0xda) {
                balance_of(mid, a) + gas_amount
            } else {
                balance_of(mid, a) as int
            }) && seq_of(self.accounts@, a) == seq_of(mid, a) && modules_of(self.accounts@, a)
                =~= modules_of(mid, a) && has_acc(self.accounts@, a) == has_acc(mid, a) by {
                lemma_update_keeps(mid, i as int, x, a);
            }
            assert(forall|k: int|
                0 <= k < self.accounts@.len() ==> (#[trigger] self.accounts@[k]).address.wf());
        }
        Ok(())
    }

    /// Take `amount` MIST from an account without touching its sequence
    /// number. This is the debit half of a fee settlement.
    pub fn deduct_balance(&mut self, from: &Address, amount: u64) -> (r: Result<(), StateError>)
        requires
            old(self).wf(),
        ensures
            final(self).wf(),
            final(self).total_supply == old(self).total_supply,
            final(self).modules@ == old(self).modules@,
            r is Ok <==> has_acc(old(self).accounts@, from@) && balance_of(
                old(self).accounts@,
                from@,
            ) >= amount,
            r is Err ==> *final(self) == *old(self),
            r is Ok ==> forall|a: Seq<u8>|
                balance_of(final(self).accounts@, a) as int == balance_of(old(self).accounts@, a)
                    - (if a == from@ {
                    amount as int
                } else {
                    0int
                }),
            forall|a: Seq<u8>| seq_of(final(self).accounts@, a) == seq_of(old(self).accounts@, a),
            forall|a: Seq<u8>|
                modules_of(final(self).accounts@, a) =~= modules_of(old(self).accounts@, a),
            forall|a: Seq<u8>|
                has_acc(final(self).accounts@, a) == has_acc(old(self).accounts@, a),
            r is Ok ==> sum_bal(final(self).accounts@) == sum_bal(old(self).accounts@) - amount,
    {
        let i = match self.find_account(from) {
            Some(i) => i,
            None => {
                return Err(StateError::AccountNotFound);
            },
        };
        let bal = self.accounts[i].balance;
        if bal < amount {
            return Err(StateError::InsufficientBalance);
        }
        let ghost pre = self.accounts@;
        self.accounts[i].balance = bal - amount;
        proof {
            let x = self.accounts@[i as int];
            assert(self.accounts@ =~= pre.update(i as int, x));
            lemma_sum_update(pre, i as int, x);
            lemma_at_idx(pre, i as int);
            assert forall|a: Seq<u8>| #![all_triggers] balance_of(self.accounts@, a) == (if a
                == from@ {
                balance_of(pre, a) - amount
            } else {
                balance_of(pre, a) as int
            }) && seq_of(self.accounts@, a) == seq_of(pre, a) && modules_of(self.accounts@, a)
                =~= modules_of(pre, a) && has_acc(self.accounts@, a) == has_acc(pre, a) by {
                lemma_update_keeps(pre, i as int, x, a);
            }
            assert(forall|k: int|
                0 <= k < self.accounts@.len() ==> (#[trigger] self.accounts@[k]).address.wf());
        }
        Ok(())
    }

    /// Count one transaction against an account's sequence number.
    pub fn bump_sequence(&mut self, who: &Address) -> (r: Result<(), StateError>)
        requires
            old(self).wf(),
        ensures
            final(self).wf(),
            final(self).total_supply == old(self).total_supply,
            final(self).modules@ == old(self).modules@,
            r is Ok <==> has_acc(old(self).accounts@, who@) && seq_of(old(self).accounts@, who@)
                < u64::MAX,
            r is Err ==> *final(self) == *old(self),
            r is Ok ==> forall|a: Seq<u8>|
                seq_of(final(self).accounts@, a) as int == seq_of(old(self).accounts@, a) + (
                if a == who@ {
                    1int
                } else {
                    0int
                }),
            forall|a: Seq<u8>|
                balance_of(final(self).accounts@, a) == balance_of(old(self).accounts@, a),
            forall|a: Seq<u8>|
                modules_of(final(self).accounts@, a) =~= modules_of(old(self).accounts@, a),
            forall|a: Seq<u8>|
                has_acc(final(self).accounts@, a) == has_acc(old(self).accounts@, a),
            sum_bal(final(self).accounts@) == sum_bal(old(self).accounts@),
            old(self).balanced() ==> final(self).balanced(),
    {
        let i = match self.find_account(who) {
            Some(i) => i,
            None => {
                return Err(StateError::AccountNotFound);
            },
        };
        let sq = self.accounts[i].sequence_number;
        if sq == u64::MAX {
            return Err(StateError::SequenceOverflow);
        }
        let ghost pre = self.accounts@;
        self.accounts[i].sequence_number = sq + 1;
        proof {
            let x = self.accounts@[i as int];
            assert(self.accounts@ =~= pre.update(i as int, x));
            lemma_sum_update(pre, i as int, x);
            lemma_at_idx(pre, i as int);
            assert forall|a: Seq<u8>| #![all_triggers] seq_of(self.accounts@, a) as int == (if a
                == who@ {
                seq_of(pre, a) + 1
            } else {
                seq_of(pre, a) as int
            }) && balance_of(self.accounts@, a) == balance_of(pre, a) && modules_of(
                self.accounts@,
                a,
            ) =~= modules_of(pre, a) && has_acc(self.accounts@, a) == has_acc(pre, a) by {
                lemma_update_keeps(pre, i as int, x, a);
            }
            assert(forall|k: int|
                0 <= k < self.accounts@.len() ==> (#[trigger] self.accounts@[k]).address.wf());
        }
        Ok(())
    }

    /// Record a module name on an account, creating the account when
    /// missing. The name must not be listed yet.
    pub fn note_module(&mut self, who: &Address, name: String) -> (r: Result<(), StateError>)
        requires
            old(self).wf(),
            who.wf(),
        ensures
            final(self).wf(),
            final(self).total_supply == old(self).total_supply,
            final(self).modules@ == old(self).modules@,
            r is Ok <==> !modules_of(old(self).accounts@, who@).contains(name@),
            r is Err ==> *final(self) == *old(self) && r == Result::<(), StateError>::Err(
                StateError::ModuleCollision,
            ),
            r is Ok ==> forall|a: Seq<u8>|
                modules_of(final(self).accounts@, a) =~= if a == who@ {
                    modules_of(old(self).accounts@, a).push(name@)
                } else {
                    modules_of(old(self).accounts@, a)
                },
            forall|a: Seq<u8>|
                balance_of(final(self).accounts@, a) == balance_of(old(self).accounts@, a),
            forall|a: Seq<u8>| seq_of(final(self).accounts@, a) == seq_of(old(self).accounts@, a),
            r is Ok ==> forall|a: Seq<u8>|
                has_acc(final(self).accounts@, a) == (has_acc(old(self).accounts@, a) || a
                    == who@),
            sum_bal(final(self).accounts@) == sum_bal(old(self).accounts@),
            old(self).balanced() ==> final(self).balanced(),
    {
        // Refuse a name the account already lists.
        let dup = match self.find_account(who) {
            Some(i) => {
                let mn = self.accounts[i].modules.len();
                let mut t: usize = 0;
                let mut found = false;
                while t < mn && !found
                    invariant
                        t <= mn,
                        i < self.accounts@.len(),
                        mn == self.accounts@[i as int].modules@.len(),
                        found ==> t >= 1 && self.accounts@[i as int].modules@[t - 1]@ == name@,
                        !found ==> forall|t2: int|
                            0 <= t2 < t ==> (#[trigger] self.accounts@[i as int].modules@[t2])@
                                != name@,
                    decreases mn - t,
                {
                    if ident::string_eq(&self.accounts[i].modules[t], &name) {
                        found = true;
                    }
                    t = t + 1;
                }
                proof {
                    lemma_at_idx(self.accounts@, i as int);
                    let ms = modules_of(self.accounts@, who@);
                    assert(ms == self.accounts@[i as int].modules@.map_values(|m: String| m@));
                    if found {
                        assert(ms[t - 1] == name@);
                        assert(ms.contains(name@));
                    } else {
                        if ms.contains(name@) {
                            let t2 = choose|t2: int| 0 <= t2 < ms.len() && ms[t2] == name@;
                            assert(self.accounts@[i as int].modules@[t2]@ == name@);
                        }
                    }
                }
                found
            },
            None => {
                proof {
                    assert(modules_of(self.accounts@, who@) =~= Seq::<Seq<char>>::empty());
                    if modules_of(self.accounts@, who@).contains(name@) {
                        assert(false);
                    }
                }
                false
            },
        };
        if dup {
            return Err(StateError::ModuleCollision);
        }
        let ghost base = self.accounts@;
        let i = self.get_or_create_account(who.duplicate());
        let ghost mid = self.accounts@;
        let sm = self.accounts[i].modules.len();
        let mut mods: Vec<String> = Vec::new();
        let mut k: usize = 0;
        while k < sm
            invariant
                k <= sm,
                i < self.accounts@.len(),
                sm == self.accounts@[i as int].modules@.len(),
                mods@.len() == k,
                forall|t: int|
                    0 <= t < k ==> (#[trigger] mods@[t])@ == self.accounts@[i as int].modules@[t]@,
            decreases sm - k,
        {
            mods.push(ident::clone_string(&self.accounts[i].modules[k]));
            k = k + 1;
        }
        mods.push(name);
        let bal = self.accounts[i].balance;
        let sq = self.accounts[i].sequence_number;
        let landed = Account {
            address: who.duplicate(),
            balance: bal,
            sequence_number: sq,
            modules: mods,
        };
        self.accounts[i] = landed;
        proof {
            let x = self.accounts@[i as int];
            assert(self.accounts@ =~= mid.update(i as int, x));
            lemma_sum_update(mid, i as int, x);
            lemma_at_idx(mid, i as int);
            assert(x.modules@.map_values(|m: String| m@) =~= modules_of(mid, who@).push(
                x.modules@.last()@,
            ));
            assert(modules_of(mid, who@) =~= modules_of(base, who@));
            assert forall|a: Seq<u8>| #![all_triggers] modules_of(self.accounts@, a) =~= (if a
                == who@ {
                modules_of(base, a).push(x.modules@.last()@)
            } else {
                modules_of(base, a)
            }) && balance_of(self.accounts@, a) == balance_of(mid, a) && seq_of(
                self.accounts@,
                a,
            ) == seq_of(mid, a) && has_acc(self.accounts@, a) == has_acc(mid, a) by {
                lemma_update_keeps(mid, i as int, x, a);
            }
            assert(forall|k2: int|
                0 <= k2 < self.accounts@.len() ==> (#[trigger] self.accounts@[k2]).address.wf());
        }
        Ok(())
    }

    /// The published bytes under a module identity.
    pub fn get_module(&self, id: &ModuleId) -> (r: Option<&Vec<u8>>)
        requires
            self.wf(),
        ensures
            r is Some <==> has_module(self.modules@, id.address@, id.name@),
            r is Some ==> r->0@ == module_bytes_of(self.modules@, id.address@, id.name@),
    {
        let n = self.modules.len();
        let mut i: usize = 0;
        while i < n
            invariant
                i <= n,
                n == self.modules@.len(),
                self.wf(),
                forall|j: int|
                    0 <= j < i ==> !((#[trigger] self.modules@[j]).id.address@ == id.address@
                        && self.modules@[j].id.name@ == id.name@),
            decreases n - i,
        {
            if self.modules[i].id.eq_id(id) {
                proof {
                    let m = self.modules@;
                    assert(has_module(m, id.address@, id.name@));
                    let k = module_idx(m, id.address@, id.name@);
                    assert(0 <= k < m.len() && m[k].id.address@ == id.address@ && m[k].id.name@
                        == id.name@);
                    if k < i {
                        assert(!(m[k].id.address@ == id.address@ && m[k].id.name@ == id.name@));
                    }
                    if i < k {
                        assert(!(m[k].id.address@ == m[i as int].id.address@ && m[k].id.name@ == m[
                            i as int].id.name@));
                    }
                }
                return Some(&self.modules[i].bytes);
            }
            i = i + 1;
        }
        proof {
            if has_module(self.modules@, id.address@, id.name@) {
                let k = module_idx(self.modules@, id.address@, id.name@);
                assert(0 <= k < n && self.modules@[k].id.address@ == id.address@
                    && self.modules@[k].id.name@ == id.name@);
            }
        }
        None
    }

    /// Store module bytes under an identity. At most one blob may ever be
    /// published per identity: a second publication is refused.
    pub fn add_module_record(&mut self, id: ModuleId, bytes: Vec<u8>) -> (r: Result<
        (),
        StateError,
    >)
        requires
            old(self).wf(),
            id.wf(),
        ensures
            final(self).wf(),
            final(self).accounts@ == old(self).accounts@,
            final(self).total_supply == old(self).total_supply,
            r is Ok <==> !has_module(old(self).modules@, id.address@, id.name@),
            r is Err ==> *final(self) == *old(self) && r == Result::<(), StateError>::Err(
                StateError::ModuleCollision,
            ),
            r is Ok ==> final(self).modules@.len() == old(self).modules@.len() + 1,
            r is Ok ==> forall|a: Seq<u8>, nm: Seq<char>|
                has_module(final(self).modules@, a, nm) == (has_module(old(self).modules@, a, nm)
                    || (a == id.address@ && nm == id.name@)),
            r is Ok ==> forall|a: Seq<u8>, nm: Seq<char>|
                module_bytes_of(final(self).modules@, a, nm) == if a == id.address@ && nm
                    == id.name@ {
                    bytes@
                } else {
                    module_bytes_of(old(self).modules@, a, nm)
                },
    {
        let n = self.modules.len();
        let mut i: usize = 0;
        while i < n
            invariant
                i <= n,
                n == self.modules@.len(),
                self.wf(),
                *self == *old(self),
                forall|j: int|
                    0 <= j < i ==> !((#[trigger] self.modules@[j]).id.address@ == id.address@
                        && self.modules@[j].id.name@ == id.name@),
            decreases n - i,
        {
            if self.modules[i].id.eq_id(&id) {
                proof {
                    assert(has_module(self.modules@, id.address@, id.name@));
                }
                return Err(StateError::ModuleCollision);
            }
            i = i + 1;
        }
        proof {
            if has_module(self.modules@, id.address@, id.name@) {
                let k = module_idx(self.modules@, id.address@, id.name@);
                assert(0 <= k < n && self.modules@[k].id.address@ == id.address@
                    && self.modules@[k].id.name@ == id.name@);
            }
        }
        let ghost pre = self.modules@;
        self.modules.push(ModuleRecord { id, bytes });
        proof {
            let m = self.modules@;
            assert(forall|k: int| 0 <= k < pre.len() ==> m[k] == pre[k]);
            assert forall|a: Seq<u8>, nm: Seq<char>| #![all_triggers] has_module(m, a, nm) == (
            has_module(pre, a, nm) || (a == m[pre.len() as int].id.address@ && nm == m[
                pre.len() as int].id.name@)) && module_bytes_of(m, a, nm) == (if a == m[
                pre.len() as int].id.address@ && nm == m[pre.len() as int].id.name@ {
                m[pre.len() as int].bytes@
            } else {
                module_bytes_of(pre, a, nm)
            }) by {
                lemma_module_push(pre, m[pre.len() as int], a, nm);
            }
            assert(modules_wf(m)) by {
                lemma_module_push(pre, m[pre.len() as int], m[pre.len() as int].id.address@, m[
                    pre.len() as int].id.name@);
            }
        }
        Ok(())
    }

    /// Apply a change-set atomically: either every entry lands, or the state
    /// is exactly as before. Validation refuses any entry whose balance would
    /// leave the `u64` range, whose sequence number would wrap, or whose
    /// added module names collide, and any change-set whose deltas do not sum
    /// to zero.
    pub fn apply(&mut self, cs: &ChangeSet) -> (r: Result<(), StateError>)
        requires
            old(self).wf(),
            cs.wf(),
        ensures
            final(self).wf(),
            final(self).total_supply == old(self).total_supply,
            final(self).modules@ == old(self).modules@,
            r is Ok <==> applicable(old(self).accounts@, cs.account_changes@),
            r is Err ==> *final(self) == *old(self),
            r is Ok ==> forall|a: Seq<u8>|
                balance_of(final(self).accounts@, a) as int == balance_of(old(self).accounts@, a)
                    + changeset::delta_of(cs.account_changes@, a),
            r is Ok ==> forall|a: Seq<u8>|
                seq_of(final(self).accounts@, a) as int == seq_of(old(self).accounts@, a)
                    + changeset::inc_of(cs.account_changes@, a),
            r is Ok ==> forall|a: Seq<u8>|
                modules_of(final(self).accounts@, a) =~= modules_of(old(self).accounts@, a)
                    + changeset::added_of(cs.account_changes@, a),
            forall|a: Seq<u8>|
                has_acc(final(self).accounts@, a) == (has_acc(old(self).accounts@, a) || (r is Ok
                    && has_change(cs.account_changes@, a))),
            sum_bal(final(self).accounts@) == sum_bal(old(self).accounts@),
            old(self).balanced() ==> final(self).balanced(),
    {
        let ghost base = self.accounts@;
        let ghost cc = cs.account_changes@;
        let n = cs.account_changes.len();
        // First pass: validate everything against the untouched state.
        let mut net: i128 = 0;
        let mut j: usize = 0;
        while j < n
            invariant
                j <= n,
                n == cc.len(),
                cc == cs.account_changes@,
                *self == *old(self),
                self.wf(),
                cs.wf(),
                base == self.accounts@,
                net == changeset::net_delta(cc.take(j as int)),
                -0x8000_0000_0000_0000_i128 * (j as i128) <= net <= 0x7fff_ffff_ffff_ffff_i128 * (
                j as i128),
                forall|j2: int| 0 <= j2 < j ==> applicable_entry(base, #[trigger] cc[j2]),
            decreases n - j,
        {
            let c = &cs.account_changes[j];
            let bal = self.get_balance(&c.address);
            let wide = (bal as i128) + (c.balance_delta as i128);
            if wide < 0 {
                return Err(StateError::InsufficientBalance);
            }
            if wide > (u64::MAX as i128) {
                return Err(StateError::BalanceOverflow);
            }
            let sq = match self.find_account(&c.address) {
                Some(i) => self.accounts[i].sequence_number,
                None => 0,
            };
            if sq.checked_add(c.sequence_increment).is_none() {
                return Err(StateError::SequenceOverflow);
            }
            // Added names must be fresh and pairwise distinct.
            let mk = c.modules_added.len();
            let mut k: usize = 0;
            while k < mk
                invariant
                    k <= mk,
                    cc == cs.account_changes@,
                    j < cc.len(),
                    mk == cc[j as int].modules_added@.len(),
                    *self == *old(self),
                    self.wf(),
                    cs.wf(),
                    base == self.accounts@,
                    forall|k2: int|
                        0 <= k2 < k ==> !modules_of(base, cc[j as int].address@).contains(
                            (#[trigger] cc[j as int].modules_added@[k2])@,
                        ),
                    forall|k1: int, k2: int|
                        0 <= k1 < k2 < k ==> cc[j as int].modules_added@[k1]@ != cc[
                            j as int].modules_added@[k2]@,
                decreases mk - k,
            {
                let name = &cs.account_changes[j].modules_added[k];
                match self.find_account(&cs.account_changes[j].address) {
                    Some(i) => {
                        let mn = self.accounts[i].modules.len();
                        let mut t: usize = 0;
                        while t < mn
                            invariant
                                t <= mn,
                                i < self.accounts@.len(),
                                mn == self.accounts@[i as int].modules@.len(),
                                name@ == cc[j as int].modules_added@[k as int]@,
                                cc == cs.account_changes@,
                                j < cc.len(),
                                k < cc[j as int].modules_added@.len(),
                                *self == *old(self),
                                self.wf(),
                                cs.wf(),
                                base == self.accounts@,
                                has_acc(base, cc[j as int].address@),
                                i == idx_of(base, cc[j as int].address@),
                                forall|t2: int|
                                    0 <= t2 < t ==> (#[trigger] self.accounts@[
                                        i as int].modules@[t2])@ != name@,
                            decreases mn - t,
                        {
                            if ident::string_eq(&self.accounts[i].modules[t], name) {
                                proof {
                                    let ms = modules_of(base, cc[j as int].address@);
                                    assert(ms == self.accounts@[i as int].modules@.map_values(
                                        |m: String| m@,
                                    ));
                                    assert(ms[t as int] == name@);
                                    assert(ms.contains(cc[j as int].modules_added@[k as int]@));
                                    assert(!applicable_entry(base, cc[j as int]));
                                }
                                return Err(StateError::ModuleCollision);
                            }
                            t = t + 1;
                        }
                        proof {
                            let ms = modules_of(base, cc[j as int].address@);
                            assert(i == idx_of(base, cc[j as int].address@));
                            assert(ms == self.accounts@[i as int].modules@.map_values(
                                |m: String| m@,
                            ));
                            if ms.contains(name@) {
                                let t2 = choose|t2: int| 0 <= t2 < ms.len() && ms[t2] == name@;
                                assert(self.accounts@[i as int].modules@[t2]@ == name@);
                            }
                        }
                    },
                    None => {
                        proof {
                            assert(modules_of(base, cc[j as int].address@)
                                =~= Seq::<Seq<char>>::empty());
                        }
                    },
                }
                // Distinct from the earlier names of this same entry.
                let mut t: usize = 0;
                while t < k
                    invariant
                        t <= k,
                        cc == cs.account_changes@,
                        j < cc.len(),
                        k < cc[j as int].modules_added@.len(),
                        name@ == cc[j as int].modules_added@[k as int]@,
                        *self == *old(self),
                        self.wf(),
                        cs.wf(),
                        base == self.accounts@,
                        forall|t2: int|
                            0 <= t2 < t ==> cc[j as int].modules_added@[t2]@ != name@,
                    decreases k - t,
                {
                    if ident::string_eq(&cs.account_changes[j].modules_added[t], name) {
                        return Err(StateError::ModuleCollision);
                    }
                    t = t + 1;
                }
                k = k + 1;
            }
            proof {
                assert(cc.take(j + 1) =~= cc.take(j as int).push(cc[j as int]));
                changeset::lemma_net_push(cc.take(j as int), cc[j as int]);
                assert(applicable_entry(base, cc[j as int]));
            }
            net = net + (c.balance_delta as i128);
            j = j + 1;
        }
        proof {
            assert(cc.take(n as int) =~= cc);
        }
        if net != 0 {
            proof {
                assert(changeset::net_delta(cc) != 0);
            }
            return Err(StateError::UnbalancedChangeSet);
        }
        // Second pass: land every entry.
        let mut j: usize = 0;
        while j < n
            invariant
                j <= n,
                n == cc.len(),
                cc == cs.account_changes@,
                self.wf(),
                cs.wf(),
                self.total_supply == old(self).total_supply,
                self.modules@ == old(self).modules@,
                forall|j2: int| 0 <= j2 < cc.len() ==> applicable_entry(base, #[trigger] cc[j2]),
                forall|a: Seq<u8>|
                    balance_of(self.accounts@, a) as int == balance_of(base, a)
                        + changeset::delta_of(cc.take(j as int), a),
                forall|a: Seq<u8>|
                    seq_of(self.accounts@, a) as int == seq_of(base, a) + changeset::inc_of(
                        cc.take(j as int),
                        a,
                    ),
                forall|a: Seq<u8>|
                    modules_of(self.accounts@, a) =~= modules_of(base, a) + changeset::added_of(
                        cc.take(j as int),
                        a,
                    ),
                forall|a: Seq<u8>|
                    has_acc(self.accounts@, a) == (has_acc(base, a) || has_change(
                        cc.take(j as int),
                        a,
                    )),
                sum_bal(self.accounts@) == sum_bal(base) + changeset::net_delta(cc.take(j as int)),
            decreases n - j,
        {
            proof {
                if has_change(cc.take(j as int), cc[j as int].address@) {
                    let k = changeset::chg_idx(cc.take(j as int), cc[j as int].address@);
                    assert(0 <= k < j && cc[k].address@ == cc[j as int].address@);
                    assert(false);
                }
                assert(changeset::delta_of(cc.take(j as int), cc[j as int].address@) == 0);
                assert(changeset::inc_of(cc.take(j as int), cc[j as int].address@) == 0);
                assert(changeset::added_of(cc.take(j as int), cc[j as int].address@)
                    =~= Seq::<Seq<char>>::empty());
                assert(applicable_entry(base, cc[j as int]));
            }
            let ghost pre = self.accounts@;
            let addr = cs.account_changes[j].address.duplicate();
            let ghost av = addr@;
            let i = self.get_or_create_account(addr);
            let ghost s0 = self.accounts@;
            let bal = self.accounts[i].balance;
            let sq = self.accounts[i].sequence_number;
            proof {
                assert(bal == balance_of(s0, av));
                assert(balance_of(s0, av) == balance_of(pre, av));
                assert(sq == seq_of(s0, av));
                assert(modules_of(s0, av) =~= modules_of(pre, av));
                assert(modules_of(pre, av) =~= modules_of(base, av) + changeset::added_of(
                    cc.take(j as int),
                    av,
                ));
                assert(modules_of(base, av) + Seq::<Seq<char>>::empty() =~= modules_of(base, av));
            }
            let nb = ((bal as i128) + (cs.account_changes[j].balance_delta as i128)) as u64;
            let ns = sq + cs.account_changes[j].sequence_increment;
            // The account's module list with the added names appended.
            let mut mods: Vec<String> = Vec::new();
            let sm = self.accounts[i].modules.len();
            let mut k: usize = 0;
            while k < sm
                invariant
                    k <= sm,
                    i < self.accounts@.len(),
                    sm == self.accounts@[i as int].modules@.len(),
                    mods@.len() == k,
                    forall|t: int|
                        0 <= t < k ==> (#[trigger] mods@[t])@ == self.accounts@[
                            i as int].modules@[t]@,
                decreases sm - k,
            {
                mods.push(ident::clone_string(&self.accounts[i].modules[k]));
                k = k + 1;
            }
            let om = cs.account_changes[j].modules_added.len();
            let mut k: usize = 0;
            while k < om
                invariant
                    k <= om,
                    cc == cs.account_changes@,
                    j < cc.len(),
                    om == cc[j as int].modules_added@.len(),
                    i < self.accounts@.len(),
                    sm == self.accounts@[i as int].modules@.len(),
                    mods@.len() == sm + k,
                    forall|t: int|
                        0 <= t < sm ==> (#[trigger] mods@[t])@ == self.accounts@[
                            i as int].modules@[t]@,
                    forall|t: int|
                        sm <= t < sm + k ==> (#[trigger] mods@[t])@ == cc[
                            j as int].modules_added@[t - sm]@,
                decreases om - k,
            {
                mods.push(ident::clone_string(&cs.account_changes[j].modules_added[k]));
                k = k + 1;
            }
            let landed = Account {
                address: cs.account_changes[j].address.duplicate(),
                balance: nb,
                sequence_number: ns,
                modules: mods,
            };
            self.accounts[i] = landed;
            proof {
                let x = self.accounts@[i as int];
                assert(self.accounts@ =~= s0.update(i as int, x));
                lemma_sum_update(s0, i as int, x);
                lemma_at_idx(s0, i as int);
                assert(cc.take(j + 1) =~= cc.take(j as int).push(cc[j as int]));
                changeset::lemma_net_push(cc.take(j as int), cc[j as int]);
                assert(x.address@ == av);
                assert(x.balance as int == balance_of(base, av) + cc[j as int].balance_delta);
                assert(x.sequence_number as int == seq_of(base, av) + cc[
                    j as int].sequence_increment);
                assert(x.modules@.map_values(|m: String| m@) =~= modules_of(base, av) + cc[
                    j as int].modules_added@.map_values(|m: String| m@));
                assert forall|a: Seq<u8>| #![all_triggers] balance_of(self.accounts@, a) as int
                    == balance_of(base, a) + changeset::delta_of(cc.take(j + 1), a) && seq_of(
                    self.accounts@,
                    a,
                ) as int == seq_of(base, a) + changeset::inc_of(cc.take(j + 1), a) && modules_of(
                    self.accounts@,
                    a,
                ) =~= modules_of(base, a) + changeset::added_of(cc.take(j + 1), a) && has_acc(
                    self.accounts@,
                    a,
                ) == (has_acc(base, a) || has_change(cc.take(j + 1), a)) by {
                    lemma_update_keeps(s0, i as int, x, a);
                    changeset::lemma_chg_push_keeps(cc.take(j as int), cc[j as int], a);
                }
                assert(forall|t: int|
                    0 <= t < self.accounts@.len() ==> (#[trigger] self.accounts@[t]).address.wf());
                assert(sum_bal(self.accounts@) == sum_bal(base) + changeset::net_delta(
                    cc.take(j + 1),
                ));
            }
            j = j + 1;
        }
        proof {
            assert(cc.take(n as int) =~= cc);
        }
        Ok(())
    }
}

/// Balances never leave the unsigned range: every stored balance is
/// nonnegative by type, and a change-set lands only when each resulting
/// balance stays within the range — `apply` refuses anything else and leaves
/// the state untouched, so no application can underflow a balance.
pub proof fn lemma_no_balance_underflow(s: Seq<Account>, cc: Seq<AccountChange>, j: int, a: Seq<u8>)
    requires
        applicable(s, cc),
        0 <= j < cc.len(),
    ensures
        balance_of(s, a) >= 0,
        0 <= balance_of(s, cc[j].address@) + cc[j].balance_delta <= u64::MAX,
{
    assert(applicable_entry(s, cc[j]));
}

/// The canonical bytes of one account: address, balance, sequence number,
/// and the module names as counted byte strings.
pub open spec fn enc_account(a: Account) -> Seq<u8> {
    a.address@ + crate::codec::enc_u64(a.balance) + crate::codec::enc_u64(a.sequence_number)
        + crate::codec::enc_uleb(a.modules@.len()) + enc_names(a.modules@.map_values(|m: String| m@))
}

/// The concatenated encodings of module names, each as its UTF-8 bytes,
/// length prefixed.
pub open spec fn enc_names(names: Seq<Seq<char>>) -> Seq<u8>
    decreases names.len(),
{
    if names.len() == 0 {
        Seq::empty()
    } else {
        crate::codec::enc_bytes(vstd::utf8::encode_utf8(names[0])) + enc_names(names.drop_first())
    }
}

/// The concatenated encodings of a run of accounts.
pub open spec fn enc_accounts(s: Seq<Account>) -> Seq<u8>
    decreases s.len(),
{
    if s.len() == 0 {
        Seq::empty()
    } else {
        enc_accounts(s.drop_last()) + enc_account(s.last())
    }
}

/// The canonical bytes of one module record.
pub open spec fn enc_module_rec(m: ModuleRecord) -> Seq<u8> {
    m.id.address@ + crate::codec::enc_bytes(vstd::utf8::encode_utf8(m.id.name@))
        + crate::codec::enc_bytes(m.bytes@)
}

/// The concatenated encodings of the module store.
pub open spec fn enc_module_recs(s: Seq<ModuleRecord>) -> Seq<u8>
    decreases s.len(),
{
    if s.len() == 0 {
        Seq::empty()
    } else {
        enc_module_recs(s.drop_last()) + enc_module_rec(s.last())
    }
}

/// The canonical bytes of the whole state.
pub open spec fn state_encoding(s: StateManager) -> Seq<u8> {
    crate::codec::enc_u64(s.total_supply) + enc_accounts(s.accounts@) + enc_module_recs(s.modules@)
}

impl StateManager {
    /// The state root: the SHA-256 digest of the state's canonical bytes.
    /// It is a function of the state alone, so serially re-executing the
    /// same transactions from the same genesis reproduces it exactly.
    pub fn compute_state_root(&self) -> (r: Vec<u8>)
        ensures
            r@ == crate::crypto::sha256_spec(state_encoding(*self)),
            r@.len() == 32,
    {
        let mut out: Vec<u8> = Vec::new();
        crate::codec::write_u64(self.total_supply, &mut out);
        let n = self.accounts.len();
        let mut i: usize = 0;
        while i < n
            invariant
                i <= n,
                n == self.accounts@.len(),
                out@ == crate::codec::enc_u64(self.total_supply) + enc_accounts(
                    self.accounts@.take(i as int),
                ),
            decreases n - i,
        {
            let a = &self.accounts[i];
            let ghost pre = out@;
            crate::strutil::append_to(a.address.bytes(), &mut out);
            crate::codec::write_u64(a.balance, &mut out);
            crate::codec::write_u64(a.sequence_number, &mut out);
            crate::codec::write_uleb(a.modules.len() as u64, &mut out);
            let mn = a.modules.len();
            let mut k: usize = 0;
            while k < mn
                invariant
                    k <= mn,
                    i < self.accounts@.len(),
                    a == &self.accounts@[i as int],
                    mn == a.modules@.len(),
                    out@ == pre + a.address@ + crate::codec::enc_u64(a.balance)
                        + crate::codec::enc_u64(a.sequence_number) + crate::codec::enc_uleb(
                        a.modules@.len(),
                    ) + enc_names(
                        a.modules@.map_values(|m: String| m@).take(k as int),
                    ),
                decreases mn - k,
            {
                proof {
                    let names = a.modules@.map_values(|m: String| m@);
                    lemma_enc_names_snoc(names.take(k as int), names[k as int]);
                    assert(names.take(k + 1) =~= names.take(k as int).push(names[k as int]));
                }
                let nb = a.modules[k].as_str().as_bytes_vec();
                crate::codec::write_bytes(&nb, &mut out);
                proof {
                    assert(out@ =~= pre + a.address@ + crate::codec::enc_u64(a.balance)
                        + crate::codec::enc_u64(a.sequence_number) + crate::codec::enc_uleb(
                        a.modules@.len(),
                    ) + enc_names(a.modules@.map_values(|m: String| m@).take(k + 1)));
                }
                k = k + 1;
            }
            proof {
                let names = a.modules@.map_values(|m: String| m@);
                assert(names.take(mn as int) =~= names);
                assert(self.accounts@.take(i + 1).drop_last() =~= self.accounts@.take(i as int));
                assert(self.accounts@.take(i + 1).last() == self.accounts@[i as int]);
                assert(out@ =~= crate::codec::enc_u64(self.total_supply) + enc_accounts(
                    self.accounts@.take(i + 1),
                ));
            }
            i = i + 1;
        }
        proof {
            assert(self.accounts@.take(n as int) =~= self.accounts@);
        }
        let ghost mid = out@;
        let mn = self.modules.len();
        let mut i: usize = 0;
        while i < mn
            invariant
                i <= mn,
                mn == self.modules@.len(),
                out@ == mid + enc_module_recs(self.modules@.take(i as int)),
            decreases mn - i,
        {
            proof {
                assert(self.modules@.take(i + 1).drop_last() =~= self.modules@.take(i as int));
                assert(self.modules@.take(i + 1).last() == self.modules@[i as int]);
            }
            let m = &self.modules[i];
            crate::strutil::append_to(m.id.address.bytes(), &mut out);
            let nb = m.id.name.as_str().as_bytes_vec();
            crate::codec::write_bytes(&nb, &mut out);
            crate::codec::write_bytes(&m.bytes, &mut out);
            proof {
                assert(out@ =~= mid + enc_module_recs(self.modules@.take(i + 1)));
            }
            i = i + 1;
        }
        proof {
            assert(self.modules@.take(mn as int) =~= self.modules@);
            assert(out@ =~= state_encoding(*self));
        }
        crate::crypto::sha256(&out)
    }

    /// A copy of this state with the same view, for per-block rollback.
    #[verifier::rlimit(60)]
    #[verifier::spinoff_prover]
    pub fn snapshot(&self) -> (r: StateManager)
        ensures
            state_like(*self, r),
            self.wf() ==> r.wf(),
            self.balanced() ==> r.balanced(),
    {
        let mut accounts: Vec<Account> = Vec::new();
        let n = self.accounts.len();
        let mut i: usize = 0;
        while i < n
            invariant
                i <= n,
                n == self.accounts@.len(),
                accounts@.len() == i,
                forall|j: int| 0 <= j < i ==> acc_like(self.accounts@[j], #[trigger] accounts@[j]),
            decreases n - i,
        {
            accounts.push(self.accounts[i].duplicate());
            i = i + 1;
        }
        let mut modules: Vec<ModuleRecord> = Vec::new();
        let mn = self.modules.len();
        let mut i: usize = 0;
        while i < mn
            invariant
                i <= mn,
                mn == self.modules@.len(),
                modules@.len() == i,
                forall|j: int| 0 <= j < i ==> rec_like(self.modules@[j], #[trigger] modules@[j]),
            decreases mn - i,
        {
            let m = &self.modules[i];
            modules.push(
                ModuleRecord { id: m.id.duplicate(), bytes: crate::strutil::clone_bytes(&m.bytes) },
            );
            i = i + 1;
        }
        let r = StateManager { accounts, modules, total_supply: self.total_supply };
        proof {
            lemma_like_preserves(*self, r);
            lemma_sum_like(self.accounts@, r.accounts@);
        }
        r
    }

    /// Replace this state by a snapshot.
    pub fn restore(&mut self, snap: StateManager)
        ensures
            *final(self) == snap,
    {
        *self = snap;
    }
}

/// Two accounts with the same view.
pub open spec fn acc_like(a: Account, b: Account) -> bool {
    &&& a.address@ == b.address@
    &&& a.balance == b.balance
    &&& a.sequence_number == b.sequence_number
    &&& a.modules@.map_values(|m: String| m@) == b.modules@.map_values(|m: String| m@)
}

/// Two module records with the same view.
pub open spec fn rec_like(a: ModuleRecord, b: ModuleRecord) -> bool {
    &&& a.id.address@ == b.id.address@
    &&& a.id.name@ == b.id.name@
    &&& a.bytes@ == b.bytes@
}

/// Two states with the same view: equal supply and elementwise equal views.
pub open spec fn state_like(a: StateManager, b: StateManager) -> bool {
    &&& a.total_supply == b.total_supply
    &&& a.accounts@.len() == b.accounts@.len()
    &&& forall|i: int| 0 <= i < a.accounts@.len() ==> acc_like(#[trigger] a.accounts@[i], b.accounts@[i])
    &&& a.modules@.len() == b.modules@.len()
    &&& forall|i: int| 0 <= i < a.modules@.len() ==> rec_like(#[trigger] a.modules@[i], b.modules@[i])
}

/// Appending one name extends the name run by its encoding.
pub proof fn lemma_enc_names_snoc(names: Seq<Seq<char>>, x: Seq<char>)
    ensures
        enc_names(names.push(x)) == enc_names(names) + crate::codec::enc_bytes(
            vstd::utf8::encode_utf8(x),
        ),
    decreases names.len(),
{
    let piece = crate::codec::enc_bytes(vstd::utf8::encode_utf8(x));
    if names.len() == 0 {
        assert(names.push(x).drop_first() =~= names);
        assert(names.push(x)[0] == x);
        assert(enc_names(names) + piece =~= piece + Seq::<u8>::empty());
        assert(piece + Seq::<u8>::empty() =~= piece);
    } else {
        lemma_enc_names_snoc(names.drop_first(), x);
        assert(names.push(x).drop_first() =~= names.drop_first().push(x));
        assert(names.push(x)[0] == names[0]);
        let head = crate::codec::enc_bytes(vstd::utf8::encode_utf8(names[0]));
        assert(head + (enc_names(names.drop_first()) + piece) =~= (head + enc_names(
            names.drop_first(),
        )) + piece);
    }
}

/// States with the same view share their canonical bytes, so they share
/// their state root: the digest is deterministic in the state's content.
pub proof fn lemma_state_root_deterministic(a: StateManager, b: StateManager)
    requires
        state_like(a, b),
    ensures
        state_encoding(a) == state_encoding(b),
{
    lemma_like_preserves(a, b);
}

/// Elementwise-equal views give equal encodings.
proof fn lemma_like_preserves(a: StateManager, b: StateManager)
    requires
        state_like(a, b),
    ensures
        state_encoding(a) == state_encoding(b),
{
    lemma_enc_accounts_like(a.accounts@, b.accounts@);
    lemma_enc_recs_like(a.modules@, b.modules@);
}

/// Elementwise-alike accounts hold the same total balance.
pub proof fn lemma_sum_like(x: Seq<Account>, y: Seq<Account>)
    requires
        x.len() == y.len(),
        forall|i: int| 0 <= i < x.len() ==> acc_like(#[trigger] x[i], y[i]),
    ensures
        sum_bal(x) == sum_bal(y),
    decreases x.len(),
{
    if x.len() > 0 {
        lemma_sum_like(x.drop_last(), y.drop_last());
        assert(acc_like(x.last(), y.last()));
    }
}

/// Elementwise-alike accounts encode alike.
proof fn lemma_enc_accounts_like(x: Seq<Account>, y: Seq<Account>)
    requires
        x.len() == y.len(),
        forall|i: int| 0 <= i < x.len() ==> acc_like(#[trigger] x[i], y[i]),
    ensures
        enc_accounts(x) == enc_accounts(y),
    decreases x.len(),
{
    if x.len() > 0 {
        lemma_enc_accounts_like(x.drop_last(), y.drop_last());
        assert(acc_like(x.last(), y.last()));
        assert(enc_account(x.last()) == enc_account(y.last()));
    }
}

/// Elementwise-alike module records encode alike.
proof fn lemma_enc_recs_like(x: Seq<ModuleRecord>, y: Seq<ModuleRecord>)
    requires
        x.len() == y.len(),
        forall|i: int| 0 <= i < x.len() ==> rec_like(#[trigger] x[i], y[i]),
    ensures
        enc_module_recs(x) == enc_module_recs(y),
    decreases x.len(),
{
    if x.len() > 0 {
        lemma_enc_recs_like(x.drop_last(), y.drop_last());
        assert(rec_like(x.last(), y.last()));
    }
}

/// Appending a module record with a fresh identity: lookups at the new
/// identity see it, lookups elsewhere are untouched.
pub proof fn lemma_module_push(m: Seq<ModuleRecord>, x: ModuleRecord, a: Seq<u8>, nm: Seq<char>)
    requires
        forall|i: int, j: int|
            0 <= i < j < m.len() ==> !((#[trigger] m[i]).id.address@ == (#[trigger] m[j]).id.address@
                && m[i].id.name@ == m[j].id.name@),
        !has_module(m, x.id.address@, x.id.name@),
    ensures
        forall|i: int, j: int|
            0 <= i < j < m.push(x).len() ==> !((#[trigger] m.push(x)[i]).id.address@ == (
            #[trigger] m.push(x)[j]).id.address@ && m.push(x)[i].id.name@ == m.push(x)[j].id.name@),
        has_module(m.push(x), a, nm) == (has_module(m, a, nm) || (a == x.id.address@ && nm
            == x.id.name@)),
        module_bytes_of(m.push(x), a, nm) == if a == x.id.address@ && nm == x.id.name@ {
            x.bytes@
        } else {
            module_bytes_of(m, a, nm)
        },
{
    let t = m.push(x);
    assert(forall|k: int| 0 <= k < m.len() ==> t[k] == m[k]);
    assert(t[m.len() as int] == x);
    assert forall|i: int, j: int| 0 <= i < j < t.len() implies !((#[trigger] t[i]).id.address@ == (
    #[trigger] t[j]).id.address@ && t[i].id.name@ == t[j].id.name@) by {
        if j == m.len() {
            if t[i].id.address@ == x.id.address@ && t[i].id.name@ == x.id.name@ {
                assert(has_module(m, x.id.address@, x.id.name@));
            }
        }
    }
    if a == x.id.address@ && nm == x.id.name@ {
        assert(has_module(t, a, nm));
        let k = module_idx(t, a, nm);
        assert(0 <= k < t.len() && t[k].id.address@ == a && t[k].id.name@ == nm);
        if k < m.len() {
            assert(has_module(m, a, nm));
        }
    } else {
        if has_module(m, a, nm) {
            let k = module_idx(m, a, nm);
            assert(0 <= k < m.len() && m[k].id.address@ == a && m[k].id.name@ == nm);
            assert(t[k].id.address@ == a && t[k].id.name@ == nm);
            assert(has_module(t, a, nm));
            let k2 = module_idx(t, a, nm);
            assert(0 <= k2 < t.len() && t[k2].id.address@ == a && t[k2].id.name@ == nm);
            assert(k2 != m.len());
            if k < k2 {
                assert(!(t[k].id.address@ == t[k2].id.address@ && t[k].id.name@ == t[k2].id.name@));
            }
            if k2 < k {
                assert(!(t[k2].id.address@ == t[k].id.address@ && t[k2].id.name@ == t[k].id.name@));
            }
        } else {
            if has_module(t, a, nm) {
                let k = module_idx(t, a, nm);
                assert(0 <= k < t.len() && t[k].id.address@ == a && t[k].id.name@ == nm);
                assert(k != m.len());
                assert(has_module(m, a, nm));
            }
        }
    }
}

} // verus!
