//! The change-set: the staged, serializable delta a VM session produces, and
//! the only channel through which state is mutated. Per-address changes are
//! kept in a vector with pairwise-distinct addresses; contracts are stated
//! pointwise over the lookup functions below.

use vstd::prelude::*;
use crate::address::Address;
use crate::ident;

verus! {

/// An event recorded during execution.
pub struct Event {
    pub key: Vec<u8>,
    pub sequence_number: u64,
    pub type_tag: String,
    pub event_data: Vec<u8>,
}

/// The view of an event: its fields at spec level.
pub open spec fn evt_view(e: Event) -> (Seq<u8>, u64, Seq<char>, Seq<u8>) {
    (e.key@, e.sequence_number, e.type_tag@, e.event_data@)
}

/// The views of a sequence of events.
pub open spec fn events_view(s: Seq<Event>) -> Seq<(Seq<u8>, u64, Seq<char>, Seq<u8>)> {
    s.map_values(|e: Event| evt_view(e))
}

/// The staged changes to one account: a signed balance delta, a sequence
/// increment, and module names added in order.
pub struct AccountChange {
    pub address: Address,
    pub balance_delta: i64,
    pub sequence_increment: u64,
    pub modules_added: Vec<String>,
}

impl AccountChange {
    /// An empty change for the given address.
    pub fn new(address: Address) -> (c: AccountChange)
        ensures
            c.address@ == address@,
            c.balance_delta == 0,
            c.sequence_increment == 0,
            c.modules_added@.len() == 0,
    {
        AccountChange { address, balance_delta: 0, sequence_increment: 0, modules_added: Vec::new() }
    }

    /// Subtract `amount` from the balance delta.
    pub fn debit(&mut self, amount: u64)
        requires
            old(self).balance_delta - amount >= i64::MIN,
        ensures
            final(self).balance_delta == old(self).balance_delta - amount,
            final(self).address@ == old(self).address@,
            final(self).sequence_increment == old(self).sequence_increment,
            final(self).modules_added@ == old(self).modules_added@,
    {
        let wide = (self.balance_delta as i128) - (amount as i128);
        self.balance_delta = wide as i64;
    }

    /// Add `amount` to the balance delta.
    pub fn credit(&mut self, amount: u64)
        requires
            old(self).balance_delta + amount <= i64::MAX,
        ensures
            final(self).balance_delta == old(self).balance_delta + amount,
            final(self).address@ == old(self).address@,
            final(self).sequence_increment == old(self).sequence_increment,
            final(self).modules_added@ == old(self).modules_added@,
    {
        let wide = (self.balance_delta as i128) + (amount as i128);
        self.balance_delta = wide as i64;
    }

    /// Count one more transaction by this account.
    pub fn increment_sequence(&mut self)
        requires
            old(self).sequence_increment < u64::MAX,
        ensures
            final(self).sequence_increment == old(self).sequence_increment + 1,
            final(self).address@ == old(self).address@,
            final(self).balance_delta == old(self).balance_delta,
            final(self).modules_added@ == old(self).modules_added@,
    {
        self.sequence_increment = self.sequence_increment + 1;
    }

    /// Record a published module name.
    pub fn add_module(&mut self, module_name: String)
        ensures
            final(self).modules_added@ == old(self).modules_added@.push(module_name),
            final(self).address@ == old(self).address@,
            final(self).balance_delta == old(self).balance_delta,
            final(self).sequence_increment == old(self).sequence_increment,
    {
        self.modules_added.push(module_name);
    }
}

/// Does some change in `s` concern address `a`?
pub open spec fn has_change(s: Seq<AccountChange>, a: Seq<u8>) -> bool {
    exists|i: int| 0 <= i < s.len() && s[i].address@ == a
}

/// The index of the change for address `a`.
pub open spec fn chg_idx(s: Seq<AccountChange>, a: Seq<u8>) -> int {
    choose|i: int| 0 <= i < s.len() && s[i].address@ == a
}

/// Addresses are pairwise distinct.
pub open spec fn uniq_changes(s: Seq<AccountChange>) -> bool {
    forall|i: int, j: int| 0 <= i < j < s.len() ==> s[i].address@ != s[j].address@
}

/// Distinct, well-formed addresses throughout.
pub open spec fn changes_wf(s: Seq<AccountChange>) -> bool {
    uniq_changes(s) && forall|i: int| 0 <= i < s.len() ==> (#[trigger] s[i]).address.wf()
}

/// The balance delta staged for `a`, zero when absent.
pub open spec fn delta_of(s: Seq<AccountChange>, a: Seq<u8>) -> int {
    if has_change(s, a) {
        s[chg_idx(s, a)].balance_delta as int
    } else {
        0
    }
}

/// The sequence increment staged for `a`, zero when absent.
pub open spec fn inc_of(s: Seq<AccountChange>, a: Seq<u8>) -> u64 {
    if has_change(s, a) {
        s[chg_idx(s, a)].sequence_increment
    } else {
        0u64
    }
}

/// The module names staged for `a`, empty when absent.
pub open spec fn added_of(s: Seq<AccountChange>, a: Seq<u8>) -> Seq<Seq<char>> {
    if has_change(s, a) {
        s[chg_idx(s, a)].modules_added@.map_values(|m: String| m@)
    } else {
        Seq::empty()
    }
}

/// The sum of all staged balance deltas.
pub open spec fn net_delta(s: Seq<AccountChange>) -> int
    decreases s.len(),
{
    if s.len() == 0 {
        0
    } else {
        net_delta(s.drop_last()) + s.last().balance_delta
    }
}

/// The change at a valid index of a duplicate-free sequence is the one its
/// address looks up.
pub proof fn lemma_chg_at_idx(s: Seq<AccountChange>, i: int)
    requires
        uniq_changes(s),
        0 <= i < s.len(),
    ensures
        has_change(s, s[i].address@),
        chg_idx(s, s[i].address@) == i,
{
    assert(has_change(s, s[i].address@));
    let j = chg_idx(s, s[i].address@);
    assert(0 <= j < s.len() && s[j].address@ == s[i].address@);
    if j < i {
        assert(s[j].address@ != s[i].address@);
    }
    if i < j {
        assert(s[i].address@ != s[j].address@);
    }
}

/// Replacing the change at `i` by one with the same address: lookups at the
/// address see the new change, lookups elsewhere are untouched.
pub proof fn lemma_chg_update_keeps(s: Seq<AccountChange>, i: int, x: AccountChange, a: Seq<u8>)
    requires
        uniq_changes(s),
        0 <= i < s.len(),
        x.address@ == s[i].address@,
    ensures
        uniq_changes(s.update(i, x)),
        has_change(s.update(i, x), a) == has_change(s, a),
        delta_of(s.update(i, x), a) == if a == x.address@ {
            x.balance_delta as int
        } else {
            delta_of(s, a)
        },
        inc_of(s.update(i, x), a) == if a == x.address@ {
            x.sequence_increment
        } else {
            inc_of(s, a)
        },
        added_of(s.update(i, x), a) == if a == x.address@ {
            x.modules_added@.map_values(|m: String| m@)
        } else {
            added_of(s, a)
        },
{
    let t = s.update(i, x);
    assert(forall|k: int| 0 <= k < s.len() ==> (#[trigger] t[k]).address@ == s[k].address@);
    assert(uniq_changes(t));
    if has_change(s, a) {
        let j = chg_idx(s, a);
        assert(0 <= j < s.len() && s[j].address@ == a);
        assert(t[j].address@ == a);
        assert(has_change(t, a));
        lemma_chg_at_idx(t, j);
        if a == x.address@ {
            lemma_chg_at_idx(s, i);
            assert(j == i);
        } else {
            assert(j != i);
        }
    } else {
        if has_change(t, a) {
            let k = chg_idx(t, a);
            assert(0 <= k < t.len() && t[k].address@ == a);
            assert(s[k].address@ == a);
        }
    }
}

/// Appending a change for a fresh address: lookups at the new address see
/// it, lookups elsewhere are untouched.
pub proof fn lemma_chg_push_keeps(s: Seq<AccountChange>, x: AccountChange, a: Seq<u8>)
    requires
        uniq_changes(s),
        !has_change(s, x.address@),
    ensures
        uniq_changes(s.push(x)),
        has_change(s.push(x), a) == (has_change(s, a) || a == x.address@),
        delta_of(s.push(x), a) == if a == x.address@ {
            x.balance_delta as int
        } else {
            delta_of(s, a)
        },
        inc_of(s.push(x), a) == if a == x.address@ {
            x.sequence_increment
        } else {
            inc_of(s, a)
        },
        added_of(s.push(x), a) == if a == x.address@ {
            x.modules_added@.map_values(|m: String| m@)
        } else {
            added_of(s, a)
        },
{
    let t = s.push(x);
    assert(forall|k: int| 0 <= k < s.len() ==> (#[trigger] t[k]).address@ == s[k].address@);
    assert(t[s.len() as int].address@ == x.address@);
    assert forall|i: int, j: int| 0 <= i < j < t.len() implies t[i].address@ != t[j].address@ by {
        if j == s.len() {
            if t[i].address@ == x.address@ {
                assert(has_change(s, x.address@));
            }
        }
    }
    if a == x.address@ {
        assert(has_change(t, a));
        lemma_chg_at_idx(t, s.len() as int);
    } else {
        if has_change(s, a) {
            let j = chg_idx(s, a);
            assert(t[j].address@ == a);
            assert(has_change(t, a));
            lemma_chg_at_idx(t, j);
        } else {
            if has_change(t, a) {
                let k = chg_idx(t, a);
                assert(0 <= k < t.len() && t[k].address@ == a);
                assert(k != s.len());
                assert(s[k].address@ == a);
            }
        }
    }
}

/// The net delta after replacing one change moves by the difference.
pub proof fn lemma_net_update(s: Seq<AccountChange>, i: int, x: AccountChange)
    requires
        0 <= i < s.len(),
    ensures
        net_delta(s.update(i, x)) == net_delta(s) + x.balance_delta - s[i].balance_delta,
    decreases s.len(),
{
    let t = s.update(i, x);
    if i == s.len() - 1 {
        assert(t.drop_last() =~= s.drop_last());
        assert(t.last() == x);
    } else {
        lemma_net_update(s.drop_last(), i, x);
        assert(t.drop_last() =~= s.drop_last().update(i, x));
        assert(t.last() == s.last());
    }
}

/// The net delta after appending a change grows by its delta.
pub proof fn lemma_net_push(s: Seq<AccountChange>, x: AccountChange)
    ensures
        net_delta(s.push(x)) == net_delta(s) + x.balance_delta,
{
    assert(s.push(x).drop_last() =~= s);
    assert(s.push(x).last() == x);
}

/// The complete delta of one execution: per-account changes, events in
/// order, gas consumed, and the outcome.
pub struct ChangeSet {
    pub account_changes: Vec<AccountChange>,
    pub events: Vec<Event>,
    pub gas_used: u64,
    pub success: bool,
    pub error_message: Option<String>,
}

/// The error text of a change-set, at spec level.
pub open spec fn err_view(error_message: Option<String>) -> Option<Seq<char>> {
    match error_message {
        Some(m) => Some(m@),
        None => None,
    }
}

impl ChangeSet {
    /// Distinct, well-formed change addresses.
    pub open spec fn wf(&self) -> bool {
        changes_wf(self.account_changes@)
    }

    /// An empty, successful change-set.
    pub fn new() -> (c: ChangeSet)
        ensures
            c.account_changes@.len() == 0,
            c.events@.len() == 0,
            c.gas_used == 0,
            c.success == true,
            c.error_message is None,
            c.wf(),
    {
        ChangeSet {
            account_changes: Vec::new(),
            events: Vec::new(),
            gas_used: 0,
            success: true,
            error_message: None,
        }
    }

    /// An empty, successful change-set that already consumed `gas_used`.
    pub fn with_gas(gas_used: u64) -> (c: ChangeSet)
        ensures
            c.account_changes@.len() == 0,
            c.events@.len() == 0,
            c.gas_used == gas_used,
            c.success == true,
            c.error_message is None,
            c.wf(),
    {
        ChangeSet {
            account_changes: Vec::new(),
            events: Vec::new(),
            gas_used,
            success: true,
            error_message: None,
        }
    }

    /// A failed change-set carrying an error and the gas consumed.
    pub fn failed(error: String, gas_used: u64) -> (c: ChangeSet)
        ensures
            c.account_changes@.len() == 0,
            c.events@.len() == 0,
            c.gas_used == gas_used,
            c.success == false,
            err_view(c.error_message) == Some(error@),
            c.wf(),
    {
        ChangeSet {
            account_changes: Vec::new(),
            events: Vec::new(),
            gas_used,
            success: false,
            error_message: Some(error),
        }
    }

    /// The index of the change for the given address, creating an empty one
    /// when missing. No delta, increment or module list changes.
    pub fn get_or_create_change(&mut self, address: Address) -> (i: usize)
        requires
            old(self).wf(),
            address.wf(),
        ensures
            final(self).wf(),
            final(self).events@ == old(self).events@,
            final(self).gas_used == old(self).gas_used,
            final(self).success == old(self).success,
            final(self).error_message == old(self).error_message,
            i < final(self).account_changes@.len(),
            final(self).account_changes@[i as int].address@ == address@,
            i == chg_idx(final(self).account_changes@, address@),
            has_change(final(self).account_changes@, address@),
            has_change(old(self).account_changes@, address@) ==> final(self).account_changes@
                == old(self).account_changes@,
            !has_change(old(self).account_changes@, address@) ==> final(self).account_changes@.len()
                == old(self).account_changes@.len() + 1,
            net_delta(final(self).account_changes@) == net_delta(old(self).account_changes@),
            forall|a: Seq<u8>|
                delta_of(final(self).account_changes@, a) == delta_of(
                    old(self).account_changes@,
                    a,
                ),
            forall|a: Seq<u8>|
                inc_of(final(self).account_changes@, a) == inc_of(old(self).account_changes@, a),
            forall|a: Seq<u8>|
                added_of(final(self).account_changes@, a) =~= added_of(
                    old(self).account_changes@,
                    a,
                ),
            forall|a: Seq<u8>|
                has_change(final(self).account_changes@, a) == (has_change(
                    old(self).account_changes@,
                    a,
                ) || a == address@),
    {
        let n = self.account_changes.len();
        let mut k: usize = 0;
        while k < n
            invariant
                k <= n,
                n == self.account_changes@.len(),
                self.wf(),
                forall|j: int|
                    0 <= j < k ==> (#[trigger] self.account_changes@[j]).address@ != address@,
            decreases n - k,
        {
            if self.account_changes[k].address.eq_addr(&address) {
                proof {
                    lemma_chg_at_idx(self.account_changes@, k as int);
                }
                return k;
            }
            k = k + 1;
        }
        proof {
            if has_change(self.account_changes@, address@) {
                let j = chg_idx(self.account_changes@, address@);
                assert(0 <= j < n && self.account_changes@[j].address@ == address@);
            }
        }
        let i = self.account_changes.len();
        let fresh = AccountChange::new(address);
        proof {
            lemma_net_push(self.account_changes@, fresh);
        }
        let ghost pre = self.account_changes@;
        self.account_changes.push(fresh);
        proof {
            assert forall|a: Seq<u8>| #![all_triggers] delta_of(self.account_changes@, a)
                == delta_of(pre, a) && inc_of(self.account_changes@, a) == inc_of(pre, a)
                && added_of(self.account_changes@, a) =~= added_of(pre, a) && has_change(
                self.account_changes@,
                a,
            ) == (has_change(pre, a) || a == fresh.address@) by {
                lemma_chg_push_keeps(pre, fresh, a);
                if a == fresh.address@ {
                    assert(fresh.modules_added@.map_values(|m: String| m@)
                        =~= Seq::<Seq<char>>::empty());
                }
            }
            lemma_chg_push_keeps(pre, fresh, fresh.address@);
            lemma_chg_at_idx(self.account_changes@, i as int);
            assert(forall|j: int|
                0 <= j < self.account_changes@.len() ==> (#[trigger] self.account_changes@[j]).address.wf());
        }
        i
    }

    /// Record how much gas the execution consumed.
    pub fn set_gas_used(&mut self, gas: u64)
        ensures
            final(self).gas_used == gas,
            final(self).account_changes@ == old(self).account_changes@,
            final(self).events@ == old(self).events@,
            final(self).success == old(self).success,
            final(self).error_message == old(self).error_message,
    {
        self.gas_used = gas;
    }

    /// Mark this change-set as failed with the given error.
    pub fn mark_failed(&mut self, error: String)
        ensures
            final(self).success == false,
            err_view(final(self).error_message) == Some(error@),
            final(self).account_changes@ == old(self).account_changes@,
            final(self).events@ == old(self).events@,
            final(self).gas_used == old(self).gas_used,
    {
        self.success = false;
        self.error_message = Some(error);
    }

    /// Is the change-set free of account changes?
    pub fn is_empty(&self) -> (r: bool)
        ensures
            r == (self.account_changes@.len() == 0),
    {
        self.account_changes.len() == 0
    }

    /// The number of accounts touched.
    pub fn account_count(&self) -> (n: usize)
        ensures
            n == self.account_changes@.len(),
    {
        self.account_changes.len()
    }

    /// Stage a transfer: debit the sender, count its transaction, credit the
    /// receiver.
    pub fn transfer(&mut self, from: Address, to: Address, amount: u64)
        requires
            old(self).wf(),
            from.wf(),
            to.wf(),
            delta_of(old(self).account_changes@, from@) - amount >= i64::MIN,
            inc_of(old(self).account_changes@, from@) < u64::MAX,
            from@ != to@ ==> delta_of(old(self).account_changes@, to@) + amount <= i64::MAX,
        ensures
            final(self).wf(),
            forall|a: Seq<u8>|
                delta_of(final(self).account_changes@, a) == delta_of(old(self).account_changes@, a)
                    - (if a == from@ {
                    amount as int
                } else {
                    0int
                }) + (if a == to@ {
                    amount as int
                } else {
                    0int
                }),
            forall|a: Seq<u8>|
                inc_of(final(self).account_changes@, a) as int == inc_of(
                    old(self).account_changes@,
                    a,
                ) + (if a == from@ {
                    1int
                } else {
                    0int
                }),
            forall|a: Seq<u8>|
                added_of(final(self).account_changes@, a) =~= added_of(
                    old(self).account_changes@,
                    a,
                ),
            net_delta(final(self).account_changes@) == net_delta(old(self).account_changes@),
            final(self).events@ == old(self).events@,
            final(self).gas_used == old(self).gas_used,
            final(self).success == old(self).success,
            final(self).error_message == old(self).error_message,
    {
        let ghost fromv = from@;
        let ghost tov = to@;
        let self_transfer = from.eq_addr(&to);
        let fi = self.get_or_create_change(from);
        let ghost s0 = self.account_changes@;
        let d = self.account_changes[fi].balance_delta;
        let inc = self.account_changes[fi].sequence_increment;
        let nd = ((d as i128) - (amount as i128)) as i64;
        self.account_changes[fi].balance_delta = nd;
        let ghost s1 = self.account_changes@;
        self.account_changes[fi].sequence_increment = inc + 1;
        let ghost s2 = self.account_changes@;
        proof {
            let x1 = s1[fi as int];
            let x2 = s2[fi as int];
            assert(s1 =~= s0.update(fi as int, x1));
            assert(s2 =~= s1.update(fi as int, x2));
            lemma_net_update(s0, fi as int, x1);
            lemma_net_update(s1, fi as int, x2);
            lemma_chg_at_idx(s0, fi as int);
            assert forall|a: Seq<u8>| #![all_triggers] delta_of(s2, a) == (if a == fromv {
                delta_of(s0, a) - amount
            } else {
                delta_of(s0, a)
            }) && inc_of(s2, a) as int == (if a == fromv {
                inc_of(s0, a) + 1
            } else {
                inc_of(s0, a) as int
            }) && added_of(s2, a) =~= added_of(s0, a) && has_change(s2, a) == has_change(
                s0,
                a,
            ) by {
                lemma_chg_update_keeps(s0, fi as int, x1, a);
                lemma_chg_update_keeps(s1, fi as int, x2, a);
                lemma_chg_at_idx(s1, fi as int);
            }
        }
        if self_transfer {
            let d2 = self.account_changes[fi].balance_delta;
            let nd2 = ((d2 as i128) + (amount as i128)) as i64;
            self.account_changes[fi].balance_delta = nd2;
            proof {
                let y = self.account_changes@[fi as int];
                assert(self.account_changes@ =~= s2.update(fi as int, y));
                lemma_net_update(s2, fi as int, y);
                lemma_chg_at_idx(s2, fi as int);
                assert forall|a: Seq<u8>| #![all_triggers] delta_of(self.account_changes@, a) == (
                if a == tov {
                    delta_of(s2, a) + amount
                } else {
                    delta_of(s2, a)
                }) && inc_of(self.account_changes@, a) == inc_of(s2, a) && added_of(
                    self.account_changes@,
                    a,
                ) =~= added_of(s2, a) by {
                    lemma_chg_update_keeps(s2, fi as int, y, a);
                }
                assert(forall|j: int|
                    0 <= j < self.account_changes@.len() ==> (#[trigger] self.account_changes@[j]).address.wf());
            }
        } else {
            let ti = self.get_or_create_change(to);
            let ghost s3 = self.account_changes@;
            let td = self.account_changes[ti].balance_delta;
            let ntd = ((td as i128) + (amount as i128)) as i64;
            self.account_changes[ti].balance_delta = ntd;
            proof {
                let y = self.account_changes@[ti as int];
                assert(self.account_changes@ =~= s3.update(ti as int, y));
                lemma_net_update(s3, ti as int, y);
                lemma_chg_at_idx(s3, ti as int);
                assert forall|a: Seq<u8>| #![all_triggers] delta_of(self.account_changes@, a) == (
                if a == tov {
                    delta_of(s3, a) + amount
                } else {
                    delta_of(s3, a)
                }) && inc_of(self.account_changes@, a) == inc_of(s3, a) && added_of(
                    self.account_changes@,
                    a,
                ) =~= added_of(s3, a) by {
                    lemma_chg_update_keeps(s3, ti as int, y, a);
                }
                assert(forall|j: int|
                    0 <= j < self.account_changes@.len() ==> (#[trigger] self.account_changes@[j]).address.wf());
            }
        }
    }

    /// Stage newly created tokens for the given address.
    pub fn mint(&mut self, to: Address, amount: u64)
        requires
            old(self).wf(),
            to.wf(),
            delta_of(old(self).account_changes@, to@) + amount <= i64::MAX,
        ensures
            final(self).wf(),
            forall|a: Seq<u8>|
                delta_of(final(self).account_changes@, a) == delta_of(old(self).account_changes@, a)
                    + (if a == to@ {
                    amount as int
                } else {
                    0int
                }),
            forall|a: Seq<u8>|
                inc_of(final(self).account_changes@, a) == inc_of(old(self).account_changes@, a),
            forall|a: Seq<u8>|
                added_of(final(self).account_changes@, a) =~= added_of(
                    old(self).account_changes@,
                    a,
                ),
            net_delta(final(self).account_changes@) == net_delta(old(self).account_changes@)
                + amount,
            final(self).events@ == old(self).events@,
            final(self).gas_used == old(self).gas_used,
            final(self).success == old(self).success,
            final(self).error_message == old(self).error_message,
    {
        let ghost tov = to@;
        let i = self.get_or_create_change(to);
        let ghost s0 = self.account_changes@;
        let d = self.account_changes[i].balance_delta;
        let nd = ((d as i128) + (amount as i128)) as i64;
        self.account_changes[i].balance_delta = nd;
        proof {
            let x = self.account_changes@[i as int];
            assert(self.account_changes@ =~= s0.update(i as int, x));
            lemma_net_update(s0, i as int, x);
            lemma_chg_at_idx(s0, i as int);
            assert forall|a: Seq<u8>| #![all_triggers] delta_of(self.account_changes@, a) == (if a
                == tov {
                delta_of(s0, a) + amount
            } else {
                delta_of(s0, a)
            }) && inc_of(self.account_changes@, a) == inc_of(s0, a) && added_of(
                self.account_changes@,
                a,
            ) =~= added_of(s0, a) by {
                lemma_chg_update_keeps(s0, i as int, x, a);
            }
            assert(forall|j: int|
                0 <= j < self.account_changes@.len() ==> (#[trigger] self.account_changes@[j]).address.wf());
        }
    }

    /// Stage destroyed tokens for the given address.
    pub fn burn(&mut self, from: Address, amount: u64)
        requires
            old(self).wf(),
            from.wf(),
            delta_of(old(self).account_changes@, from@) - amount >= i64::MIN,
        ensures
            final(self).wf(),
            forall|a: Seq<u8>|
                delta_of(final(self).account_changes@, a) == delta_of(old(self).account_changes@, a)
                    - (if a == from@ {
                    amount as int
                } else {
                    0int
                }),
            forall|a: Seq<u8>|
                inc_of(final(self).account_changes@, a) == inc_of(old(self).account_changes@, a),
            forall|a: Seq<u8>|
                added_of(final(self).account_changes@, a) =~= added_of(
                    old(self).account_changes@,
                    a,
                ),
            net_delta(final(self).account_changes@) == net_delta(old(self).account_changes@)
                - amount,
            final(self).events@ == old(self).events@,
            final(self).gas_used == old(self).gas_used,
            final(self).success == old(self).success,
            final(self).error_message == old(self).error_message,
    {
        let ghost fromv = from@;
        let i = self.get_or_create_change(from);
        let ghost s0 = self.account_changes@;
        let d = self.account_changes[i].balance_delta;
        let nd = ((d as i128) - (amount as i128)) as i64;
        self.account_changes[i].balance_delta = nd;
        proof {
            let x = self.account_changes@[i as int];
            assert(self.account_changes@ =~= s0.update(i as int, x));
            lemma_net_update(s0, i as int, x);
            lemma_chg_at_idx(s0, i as int);
            assert forall|a: Seq<u8>| #![all_triggers] delta_of(self.account_changes@, a) == (if a
                == fromv {
                delta_of(s0, a) - amount
            } else {
                delta_of(s0, a)
            }) && inc_of(self.account_changes@, a) == inc_of(s0, a) && added_of(
                self.account_changes@,
                a,
            ) =~= added_of(s0, a) by {
                lemma_chg_update_keeps(s0, i as int, x, a);
            }
            assert(forall|j: int|
                0 <= j < self.account_changes@.len() ==> (#[trigger] self.account_changes@[j]).address.wf());
        }
    }

    /// Stage a module publication: record the name and count the
    /// publisher's transaction.
    pub fn publish_module(&mut self, publisher: Address, module_name: String)
        requires
            old(self).wf(),
            publisher.wf(),
            inc_of(old(self).account_changes@, publisher@) < u64::MAX,
        ensures
            final(self).wf(),
            forall|a: Seq<u8>|
                delta_of(final(self).account_changes@, a) == delta_of(old(self).account_changes@, a),
            forall|a: Seq<u8>|
                inc_of(final(self).account_changes@, a) as int == inc_of(
                    old(self).account_changes@,
                    a,
                ) + (if a == publisher@ {
                    1int
                } else {
                    0int
                }),
            forall|a: Seq<u8>|
                added_of(final(self).account_changes@, a) =~= if a == publisher@ {
                    added_of(old(self).account_changes@, a).push(module_name@)
                } else {
                    added_of(old(self).account_changes@, a)
                },
            net_delta(final(self).account_changes@) == net_delta(old(self).account_changes@),
            final(self).events@ == old(self).events@,
            final(self).gas_used == old(self).gas_used,
            final(self).success == old(self).success,
            final(self).error_message == old(self).error_message,
    {
        let ghost pv = publisher@;
        let i = self.get_or_create_change(publisher);
        let ghost s0 = self.account_changes@;
        let inc = self.account_changes[i].sequence_increment;
        self.account_changes[i].modules_added.push(module_name);
        let ghost s1 = self.account_changes@;
        self.account_changes[i].sequence_increment = inc + 1;
        proof {
            let x1 = s1[i as int];
            let x2 = self.account_changes@[i as int];
            assert(s1 =~= s0.update(i as int, x1));
            assert(self.account_changes@ =~= s1.update(i as int, x2));
            lemma_net_update(s0, i as int, x1);
            lemma_net_update(s1, i as int, x2);
            lemma_chg_at_idx(s0, i as int);
            assert forall|a: Seq<u8>| #![all_triggers] delta_of(self.account_changes@, a)
                == delta_of(s0, a) && inc_of(self.account_changes@, a) as int == (if a == pv {
                inc_of(s0, a) + 1
            } else {
                inc_of(s0, a) as int
            }) && added_of(self.account_changes@, a) =~= (if a == pv {
                added_of(s0, a).push(x1.modules_added@.last()@)
            } else {
                added_of(s0, a)
            }) by {
                lemma_chg_update_keeps(s0, i as int, x1, a);
                lemma_chg_update_keeps(s1, i as int, x2, a);
                lemma_chg_at_idx(s1, i as int);
                if a == pv {
                    assert(x1.modules_added@ == s0[i as int].modules_added@.push(
                        x1.modules_added@.last(),
                    ));
                    assert(x1.modules_added@.map_values(|m: String| m@) =~= s0[
                        i as int].modules_added@.map_values(|m: String| m@).push(
                        x1.modules_added@.last()@,
                    ));
                }
            }
            assert(forall|j: int|
                0 <= j < self.account_changes@.len() ==> (#[trigger] self.account_changes@[j]).address.wf());
        }
    }

    /// Stage the gas-fee credit for the DAO address.
    pub fn collect_gas(&mut self, dao_address: Address, gas_amount: u64)
        requires
            old(self).wf(),
            dao_address.wf(),
            delta_of(old(self).account_changes@, dao_address@) + gas_amount <= i64::MAX,
        ensures
            final(self).wf(),
            forall|a: Seq<u8>|
                delta_of(final(self).account_changes@, a) == delta_of(old(self).account_changes@, a)
                    + (if a == dao_address@ {
                    gas_amount as int
                } else {
                    0int
                }),
            forall|a: Seq<u8>|
                inc_of(final(self).account_changes@, a) == inc_of(old(self).account_changes@, a),
            forall|a: Seq<u8>|
                added_of(final(self).account_changes@, a) =~= added_of(
                    old(self).account_changes@,
                    a,
                ),
            net_delta(final(self).account_changes@) == net_delta(old(self).account_changes@)
                + gas_amount,
            final(self).events@ == old(self).events@,
            final(self).gas_used == old(self).gas_used,
            final(self).success == old(self).success,
            final(self).error_message == old(self).error_message,
    {
        self.mint(dao_address, gas_amount);
    }

    /// Merge another change-set into this one: balance deltas and sequence
    /// increments are summed per address, module names and events are
    /// concatenated in order, gas is summed, and a failure on either side
    /// makes the result failed, carrying the first error. Module names are
    /// not collapsed here: a name staged twice stays twice, and `apply`
    /// refuses any change-set whose staged names collide, so no duplicate
    /// ever lands.
    pub fn merge(&mut self, other: ChangeSet)
        requires
            old(self).wf(),
            other.wf(),
            old(self).gas_used + other.gas_used <= u64::MAX,
            forall|j: int|
                0 <= j < other.account_changes@.len() ==> i64::MIN <= delta_of(
                    old(self).account_changes@,
                    (#[trigger] other.account_changes@[j]).address@,
                ) + other.account_changes@[j].balance_delta <= i64::MAX,
            forall|j: int|
                0 <= j < other.account_changes@.len() ==> inc_of(
                    old(self).account_changes@,
                    (#[trigger] other.account_changes@[j]).address@,
                ) + other.account_changes@[j].sequence_increment <= u64::MAX,
        ensures
            final(self).wf(),
            forall|a: Seq<u8>|
                delta_of(final(self).account_changes@, a) == delta_of(old(self).account_changes@, a)
                    + delta_of(other.account_changes@, a),
            forall|a: Seq<u8>|
                inc_of(final(self).account_changes@, a) as int == inc_of(
                    old(self).account_changes@,
                    a,
                ) + inc_of(other.account_changes@, a),
            forall|a: Seq<u8>|
                added_of(final(self).account_changes@, a) =~= added_of(
                    old(self).account_changes@,
                    a,
                ) + added_of(other.account_changes@, a),
            forall|a: Seq<u8>|
                has_change(final(self).account_changes@, a) == (has_change(
                    old(self).account_changes@,
                    a,
                ) || has_change(other.account_changes@, a)),
            events_view(final(self).events@) == events_view(old(self).events@) + events_view(
                other.events@,
            ),
            final(self).gas_used == old(self).gas_used + other.gas_used,
            final(self).success == (old(self).success && other.success),
            err_view(final(self).error_message) == if !old(self).success {
                err_view(old(self).error_message)
            } else if !other.success {
                err_view(other.error_message)
            } else {
                err_view(old(self).error_message)
            },
    {
        let ghost base = self.account_changes@;
        let ghost oc = other.account_changes@;
        let n = other.account_changes.len();
        let mut j: usize = 0;
        while j < n
            invariant
                j <= n,
                n == oc.len(),
                oc == other.account_changes@,
                self.wf(),
                changes_wf(oc),
                forall|j2: int|
                    0 <= j2 < oc.len() ==> i64::MIN <= delta_of(
                        base,
                        (#[trigger] oc[j2]).address@,
                    ) + oc[j2].balance_delta <= i64::MAX,
                forall|j2: int|
                    0 <= j2 < oc.len() ==> inc_of(base, (#[trigger] oc[j2]).address@)
                        + oc[j2].sequence_increment <= u64::MAX,
                forall|a: Seq<u8>|
                    delta_of(self.account_changes@, a) == delta_of(base, a) + delta_of(
                        oc.take(j as int),
                        a,
                    ),
                forall|a: Seq<u8>|
                    inc_of(self.account_changes@, a) as int == inc_of(base, a) + inc_of(
                        oc.take(j as int),
                        a,
                    ),
                forall|a: Seq<u8>|
                    added_of(self.account_changes@, a) =~= added_of(base, a) + added_of(
                        oc.take(j as int),
                        a,
                    ),
                forall|a: Seq<u8>|
                    has_change(self.account_changes@, a) == (has_change(base, a) || has_change(
                        oc.take(j as int),
                        a,
                    )),
                self.events@ == old(self).events@,
                self.gas_used == old(self).gas_used,
                self.success == old(self).success,
                self.error_message == old(self).error_message,
            decreases n - j,
        {
            let ghost pre = self.account_changes@;
            proof {
                assert forall|i2: int, j2: int| 0 <= i2 < j2 < oc.take(j as int).len() implies oc.take(
                    j as int,
                )[i2].address@ != oc.take(j as int)[j2].address@ by {
                    assert(oc[i2].address@ != oc[j2].address@);
                }
                // The entry's address is new to the processed prefix.
                if has_change(oc.take(j as int), oc[j as int].address@) {
                    let k = chg_idx(oc.take(j as int), oc[j as int].address@);
                    assert(0 <= k < j && oc[k].address@ == oc[j as int].address@);
                    assert(false);
                }
                assert(delta_of(oc.take(j as int), oc[j as int].address@) == 0);
                assert(inc_of(oc.take(j as int), oc[j as int].address@) == 0);
                assert(added_of(oc.take(j as int), oc[j as int].address@)
                    =~= Seq::<Seq<char>>::empty());
            }
            let addr = other.account_changes[j].address.duplicate();
            let ghost av = addr@;
            let i = self.get_or_create_change(addr);
            let ghost s0 = self.account_changes@;
            let d = self.account_changes[i].balance_delta;
            let od = other.account_changes[j].balance_delta;
            let inc = self.account_changes[i].sequence_increment;
            let oinc = other.account_changes[j].sequence_increment;
            proof {
                assert(av == oc[j as int].address@);
                assert(d == delta_of(s0, av));
                assert(inc == inc_of(s0, av));
                assert(delta_of(s0, av) == delta_of(pre, av));
                assert(delta_of(pre, av) == delta_of(base, av));
                assert(inc_of(pre, av) == inc_of(base, av));
                assert(i64::MIN <= delta_of(base, oc[j as int].address@) + oc[
                    j as int].balance_delta <= i64::MAX);
                assert(inc_of(base, oc[j as int].address@) + oc[j as int].sequence_increment
                    <= u64::MAX);
                assert(added_of(s0, av) =~= added_of(pre, av));
                assert(added_of(pre, av) =~= added_of(base, av) + added_of(oc.take(j as int), av));
                assert(added_of(base, av) + Seq::<Seq<char>>::empty() =~= added_of(base, av));
                assert(added_of(s0, av) =~= added_of(base, av));
                assert(s0[i as int].modules_added@.map_values(|m: String| m@) == added_of(s0, av));
            }
            let nd = ((d as i128) + (od as i128)) as i64;
            // Build the concatenated module-name list.
            let mut mods: Vec<String> = Vec::new();
            let sm = self.account_changes[i].modules_added.len();
            let mut k: usize = 0;
            while k < sm
                invariant
                    k <= sm,
                    i < self.account_changes@.len(),
                    sm == self.account_changes@[i as int].modules_added@.len(),
                    mods@.len() == k,
                    forall|t: int|
                        0 <= t < k ==> (#[trigger] mods@[t])@ == self.account_changes@[
                            i as int].modules_added@[t]@,
                decreases sm - k,
            {
                mods.push(ident::clone_string(&self.account_changes[i].modules_added[k]));
                k = k + 1;
            }
            let om = other.account_changes[j].modules_added.len();
            let mut k: usize = 0;
            while k < om
                invariant
                    k <= om,
                    j < oc.len(),
                    oc == other.account_changes@,
                    om == oc[j as int].modules_added@.len(),
                    i < self.account_changes@.len(),
                    sm == self.account_changes@[i as int].modules_added@.len(),
                    mods@.len() == sm + k,
                    forall|t: int|
                        0 <= t < sm ==> (#[trigger] mods@[t])@ == self.account_changes@[
                            i as int].modules_added@[t]@,
                    forall|t: int|
                        sm <= t < sm + k ==> (#[trigger] mods@[t])@ == oc[j as int].modules_added@[t
                            - sm]@,
                decreases om - k,
            {
                mods.push(ident::clone_string(&other.account_changes[j].modules_added[k]));
                k = k + 1;
            }
            let merged = AccountChange {
                address: other.account_changes[j].address.duplicate(),
                balance_delta: nd,
                sequence_increment: inc + oinc,
                modules_added: mods,
            };
            self.account_changes[i] = merged;
            proof {
                let x = self.account_changes@[i as int];
                assert(self.account_changes@ =~= s0.update(i as int, x));
                assert(x.modules_added@.map_values(|m: String| m@) =~= s0[
                    i as int].modules_added@.map_values(|m: String| m@) + oc[
                    j as int].modules_added@.map_values(|m: String| m@));
                lemma_chg_at_idx(s0, i as int);
                assert(oc.take(j + 1) =~= oc.take(j as int).push(oc[j as int]));
                assert(x.address@ == av);
                assert(x.balance_delta == delta_of(base, av) + oc[j as int].balance_delta);
                assert(x.sequence_increment == inc_of(base, av) + oc[j as int].sequence_increment);
                assert(x.modules_added@.map_values(|m: String| m@) =~= added_of(base, av) + oc[
                    j as int].modules_added@.map_values(|m: String| m@));
                assert forall|a: Seq<u8>| #![all_triggers] delta_of(self.account_changes@, a)
                    == delta_of(base, a) + delta_of(oc.take(j + 1), a) && inc_of(
                    self.account_changes@,
                    a,
                ) as int == inc_of(base, a) + inc_of(oc.take(j + 1), a) && added_of(
                    self.account_changes@,
                    a,
                ) =~= added_of(base, a) + added_of(oc.take(j + 1), a) && has_change(
                    self.account_changes@,
                    a,
                ) == (has_change(base, a) || has_change(oc.take(j + 1), a)) by {
                    lemma_chg_update_keeps(s0, i as int, x, a);
                    lemma_chg_push_keeps(oc.take(j as int), oc[j as int], a);
                }
                assert(forall|t: int|
                    0 <= t < self.account_changes@.len() ==> (#[trigger] self.account_changes@[t]).address.wf());
            }
            j = j + 1;
        }
        proof {
            assert(oc.take(n as int) =~= oc);
        }
        // Append the other events in order.
        let ghost done = self.account_changes@;
        let ghost ebase = self.events@;
        let en = other.events.len();
        let mut k: usize = 0;
        while k < en
            invariant
                k <= en,
                en == other.events@.len(),
                self.account_changes@ == done,
                self.events@.len() == ebase.len() + k,
                forall|t: int| 0 <= t < ebase.len() ==> self.events@[t] == ebase[t],
                forall|t: int|
                    ebase.len() <= t < ebase.len() + k ==> evt_view(#[trigger] self.events@[t])
                        == evt_view(other.events@[t - ebase.len()]),
                self.gas_used == old(self).gas_used,
                self.success == old(self).success,
                self.error_message == old(self).error_message,
            decreases en - k,
        {
            let e = Event {
                key: crate::strutil::clone_bytes(&other.events[k].key),
                sequence_number: other.events[k].sequence_number,
                type_tag: ident::clone_string(&other.events[k].type_tag),
                event_data: crate::strutil::clone_bytes(&other.events[k].event_data),
            };
            self.events.push(e);
            k = k + 1;
        }
        proof {
            assert(events_view(self.events@) =~= events_view(ebase) + events_view(other.events@));
        }
        self.gas_used = self.gas_used + other.gas_used;
        if self.success && !other.success {
            self.success = false;
            self.error_message = other.error_message;
        }
    }

    /// Append an event.
    pub fn add_event(&mut self, event: Event)
        ensures
            final(self).events@ == old(self).events@.push(event),
            final(self).account_changes@ == old(self).account_changes@,
            final(self).gas_used == old(self).gas_used,
            final(self).success == old(self).success,
            final(self).error_message == old(self).error_message,
    {
        self.events.push(event);
    }
}

} // verus!
