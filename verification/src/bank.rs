//! The bank-facing state: per-address balance records, a transfer history,
//! and the MIST/KANARI conversions with a verified decimal formatter. A
//! transfer validates the request, builds the canonical transfer record,
//! reads the amount back out of it, and only then moves the balance.

use vstd::prelude::*;
use crate::address::Address;
use crate::codec;
use crate::strutil;

verus! {

/// One KANARI in MIST.
pub const MIST_PER_KANARI: u64 = 1_000_000_000;

/// Why a bank operation was refused. The state is unchanged in every case.
#[derive(PartialEq, Eq, Structural, Clone, Copy, Debug)]
pub enum BankError {
    /// The account already exists.
    AccountExists,
    /// The named account does not exist.
    AccountNotFound,
    /// The balance cannot cover the requested amount.
    InsufficientBalance,
    /// A balance or the total supply would pass `u64::MAX`.
    Overflow,
    /// The transfer request is invalid: a zero amount or a self-transfer.
    InvalidTransfer,
    /// The transfer record did not read back the requested amount.
    RecordMismatch,
}

/// A balance in MIST.
#[derive(PartialEq, Eq, Structural, Clone, Copy, Debug)]
pub struct BalanceRecord {
    pub value: u64,
}

impl BalanceRecord {
    /// A zero balance.
    pub fn zero() -> (r: BalanceRecord)
        ensures
            r.value == 0,
    {
        BalanceRecord { value: 0 }
    }

    /// A balance holding `value` MIST.
    pub fn new(value: u64) -> (r: BalanceRecord)
        ensures
            r.value == value,
    {
        BalanceRecord { value }
    }

    /// Add `amount`; refused past `u64::MAX`.
    pub fn increase(&mut self, amount: u64) -> (r: Result<(), BankError>)
        ensures
            r is Ok <==> old(self).value + amount <= u64::MAX,
            r is Ok ==> final(self).value == old(self).value + amount,
            r is Err ==> *final(self) == *old(self),
    {
        match self.value.checked_add(amount) {
            Some(v) => {
                self.value = v;
                Ok(())
            },
            None => Err(BankError::Overflow),
        }
    }

    /// Take `amount`; refused below zero.
    pub fn decrease(&mut self, amount: u64) -> (r: Result<(), BankError>)
        ensures
            r is Ok <==> amount <= old(self).value,
            r is Ok ==> final(self).value == old(self).value - amount,
            r is Err ==> *final(self) == *old(self),
    {
        if amount <= self.value {
            self.value = self.value - amount;
            Ok(())
        } else {
            Err(BankError::InsufficientBalance)
        }
    }

    /// Can this balance cover `amount`?
    pub fn is_sufficient(&self, amount: u64) -> (r: bool)
        ensures
            r == (self.value >= amount),
    {
        self.value >= amount
    }
}

/// One settled transfer.
pub struct TransferRecord {
    pub from: Address,
    pub to: Address,
    pub amount: u64,
}

impl TransferRecord {
    /// Build a record from its parts.
    pub fn from_addresses(from: Address, to: Address, amount: u64) -> (r: TransferRecord)
        ensures
            r.from@ == from@,
            r.to@ == to@,
            r.amount == amount,
    {
        TransferRecord { from, to, amount }
    }
}

/// The canonical bytes of a transfer record: both addresses, then the amount.
pub open spec fn transfer_record_bytes(fromv: Seq<u8>, tov: Seq<u8>, amount: u64) -> Seq<u8> {
    fromv + tov + codec::enc_u64(amount)
}

/// Is a transfer request valid? The amount must be positive and the parties
/// distinct.
pub open spec fn spec_valid_transfer(fromv: Seq<u8>, tov: Seq<u8>, amount: u64) -> bool {
    amount > 0 && fromv != tov
}

/// Check a transfer request.
pub fn validate_transfer(from: &Address, to: &Address, amount: u64) -> (r: bool)
    ensures
        r == spec_valid_transfer(from@, to@, amount),
{
    amount > 0 && !from.eq_addr(to)
}

/// Serialize a transfer record canonically.
pub fn create_transfer_record(from: &Address, to: &Address, amount: u64) -> (r: Vec<u8>)
    ensures
        r@ == transfer_record_bytes(from@, to@, amount),
{
    let mut out: Vec<u8> = Vec::new();
    strutil::append_to(from.bytes(), &mut out);
    strutil::append_to(to.bytes(), &mut out);
    codec::write_u64(amount, &mut out);
    proof {
        assert(out@ =~= transfer_record_bytes(from@, to@, amount));
    }
    out
}

/// Read the amount back out of a transfer record.
pub fn get_transfer_amount(record: &Vec<u8>) -> (r: Option<u64>)
    ensures
        forall|fromv: Seq<u8>, tov: Seq<u8>, amount: u64|
            fromv.len() == 32 && tov.len() == 32 && record@ == transfer_record_bytes(
                fromv,
                tov,
                amount,
            ) ==> r == Some(amount),
{
    if record.len() != 72 {
        proof {
            assert forall|fromv: Seq<u8>, tov: Seq<u8>, amount: u64|
                fromv.len() == 32 && tov.len() == 32 && record@ == transfer_record_bytes(
                    fromv,
                    tov,
                    amount,
                ) implies false by {}
        }
        return None;
    }
    match codec::read_u64(record, 64) {
        Some((v, _)) => {
            proof {
                assert forall|fromv: Seq<u8>, tov: Seq<u8>, amount: u64|
                    fromv.len() == 32 && tov.len() == 32 && record@ == transfer_record_bytes(
                        fromv,
                        tov,
                        amount,
                    ) implies v == amount by {
                    assert(record@.subrange(64, 72) =~= codec::enc_u64(amount));
                    codec::lemma_u64_roundtrip(amount, record@, 64);
                }
            }
            Some(v)
        },
        None => None,
    }
}

/// Convert whole KANARI to MIST.
pub fn kanari_to_mist(kanari: u64) -> (r: u64)
    requires
        kanari * MIST_PER_KANARI <= u64::MAX,
    ensures
        r == kanari * MIST_PER_KANARI,
{
    kanari * MIST_PER_KANARI
}

/// Convert MIST to whole KANARI, discarding the fractional part.
pub fn mist_to_kanari(mist: u64) -> (r: u64)
    ensures
        r == mist / MIST_PER_KANARI,
{
    mist / MIST_PER_KANARI
}

/// The characters of a MIST amount rendered in KANARI: the whole part, a
/// dot, nine fractional digits, and the unit name.
pub open spec fn kanari_text(mist: u64) -> Seq<char> {
    strutil::chars_of_bytes(
        strutil::dec_digits((mist / MIST_PER_KANARI) as nat) + seq![46u8] + strutil::dec_digits(
            (1_000_000_000 + mist % MIST_PER_KANARI) as nat,
        ).skip(1) + seq![32u8, 75u8, 65u8, 78u8, 65u8, 82u8, 73u8],
    )
}

/// Render a MIST amount as KANARI text.
pub fn format_kanari(mist: u64) -> (s: String)
    ensures
        s@ == kanari_text(mist),
{
    let whole = mist / MIST_PER_KANARI;
    let frac = mist % MIST_PER_KANARI;
    let mut out: Vec<u8> = Vec::new();
    strutil::push_decimal(whole, &mut out);
    out.push(46);
    // Nine zero-padded fractional digits: the digits of 10^9 + frac, with
    // the leading one dropped.
    let mut padded: Vec<u8> = Vec::new();
    strutil::push_decimal(1_000_000_000 + frac, &mut padded);
    let ghost mid = out@;
    let pn = padded.len();
    let mut k: usize = 1;
    proof {
        lemma_ten_digits(frac as nat);
    }
    while k < pn
        invariant
            1 <= k <= pn,
            pn == padded@.len(),
            out@ == mid + padded@.subrange(1, k as int),
        decreases pn - k,
    {
        out.push(padded[k]);
        proof {
            assert(out@ =~= mid + padded@.subrange(1, k + 1));
        }
        k = k + 1;
    }
    out.push(32);
    out.push(75);
    out.push(65);
    out.push(78);
    out.push(65);
    out.push(82);
    out.push(73);
    proof {
        assert(padded@.subrange(1, pn as int) =~= padded@.skip(1));
        assert(out@ =~= strutil::dec_digits((mist / MIST_PER_KANARI) as nat) + seq![46u8]
            + strutil::dec_digits((1_000_000_000 + mist % MIST_PER_KANARI) as nat).skip(1) + seq![
            32u8,
            75u8,
            65u8,
            78u8,
            65u8,
            82u8,
            73u8,
        ]);
        strutil::lemma_dec_digits_ascii((mist / MIST_PER_KANARI) as nat);
        strutil::lemma_dec_digits_ascii((1_000_000_000 + mist % MIST_PER_KANARI) as nat);
        assert(strutil::all_ascii(out@));
    }
    strutil::ascii_to_string(out)
}

/// The padded fractional digits are never empty: any number at or above one
/// billion has at least two decimal digits.
proof fn lemma_ten_digits(frac: nat)
    ensures
        strutil::dec_digits(1_000_000_000 + frac).len() >= 2,
{
    assert(strutil::dec_digits((1_000_000_000 + frac) / 10).len() >= 1) by {
        lemma_digits_nonempty((1_000_000_000 + frac) / 10);
    }
}

/// Decimal digit runs are nonempty.
proof fn lemma_digits_nonempty(n: nat)
    ensures
        strutil::dec_digits(n).len() >= 1,
    decreases n,
{
    if n >= 10 {
        lemma_digits_nonempty(n / 10);
    }
}

/// One account of the bank state.
pub struct BankAccount {
    pub address: Address,
    pub record: BalanceRecord,
}

/// Does some bank account have address `a`?
pub open spec fn bank_has(s: Seq<BankAccount>, a: Seq<u8>) -> bool {
    exists|i: int| 0 <= i < s.len() && s[i].address@ == a
}

/// The index of the bank account with address `a`.
pub open spec fn bank_idx(s: Seq<BankAccount>, a: Seq<u8>) -> int {
    choose|i: int| 0 <= i < s.len() && s[i].address@ == a
}

/// The bank balance of address `a`, zero when absent.
pub open spec fn bank_balance(s: Seq<BankAccount>, a: Seq<u8>) -> u64 {
    if bank_has(s, a) {
        s[bank_idx(s, a)].record.value
    } else {
        0u64
    }
}

/// Bank addresses are pairwise distinct.
pub open spec fn bank_uniq(s: Seq<BankAccount>) -> bool {
    forall|i: int, j: int| 0 <= i < j < s.len() ==> s[i].address@ != s[j].address@
}

/// The bank account at a valid index is the one its address looks up.
proof fn lemma_bank_at(s: Seq<BankAccount>, i: int)
    requires
        bank_uniq(s),
        0 <= i < s.len(),
    ensures
        bank_has(s, s[i].address@),
        bank_idx(s, s[i].address@) == i,
{
    assert(bank_has(s, s[i].address@));
    let j = bank_idx(s, s[i].address@);
    assert(0 <= j < s.len() && s[j].address@ == s[i].address@);
    if j < i {
        assert(s[j].address@ != s[i].address@);
    }
    if i < j {
        assert(s[i].address@ != s[j].address@);
    }
}

/// Replacing or appending a bank account: lookups at the address see the new
/// record, lookups elsewhere are untouched.
proof fn lemma_bank_update(s: Seq<BankAccount>, i: int, x: BankAccount, a: Seq<u8>)
    requires
        bank_uniq(s),
        0 <= i < s.len(),
        x.address@ == s[i].address@,
    ensures
        bank_uniq(s.update(i, x)),
        bank_has(s.update(i, x), a) == bank_has(s, a),
        bank_balance(s.update(i, x), a) == if a == x.address@ {
            x.record.value
        } else {
            bank_balance(s, a)
        },
{
    let t = s.update(i, x);
    assert(forall|k: int| 0 <= k < s.len() ==> (#[trigger] t[k]).address@ == s[k].address@);
    assert(bank_uniq(t));
    if bank_has(s, a) {
        let j = bank_idx(s, a);
        assert(0 <= j < s.len() && s[j].address@ == a);
        assert(t[j].address@ == a);
        assert(bank_has(t, a));
        lemma_bank_at(t, j);
        if a == x.address@ {
            lemma_bank_at(s, i);
        }
    } else {
        if bank_has(t, a) {
            let k = bank_idx(t, a);
            assert(s[k].address@ == a);
        }
    }
}

/// Appending a bank account with a fresh address.
proof fn lemma_bank_push(s: Seq<BankAccount>, x: BankAccount, a: Seq<u8>)
    requires
        bank_uniq(s),
        !bank_has(s, x.address@),
    ensures
        bank_uniq(s.push(x)),
        bank_has(s.push(x), a) == (bank_has(s, a) || a == x.address@),
        bank_balance(s.push(x), a) == if a == x.address@ {
            x.record.value
        } else {
            bank_balance(s, a)
        },
{
    let t = s.push(x);
    assert(forall|k: int| 0 <= k < s.len() ==> (#[trigger] t[k]).address@ == s[k].address@);
    assert(t[s.len() as int].address@ == x.address@);
    assert forall|i: int, j: int| 0 <= i < j < t.len() implies t[i].address@ != t[j].address@ by {
        if j == s.len() {
            if t[i].address@ == x.address@ {
                assert(bank_has(s, x.address@));
            }
        }
    }
    if a == x.address@ {
        lemma_bank_at(t, s.len() as int);
    } else {
        if bank_has(s, a) {
            let j = bank_idx(s, a);
            assert(t[j].address@ == a);
            assert(bank_has(t, a));
            lemma_bank_at(t, j);
        } else {
            if bank_has(t, a) {
                let k = bank_idx(t, a);
                assert(k != s.len());
                assert(s[k].address@ == a);
            }
        }
    }
}

/// The bank state: balances, settled transfers, and the minted supply.
pub struct MoveVMState {
    pub accounts: Vec<BankAccount>,
    pub transfers: Vec<TransferRecord>,
    pub total_supply: u64,
}

impl MoveVMState {
    /// Distinct account addresses.
    pub open spec fn wf(&self) -> bool {
        bank_uniq(self.accounts@)
    }

    /// An empty bank state.
    pub fn new() -> (s: MoveVMState)
        ensures
            s.wf(),
            s.accounts@.len() == 0,
            s.transfers@.len() == 0,
            s.total_supply == 0,
    {
        MoveVMState { accounts: Vec::new(), transfers: Vec::new(), total_supply: 0 }
    }

    /// Convert whole KANARI to MIST.
    pub fn kanari_to_mist(kanari: u64) -> (r: u64)
        requires
            kanari * MIST_PER_KANARI <= u64::MAX,
        ensures
            r == kanari * MIST_PER_KANARI,
    {
        kanari_to_mist(kanari)
    }

    /// Convert MIST to whole KANARI.
    pub fn mist_to_kanari(mist: u64) -> (r: u64)
        ensures
            r == mist / MIST_PER_KANARI,
    {
        mist_to_kanari(mist)
    }

    /// Render a MIST amount as KANARI text.
    pub fn format_balance(mist: u64) -> (s: String)
        ensures
            s@ == kanari_text(mist),
    {
        format_kanari(mist)
    }

    /// The minted supply.
    pub fn get_total_supply(&self) -> (r: u64)
        ensures
            r == self.total_supply,
    {
        self.total_supply
    }

    /// The minted supply as KANARI text.
    pub fn get_total_supply_formatted(&self) -> (s: String)
        ensures
            s@ == kanari_text(self.total_supply),
    {
        format_kanari(self.total_supply)
    }

    /// The index of the bank account with the given address, if any.
    fn find(&self, address: &Address) -> (r: Option<usize>)
        requires
            self.wf(),
        ensures
            r is Some <==> bank_has(self.accounts@, address@),
            r matches Some(i) ==> i < self.accounts@.len() && i == bank_idx(
                self.accounts@,
                address@,
            ) && self.accounts@[i as int].address@ == address@,
    {
        let n = self.accounts.len();
        let mut i: usize = 0;
        while i < n
            invariant
                i <= n,
                n == self.accounts@.len(),
                self.wf(),
                forall|j: int| 0 <= j < i ==> (#[trigger] self.accounts@[j]).address@ != address@,
            decreases n - i,
        {
            if self.accounts[i].address.eq_addr(address) {
                proof {
                    lemma_bank_at(self.accounts@, i as int);
                }
                return Some(i);
            }
            i = i + 1;
        }
        proof {
            if bank_has(self.accounts@, address@) {
                let j = bank_idx(self.accounts@, address@);
                assert(0 <= j < n && self.accounts@[j].address@ == address@);
            }
        }
        None
    }

    /// Create an account with a zero balance; refused when it exists.
    pub fn create_account(&mut self, address: Address) -> (r: Result<(), BankError>)
        requires
            old(self).wf(),
        ensures
            final(self).wf(),
            final(self).total_supply == old(self).total_supply,
            final(self).transfers@ == old(self).transfers@,
            r is Ok <==> !bank_has(old(self).accounts@, address@),
            r is Err ==> *final(self) == *old(self) && r == Result::<(), BankError>::Err(
                BankError::AccountExists,
            ),
            forall|a: Seq<u8>|
                bank_balance(final(self).accounts@, a) == bank_balance(old(self).accounts@, a),
            r is Ok ==> forall|a: Seq<u8>|
                bank_has(final(self).accounts@, a) == (bank_has(old(self).accounts@, a) || a
                    == address@),
    {
        match self.find(&address) {
            Some(_) => Err(BankError::AccountExists),
            None => {
                let fresh = BankAccount { address, record: BalanceRecord::zero() };
                let ghost pre = self.accounts@;
                self.accounts.push(fresh);
                proof {
                    assert forall|a: Seq<u8>| #![all_triggers] bank_balance(self.accounts@, a)
                        == bank_balance(pre, a) && bank_has(self.accounts@, a) == (bank_has(pre, a)
                        || a == fresh.address@) by {
                        lemma_bank_push(pre, fresh, a);
                        if a == fresh.address@ {
                            assert(bank_balance(pre, a) == 0);
                        }
                    }
                    lemma_bank_push(pre, fresh, fresh.address@);
                }
                Ok(())
            },
        }
    }

    /// The balance of an address, zero when absent.
    pub fn get_balance(&self, address: &Address) -> (r: u64)
        requires
            self.wf(),
        ensures
            r == bank_balance(self.accounts@, address@),
    {
        match self.find(address) {
            Some(i) => self.accounts[i].record.value,
            None => 0,
        }
    }

    /// The balance of an address as KANARI text.
    pub fn get_balance_formatted(&self, address: &Address) -> (s: String)
        requires
            self.wf(),
        ensures
            s@ == kanari_text(bank_balance(self.accounts@, address@)),
    {
        format_kanari(self.get_balance(address))
    }

    /// The balance record of an address.
    pub fn get_balance_record(&self, address: &Address) -> (r: Option<&BalanceRecord>)
        requires
            self.wf(),
        ensures
            r is Some <==> bank_has(self.accounts@, address@),
            r matches Some(b) ==> b.value == bank_balance(self.accounts@, address@),
    {
        match self.find(address) {
            Some(i) => Some(&self.accounts[i].record),
            None => None,
        }
    }

    /// Set the balance of an address, creating the account when missing.
    pub fn set_balance(&mut self, address: Address, balance_mist: u64) -> (r: Result<(), BankError>)
        requires
            old(self).wf(),
        ensures
            final(self).wf(),
            final(self).total_supply == old(self).total_supply,
            final(self).transfers@ == old(self).transfers@,
            r is Ok,
            forall|a: Seq<u8>|
                bank_balance(final(self).accounts@, a) == if a == address@ {
                    balance_mist
                } else {
                    bank_balance(old(self).accounts@, a)
                },
    {
        let ghost pre = self.accounts@;
        match self.find(&address) {
            Some(i) => {
                self.accounts[i].record = BalanceRecord::new(balance_mist);
                proof {
                    let x = self.accounts@[i as int];
                    assert(self.accounts@ =~= pre.update(i as int, x));
                    assert forall|a: Seq<u8>| #![all_triggers] bank_balance(self.accounts@, a) == (
                    if a == address@ {
                        balance_mist
                    } else {
                        bank_balance(pre, a)
                    }) by {
                        lemma_bank_update(pre, i as int, x, a);
                    }
                }
                Ok(())
            },
            None => {
                let fresh = BankAccount { address, record: BalanceRecord::new(balance_mist) };
                self.accounts.push(fresh);
                proof {
                    assert forall|a: Seq<u8>| #![all_triggers] bank_balance(self.accounts@, a) == (
                    if a == fresh.address@ {
                        balance_mist
                    } else {
                        bank_balance(pre, a)
                    }) by {
                        lemma_bank_push(pre, fresh, a);
                    }
                    lemma_bank_push(pre, fresh, fresh.address@);
                }
                Ok(())
            },
        }
    }

    /// Mint MIST to an address, creating the account when missing and
    /// raising the minted supply.
    pub fn mint(&mut self, address: Address, amount: u64) -> (r: Result<(), BankError>)
        requires
            old(self).wf(),
        ensures
            final(self).wf(),
            final(self).transfers@ == old(self).transfers@,
            r is Ok <==> bank_balance(old(self).accounts@, address@) + amount <= u64::MAX && old(
                self,
            ).total_supply + amount <= u64::MAX,
            r is Err ==> *final(self) == *old(self),
            r is Ok ==> final(self).total_supply == old(self).total_supply + amount,
            r is Ok ==> forall|a: Seq<u8>|
                bank_balance(final(self).accounts@, a) as int == bank_balance(
                    old(self).accounts@,
                    a,
                ) + (if a == address@ {
                    amount as int
                } else {
                    0int
                }),
    {
        let cur = self.get_balance(&address);
        let nb = match cur.checked_add(amount) {
            Some(v) => v,
            None => {
                return Err(BankError::Overflow);
            },
        };
        let ns = match self.total_supply.checked_add(amount) {
            Some(v) => v,
            None => {
                return Err(BankError::Overflow);
            },
        };
        let r = self.set_balance(address, nb);
        self.total_supply = ns;
        Ok(())
    }

    /// Transfer MIST between distinct accounts. The request is validated,
    /// the canonical transfer record is built and its amount read back, and
    /// only then does the balance move; the settled transfer is recorded.
    pub fn transfer(&mut self, from: &Address, to: &Address, amount: u64) -> (r: Result<
        (),
        BankError,
    >)
        requires
            old(self).wf(),
            from.wf(),
            to.wf(),
        ensures
            final(self).wf(),
            final(self).total_supply == old(self).total_supply,
            r is Ok <==> bank_has(old(self).accounts@, from@) && bank_balance(
                old(self).accounts@,
                from@,
            ) >= amount && spec_valid_transfer(from@, to@, amount) && bank_balance(
                old(self).accounts@,
                to@,
            ) + amount <= u64::MAX,
            r is Err ==> *final(self) == *old(self),
            r is Ok ==> forall|a: Seq<u8>|
                bank_balance(final(self).accounts@, a) as int == bank_balance(
                    old(self).accounts@,
                    a,
                ) - (if a == from@ {
                    amount as int
                } else {
                    0int
                }) + (if a == to@ {
                    amount as int
                } else {
                    0int
                }),
            r is Ok ==> final(self).transfers@.len() == old(self).transfers@.len() + 1,
    {
        let fi = match self.find(from) {
            Some(i) => i,
            None => {
                return Err(BankError::AccountNotFound);
            },
        };
        let bal = self.accounts[fi].record.value;
        if bal < amount {
            return Err(BankError::InsufficientBalance);
        }
        if !validate_transfer(from, to, amount) {
            return Err(BankError::InvalidTransfer);
        }
        let record = create_transfer_record(from, to, amount);
        let moved = match get_transfer_amount(&record) {
            Some(v) => v,
            None => {
                return Err(BankError::RecordMismatch);
            },
        };
        if moved != amount {
            return Err(BankError::RecordMismatch);
        }
        let to_bal = self.get_balance(to);
        if to_bal > u64::MAX - amount {
            return Err(BankError::Overflow);
        }
        // Move the balance.
        let ghost pre = self.accounts@;
        self.accounts[fi].record = BalanceRecord::new(bal - amount);
        let ghost mid = self.accounts@;
        proof {
            let x = mid[fi as int];
            assert(mid =~= pre.update(fi as int, x));
            lemma_bank_at(pre, fi as int);
            assert forall|a: Seq<u8>| #![all_triggers] bank_balance(mid, a) == (if a == from@ {
                bank_balance(pre, a) - amount
            } else {
                bank_balance(pre, a) as int
            }) && bank_has(mid, a) == bank_has(pre, a) by {
                lemma_bank_update(pre, fi as int, x, a);
            }
        }
        match self.find(to) {
            Some(ti) => {
                let tb = self.accounts[ti].record.value;
                self.accounts[ti].record = BalanceRecord::new(tb + amount);
                proof {
                    let y = self.accounts@[ti as int];
                    assert(self.accounts@ =~= mid.update(ti as int, y));
                    lemma_bank_at(mid, ti as int);
                    assert forall|a: Seq<u8>| #![all_triggers] bank_balance(self.accounts@, a) == (
                    if a == to@ {
                        bank_balance(mid, a) + amount
                    } else {
                        bank_balance(mid, a) as int
                    }) by {
                        lemma_bank_update(mid, ti as int, y, a);
                    }
                }
            },
            None => {
                let fresh = BankAccount {
                    address: to.duplicate(),
                    record: BalanceRecord::new(amount),
                };
                self.accounts.push(fresh);
                proof {
                    assert forall|a: Seq<u8>| #![all_triggers] bank_balance(self.accounts@, a) == (
                    if a == to@ {
                        bank_balance(mid, a) + amount
                    } else {
                        bank_balance(mid, a) as int
                    }) by {
                        lemma_bank_push(mid, fresh, a);
                        if a == to@ {
                            assert(bank_balance(mid, a) == 0);
                        }
                    }
                    lemma_bank_push(mid, fresh, fresh.address@);
                }
            },
        }
        self.transfers.push(TransferRecord::from_addresses(from.duplicate(), to.duplicate(), amount));
        Ok(())
    }
}

} // verus!
