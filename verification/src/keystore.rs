//! The keystore: encrypted wallet entries keyed by address, the mnemonic
//! store, and session keys. Only the data structure lives here — reading and
//! writing the keystore file, and the encryption itself, happen outside and
//! hand in opaque encrypted blobs.

use vstd::prelude::*;
use crate::ident::{clone_string, string_eq};

verus! {

/// Why a keystore operation was refused.
#[derive(PartialEq, Eq, Structural, Clone, Copy, Debug)]
pub enum KeystoreError {
    /// No entry under that address.
    KeyNotFound,
}

/// An encrypted blob: ciphertext with the nonce and salt that produced it.
pub struct EncryptedData {
    pub ciphertext: Vec<u8>,
    pub nonce: Vec<u8>,
    pub salt: Vec<u8>,
}

/// The mnemonic store: derived addresses and the encrypted phrase.
pub struct MnemonicStore {
    pub addresses: Vec<String>,
    pub mnemonic_phrase_encryption: Option<EncryptedData>,
}

/// One keyed entry.
pub struct KeyEntry {
    pub address: String,
    pub data: EncryptedData,
}

/// One session entry.
pub struct SessionEntry {
    pub name: String,
    pub value: String,
}

/// Does some entry carry key `k`?
pub open spec fn entry_has(s: Seq<KeyEntry>, k: Seq<char>) -> bool {
    exists|i: int| 0 <= i < s.len() && s[i].address@ == k
}

/// The index of the entry with key `k`.
pub open spec fn entry_idx(s: Seq<KeyEntry>, k: Seq<char>) -> int {
    choose|i: int| 0 <= i < s.len() && s[i].address@ == k
}

/// Does some session entry carry key `k`?
pub open spec fn session_has(s: Seq<SessionEntry>, k: Seq<char>) -> bool {
    exists|i: int| 0 <= i < s.len() && s[i].name@ == k
}

/// The index of the session entry with key `k`.
pub open spec fn session_idx(s: Seq<SessionEntry>, k: Seq<char>) -> int {
    choose|i: int| 0 <= i < s.len() && s[i].name@ == k
}

/// Keys are pairwise distinct.
pub open spec fn entries_uniq(s: Seq<KeyEntry>) -> bool {
    forall|i: int, j: int| 0 <= i < j < s.len() ==> s[i].address@ != s[j].address@
}

/// Session keys are pairwise distinct.
pub open spec fn sessions_uniq(s: Seq<SessionEntry>) -> bool {
    forall|i: int, j: int| 0 <= i < j < s.len() ==> s[i].name@ != s[j].name@
}

/// The stored value of session key `k`.
pub open spec fn session_value(s: Seq<SessionEntry>, k: Seq<char>) -> Seq<char>
    recommends
        session_has(s, k),
{
    s[session_idx(s, k)].value@
}

/// Is `k` among the mnemonic-derived addresses?
pub open spec fn mnemonic_has(addrs: Seq<String>, k: Seq<char>) -> bool {
    exists|i: int| 0 <= i < addrs.len() && (#[trigger] addrs[i])@ == k
}

/// The wallet keystore.
pub struct Keystore {
    pub keys: Vec<KeyEntry>,
    pub mnemonic: MnemonicStore,
    pub session_keys: Vec<SessionEntry>,
    pub password_hash: Option<String>,
    pub is_password_empty: bool,
}

impl Keystore {
    /// Distinct wallet and session keys.
    pub open spec fn wf(&self) -> bool {
        entries_uniq(self.keys@) && sessions_uniq(self.session_keys@)
    }

    /// An empty keystore.
    pub fn new() -> (k: Keystore)
        ensures
            k.wf(),
            k.keys@.len() == 0,
            k.session_keys@.len() == 0,
            k.mnemonic.addresses@.len() == 0,
            k.mnemonic.mnemonic_phrase_encryption is None,
            k.password_hash is None,
            k.is_password_empty == false,
    {
        Keystore {
            keys: Vec::new(),
            mnemonic: MnemonicStore { addresses: Vec::new(), mnemonic_phrase_encryption: None },
            session_keys: Vec::new(),
            password_hash: None,
            is_password_empty: false,
        }
    }

    /// The index of the wallet entry under an address, if any.
    fn find_key(&self, address: &str) -> (r: Option<usize>)
        requires
            self.wf(),
        ensures
            r is Some <==> entry_has(self.keys@, address@),
            r matches Some(i) ==> i < self.keys@.len() && i == entry_idx(self.keys@, address@)
                && self.keys@[i as int].address@ == address@,
    {
        let n = self.keys.len();
        let mut i: usize = 0;
        while i < n
            invariant
                i <= n,
                n == self.keys@.len(),
                self.wf(),
                forall|j: int| 0 <= j < i ==> (#[trigger] self.keys@[j]).address@ != address@,
            decreases n - i,
        {
            if str_eq_string(address, &self.keys[i].address) {
                proof {
                    lemma_entry_at(self.keys@, i as int);
                }
                return Some(i);
            }
            i = i + 1;
        }
        proof {
            if entry_has(self.keys@, address@) {
                let j = entry_idx(self.keys@, address@);
                assert(0 <= j < n && self.keys@[j].address@ == address@);
            }
        }
        None
    }

    /// Store a wallet under an address, replacing any previous entry.
    pub fn add_wallet(&mut self, address: &str, encrypted_data: EncryptedData) -> (r: Result<
        (),
        KeystoreError,
    >)
        requires
            old(self).wf(),
        ensures
            final(self).wf(),
            r is Ok,
            entry_has(final(self).keys@, address@),
            final(self).keys@[entry_idx(final(self).keys@, address@)].data == encrypted_data,
            forall|k: Seq<char>|
                k != address@ ==> entry_has(final(self).keys@, k) == entry_has(
                    old(self).keys@,
                    k,
                ),
            final(self).mnemonic.addresses@ == old(self).mnemonic.addresses@,
            final(self).session_keys@ == old(self).session_keys@,
    {
        match self.find_key(address) {
            Some(i) => {
                let ghost pre = self.keys@;
                let entry = KeyEntry { address: str_owned(address), data: encrypted_data };
                self.keys[i] = entry;
                proof {
                    let x = self.keys@[i as int];
                    assert(self.keys@ =~= pre.update(i as int, x));
                    assert(forall|k2: int|
                        0 <= k2 < self.keys@.len() ==> (#[trigger] self.keys@[k2]).address@
                            == pre[k2].address@);
                    lemma_entry_at(self.keys@, i as int);
                    assert forall|k: Seq<char>|
                        k != address@ implies entry_has(self.keys@, k) == entry_has(pre, k) by {
                        if entry_has(pre, k) {
                            let j = entry_idx(pre, k);
                            assert(self.keys@[j].address@ == k);
                        }
                        if entry_has(self.keys@, k) {
                            let j = entry_idx(self.keys@, k);
                            assert(pre[j].address@ == k);
                        }
                    }
                }
                Ok(())
            },
            None => {
                let ghost pre = self.keys@;
                let entry = KeyEntry { address: str_owned(address), data: encrypted_data };
                self.keys.push(entry);
                proof {
                    assert(forall|k2: int| 0 <= k2 < pre.len() ==> self.keys@[k2] == pre[k2]);
                    assert(self.keys@.last().address@ == address@);
                    assert forall|i2: int, j2: int|
                        0 <= i2 < j2 < self.keys@.len() implies self.keys@[i2].address@
                        != self.keys@[j2].address@ by {
                        if j2 == pre.len() {
                            if self.keys@[i2].address@ == address@ {
                                assert(entry_has(pre, address@));
                            }
                        }
                    }
                    lemma_entry_at(self.keys@, pre.len() as int);
                    assert forall|k: Seq<char>|
                        k != address@ implies entry_has(self.keys@, k) == entry_has(pre, k) by {
                        if entry_has(pre, k) {
                            let j = entry_idx(pre, k);
                            assert(self.keys@[j].address@ == k);
                        }
                        if entry_has(self.keys@, k) {
                            let j = entry_idx(self.keys@, k);
                            assert(j != pre.len());
                            assert(pre[j].address@ == k);
                        }
                    }
                }
                Ok(())
            },
        }
    }

    /// The wallet under an address.
    pub fn get_wallet(&self, address: &str) -> (r: Option<&EncryptedData>)
        requires
            self.wf(),
        ensures
            r is Some <==> entry_has(self.keys@, address@),
    {
        match self.find_key(address) {
            Some(i) => Some(&self.keys[i].data),
            None => None,
        }
    }

    /// Remove the wallet under an address, and the address from the
    /// mnemonic-derived list; refused when no such wallet exists.
    pub fn remove_wallet(&mut self, address: &str) -> (r: Result<(), KeystoreError>)
        requires
            old(self).wf(),
        ensures
            final(self).wf(),
            r is Ok <==> entry_has(old(self).keys@, address@),
            r is Err ==> *final(self) == *old(self) && r == Result::<(), KeystoreError>::Err(
                KeystoreError::KeyNotFound,
            ),
            !entry_has(final(self).keys@, address@),
            r is Ok ==> forall|k: Seq<char>|
                k != address@ ==> entry_has(final(self).keys@, k) == entry_has(old(self).keys@, k),
            r is Ok ==> forall|i: int|
                0 <= i < final(self).mnemonic.addresses@.len()
                    ==> (#[trigger] final(self).mnemonic.addresses@[i])@ != address@,
            final(self).session_keys@ == old(self).session_keys@,
    {
        let i = match self.find_key(address) {
            Some(i) => i,
            None => {
                return Err(KeystoreError::KeyNotFound);
            },
        };
        let ghost pre = self.keys@;
        self.keys.remove(i);
        proof {
            assert(self.keys@ =~= pre.take(i as int) + pre.skip(i + 1));
            assert forall|i2: int, j2: int|
                0 <= i2 < j2 < self.keys@.len() implies self.keys@[i2].address@
                != self.keys@[j2].address@ by {
                let m1 = if i2 < i {
                    i2
                } else {
                    i2 + 1
                };
                let m2 = if j2 < i {
                    j2
                } else {
                    j2 + 1
                };
                assert(self.keys@[i2] == pre[m1]);
                assert(self.keys@[j2] == pre[m2]);
            }
            assert forall|k: Seq<char>| entry_has(self.keys@, k) implies entry_has(pre, k) && (k
                == address@ ==> false) by {
                let j = entry_idx(self.keys@, k);
                let m = if j < i {
                    j
                } else {
                    j + 1
                };
                assert(self.keys@[j] == pre[m]);
                assert(pre[m].address@ == k);
                if k == address@ {
                    lemma_entry_at(pre, i as int);
                    assert(m != i);
                    assert(pre[m].address@ != pre[i as int].address@);
                }
            }
            assert forall|k: Seq<char>| k != address@ && entry_has(pre, k) implies entry_has(
                self.keys@,
                k,
            ) by {
                let j = entry_idx(pre, k);
                assert(j != i);
                if j < i {
                    assert(self.keys@[j] == pre[j]);
                } else {
                    assert(self.keys@[j - 1] == pre[j]);
                }
            }
        }
        // Drop the address from the mnemonic-derived list as well.
        let mut kept: Vec<String> = Vec::new();
        let n = self.mnemonic.addresses.len();
        let mut t: usize = 0;
        while t < n
            invariant
                t <= n,
                n == self.mnemonic.addresses@.len(),
                forall|j: int| 0 <= j < kept@.len() ==> (#[trigger] kept@[j])@ != address@,
            decreases n - t,
        {
            if !str_eq_string(address, &self.mnemonic.addresses[t]) {
                kept.push(clone_string(&self.mnemonic.addresses[t]));
            }
            t = t + 1;
        }
        self.mnemonic.addresses = kept;
        Ok(())
    }

    /// Is a wallet stored under this address?
    pub fn wallet_exists(&self, address: &str) -> (r: bool)
        requires
            self.wf(),
        ensures
            r == entry_has(self.keys@, address@),
    {
        self.find_key(address).is_some()
    }

    /// The stored wallet addresses, in order.
    pub fn list_wallets(&self) -> (r: Vec<String>)
        ensures
            r@.len() == self.keys@.len(),
            forall|i: int| 0 <= i < r@.len() ==> (#[trigger] r@[i])@ == self.keys@[i].address@,
    {
        let mut out: Vec<String> = Vec::new();
        let n = self.keys.len();
        let mut i: usize = 0;
        while i < n
            invariant
                i <= n,
                n == self.keys@.len(),
                out@.len() == i,
                forall|j: int| 0 <= j < i ==> (#[trigger] out@[j])@ == self.keys@[j].address@,
            decreases n - i,
        {
            out.push(clone_string(&self.keys[i].address));
            i = i + 1;
        }
        out
    }

    /// Store the encrypted mnemonic phrase and its derived addresses.
    pub fn set_mnemonic(&mut self, encrypted_mnemonic: EncryptedData, addresses: Vec<String>) -> (r:
        Result<(), KeystoreError>)
        ensures
            r is Ok,
            final(self).mnemonic.mnemonic_phrase_encryption == Some(encrypted_mnemonic),
            final(self).mnemonic.addresses@ == addresses@,
            final(self).keys@ == old(self).keys@,
            final(self).session_keys@ == old(self).session_keys@,
            old(self).wf() ==> final(self).wf(),
    {
        self.mnemonic.mnemonic_phrase_encryption = Some(encrypted_mnemonic);
        self.mnemonic.addresses = addresses;
        Ok(())
    }

    /// The encrypted mnemonic phrase, if any.
    pub fn get_mnemonic(&self) -> (r: Option<&EncryptedData>)
        ensures
            r is Some <==> self.mnemonic.mnemonic_phrase_encryption is Some,
    {
        self.mnemonic.mnemonic_phrase_encryption.as_ref()
    }

    /// The mnemonic-derived addresses.
    pub fn get_mnemonic_addresses(&self) -> (r: &Vec<String>)
        ensures
            r@ == self.mnemonic.addresses@,
    {
        &self.mnemonic.addresses
    }

    /// Record one more mnemonic-derived address, once: the address is listed
    /// afterwards, a second call changes nothing, and no duplicate is ever
    /// introduced.
    pub fn add_mnemonic_address(&mut self, address: &str) -> (r: Result<(), KeystoreError>)
        ensures
            r is Ok,
            mnemonic_has(final(self).mnemonic.addresses@, address@),
            mnemonic_has(old(self).mnemonic.addresses@, address@) ==> final(self).mnemonic.addresses@ == old(self).mnemonic.addresses@,
            !mnemonic_has(old(self).mnemonic.addresses@, address@) ==> final(self).mnemonic.addresses@.len() == old(self).mnemonic.addresses@.len() + 1 && (final(self).mnemonic.addresses@.last())@ == address@ && forall|j: int|
                0 <= j < old(self).mnemonic.addresses@.len() ==> final(self).mnemonic.addresses@[j]
                    == old(self).mnemonic.addresses@[j],
            final(self).mnemonic.mnemonic_phrase_encryption == old(self).mnemonic.mnemonic_phrase_encryption,
            final(self).keys@ == old(self).keys@,
            final(self).session_keys@ == old(self).session_keys@,
            old(self).wf() ==> final(self).wf(),
    {
        let n = self.mnemonic.addresses.len();
        let mut i: usize = 0;
        while i < n
            invariant
                i <= n,
                n == self.mnemonic.addresses@.len(),
                forall|j: int| 0 <= j < i ==> (#[trigger] self.mnemonic.addresses@[j])@ != address@,
            decreases n - i,
        {
            if str_eq_string(address, &self.mnemonic.addresses[i]) {
                proof {
                    assert(mnemonic_has(self.mnemonic.addresses@, address@));
                }
                return Ok(());
            }
            i = i + 1;
        }
        proof {
            if mnemonic_has(self.mnemonic.addresses@, address@) {
                let j = choose|j: int|
                    0 <= j < self.mnemonic.addresses@.len()
                        && (#[trigger] self.mnemonic.addresses@[j])@ == address@;
                assert(self.mnemonic.addresses@[j]@ == address@);
            }
        }
        self.mnemonic.addresses.push(str_owned(address));
        proof {
            assert((self.mnemonic.addresses@.last())@ == address@);
            assert(mnemonic_has(self.mnemonic.addresses@, address@));
        }
        Ok(())
    }

    /// Forget the mnemonic phrase and every derived address.
    pub fn remove_mnemonic(&mut self) -> (r: Result<(), KeystoreError>)
        ensures
            r is Ok,
            final(self).mnemonic.mnemonic_phrase_encryption is None,
            final(self).mnemonic.addresses@.len() == 0,
            final(self).keys@ == old(self).keys@,
            final(self).session_keys@ == old(self).session_keys@,
            old(self).wf() ==> final(self).wf(),
    {
        self.mnemonic.mnemonic_phrase_encryption = None;
        self.mnemonic.addresses = Vec::new();
        Ok(())
    }

    /// The index of a session entry, if any.
    fn find_session(&self, key: &str) -> (r: Option<usize>)
        requires
            self.wf(),
        ensures
            r is Some <==> session_has(self.session_keys@, key@),
            r matches Some(i) ==> i < self.session_keys@.len() && i == session_idx(
                self.session_keys@,
                key@,
            ) && self.session_keys@[i as int].name@ == key@,
    {
        let n = self.session_keys.len();
        let mut i: usize = 0;
        while i < n
            invariant
                i <= n,
                n == self.session_keys@.len(),
                self.wf(),
                forall|j: int| 0 <= j < i ==> (#[trigger] self.session_keys@[j]).name@ != key@,
            decreases n - i,
        {
            if str_eq_string(key, &self.session_keys[i].name) {
                proof {
                    lemma_session_at(self.session_keys@, i as int);
                }
                return Some(i);
            }
            i = i + 1;
        }
        proof {
            if session_has(self.session_keys@, key@) {
                let j = session_idx(self.session_keys@, key@);
                assert(0 <= j < n && self.session_keys@[j].name@ == key@);
            }
        }
        None
    }

    /// Store a session key, replacing any previous value: afterwards the key
    /// holds exactly this value and every other key is untouched.
    pub fn add_session_key(&mut self, key: &str, value: &str) -> (r: Result<(), KeystoreError>)
        requires
            old(self).wf(),
        ensures
            final(self).wf(),
            r is Ok,
            session_has(final(self).session_keys@, key@),
            session_value(final(self).session_keys@, key@) == value@,
            forall|k: Seq<char>|
                k != key@ ==> session_has(final(self).session_keys@, k) == session_has(
                    old(self).session_keys@,
                    k,
                ),
            forall|k: Seq<char>|
                k != key@ && session_has(old(self).session_keys@, k) ==> session_value(
                    final(self).session_keys@,
                    k,
                ) == session_value(old(self).session_keys@, k),
            final(self).keys@ == old(self).keys@,
            final(self).mnemonic.addresses@ == old(self).mnemonic.addresses@,
    {
        let entry = SessionEntry { name: str_owned(key), value: str_owned(value) };
        match self.find_session(key) {
            Some(i) => {
                let ghost pre = self.session_keys@;
                self.session_keys[i] = entry;
                proof {
                    let x = self.session_keys@[i as int];
                    assert(self.session_keys@ =~= pre.update(i as int, x));
                    assert(forall|k2: int|
                        0 <= k2 < self.session_keys@.len()
                            ==> (#[trigger] self.session_keys@[k2]).name@ == pre[k2].name@);
                    lemma_session_at(self.session_keys@, i as int);
                    assert forall|k: Seq<char>| k != key@ implies session_has(
                        self.session_keys@,
                        k,
                    ) == session_has(pre, k) && (session_has(pre, k) ==> session_value(
                        self.session_keys@,
                        k,
                    ) == session_value(pre, k)) by {
                        if session_has(pre, k) {
                            let j = session_idx(pre, k);
                            assert(self.session_keys@[j].name@ == k);
                            lemma_session_at(self.session_keys@, j);
                            lemma_session_at(pre, j);
                            assert(j != i);
                        }
                        if session_has(self.session_keys@, k) {
                            let j = session_idx(self.session_keys@, k);
                            assert(pre[j].name@ == k);
                            assert(session_has(pre, k));
                        }
                    }
                }
                Ok(())
            },
            None => {
                let ghost pre = self.session_keys@;
                self.session_keys.push(entry);
                proof {
                    assert(forall|k2: int|
                        0 <= k2 < pre.len() ==> self.session_keys@[k2] == pre[k2]);
                    assert(self.session_keys@.last().name@ == key@);
                    assert forall|i2: int, j2: int|
                        0 <= i2 < j2 < self.session_keys@.len() implies self.session_keys@[
                        i2].name@ != self.session_keys@[j2].name@ by {
                        if j2 == pre.len() {
                            if self.session_keys@[i2].name@ == key@ {
                                assert(session_has(pre, key@));
                            }
                        }
                    }
                    lemma_session_at(self.session_keys@, pre.len() as int);
                    assert forall|k: Seq<char>| k != key@ implies session_has(
                        self.session_keys@,
                        k,
                    ) == session_has(pre, k) && (session_has(pre, k) ==> session_value(
                        self.session_keys@,
                        k,
                    ) == session_value(pre, k)) by {
                        if session_has(pre, k) {
                            let j = session_idx(pre, k);
                            assert(self.session_keys@[j].name@ == k);
                            lemma_session_at(self.session_keys@, j);
                            lemma_session_at(pre, j);
                        }
                        if session_has(self.session_keys@, k) {
                            let j = session_idx(self.session_keys@, k);
                            assert(j != pre.len());
                            assert(pre[j].name@ == k);
                            assert(session_has(pre, k));
                        }
                    }
                }
                Ok(())
            },
        }
    }

    /// The value of a session key.
    pub fn get_session_key(&self, key: &str) -> (r: Option<&String>)
        requires
            self.wf(),
        ensures
            r is Some <==> session_has(self.session_keys@, key@),
            r matches Some(v) ==> v@ == session_value(self.session_keys@, key@),
    {
        match self.find_session(key) {
            Some(i) => Some(&self.session_keys[i].value),
            None => None,
        }
    }

    /// Drop a session key; dropping a missing key is not an error.
    pub fn remove_session_key(&mut self, key: &str) -> (r: Result<(), KeystoreError>)
        requires
            old(self).wf(),
        ensures
            final(self).wf(),
            r is Ok,
            final(self).keys@ == old(self).keys@,
            final(self).mnemonic.addresses@ == old(self).mnemonic.addresses@,
    {
        match self.find_session(key) {
            Some(i) => {
                let ghost pre = self.session_keys@;
                self.session_keys.remove(i);
                proof {
                    assert(self.session_keys@ =~= pre.take(i as int) + pre.skip(i + 1));
                    assert forall|i2: int, j2: int|
                        0 <= i2 < j2 < self.session_keys@.len() implies self.session_keys@[
                        i2].name@ != self.session_keys@[j2].name@ by {
                        let m1 = if i2 < i {
                            i2
                        } else {
                            i2 + 1
                        };
                        let m2 = if j2 < i {
                            j2
                        } else {
                            j2 + 1
                        };
                        assert(self.session_keys@[i2] == pre[m1]);
                        assert(self.session_keys@[j2] == pre[m2]);
                    }
                }
                Ok(())
            },
            None => Ok(()),
        }
    }

    /// Drop every session key.
    pub fn clear_session_keys(&mut self) -> (r: Result<(), KeystoreError>)
        ensures
            r is Ok,
            final(self).session_keys@.len() == 0,
            final(self).keys@ == old(self).keys@,
            final(self).mnemonic.addresses@ == old(self).mnemonic.addresses@,
            old(self).wf() ==> final(self).wf(),
    {
        self.session_keys = Vec::new();
        Ok(())
    }

    /// Is a mnemonic phrase stored?
    pub fn has_mnemonic(&self) -> (r: bool)
        ensures
            r == (self.mnemonic.mnemonic_phrase_encryption is Some),
    {
        self.mnemonic.mnemonic_phrase_encryption.is_some()
    }
}

/// The entry at a valid index of a duplicate-free run is the one its key
/// looks up.
proof fn lemma_entry_at(s: Seq<KeyEntry>, i: int)
    requires
        entries_uniq(s),
        0 <= i < s.len(),
    ensures
        entry_has(s, s[i].address@),
        entry_idx(s, s[i].address@) == i,
{
    assert(entry_has(s, s[i].address@));
    let j = entry_idx(s, s[i].address@);
    assert(0 <= j < s.len() && s[j].address@ == s[i].address@);
    if j < i {
        assert(s[j].address@ != s[i].address@);
    }
    if i < j {
        assert(s[i].address@ != s[j].address@);
    }
}

/// The session entry at a valid index of a duplicate-free run is the one
/// its key looks up.
proof fn lemma_session_at(s: Seq<SessionEntry>, i: int)
    requires
        sessions_uniq(s),
        0 <= i < s.len(),
    ensures
        session_has(s, s[i].name@),
        session_idx(s, s[i].name@) == i,
{
    assert(session_has(s, s[i].name@));
    let j = session_idx(s, s[i].name@);
    assert(0 <= j < s.len() && s[j].name@ == s[i].name@);
    if j < i {
        assert(s[j].name@ != s[i].name@);
    }
    if i < j {
        assert(s[i].name@ != s[j].name@);
    }
}

/// Content equality of a string slice and a string.
fn str_eq_string(a: &str, b: &String) -> (r: bool)
    ensures
        r == (a@ == b@),
{
    let owned = str_owned(a);
    string_eq(&owned, b)
}

/// An owned copy of a string slice.
fn str_owned(s: &str) -> (r: String)
    ensures
        r@ == s@,
{
    s.to_owned()
}

} // verus!
