//! The native coin: a raw quantity of MIST, currency metadata, and the
//! treasury capability that tracks the total supply across mint and burn.

use vstd::prelude::*;
use crate::address::{self, Address};
use crate::ident::{IdentError, ModuleId};
use crate::strutil;

verus! {

/// The name of the coin module under the system address.
pub const COIN_MODULE: &'static str = "coin";

/// A byte vector's accessor error: the bytes are not ASCII text.
#[derive(PartialEq, Eq, Structural, Clone, Copy, Debug)]
pub enum MetadataError {
    /// Some byte is outside the ASCII range.
    NotAscii,
}

/// A quantity of the native coin, denominated in MIST (the base unit;
/// 1 KANARI = 10^9 MIST).
pub struct CoinRecord {
    pub value: u64,
}

impl CoinRecord {
    /// Create a coin holding `value` MIST.
    pub fn new(value: u64) -> (c: Self)
        ensures
            c.value == value,
    {
        Self { value }
    }

    /// The quantity held by this coin.
    pub fn value(&self) -> (v: u64)
        ensures
            v == self.value,
    {
        self.value
    }

    /// Consume the coin, returning its value.
    pub fn burn(self) -> (v: u64)
        ensures
            v == self.value,
    {
        self.value
    }

    /// Consume the coin, returning its value as a raw balance.
    pub fn into_balance(self) -> (v: u64)
        ensures
            v == self.value,
    {
        self.value
    }

    /// Construct a coin from a raw balance.
    pub fn from_balance(balance: u64) -> (c: Self)
        ensures
            c.value == balance,
    {
        Self { value: balance }
    }

    /// Split off `amount` from this coin into a new coin.
    pub fn split(&mut self, amount: u64) -> (c: Self)
        requires
            amount <= old(self).value,
        ensures
            final(self).value == old(self).value - amount,
            c.value == amount,
    {
        self.value = self.value - amount;
        Self { value: amount }
    }

    /// Join another coin into this one, adding its value.
    pub fn join(&mut self, other: CoinRecord)
        requires
            old(self).value + other.value <= u64::MAX,
        ensures
            final(self).value == old(self).value + other.value,
    {
        self.value = self.value + other.value;
    }
}

/// Descriptive metadata of a currency. The symbol, name and description are
/// raw bytes; the string accessors succeed exactly when the bytes are ASCII.
pub struct CurrencyMetadata {
    pub symbol: Vec<u8>,
    pub name: Vec<u8>,
    pub description: Vec<u8>,
    pub decimals: u8,
    pub icon_url: Option<Vec<u8>>,
}

impl CurrencyMetadata {
    /// Create new currency metadata.
    pub fn new(
        symbol: Vec<u8>,
        name: Vec<u8>,
        description: Vec<u8>,
        decimals: u8,
        icon_url: Option<Vec<u8>>,
    ) -> (m: Self)
        ensures
            m.symbol@ == symbol@,
            m.name@ == name@,
            m.description@ == description@,
            m.decimals == decimals,
            m.icon_url == icon_url,
    {
        Self { symbol, name, description, decimals, icon_url }
    }

    /// The symbol as text; succeeds exactly when the bytes are ASCII.
    pub fn symbol_str(&self) -> (r: Result<String, MetadataError>)
        ensures
            r is Ok <==> strutil::all_ascii(self.symbol@),
            r is Ok ==> r->Ok_0@ == strutil::chars_of_bytes(self.symbol@),
    {
        ascii_text(&self.symbol)
    }

    /// The name as text; succeeds exactly when the bytes are ASCII.
    pub fn name_str(&self) -> (r: Result<String, MetadataError>)
        ensures
            r is Ok <==> strutil::all_ascii(self.name@),
            r is Ok ==> r->Ok_0@ == strutil::chars_of_bytes(self.name@),
    {
        ascii_text(&self.name)
    }
}

/// Convert ASCII bytes to text, rejecting anything outside ASCII.
fn ascii_text(bytes: &Vec<u8>) -> (r: Result<String, MetadataError>)
    ensures
        r is Ok <==> strutil::all_ascii(bytes@),
        r is Ok ==> r->Ok_0@ == strutil::chars_of_bytes(bytes@),
{
    let n = bytes.len();
    let mut i: usize = 0;
    while i < n
        invariant
            i <= n,
            n == bytes@.len(),
            forall|j: int| 0 <= j < i ==> bytes@[j] < 128,
        decreases n - i,
    {
        if bytes[i] >= 128 {
            return Err(MetadataError::NotAscii);
        }
        i = i + 1;
    }
    let mut copy: Vec<u8> = Vec::new();
    let mut i: usize = 0;
    while i < n
        invariant
            i <= n,
            n == bytes@.len(),
            strutil::all_ascii(bytes@),
            copy@ == bytes@.take(i as int),
        decreases n - i,
    {
        copy.push(bytes[i]);
        proof {
            assert(copy@ =~= bytes@.take(i + 1));
        }
        i = i + 1;
    }
    proof {
        assert(bytes@.take(n as int) =~= bytes@);
    }
    Ok(strutil::ascii_to_string(copy))
}

/// Mint and burn authority; tracks the total supply it has created.
pub struct TreasuryCap {
    pub total_supply: u64,
}

impl TreasuryCap {
    /// A fresh treasury with zero tracked supply.
    pub fn new() -> (t: Self)
        ensures
            t.total_supply == 0,
    {
        Self { total_supply: 0 }
    }

    /// The total supply tracked by this capability.
    pub fn total_supply(&self) -> (s: u64)
        ensures
            s == self.total_supply,
    {
        self.total_supply
    }

    /// Mint `amount` new MIST, increasing the tracked supply.
    pub fn mint(&mut self, amount: u64) -> (c: CoinRecord)
        requires
            amount > 0,
            old(self).total_supply + amount <= u64::MAX,
        ensures
            final(self).total_supply == old(self).total_supply + amount,
            c.value == amount,
    {
        self.total_supply = self.total_supply + amount;
        CoinRecord::new(amount)
    }

    /// Burn a coin, decreasing the tracked supply by its value.
    pub fn burn(&mut self, coin: CoinRecord) -> (v: u64)
        requires
            coin.value <= old(self).total_supply,
        ensures
            final(self).total_supply == old(self).total_supply - coin.value,
            v == coin.value,
    {
        let value = coin.burn();
        self.total_supply = self.total_supply - value;
        value
    }
}

/// Helpers naming the coin module.
pub struct CoinModule;

impl CoinModule {
    /// The module identity `0x2::coin`.
    pub fn get_module_id() -> (r: Result<ModuleId, IdentError>)
        ensures
            r is Ok ==> r->Ok_0.address@ == address::reserved_addr(2) && r->Ok_0.name@
                == COIN_MODULE@ && r->Ok_0.wf(),
    {
        let addr = Address::kanari_system_address();
        let name = COIN_MODULE.to_owned();
        ModuleId::new(addr, name)
    }

    /// The function names exposed by the coin module.
    pub fn function_names() -> (f: CoinFunctions)
        ensures
            f.create_currency@ == "create_currency"@,
            f.mint@ == "mint"@,
            f.mint_and_transfer@ == "mint_and_transfer"@,
            f.from_balance@ == "from_balance"@,
            f.burn@ == "burn"@,
            f.total_supply@ == "total_supply"@,
            f.value@ == "value"@,
            f.split@ == "split"@,
            f.join@ == "join"@,
            f.treasury_into_supply@ == "treasury_into_supply"@,
            f.into_balance@ == "into_balance"@,
    {
        CoinFunctions {
            create_currency: "create_currency",
            mint: "mint",
            mint_and_transfer: "mint_and_transfer",
            from_balance: "from_balance",
            burn: "burn",
            total_supply: "total_supply",
            value: "value",
            split: "split",
            join: "join",
            treasury_into_supply: "treasury_into_supply",
            into_balance: "into_balance",
        }
    }
}

/// Function names of the coin module.
pub struct CoinFunctions {
    pub create_currency: &'static str,
    pub mint: &'static str,
    pub mint_and_transfer: &'static str,
    pub from_balance: &'static str,
    pub burn: &'static str,
    pub total_supply: &'static str,
    pub value: &'static str,
    pub split: &'static str,
    pub join: &'static str,
    pub treasury_into_supply: &'static str,
    pub into_balance: &'static str,
}

} // verus!
