//! The per-transaction context handed to VM entry functions, and the helpers
//! naming the `tx_context` module of the system address.

use vstd::prelude::*;
use crate::address::{self, Address};
use crate::gas;
use crate::ident::{IdentError, ModuleId};
use crate::strutil;

verus! {

/// The name of the tx_context module under the system address.
pub const TX_CONTEXT_MODULE: &'static str = "tx_context";

/// A synthesized transaction context.
pub struct TxContextRecord {
    pub sender: String,
    pub epoch: u64,
    pub digest: Vec<u8>,
    pub gas_budget: u64,
    pub gas_price: u64,
}

impl TxContextRecord {
    /// Create a new transaction context.
    pub fn new(sender: String, epoch: u64, digest: Vec<u8>, gas_budget: u64, gas_price: u64) -> (c:
        Self)
        ensures
            c.sender@ == sender@,
            c.epoch == epoch,
            c.digest@ == digest@,
            c.gas_budget == gas_budget,
            c.gas_price == gas_price,
    {
        Self { sender, epoch, digest, gas_budget, gas_price }
    }

    /// Create a context whose sender is the canonical form of an address.
    pub fn from_address(sender: Address, epoch: u64, digest: Vec<u8>, gas_budget: u64, gas_price: u64) -> (c: Self)
        requires
            sender.wf(),
        ensures
            c.sender@ == strutil::chars_of_bytes(address::canonical_literal_bytes(sender@)),
            c.epoch == epoch,
            c.digest@ == digest@,
            c.gas_budget == gas_budget,
            c.gas_price == gas_price,
    {
        let text = sender.to_hex();
        Self::new(text, epoch, digest, gas_budget, gas_price)
    }

    /// The sender's textual address.
    pub fn sender(&self) -> (s: &str)
        ensures
            s@ == self.sender@,
    {
        self.sender.as_str()
    }

    /// The current epoch.
    pub fn epoch(&self) -> (e: u64)
        ensures
            e == self.epoch,
    {
        self.epoch
    }

    /// The worst-case gas cost: `gas_budget * gas_price`, saturating.
    pub fn total_gas_cost(&self) -> (c: u64)
        ensures
            c == gas::sat_u64(self.gas_budget * self.gas_price),
    {
        gas::sat_mul(self.gas_budget, self.gas_price)
    }
}

/// Helpers naming the tx_context module.
pub struct TxContextModule;

impl TxContextModule {
    /// The module identity `0x2::tx_context`.
    pub fn get_module_id() -> (r: Result<ModuleId, IdentError>)
        ensures
            r is Ok ==> r->Ok_0.address@ == address::reserved_addr(2) && r->Ok_0.name@
                == TX_CONTEXT_MODULE@ && r->Ok_0.wf(),
    {
        let address = Address::kanari_system_address();
        let name = TX_CONTEXT_MODULE.to_owned();
        ModuleId::new(address, name)
    }

    /// The function names exposed by the tx_context module.
    pub fn function_names() -> (f: TxContextFunctions)
        ensures
            f.sender@ == "sender"@,
            f.epoch@ == "epoch"@,
            f.digest@ == "digest"@,
    {
        TxContextFunctions { sender: "sender", epoch: "epoch", digest: "digest" }
    }
}

/// Function names of the tx_context module.
pub struct TxContextFunctions {
    pub sender: &'static str,
    pub epoch: &'static str,
    pub digest: &'static str,
}

} // verus!
