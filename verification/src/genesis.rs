//! Helpers naming the genesis module of the system address. The genesis
//! allocation itself is performed by the state manager at creation.

use vstd::prelude::*;
use crate::address::{self, Address};
use crate::ident::{IdentError, ModuleId};

verus! {

/// The name of the genesis module under the system address.
pub const GENESIS_MODULE: &'static str = "genesis";

/// Helpers naming the genesis module.
pub struct GenesisModule;

impl GenesisModule {
    /// The module identity `0x2::genesis`.
    pub fn get_module_id() -> (r: Result<ModuleId, IdentError>)
        ensures
            r is Ok ==> r->Ok_0.address@ == address::reserved_addr(2) && r->Ok_0.name@
                == GENESIS_MODULE@ && r->Ok_0.wf(),
    {
        let address = Address::kanari_system_address();
        let name = GENESIS_MODULE.to_owned();
        ModuleId::new(address, name)
    }

    /// The function names exposed by the genesis module.
    pub fn function_names() -> (f: GenesisFunctions)
        ensures
            f.init_genesis@ == "init_genesis"@,
    {
        GenesisFunctions { init_genesis: "init_genesis" }
    }
}

/// Function names of the genesis module.
pub struct GenesisFunctions {
    pub init_genesis: &'static str,
}

} // verus!
