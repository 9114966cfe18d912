//! The node configuration as the library reads it: the active environment,
//! the known environments, and the active wallet address. Loading and saving
//! the configuration file itself, and its surface syntax, stay outside;
//! these functions work on the already-parsed fields.

use vstd::prelude::*;
use crate::ident::{clone_string, string_eq};

verus! {

/// One configured environment.
pub struct EnvEntry {
    pub alias: String,
}

/// The parsed configuration.
pub struct KanariConfig {
    pub active_env: Option<String>,
    pub envs: Vec<EnvEntry>,
    pub active_address: Option<String>,
}

/// The settings the active environment resolves to.
pub struct ResolvedConfig {
    pub address: Option<String>,
}

/// Is some environment named `alias` configured?
pub open spec fn has_env(envs: Seq<EnvEntry>, alias: Seq<char>) -> bool {
    exists|i: int| 0 <= i < envs.len() && envs[i].alias@ == alias
}

/// Whether the configuration resolves: an active environment is named and a
/// configured environment carries that alias.
pub open spec fn resolves(c: KanariConfig) -> bool {
    match c.active_env {
        Some(active) => has_env(c.envs@, active@),
        None => false,
    }
}

/// The active wallet address, when one is set.
pub fn get_main_wallet(config: &KanariConfig) -> (r: Option<String>)
    ensures
        r is Some <==> config.active_address is Some,
        r matches Some(a) ==> a@ == config.active_address->0@,
{
    match &config.active_address {
        Some(address) => Some(clone_string(address)),
        None => None,
    }
}

/// Resolve the configuration: the active address is carried over exactly
/// when the active environment is among the configured ones.
pub fn load_config(config: &KanariConfig) -> (r: ResolvedConfig)
    ensures
        r.address is Some <==> resolves(*config) && config.active_address is Some,
        r.address matches Some(a) ==> a@ == config.active_address->0@,
{
    let active = match &config.active_env {
        Some(a) => a,
        None => {
            return ResolvedConfig { address: None };
        },
    };
    let n = config.envs.len();
    let mut i: usize = 0;
    let mut found = false;
    while i < n
        invariant
            i <= n,
            n == config.envs@.len(),
            found ==> has_env(config.envs@, config.active_env->0@),
            !found ==> forall|j: int|
                0 <= j < i ==> (#[trigger] config.envs@[j]).alias@ != config.active_env->0@,
            active@ == config.active_env->0@,
        decreases n - i,
    {
        if string_eq(&config.envs[i].alias, active) {
            found = true;
        }
        i = i + 1;
    }
    if !found {
        return ResolvedConfig { address: None };
    }
    get_main_wallet_into(config)
}

/// Update the stored active address from a resolved selection.
pub fn save_config(config: &mut KanariConfig, selection: &ResolvedConfig)
    ensures
        final(config).envs@ == old(config).envs@,
        final(config).active_env == old(config).active_env,
        selection.address is Some ==> (final(config).active_address matches Some(a) && a@
            == selection.address->0@),
        selection.address is None ==> final(config).active_address == old(config).active_address,
{
    match &selection.address {
        Some(address) => {
            config.active_address = Some(clone_string(address));
        },
        None => {},
    }
}

/// The resolved settings of a configuration whose environment matched.
fn get_main_wallet_into(config: &KanariConfig) -> (r: ResolvedConfig)
    ensures
        r.address is Some <==> config.active_address is Some,
        r.address matches Some(a) ==> a@ == config.active_address->0@,
{
    ResolvedConfig { address: get_main_wallet(config) }
}

} // verus!
