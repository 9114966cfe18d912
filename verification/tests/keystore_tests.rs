//! The keystore map logic and the configuration resolution.

use kanari::config::{get_main_wallet, load_config, save_config, EnvEntry, KanariConfig};
use kanari::keystore::{EncryptedData, Keystore};

fn blob(tag: u8) -> EncryptedData {
    EncryptedData { ciphertext: vec![tag; 4], nonce: vec![1; 12], salt: vec![2; 16] }
}

#[test]
fn wallets_are_stored_replaced_and_removed() {
    let mut ks = Keystore::new();
    assert!(!ks.wallet_exists("0xa"));
    ks.add_wallet("0xa", blob(1)).unwrap();
    ks.add_wallet("0xb", blob(2)).unwrap();
    assert!(ks.wallet_exists("0xa"));
    assert_eq!(ks.get_wallet("0xa").unwrap().ciphertext, vec![1; 4]);

    // Replacing keeps one entry per address.
    ks.add_wallet("0xa", blob(3)).unwrap();
    assert_eq!(ks.get_wallet("0xa").unwrap().ciphertext, vec![3; 4]);
    assert_eq!(ks.list_wallets(), vec!["0xa".to_string(), "0xb".to_string()]);

    ks.remove_wallet("0xa").unwrap();
    assert!(!ks.wallet_exists("0xa"));
    assert!(ks.wallet_exists("0xb"));
    assert!(ks.remove_wallet("0xa").is_err());
}

#[test]
fn mnemonic_store_tracks_addresses() {
    let mut ks = Keystore::new();
    assert!(!ks.has_mnemonic());
    ks.set_mnemonic(blob(9), vec!["0xa".to_string()]).unwrap();
    assert!(ks.has_mnemonic());
    assert!(ks.get_mnemonic().is_some());

    ks.add_mnemonic_address("0xb").unwrap();
    ks.add_mnemonic_address("0xb").unwrap();
    assert_eq!(ks.get_mnemonic_addresses().len(), 2);

    // Removing a wallet drops its derived address too.
    ks.add_wallet("0xb", blob(4)).unwrap();
    ks.remove_wallet("0xb").unwrap();
    assert_eq!(ks.get_mnemonic_addresses(), &vec!["0xa".to_string()]);

    ks.remove_mnemonic().unwrap();
    assert!(!ks.has_mnemonic());
    assert!(ks.get_mnemonic_addresses().is_empty());
}

#[test]
fn session_keys_come_and_go() {
    let mut ks = Keystore::new();
    ks.add_session_key("token", "abc").unwrap();
    ks.add_session_key("token", "def").unwrap();
    assert_eq!(ks.get_session_key("token").unwrap(), "def");
    ks.remove_session_key("token").unwrap();
    assert!(ks.get_session_key("token").is_none());
    ks.remove_session_key("token").unwrap();
    ks.add_session_key("a", "1").unwrap();
    ks.add_session_key("b", "2").unwrap();
    ks.clear_session_keys().unwrap();
    assert!(ks.get_session_key("a").is_none());
}

#[test]
fn configuration_resolves_through_the_active_environment() {
    let mut config = KanariConfig {
        active_env: Some("devnet".to_string()),
        envs: vec![EnvEntry { alias: "devnet".to_string() }, EnvEntry {
            alias: "local".to_string(),
        }],
        active_address: Some("0xabc".to_string()),
    };
    assert_eq!(get_main_wallet(&config).unwrap(), "0xabc");
    assert_eq!(load_config(&config).address.unwrap(), "0xabc");

    config.active_env = Some("missing".to_string());
    assert!(load_config(&config).address.is_none());

    config.active_env = None;
    assert!(load_config(&config).address.is_none());

    let selection = kanari::config::ResolvedConfig { address: Some("0xdef".to_string()) };
    save_config(&mut config, &selection);
    assert_eq!(get_main_wallet(&config).unwrap(), "0xdef");
}
