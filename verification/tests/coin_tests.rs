//! Coins, currency metadata and the treasury capability.

use kanari::coin::{CoinModule, CoinRecord, CurrencyMetadata, TreasuryCap};

#[test]
fn test_coin_creation() {
    let coin = CoinRecord::new(1000);
    assert_eq!(coin.value(), 1000);
}

#[test]
fn test_coin_burn() {
    let coin = CoinRecord::new(500);
    let value = coin.burn();
    assert_eq!(value, 500);
}

#[test]
fn test_metadata() {
    let metadata = CurrencyMetadata::new(
        b"KANARI".to_vec(),
        b"Kanari Coin".to_vec(),
        b"Native coin of Kanari".to_vec(),
        9u8,
        None,
    );
    assert_eq!(metadata.symbol_str().unwrap(), "KANARI");
    assert_eq!(metadata.name_str().unwrap(), "Kanari Coin");
    assert_eq!(metadata.decimals, 9u8);
}

#[test]
fn metadata_rejects_bytes_outside_ascii() {
    let metadata = CurrencyMetadata::new(vec![0xff, 0x41], b"n".to_vec(), b"d".to_vec(), 0, None);
    assert!(metadata.symbol_str().is_err());
}

#[test]
fn coin_split_and_join() {
    let mut coin = CoinRecord::new(1000);
    let part = coin.split(300);
    assert_eq!(part.value(), 300);
    assert_eq!(coin.value(), 700);
    coin.join(part);
    assert_eq!(coin.value(), 1000);
    assert_eq!(coin.into_balance(), 1000);
    assert_eq!(CoinRecord::from_balance(77).value(), 77);
}

#[test]
fn treasury_tracks_mint_and_burn() {
    let mut cap = TreasuryCap::new();
    assert_eq!(cap.total_supply(), 0);
    let coin = cap.mint(400);
    assert_eq!(cap.total_supply(), 400);
    assert_eq!(coin.value(), 400);
    let burned = cap.burn(coin);
    assert_eq!(burned, 400);
    assert_eq!(cap.total_supply(), 0);
}

#[test]
fn coin_module_names_are_accessible() {
    let id = CoinModule::get_module_id().unwrap();
    assert_eq!(id.name, "coin");
    let fns = CoinModule::function_names();
    assert_eq!(fns.mint, "mint");
    assert_eq!(fns.burn, "burn");
    assert_eq!(fns.total_supply, "total_supply");
}
