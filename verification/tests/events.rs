use seer::exex::{applies_capabilities, ChainNotification};
use seer::address::Address;
use seer::capabilities::{data_transaction_event, transaction_event};
use seer::config::Config;
use seer::heuristics::airdrop_farming_event;
use seer::nodes::{alchemy_endpoint, block_number_param, loopback_address, transactions_in_block};
use seer::text::bytes_debug;

#[test]
fn transaction_event_texts() {
    let e = transaction_event(Some(Address::new(0, 0x10)), None);
    assert_eq!(e.network.name, "your_network");
    assert_eq!(e.from, "0x0000000000000000000000000000000000000010");
    assert_eq!(e.to, "0x0000000000000000000000000000000000000000");
}

#[test]
fn data_event_prints_bytes_like_debug() {
    let e = data_transaction_event(None, Some(Address::new(1 << 124, 0)), &[1, 2, 255]);
    assert_eq!(e.data, "[1, 2, 255]");
    assert_eq!(e.to, "0x1000000000000000000000000000000000000000");
    assert_eq!(e.data, format!("{:?}", vec![1u8, 2, 255]));
}

#[test]
fn bytes_debug_matches_std() {
    assert_eq!(bytes_debug(&[]), "[]");
    assert_eq!(bytes_debug(&[0]), "[0]");
    assert_eq!(bytes_debug(&[10, 100, 9]), format!("{:?}", [10u8, 100, 9]));
}

#[test]
fn airdrop_event_has_block_zero() {
    let e = airdrop_farming_event(None, None);
    assert_eq!(e.block_number, 0);
    assert_eq!(e.network.name, "your_network");
    assert_eq!(e.from, e.to);
}

#[test]
fn block_number_param_is_lower_hex() {
    assert_eq!(block_number_param(0), "0x0");
    assert_eq!(block_number_param(255), "0xff");
    assert_eq!(block_number_param(0x1234abcd), format!("0x{:x}", 0x1234abcdu64));
    assert_eq!(block_number_param(u64::MAX), "0xffffffffffffffff");
}

#[test]
fn endpoint_and_loopback() {
    assert_eq!(alchemy_endpoint("https://eth.example"), "https://eth.example/v2/your-api-key");
    assert_eq!(loopback_address(30303), "127.0.0.1:30303");
    assert_eq!(loopback_address(0), "127.0.0.1:0");
}

#[test]
fn transactions_of_a_block() {
    assert_eq!(transactions_in_block(&[5, 7, 5, 9], 5), vec![0, 2]);
    assert_eq!(transactions_in_block(&[5, 7], 8), Vec::<usize>::new());
    assert_eq!(transactions_in_block(&[], 8), Vec::<usize>::new());
}

#[test]
fn config_keeps_settings() {
    let c = Config::new(true, Some("https://a".to_string()), None);
    assert!(c.use_local_node);
    assert_eq!(c.alchemy_url, Some("https://a".to_string()));
    assert_eq!(c.local_node_url, None);
}

#[test]
fn only_committed_chains_get_capabilities() {
    assert!(applies_capabilities(ChainNotification::Committed));
    assert!(!applies_capabilities(ChainNotification::Reorged));
    assert!(!applies_capabilities(ChainNotification::Reverted));
}
