use jstz_request_logger::BootstrapAccount;
use jstz_request_logger::BridgeContract;
use jstz_request_logger::bridge::bridge_init_storage;
use jstz_request_logger::bridge::ctez_init_storage;
use jstz_request_logger::bridge::set_rollup_arg;
use jstz_request_logger::bridge::u64_to_dec;

use tezos_crypto_rs::hash::ContractKt1Hash;

fn account(address: &str, amount: u64) -> BootstrapAccount {
    BootstrapAccount {
        address: address.to_string(),
        amount,
    }
}

#[test]
fn decimal_rendering_is_exact() {
    assert_eq!(u64_to_dec(0), "0");
    assert_eq!(u64_to_dec(7), "7");
    assert_eq!(u64_to_dec(10), "10");
    assert_eq!(u64_to_dec(4000000000), "4000000000");
    assert_eq!(u64_to_dec(u64::MAX), "18446744073709551615");
}

#[test]
fn michelson_elt_is_exact() {
    let a = account("tz1KqTpEZ7Yob7QbPE4Hy4Wo8fHG8LhKxZSx", 4000000000);
    assert_eq!(
        a.as_michelson_elt(),
        "Elt \"tz1KqTpEZ7Yob7QbPE4Hy4Wo8fHG8LhKxZSx\" 4000000000"
    );
}

#[test]
fn ctez_storage_with_no_accounts() {
    assert_eq!(ctez_init_storage("tz1op", &vec![]), "(Pair \"tz1op\" {  } )");
}

#[test]
fn ctez_storage_with_one_account() {
    let accounts = vec![account("tz1a", 1)];
    assert_eq!(
        ctez_init_storage("tz1op", &accounts),
        "(Pair \"tz1op\" { Elt \"tz1a\" 1 } )"
    );
}

#[test]
fn ctez_storage_joins_accounts_in_order() {
    let accounts = vec![account("tz1a", 1), account("tz1b", 2), account("tz1c", 30)];
    assert_eq!(
        ctez_init_storage("tz1op", &accounts),
        "(Pair \"tz1op\" { Elt \"tz1a\" 1 Elt \"tz1b\" 2 Elt \"tz1c\" 30 } )"
    );
}

#[test]
fn bridge_storage_is_exact() {
    assert_eq!(
        bridge_init_storage("KT1EfTusMLoeCAAGd9MZJn5yKzFr6kJU5U91"),
        "(Pair \"KT1EfTusMLoeCAAGd9MZJn5yKzFr6kJU5U91\" None)"
    );
}

#[test]
fn set_rollup_arg_quotes_the_address() {
    assert_eq!(set_rollup_arg("sr1abc"), "\"sr1abc\"");
}

#[test]
fn bridge_contract_from_hash_keeps_the_base58_form() {
    let b58 = "KT1EfTusMLoeCAAGd9MZJn5yKzFr6kJU5U91";
    let hash = ContractKt1Hash::from_base58_check(b58).unwrap();
    let bridge = BridgeContract::from_kt1_hash(&hash).unwrap();
    assert_eq!(bridge.to_string(), b58);
    assert_eq!(bridge, BridgeContract(b58.to_string()));
}
