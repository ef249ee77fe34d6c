use rsnano::bootstrap_weights::deserialize_bootstrap_weights;
use rsnano::primitives::{Account, Amount};

const GENESIS: &str = "nano_3t6k35gi95xu6tergt6p69ck76ogmitsa8mnijtpxm9fkcm736xtoncuohr3";
const ZERO: &str = "nano_1111111111111111111111111111111111111111111111111111hifc8npp";

fn genesis() -> Account {
    Account::from_halves(
        0xE89208DD038FBB269987689621D52292,
        0xAE9C35941A7484756ECCED92A65093BA,
    )
}

#[test]
fn decode_known_addresses() {
    assert_eq!(Account::decode_account(GENESIS), Some(genesis()));
    assert_eq!(Account::decode_account(ZERO), Some(Account::zero()));
    assert_eq!(
        Account::decode_account("xrb_3t6k35gi95xu6tergt6p69ck76ogmitsa8mnijtpxm9fkcm736xtoncuohr3"),
        Some(genesis())
    );
    assert_eq!(
        Account::decode_account("nano-3t6k35gi95xu6tergt6p69ck76ogmitsa8mnijtpxm9fkcm736xtoncuohr3"),
        Some(genesis())
    );
}

#[test]
fn decode_rejects_bad_addresses() {
    // wrong checksum
    assert_eq!(
        Account::decode_account("nano_3t6k35gi95xu6tergt6p69ck76ogmitsa8mnijtpxm9fkcm736xtoncuohr4"),
        None
    );
    // a character outside the alphabet
    assert_eq!(
        Account::decode_account("nano_3t6k35gi95xu6tergt6p69ck76ogmitsa8mnijtpxm9fkcm736xtoncuohr0"),
        None
    );
    // too short, wrong prefix, too large a number
    assert_eq!(Account::decode_account("nano_3t6k"), None);
    assert_eq!(
        Account::decode_account("nono_3t6k35gi95xu6tergt6p69ck76ogmitsa8mnijtpxm9fkcm736xtoncuohr3"),
        None
    );
    assert_eq!(
        Account::decode_account("nano_zzzzzzzzzzzzzzzzzzzzzzzzzzzzzzzzzzzzzzzzzzzzzzzzzzzzzzzzzzzz"),
        None
    );
    assert_eq!(Account::decode_account(""), None);
}

#[test]
fn addresses_read_back() {
    for account in [Account::zero(), genesis(), Account::from_u64(12345), Account::max()] {
        assert_eq!(Account::decode_account(&account.encode_account()), Some(account));
    }
}

#[test]
fn decode_decimal_amounts() {
    assert_eq!(Amount::decode_dec("0"), Some(Amount::zero()));
    assert_eq!(Amount::decode_dec("007"), Some(Amount::raw(7)));
    assert_eq!(
        Amount::decode_dec("340282366920938463463374607431768211455"),
        Some(Amount::raw(u128::MAX))
    );
    assert_eq!(Amount::decode_dec("340282366920938463463374607431768211456"), None);
    assert_eq!(Amount::decode_dec(""), None);
    assert_eq!(Amount::decode_dec("12a"), None);
    assert_eq!(Amount::decode_dec("-1"), None);
    let a = Amount::raw(123456789012345678901234567890);
    assert_eq!(Amount::decode_dec(&a.to_string_dec()), Some(a));
}

#[test]
fn weights_text() {
    let text = format!("204137485\n{}:1000\r\n{}:5\n", GENESIS, ZERO);
    let (max_blocks, weights) = deserialize_bootstrap_weights(&text).unwrap();
    assert_eq!(max_blocks, 204_137_485);
    assert_eq!(
        weights,
        vec![(genesis(), Amount::raw(1000)), (Account::zero(), Amount::raw(5))]
    );
}

#[test]
fn later_weight_replaces_earlier() {
    let text = format!("+10\n{}:1\n{}:2", GENESIS, GENESIS);
    let (max_blocks, weights) = deserialize_bootstrap_weights(&text).unwrap();
    assert_eq!(max_blocks, 10);
    assert_eq!(weights, vec![(genesis(), Amount::raw(2))]);
}

#[test]
fn empty_weights_text() {
    assert_eq!(deserialize_bootstrap_weights(""), Some((0, vec![])));
    assert_eq!(deserialize_bootstrap_weights("7"), Some((7, vec![])));
}

#[test]
fn malformed_weights_text() {
    assert_eq!(deserialize_bootstrap_weights("x\n"), None);
    assert_eq!(deserialize_bootstrap_weights(&format!("1\n{}", GENESIS)), None);
    assert_eq!(deserialize_bootstrap_weights(&format!("1\n{}:abc", GENESIS)), None);
    assert_eq!(deserialize_bootstrap_weights("1\n\n"), None);
}
