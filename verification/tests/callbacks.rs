use rsnano::blocks::PrivateKey;
use rsnano::http_callbacks::{callback_message, CallbackSubType, ElectionStatusType};
use rsnano::lattice::SavedBlockLatticeBuilder;
use rsnano::primitives::{Account, Amount, BlockHash};

#[test]
fn encode_zero_account() {
    assert_eq!(
        Account::zero().encode_account(),
        "nano_1111111111111111111111111111111111111111111111111111hifc8npp"
    );
}

#[test]
fn encode_live_genesis_account() {
    let account = Account::from_halves(
        0xE89208DD038FBB269987689621D52292,
        0xAE9C35941A7484756ECCED92A65093BA,
    );
    assert_eq!(
        account.encode_account(),
        "nano_3t6k35gi95xu6tergt6p69ck76ogmitsa8mnijtpxm9fkcm736xtoncuohr3"
    );
}

#[test]
fn encode_dev_genesis_account() {
    let account = Account::from_halves(
        0xB0311EA55708D6A53C75CDBF88300259,
        0xC6D018522FE3D4D0A242E431F9E8B6D0,
    );
    assert_eq!(
        account.encode_account(),
        "nano_3e3j5tkog48pnny9dmfzj1r16pg8t1e76dz5tmac6iq689wyjfpiij4txtdo"
    );
}

#[test]
fn encode_hash_hex() {
    let hash = BlockHash::from_halves(
        0xE89208DD038FBB269987689621D52292,
        0xAE9C35941A7484756ECCED92A65093BA,
    );
    assert_eq!(
        hash.encode_hex(),
        "E89208DD038FBB269987689621D52292AE9C35941A7484756ECCED92A65093BA"
    );
    assert_eq!(BlockHash::from_u64(1).encode_hex(), format!("{}1", "0".repeat(63)));
}

#[test]
fn amount_in_decimal() {
    assert_eq!(Amount::zero().to_string_dec(), "0");
    assert_eq!(Amount::raw(7).to_string_dec(), "7");
    assert_eq!(Amount::raw(1000).to_string_dec(), "1000");
    assert_eq!(
        Amount::raw(u128::MAX).to_string_dec(),
        "340282366920938463463374607431768211455"
    );
}

#[test]
fn sub_type_texts() {
    assert_eq!(CallbackSubType::Send.as_str(), "send");
    assert_eq!(CallbackSubType::Change.as_str(), "change");
    assert_eq!(CallbackSubType::Epoch.as_str(), "epoch");
    assert_eq!(CallbackSubType::Receive.as_str(), "receive");
}

#[test]
fn inactive_confirmations_are_not_reported() {
    let mut lattice = SavedBlockLatticeBuilder::new();
    let key = PrivateKey::from_u64(42);
    let send = lattice.genesis().send(key.account(), Amount::raw(5));
    for status in [
        ElectionStatusType::Ongoing,
        ElectionStatusType::InactiveConfirmationHeight,
        ElectionStatusType::Stopped,
    ] {
        assert!(callback_message(status, send.account(), &send, Amount::raw(5), true, false).is_none());
    }
}

#[test]
fn reports_a_confirmed_send() {
    let mut lattice = SavedBlockLatticeBuilder::new();
    let key = PrivateKey::from_u64(42);
    let send = lattice.genesis().send(key.account(), Amount::raw(5));
    let message = callback_message(
        ElectionStatusType::ActiveConfirmedQuorum,
        send.account(),
        &send,
        Amount::raw(5),
        true,
        false,
    )
    .unwrap();
    assert_eq!(
        message.account,
        "nano_3e3j5tkog48pnny9dmfzj1r16pg8t1e76dz5tmac6iq689wyjfpiij4txtdo"
    );
    assert_eq!(message.hash, send.hash().encode_hex());
    assert_eq!(message.hash.len(), 64);
    assert_eq!(message.amount, "5");
    assert_eq!(message.sub_type, Some(CallbackSubType::Send));
    assert!(message.is_send);
}

#[test]
fn reports_state_receive_change_and_epoch() {
    let mut lattice = SavedBlockLatticeBuilder::new();
    let key = PrivateKey::from_u64(42);
    let send = lattice.genesis().send(key.account(), Amount::raw(5));
    let receive = lattice.account(&key).receive(&send.block);
    let change = lattice.account(&key).change(Account::from_u64(7));
    let status = ElectionStatusType::ActiveConfirmationHeight;

    let m = callback_message(status, key.account(), &receive, Amount::raw(5), false, false).unwrap();
    assert_eq!(m.sub_type, Some(CallbackSubType::Receive));
    assert!(!m.is_send);

    let m = callback_message(status, key.account(), &change, Amount::zero(), false, false).unwrap();
    assert_eq!(m.sub_type, Some(CallbackSubType::Change));
    assert_eq!(m.amount, "0");

    let m = callback_message(status, key.account(), &receive, Amount::zero(), false, true).unwrap();
    assert_eq!(m.sub_type, Some(CallbackSubType::Epoch));
}

#[test]
fn legacy_blocks_have_no_sub_type() {
    let mut lattice = SavedBlockLatticeBuilder::new();
    let change = lattice.genesis().legacy_change(Account::from_u64(7));
    let m = callback_message(
        ElectionStatusType::ActiveConfirmedQuorum,
        change.account(),
        &change,
        Amount::zero(),
        false,
        false,
    )
    .unwrap();
    assert_eq!(m.sub_type, None);
}
