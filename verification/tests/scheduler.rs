use rsnano::backlog_scan::{AccountInfo, ConfirmationHeightInfo};
use rsnano::blocks::Epoch;
use rsnano::primitives::{Account, Amount, BlockHash, UnixTimestamp};
use rsnano::priority_scheduler::{activation_target, ActivationTarget};

fn info(block_count: u64) -> AccountInfo {
    AccountInfo {
        head: BlockHash::from_u64(3),
        representative: Account::from_u64(1),
        open_block: BlockHash::from_u64(1),
        balance: Amount::raw(1),
        modified: UnixTimestamp::new(0),
        block_count,
        epoch: Epoch::Epoch0,
    }
}

#[test]
fn unconfirmed_account_starts_at_open_block() {
    let conf = ConfirmationHeightInfo { height: 0, frontier: BlockHash::zero() };
    assert_eq!(
        activation_target(&info(3), &conf),
        Some(ActivationTarget::OpenBlock(BlockHash::from_u64(1)))
    );
}

#[test]
fn partly_confirmed_account_continues_after_frontier() {
    let conf = ConfirmationHeightInfo { height: 2, frontier: BlockHash::from_u64(2) };
    assert_eq!(
        activation_target(&info(3), &conf),
        Some(ActivationTarget::SuccessorOf(BlockHash::from_u64(2)))
    );
}

#[test]
fn confirmed_account_is_skipped() {
    let conf = ConfirmationHeightInfo { height: 3, frontier: BlockHash::from_u64(3) };
    assert_eq!(activation_target(&info(3), &conf), None);
}
