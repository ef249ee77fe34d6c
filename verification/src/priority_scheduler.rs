//! The election scheduler's choice of the block to activate for an account.
use crate::backlog_scan::{AccountInfo, ConfirmationHeightInfo};
use crate::primitives::BlockHash;
use vstd::prelude::*;

verus! {

/// The block that activating an account goes for.
#[derive(PartialEq, Eq, Structural, Clone, Copy, Debug)]
pub enum ActivationTarget {
    /// The account's open block: nothing of the account is confirmed.
    OpenBlock(BlockHash),
    /// The successor of the confirmed frontier.
    SuccessorOf(BlockHash),
}

/// Which block activating an account goes for: none when all its blocks are confirmed; the
/// open block when none is; otherwise the block after the confirmed frontier.
pub open spec fn activation_target_of(
    account_info: AccountInfo,
    conf_info: ConfirmationHeightInfo,
) -> Option<ActivationTarget> {
    if conf_info.height >= account_info.block_count {
        None
    } else if conf_info.height == 0 {
        Some(ActivationTarget::OpenBlock(account_info.open_block))
    } else {
        Some(ActivationTarget::SuccessorOf(conf_info.frontier))
    }
}

/// The block to activate for an account with these ledger and confirmation states (see
/// `activation_target_of`).
pub fn activation_target(account_info: &AccountInfo, conf_info: &ConfirmationHeightInfo) -> (r:
    Option<ActivationTarget>)
    ensures
        r == activation_target_of(*account_info, *conf_info),
        conf_info.height >= account_info.block_count ==> r is None,
        conf_info.height == 0 && account_info.block_count > 0 ==> r == Some(
            ActivationTarget::OpenBlock(account_info.open_block),
        ),
        1 <= conf_info.height < account_info.block_count ==> r == Some(
            ActivationTarget::SuccessorOf(conf_info.frontier),
        ),
        r matches Some(ActivationTarget::OpenBlock(h)) ==> conf_info.height == 0 && h
            == account_info.open_block,
{
    if conf_info.height >= account_info.block_count {
        None
    } else if conf_info.height == 0 {
        Some(ActivationTarget::OpenBlock(account_info.open_block))
    } else {
        Some(ActivationTarget::SuccessorOf(conf_info.frontier))
    }
}

/// Activation goes for the first unconfirmed block: nothing when every block is confirmed,
/// the open block only while nothing of the account is confirmed, and once anything is
/// confirmed the successor of the confirmed frontier.
pub proof fn lemma_activation_goes_for_first_unconfirmed(
    account_info: AccountInfo,
    conf_info: ConfirmationHeightInfo,
)
    ensures
        conf_info.height >= account_info.block_count ==> activation_target_of(account_info, conf_info)
            is None,
        conf_info.height == 0 && account_info.block_count > 0 ==> activation_target_of(
            account_info,
            conf_info,
        ) == Some(ActivationTarget::OpenBlock(account_info.open_block)),
        1 <= conf_info.height < account_info.block_count ==> activation_target_of(account_info, conf_info)
            == Some(ActivationTarget::SuccessorOf(conf_info.frontier)),
        activation_target_of(account_info, conf_info) matches Some(ActivationTarget::OpenBlock(h))
            ==> conf_info.height == 0 && h == account_info.open_block,
{
}

} // verus!
