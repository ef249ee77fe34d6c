//! The HTTP callback that reports a confirmed block: whether an election's outcome is
//! reported, and the fields of the report.
use crate::blocks::{block_hash, saved_is_change, BlockType, SavedBlock};
use crate::encoding::{account_text, decimal, digits, hex_alphabet};
use crate::primitives::{Account, Amount};
use vstd::prelude::*;

verus! {

/// How an election came to an end.
#[derive(PartialEq, Eq, Structural, Clone, Copy, Debug)]
pub enum ElectionStatusType {
    Ongoing,
    ActiveConfirmedQuorum,
    ActiveConfirmationHeight,
    InactiveConfirmationHeight,
    Stopped,
}

/// The kind of state block a report names.
#[derive(PartialEq, Eq, Structural, Clone, Copy, Debug)]
pub enum CallbackSubType {
    Send,
    Change,
    Epoch,
    Receive,
}

/// The text of a report's sub type.
pub open spec fn sub_type_text(t: CallbackSubType) -> Seq<char> {
    match t {
        CallbackSubType::Send => "send"@,
        CallbackSubType::Change => "change"@,
        CallbackSubType::Epoch => "epoch"@,
        CallbackSubType::Receive => "receive"@,
    }
}

impl CallbackSubType {
    pub fn as_str(&self) -> (r: &'static str)
        ensures
            r@ == sub_type_text(*self),
    {
        match self {
            CallbackSubType::Send => "send",
            CallbackSubType::Change => "change",
            CallbackSubType::Epoch => "epoch",
            CallbackSubType::Receive => "receive",
        }
    }
}

/// The fields of a report on a confirmed block (the block itself is added in its JSON form).
pub struct CallbackMessage {
    pub account: String,
    pub hash: String,
    pub amount: String,
    pub sub_type: Option<CallbackSubType>,
    pub is_send: bool,
}

/// Only blocks confirmed by an active election are reported.
pub open spec fn calls_back(status: ElectionStatusType) -> bool {
    status == ElectionStatusType::ActiveConfirmedQuorum || status
        == ElectionStatusType::ActiveConfirmationHeight
}

/// The sub type of a report: a send when the caller says the state block sends; otherwise,
/// for a state block, a change when it has no link, an epoch when the caller says so, and a
/// receive else; none for legacy blocks.
pub open spec fn sub_type_of(block: SavedBlock, is_state_send: bool, is_state_epoch: bool) -> Option<
    CallbackSubType,
> {
    if is_state_send {
        Some(CallbackSubType::Send)
    } else if block.block.block_type == BlockType::State {
        if saved_is_change(block) {
            Some(CallbackSubType::Change)
        } else if is_state_epoch {
            Some(CallbackSubType::Epoch)
        } else {
            Some(CallbackSubType::Receive)
        }
    } else {
        None
    }
}

/// The report on `block`, confirmed with the election outcome `status`, or none when such an
/// outcome is not reported: the account's address, the block's hash in hexadecimal, the
/// amount in decimal, the sub type and whether it is a send.
pub fn callback_message(
    status: ElectionStatusType,
    account: Account,
    block: &SavedBlock,
    amount: Amount,
    is_state_send: bool,
    is_state_epoch: bool,
) -> (r: Option<CallbackMessage>)
    ensures
        r is Some <==> calls_back(status),
        r matches Some(m) ==> {
            &&& m.account@ == account_text(account)
            &&& m.hash@ == digits(block_hash(block.block).number(), 16, 64, hex_alphabet())
            &&& m.amount@ == decimal(amount.raw as nat)
            &&& m.sub_type == sub_type_of(*block, is_state_send, is_state_epoch)
            &&& m.is_send == is_state_send
        },
{
    if status != ElectionStatusType::ActiveConfirmedQuorum && status
        != ElectionStatusType::ActiveConfirmationHeight {
        return None;
    }
    let sub_type = if is_state_send {
        Some(CallbackSubType::Send)
    } else if block.block_type() == BlockType::State {
        if block.is_change() {
            Some(CallbackSubType::Change)
        } else if is_state_epoch {
            Some(CallbackSubType::Epoch)
        } else {
            Some(CallbackSubType::Receive)
        }
    } else {
        None
    };
    Some(
        CallbackMessage {
            account: account.encode_account(),
            hash: block.hash().encode_hex(),
            amount: amount.to_string_dec(),
            sub_type,
            is_send: is_state_send,
        },
    )
}

} // verus!
