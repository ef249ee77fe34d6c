//! Decisions of the block processor: how much each source may queue and how often it is
//! served, and what happens in the unchecked map once the ledger has judged a block.
use crate::blocks::{block_hash, saved_is_send, Block, BlockType, Epoch, SavedBlock};
use crate::primitives::{Account, BlockHash, Duration};
use vstd::prelude::*;

verus! {

/// Where a block came from.
#[derive(PartialEq, Eq, Structural, Clone, Copy, Debug, PartialOrd, Ord, Hash)]
pub enum BlockSource {
    Unknown,
    Live,
    LiveOriginator,
    Bootstrap,
    BootstrapLegacy,
    Unchecked,
    Local,
    Forced,
    Election,
}

/// The ledger's verdict on a block.
#[derive(PartialEq, Eq, Structural, Clone, Copy, Debug)]
pub enum BlockStatus {
    /// Hasn't been seen before, signed correctly
    Progress,
    /// Signature was bad, forged or transmission error
    BadSignature,
    /// Already seen and was valid
    Old,
    /// Malicious attempt to spend a negative amount
    NegativeSpend,
    /// Malicious fork based on previous
    Fork,
    /// Source block doesn't exist, has already been received, or requires an account upgrade
    Unreceivable,
    /// Block marked as previous is unknown
    GapPrevious,
    /// Block marked as source is unknown
    GapSource,
    /// Block marked as pending blocks required for epoch open block are unknown
    GapEpochOpenPending,
    /// Block attempts to open the burn account
    OpenedBurnAccount,
    /// Balance and amount delta don't match
    BalanceMismatch,
    /// Representative is changed when it is not allowed
    RepresentativeMismatch,
    /// This block cannot follow the previous block
    BlockPosition,
    /// Insufficient work for this block, even though it passed the minimal validation
    InsufficientWork,
}

/// Queue sizes and service weights of the block processor.
#[derive(PartialEq, Eq, Structural, Clone, Copy, Debug)]
pub struct BlockProcessorConfig {
    /// Maximum number of blocks to queue from network peers
    pub max_peer_queue: usize,
    /// Maximum number of blocks to queue from system components (local RPC, bootstrap)
    pub max_system_queue: usize,
    /// Higher priority gets processed more frequently
    pub priority_live: usize,
    pub priority_bootstrap: usize,
    pub priority_local: usize,
    pub priority_system: usize,
    pub batch_max_time: Duration,
    pub full_size: usize,
    pub batch_size: usize,
    pub max_queued_notifications: usize,
}

/// Whether blocks of this source come from network peers.
pub open spec fn from_peers(source: BlockSource) -> bool {
    source == BlockSource::Live || source == BlockSource::LiveOriginator
}

/// The service weight of a source's queue.
pub open spec fn priority_of(config: BlockProcessorConfig, source: BlockSource) -> usize {
    match source {
        BlockSource::Live | BlockSource::LiveOriginator => config.priority_live,
        BlockSource::Bootstrap | BlockSource::BootstrapLegacy | BlockSource::Unchecked => config.priority_bootstrap,
        BlockSource::Local => config.priority_local,
        BlockSource::Election | BlockSource::Forced | BlockSource::Unknown => config.priority_system,
    }
}

impl BlockProcessorConfig {
    pub const DEFAULT_BATCH_SIZE: usize = 0;

    pub const DEFAULT_FULL_SIZE: usize = 65536;

    /// Queues of 128 blocks per peer and 16384 per system component; weights 1 (live), 8
    /// (bootstrap), 16 (local) and 32 (system); batches of 256 blocks taking up to 500 ms.
    pub fn new() -> (r: BlockProcessorConfig)
        ensures
            r.max_peer_queue == 128,
            r.max_system_queue == 16384,
            r.priority_live == 1,
            r.priority_bootstrap == 8,
            r.priority_local == 16,
            r.priority_system == 32,
            r.batch_max_time.millis == 500,
            r.full_size == 65536,
            r.batch_size == 256,
            r.max_queued_notifications == 8,
    {
        BlockProcessorConfig {
            max_peer_queue: 128,
            max_system_queue: 16 * 1024,
            priority_live: 1,
            priority_bootstrap: 8,
            priority_local: 16,
            priority_system: 32,
            batch_max_time: Duration::from_millis(500),
            full_size: Self::DEFAULT_FULL_SIZE,
            batch_size: 256,
            max_queued_notifications: 8,
        }
    }

    /// How many blocks one origin of this source may queue: the peer limit for blocks from
    /// the network, else the system limit.
    pub fn max_queue_size(&self, source: BlockSource) -> (r: usize)
        ensures
            r == if from_peers(source) {
                self.max_peer_queue
            } else {
                self.max_system_queue
            },
    {
        match source {
            BlockSource::Live | BlockSource::LiveOriginator => self.max_peer_queue,
            _ => self.max_system_queue,
        }
    }

    /// How often the queues of this source are served relative to the others.
    pub fn priority(&self, source: BlockSource) -> (r: usize)
        ensures
            r == priority_of(*self, source),
    {
        match source {
            BlockSource::Live | BlockSource::LiveOriginator => self.priority_live,
            BlockSource::Bootstrap | BlockSource::BootstrapLegacy | BlockSource::Unchecked => self.priority_bootstrap,
            BlockSource::Local => self.priority_local,
            BlockSource::Election | BlockSource::Forced | BlockSource::Unknown => self.priority_system,
        }
    }
}

/// What the unchecked map does after the ledger judged a block.
#[derive(PartialEq, Eq, Structural, Clone, Copy, Debug)]
pub enum UncheckedAction {
    /// The block was added: blocks waiting for this hash, and for the given account if there
    /// is one, may be processed now.
    Trigger(BlockHash, Option<Account>),
    /// The block waits in the unchecked map until the block or account with this key
    /// arrives.
    Put(BlockHash),
    /// Nothing to do.
    Nothing,
}

/// Whether an added block may let a waiting epoch open proceed: legacy sends, and state sends
/// below the last epoch.
pub open spec fn wakes_destination(saved: SavedBlock) -> bool {
    saved.block.block_type == BlockType::LegacySend || (saved.block.block_type == BlockType::State
        && saved_is_send(saved) && saved.sideband.details.epoch != Epoch::Epoch2)
}

/// The key under which a block with a missing source waits: its source, else its link, else
/// zero.
pub open spec fn gap_source_key(block: Block) -> BlockHash {
    if block.block_type == BlockType::LegacyReceive || block.block_type == BlockType::LegacyOpen
        || block.block_type == BlockType::State {
        block.link
    } else {
        BlockHash { hi: 0, lo: 0 }
    }
}

/// What the unchecked map does for a block judged `status` (`saved` is the saved block of an
/// added one).
pub open spec fn unchecked_action_of(status: BlockStatus, block: Block, saved: Option<SavedBlock>) -> UncheckedAction {
    match status {
        BlockStatus::Progress => UncheckedAction::Trigger(
            block_hash(block),
            if wakes_destination(saved.unwrap()) {
                Some(Account { hi: saved.unwrap().block.link.hi, lo: saved.unwrap().block.link.lo })
            } else {
                None
            },
        ),
        BlockStatus::GapPrevious => UncheckedAction::Put(block.previous),
        BlockStatus::GapSource => UncheckedAction::Put(gap_source_key(block)),
        BlockStatus::GapEpochOpenPending => UncheckedAction::Put(BlockHash { hi: block.account.hi, lo: block.account.lo }),
        _ => UncheckedAction::Nothing,
    }
}

/// What the unchecked map does after the ledger judged `block`: an added block wakes the
/// blocks waiting for it (and, for a send that may open an account in a later epoch, those
/// waiting for the destination); a block with a missing previous block, source or pending
/// entry waits under that key; other verdicts change nothing. An added block comes with its
/// saved block, and only open and state blocks can wait for pending entries.
pub fn unchecked_action(status: BlockStatus, block: &Block, saved: Option<&SavedBlock>) -> (r: UncheckedAction)
    requires
        status == BlockStatus::Progress ==> saved is Some,
        status == BlockStatus::Progress ==> saved.unwrap().block == *block,
        status == BlockStatus::GapEpochOpenPending ==> block.block_type == BlockType::LegacyOpen
            || block.block_type == BlockType::State,
    ensures
        r == unchecked_action_of(status, *block, match saved {
            Some(s) => Some(*s),
            None => None,
        }),
        status == BlockStatus::GapSource && (block.block_type == BlockType::State || block.block_type
            == BlockType::LegacyReceive || block.block_type == BlockType::LegacyOpen) ==> r
            == UncheckedAction::Put(block.link),
        status == BlockStatus::GapSource && (block.block_type == BlockType::LegacySend || block.block_type
            == BlockType::LegacyChange) ==> r == UncheckedAction::Put(BlockHash { hi: 0, lo: 0 }),
        status == BlockStatus::GapPrevious ==> r == UncheckedAction::Put(block.previous),
        status == BlockStatus::GapEpochOpenPending ==> r == UncheckedAction::Put(
            BlockHash { hi: block.account.hi, lo: block.account.lo },
        ),
        status == BlockStatus::Progress ==> (r matches UncheckedAction::Trigger(h, _) && h == block_hash(
            *block,
        )),
        status == BlockStatus::Progress && (block.block_type == BlockType::LegacySend || (block.block_type
            == BlockType::State && saved.unwrap().sideband.details.is_send
            && saved.unwrap().sideband.details.epoch != Epoch::Epoch2)) ==> r == UncheckedAction::Trigger(
            block_hash(*block),
            Some(Account { hi: block.link.hi, lo: block.link.lo }),
        ),
        status == BlockStatus::Progress && (block.block_type == BlockType::LegacyReceive || block.block_type
            == BlockType::LegacyOpen || block.block_type == BlockType::LegacyChange || (block.block_type
            == BlockType::State && !saved.unwrap().sideband.details.is_send)) ==> r == UncheckedAction::Trigger(
            block_hash(*block),
            None,
        ),
{
    match status {
        BlockStatus::Progress => {
            let hash = block.hash();
            let s = match saved {
                Some(s) => s,
                None => {
                    assert(false);
                    return UncheckedAction::Nothing;
                },
            };
            let wake = s.block_type() == BlockType::LegacySend || (s.block_type() == BlockType::State && s.is_send()
                && s.epoch() != Epoch::Epoch2);
            if wake {
                UncheckedAction::Trigger(hash, Some(s.block.destination_or_link()))
            } else {
                UncheckedAction::Trigger(hash, None)
            }
        },
        BlockStatus::GapPrevious => UncheckedAction::Put(block.previous()),
        BlockStatus::GapSource => {
            let key = match block.source_field() {
                Some(source) => source,
                None => match block.link_field() {
                    Some(link) => link,
                    None => BlockHash::zero(),
                },
            };
            UncheckedAction::Put(key)
        },
        BlockStatus::GapEpochOpenPending => {
            let account = match block.account_field() {
                Some(a) => a,
                None => {
                    assert(false);
                    Account::zero()
                },
            };
            UncheckedAction::Put(account.as_hash())
        },
        _ => UncheckedAction::Nothing,
    }
}

/// A block that waits goes under the key whose arrival lets it proceed: a missing previous
/// block under the previous hash; a missing source under the block's source or link (the link
/// of a state block names the send it receives), and under zero for blocks that have neither;
/// a missing pending entry under the account. An added block triggers the blocks waiting for
/// its own hash.
pub proof fn lemma_waiting_key(status: BlockStatus, block: Block, saved: Option<SavedBlock>)
    ensures
        status == BlockStatus::GapSource && (block.block_type == BlockType::State || block.block_type
            == BlockType::LegacyReceive || block.block_type == BlockType::LegacyOpen)
            ==> unchecked_action_of(status, block, saved) == UncheckedAction::Put(block.link),
        status == BlockStatus::GapSource && (block.block_type == BlockType::LegacySend || block.block_type
            == BlockType::LegacyChange) ==> unchecked_action_of(status, block, saved)
            == UncheckedAction::Put(BlockHash { hi: 0, lo: 0 }),
        status == BlockStatus::GapPrevious ==> unchecked_action_of(status, block, saved)
            == UncheckedAction::Put(block.previous),
        status == BlockStatus::GapEpochOpenPending ==> unchecked_action_of(status, block, saved)
            == UncheckedAction::Put(BlockHash { hi: block.account.hi, lo: block.account.lo }),
        status == BlockStatus::Progress ==> (unchecked_action_of(status, block, saved) matches UncheckedAction::Trigger(
            h,
            _,
        ) && h == block_hash(block)),
{
}

} // verus!
