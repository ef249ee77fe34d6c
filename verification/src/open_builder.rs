//! A builder of legacy open blocks for tests.
use crate::crypto::{blake2b_512, ed25519_public_key, ed25519_signature};
use crate::blocks::{
    account_from_bytes, block_hash, generate_work, generated_work, hash_bytes, public_key_of,
    signature_from_bytes, signature_valid, Block, BlockDetails, BlockSideband, BlockType, Epoch, PrivateKey,
    SavedBlock, Signature,
};
use crate::primitives::{Account, Amount, BlockHash, PublicKey, UnixTimestamp};
use vstd::prelude::*;

verus! {

/// Builds a legacy open block; unset fields take defaults.
pub struct TestLegacyOpenBlockBuilder {
    pub account: Option<Account>,
    pub representative: Option<PublicKey>,
    pub source: Option<BlockHash>,
    pub prv_key: Option<PrivateKey>,
    pub work: Option<u64>,
}

/// The key that signs when none was given: all 32 bytes zero.
pub open spec fn default_key_bytes() -> Seq<u8> {
    Seq::new(32, |i: int| 0u8)
}

/// The block that a builder makes apart from its work and signature: source 1 and
/// representative 2 unless set, for the account of the builder's key.
pub open spec fn built_open_block(b: TestLegacyOpenBlockBuilder) -> Block {
    Block {
        block_type: BlockType::LegacyOpen,
        account: account_from_bytes(ed25519_public_key(blake2b_512(built_key_bytes(b)))),
        previous: BlockHash { hi: 0, lo: 0 },
        representative: match b.representative {
            Some(r) => r,
            None => Account { hi: 0, lo: 2 },
        },
        balance: Amount { raw: 0 },
        link: match b.source {
            Some(s) => s,
            None => BlockHash { hi: 0, lo: 1 },
        },
        work: 0,
        signature: Signature { q0: 0, q1: 0, q2: 0, q3: 0 },
    }
}

/// The bytes of the key that signs: the builder's key, or all zeros.
pub open spec fn built_key_bytes(b: TestLegacyOpenBlockBuilder) -> Seq<u8> {
    match b.prv_key {
        Some(k) => k.bytes@,
        None => default_key_bytes(),
    }
}

/// The root that default work is generated for: the builder's account if set, else the
/// account of its key.
pub open spec fn built_work_root(b: TestLegacyOpenBlockBuilder) -> BlockHash {
    let a = match b.account {
        Some(a) => a,
        None => built_open_block(b).account,
    };
    BlockHash { hi: a.hi, lo: a.lo }
}

/// Whether `r` is the block a builder makes: the fields of `built_open_block`, signed by the
/// builder's key (and valid under its account), with the work that was set or else work
/// generated for `built_work_root`.
pub open spec fn is_built_open_block(b: TestLegacyOpenBlockBuilder, r: Block) -> bool {
    &&& r == (Block { work: r.work, signature: r.signature, ..built_open_block(b) })
    &&& r.signature == signature_from_bytes(
        ed25519_signature(blake2b_512(built_key_bytes(b)), hash_bytes(block_hash(r))),
    )
    &&& signature_valid(r, r.account)
    &&& match b.work {
        Some(w) => r.work == w,
        None => generated_work(built_work_root(b), r.work),
    }
}

impl TestLegacyOpenBlockBuilder {
    pub fn new() -> (r: Self)
        ensures
            r.account is None && r.representative is None && r.source is None
                && r.prv_key is None && r.work is None,
    {
        TestLegacyOpenBlockBuilder {
            account: None,
            representative: None,
            source: None,
            prv_key: None,
            work: None,
        }
    }

    pub fn source(self, source: BlockHash) -> (r: Self)
        ensures
            r == (TestLegacyOpenBlockBuilder { source: Some(source), ..self }),
    {
        TestLegacyOpenBlockBuilder { source: Some(source), ..self }
    }

    pub fn representative(self, representative: PublicKey) -> (r: Self)
        ensures
            r == (TestLegacyOpenBlockBuilder { representative: Some(representative), ..self }),
    {
        TestLegacyOpenBlockBuilder { representative: Some(representative), ..self }
    }

    pub fn sign(self, prv_key: &PrivateKey) -> (r: Self)
        ensures
            r == (TestLegacyOpenBlockBuilder { prv_key: Some(*prv_key), ..self }),
    {
        TestLegacyOpenBlockBuilder { prv_key: Some(*prv_key), ..self }
    }

    pub fn work(self, work: u64) -> (r: Self)
        ensures
            r == (TestLegacyOpenBlockBuilder { work: Some(work), ..self }),
    {
        TestLegacyOpenBlockBuilder { work: Some(work), ..self }
    }

    /// The legacy open block of the builder's key.
    pub fn build(self) -> (r: Block)
        ensures
            is_built_open_block(self, r),
    {
        let source = match self.source {
            Some(s) => s,
            None => BlockHash::from_u64(1),
        };
        let prv_key = match self.prv_key {
            Some(k) => k,
            None => {
                let bytes = [0u8; 32];
                assert(bytes@ =~= default_key_bytes());
                PrivateKey::from_bytes(bytes)
            },
        };
        let representative = match self.representative {
            Some(r) => r,
            None => Account::from_u64(2),
        };
        let account = match self.account {
            Some(a) => a,
            None => prv_key.account(),
        };
        let work = match self.work {
            Some(w) => w,
            None => generate_work(&account.as_hash()),
        };
        Block::new_legacy_open(&prv_key, source, representative, work)
    }

    /// The block with the sideband of a first block: height 1, timestamp 2, balance 5 raw,
    /// received in epoch 0.
    pub fn build_saved(self) -> (r: SavedBlock)
        ensures
            is_built_open_block(self, r.block),
            r.sideband == (BlockSideband {
                height: 1,
                timestamp: UnixTimestamp { secs: 2 },
                successor: BlockHash { hi: 0, lo: 0 },
                account: built_open_block(self).account,
                balance: Amount { raw: 5 },
                details: BlockDetails {
                    epoch: Epoch::Epoch0,
                    is_send: false,
                    is_receive: true,
                    is_epoch: false,
                },
                source_epoch: Epoch::Epoch0,
            }),
    {
        let block = self.build();
        let details = BlockDetails::new(Epoch::Epoch0, false, true, false);
        let account = match block.account_field() {
            Some(a) => a,
            None => {
                assert(false);
                Account::zero()
            },
        };
        let sideband = BlockSideband {
            height: 1,
            timestamp: UnixTimestamp::new(2),
            successor: BlockHash::zero(),
            account,
            balance: Amount::raw(5),
            details,
            source_epoch: Epoch::Epoch0,
        };
        SavedBlock::new(block, sideband)
    }
}

} // verus!
