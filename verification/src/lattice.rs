//! Builders of consistent block lattices for tests: they track each account's frontier and
//! the receivable sends, and produce the next block of an account chain with its sideband.
use crate::assoc::{
    assoc_map, has_key, keys_unique, lemma_assoc_index, lemma_assoc_push, lemma_assoc_remove,
    lemma_assoc_update,
};
use crate::crypto::{blake2b_512, ed25519_public_key, ed25519_signature};
use crate::blocks::{
    account_from_bytes, block_hash, block_root, generated_work, public_key_of, signed_with_work, Block,
    BlockDetails, BlockSideband, BlockType, Epoch, PrivateKey, SavedBlock, Signature, hash_bytes,
    signature_from_bytes,
};
use crate::primitives::{Account, Amount, BlockHash, Link, PublicKey, UnixTimestamp};
use vstd::prelude::*;

verus! {

/// The last block of an account chain and the state after it.
#[derive(PartialEq, Eq, Structural, Clone, Copy, Debug)]
pub struct Frontier {
    pub hash: BlockHash,
    pub representative: PublicKey,
    pub balance: Amount,
    pub height: u64,
}

impl Frontier {
    /// The state of an account without blocks.
    pub fn empty() -> (r: Frontier)
        ensures
            r == empty_frontier(),
    {
        Frontier {
            hash: BlockHash::zero(),
            representative: Account::zero(),
            balance: Amount::zero(),
            height: 0,
        }
    }
}

pub open spec fn empty_frontier() -> Frontier {
    Frontier {
        hash: BlockHash { hi: 0, lo: 0 },
        representative: Account { hi: 0, lo: 0 },
        balance: Amount { raw: 0 },
        height: 0,
    }
}

/// A send that its destination has not received yet.
#[derive(PartialEq, Eq, Structural, Clone, Copy, Debug)]
pub struct PendingKey {
    pub receiving_account: Account,
    pub send_block_hash: BlockHash,
}

#[derive(PartialEq, Eq, Structural, Clone, Copy, Debug)]
pub struct PendingInfo {
    pub source: Account,
    pub amount: Amount,
    pub epoch: Epoch,
}

/// The private key of the development network's genesis account.
pub fn dev_genesis_key() -> (r: PrivateKey)
    ensures
        r.bytes@ == dev_genesis_key_bytes(),
{
    let bytes: [u8; 32] = [
        52, 240, 163, 122, 173, 32, 244, 162, 96, 240, 165, 179, 203, 61, 127, 181, 6, 115, 33,
        34, 99, 229, 138, 56, 11, 193, 4, 116, 187, 3, 156, 228,
    ];
    assert(bytes@ =~= dev_genesis_key_bytes());
    PrivateKey::from_bytes(bytes)
}

pub open spec fn dev_genesis_key_bytes() -> Seq<u8> {
    seq![
        52u8, 240, 163, 122, 173, 32, 244, 162, 96, 240, 165, 179, 203, 61, 127, 181, 6, 115,
        33, 34, 99, 229, 138, 56, 11, 193, 4, 116, 187, 3, 156, 228,
    ]
}

/// The development genesis block as far as its hash goes: the legacy open block of the
/// genesis account, which is its own source and representative. (Its work and signature do
/// not enter the hash; `dev_genesis_block_of` gives the block with them.)
pub open spec fn dev_genesis_block(genesis: Account) -> Block {
    Block {
        block_type: BlockType::LegacyOpen,
        account: genesis,
        previous: BlockHash { hi: 0, lo: 0 },
        representative: genesis,
        balance: Amount { raw: 0 },
        link: BlockHash { hi: genesis.hi, lo: genesis.lo },
        work: 0,
        signature: Signature { q0: 0, q1: 0, q2: 0, q3: 0 },
    }
}

/// The development genesis block, signed by the genesis key and with work generated for it.
pub fn dev_genesis_block_of(genesis_key: &PrivateKey) -> (r: Block)
    ensures
        r == (Block { work: r.work, signature: r.signature, ..dev_genesis_block(public_key_of(*genesis_key)) }),
        block_hash(r) == block_hash(dev_genesis_block(public_key_of(*genesis_key))),
        signed_with_work(r, *genesis_key),
{
    let account = genesis_key.account();
    let r = Block::new_legacy_open(genesis_key, account.as_hash(), account, 0).with_generated_work();
    assert(crate::blocks::hashable_bytes(r) == crate::blocks::hashable_bytes(
        dev_genesis_block(public_key_of(*genesis_key)),
    ));
    r
}

/// Whether a block is signed by the development network's epoch signer (the genesis key)
/// and carries work generated for its root.
pub open spec fn epoch_signed_with_work(b: Block) -> bool {
    &&& b.signature == signature_from_bytes(
        ed25519_signature(blake2b_512(dev_genesis_key_bytes()), hash_bytes(block_hash(b))),
    )
    &&& generated_work(block_root(b), b.work)
}

/// The link that marks an epoch v1 block: "epoch v1 block" padded with zero bytes.
pub fn epoch_v1_link() -> (r: Link)
    ensures
        r == epoch_v1_link_spec(),
{
    BlockHash::from_halves(134835824045712182898382948876398821376u128, 0)
}

pub open spec fn epoch_v1_link_spec() -> Link {
    BlockHash { hi: 134835824045712182898382948876398821376u128, lo: 0 }
}

/// The sideband of the block that moves an account from `old` to `new`: a send when the
/// balance drops, a receive when it grows.
pub open spec fn sideband_spec(now: UnixTimestamp, account: Account, old: Frontier, new: Frontier) -> BlockSideband {
    BlockSideband {
        height: new.height,
        timestamp: now,
        successor: BlockHash { hi: 0, lo: 0 },
        account,
        balance: new.balance,
        details: BlockDetails {
            epoch: Epoch::Epoch0,
            is_send: new.balance.raw < old.balance.raw,
            is_receive: new.balance.raw > old.balance.raw,
            is_epoch: false,
        },
        source_epoch: Epoch::Epoch0,
    }
}

/// Builds blocks of several accounts that fit together: each account chain continues at its
/// frontier and each receive consumes a pending send.
#[derive(Clone)]
pub struct SavedBlockLatticeBuilder {
    accounts: Vec<(Account, Frontier)>,
    pending_receives: Vec<(PendingKey, PendingInfo)>,
    now: UnixTimestamp,
}

impl SavedBlockLatticeBuilder {
    /// The frontier of each account with blocks.
    pub closed spec fn frontiers(&self) -> Map<Account, Frontier> {
        assoc_map(self.accounts@)
    }

    /// The sends that have not been received.
    pub closed spec fn pending(&self) -> Map<PendingKey, PendingInfo> {
        assoc_map(self.pending_receives@)
    }

    /// The time that new blocks are stamped with.
    pub closed spec fn now_spec(&self) -> UnixTimestamp {
        self.now
    }

    pub closed spec fn wf(&self) -> bool {
        keys_unique(self.accounts@) && keys_unique(self.pending_receives@)
    }

    /// A lattice whose only account is the genesis account, holding all funds.
    pub fn new() -> (r: Self)
        ensures
            r.wf(),
            r.frontiers() == map![dev_genesis_account() => Frontier {
                hash: block_hash(dev_genesis_block(dev_genesis_account())),
                representative: dev_genesis_account(),
                balance: Amount { raw: u128::MAX },
                height: 1,
            }],
            r.pending() == Map::<PendingKey, PendingInfo>::empty(),
            r.now_spec().secs == 42,
    {
        let key = dev_genesis_key();
        let account = key.account();
        let genesis = dev_genesis_block_of(&key);
        let frontier = Frontier {
            hash: genesis.hash(),
            representative: key.public_key(),
            balance: Amount::max(),
            height: 1,
        };
        let mut accounts: Vec<(Account, Frontier)> = Vec::new();
        proof {
            lemma_assoc_push(accounts@, account, frontier);
        }
        accounts.push((account, frontier));
        let r = SavedBlockLatticeBuilder {
            accounts,
            pending_receives: Vec::new(),
            now: UnixTimestamp::new(42),
        };
        assert(assoc_map(Seq::<(Account, Frontier)>::empty()) =~= Map::empty());
        assert(assoc_map(Seq::<(PendingKey, PendingInfo)>::empty()) =~= Map::empty());
        r
    }

    pub fn set_now(&mut self, now: UnixTimestamp)
        ensures
            final(self).wf() == old(self).wf(),
            final(self).frontiers() == old(self).frontiers(),
            final(self).pending() == old(self).pending(),
            final(self).now_spec() == now,
    {
        self.now = now;
    }

    /// Moves the time one second forward.
    pub fn advance_time(&mut self)
        requires
            old(self).now_spec().secs < u64::MAX,
        ensures
            final(self).wf() == old(self).wf(),
            final(self).frontiers() == old(self).frontiers(),
            final(self).pending() == old(self).pending(),
            final(self).now_spec().secs == old(self).now_spec().secs + 1,
    {
        self.now = self.now.add(1);
    }

    /// The chain builder of the genesis account.
    pub fn genesis(&mut self) -> (r: SavedAccountChainBuilder<'_>)
        ensures
            *r.lattice == *old(self),
            r.key.bytes@ == dev_genesis_key_bytes(),
            r.account == public_key_of(r.key),
            *final(self) == *final(r.lattice),
    {
        let key = dev_genesis_key();
        self.account(&key)
    }

    /// The chain builder of the account of `key`.
    pub fn account<'a>(&'a mut self, key: &PrivateKey) -> (r: SavedAccountChainBuilder<'a>)
        ensures
            *r.lattice == *old(self),
            r.key == *key,
            r.account == public_key_of(*key),
            *final(self) == *final(r.lattice),
    {
        let account = key.account();
        SavedAccountChainBuilder { lattice: self, key: *key, account }
    }

    /// Opens `account` with an epoch block. The account must be unopened and have a
    /// pending send.
    pub fn epoch_open(&mut self, account: Account) -> (r: SavedBlock)
        requires
            old(self).wf(),
            !old(self).frontiers().contains_key(account),
            exists|k: PendingKey| #[trigger]
                old(self).pending().contains_key(k) && k.receiving_account == account,
        ensures
            final(self).wf(),
            r.block == (Block {
                block_type: BlockType::State,
                account,
                previous: BlockHash { hi: 0, lo: 0 },
                representative: Account { hi: 0, lo: 0 },
                balance: Amount { raw: 0 },
                link: epoch_v1_link_spec(),
                work: r.block.work,
                signature: r.block.signature,
            }),
            epoch_signed_with_work(r.block),
            r.sideband == sideband_spec(old(self).now_spec(), account, empty_frontier(), Frontier {
                hash: block_hash(r.block),
                representative: Account { hi: 0, lo: 0 },
                balance: Amount { raw: 0 },
                height: 1,
            }),
            final(self).frontiers() == old(self).frontiers().insert(account, Frontier {
                hash: block_hash(r.block),
                representative: Account { hi: 0, lo: 0 },
                balance: Amount { raw: 0 },
                height: 1,
            }),
            final(self).pending() == old(self).pending(),
            final(self).now_spec() == old(self).now_spec(),
    {
        let signer = dev_genesis_key();
        let receive = Block::new_epoch(
            &signer,
            account,
            BlockHash::zero(),
            Account::zero(),
            Amount::zero(),
            epoch_v1_link(),
            0,
        ).with_generated_work();
        let new_frontier = Frontier {
            hash: receive.hash(),
            representative: Account::zero(),
            balance: Amount::zero(),
            height: 1,
        };
        let sideband = self.sideband_for(account, &Frontier::empty(), &new_frontier);
        self.insert_frontier(account, new_frontier);
        SavedBlock::new(receive, sideband)
    }

    fn sideband_for(&self, account: Account, old_frontier: &Frontier, new_frontier: &Frontier) -> (r:
        BlockSideband)
        ensures
            r == sideband_spec(self.now, account, *old_frontier, *new_frontier),
    {
        let is_send = new_frontier.balance.raw < old_frontier.balance.raw;
        let is_receive = new_frontier.balance.raw > old_frontier.balance.raw;
        BlockSideband {
            height: new_frontier.height,
            timestamp: self.now,
            successor: BlockHash::zero(),
            account,
            balance: new_frontier.balance,
            details: BlockDetails::new(Epoch::Epoch0, is_send, is_receive, false),
            source_epoch: Epoch::Epoch0,
        }
    }

    fn find_account(&self, account: Account) -> (r: Option<usize>)
        requires
            self.wf(),
        ensures
            r is None <==> !self.frontiers().contains_key(account),
            r matches Some(i) ==> i < self.accounts@.len() && self.accounts@[i as int].0 == account,
    {
        let mut i: usize = 0;
        while i < self.accounts.len()
            invariant
                i <= self.accounts@.len(),
                forall|j: int| 0 <= j < i ==> self.accounts@[j].0 != account,
            decreases self.accounts@.len() - i,
        {
            if self.accounts[i].0 == account {
                return Some(i);
            }
            i = i + 1;
        }
        None
    }

    fn get_frontier_of(&self, account: Account) -> (r: Option<Frontier>)
        requires
            self.wf(),
        ensures
            r == (if self.frontiers().contains_key(account) {
                Some(self.frontiers()[account])
            } else {
                None
            }),
    {
        match self.find_account(account) {
            Some(i) => {
                proof {
                    lemma_assoc_index(self.accounts@, i as int);
                }
                Some(self.accounts[i].1)
            },
            None => None,
        }
    }

    fn insert_frontier(&mut self, account: Account, frontier: Frontier)
        requires
            old(self).wf(),
        ensures
            final(self).wf(),
            final(self).frontiers() == old(self).frontiers().insert(account, frontier),
            final(self).pending() == old(self).pending(),
            final(self).now_spec() == old(self).now_spec(),
    {
        match self.find_account(account) {
            Some(i) => {
                proof {
                    lemma_assoc_update(self.accounts@, i as int, frontier);
                }
                self.accounts.set(i, (account, frontier));
            },
            None => {
                proof {
                    lemma_assoc_push(self.accounts@, account, frontier);
                }
                self.accounts.push((account, frontier));
            },
        }
    }

    fn find_pending(&self, key: PendingKey) -> (r: Option<usize>)
        requires
            self.wf(),
        ensures
            r is None <==> !self.pending().contains_key(key),
            r matches Some(i) ==> i < self.pending_receives@.len()
                && self.pending_receives@[i as int].0 == key,
    {
        let mut i: usize = 0;
        while i < self.pending_receives.len()
            invariant
                i <= self.pending_receives@.len(),
                forall|j: int| 0 <= j < i ==> self.pending_receives@[j].0 != key,
            decreases self.pending_receives@.len() - i,
        {
            if self.pending_receives[i].0 == key {
                return Some(i);
            }
            i = i + 1;
        }
        None
    }

    fn insert_pending(&mut self, key: PendingKey, info: PendingInfo)
        requires
            old(self).wf(),
        ensures
            final(self).wf(),
            final(self).pending() == old(self).pending().insert(key, info),
            final(self).frontiers() == old(self).frontiers(),
            final(self).now_spec() == old(self).now_spec(),
    {
        match self.find_pending(key) {
            Some(i) => {
                proof {
                    lemma_assoc_update(self.pending_receives@, i as int, info);
                }
                self.pending_receives.set(i, (key, info));
            },
            None => {
                proof {
                    lemma_assoc_push(self.pending_receives@, key, info);
                }
                self.pending_receives.push((key, info));
            },
        }
    }

    /// Removes and returns a pending send; it must exist.
    fn pop_pending_receive(&mut self, receiving_account: Account, send_hash: BlockHash) -> (r:
        PendingInfo)
        requires
            old(self).wf(),
            old(self).pending().contains_key(
                PendingKey { receiving_account, send_block_hash: send_hash },
            ),
        ensures
            final(self).wf(),
            r == old(self).pending()[PendingKey { receiving_account, send_block_hash: send_hash }],
            final(self).pending() == old(self).pending().remove(
                PendingKey { receiving_account, send_block_hash: send_hash },
            ),
            final(self).frontiers() == old(self).frontiers(),
            final(self).now_spec() == old(self).now_spec(),
    {
        let key = PendingKey { receiving_account, send_block_hash: send_hash };
        match self.find_pending(key) {
            Some(i) => {
                proof {
                    lemma_assoc_index(self.pending_receives@, i as int);
                    lemma_assoc_remove(self.pending_receives@, i as int);
                }
                let (_, info) = self.pending_receives.remove(i);
                info
            },
            None => {
                assert(false);
                PendingInfo { source: Account::zero(), amount: Amount::zero(), epoch: Epoch::Epoch0 }
            },
        }
    }
}

/// The development genesis account: the public key of the development genesis key.
pub open spec fn dev_genesis_account() -> Account {
    account_from_bytes(ed25519_public_key(blake2b_512(dev_genesis_key_bytes())))
}

/// Builds the next blocks of one account chain in a lattice.
pub struct SavedAccountChainBuilder<'a> {
    pub lattice: &'a mut SavedBlockLatticeBuilder,
    pub key: PrivateKey,
    pub account: Account,
}

/// The frontier of the account that a chain builder extends.
pub open spec fn chain_frontier(c: SavedAccountChainBuilder) -> Frontier {
    c.lattice.frontiers()[c.account]
}

/// The frontier of the chain builder's account, or the state of an unopened account, whose
/// representative is its own key.
pub open spec fn chain_frontier_or_empty(c: SavedAccountChainBuilder) -> Frontier {
    if c.lattice.frontiers().contains_key(c.account) {
        c.lattice.frontiers()[c.account]
    } else {
        Frontier {
            hash: BlockHash { hi: 0, lo: 0 },
            representative: public_key_of(c.key),
            balance: Amount { raw: 0 },
            height: 0,
        }
    }
}

/// The effect of appending `block` to a chain that was at `old`: the result is the block with
/// the sideband for the step to `new`, and the chain's frontier becomes `new`.
pub open spec fn appended(
    before: SavedAccountChainBuilder,
    after: SavedAccountChainBuilder,
    r: SavedBlock,
    old: Frontier,
    new: Frontier,
) -> bool {
    &&& after.lattice.wf()
    &&& after.key == before.key
    &&& after.account == before.account
    &&& after.lattice.now_spec() == before.lattice.now_spec()
    &&& r.sideband == sideband_spec(before.lattice.now_spec(), before.account, old, new)
    &&& after.lattice.frontiers() == before.lattice.frontiers().insert(before.account, new)
}

impl<'a> SavedAccountChainBuilder<'a> {
    fn append(&mut self, old_frontier: Frontier, block: Block, new_frontier: Frontier) -> (r:
        SavedBlock)
        requires
            old(self).lattice.wf(),
        ensures
            r.block == block,
            appended(*old(self), *final(self), r, old_frontier, new_frontier),
            final(self).lattice.pending() == old(self).lattice.pending(),
            *final(final(self).lattice) == *final(old(self).lattice),
    {
        let sideband = self.lattice.sideband_for(self.account, &old_frontier, &new_frontier);
        self.lattice.insert_frontier(self.account, new_frontier);
        SavedBlock::new(block, sideband)
    }

    /// The frontier of this account; the account must be opened.
    fn get_frontier(&self) -> (r: Frontier)
        requires
            self.lattice.wf(),
            self.lattice.frontiers().contains_key(self.account),
        ensures
            r == chain_frontier(*self),
    {
        match self.lattice.get_frontier_of(self.account) {
            Some(f) => f,
            None => {
                assert(false);
                Frontier::empty()
            },
        }
    }

    /// The frontier of this account, or the state of an unopened account.
    fn get_frontier_or_empty(&self) -> (r: Frontier)
        requires
            self.lattice.wf(),
        ensures
            r == chain_frontier_or_empty(*self),
    {
        match self.lattice.get_frontier_of(self.account) {
            Some(f) => f,
            None => Frontier {
                hash: BlockHash::zero(),
                representative: self.key.public_key(),
                balance: Amount::zero(),
                height: 0,
            },
        }
    }

    fn set_new_frontier(&mut self, new_frontier: Frontier)
        requires
            old(self).lattice.wf(),
        ensures
            final(self).lattice.wf(),
            final(self).lattice.frontiers() == old(self).lattice.frontiers().insert(
                old(self).account,
                new_frontier,
            ),
            final(self).lattice.pending() == old(self).lattice.pending(),
            final(self).key == old(self).key,
            final(self).account == old(self).account,
            *final(final(self).lattice) == *final(old(self).lattice),
    {
        self.lattice.insert_frontier(self.account, new_frontier);
    }

    /// Sends the whole balance to `destination`.
    pub fn send_max(&mut self, destination: Account) -> (r: SavedBlock)
        requires
            old(self).lattice.wf(),
            old(self).lattice.frontiers().contains_key(old(self).account),
            chain_frontier(*old(self)).height < u64::MAX,
        ensures
            r.block.balance.raw == 0,
            send_effect(*old(self), *final(self), r, destination, chain_frontier(*old(self)).balance),
            *final(final(self).lattice) == *final(old(self).lattice),
    {
        self.send_all_except(destination, Amount::zero())
    }

    /// Sends everything but `keep` to `destination`.
    pub fn send_all_except(&mut self, destination: Account, keep: Amount) -> (r: SavedBlock)
        requires
            old(self).lattice.wf(),
            old(self).lattice.frontiers().contains_key(old(self).account),
            keep.raw <= chain_frontier(*old(self)).balance.raw,
            chain_frontier(*old(self)).height < u64::MAX,
        ensures
            r.block.balance == keep,
            send_effect(
                *old(self),
                *final(self),
                r,
                destination,
                Amount { raw: (chain_frontier(*old(self)).balance.raw - keep.raw) as u128 },
            ),
            *final(final(self).lattice) == *final(old(self).lattice),
    {
        let frontier = self.get_frontier();
        self.send(destination, Amount::raw(frontier.balance.raw - keep.raw))
    }

    /// Sends `amount` to `destination` with a state block.
    pub fn send(&mut self, destination: Account, amount: Amount) -> (r: SavedBlock)
        requires
            old(self).lattice.wf(),
            old(self).lattice.frontiers().contains_key(old(self).account),
            amount.raw <= chain_frontier(*old(self)).balance.raw,
            chain_frontier(*old(self)).height < u64::MAX,
        ensures
            send_effect(*old(self), *final(self), r, destination, amount),
            *final(final(self).lattice) == *final(old(self).lattice),
    {
        let old_frontier = self.get_frontier();
        let new_balance = Amount::raw(old_frontier.balance.raw - amount.raw);
        let send = Block::new_state(
            &self.key,
            old_frontier.hash,
            old_frontier.representative,
            new_balance,
            destination.as_hash(),
            0,
        ).with_generated_work();
        assert(self.lattice.frontiers()[self.account] == old_frontier);
        let send_account = self.account;
        let hash = send.hash();
        let new_frontier = Frontier {
            hash,
            representative: old_frontier.representative,
            balance: new_balance,
            height: old_frontier.height + 1,
        };
        let r = self.append(old_frontier, send, new_frontier);
        self.lattice.insert_pending(
            PendingKey { receiving_account: destination, send_block_hash: hash },
            PendingInfo { source: send_account, amount, epoch: Epoch::Epoch0 },
        );
        r
    }
}

/// What a state send of `amount` to `destination` does to a chain: the new block keeps the
/// representative, lowers the balance by `amount` and links to the destination; the send
/// becomes receivable by the destination.
pub open spec fn send_effect(
    before: SavedAccountChainBuilder,
    after: SavedAccountChainBuilder,
    r: SavedBlock,
    destination: Account,
    amount: Amount,
) -> bool {
    let f = chain_frontier(before);
    let balance = Amount { raw: (f.balance.raw - amount.raw) as u128 };
    &&& r.block == Block {
        block_type: BlockType::State,
        account: public_key_of(before.key),
        previous: f.hash,
        representative: f.representative,
        balance,
        link: BlockHash { hi: destination.hi, lo: destination.lo },
        work: r.block.work,
        signature: r.block.signature,
    }
    &&& signed_with_work(r.block, before.key)
    &&& appended(
        before,
        after,
        r,
        f,
        Frontier {
            hash: block_hash(r.block),
            representative: f.representative,
            balance,
            height: (f.height + 1) as u64,
        },
    )
    &&& after.lattice.pending() == before.lattice.pending().insert(
        PendingKey { receiving_account: destination, send_block_hash: block_hash(r.block) },
        PendingInfo { source: before.account, amount, epoch: Epoch::Epoch0 },
    )
}

/// The receivable send that `corresponding_send` made to the chain's account.
pub open spec fn pending_of(c: SavedAccountChainBuilder, corresponding_send: Block) -> PendingKey {
    PendingKey { receiving_account: c.account, send_block_hash: block_hash(corresponding_send) }
}

/// The preconditions shared by receiving a send: it is addressed to the chain's account and
/// still receivable.
pub open spec fn can_receive(c: SavedAccountChainBuilder, corresponding_send: Block) -> bool {
    &&& c.lattice.wf()
    &&& corresponding_send.block_type == BlockType::LegacySend || corresponding_send.block_type
        == BlockType::State
    &&& corresponding_send.link.hi == c.account.hi
    &&& corresponding_send.link.lo == c.account.lo
    &&& c.lattice.pending().contains_key(pending_of(c, corresponding_send))
}

impl<'a> SavedAccountChainBuilder<'a> {
    /// Sends `amount` to `destination` with a legacy send block. The frontier keeps its height.
    pub fn legacy_send(&mut self, destination: Account, amount: Amount) -> (r: SavedBlock)
        requires
            old(self).lattice.wf(),
            old(self).lattice.frontiers().contains_key(old(self).account),
            amount.raw <= chain_frontier(*old(self)).balance.raw,
        ensures
            ({
                let f = chain_frontier(*old(self));
                let balance = Amount { raw: (f.balance.raw - amount.raw) as u128 };
                &&& r.block == Block {
                    block_type: BlockType::LegacySend,
                    account: Account { hi: 0, lo: 0 },
                    previous: f.hash,
                    representative: Account { hi: 0, lo: 0 },
                    balance,
                    link: BlockHash { hi: destination.hi, lo: destination.lo },
                    work: r.block.work,
                    signature: r.block.signature,
                }
                &&& signed_with_work(r.block, old(self).key)
                &&& appended(
                    *old(self),
                    *final(self),
                    r,
                    f,
                    Frontier { hash: block_hash(r.block), balance, ..f },
                )
                &&& final(self).lattice.pending() == old(self).lattice.pending().insert(
                    PendingKey {
                        receiving_account: destination,
                        send_block_hash: block_hash(r.block),
                    },
                    PendingInfo { source: old(self).account, amount, epoch: Epoch::Epoch0 },
                )
            }),
            *final(final(self).lattice) == *final(old(self).lattice),
    {
        let old_frontier = self.get_frontier();
        let new_balance = Amount::raw(old_frontier.balance.raw - amount.raw);
        let send = Block::new_legacy_send(&self.key, old_frontier.hash, destination, new_balance, 0)
            .with_generated_work();
        let hash = send.hash();
        let send_account = self.account;
        let new_frontier = Frontier {
            hash,
            representative: old_frontier.representative,
            balance: new_balance,
            height: old_frontier.height,
        };
        let r = self.append(old_frontier, send, new_frontier);
        self.lattice.insert_pending(
            PendingKey { receiving_account: destination, send_block_hash: hash },
            PendingInfo { source: send_account, amount, epoch: Epoch::Epoch0 },
        );
        r
    }

    /// Opens the account with a legacy open block that names its own key as representative.
    pub fn legacy_open(&mut self, corresponding_send: &Block) -> (r: SavedBlock)
        requires
            !old(self).lattice.frontiers().contains_key(old(self).account),
            can_receive(*old(self), *corresponding_send),
        ensures
            legacy_open_effect(*old(self), *final(self), r, *corresponding_send, public_key_of(old(self).key)),
            *final(final(self).lattice) == *final(old(self).lattice),
    {
        let representative = self.key.public_key();
        self.legacy_open_with_rep(corresponding_send, representative)
    }

    /// Opens the account with a legacy open block that receives `corresponding_send` and names
    /// `new_representative` in the block; the frontier records the account's own key as
    /// representative.
    pub fn legacy_open_with_rep(&mut self, corresponding_send: &Block, new_representative: PublicKey) -> (r:
        SavedBlock)
        requires
            !old(self).lattice.frontiers().contains_key(old(self).account),
            can_receive(*old(self), *corresponding_send),
        ensures
            legacy_open_effect(*old(self), *final(self), r, *corresponding_send, new_representative),
            *final(final(self).lattice) == *final(old(self).lattice),
    {
        let send_hash = corresponding_send.hash();
        let amount = self.lattice.pop_pending_receive(self.account, send_hash).amount;
        let receive = Block::new_legacy_open(&self.key, send_hash, new_representative, 0)
            .with_generated_work();
        let new_frontier = Frontier {
            hash: receive.hash(),
            representative: self.key.public_key(),
            balance: amount,
            height: 1,
        };
        self.append(Frontier::empty(), receive, new_frontier)
    }

    /// Receives `corresponding_send` with a legacy receive block, keeping the representative.
    pub fn legacy_receive(&mut self, corresponding_send: &Block) -> (r: SavedBlock)
        requires
            old(self).lattice.frontiers().contains_key(old(self).account),
            can_receive(*old(self), *corresponding_send),
            chain_frontier(*old(self)).height < u64::MAX,
            chain_frontier(*old(self)).balance.raw + old(self).lattice.pending()[pending_of(
                *old(self),
                *corresponding_send,
            )].amount.raw <= u128::MAX,
        ensures
            legacy_receive_effect(
                *old(self),
                *final(self),
                r,
                *corresponding_send,
                chain_frontier(*old(self)).representative,
            ),
            *final(final(self).lattice) == *final(old(self).lattice),
    {
        let frontier = self.get_frontier();
        self.legacy_receive_with_rep(corresponding_send, frontier.representative)
    }

    /// Receives `corresponding_send` with a legacy receive block; the frontier records
    /// `new_representative`.
    pub fn legacy_receive_with_rep(&mut self, corresponding_send: &Block, new_representative: PublicKey) -> (r:
        SavedBlock)
        requires
            old(self).lattice.frontiers().contains_key(old(self).account),
            can_receive(*old(self), *corresponding_send),
            chain_frontier(*old(self)).height < u64::MAX,
            chain_frontier(*old(self)).balance.raw + old(self).lattice.pending()[pending_of(
                *old(self),
                *corresponding_send,
            )].amount.raw <= u128::MAX,
        ensures
            legacy_receive_effect(*old(self), *final(self), r, *corresponding_send, new_representative),
            *final(final(self).lattice) == *final(old(self).lattice),
    {
        let send_hash = corresponding_send.hash();
        let amount = self.lattice.pop_pending_receive(self.account, send_hash).amount;
        let old_frontier = self.get_frontier();
        let new_balance = Amount::raw(old_frontier.balance.raw + amount.raw);
        let receive = Block::new_legacy_receive(&self.key, old_frontier.hash, send_hash, 0)
            .with_generated_work();
        let new_frontier = Frontier {
            hash: receive.hash(),
            representative: new_representative,
            balance: new_balance,
            height: old_frontier.height + 1,
        };
        self.append(old_frontier, receive, new_frontier)
    }

    /// Receives `corresponding_send` with a state block (opening the account if needed),
    /// keeping the representative.
    pub fn receive(&mut self, corresponding_send: &Block) -> (r: SavedBlock)
        requires
            can_receive(*old(self), *corresponding_send),
            chain_frontier_or_empty(*old(self)).height < u64::MAX,
            chain_frontier_or_empty(*old(self)).balance.raw + old(self).lattice.pending()[pending_of(
                *old(self),
                *corresponding_send,
            )].amount.raw <= u128::MAX,
        ensures
            receive_effect(
                *old(self),
                *final(self),
                r,
                *corresponding_send,
                chain_frontier_or_empty(*old(self)).representative,
            ),
            *final(final(self).lattice) == *final(old(self).lattice),
    {
        let frontier = self.get_frontier_or_empty();
        self.receive_and_change(corresponding_send, frontier.representative)
    }

    /// Receives `corresponding_send` with a state block that names `new_representative`;
    /// the frontier keeps the representative it had.
    pub fn receive_and_change(&mut self, corresponding_send: &Block, new_representative: PublicKey) -> (r:
        SavedBlock)
        requires
            can_receive(*old(self), *corresponding_send),
            chain_frontier_or_empty(*old(self)).height < u64::MAX,
            chain_frontier_or_empty(*old(self)).balance.raw + old(self).lattice.pending()[pending_of(
                *old(self),
                *corresponding_send,
            )].amount.raw <= u128::MAX,
        ensures
            receive_effect(*old(self), *final(self), r, *corresponding_send, new_representative),
            *final(final(self).lattice) == *final(old(self).lattice),
    {
        let send_hash = corresponding_send.hash();
        let old_frontier = self.get_frontier_or_empty();
        let amount = self.lattice.pop_pending_receive(self.account, send_hash).amount;
        let new_balance = Amount::raw(old_frontier.balance.raw + amount.raw);
        let receive = Block::new_state(
            &self.key,
            old_frontier.hash,
            new_representative,
            new_balance,
            send_hash,
            0,
        ).with_generated_work();
        let new_frontier = Frontier {
            hash: receive.hash(),
            representative: old_frontier.representative,
            balance: new_balance,
            height: old_frontier.height + 1,
        };
        self.append(old_frontier, receive, new_frontier)
    }

    /// Changes the representative with a legacy change block.
    pub fn legacy_change(&mut self, new_representative: PublicKey) -> (r: SavedBlock)
        requires
            old(self).lattice.wf(),
            old(self).lattice.frontiers().contains_key(old(self).account),
            chain_frontier(*old(self)).height < u64::MAX,
        ensures
            ({
                let f = chain_frontier(*old(self));
                &&& r.block == Block {
                    block_type: BlockType::LegacyChange,
                    account: Account { hi: 0, lo: 0 },
                    previous: f.hash,
                    representative: new_representative,
                    balance: Amount { raw: 0 },
                    link: BlockHash { hi: 0, lo: 0 },
                    work: r.block.work,
                    signature: r.block.signature,
                }
                &&& signed_with_work(r.block, old(self).key)
                &&& appended(
                    *old(self),
                    *final(self),
                    r,
                    f,
                    Frontier {
                        hash: block_hash(r.block),
                        representative: new_representative,
                        height: (f.height + 1) as u64,
                        ..f
                    },
                )
                &&& final(self).lattice.pending() == old(self).lattice.pending()
            }),
            *final(final(self).lattice) == *final(old(self).lattice),
    {
        let old_frontier = self.get_frontier();
        let change = Block::new_legacy_change(&self.key, old_frontier.hash, new_representative, 0)
            .with_generated_work();
        let new_frontier = Frontier {
            hash: change.hash(),
            representative: new_representative,
            balance: old_frontier.balance,
            height: old_frontier.height + 1,
        };
        self.append(old_frontier, change, new_frontier)
    }

    /// Changes the representative with a state block.
    pub fn change(&mut self, new_representative: PublicKey) -> (r: SavedBlock)
        requires
            old(self).lattice.wf(),
            old(self).lattice.frontiers().contains_key(old(self).account),
            chain_frontier(*old(self)).height < u64::MAX,
        ensures
            ({
                let f = chain_frontier(*old(self));
                &&& r.block == Block {
                    block_type: BlockType::State,
                    account: public_key_of(old(self).key),
                    previous: f.hash,
                    representative: new_representative,
                    balance: f.balance,
                    link: BlockHash { hi: 0, lo: 0 },
                    work: r.block.work,
                    signature: r.block.signature,
                }
                &&& signed_with_work(r.block, old(self).key)
                &&& appended(
                    *old(self),
                    *final(self),
                    r,
                    f,
                    Frontier {
                        hash: block_hash(r.block),
                        representative: new_representative,
                        height: (f.height + 1) as u64,
                        ..f
                    },
                )
                &&& final(self).lattice.pending() == old(self).lattice.pending()
            }),
            *final(final(self).lattice) == *final(old(self).lattice),
    {
        let old_frontier = self.get_frontier();
        let change = Block::new_state(
            &self.key,
            old_frontier.hash,
            new_representative,
            old_frontier.balance,
            BlockHash::zero(),
            0,
        ).with_generated_work();
        let new_frontier = Frontier {
            hash: change.hash(),
            representative: new_representative,
            balance: old_frontier.balance,
            height: old_frontier.height + 1,
        };
        self.append(old_frontier, change, new_frontier)
    }

    /// Upgrades the account to epoch 1 with an epoch block.
    pub fn epoch1(&mut self) -> (r: SavedBlock)
        requires
            old(self).lattice.wf(),
            old(self).lattice.frontiers().contains_key(old(self).account),
            chain_frontier(*old(self)).height < u64::MAX,
        ensures
            ({
                let f = chain_frontier(*old(self));
                &&& r.block == Block {
                    block_type: BlockType::State,
                    account: old(self).account,
                    previous: f.hash,
                    representative: f.representative,
                    balance: f.balance,
                    link: epoch_v1_link_spec(),
                    work: r.block.work,
                    signature: r.block.signature,
                }
                &&& epoch_signed_with_work(r.block)
                &&& appended(
                    *old(self),
                    *final(self),
                    r,
                    f,
                    Frontier { hash: block_hash(r.block), height: (f.height + 1) as u64, ..f },
                )
                &&& final(self).lattice.pending() == old(self).lattice.pending()
            }),
            *final(final(self).lattice) == *final(old(self).lattice),
    {
        let old_frontier = self.get_frontier();
        let signer = dev_genesis_key();
        let epoch = Block::new_epoch(
            &signer,
            self.account,
            old_frontier.hash,
            old_frontier.representative,
            old_frontier.balance,
            epoch_v1_link(),
            0,
        ).with_generated_work();
        let new_frontier = Frontier {
            hash: epoch.hash(),
            representative: old_frontier.representative,
            balance: old_frontier.balance,
            height: old_frontier.height + 1,
        };
        self.append(old_frontier, epoch, new_frontier)
    }
}

/// What a legacy open does: the open block receives the send, the account's frontier starts
/// at height one with the received amount and the account's own key as representative.
pub open spec fn legacy_open_effect(
    before: SavedAccountChainBuilder,
    after: SavedAccountChainBuilder,
    r: SavedBlock,
    corresponding_send: Block,
    representative: PublicKey,
) -> bool {
    let key = pending_of(before, corresponding_send);
    let amount = before.lattice.pending()[key].amount;
    &&& r.block == Block {
        block_type: BlockType::LegacyOpen,
        account: public_key_of(before.key),
        previous: BlockHash { hi: 0, lo: 0 },
        representative,
        balance: Amount { raw: 0 },
        link: block_hash(corresponding_send),
        work: r.block.work,
        signature: r.block.signature,
    }
    &&& signed_with_work(r.block, before.key)
    &&& appended(
        before,
        after,
        r,
        empty_frontier(),
        Frontier {
            hash: block_hash(r.block),
            representative: public_key_of(before.key),
            balance: amount,
            height: 1,
        },
    )
    &&& after.lattice.pending() == before.lattice.pending().remove(key)
}

/// What a legacy receive does: the block receives the send, the balance grows by its amount,
/// the height by one and the frontier records `representative`.
pub open spec fn legacy_receive_effect(
    before: SavedAccountChainBuilder,
    after: SavedAccountChainBuilder,
    r: SavedBlock,
    corresponding_send: Block,
    representative: PublicKey,
) -> bool {
    let key = pending_of(before, corresponding_send);
    let amount = before.lattice.pending()[key].amount;
    let f = chain_frontier(before);
    &&& r.block == Block {
        block_type: BlockType::LegacyReceive,
        account: Account { hi: 0, lo: 0 },
        previous: f.hash,
        representative: Account { hi: 0, lo: 0 },
        balance: Amount { raw: 0 },
        link: block_hash(corresponding_send),
        work: r.block.work,
        signature: r.block.signature,
    }
    &&& signed_with_work(r.block, before.key)
    &&& appended(
        before,
        after,
        r,
        f,
        Frontier {
            hash: block_hash(r.block),
            representative,
            balance: Amount { raw: (f.balance.raw + amount.raw) as u128 },
            height: (f.height + 1) as u64,
        },
    )
    &&& after.lattice.pending() == before.lattice.pending().remove(key)
}

/// What a state receive does: the block names `representative` and links to the send, the
/// balance grows by the send's amount, the height by one, and the frontier keeps the
/// representative it had.
pub open spec fn receive_effect(
    before: SavedAccountChainBuilder,
    after: SavedAccountChainBuilder,
    r: SavedBlock,
    corresponding_send: Block,
    representative: PublicKey,
) -> bool {
    let key = pending_of(before, corresponding_send);
    let amount = before.lattice.pending()[key].amount;
    let f = chain_frontier_or_empty(before);
    let balance = Amount { raw: (f.balance.raw + amount.raw) as u128 };
    &&& r.block == Block {
        block_type: BlockType::State,
        account: public_key_of(before.key),
        previous: f.hash,
        representative,
        balance,
        link: block_hash(corresponding_send),
        work: r.block.work,
        signature: r.block.signature,
    }
    &&& signed_with_work(r.block, before.key)
    &&& appended(
        before,
        after,
        r,
        f,
        Frontier {
            hash: block_hash(r.block),
            representative: f.representative,
            balance,
            height: (f.height + 1) as u64,
        },
    )
    &&& after.lattice.pending() == before.lattice.pending().remove(key)
}

/// The receivable sends of the lattice that a chain builder extends.
pub open spec fn chain_pending(c: SavedAccountChainBuilder) -> Map<PendingKey, PendingInfo> {
    c.lattice.pending()
}

/// A send followed by its receive at the destination: the receivable entry that the send
/// created is consumed again, so the receivable sends are what they were before the send (the
/// send's hash was not receivable yet), and the receiving account's balance grows by exactly
/// the amount sent.
pub proof fn lemma_send_then_receive(
    sender_before: SavedAccountChainBuilder,
    sender_after: SavedAccountChainBuilder,
    send: SavedBlock,
    destination: Account,
    amount: Amount,
    receiver_before: SavedAccountChainBuilder,
    receiver_after: SavedAccountChainBuilder,
    receive: SavedBlock,
    representative: PublicKey,
)
    requires
        send_effect(sender_before, sender_after, send, destination, amount),
        !sender_before.lattice.pending().contains_key(
            PendingKey { receiving_account: destination, send_block_hash: block_hash(send.block) },
        ),
        receiver_before.lattice == sender_after.lattice,
        receiver_before.account == destination,
        chain_frontier_or_empty(receiver_before).balance.raw + amount.raw <= u128::MAX,
        receive_effect(receiver_before, receiver_after, receive, send.block, representative),
    ensures
        chain_pending(receiver_after) == chain_pending(sender_before),
        receive.block.balance.raw == chain_frontier_or_empty(receiver_before).balance.raw
            + amount.raw,
        chain_frontier(receiver_after).balance == receive.block.balance,
        chain_frontier(receiver_after).hash == block_hash(receive.block),
{
    let key = PendingKey { receiving_account: destination, send_block_hash: block_hash(send.block) };
    assert(pending_of(receiver_before, send.block) == key);
    assert(receiver_before.lattice.pending()[key].amount == amount);
    assert(receiver_after.lattice.pending() =~= sender_before.lattice.pending());
}


} // verus!
