//! Lattice builders that hand out blocks without their sideband.
use crate::blocks::{public_key_of, signed_with_work, Block, SavedBlock};
use crate::lattice::{
    chain_frontier, chain_frontier_or_empty, can_receive, empty_frontier, epoch_v1_link_spec,
    legacy_open_effect, legacy_receive_effect, pending_of, receive_effect, send_effect,
    SavedAccountChainBuilder, SavedBlockLatticeBuilder,
};
use crate::primitives::{Account, Amount, PublicKey};
use crate::blocks::PrivateKey;
use vstd::prelude::*;

verus! {

/// A lattice builder whose blocks come without sideband.
#[derive(Clone)]
pub struct UnsavedBlockLatticeBuilder {
    pub inner: SavedBlockLatticeBuilder,
}

impl UnsavedBlockLatticeBuilder {
    pub fn new() -> (r: Self)
        ensures
            r.inner.wf(),
            r.inner.frontiers() == map![crate::lattice::dev_genesis_account() => crate::lattice::Frontier {
                hash: crate::blocks::block_hash(crate::lattice::dev_genesis_block(crate::lattice::dev_genesis_account())),
                representative: crate::lattice::dev_genesis_account(),
                balance: Amount { raw: u128::MAX },
                height: 1,
            }],
            r.inner.pending() == Map::<crate::lattice::PendingKey, crate::lattice::PendingInfo>::empty(),
            r.inner.now_spec().secs == 42,
    {
        UnsavedBlockLatticeBuilder { inner: SavedBlockLatticeBuilder::new() }
    }

    /// The chain builder of the genesis account.
    pub fn genesis(&mut self) -> (r: UnsavedAccountChainBuilder<'_>)
        ensures
            *r.inner.lattice == old(self).inner,
            r.inner.key.bytes@ == crate::lattice::dev_genesis_key_bytes(),
            r.inner.account == public_key_of(r.inner.key),
            final(self).inner == *final(r.inner.lattice),
    {
        UnsavedAccountChainBuilder { inner: self.inner.genesis() }
    }

    /// The chain builder of the account of `key`.
    pub fn account<'a>(&'a mut self, key: &PrivateKey) -> (r: UnsavedAccountChainBuilder<'a>)
        ensures
            *r.inner.lattice == old(self).inner,
            r.inner.key == *key,
            r.inner.account == public_key_of(*key),
            final(self).inner == *final(r.inner.lattice),
    {
        UnsavedAccountChainBuilder { inner: self.inner.account(key) }
    }

    /// Opens `account` with an epoch block; see the saved builder.
    pub fn epoch_open(&mut self, account: Account) -> (r: Block)
        requires
            old(self).inner.wf(),
            !old(self).inner.frontiers().contains_key(account),
            exists|k: crate::lattice::PendingKey| #[trigger]
                old(self).inner.pending().contains_key(k) && k.receiving_account == account,
        ensures
            final(self).inner.wf(),
            r == (Block {
                block_type: crate::blocks::BlockType::State,
                account,
                previous: crate::primitives::BlockHash { hi: 0, lo: 0 },
                representative: Account { hi: 0, lo: 0 },
                balance: Amount { raw: 0 },
                link: epoch_v1_link_spec(),
                work: r.work,
                signature: r.signature,
            }),
            crate::lattice::epoch_signed_with_work(r),
            final(self).inner.pending() == old(self).inner.pending(),
    {
        self.inner.epoch_open(account).block
    }
}

/// A chain builder whose blocks come without sideband.
pub struct UnsavedAccountChainBuilder<'a> {
    pub inner: SavedAccountChainBuilder<'a>,
}

impl<'a> UnsavedAccountChainBuilder<'a> {
    pub fn send_max(&mut self, destination: Account) -> (r: Block)
        requires
            old(self).inner.lattice.wf(),
            old(self).inner.lattice.frontiers().contains_key(old(self).inner.account),
            chain_frontier(old(self).inner).height < u64::MAX,
        ensures
            exists|s: SavedBlock|
                s.block == r && send_effect(
                    old(self).inner,
                    final(self).inner,
                    s,
                    destination,
                    chain_frontier(old(self).inner).balance,
                ),
            *final(final(self).inner.lattice) == *final(old(self).inner.lattice),
    {
        let s = self.inner.send_max(destination);
        assert(send_effect(
                    old(self).inner,
                    self.inner,
                    s,
                    destination,
                    chain_frontier(old(self).inner).balance,
                ));
        s.block
    }

    pub fn send_all_except(&mut self, destination: Account, keep: Amount) -> (r: Block)
        requires
            old(self).inner.lattice.wf(),
            old(self).inner.lattice.frontiers().contains_key(old(self).inner.account),
            keep.raw <= chain_frontier(old(self).inner).balance.raw,
            chain_frontier(old(self).inner).height < u64::MAX,
        ensures
            exists|s: SavedBlock|
                s.block == r && send_effect(
                    old(self).inner,
                    final(self).inner,
                    s,
                    destination,
                    Amount { raw: (chain_frontier(old(self).inner).balance.raw - keep.raw) as u128 },
                ),
            *final(final(self).inner.lattice) == *final(old(self).inner.lattice),
    {
        let s = self.inner.send_all_except(destination, keep);
        assert(send_effect(
                    old(self).inner,
                    self.inner,
                    s,
                    destination,
                    Amount { raw: (chain_frontier(old(self).inner).balance.raw - keep.raw) as u128 },
                ));
        s.block
    }

    pub fn send(&mut self, destination: Account, amount: Amount) -> (r: Block)
        requires
            old(self).inner.lattice.wf(),
            old(self).inner.lattice.frontiers().contains_key(old(self).inner.account),
            amount.raw <= chain_frontier(old(self).inner).balance.raw,
            chain_frontier(old(self).inner).height < u64::MAX,
        ensures
            exists|s: SavedBlock|
                s.block == r && send_effect(old(self).inner, final(self).inner, s, destination, amount),
            *final(final(self).inner.lattice) == *final(old(self).inner.lattice),
    {
        let s = self.inner.send(destination, amount);
        assert(send_effect(old(self).inner, self.inner, s, destination, amount));
        s.block
    }

    pub fn legacy_send(&mut self, destination: Account, amount: Amount) -> (r: Block)
        requires
            old(self).inner.lattice.wf(),
            old(self).inner.lattice.frontiers().contains_key(old(self).inner.account),
            amount.raw <= chain_frontier(old(self).inner).balance.raw,
        ensures
            r == (Block {
                block_type: crate::blocks::BlockType::LegacySend,
                account: Account { hi: 0, lo: 0 },
                previous: chain_frontier(old(self).inner).hash,
                representative: Account { hi: 0, lo: 0 },
                balance: Amount {
                    raw: (chain_frontier(old(self).inner).balance.raw - amount.raw) as u128,
                },
                link: crate::primitives::BlockHash { hi: destination.hi, lo: destination.lo },
                work: r.work,
                signature: r.signature,
            }),
            signed_with_work(r, old(self).inner.key),
            final(self).inner.lattice.wf(),
            *final(final(self).inner.lattice) == *final(old(self).inner.lattice),
    {
        let s = self.inner.legacy_send(destination, amount);
        s.block
    }

    pub fn legacy_open(&mut self, corresponding_send: &Block) -> (r: Block)
        requires
            !old(self).inner.lattice.frontiers().contains_key(old(self).inner.account),
            can_receive(old(self).inner, *corresponding_send),
        ensures
            exists|s: SavedBlock|
                s.block == r && legacy_open_effect(
                    old(self).inner,
                    final(self).inner,
                    s,
                    *corresponding_send,
                    public_key_of(old(self).inner.key),
                ),
            *final(final(self).inner.lattice) == *final(old(self).inner.lattice),
    {
        let s = self.inner.legacy_open(corresponding_send);
        assert(legacy_open_effect(
                    old(self).inner,
                    self.inner,
                    s,
                    *corresponding_send,
                    public_key_of(old(self).inner.key),
                ));
        s.block
    }

    pub fn legacy_open_with_rep(&mut self, corresponding_send: &Block, new_representative: PublicKey) -> (r:
        Block)
        requires
            !old(self).inner.lattice.frontiers().contains_key(old(self).inner.account),
            can_receive(old(self).inner, *corresponding_send),
        ensures
            exists|s: SavedBlock|
                s.block == r && legacy_open_effect(
                    old(self).inner,
                    final(self).inner,
                    s,
                    *corresponding_send,
                    new_representative,
                ),
            *final(final(self).inner.lattice) == *final(old(self).inner.lattice),
    {
        let s = self.inner.legacy_open_with_rep(corresponding_send, new_representative);
        assert(legacy_open_effect(
                    old(self).inner,
                    self.inner,
                    s,
                    *corresponding_send,
                    new_representative,
                ));
        s.block
    }

    pub fn legacy_receive(&mut self, corresponding_send: &Block) -> (r: Block)
        requires
            old(self).inner.lattice.frontiers().contains_key(old(self).inner.account),
            can_receive(old(self).inner, *corresponding_send),
            chain_frontier(old(self).inner).height < u64::MAX,
            chain_frontier(old(self).inner).balance.raw + old(self).inner.lattice.pending()[pending_of(
                old(self).inner,
                *corresponding_send,
            )].amount.raw <= u128::MAX,
        ensures
            exists|s: SavedBlock|
                s.block == r && legacy_receive_effect(
                    old(self).inner,
                    final(self).inner,
                    s,
                    *corresponding_send,
                    chain_frontier(old(self).inner).representative,
                ),
            *final(final(self).inner.lattice) == *final(old(self).inner.lattice),
    {
        let s = self.inner.legacy_receive(corresponding_send);
        assert(legacy_receive_effect(
                    old(self).inner,
                    self.inner,
                    s,
                    *corresponding_send,
                    chain_frontier(old(self).inner).representative,
                ));
        s.block
    }

    /// Opens the account with a legacy open block naming `new_representative` (this builder
    /// forwards to the saved builder's legacy open).
    pub fn legacy_receive_with_rep(&mut self, corresponding_send: &Block, new_representative: PublicKey) -> (r:
        Block)
        requires
            !old(self).inner.lattice.frontiers().contains_key(old(self).inner.account),
            can_receive(old(self).inner, *corresponding_send),
        ensures
            exists|s: SavedBlock|
                s.block == r && legacy_open_effect(
                    old(self).inner,
                    final(self).inner,
                    s,
                    *corresponding_send,
                    new_representative,
                ),
            *final(final(self).inner.lattice) == *final(old(self).inner.lattice),
    {
        let s = self.inner.legacy_open_with_rep(corresponding_send, new_representative);
        assert(legacy_open_effect(
                    old(self).inner,
                    self.inner,
                    s,
                    *corresponding_send,
                    new_representative,
                ));
        s.block
    }

    pub fn receive(&mut self, corresponding_send: &Block) -> (r: Block)
        requires
            can_receive(old(self).inner, *corresponding_send),
            chain_frontier_or_empty(old(self).inner).height < u64::MAX,
            chain_frontier_or_empty(old(self).inner).balance.raw + old(self).inner.lattice.pending()[pending_of(
                old(self).inner,
                *corresponding_send,
            )].amount.raw <= u128::MAX,
        ensures
            exists|s: SavedBlock|
                s.block == r && receive_effect(
                    old(self).inner,
                    final(self).inner,
                    s,
                    *corresponding_send,
                    chain_frontier_or_empty(old(self).inner).representative,
                ),
            *final(final(self).inner.lattice) == *final(old(self).inner.lattice),
    {
        let s = self.inner.receive(corresponding_send);
        assert(receive_effect(
                    old(self).inner,
                    self.inner,
                    s,
                    *corresponding_send,
                    chain_frontier_or_empty(old(self).inner).representative,
                ));
        s.block
    }

    pub fn receive_and_change(&mut self, corresponding_send: &Block, new_representative: PublicKey) -> (r:
        Block)
        requires
            can_receive(old(self).inner, *corresponding_send),
            chain_frontier_or_empty(old(self).inner).height < u64::MAX,
            chain_frontier_or_empty(old(self).inner).balance.raw + old(self).inner.lattice.pending()[pending_of(
                old(self).inner,
                *corresponding_send,
            )].amount.raw <= u128::MAX,
        ensures
            exists|s: SavedBlock|
                s.block == r && receive_effect(
                    old(self).inner,
                    final(self).inner,
                    s,
                    *corresponding_send,
                    new_representative,
                ),
            *final(final(self).inner.lattice) == *final(old(self).inner.lattice),
    {
        let s = self.inner.receive_and_change(corresponding_send, new_representative);
        assert(receive_effect(
                    old(self).inner,
                    self.inner,
                    s,
                    *corresponding_send,
                    new_representative,
                ));
        s.block
    }

    pub fn legacy_change(&mut self, new_representative: PublicKey) -> (r: Block)
        requires
            old(self).inner.lattice.wf(),
            old(self).inner.lattice.frontiers().contains_key(old(self).inner.account),
            chain_frontier(old(self).inner).height < u64::MAX,
        ensures
            r == (Block {
                block_type: crate::blocks::BlockType::LegacyChange,
                account: Account { hi: 0, lo: 0 },
                previous: chain_frontier(old(self).inner).hash,
                representative: new_representative,
                balance: Amount { raw: 0 },
                link: crate::primitives::BlockHash { hi: 0, lo: 0 },
                work: r.work,
                signature: r.signature,
            }),
            signed_with_work(r, old(self).inner.key),
            final(self).inner.lattice.wf(),
            *final(final(self).inner.lattice) == *final(old(self).inner.lattice),
    {
        let s = self.inner.legacy_change(new_representative);
        s.block
    }

    pub fn change(&mut self, new_representative: PublicKey) -> (r: Block)
        requires
            old(self).inner.lattice.wf(),
            old(self).inner.lattice.frontiers().contains_key(old(self).inner.account),
            chain_frontier(old(self).inner).height < u64::MAX,
        ensures
            r == (Block {
                block_type: crate::blocks::BlockType::State,
                account: public_key_of(old(self).inner.key),
                previous: chain_frontier(old(self).inner).hash,
                representative: new_representative,
                balance: chain_frontier(old(self).inner).balance,
                link: crate::primitives::BlockHash { hi: 0, lo: 0 },
                work: r.work,
                signature: r.signature,
            }),
            signed_with_work(r, old(self).inner.key),
            final(self).inner.lattice.wf(),
            *final(final(self).inner.lattice) == *final(old(self).inner.lattice),
    {
        let s = self.inner.change(new_representative);
        s.block
    }

    pub fn epoch1(&mut self) -> (r: Block)
        requires
            old(self).inner.lattice.wf(),
            old(self).inner.lattice.frontiers().contains_key(old(self).inner.account),
            chain_frontier(old(self).inner).height < u64::MAX,
        ensures
            r == (Block {
                block_type: crate::blocks::BlockType::State,
                account: old(self).inner.account,
                previous: chain_frontier(old(self).inner).hash,
                representative: chain_frontier(old(self).inner).representative,
                balance: chain_frontier(old(self).inner).balance,
                link: epoch_v1_link_spec(),
                work: r.work,
                signature: r.signature,
            }),
            crate::lattice::epoch_signed_with_work(r),
            final(self).inner.lattice.wf(),
            *final(final(self).inner.lattice) == *final(old(self).inner.lattice),
    {
        let s = self.inner.epoch1();
        s.block
    }
}


} // verus!
