//! The backlog scan walks all accounts of the ledger in batches and activates those with
//! unconfirmed blocks.
use crate::blocks::Epoch;
use crate::config::BacklogScanConfig;
use crate::primitives::{Account, Amount, BlockHash, Duration, UnixTimestamp};
use crate::seqs::{lemma_retain_push, lemma_retain_suffix, retain};
use vstd::prelude::*;

verus! {

/// The ledger's summary of an account chain.
#[derive(PartialEq, Eq, Structural, Clone, Copy, Debug)]
pub struct AccountInfo {
    pub head: BlockHash,
    pub representative: Account,
    pub open_block: BlockHash,
    pub balance: Amount,
    pub modified: UnixTimestamp,
    pub block_count: u64,
    pub epoch: Epoch,
}

/// How far an account chain is confirmed.
#[derive(PartialEq, Eq, Structural, Clone, Copy, Debug)]
pub struct ConfirmationHeightInfo {
    pub height: u64,
    pub frontier: BlockHash,
}

/// An account the scan looked at.
#[derive(PartialEq, Eq, Structural, Clone, Copy, Debug)]
pub struct ActivatedInfo {
    pub account: Account,
    pub account_info: AccountInfo,
    pub conf_info: ConfirmationHeightInfo,
}

/// Whether an account has unconfirmed blocks.
pub open spec fn has_unconfirmed(info: ActivatedInfo) -> bool {
    info.conf_info.height < info.account_info.block_count
}

/// The number after `n`, or `n` itself when it is the largest account number.
pub open spec fn successor_or_max(n: nat) -> nat {
    if n + 1 < crate::primitives::two_pow_128() * crate::primitives::two_pow_128() {
        n + 1
    } else {
        n
    }
}

/// One batch of the scan.
pub struct ScanBatch {
    /// The accounts looked at, in ledger order.
    pub scanned: Vec<ActivatedInfo>,
    /// Those of them with unconfirmed blocks.
    pub activated: Vec<ActivatedInfo>,
    /// Where the next batch starts.
    pub next: Account,
}

/// How long the scan waits for the rate limiter before asking again: half the time that a
/// batch takes at the configured rate, and at least 10 ms.
pub fn rate_limit_wait(config: &BacklogScanConfig) -> (r: Duration)
    requires
        config.batch_size > 0,
    ensures
        ({
            let per_second: nat = if config.rate_limit / config.batch_size > 1 {
                (config.rate_limit / config.batch_size) as nat
            } else {
                1nat
            };
            let wait = 1000nat / per_second as nat / 2;
            r.millis == if wait > 10 {
                wait
            } else {
                10
            }
        }),
{
    let quotient = config.rate_limit / config.batch_size;
    let per_second = if quotient > 1 {
        quotient
    } else {
        1
    };
    let wait = 1000 / per_second as u64 / 2;
    Duration::from_millis(if wait > 10 {
        wait
    } else {
        10
    })
}

/// The next batch from the accounts that the ledger holds from the batch's start on (in
/// ascending order): the first `batch_size` of them are scanned, those with unconfirmed blocks
/// are activated, and the next batch starts after the last one scanned (at `next` if none
/// was).
pub fn scan_batch(accounts: &[ActivatedInfo], batch_size: usize, next: Account) -> (r: ScanBatch)
    ensures
        r.scanned@ == accounts@.take(
            if accounts@.len() < batch_size {
                accounts@.len() as int
            } else {
                batch_size as int
            },
        ),
        r.activated@ == retain(r.scanned@, |i: ActivatedInfo| has_unconfirmed(i)),
        r.scanned@.len() == 0 ==> r.next == next,
        r.scanned@.len() > 0 ==> r.next.number() == successor_or_max(r.scanned@.last().account.number()),
{
    let mut scanned: Vec<ActivatedInfo> = Vec::new();
    let mut activated: Vec<ActivatedInfo> = Vec::new();
    let mut next_account = next;
    let mut count: usize = 0;
    let ghost p = |i: ActivatedInfo| has_unconfirmed(i);
    while count < accounts.len() && count < batch_size
        invariant
            count <= accounts@.len(),
            count <= batch_size,
            scanned@ == accounts@.take(count as int),
            activated@ == retain(scanned@, p),
            p == (|i: ActivatedInfo| has_unconfirmed(i)),
            count == 0 ==> next_account == next,
            count > 0 ==> next_account.number() == successor_or_max(accounts@[count - 1].account.number()),
        decreases accounts@.len() - count,
    {
        let info = accounts[count];
        proof {
            lemma_retain_push(scanned@, info, p);
        }
        scanned.push(info);
        if info.conf_info.height < info.account_info.block_count {
            activated.push(info);
        }
        assert(accounts@.take(count + 1) =~= accounts@.take(count as int).push(info));
        next_account = match info.account.inc() {
            Some(a) => a,
            None => info.account,
        };
        count = count + 1;
    }
    ScanBatch { scanned, activated, next: next_account }
}

/// The ledger's accounts from account number `n` on: what a batch starting at `n` is fed.
pub open spec fn accounts_from(ledger: Seq<ActivatedInfo>, n: nat) -> Seq<ActivatedInfo> {
    retain(ledger, |i: ActivatedInfo| i.account.number() >= n)
}

/// Whether the ledger lists its accounts in strictly ascending order.
pub open spec fn ascending(ledger: Seq<ActivatedInfo>) -> bool {
    forall|i: int, j: int|
        0 <= i < j < ledger.len() ==> #[trigger] ledger[i].account.number() < #[trigger] ledger[j].account.number()
}

/// A pass over the ledger visits every account once and in order: the first batch, which
/// starts at account zero, is fed the whole ledger, and after the first `done` accounts were
/// scanned the next batch (which starts after the last of them, see `scan_batch`) is fed
/// exactly the accounts not scanned yet. (When the last account scanned is the largest account
/// number, the next batch starts at it again; that input is left out.)
pub proof fn lemma_scan_pass_resumes(ledger: Seq<ActivatedInfo>, done: int)
    requires
        ascending(ledger),
        0 < done <= ledger.len(),
        ledger[done - 1].account.number() + 1 < crate::primitives::two_pow_128()
            * crate::primitives::two_pow_128(),
    ensures
        accounts_from(ledger, 0) == ledger,
        accounts_from(ledger, successor_or_max(ledger[done - 1].account.number())) == ledger.skip(done),
{
    let p0 = |i: ActivatedInfo| i.account.number() >= 0;
    lemma_retain_suffix(ledger, p0, 0);
    assert(ledger.skip(0) =~= ledger);
    let n = successor_or_max(ledger[done - 1].account.number());
    let p = |i: ActivatedInfo| i.account.number() >= n;
    assert forall|i: int| 0 <= i < done implies !p(#[trigger] ledger[i]) by {
        if i < done - 1 {
            assert(ledger[i].account.number() < ledger[done - 1].account.number());
        }
    }
    assert forall|i: int| done <= i < ledger.len() implies p(#[trigger] ledger[i]) by {
        assert(ledger[done - 1].account.number() < ledger[i].account.number());
    }
    lemma_retain_suffix(ledger, p, done);
}

} // verus!
