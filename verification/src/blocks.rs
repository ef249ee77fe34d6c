//! Keys, blocks and saved blocks (blocks with their ledger sideband).
use crate::crypto::{
    be_bytes, be_value, blake2b_256, blake2b_256_digest, blake2b_512, blake2b_512_digest, blake2b_64,
    blake2b_64_digest, ed25519_public_key, ed25519_public_key_of, ed25519_sign, ed25519_signature,
    ed25519_verifies, ed25519_verify, lemma_be_bytes_len,
};
use crate::encoding::{le_value, lemma_le_value_bound, lemma_power_grows, power};
use crate::primitives::{Account, Amount, BlockHash, Link, PublicKey, UnixTimestamp};
use vstd::prelude::*;

verus! {

/// The account number that 32 big-endian bytes stand for.
pub open spec fn account_from_bytes(s: Seq<u8>) -> Account {
    Account { hi: be_value(s.subrange(0, 16)) as u128, lo: be_value(s.subrange(16, 32)) as u128 }
}

/// The hash that 32 big-endian bytes stand for.
pub open spec fn hash_from_bytes(s: Seq<u8>) -> BlockHash {
    BlockHash { hi: be_value(s.subrange(0, 16)) as u128, lo: be_value(s.subrange(16, 32)) as u128 }
}

/// The 32 big-endian bytes of a 256-bit number given by its halves.
pub open spec fn u256_bytes(hi: u128, lo: u128) -> Seq<u8> {
    be_bytes(hi as nat, 16) + be_bytes(lo as nat, 16)
}

/// The value of big-endian bytes is below 256 to the power of their number.
proof fn lemma_be_value_bound(s: Seq<u8>)
    ensures
        be_value(s) < power(256, s.len()),
    decreases s.len(),
{
    if s.len() > 0 {
        lemma_be_value_bound(s.drop_last());
        let v = be_value(s.drop_last());
        let p = power(256, (s.len() - 1) as nat);
        assert(v * 256 + s.last() < p * 256) by (nonlinear_arith)
            requires
                v < p,
                s.last() < 256,
        ;
    }
}

/// The number that big-endian bytes stand for, read from `bytes[start..start + 16]`.
fn u128_from_be(bytes: &[u8], start: usize) -> (r: u128)
    requires
        start + 16 <= bytes@.len(),
    ensures
        r == be_value(bytes@.subrange(start as int, start + 16)),
{
    let ghost s = bytes@.subrange(start as int, start + 16);
    assert(bytes@.len() == bytes.len());
    let mut v: u128 = 0;
    let mut i: usize = 0;
    while i < 16
        invariant
            i <= 16,
            start + 16 <= bytes@.len(),
            bytes@.len() == bytes.len(),
            s == bytes@.subrange(start as int, start + 16),
            v == be_value(s.take(i as int)),
        decreases 16 - i,
    {
        proof {
            lemma_be_value_bound(s.take(i + 1));
            assert(s.take(i + 1).drop_last() =~= s.take(i as int));
            assert(power(256, 16) == 0x1_0000_0000_0000_0000_0000_0000_0000_0000) by {
                reveal_with_fuel(power, 17);
            }
            if i + 1 < 16 {
                assert(power(256, (i + 1) as nat) <= power(256, 16)) by {
                    lemma_power_grows(256, (i + 1) as nat, 16);
                }
            }
        }
        v = v * 256 + bytes[start + i] as u128;
        i = i + 1;
    }
    assert(s.take(16) =~= s);
    v
}

/// Reads the two halves of a 256-bit number from 32 big-endian bytes.
fn halves_from_bytes(bytes: &[u8; 32]) -> (r: (u128, u128))
    ensures
        r.0 == be_value(bytes@.subrange(0, 16)),
        r.1 == be_value(bytes@.subrange(16, 32)),
{
    (u128_from_be(bytes.as_slice(), 0), u128_from_be(bytes.as_slice(), 16))
}

/// Appends the last `n` big-endian bytes of `x`.
fn push_be(out: &mut Vec<u8>, x: u128, n: usize)
    ensures
        final(out)@ == old(out)@ + be_bytes(x as nat, n as nat),
    decreases n,
{
    if n > 0 {
        push_be(out, x / 256, n - 1);
        out.push((x % 256) as u8);
        assert(final(out)@ =~= old(out)@ + be_bytes(x as nat, n as nat));
    } else {
        assert(old(out)@ + be_bytes(x as nat, 0) =~= old(out)@);
    }
}

/// Appends the 16 big-endian bytes of `x`.
fn push_u128(out: &mut Vec<u8>, x: u128)
    ensures
        final(out)@ == old(out)@ + be_bytes(x as nat, 16),
{
    push_be(out, x, 16);
}

/// Appends the 32 big-endian bytes of a 256-bit number.
pub(crate) fn push_u256(out: &mut Vec<u8>, hi: u128, lo: u128)
    ensures
        final(out)@ == old(out)@ + u256_bytes(hi, lo),
{
    push_u128(out, hi);
    push_u128(out, lo);
    assert(old(out)@ + be_bytes(hi as nat, 16) + be_bytes(lo as nat, 16) =~= old(out)@ + u256_bytes(hi, lo));
}

/// A private key: 32 secret bytes.
#[derive(Clone, Copy, Debug)]
pub struct PrivateKey {
    pub bytes: [u8; 32],
}

/// The public key (account) of a private key: the Ed25519 key whose secret is expanded with
/// BLAKE2b-512.
pub open spec fn public_key_of(key: PrivateKey) -> Account {
    account_from_bytes(ed25519_public_key(blake2b_512(key.bytes@)))
}

impl PrivateKey {
    /// The key whose 32 bytes are the big-endian encoding of `value`.
    pub fn from_u64(value: u64) -> (r: PrivateKey)
        ensures
            r.bytes@ == u256_bytes(0, value as u128),
    {
        let mut out: Vec<u8> = Vec::new();
        push_u256(&mut out, 0, value as u128);
        proof {
            lemma_be_bytes_len(0, 16);
            lemma_be_bytes_len(value as nat, 16);
        }
        let mut bytes = [0u8; 32];
        let mut i: usize = 0;
        while i < 32
            invariant
                i <= 32,
                out@ == u256_bytes(0, value as u128),
                out@.len() == 32,
                forall|j: int| 0 <= j < i ==> bytes@[j] == out@[j],
            decreases 32 - i,
        {
            bytes[i] = out[i];
            i = i + 1;
        }
        assert(bytes@ =~= out@);
        PrivateKey { bytes }
    }

    pub fn from_bytes(bytes: [u8; 32]) -> (r: PrivateKey)
        ensures
            r.bytes == bytes,
    {
        PrivateKey { bytes }
    }

    /// The account that this key signs for.
    pub fn account(&self) -> (r: Account)
        ensures
            r == public_key_of(*self),
    {
        let expanded = blake2b_512_digest(&self.bytes);
        let public = ed25519_public_key_of(&expanded);
        let (hi, lo) = halves_from_bytes(&public);
        Account { hi, lo }
    }

    /// The public key of this key (the same 256 bits as its account).
    pub fn public_key(&self) -> (r: PublicKey)
        ensures
            r == public_key_of(*self),
    {
        self.account()
    }
}

/// Reading bytes as a big-endian number and writing the number back with as many bytes gives
/// the bytes.
proof fn lemma_be_roundtrip(s: Seq<u8>)
    ensures
        be_bytes(be_value(s), s.len()) == s,
    decreases s.len(),
{
    if s.len() > 0 {
        lemma_be_roundtrip(s.drop_last());
        let a = be_value(s.drop_last());
        let b = s.last() as nat;
        assert((a * 256 + b) / 256 == a && (a * 256 + b) % 256 == b) by (nonlinear_arith)
            requires
                b < 256,
        ;
        assert(s.drop_last().push(s.last()) =~= s);
    }
}

/// An Ed25519 signature: 64 bytes, held as four big-endian 128-bit quarters.
#[derive(PartialEq, Eq, Structural, Clone, Copy, Debug)]
pub struct Signature {
    pub q0: u128,
    pub q1: u128,
    pub q2: u128,
    pub q3: u128,
}

/// The signature that 64 bytes stand for.
pub open spec fn signature_from_bytes(s: Seq<u8>) -> Signature {
    Signature {
        q0: be_value(s.subrange(0, 16)) as u128,
        q1: be_value(s.subrange(16, 32)) as u128,
        q2: be_value(s.subrange(32, 48)) as u128,
        q3: be_value(s.subrange(48, 64)) as u128,
    }
}

/// The 64 bytes of a signature.
pub open spec fn signature_bytes(sig: Signature) -> Seq<u8> {
    be_bytes(sig.q0 as nat, 16) + be_bytes(sig.q1 as nat, 16) + be_bytes(sig.q2 as nat, 16)
        + be_bytes(sig.q3 as nat, 16)
}

/// The 32 bytes of a hash, which is what a block's signature signs.
pub open spec fn hash_bytes(h: BlockHash) -> Seq<u8> {
    u256_bytes(h.hi, h.lo)
}

/// The signature that `key` gives the hash `hash`.
pub open spec fn signature_of(key: PrivateKey, hash: BlockHash) -> Signature {
    signature_from_bytes(ed25519_signature(blake2b_512(key.bytes@), hash_bytes(hash)))
}

/// Whether `sig` is a valid signature of `hash` by the account `signer`.
pub open spec fn signature_verifies(hash: BlockHash, signer: Account, sig: Signature) -> bool {
    ed25519_verifies(u256_bytes(signer.hi, signer.lo), hash_bytes(hash), signature_bytes(sig))
}

impl Signature {
    /// The all-zero signature of a block not signed yet.
    pub fn zero() -> (r: Signature)
        ensures
            r == (Signature { q0: 0, q1: 0, q2: 0, q3: 0 }),
    {
        Signature { q0: 0, q1: 0, q2: 0, q3: 0 }
    }

    /// The 64 bytes of the signature.
    pub fn to_bytes(&self) -> (r: [u8; 64])
        ensures
            r@ == signature_bytes(*self),
    {
        let mut out: Vec<u8> = Vec::new();
        push_u128(&mut out, self.q0);
        push_u128(&mut out, self.q1);
        push_u128(&mut out, self.q2);
        push_u128(&mut out, self.q3);
        proof {
            lemma_be_bytes_len(self.q0 as nat, 16);
            lemma_be_bytes_len(self.q1 as nat, 16);
            lemma_be_bytes_len(self.q2 as nat, 16);
            lemma_be_bytes_len(self.q3 as nat, 16);
            assert(out@ =~= signature_bytes(*self));
        }
        let mut bytes = [0u8; 64];
        let mut i: usize = 0;
        while i < 64
            invariant
                i <= 64,
                out@ == signature_bytes(*self),
                out@.len() == 64,
                forall|j: int| 0 <= j < i ==> bytes@[j] == out@[j],
            decreases 64 - i,
        {
            bytes[i] = out[i];
            i = i + 1;
        }
        assert(bytes@ =~= out@);
        bytes
    }
}

/// The 32 big-endian bytes of a 256-bit number, as an array.
fn u256_array(hi: u128, lo: u128) -> (r: [u8; 32])
    ensures
        r@ == u256_bytes(hi, lo),
{
    let mut out: Vec<u8> = Vec::new();
    push_u256(&mut out, hi, lo);
    proof {
        lemma_be_bytes_len(hi as nat, 16);
        lemma_be_bytes_len(lo as nat, 16);
    }
    let mut bytes = [0u8; 32];
    let mut i: usize = 0;
    while i < 32
        invariant
            i <= 32,
            out@ == u256_bytes(hi, lo),
            out@.len() == 32,
            forall|j: int| 0 <= j < i ==> bytes@[j] == out@[j],
        decreases 32 - i,
    {
        bytes[i] = out[i];
        i = i + 1;
    }
    assert(bytes@ =~= out@);
    bytes
}

impl PrivateKey {
    /// Signs a hash. The signature verifies under this key's account.
    pub fn sign(&self, hash: &BlockHash) -> (r: Signature)
        ensures
            r == signature_of(*self, *hash),
            signature_verifies(*hash, public_key_of(*self), r),
    {
        let expanded = blake2b_512_digest(&self.bytes);
        let public = ed25519_public_key_of(&expanded);
        let message = u256_array(hash.hi, hash.lo);
        let raw = ed25519_sign(&expanded, message.as_slice());
        let sig = Signature {
            q0: u128_from_be(raw.as_slice(), 0),
            q1: u128_from_be(raw.as_slice(), 16),
            q2: u128_from_be(raw.as_slice(), 32),
            q3: u128_from_be(raw.as_slice(), 48),
        };
        proof {
            let rs = raw@;
            lemma_be_roundtrip(rs.subrange(0, 16));
            lemma_be_roundtrip(rs.subrange(16, 32));
            lemma_be_roundtrip(rs.subrange(32, 48));
            lemma_be_roundtrip(rs.subrange(48, 64));
            assert(signature_bytes(sig) =~= rs);
            let ps = public@;
            lemma_be_roundtrip(ps.subrange(0, 16));
            lemma_be_roundtrip(ps.subrange(16, 32));
            lemma_be_value_bound(ps.subrange(0, 16));
            lemma_be_value_bound(ps.subrange(16, 32));
            assert(power(256, 16) == 0x1_0000_0000_0000_0000_0000_0000_0000_0000) by {
                reveal_with_fuel(power, 17);
            }
            let acc = public_key_of(*self);
            assert(acc.hi == be_value(ps.subrange(0, 16)));
            assert(acc.lo == be_value(ps.subrange(16, 32)));
            assert(u256_bytes(acc.hi, acc.lo) =~= ps);
        }
        sig
    }
}

/// Whether a signature of 64 bytes verifies a hash under an account.
fn verify_hash_signature(hash: &BlockHash, signer: &Account, sig: &Signature) -> (r: bool)
    ensures
        r == signature_verifies(*hash, *signer, *sig),
{
    let public = u256_array(signer.hi, signer.lo);
    let message = u256_array(hash.hi, hash.lo);
    let raw = sig.to_bytes();
    ed25519_verify(&public, message.as_slice(), &raw)
}

/// The work threshold that generated work meets: the highest of the development network's
/// thresholds, so that such work is valid for every kind of block there.
pub const DEV_WORK_THRESHOLD: u64 = 0xffc0_0000_0000_0000;

/// The `n` low-order bytes of `x`, least significant first.
pub open spec fn le_bytes(x: nat, n: nat) -> Seq<u8>
    decreases n,
{
    if n == 0 {
        Seq::empty()
    } else {
        seq![(x % 256) as u8] + le_bytes(x / 256, (n - 1) as nat)
    }
}

/// The difficulty of `work` for `root`: the 8-byte BLAKE2b digest of the work's eight
/// little-endian bytes followed by the root's 32 bytes, read little-endian.
pub open spec fn work_difficulty(root: BlockHash, work: u64) -> nat {
    le_value(blake2b_64(le_bytes(work as nat, 8) + hash_bytes(root)))
}

/// Whether `work` is what work generation gives for `root`: work that meets the threshold,
/// or, should no work at all meet it, zero.
pub open spec fn generated_work(root: BlockHash, work: u64) -> bool {
    work_difficulty(root, work) >= DEV_WORK_THRESHOLD || (work == 0 && forall|w: u64|
        #[trigger] work_difficulty(root, w) < DEV_WORK_THRESHOLD)
}

/// Appends the `n` low-order bytes of `x`, least significant first.
fn push_le(out: &mut Vec<u8>, x: u64, n: usize)
    ensures
        final(out)@ == old(out)@ + le_bytes(x as nat, n as nat),
    decreases n,
{
    if n > 0 {
        out.push((x % 256) as u8);
        push_le(out, x / 256, n - 1);
        assert(final(out)@ =~= old(out)@ + le_bytes(x as nat, n as nat));
    } else {
        assert(old(out)@ + le_bytes(x as nat, 0) =~= old(out)@);
    }
}

/// The difficulty of `work` for `root`.
pub fn work_difficulty_of(root: &BlockHash, work: u64) -> (r: u64)
    ensures
        r == work_difficulty(*root, work),
{
    let mut input: Vec<u8> = Vec::new();
    push_le(&mut input, work, 8);
    push_u256(&mut input, root.hi, root.lo);
    let digest = blake2b_64_digest(input.as_slice());
    let ghost d = digest@;
    let mut v: u64 = 0;
    let mut i: usize = 8;
    while i > 0
        invariant
            i <= 8,
            d == digest@,
            d.len() == 8,
            v == le_value(d.skip(i as int)),
        decreases i,
    {
        proof {
            assert(d.skip(i - 1).drop_first() =~= d.skip(i as int));
            lemma_le_value_bound(d.skip(i - 1));
            assert(power(256, 8) == 0x1_0000_0000_0000_0000) by {
                reveal_with_fuel(power, 9);
            }
            assert(power(256, (9 - i) as nat) <= power(256, 8)) by {
                lemma_power_grows(256, (9 - i) as nat, 8);
            }
        }
        v = digest[i - 1] as u64 + 256 * v;
        i = i - 1;
    }
    assert(d.skip(0) =~= d);
    v
}

/// Generates work for `root`: the least work that meets `DEV_WORK_THRESHOLD`, or zero if none
/// does.
pub fn generate_work(root: &BlockHash) -> (r: u64)
    ensures
        generated_work(*root, r),
{
    let mut nonce: u64 = 0;
    loop
        invariant
            forall|w: u64| w < nonce ==> #[trigger] work_difficulty(*root, w) < DEV_WORK_THRESHOLD,
        decreases u64::MAX - nonce,
    {
        let d = work_difficulty_of(root, nonce);
        if d >= DEV_WORK_THRESHOLD {
            return nonce;
        }
        if nonce == u64::MAX {
            assert forall|w: u64| #[trigger] work_difficulty(*root, w) < DEV_WORK_THRESHOLD by {
                if w < nonce {
                } else {
                    assert(w == nonce);
                }
            }
            return 0;
        }
        nonce = nonce + 1;
    }
}

#[derive(PartialEq, Eq, Structural, Clone, Copy, Debug)]
pub enum BlockType {
    LegacySend,
    LegacyReceive,
    LegacyOpen,
    LegacyChange,
    State,
}

#[derive(PartialEq, Eq, Structural, Clone, Copy, Debug)]
pub enum Epoch {
    Epoch0,
    Epoch1,
    Epoch2,
}

/// A block of any type. Fields that a block type does not have are zero:
/// `account` is set for open and state blocks, `balance` for send and state blocks,
/// `previous` for all but open blocks, `representative` for open, change and state blocks,
/// and `link` holds the destination of a send, the source of a receive or open block, or
/// the link of a state block.
#[derive(PartialEq, Eq, Structural, Clone, Copy, Debug)]
pub struct Block {
    pub block_type: BlockType,
    pub account: Account,
    pub previous: BlockHash,
    pub representative: PublicKey,
    pub balance: Amount,
    pub link: Link,
    pub work: u64,
    pub signature: Signature,
}

/// The root that a block's work is generated for: its previous block, or, for the first
/// block of an account, the account.
pub open spec fn block_root(b: Block) -> BlockHash {
    if b.previous.number() == 0 {
        BlockHash { hi: b.account.hi, lo: b.account.lo }
    } else {
        b.previous
    }
}

/// Whether a block carries the signature that `key` gives its hash.
pub open spec fn signed_by(b: Block, key: PrivateKey) -> bool {
    b.signature == signature_of(key, block_hash(b))
}

/// Whether a block's signature is valid for its hash under the account `signer`.
pub open spec fn signature_valid(b: Block, signer: Account) -> bool {
    signature_verifies(block_hash(b), signer, b.signature)
}

/// Whether a block is signed by `key` and carries work generated for its root.
pub open spec fn signed_with_work(b: Block, key: PrivateKey) -> bool {
    signed_by(b, key) && generated_work(block_root(b), b.work)
}

/// The 32-byte preamble that state blocks are hashed with (the state block type, 6).
pub open spec fn state_preamble() -> Seq<u8> {
    u256_bytes(0, 6)
}

/// The bytes that a block's hash covers.
pub open spec fn hashable_bytes(b: Block) -> Seq<u8> {
    match b.block_type {
        BlockType::State => state_preamble() + u256_bytes(b.account.hi, b.account.lo) + u256_bytes(
            b.previous.hi,
            b.previous.lo,
        ) + u256_bytes(b.representative.hi, b.representative.lo) + be_bytes(b.balance.raw as nat, 16)
            + u256_bytes(b.link.hi, b.link.lo),
        BlockType::LegacySend => u256_bytes(b.previous.hi, b.previous.lo) + u256_bytes(
            b.link.hi,
            b.link.lo,
        ) + be_bytes(b.balance.raw as nat, 16),
        BlockType::LegacyReceive => u256_bytes(b.previous.hi, b.previous.lo) + u256_bytes(
            b.link.hi,
            b.link.lo,
        ),
        BlockType::LegacyOpen => u256_bytes(b.link.hi, b.link.lo) + u256_bytes(
            b.representative.hi,
            b.representative.lo,
        ) + u256_bytes(b.account.hi, b.account.lo),
        BlockType::LegacyChange => u256_bytes(b.previous.hi, b.previous.lo) + u256_bytes(
            b.representative.hi,
            b.representative.lo,
        ),
    }
}

/// A block's hash: the 32-byte BLAKE2b digest of its hashable bytes.
pub open spec fn block_hash(b: Block) -> BlockHash {
    hash_from_bytes(blake2b_256(hashable_bytes(b)))
}

impl Block {
    /// The block with the signature that `key` gives its hash.
    fn signed(b: Block, key: &PrivateKey) -> (r: Block)
        ensures
            r == (Block { signature: signature_of(*key, block_hash(b)), ..b }),
            signed_by(r, *key),
            signature_valid(r, public_key_of(*key)),
    {
        let hash = b.hash();
        let signature = key.sign(&hash);
        Block { signature, ..b }
    }

    /// A state block signed by `key`.
    pub fn new_state(
        key: &PrivateKey,
        previous: BlockHash,
        representative: PublicKey,
        balance: Amount,
        link: Link,
        work: u64,
    ) -> (r: Block)
        ensures
            r == (Block {
                block_type: BlockType::State,
                account: public_key_of(*key),
                previous,
                representative,
                balance,
                link,
                work,
                signature: r.signature,
            }),
            signed_by(r, *key),
            signature_valid(r, public_key_of(*key)),
    {
        let b = Block {
            block_type: BlockType::State,
            account: key.account(),
            previous,
            representative,
            balance,
            link,
            work,
            signature: Signature::zero(),
        };
        Self::signed(b, key)
    }

    /// An epoch block: a state block for `account` that keeps its representative and balance,
    /// signed by the epoch signer `signer`.
    pub fn new_epoch(
        signer: &PrivateKey,
        account: Account,
        previous: BlockHash,
        representative: PublicKey,
        balance: Amount,
        link: Link,
        work: u64,
    ) -> (r: Block)
        ensures
            r == (Block {
                block_type: BlockType::State,
                account,
                previous,
                representative,
                balance,
                link,
                work,
                signature: r.signature,
            }),
            signed_by(r, *signer),
            signature_valid(r, public_key_of(*signer)),
    {
        let b = Block {
            block_type: BlockType::State,
            account,
            previous,
            representative,
            balance,
            link,
            work,
            signature: Signature::zero(),
        };
        Self::signed(b, signer)
    }

    /// A legacy send block signed by `key`.
    pub fn new_legacy_send(
        key: &PrivateKey,
        previous: BlockHash,
        destination: Account,
        balance: Amount,
        work: u64,
    ) -> (r: Block)
        ensures
            r == (Block {
                block_type: BlockType::LegacySend,
                account: Account { hi: 0, lo: 0 },
                previous,
                representative: Account { hi: 0, lo: 0 },
                balance,
                link: BlockHash { hi: destination.hi, lo: destination.lo },
                work,
                signature: r.signature,
            }),
            signed_by(r, *key),
            signature_valid(r, public_key_of(*key)),
    {
        let b = Block {
            block_type: BlockType::LegacySend,
            account: Account::zero(),
            previous,
            representative: Account::zero(),
            balance,
            link: destination.as_hash(),
            work,
            signature: Signature::zero(),
        };
        Self::signed(b, key)
    }

    /// A legacy receive block signed by `key`.
    pub fn new_legacy_receive(key: &PrivateKey, previous: BlockHash, source: BlockHash, work: u64) -> (r: Block)
        ensures
            r == (Block {
                block_type: BlockType::LegacyReceive,
                account: Account { hi: 0, lo: 0 },
                previous,
                representative: Account { hi: 0, lo: 0 },
                balance: Amount { raw: 0 },
                link: source,
                work,
                signature: r.signature,
            }),
            signed_by(r, *key),
            signature_valid(r, public_key_of(*key)),
    {
        let b = Block {
            block_type: BlockType::LegacyReceive,
            account: Account::zero(),
            previous,
            representative: Account::zero(),
            balance: Amount::zero(),
            link: source,
            work,
            signature: Signature::zero(),
        };
        Self::signed(b, key)
    }

    /// A legacy open block for the account of `key`, signed by it.
    pub fn new_legacy_open(key: &PrivateKey, source: BlockHash, representative: PublicKey, work: u64) -> (r:
        Block)
        ensures
            r == (Block {
                block_type: BlockType::LegacyOpen,
                account: public_key_of(*key),
                previous: BlockHash { hi: 0, lo: 0 },
                representative,
                balance: Amount { raw: 0 },
                link: source,
                work,
                signature: r.signature,
            }),
            signed_by(r, *key),
            signature_valid(r, public_key_of(*key)),
    {
        let b = Block {
            block_type: BlockType::LegacyOpen,
            account: key.account(),
            previous: BlockHash::zero(),
            representative,
            balance: Amount::zero(),
            link: source,
            work,
            signature: Signature::zero(),
        };
        Self::signed(b, key)
    }

    /// A legacy change block signed by `key`.
    pub fn new_legacy_change(key: &PrivateKey, previous: BlockHash, representative: PublicKey, work: u64) -> (r:
        Block)
        ensures
            r == (Block {
                block_type: BlockType::LegacyChange,
                account: Account { hi: 0, lo: 0 },
                previous,
                representative,
                balance: Amount { raw: 0 },
                link: BlockHash { hi: 0, lo: 0 },
                work,
                signature: r.signature,
            }),
            signed_by(r, *key),
            signature_valid(r, public_key_of(*key)),
    {
        let b = Block {
            block_type: BlockType::LegacyChange,
            account: Account::zero(),
            previous,
            representative,
            balance: Amount::zero(),
            link: BlockHash::zero(),
            work,
            signature: Signature::zero(),
        };
        Self::signed(b, key)
    }

    /// The block with work generated for its root (its hash, and so its signature, does not
    /// cover the work).
    pub fn with_generated_work(self) -> (r: Block)
        ensures
            r == (Block { work: r.work, ..self }),
            block_hash(r) == block_hash(self),
            generated_work(block_root(r), r.work),
    {
        let root = self.root();
        let work = generate_work(&root);
        let r = Block { work, ..self };
        assert(hashable_bytes(r) == hashable_bytes(self));
        r
    }

    /// The root that the block's work is for.
    pub fn root(&self) -> (r: BlockHash)
        ensures
            r == block_root(*self),
    {
        if self.previous.is_zero() {
            self.account.as_hash()
        } else {
            self.previous
        }
    }

    /// The difficulty of the block's work for its root.
    pub fn difficulty(&self) -> (r: u64)
        ensures
            r == work_difficulty(block_root(*self), self.work),
    {
        let root = self.root();
        work_difficulty_of(&root, self.work)
    }

    /// Whether the block's signature is valid for its hash under `signer`.
    pub fn verify_signature(&self, signer: &Account) -> (r: bool)
        ensures
            r == signature_valid(*self, *signer),
    {
        let hash = self.hash();
        verify_hash_signature(&hash, signer, &self.signature)
    }

    pub fn signature(&self) -> (r: Signature)
        ensures
            r == self.signature,
    {
        self.signature
    }

    /// The bytes that the hash covers.
    pub fn hashable_bytes(&self) -> (r: Vec<u8>)
        ensures
            r@ == hashable_bytes(*self),
    {
        let mut out: Vec<u8> = Vec::new();
        match self.block_type {
            BlockType::State => {
                push_u256(&mut out, 0, 6);
                push_u256(&mut out, self.account.hi, self.account.lo);
                push_u256(&mut out, self.previous.hi, self.previous.lo);
                push_u256(&mut out, self.representative.hi, self.representative.lo);
                push_u128(&mut out, self.balance.raw);
                push_u256(&mut out, self.link.hi, self.link.lo);
            },
            BlockType::LegacySend => {
                push_u256(&mut out, self.previous.hi, self.previous.lo);
                push_u256(&mut out, self.link.hi, self.link.lo);
                push_u128(&mut out, self.balance.raw);
            },
            BlockType::LegacyReceive => {
                push_u256(&mut out, self.previous.hi, self.previous.lo);
                push_u256(&mut out, self.link.hi, self.link.lo);
            },
            BlockType::LegacyOpen => {
                push_u256(&mut out, self.link.hi, self.link.lo);
                push_u256(&mut out, self.representative.hi, self.representative.lo);
                push_u256(&mut out, self.account.hi, self.account.lo);
            },
            BlockType::LegacyChange => {
                push_u256(&mut out, self.previous.hi, self.previous.lo);
                push_u256(&mut out, self.representative.hi, self.representative.lo);
            },
        }
        assert(out@ =~= hashable_bytes(*self));
        out
    }

    /// The block's hash.
    pub fn hash(&self) -> (r: BlockHash)
        ensures
            r == block_hash(*self),
    {
        let bytes = self.hashable_bytes();
        let digest = blake2b_256_digest(bytes.as_slice());
        let (hi, lo) = halves_from_bytes(&digest);
        BlockHash { hi, lo }
    }

    /// The account field of open and state blocks.
    pub fn account_field(&self) -> (r: Option<Account>)
        ensures
            r == (if self.block_type == BlockType::LegacyOpen || self.block_type == BlockType::State {
                Some(self.account)
            } else {
                None
            }),
    {
        match self.block_type {
            BlockType::LegacyOpen | BlockType::State => Some(self.account),
            _ => None,
        }
    }

    /// The destination of a send block or the link of a state block, as an account;
    /// zero for other blocks.
    pub fn destination_or_link(&self) -> (r: Account)
        ensures
            r == (if self.block_type == BlockType::LegacySend || self.block_type == BlockType::State {
                Account { hi: self.link.hi, lo: self.link.lo }
            } else {
                Account { hi: 0, lo: 0 }
            }),
    {
        match self.block_type {
            BlockType::LegacySend | BlockType::State => self.link.as_account(),
            _ => Account::zero(),
        }
    }

    pub fn work(&self) -> (r: u64)
        ensures
            r == self.work,
    {
        self.work
    }

    /// The previous block; zero for open blocks.
    pub fn previous(&self) -> (r: BlockHash)
        ensures
            r == self.previous,
    {
        self.previous
    }

    /// The source of legacy receive and open blocks.
    pub fn source_field(&self) -> (r: Option<BlockHash>)
        ensures
            r == (if self.block_type == BlockType::LegacyReceive || self.block_type == BlockType::LegacyOpen {
                Some(self.link)
            } else {
                None
            }),
    {
        match self.block_type {
            BlockType::LegacyReceive | BlockType::LegacyOpen => Some(self.link),
            _ => None,
        }
    }

    /// The link of state blocks.
    pub fn link_field(&self) -> (r: Option<Link>)
        ensures
            r == (if self.block_type == BlockType::State {
                Some(self.link)
            } else {
                None
            }),
    {
        match self.block_type {
            BlockType::State => Some(self.link),
            _ => None,
        }
    }
}

/// What the ledger knew of a block when it was saved.
#[derive(PartialEq, Eq, Structural, Clone, Copy, Debug)]
pub struct BlockDetails {
    pub epoch: Epoch,
    pub is_send: bool,
    pub is_receive: bool,
    pub is_epoch: bool,
}

impl BlockDetails {
    pub fn new(epoch: Epoch, is_send: bool, is_receive: bool, is_epoch: bool) -> (r: BlockDetails)
        ensures
            r == (BlockDetails { epoch, is_send, is_receive, is_epoch }),
    {
        BlockDetails { epoch, is_send, is_receive, is_epoch }
    }
}

/// Ledger data that is stored beside a block.
#[derive(PartialEq, Eq, Structural, Clone, Copy, Debug)]
pub struct BlockSideband {
    pub height: u64,
    pub timestamp: UnixTimestamp,
    pub successor: BlockHash,
    pub account: Account,
    pub balance: Amount,
    pub details: BlockDetails,
    pub source_epoch: Epoch,
}

/// A block together with its sideband.
#[derive(PartialEq, Eq, Structural, Clone, Copy, Debug)]
pub struct SavedBlock {
    pub block: Block,
    pub sideband: BlockSideband,
}

/// Whether a saved block sends funds: every legacy send, and state blocks whose sideband
/// says so.
pub open spec fn saved_is_send(b: SavedBlock) -> bool {
    b.block.block_type == BlockType::LegacySend || (b.block.block_type == BlockType::State
        && b.sideband.details.is_send)
}

impl SavedBlock {
    pub fn new(block: Block, sideband: BlockSideband) -> (r: SavedBlock)
        ensures
            r == (SavedBlock { block, sideband }),
    {
        SavedBlock { block, sideband }
    }

    /// The account balance after this block.
    pub fn balance(&self) -> (r: Amount)
        ensures
            r == self.sideband.balance,
    {
        self.sideband.balance
    }

    /// When the block was saved.
    pub fn timestamp(&self) -> (r: UnixTimestamp)
        ensures
            r == self.sideband.timestamp,
    {
        self.sideband.timestamp
    }

    pub fn height(&self) -> (r: u64)
        ensures
            r == self.sideband.height,
    {
        self.sideband.height
    }

    pub fn account(&self) -> (r: Account)
        ensures
            r == self.sideband.account,
    {
        self.sideband.account
    }

    pub fn source_epoch(&self) -> (r: Epoch)
        ensures
            r == self.sideband.source_epoch,
    {
        self.sideband.source_epoch
    }

    /// The successor; `None` while the block is its account's frontier.
    pub fn successor(&self) -> (r: Option<BlockHash>)
        ensures
            r == (if self.sideband.successor.number() == 0 {
                None
            } else {
                Some(self.sideband.successor)
            }),
    {
        if self.sideband.successor.is_zero() {
            None
        } else {
            Some(self.sideband.successor)
        }
    }

    /// The epoch of the account after this block.
    pub fn epoch(&self) -> (r: Epoch)
        ensures
            r == self.sideband.details.epoch,
    {
        self.sideband.details.epoch
    }

    pub fn block_type(&self) -> (r: BlockType)
        ensures
            r == self.block.block_type,
    {
        self.block.block_type
    }

    pub fn is_send(&self) -> (r: bool)
        ensures
            r == saved_is_send(*self),
    {
        match self.block.block_type {
            BlockType::LegacySend => true,
            BlockType::State => self.sideband.details.is_send,
            _ => false,
        }
    }

    pub fn hash(&self) -> (r: BlockHash)
        ensures
            r == block_hash(self.block),
    {
        self.block.hash()
    }

    /// Whether the block only changes the representative.
    pub fn is_change(&self) -> (r: bool)
        ensures
            r == saved_is_change(*self),
    {
        match self.block.block_type {
            BlockType::LegacyChange => true,
            BlockType::State => self.block.link.is_zero(),
            _ => false,
        }
    }
}

/// Whether a block only changes the representative: a legacy change block, or a state block
/// without a link.
pub open spec fn saved_is_change(b: SavedBlock) -> bool {
    b.block.block_type == BlockType::LegacyChange || (b.block.block_type == BlockType::State
        && b.block.link.number() == 0)
}

/// The balance by which a block is prioritised: its own balance, or, for a send, the larger
/// of that and the balance before it (so a send of everything is not prioritised as empty).
pub open spec fn priority_balance(block: SavedBlock, previous: Option<&SavedBlock>) -> u128 {
    let previous_balance: u128 = match previous {
        Some(p) => p.sideband.balance.raw,
        None => 0,
    };
    let send_balance: u128 = if saved_is_send(block) {
        previous_balance
    } else {
        0
    };
    if block.sideband.balance.raw >= send_balance {
        block.sideband.balance.raw
    } else {
        send_balance
    }
}

/// The timestamp by which a block is prioritised: that of the previous block, or its own
/// for the first block of an account.
pub open spec fn priority_timestamp(block: SavedBlock, previous: Option<&SavedBlock>) -> u64 {
    match previous {
        Some(p) => p.sideband.timestamp.secs,
        None => block.sideband.timestamp.secs,
    }
}

/// The balance and the timestamp by which a block is prioritised.
pub fn block_priority(block: &SavedBlock, previous_block: Option<&SavedBlock>) -> (r: (
    Amount,
    UnixTimestamp,
))
    ensures
        r.0.raw == priority_balance(*block, previous_block),
        r.1.secs == priority_timestamp(*block, previous_block),
        r.0.raw >= block.sideband.balance.raw,
        r.0.raw == block.sideband.balance.raw || (saved_is_send(*block) && (previous_block matches Some(p)
            && r.0.raw == p.sideband.balance.raw)),
        saved_is_send(*block) ==> (previous_block matches Some(p) ==> r.0.raw >= p.sideband.balance.raw),
        !saved_is_send(*block) || previous_block is None ==> r.0.raw == block.sideband.balance.raw,
        previous_block matches Some(p) ==> r.1 == p.sideband.timestamp,
        previous_block is None ==> r.1 == block.sideband.timestamp,
{
    let previous_balance = match previous_block {
        Some(b) => b.balance(),
        None => Amount::zero(),
    };
    let send_balance = if block.is_send() {
        previous_balance
    } else {
        Amount::zero()
    };
    let own_balance = block.balance();
    let priority_balance = if own_balance.raw >= send_balance.raw {
        own_balance
    } else {
        send_balance
    };
    let priority_timestamp = match previous_block {
        Some(b) => b.timestamp(),
        None => block.timestamp(),
    };
    (priority_balance, priority_timestamp)
}

/// A block is prioritised by the larger of its own balance and, for a send, the balance
/// before it (any send, whatever it leaves), and by the time of the block before it (its own
/// time for the first block).
pub proof fn lemma_priority_is_larger_balance(block: SavedBlock, previous: Option<&SavedBlock>)
    ensures
        priority_balance(block, previous) >= block.sideband.balance.raw,
        saved_is_send(block) ==> (previous matches Some(p) ==> priority_balance(block, previous)
            >= p.sideband.balance.raw),
        priority_balance(block, previous) == block.sideband.balance.raw || (saved_is_send(block)
            && (previous matches Some(p) && priority_balance(block, previous) == p.sideband.balance.raw)),
        !saved_is_send(block) || previous is None ==> priority_balance(block, previous)
            == block.sideband.balance.raw,
        previous matches Some(p) ==> priority_timestamp(block, previous) == p.sideband.timestamp.secs,
        previous is None ==> priority_timestamp(block, previous) == block.sideband.timestamp.secs,
{
}

} // verus!
