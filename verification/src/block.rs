//! Blocks and their SHA-256 hashes.

use vstd::prelude::*;

use crate::primitives::hex_encode;
use crate::primitives::sha256;
use crate::primitives::sha256_digest;
use crate::primitives::unix_time_now;
use crate::text::decimal;
use crate::text::hex_lower;
use crate::text::push_bytes;
use crate::text::push_decimal;
use crate::text::utf8;
use crate::transaction::coinbase_tag;
use crate::transaction::json_list;
use crate::transaction::push_json_list;
use crate::transaction::Transaction;

verus! {

/// The reward paid to the miner of a block: 50 coins, in hundredths.
pub const MINING_REWARD: i64 = 5000;

/// A block of the chain.
#[derive(Clone, Debug)]
pub struct Block {
    pub index: u64,
    pub timestamp: u64,
    pub transactions: Vec<Transaction>,
    pub previous_hash: String,
    pub nonce: u64,
    pub hash: String,
}

/// The address that receives the genesis reward.
pub open spec fn genesis_address() -> Seq<char> {
    seq!['g', 'e', 'n', 'e', 's', 'i', 's', '_', 'a', 'd', 'd', 'r', 'e', 's', 's']
}

/// Sixty-four `0` characters: the previous hash of the genesis block.
pub open spec fn zero_hash() -> Seq<char> {
    Seq::new(64, |i: int| '0')
}

/// A `String` of sixty-four `0` characters.
pub fn zero_hash_string() -> (s: String)
    ensures
        s@ == zero_hash(),
{
    let mut s = String::new();
    let mut i: usize = 0;
    while i < 64
        invariant
            i <= 64,
            s@ == Seq::new(i as nat, |k: int| '0'),
        decreases 64 - i,
    {
        crate::primitives::push_char(&mut s, '0');
        i = i + 1;
        assert(s@ == Seq::new(i as nat, |k: int| '0'));
    }
    s
}

/// The bytes hashed for a block with the given nonce: index, timestamp, the
/// JSON of the transactions, the previous hash and the nonce, run together.
pub open spec fn hash_input_with_nonce(b: Block, nonce: u64) -> Seq<u8> {
    b.hash_prefix() + decimal(nonce as nat)
}

/// The hash a block gets with the given nonce.
pub open spec fn hash_with_nonce(b: Block, nonce: u64) -> Seq<char> {
    hex_lower(sha256_digest(hash_input_with_nonce(b, nonce)))
}

impl Block {
    /// Everything hashed before the nonce.
    pub open spec fn hash_prefix(self) -> Seq<u8> {
        decimal(self.index as nat) + decimal(self.timestamp as nat) + json_list(self.transactions@)
            + utf8(self.previous_hash@)
    }

    /// The bytes that are hashed.
    pub open spec fn hash_input(self) -> Seq<u8> {
        hash_input_with_nonce(self, self.nonce)
    }

    /// The block hash: lowercase hex of the SHA-256 of `hash_input`.
    pub open spec fn spec_hash(self) -> Seq<char> {
        hash_with_nonce(self, self.nonce)
    }

    /// Whether the stored hash is the hash of the block's contents.
    pub open spec fn spec_has_valid_hash(self) -> bool {
        self.hash@ == self.spec_hash()
    }

    /// Appends `hash_prefix`.
    pub(crate) fn push_hash_prefix(&self, out: &mut Vec<u8>)
        ensures
            final(out)@ == old(out)@ + self.hash_prefix(),
    {
        let ghost start = out@;
        push_decimal(out, self.index);
        push_decimal(out, self.timestamp);
        push_json_list(out, &self.transactions);
        push_bytes(out, self.previous_hash.as_str().as_bytes());
        assert(out@ == start + self.hash_prefix());
    }

    /// A block made at the current time, with nonce 0 and its hash filled in.
    pub fn new(index: u64, transactions: Vec<Transaction>, previous_hash: String) -> (b: Self)
        ensures
            b.index == index,
            b.transactions == transactions,
            b.previous_hash == previous_hash,
            b.nonce == 0,
            b.spec_has_valid_hash(),
            b.hash@.len() == 64,
            utf8(b.hash@).len() == 64,
    {
        let now: i64 = unix_time_now();
        Block::new_at(index, now as u64, transactions, previous_hash)
    }

    /// A block with the given timestamp, nonce 0 and its hash filled in.
    pub fn new_at(index: u64, timestamp: u64, transactions: Vec<Transaction>, previous_hash: String) -> (b: Self)
        ensures
            b.index == index,
            b.timestamp == timestamp,
            b.transactions == transactions,
            b.previous_hash == previous_hash,
            b.nonce == 0,
            b.spec_has_valid_hash(),
            b.hash@.len() == 64,
            utf8(b.hash@).len() == 64,
    {
        let mut block = Block {
            index,
            timestamp,
            transactions,
            previous_hash,
            nonce: 0,
            hash: String::new(),
        };
        block.hash = block.calculate_hash();
        block
    }

    /// The hash of the block's contents (64 lowercase hex digits).
    pub fn calculate_hash(&self) -> (h: String)
        ensures
            h@ == self.spec_hash(),
            h@.len() == 64,
            utf8(h@).len() == 64,
    {
        let mut data: Vec<u8> = Vec::new();
        self.push_hash_prefix(&mut data);
        push_decimal(&mut data, self.nonce);
        let digest = sha256(data.as_slice());
        proof {
            crate::text::lemma_hex_utf8_len(digest@);
            crate::text::lemma_hex_lower_ascii(digest@);
        }
        hex_encode(digest.as_slice())
    }

    /// Whether the stored hash matches the contents.
    pub fn has_valid_hash(&self) -> (b: bool)
        ensures
            b == self.spec_has_valid_hash(),
    {
        self.hash == self.calculate_hash()
    }

    /// The first block: index 0, timestamp 0, previous hash of sixty-four
    /// zeros, one reward of 0 to `genesis_address`.
    pub fn genesis() -> (b: Self)
        ensures
            b.index == 0,
            b.timestamp == 0,
            b.transactions@.len() == 1,
            b.transactions@[0].sender@ == coinbase_tag(),
            b.transactions@[0].reciever@ == genesis_address(),
            b.transactions@[0].amount == 0,
            b.transactions@[0].signature@ == coinbase_tag(),
            b.previous_hash@ == zero_hash(),
            b.nonce == 0,
            b.spec_has_valid_hash(),
            b.hash@.len() == 64,
            utf8(b.hash@).len() == 64,
    {
        let genesis_tx = Transaction::coinbase(genesis_address_string(), 0);
        let mut transactions: Vec<Transaction> = Vec::new();
        transactions.push(genesis_tx);
        Block::new_at(0, 0, transactions, zero_hash_string())
    }
}

/// A `String` holding `genesis_address`.
pub fn genesis_address_string() -> (s: String)
    ensures
        s@ == genesis_address(),
{
    let s = "genesis_address".to_string();
    proof {
        reveal_strlit("genesis_address");
    }
    s
}

} // verus!
