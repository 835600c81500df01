//! Transfers of coins between addresses.

use vstd::prelude::*;

use crate::primitives::hex_encode;
use crate::primitives::sha256;
use crate::primitives::sha256_digest;
use crate::text::amount_json;
use crate::text::amount_text;
use crate::text::hex_lower;
use crate::text::json_string;
use crate::text::push_amount_json;
use crate::text::push_amount_text;
use crate::text::push_bytes;
use crate::text::push_json_string;
use crate::text::utf8;

verus! {

/// A transfer of `amount` hundredths of a coin from `sender` to `reciever`.
/// Block rewards are "coinbase" transactions whose sender is `COINBASE`.
#[derive(Clone, Debug)]
pub struct Transaction {
    pub sender: String,
    pub reciever: String,
    pub amount: i64,
    pub signature: String,
}

/// The sender (and signature) text that marks a block reward.
pub open spec fn coinbase_tag() -> Seq<char> {
    seq!['C', 'O', 'I', 'N', 'B', 'A', 'S', 'E']
}

/// A `String` holding `COINBASE`.
pub fn coinbase_string() -> (s: String)
    ensures
        s@ == coinbase_tag(),
{
    let s = "COINBASE".to_string();
    proof {
        reveal_strlit("COINBASE");
    }
    s
}

/// The UTF-8 bytes of a string literal.
pub open spec fn lit(s: &str) -> Seq<u8> {
    utf8(s@)
}

impl Transaction {
    /// The bytes that are hashed: sender, receiver and amount, run together.
    pub open spec fn hash_input(self) -> Seq<u8> {
        utf8(self.sender@) + utf8(self.reciever@) + amount_text(self.amount as int)
    }

    /// The transaction hash: lowercase hex of the SHA-256 of `hash_input`.
    pub open spec fn spec_hash(self) -> Seq<char> {
        hex_lower(sha256_digest(self.hash_input()))
    }

    /// Whether this is a block reward.
    pub open spec fn spec_is_coinbase(self) -> bool {
        self.sender@ == coinbase_tag()
    }

    /// The JSON object that serialises this transaction (fields in
    /// declaration order).
    pub open spec fn json(self) -> Seq<u8> {
        lit("{\"sender\":") + json_string(utf8(self.sender@)) + lit(",\"reciever\":")
            + json_string(utf8(self.reciever@)) + lit(",\"amount\":")
            + amount_json(self.amount as int) + lit(",\"signature\":")
            + json_string(utf8(self.signature@)) + lit("}")
    }

    /// An unsigned transfer.
    pub fn new(sender: String, reciever: String, amount: i64) -> (tx: Self)
        ensures
            tx.sender == sender,
            tx.reciever == reciever,
            tx.amount == amount,
            tx.signature@ == Seq::<char>::empty(),
    {
        Transaction { sender, reciever, amount, signature: String::new() }
    }

    /// A block reward of `reward` paid to `reciever`.
    pub fn coinbase(reciever: String, reward: i64) -> (tx: Self)
        ensures
            tx.sender@ == coinbase_tag(),
            tx.reciever == reciever,
            tx.amount == reward,
            tx.signature@ == coinbase_tag(),
    {
        Transaction {
            sender: coinbase_string(),
            reciever,
            amount: reward,
            signature: coinbase_string(),
        }
    }

    /// The transaction hash (64 lowercase hex digits).
    pub fn hash(&self) -> (h: String)
        ensures
            h@ == self.spec_hash(),
            h@.len() == 64,
            utf8(h@).len() == 64,
    {
        let mut data: Vec<u8> = Vec::new();
        push_bytes(&mut data, self.sender.as_str().as_bytes());
        push_bytes(&mut data, self.reciever.as_str().as_bytes());
        push_amount_text(&mut data, self.amount);
        let digest = sha256(data.as_slice());
        proof {
            crate::text::lemma_hex_utf8_len(digest@);
            crate::text::lemma_hex_lower_ascii(digest@);
        }
        hex_encode(digest.as_slice())
    }

    /// Whether the sender is `COINBASE`.
    pub fn is_coinbase(&self) -> (b: bool)
        ensures
            b == self.spec_is_coinbase(),
    {
        self.sender == coinbase_string()
    }

    /// A field-by-field copy.
    pub(crate) fn copy(&self) -> (t: Self)
        ensures
            t == *self,
    {
        Transaction {
            sender: self.sender.clone(),
            reciever: self.reciever.clone(),
            amount: self.amount,
            signature: self.signature.clone(),
        }
    }

    /// Appends the JSON object of this transaction.
    pub(crate) fn push_json(&self, out: &mut Vec<u8>)
        ensures
            final(out)@ == old(out)@ + self.json(),
    {
        let ghost start = out@;
        push_bytes(out, "{\"sender\":".as_bytes());
        push_json_string(out, self.sender.as_str());
        push_bytes(out, ",\"reciever\":".as_bytes());
        push_json_string(out, self.reciever.as_str());
        push_bytes(out, ",\"amount\":".as_bytes());
        push_amount_json(out, self.amount);
        push_bytes(out, ",\"signature\":".as_bytes());
        push_json_string(out, self.signature.as_str());
        push_bytes(out, "}".as_bytes());
        assert(out@ == start + self.json());
    }
}

/// The hash covers sender, receiver and amount only: two transactions that
/// agree on those have the same hash, whatever their signatures.
pub proof fn lemma_hash_ignores_signature(a: Transaction, b: Transaction)
    requires
        a.sender@ == b.sender@,
        a.reciever@ == b.reciever@,
        a.amount == b.amount,
    ensures
        a.spec_hash() == b.spec_hash(),
{
}

/// The JSON array of a list of transactions, as `serde_json::to_string`
/// writes a `Vec<Transaction>`.
pub open spec fn json_list(txs: Seq<Transaction>) -> Seq<u8> {
    lit("[") + json_items(txs) + lit("]")
}

/// The comma-separated JSON objects of a list of transactions.
pub open spec fn json_items(txs: Seq<Transaction>) -> Seq<u8>
    decreases txs.len(),
{
    if txs.len() == 0 {
        seq![]
    } else if txs.len() == 1 {
        txs[0].json()
    } else {
        json_items(txs.drop_last()) + lit(",") + txs.last().json()
    }
}

/// Appends the JSON array of `txs`.
pub fn push_json_list(out: &mut Vec<u8>, txs: &Vec<Transaction>)
    ensures
        final(out)@ == old(out)@ + json_list(txs@),
{
    let ghost start = out@;
    push_bytes(out, "[".as_bytes());
    let n: usize = txs.len();
    let mut i: usize = 0;
    while i < n
        invariant
            n == txs@.len(),
            i <= n,
            out@ == start + lit("[") + json_items(txs@.subrange(0, i as int)),
        decreases n - i,
    {
        if i > 0 {
            push_bytes(out, ",".as_bytes());
        }
        txs[i].push_json(out);
        i = i + 1;
        assert(txs@.subrange(0, i as int).drop_last() == txs@.subrange(0, i - 1));
    }
    assert(txs@.subrange(0, n as int) == txs@);
    push_bytes(out, "]".as_bytes());
}

} // verus!
