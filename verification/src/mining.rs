//! Proof of work: a block hash must start with `DIFFICULTY` zeros.

use vstd::prelude::*;
use vstd::string::StrSliceExecFns;

use crate::block::hash_with_nonce;
use crate::block::Block;
use crate::primitives::hex_encode;
use crate::primitives::push_char;
use crate::primitives::sha256;
use crate::text::push_bytes;
use crate::text::push_decimal;
use crate::text::decimal;
use crate::text::hex_lower;
use crate::primitives::sha256_digest;

verus! {

/// The number of leading `0` hex digits a block hash must have.
pub const DIFFICULTY: usize = 5;

/// `DIFFICULTY` zeros.
pub open spec fn target() -> Seq<char> {
    Seq::new(DIFFICULTY as nat, |i: int| '0')
}

/// Whether a hash meets the proof-of-work target.
pub open spec fn meets_target(hash: Seq<char>) -> bool {
    target().is_prefix_of(hash)
}

/// A hash meets the target exactly when it has at least `DIFFICULTY`
/// characters and each of the first `DIFFICULTY` of them is `0`.
pub proof fn lemma_meets_target_chars(h: Seq<char>)
    ensures
        meets_target(h) <==> (h.len() >= DIFFICULTY && forall|k: int| 0 <= k < DIFFICULTY ==> #[trigger] h[k] == '0'),
{
    if h.len() >= DIFFICULTY && forall|k: int| 0 <= k < DIFFICULTY ==> #[trigger] h[k] == '0' {
        assert(h.subrange(0, DIFFICULTY as int) =~= target());
    }
    if meets_target(h) {
        assert forall|k: int| 0 <= k < DIFFICULTY implies #[trigger] h[k] == '0' by {
            assert(h.subrange(0, DIFFICULTY as int)[k] == target()[k]);
        }
    }
}

/// Only the first `DIFFICULTY` characters decide whether a hash meets the
/// target: text shorter than that never does, and anything appended to text
/// at least that long changes nothing.
pub proof fn lemma_target_prefix(s: Seq<char>, t: Seq<char>)
    ensures
        s.len() < DIFFICULTY ==> !meets_target(s),
        s.len() >= DIFFICULTY ==> meets_target(s + t) == meets_target(s),
{
    if s.len() >= DIFFICULTY {
        assert((s + t).subrange(0, DIFFICULTY as int) =~= s.subrange(0, DIFFICULTY as int));
    }
}

/// The nonce reached after `k` increments (wrapping) from `start`.
pub open spec fn nonce_after(start: u64, k: int) -> u64 {
    ((start as int + k) % 0x1_0000_0000_0000_0000) as u64
}

/// Whether a block solves the proof of work with the given nonce.
pub open spec fn solves(b: Block, nonce: u64) -> bool {
    meets_target(hash_with_nonce(b, nonce))
}

/// The target as a `String`: `DIFFICULTY` zeros.
pub fn target_prefix() -> (p: String)
    ensures
        p@ == target(),
        p@.len() == DIFFICULTY,
        forall|k: int| 0 <= k < DIFFICULTY ==> #[trigger] p@[k] == '0',
{
    let mut s = String::new();
    let mut i: usize = 0;
    while i < DIFFICULTY
        invariant
            i <= DIFFICULTY,
            s@ == Seq::new(i as nat, |k: int| '0'),
        decreases DIFFICULTY - i,
    {
        push_char(&mut s, '0');
        i = i + 1;
        assert(s@ == Seq::new(i as nat, |k: int| '0'));
    }
    s
}

/// Whether `hash` starts with `DIFFICULTY` zeros.
pub fn meets_difficulty(hash: &str) -> (ok: bool)
    ensures
        ok == meets_target(hash@),
        ok <==> (hash@.len() >= DIFFICULTY && forall|k: int| 0 <= k < DIFFICULTY ==> #[trigger] hash@[k] == '0'),
{
    proof {
        lemma_meets_target_chars(hash@);
    }
    let len: usize = hash.unicode_len();
    if len < DIFFICULTY {
        return false;
    }
    let mut i: usize = 0;
    while i < DIFFICULTY
        invariant
            len == hash@.len(),
            DIFFICULTY <= len,
            i <= DIFFICULTY,
            forall|k: int| 0 <= k < i ==> hash@[k] == '0',
        decreases DIFFICULTY - i,
    {
        if hash.get_char(i) != '0' {
            assert(hash@.subrange(0, DIFFICULTY as int)[i as int] != target()[i as int]);
            return false;
        }
        i = i + 1;
    }
    assert(hash@.subrange(0, DIFFICULTY as int) =~= target());
    true
}

/// The hash of a block whose bytes before the nonce are `prefix`.
fn hash_for_nonce(prefix: &Vec<u8>, nonce: u64) -> (h: String)
    ensures
        h@ == hex_lower(sha256_digest(prefix@ + decimal(nonce as nat))),
        h@.len() == 64,
        crate::text::utf8(h@).len() == 64,
{
    let mut data: Vec<u8> = Vec::new();
    push_bytes(&mut data, prefix.as_slice());
    push_decimal(&mut data, nonce);
    let digest = sha256(data.as_slice());
    proof {
        crate::text::lemma_hex_utf8_len(digest@);
        crate::text::lemma_hex_lower_ascii(digest@);
    }
    hex_encode(digest.as_slice())
}

/// Once every increment count up to `u64::MAX` has failed, every nonce has.
proof fn lemma_every_nonce_tried(b: Block, start: u64, last: u64)
    requires
        last == nonce_after(start, u64::MAX as int),
        !solves(b, last),
        forall|j: int| 0 <= j < u64::MAX ==> !#[trigger] solves(b, nonce_after(start, j)),
    ensures
        forall|n: u64| !#[trigger] solves(b, n),
{
    assert forall|n: u64| !#[trigger] solves(b, n) by {
        let j: int = if n >= start {
            n - start
        } else {
            n + 0x1_0000_0000_0000_0000 - start
        };
        assert(nonce_after(start, j) == n);
        if j < u64::MAX {
            assert(!solves(b, nonce_after(start, j)));
        } else {
            assert(j == u64::MAX);
        }
    }
}

/// Searches nonces upwards (wrapping) from `block.nonce` and returns the
/// block with the first nonce whose hash meets the target, hash filled in.
/// Only if no nonce at all meets it does the search end without one, after
/// trying every nonce once.
pub fn mine_block(block: Block) -> (mined: Block)
    ensures
        mined.index == block.index,
        mined.timestamp == block.timestamp,
        mined.transactions == block.transactions,
        mined.previous_hash == block.previous_hash,
        mined.spec_has_valid_hash(),
        mined.hash@.len() == 64,
        crate::text::utf8(mined.hash@).len() == 64,
        exists|k: int|
            0 <= k <= u64::MAX && mined.nonce == nonce_after(block.nonce, k) && forall|j: int|
                0 <= j < k ==> !#[trigger] solves(block, nonce_after(block.nonce, j)),
        meets_target(mined.hash@) || forall|n: u64| !#[trigger] solves(block, n),
{
    let ghost initial = block;
    let mut candidate = block;
    let mut prefix: Vec<u8> = Vec::new();
    candidate.push_hash_prefix(&mut prefix);
    let start: u64 = candidate.nonce;
    let mut nonce: u64 = start;
    let mut tried: u64 = 0;
    loop
        invariant
            candidate == initial,
            initial == block,
            prefix@ == initial.hash_prefix(),
            start == initial.nonce,
            nonce == nonce_after(start, tried as int),
            forall|j: int| 0 <= j < tried ==> !#[trigger] solves(initial, nonce_after(start, j)),
        decreases u64::MAX - tried,
    {
        let hash = hash_for_nonce(&prefix, nonce);
        assert(hash@ == hash_with_nonce(initial, nonce));
        let found = meets_difficulty(hash.as_str());
        if found || tried == u64::MAX {
            proof {
                if !found {
                    lemma_every_nonce_tried(initial, start, nonce);
                }
            }
            candidate.nonce = nonce;
            candidate.hash = hash;
            assert(hash_with_nonce(candidate, nonce) == hash_with_nonce(initial, nonce));
            return candidate;
        }
        nonce = nonce.wrapping_add(1);
        tried = tried + 1;
    }
}

} // verus!
