//! The text lines that describe a chain, as UTF-8 bytes (one entry per
//! printed line).

use vstd::prelude::*;

use crate::blockchain::Blockchain;
use crate::block::Block;
use crate::text::amount_fixed2;
use crate::text::decimal;
use crate::text::push_amount_fixed2;
use crate::text::push_bytes;
use crate::text::push_decimal;
use crate::text::utf8;
use crate::transaction::lit;
use crate::transaction::Transaction;

verus! {

/// The byte strings of a list of lines.
pub open spec fn views(lines: Seq<Vec<u8>>) -> Seq<Seq<u8>> {
    lines.map_values(|l: Vec<u8>| l@)
}

/// A horizontal rule of eighty `─` characters.
pub open spec fn chain_rule() -> Seq<u8> {
    Seq::new(240, |i: int| if i % 3 == 0 { 0xe2u8 } else if i % 3 == 1 { 0x94u8 } else { 0x80u8 })
}

/// The line that describes one transaction of a block: rewards show the first
/// 8 bytes of the receiver, transfers the first 8 bytes of both addresses.
pub open spec fn tx_line(t: Transaction) -> Seq<u8> {
    if t.spec_is_coinbase() {
        lit("COINBASE → ") + utf8(t.reciever@).take(8) + lit(" : ") + amount_fixed2(t.amount as int) + lit(
            " RTC",
        )
    } else {
        lit("money ") + utf8(t.sender@).take(8) + lit("... → ") + utf8(t.reciever@).take(8) + lit("... : ")
            + amount_fixed2(t.amount as int) + lit(" RTC")
    }
}

/// The line that introduces a block: index, first 16 bytes of the hash,
/// number of transactions and nonce.
pub open spec fn block_line(b: Block) -> Seq<u8> {
    lit("Block #") + decimal(b.index as nat) + lit(" | Hash: ") + utf8(b.hash@).take(16) + lit(
        "... | Transactions: ",
    ) + decimal(b.transactions@.len()) + lit(" | Nonce: ") + decimal(b.nonce as nat)
}

/// The lines of a block: its own line, then one per transaction.
pub open spec fn block_lines(b: Block) -> Seq<Seq<u8>> {
    seq![block_line(b)] + b.transactions@.map_values(|t: Transaction| tx_line(t))
}

/// The lines of a list of blocks, in order.
pub open spec fn blocks_lines(chain: Seq<Block>) -> Seq<Seq<u8>>
    decreases chain.len(),
{
    if chain.len() == 0 {
        seq![]
    } else {
        blocks_lines(chain.drop_last()) + block_lines(chain.last())
    }
}

/// The whole description of a chain: a heading (after an empty line) with
/// the number of blocks, a rule, the lines of each block, a rule.
pub open spec fn chain_report_of(chain: Seq<Block>) -> Seq<Seq<u8>> {
    seq![lit("\nBlockchain (") + decimal(chain.len()) + lit(" blocks):"), chain_rule()] + blocks_lines(chain)
        + seq![chain_rule()]
}

/// Whether the addresses a transaction line shows have at least 8 bytes.
pub open spec fn tx_reportable(t: Transaction) -> bool {
    &&& utf8(t.reciever@).len() >= 8
    &&& (!t.spec_is_coinbase() ==> utf8(t.sender@).len() >= 8)
}

/// Whether the hash of a block has at least 16 bytes and its transactions
/// can be shown.
pub open spec fn block_reportable(b: Block) -> bool {
    &&& utf8(b.hash@).len() >= 16
    &&& forall|j: int| 0 <= j < b.transactions@.len() ==> tx_reportable(#[trigger] b.transactions@[j])
}

/// Whether every hash has at least 16 bytes and every address shown has at
/// least 8, so that the prefixes shown exist.
pub open spec fn reportable(chain: Seq<Block>) -> bool {
    forall|i: int| 0 <= i < chain.len() ==> block_reportable(#[trigger] chain[i])
}

/// Appends the first `k` bytes of `s`.
fn push_prefix(out: &mut Vec<u8>, s: &str, k: usize)
    requires
        utf8(s@).len() >= k,
    ensures
        final(out)@ == old(out)@ + utf8(s@).take(k as int),
{
    let bytes = s.as_bytes();
    let ghost start = out@;
    let mut i: usize = 0;
    while i < k
        invariant
            bytes@ == utf8(s@),
            bytes@.len() >= k,
            i <= k,
            out@ == start + bytes@.take(i as int),
        decreases k - i,
    {
        out.push(bytes[i]);
        i = i + 1;
        assert(bytes@.take(i as int) =~= bytes@.take(i - 1).push(bytes@[i - 1]));
    }
}

/// A rule of eighty `─` characters.
fn rule_bytes() -> (r: Vec<u8>)
    ensures
        r@ == chain_rule(),
{
    let mut r: Vec<u8> = Vec::new();
    let mut i: usize = 0;
    while i < 80
        invariant
            i <= 80,
            r@ =~= chain_rule().take(3 * i),
        decreases 80 - i,
    {
        r.push(0xe2);
        r.push(0x94);
        r.push(0x80);
        i = i + 1;
    }
    r
}

/// The line describing a transaction.
fn transaction_line(t: &Transaction) -> (line: Vec<u8>)
    requires
        utf8(t.reciever@).len() >= 8,
        !t.spec_is_coinbase() ==> utf8(t.sender@).len() >= 8,
    ensures
        line@ == tx_line(*t),
{
    let mut line: Vec<u8> = Vec::new();
    if t.is_coinbase() {
        push_bytes(&mut line, "COINBASE → ".as_bytes());
        push_prefix(&mut line, t.reciever.as_str(), 8);
        push_bytes(&mut line, " : ".as_bytes());
        push_amount_fixed2(&mut line, t.amount);
        push_bytes(&mut line, " RTC".as_bytes());
    } else {
        push_bytes(&mut line, "money ".as_bytes());
        push_prefix(&mut line, t.sender.as_str(), 8);
        push_bytes(&mut line, "... → ".as_bytes());
        push_prefix(&mut line, t.reciever.as_str(), 8);
        push_bytes(&mut line, "... : ".as_bytes());
        push_amount_fixed2(&mut line, t.amount);
        push_bytes(&mut line, " RTC".as_bytes());
    }
    line
}

/// Appends the lines describing a block.
fn push_block_lines(lines: &mut Vec<Vec<u8>>, b: &Block)
    requires
        utf8(b.hash@).len() >= 16,
        forall|j: int|
            0 <= j < b.transactions@.len() ==> {
                &&& utf8((#[trigger] b.transactions@[j]).reciever@).len() >= 8
                &&& (!b.transactions@[j].spec_is_coinbase() ==> utf8(b.transactions@[j].sender@).len()
                    >= 8)
            },
    ensures
        views(final(lines)@) == views(old(lines)@) + block_lines(*b),
{
    let ghost start = views(lines@);
    let mut head: Vec<u8> = Vec::new();
    push_bytes(&mut head, "Block #".as_bytes());
    push_decimal(&mut head, b.index);
    push_bytes(&mut head, " | Hash: ".as_bytes());
    push_prefix(&mut head, b.hash.as_str(), 16);
    push_bytes(&mut head, "... | Transactions: ".as_bytes());
    push_decimal(&mut head, b.transactions.len() as u64);
    push_bytes(&mut head, " | Nonce: ".as_bytes());
    push_decimal(&mut head, b.nonce);
    let ghost h = head@;
    lines.push(head);
    assert(views(lines@) =~= start + seq![h]);
    let n: usize = b.transactions.len();
    let mut j: usize = 0;
    while j < n
        invariant
            n == b.transactions@.len(),
            j <= n,
            forall|k: int|
                0 <= k < b.transactions@.len() ==> {
                    &&& utf8((#[trigger] b.transactions@[k]).reciever@).len() >= 8
                    &&& (!b.transactions@[k].spec_is_coinbase() ==> utf8(b.transactions@[k].sender@).len()
                        >= 8)
                },
            views(lines@) =~= start + seq![block_line(*b)] + b.transactions@.take(j as int).map_values(
                |t: Transaction| tx_line(t),
            ),
        decreases n - j,
    {
        let line = transaction_line(&b.transactions[j]);
        let ghost before = views(lines@);
        let ghost l = line@;
        lines.push(line);
        assert(views(lines@) =~= before.push(l));
        j = j + 1;
        assert(b.transactions@.take(j as int) =~= b.transactions@.take(j - 1).push(b.transactions@[j - 1]));
    }
    assert(b.transactions@.take(n as int) =~= b.transactions@);
}

impl Blockchain {
    /// Whether `chain_report` can describe the chain: every hash has at
    /// least 16 bytes and every address shown at least 8.
    pub fn can_report(&self) -> (ok: bool)
        ensures
            ok == reportable(self.chain@),
    {
        let n: usize = self.chain.len();
        let mut i: usize = 0;
        while i < n
            invariant
                n == self.chain@.len(),
                i <= n,
                forall|k: int| 0 <= k < i ==> block_reportable(#[trigger] self.chain@[k]),
            decreases n - i,
        {
            let b = &self.chain[i];
            if b.hash.as_str().as_bytes().len() < 16 {
                assert(!block_reportable(self.chain@[i as int]));
                return false;
            }
            let m: usize = b.transactions.len();
            let mut j: usize = 0;
            while j < m
                invariant
                    n == self.chain@.len(),
                    i < n,
                    *b == self.chain@[i as int],
                    m == b.transactions@.len(),
                    j <= m,
                    forall|k: int| 0 <= k < j ==> tx_reportable(#[trigger] b.transactions@[k]),
                decreases m - j,
            {
                let t = &b.transactions[j];
                if t.reciever.as_str().as_bytes().len() < 8 || (!t.is_coinbase() && t.sender.as_str().as_bytes().len() < 8) {
                    assert(self.chain@[i as int].transactions@[j as int] == b.transactions@[j as int]);
                    assert(!tx_reportable(self.chain@[i as int].transactions@[j as int]));
                    assert(!block_reportable(self.chain@[i as int]));
                    return false;
                }
                j = j + 1;
            }
            assert(self.chain@[i as int].transactions@ == b.transactions@);
            assert(block_reportable(self.chain@[i as int]));
            i = i + 1;
        }
        true
    }

    /// The lines describing the chain: a heading with the number of blocks,
    /// a rule, each block with its transactions, and a closing rule.
    pub fn chain_report(&self) -> (lines: Vec<Vec<u8>>)
        requires
            reportable(self.chain@),
        ensures
            views(lines@) == chain_report_of(self.chain@),
    {
        let mut lines: Vec<Vec<u8>> = Vec::new();
        let mut heading: Vec<u8> = Vec::new();
        push_bytes(&mut heading, "\nBlockchain (".as_bytes());
        push_decimal(&mut heading, self.chain.len() as u64);
        push_bytes(&mut heading, " blocks):".as_bytes());
        let ghost hd = heading@;
        lines.push(heading);
        lines.push(rule_bytes());
        let ghost start = views(lines@);
        assert(start =~= seq![hd, chain_rule()]);
        let n: usize = self.chain.len();
        let mut i: usize = 0;
        while i < n
            invariant
                n == self.chain@.len(),
                i <= n,
                reportable(self.chain@),
                views(lines@) =~= start + blocks_lines(self.chain@.take(i as int)),
            decreases n - i,
        {
            let b = &self.chain[i];
            assert(utf8(self.chain@[i as int].hash@).len() >= 16);
            push_block_lines(&mut lines, b);
            i = i + 1;
            assert(self.chain@.take(i as int).drop_last() =~= self.chain@.take(i - 1));
        }
        assert(self.chain@.take(n as int) =~= self.chain@);
        let ghost before = views(lines@);
        lines.push(rule_bytes());
        assert(views(lines@) =~= before.push(chain_rule()));
        lines
    }
}

} // verus!
