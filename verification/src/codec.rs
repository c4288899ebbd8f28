//! Canonical byte encoding of ledger data.
//!
//! A block is rendered as a structured text record (field-name/value pairs in
//! a fixed order) so that structurally equal blocks always yield identical
//! bytes.  The encoding is defined first as a specification over sequences,
//! and the executable encoder is proved to produce exactly those bytes.

use crate::ledger::Block;
use crate::ledger::BlockData;
use crate::ledger::Transaction;
use crate::ledger::TransactionData;
use vstd::prelude::*;
use vstd::utf8::encode_utf8;

verus! {

/// Decimal digits of `n`, most significant first ("0" for zero).
pub open spec fn spec_digits(n: nat) -> Seq<u8>
    decreases n,
{
    if n < 10 {
        seq![(48 + n) as u8]
    } else {
        spec_digits(n / 10).push((48 + n % 10) as u8)
    }
}

/// Decimal rendering of a signed value: a minus sign before the digits of
/// its magnitude when negative.
pub open spec fn spec_decimal_i64(n: i64) -> Seq<u8> {
    if n < 0 {
        seq![45u8] + spec_digits((-(n as int)) as nat)
    } else {
        spec_digits(n as nat)
    }
}

/// Appends the decimal digits of `n` to `out`.
fn push_decimal_u64(out: &mut Vec<u8>, n: u64)
    ensures
        final(out)@ == old(out)@ + spec_digits(n as nat),
{
    if n == 0 {
        out.push(48);
        assert(out@ =~= old(out)@ + spec_digits(0));
        return;
    }
    let mut rev: Vec<u8> = Vec::new();
    let mut m: u64 = n;
    while m > 0
        invariant
            spec_digits(n as nat) == if m == 0 {
                rev@.reverse()
            } else {
                spec_digits(m as nat) + rev@.reverse()
            },
        decreases m,
    {
        let d: u8 = 48 + (m % 10) as u8;
        proof {
            assert(rev@.push(d).reverse() =~= seq![d] + rev@.reverse());
            if m >= 10 {
                assert(spec_digits(m as nat) =~= spec_digits(m as nat / 10) + seq![d]);
                assert(spec_digits(m as nat / 10) + seq![d] + rev@.reverse() =~= spec_digits(
                    m as nat / 10,
                ) + (seq![d] + rev@.reverse()));
            } else {
                assert(spec_digits(m as nat) =~= seq![d]);
            }
        }
        rev.push(d);
        m = m / 10;
    }
    let ghost prefix = out@;
    let mut i: usize = 0;
    while i < rev.len()
        invariant
            i <= rev@.len(),
            spec_digits(n as nat) == rev@.reverse(),
            out@ == prefix + rev@.reverse().take(i as int),
        decreases rev@.len() - i,
    {
        let b = rev[rev.len() - 1 - i];
        proof {
            assert(rev@.reverse()[i as int] == b);
            assert(rev@.reverse().take(i + 1) =~= rev@.reverse().take(i as int).push(b));
            assert(prefix + rev@.reverse().take(i as int) + seq![b] =~= prefix + rev@.reverse().take(
                i + 1,
            ));
        }
        out.push(b);
        i += 1;
    }
    proof {
        assert(rev@.reverse().take(rev@.len() as int) =~= rev@.reverse());
    }
}

/// Appends the decimal rendering of the signed value `n` to `out`.
fn push_decimal_i64(out: &mut Vec<u8>, n: i64)
    ensures
        final(out)@ == old(out)@ + spec_decimal_i64(n),
{
    if n >= 0 {
        push_decimal_u64(out, n as u64);
    } else {
        let ghost prefix = out@;
        out.push(45);
        let magnitude: u64 = ((-(n + 1)) as u64) + 1;
        proof {
            assert(magnitude as int == -(n as int));
        }
        push_decimal_u64(out, magnitude);
        proof {
            assert(prefix + seq![45u8] + spec_digits(magnitude as nat) =~= prefix
                + spec_decimal_i64(n));
        }
    }
}

/// How one byte of a string is rendered: a backslash is put before a quote
/// or a backslash, and every other byte stands as itself.
pub open spec fn spec_escape_byte(b: u8) -> Seq<u8> {
    if b == 34 || b == 92 {
        seq![92u8, b]
    } else {
        seq![b]
    }
}

/// The escaped form of a byte sequence.
pub open spec fn spec_escape(s: Seq<u8>) -> Seq<u8>
    decreases s.len(),
{
    if s.len() == 0 {
        Seq::empty()
    } else {
        spec_escape_byte(s[0]) + spec_escape(s.drop_first())
    }
}

/// Escaping distributes over appending one byte at the end.
proof fn lemma_escape_push(s: Seq<u8>, x: u8)
    ensures
        spec_escape(s.push(x)) == spec_escape(s) + spec_escape_byte(x),
    decreases s.len(),
{
    if s.len() == 0 {
        assert(s.push(x).drop_first() =~= Seq::<u8>::empty());
        assert(s.push(x)[0] == x);
        assert(spec_escape(s.push(x)) == spec_escape_byte(x) + spec_escape(
            s.push(x).drop_first(),
        ));
        assert(spec_escape_byte(x) + Seq::<u8>::empty() =~= spec_escape_byte(x));
        assert(spec_escape(s) + spec_escape_byte(x) =~= spec_escape_byte(x));
    } else {
        assert(s.push(x).drop_first() =~= s.drop_first().push(x));
        lemma_escape_push(s.drop_first(), x);
        assert(spec_escape_byte(s[0]) + (spec_escape(s.drop_first()) + spec_escape_byte(x)) =~= (
        spec_escape_byte(s[0]) + spec_escape(s.drop_first())) + spec_escape_byte(x));
    }
}

/// Appends the escaped form of `s` to `out`.
fn push_escaped(out: &mut Vec<u8>, s: &[u8])
    ensures
        final(out)@ == old(out)@ + spec_escape(s@),
{
    let ghost prefix = out@;
    let mut i: usize = 0;
    while i < s.len()
        invariant
            i <= s@.len(),
            out@ == prefix + spec_escape(s@.take(i as int)),
        decreases s@.len() - i,
    {
        let b = s[i];
        proof {
            lemma_escape_push(s@.take(i as int), s@[i as int]);
            assert(s@.take(i + 1) =~= s@.take(i as int).push(s@[i as int]));
        }
        if b == 34 || b == 92 {
            out.push(92);
            out.push(b);
            assert(out@ =~= prefix + spec_escape(s@.take(i + 1)));
        } else {
            out.push(b);
            assert(out@ =~= prefix + spec_escape(s@.take(i + 1)));
        }
        i += 1;
    }
    proof {
        assert(s@.take(s@.len() as int) =~= s@);
    }
}

/// The field-name text that opens a transaction record: `{"sender":"`.
pub open spec fn lit_sender() -> Seq<u8> {
    seq![123, 34, 115, 101, 110, 100, 101, 114, 34, 58, 34]
}

/// The text between the sender and the recipient: `","recipient":"`.
pub open spec fn lit_recipient() -> Seq<u8> {
    seq![34, 44, 34, 114, 101, 99, 105, 112, 105, 101, 110, 116, 34, 58, 34]
}

/// The text between the recipient and the amount: `","amount":`.
pub open spec fn lit_amount() -> Seq<u8> {
    seq![34, 44, 34, 97, 109, 111, 117, 110, 116, 34, 58]
}

/// The canonical encoding of one transaction: its fields in declaration
/// order, as name/value pairs.
pub open spec fn spec_encode_transaction(t: TransactionData) -> Seq<u8> {
    lit_sender() + spec_escape(encode_utf8(t.sender)) + lit_recipient() + spec_escape(
        encode_utf8(t.recipient),
    ) + lit_amount() + spec_digits(t.amount as nat) + seq![125]
}

fn push_lit_sender(out: &mut Vec<u8>)
    ensures
        final(out)@ == old(out)@ + lit_sender(),
{
    out.push(123);
    out.push(34);
    out.push(115);
    out.push(101);
    out.push(110);
    out.push(100);
    out.push(101);
    out.push(114);
    out.push(34);
    out.push(58);
    out.push(34);
    assert(out@ =~= old(out)@ + lit_sender());
}

fn push_lit_recipient(out: &mut Vec<u8>)
    ensures
        final(out)@ == old(out)@ + lit_recipient(),
{
    out.push(34);
    out.push(44);
    out.push(34);
    out.push(114);
    out.push(101);
    out.push(99);
    out.push(105);
    out.push(112);
    out.push(105);
    out.push(101);
    out.push(110);
    out.push(116);
    out.push(34);
    out.push(58);
    out.push(34);
    assert(out@ =~= old(out)@ + lit_recipient());
}

fn push_lit_amount(out: &mut Vec<u8>)
    ensures
        final(out)@ == old(out)@ + lit_amount(),
{
    out.push(34);
    out.push(44);
    out.push(34);
    out.push(97);
    out.push(109);
    out.push(111);
    out.push(117);
    out.push(110);
    out.push(116);
    out.push(34);
    out.push(58);
    assert(out@ =~= old(out)@ + lit_amount());
}

/// Appends the canonical encoding of one transaction to `out`.
fn push_transaction(out: &mut Vec<u8>, t: &Transaction)
    ensures
        final(out)@ == old(out)@ + spec_encode_transaction(t@),
{
    let ghost p0 = out@;
    push_lit_sender(out);
    push_escaped(out, t.sender.as_str().as_bytes());
    let ghost p1 = out@;
    assert(p1 =~= p0 + lit_sender() + spec_escape(encode_utf8(t.sender@)));
    push_lit_recipient(out);
    push_escaped(out, t.recipient.as_str().as_bytes());
    let ghost p2 = out@;
    assert(p2 =~= p1 + lit_recipient() + spec_escape(encode_utf8(t.recipient@)));
    push_lit_amount(out);
    push_decimal_u64(out, t.amount);
    out.push(125);
    assert(out@ =~= p0 + spec_encode_transaction(t@));
}

/// The canonical encoding of a batch of transactions, in order, separated by
/// commas.
pub open spec fn spec_encode_transactions(ts: Seq<TransactionData>) -> Seq<u8>
    decreases ts.len(),
{
    if ts.len() == 0 {
        Seq::empty()
    } else if ts.len() == 1 {
        spec_encode_transaction(ts[0])
    } else {
        spec_encode_transaction(ts[0]) + seq![44] + spec_encode_transactions(ts.drop_first())
    }
}

/// Batch encoding distributes over appending one transaction at the end.
proof fn lemma_encode_transactions_push(ts: Seq<TransactionData>, t: TransactionData)
    ensures
        spec_encode_transactions(ts.push(t)) == if ts.len() == 0 {
            spec_encode_transaction(t)
        } else {
            spec_encode_transactions(ts) + seq![44] + spec_encode_transaction(t)
        },
    decreases ts.len(),
{
    if ts.len() == 0 {
        assert(ts.push(t)[0] == t);
    } else if ts.len() == 1 {
        assert(ts.push(t).drop_first() =~= ts.drop_first().push(t));
        assert(ts.push(t).drop_first() =~= seq![t]);
        assert(seq![t].len() == 1);
        assert(seq![t][0] == t);
        assert(spec_encode_transactions(seq![t]) == spec_encode_transaction(t));
        assert(ts.push(t)[0] == ts[0]);
        assert(spec_encode_transactions(ts.push(t)) == spec_encode_transaction(ts[0])
            + seq![44] + spec_encode_transaction(t));
    } else {
        assert(ts.push(t).drop_first() =~= ts.drop_first().push(t));
        lemma_encode_transactions_push(ts.drop_first(), t);
        assert(spec_encode_transactions(ts.push(t)) == spec_encode_transaction(ts[0])
            + seq![44] + (spec_encode_transactions(ts.drop_first()) + seq![44]
            + spec_encode_transaction(t)));
        assert(spec_encode_transaction(ts[0]) + seq![44] + (spec_encode_transactions(
            ts.drop_first(),
        ) + seq![44] + spec_encode_transaction(t)) =~= (spec_encode_transaction(ts[0])
            + seq![44] + spec_encode_transactions(ts.drop_first())) + seq![44]
            + spec_encode_transaction(t));
    }
}

/// Appends the canonical encoding of the whole batch to `out`.
fn push_transactions(out: &mut Vec<u8>, ts: &Vec<Transaction>)
    ensures
        final(out)@ == old(out)@ + spec_encode_transactions(ts.deep_view()),
{
    let ghost prefix = out@;
    let mut i: usize = 0;
    while i < ts.len()
        invariant
            i <= ts@.len(),
            out@ == prefix + spec_encode_transactions(ts.deep_view().take(i as int)),
        decreases ts@.len() - i,
    {
        proof {
            lemma_encode_transactions_push(ts.deep_view().take(i as int), ts.deep_view()[i as int]);
            assert(ts.deep_view()[i as int] == ts@[i as int]@);
            assert(ts.deep_view().take(i + 1) =~= ts.deep_view().take(i as int).push(
                ts.deep_view()[i as int],
            ));
        }
        if i > 0 {
            out.push(44);
        }
        push_transaction(out, &ts[i]);
        assert(out@ =~= prefix + spec_encode_transactions(ts.deep_view().take(i + 1)));
        i += 1;
    }
    proof {
        assert(ts.deep_view().take(ts.deep_view().len() as int) =~= ts.deep_view());
    }
}

/// The field-name text that opens a block record: `{"index":`.
pub open spec fn lit_index() -> Seq<u8> {
    seq![123, 34, 105, 110, 100, 101, 120, 34, 58]
}

/// The text before the timestamp: `,"timestamp":`.
pub open spec fn lit_timestamp() -> Seq<u8> {
    seq![44, 34, 116, 105, 109, 101, 115, 116, 97, 109, 112, 34, 58]
}

/// The text before the transaction batch: `,"transactions":[`.
pub open spec fn lit_transactions() -> Seq<u8> {
    seq![
        44,
        34,
        116,
        114,
        97,
        110,
        115,
        97,
        99,
        116,
        105,
        111,
        110,
        115,
        34,
        58,
        91,
    ]
}

/// The text that closes the batch and names the proof field: `],"proof":`.
pub open spec fn lit_proof_field() -> Seq<u8> {
    seq![93, 44, 34, 112, 114, 111, 111, 102, 34, 58]
}

/// The text before the predecessor digest: `,"previous_hash":"`.
pub open spec fn lit_previous_hash() -> Seq<u8> {
    seq![
        44,
        34,
        112,
        114,
        101,
        118,
        105,
        111,
        117,
        115,
        95,
        104,
        97,
        115,
        104,
        34,
        58,
        34,
    ]
}

/// The text that closes a block record: `"}`.
pub open spec fn lit_close() -> Seq<u8> {
    seq![34, 125]
}

/// The canonical encoding of a block given by its fields, with the proof
/// value supplied separately so that a candidate proof can be rendered
/// without rebuilding the block.
pub open spec fn spec_encode_block_at(
    index: u64,
    timestamp: i64,
    transactions: Seq<TransactionData>,
    proof_value: u64,
    previous_hash: Seq<char>,
) -> Seq<u8> {
    lit_index() + spec_digits(index as nat) + lit_timestamp() + spec_decimal_i64(timestamp)
        + lit_transactions() + spec_encode_transactions(transactions) + lit_proof_field()
        + spec_digits(proof_value as nat) + lit_previous_hash() + spec_escape(
        encode_utf8(previous_hash),
    ) + lit_close()
}

fn push_lit_index(out: &mut Vec<u8>)
    ensures
        final(out)@ == old(out)@ + lit_index(),
{
    out.push(123);
    out.push(34);
    out.push(105);
    out.push(110);
    out.push(100);
    out.push(101);
    out.push(120);
    out.push(34);
    out.push(58);
    assert(out@ =~= old(out)@ + lit_index());
}

fn push_lit_timestamp(out: &mut Vec<u8>)
    ensures
        final(out)@ == old(out)@ + lit_timestamp(),
{
    out.push(44);
    out.push(34);
    out.push(116);
    out.push(105);
    out.push(109);
    out.push(101);
    out.push(115);
    out.push(116);
    out.push(97);
    out.push(109);
    out.push(112);
    out.push(34);
    out.push(58);
    assert(out@ =~= old(out)@ + lit_timestamp());
}

fn push_lit_transactions(out: &mut Vec<u8>)
    ensures
        final(out)@ == old(out)@ + lit_transactions(),
{
    out.push(44);
    out.push(34);
    out.push(116);
    out.push(114);
    out.push(97);
    out.push(110);
    out.push(115);
    out.push(97);
    out.push(99);
    out.push(116);
    out.push(105);
    out.push(111);
    out.push(110);
    out.push(115);
    out.push(34);
    out.push(58);
    out.push(91);
    assert(out@ =~= old(out)@ + lit_transactions());
}

fn push_lit_proof_field(out: &mut Vec<u8>)
    ensures
        final(out)@ == old(out)@ + lit_proof_field(),
{
    out.push(93);
    out.push(44);
    out.push(34);
    out.push(112);
    out.push(114);
    out.push(111);
    out.push(111);
    out.push(102);
    out.push(34);
    out.push(58);
    assert(out@ =~= old(out)@ + lit_proof_field());
}

fn push_lit_previous_hash(out: &mut Vec<u8>)
    ensures
        final(out)@ == old(out)@ + lit_previous_hash(),
{
    out.push(44);
    out.push(34);
    out.push(112);
    out.push(114);
    out.push(101);
    out.push(118);
    out.push(105);
    out.push(111);
    out.push(117);
    out.push(115);
    out.push(95);
    out.push(104);
    out.push(97);
    out.push(115);
    out.push(104);
    out.push(34);
    out.push(58);
    out.push(34);
    assert(out@ =~= old(out)@ + lit_previous_hash());
}

/// The canonical encoding of a block.
pub open spec fn spec_encode_block(b: BlockData) -> Seq<u8> {
    spec_encode_block_at(b.index, b.timestamp, b.transactions, b.proof, b.previous_hash)
}

/// Encodes a block, with the proof field's value taken from `proof_value`
/// instead of the block, so that candidate proofs can be rendered during the
/// proof-of-work search without rebuilding the block.
pub fn encode_block_with_proof(b: &Block, proof_value: u64) -> (r: Vec<u8>)
    ensures
        r@ == spec_encode_block_at(b.index, b.timestamp, b.transactions.deep_view(), proof_value,
            b.previous_hash@),
{
    let mut out: Vec<u8> = Vec::new();
    push_lit_index(&mut out);
    push_decimal_u64(&mut out, b.index);
    push_lit_timestamp(&mut out);
    push_decimal_i64(&mut out, b.timestamp);
    let ghost p1 = out@;
    assert(p1 =~= lit_index() + spec_digits(b.index as nat) + lit_timestamp() + spec_decimal_i64(
        b.timestamp,
    ));
    push_lit_transactions(&mut out);
    push_transactions(&mut out, &b.transactions);
    push_lit_proof_field(&mut out);
    push_decimal_u64(&mut out, proof_value);
    let ghost p2 = out@;
    assert(p2 =~= p1 + lit_transactions() + spec_encode_transactions(b.transactions.deep_view())
        + lit_proof_field() + spec_digits(proof_value as nat));
    push_lit_previous_hash(&mut out);
    push_escaped(&mut out, b.previous_hash.as_str().as_bytes());
    out.push(34);
    out.push(125);
    assert(out@ =~= spec_encode_block_at(b.index, b.timestamp, b.transactions.deep_view(),
        proof_value, b.previous_hash@));
    out
}

/// Encodes a block exactly as it stands.
pub fn encode_block(b: &Block) -> (r: Vec<u8>)
    ensures
        r@ == spec_encode_block(b@),
{
    encode_block_with_proof(b, b.proof)
}

/// Two structurally equal blocks have byte-identical canonical encodings:
/// the encoding is a pure function of the block's contents.
pub proof fn lemma_encode_deterministic(b1: BlockData, b2: BlockData)
    requires
        b1 == b2,
    ensures
        spec_encode_block(b1) == spec_encode_block(b2),
{
}

} // verus!
