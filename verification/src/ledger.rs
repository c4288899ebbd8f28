//! The ledger: transactions, blocks, and the append-only chain.
//!
//! A `Blockchain` owns the ordered sequence of sealed blocks and the pending
//! pool of unsealed transactions.  Sealing either takes an explicit proof
//! value (as for the genesis block) or searches for the smallest proof whose
//! digest satisfies the difficulty predicate.

use crate::clock;
use crate::codec;
use crate::hashing;
use vstd::prelude::*;

verus! {

/// The difficulty used by a freshly constructed ledger: how many leading
/// zero hex characters a sealed block's digest must show.
pub const DEFAULT_DIFFICULTY: usize = 4;

/// The mathematical content of a transaction: its fields as sequences and
/// numbers, independent of how the strings are allocated.
pub ghost struct TransactionData {
    pub sender: Seq<char>,
    pub recipient: Seq<char>,
    pub amount: u64,
}

/// An immutable value-transfer record.
#[derive(Debug)]
pub struct Transaction {
    pub sender: String,
    pub recipient: String,
    pub amount: u64,
}

impl View for Transaction {
    type V = TransactionData;

    open spec fn view(&self) -> TransactionData {
        TransactionData { sender: self.sender@, recipient: self.recipient@, amount: self.amount }
    }
}

impl DeepView for Transaction {
    type V = TransactionData;

    open spec fn deep_view(&self) -> TransactionData {
        self.view()
    }
}

impl Clone for Transaction {
    fn clone(&self) -> (res: Self)
        ensures
            res == *self,
    {
        let res = Transaction {
            sender: self.sender.clone(),
            recipient: self.recipient.clone(),
            amount: self.amount,
        };
        res
    }
}

/// The mathematical content of a block.
pub ghost struct BlockData {
    pub index: u64,
    pub timestamp: i64,
    pub transactions: Seq<TransactionData>,
    pub proof: u64,
    pub previous_hash: Seq<char>,
}

/// A sealed batch of transactions plus chain-linkage metadata.
#[derive(Debug)]
pub struct Block {
    pub index: u64,
    pub timestamp: i64,
    pub transactions: Vec<Transaction>,
    pub proof: u64,
    pub previous_hash: String,
}

impl View for Block {
    type V = BlockData;

    open spec fn view(&self) -> BlockData {
        BlockData {
            index: self.index,
            timestamp: self.timestamp,
            transactions: self.transactions.deep_view(),
            proof: self.proof,
            previous_hash: self.previous_hash@,
        }
    }
}

impl DeepView for Block {
    type V = BlockData;

    open spec fn deep_view(&self) -> BlockData {
        self.view()
    }
}

/// Copies a batch of transactions element by element.
fn clone_transactions(v: &Vec<Transaction>) -> (r: Vec<Transaction>)
    ensures
        r@ == v@,
{
    let mut r: Vec<Transaction> = Vec::new();
    let mut i: usize = 0;
    while i < v.len()
        invariant
            i <= v@.len(),
            r@ == v@.take(i as int),
        decreases v@.len() - i,
    {
        r.push(v[i].clone());
        proof {
            assert(v@.take(i + 1) =~= v@.take(i as int).push(v@[i as int]));
        }
        i += 1;
    }
    proof {
        assert(v@.take(v@.len() as int) =~= v@);
    }
    r
}

impl Clone for Block {
    fn clone(&self) -> (res: Self)
        ensures
            res@ == self@,
    {
        let res = Block {
            index: self.index,
            timestamp: self.timestamp,
            transactions: clone_transactions(&self.transactions),
            proof: self.proof,
            previous_hash: self.previous_hash.clone(),
        };
        res
    }
}

/// The digest of a block: the lowercase hexadecimal SHA-256 of its canonical
/// encoding, with the proof field's value taken from `proof_value`.
pub open spec fn spec_digest_at(b: BlockData, proof_value: u64) -> Seq<char> {
    hashing::sha256_hex_of(
        codec::spec_encode_block_at(b.index, b.timestamp, b.transactions, proof_value,
        b.previous_hash),
    )
}

/// The digest of a block exactly as it stands.
pub open spec fn spec_digest(b: BlockData) -> Seq<char> {
    spec_digest_at(b, b.proof)
}

/// True when a digest begins with a run of `k` zero hex characters.
pub open spec fn starts_with_zeros(digest: Seq<char>, k: nat) -> bool {
    k <= digest.len() && forall|i: int| 0 <= i < k ==> digest[i] == '0'
}

/// The difficulty predicate: `candidate` is a valid proof for block `b` at
/// difficulty `k` when the digest of `b` with its proof field set to
/// `candidate` begins with `k` zero hex characters.
pub open spec fn spec_valid_proof(k: nat, b: BlockData, candidate: u64) -> bool {
    starts_with_zeros(spec_digest_at(b, candidate), k)
}

/// The candidate block that sealing the ledger `l` at wall-clock time `ts`
/// submits to the proof-of-work search: the next index, the pending pool,
/// and the predecessor digest (or the empty sentinel on an empty chain).
/// The proof field is immaterial to the search, which supplies its own
/// candidate values.
pub open spec fn candidate_data(l: BlockchainData, ts: i64) -> BlockData {
    BlockData {
        index: l.chain.len() as u64,
        timestamp: ts,
        transactions: l.pending,
        proof: 0,
        previous_hash: if l.chain.len() > 0 {
            spec_digest(l.chain.last())
        } else {
            Seq::<char>::empty()
        },
    }
}

/// A well-formed chain: block indices are sequential from zero, the genesis
/// block carries the empty sentinel in place of a predecessor digest, and
/// every later block records the digest of the block before it.
pub open spec fn chain_well_formed(chain: Seq<BlockData>) -> bool {
    &&& forall|i: int| 0 <= i < chain.len() ==> (#[trigger] chain[i]).index == i
    &&& forall|i: int|
        1 <= i < chain.len() ==> (#[trigger] chain[i]).previous_hash == spec_digest(chain[i - 1])
    &&& chain.len() > 0 ==> chain[0].previous_hash == Seq::<char>::empty()
}

/// Sealing a block can fail only when the proof-of-work search exhausts its
/// iteration cutoff without satisfying the difficulty predicate.
#[derive(Clone, Copy, Debug, PartialEq, Eq, Structural)]
pub enum MineError {
    PredicateUnsatisfiable,
}

/// The mathematical content of a ledger.
pub ghost struct BlockchainData {
    pub chain: Seq<BlockData>,
    pub pending: Seq<TransactionData>,
    pub difficulty: usize,
    pub max_iterations: u64,
}

/// The chain manager: the sealed chain, the pending pool, and the
/// proof-of-work configuration.
pub struct Blockchain {
    chain: Vec<Block>,
    current_transactions: Vec<Transaction>,
    difficulty: usize,
    max_iterations: u64,
}

impl View for Blockchain {
    type V = BlockchainData;

    closed spec fn view(&self) -> BlockchainData {
        BlockchainData {
            chain: self.chain.deep_view(),
            pending: self.current_transactions.deep_view(),
            difficulty: self.difficulty,
            max_iterations: self.max_iterations,
        }
    }
}

impl Blockchain {
    #[verifier::type_invariant]
    spec fn wf(self) -> bool {
        chain_well_formed(self.chain.deep_view())
    }

    /// Constructs an empty ledger with the default difficulty and no
    /// effective cutoff on the proof-of-work search.
    pub fn new() -> (bc: Blockchain)
        ensures
            bc@.chain == Seq::<BlockData>::empty(),
            bc@.pending == Seq::<TransactionData>::empty(),
            bc@.difficulty == DEFAULT_DIFFICULTY,
            bc@.max_iterations == u64::MAX,
    {
        Blockchain::with_config(DEFAULT_DIFFICULTY, u64::MAX)
    }

    /// Constructs an empty ledger with the given difficulty (how many
    /// leading zero hex characters a digest must show) and iteration cutoff
    /// for the proof-of-work search.
    pub fn with_config(difficulty: usize, max_iterations: u64) -> (bc: Blockchain)
        ensures
            bc@.chain == Seq::<BlockData>::empty(),
            bc@.pending == Seq::<TransactionData>::empty(),
            bc@.difficulty == difficulty,
            bc@.max_iterations == max_iterations,
    {
        let bc = Blockchain {
            chain: Vec::new(),
            current_transactions: Vec::new(),
            difficulty,
            max_iterations,
        };
        proof {
            assert(bc@.chain =~= Seq::<BlockData>::empty());
            assert(bc@.pending =~= Seq::<TransactionData>::empty());
        }
        bc
    }

    /// The sealed chain, oldest block first.  However the ledger was built,
    /// the chain comes out well formed: indices run sequentially from zero,
    /// the genesis block carries the empty sentinel, and every later block
    /// records the digest of its predecessor.
    pub fn chain(&self) -> (r: &Vec<Block>)
        ensures
            r.deep_view() == self@.chain,
            chain_well_formed(self@.chain),
    {
        proof {
            use_type_invariant(&*self);
        }
        &self.chain
    }

    /// The transactions queued for the next block, in insertion order.
    pub fn pending(&self) -> (r: &Vec<Transaction>)
        ensures
            r.deep_view() == self@.pending,
    {
        &self.current_transactions
    }

    /// The configured difficulty.
    pub fn difficulty(&self) -> (r: usize)
        ensures
            r == self@.difficulty,
    {
        self.difficulty
    }

    /// The configured cutoff for the proof-of-work search.
    pub fn max_iterations(&self) -> (r: u64)
        ensures
            r == self@.max_iterations,
    {
        self.max_iterations
    }

    /// A read-only reference to the most recently sealed block, or `None`
    /// while the chain is empty.
    pub fn last_block(&self) -> (r: Option<&Block>)
        ensures
            match r {
                Some(b) => self@.chain.len() > 0 && b@ == self@.chain.last(),
                None => self@.chain.len() == 0,
            },
    {
        match self.chain.len() {
            0 => None,
            n => Some(&self.chain[n - 1]),
        }
    }

    /// The hexadecimal digest of a block's canonical encoding: 64 lowercase
    /// hex characters.
    pub fn hash(block: &Block) -> (r: String)
        ensures
            r@ == spec_digest(block@),
            r@.len() == 64,
            forall|i: int| 0 <= i < 64 ==> hashing::is_hex_digit(#[trigger] r@[i]),
    {
        let encoded = codec::encode_block(block);
        hashing::sha256_hex(encoded.as_slice())
    }

    /// The digest of `block` with its proof field set to `candidate`.
    fn digest_with_proof(block: &Block, candidate: u64) -> (r: String)
        ensures
            r@ == spec_digest_at(block@, candidate),
            r@.len() == 64,
    {
        let encoded = codec::encode_block_with_proof(block, candidate);
        hashing::sha256_hex(encoded.as_slice())
    }

    /// Decides the difficulty predicate: whether the digest of `block` with
    /// its proof field set to `candidate` begins with the configured run of
    /// zero hex characters.
    pub fn is_valid_proof(&self, block: &Block, candidate: u64) -> (r: bool)
        ensures
            r == spec_valid_proof(self@.difficulty as nat, block@, candidate),
    {
        let h = Self::digest_with_proof(block, candidate);
        if self.difficulty > 64 {
            return false;
        }
        let mut i: usize = 0;
        while i < self.difficulty
            invariant
                i <= self.difficulty <= 64,
                h@ == spec_digest_at(block@, candidate),
                h@.len() == 64,
                forall|j: int| 0 <= j < i ==> h@[j] == '0',
            decreases self.difficulty - i,
        {
            let c = h.as_str().get_char(i);
            if c != '0' {
                return false;
            }
            i += 1;
        }
        true
    }

    /// Brute-force proof-of-work search from zero: returns the smallest
    /// candidate within the configured cutoff that satisfies the difficulty
    /// predicate for `block`, or reports the predicate unsatisfiable within
    /// the cutoff.
    pub fn proof_of_work(&self, block: &Block) -> (r: Result<u64, MineError>)
        ensures
            match r {
                Ok(p) => p <= self@.max_iterations && spec_valid_proof(
                    self@.difficulty as nat,
                    block@,
                    p,
                ) && forall|q: u64|
                    q < p ==> !spec_valid_proof(self@.difficulty as nat, block@, q),
                Err(e) => e == MineError::PredicateUnsatisfiable && forall|q: u64|
                    q <= self@.max_iterations ==> !spec_valid_proof(
                        self@.difficulty as nat,
                        block@,
                        q,
                    ),
            },
    {
        let mut candidate: u64 = 0;
        while candidate < self.max_iterations
            invariant
                candidate <= self.max_iterations,
                forall|q: u64|
                    q < candidate ==> !spec_valid_proof(self@.difficulty as nat, block@, q),
            decreases self.max_iterations - candidate,
        {
            if self.is_valid_proof(block, candidate) {
                return Ok(candidate);
            }
            candidate = candidate + 1;
        }
        if self.is_valid_proof(block, candidate) {
            Ok(candidate)
        } else {
            Err(MineError::PredicateUnsatisfiable)
        }
    }

    /// Queues a transaction into the pending pool and returns the 1-based
    /// index of the block it is expected to land in: one past the number of
    /// sealed blocks.  It is an estimate, not a guarantee: further
    /// transactions may be queued before the pool is sealed.
    pub fn new_transaction(&mut self, sender: &str, recipient: &str, amount: u64) -> (landing: u64)
        ensures
            final(self)@.chain == old(self)@.chain,
            final(self)@.pending == old(self)@.pending.push(
                TransactionData { sender: sender@, recipient: recipient@, amount },
            ),
            final(self)@.difficulty == old(self)@.difficulty,
            final(self)@.max_iterations == old(self)@.max_iterations,
            landing == if old(self)@.chain.len() + 1 <= u64::MAX {
                old(self)@.chain.len() + 1
            } else {
                u64::MAX as nat
            },
    {
        proof {
            use_type_invariant(&*self);
        }
        let ghost pending0 = self@.pending;
        let t = Transaction {
            sender: sender.to_owned(),
            recipient: recipient.to_owned(),
            amount,
        };
        let mut pool: Vec<Transaction> = Vec::new();
        std::mem::swap(&mut pool, &mut self.current_transactions);
        pool.push(t);
        self.current_transactions = pool;
        proof {
            assert(self@.pending =~= pending0.push(
                TransactionData { sender: sender@, recipient: recipient@, amount },
            ));
        }
        let n = self.chain.len() as u64;
        if n < u64::MAX {
            n + 1
        } else {
            // A chain whose length exhausts the index type cannot report one
            // past it; no machine holds such a chain.
            n
        }
    }

    /// Seals the pending pool into a new block with the given proof value,
    /// used verbatim (as for the genesis block, which skips the search).
    /// The block is stamped with the wall-clock time, linked to the last
    /// sealed block's digest (or the empty sentinel for the genesis block),
    /// appended to the chain, and returned; the pending pool is cleared.
    pub fn new_block(&mut self, proof_value: u64) -> (b: Block)
        ensures
            final(self)@.chain == old(self)@.chain.push(b@),
            final(self)@.pending == Seq::<TransactionData>::empty(),
            final(self)@.difficulty == old(self)@.difficulty,
            final(self)@.max_iterations == old(self)@.max_iterations,
            b@.index == old(self)@.chain.len(),
            b@.transactions == old(self)@.pending,
            b@.proof == proof_value,
            b@.previous_hash == if old(self)@.chain.len() > 0 {
                spec_digest(old(self)@.chain.last())
            } else {
                Seq::<char>::empty()
            },
    {
        proof {
            use_type_invariant(&*self);
        }
        let ghost chain0 = self@.chain;
        let ghost pending0 = self@.pending;
        let timestamp = clock::unix_time_now();
        let previous_hash: String = if self.chain.len() > 0 {
            Self::hash(&self.chain[self.chain.len() - 1])
        } else {
            String::new()
        };
        let index = self.chain.len() as u64;
        let mut transactions: Vec<Transaction> = Vec::new();
        std::mem::swap(&mut transactions, &mut self.current_transactions);
        let block = Block { index, timestamp, transactions, proof: proof_value, previous_hash };
        proof {
            assert(block@.transactions =~= pending0);
        }
        let sealed = block.clone();
        let mut chain: Vec<Block> = Vec::new();
        std::mem::swap(&mut chain, &mut self.chain);
        chain.push(block);
        proof {
            assert(chain.deep_view() =~= chain0.push(sealed@));
            assert forall|i: int| 0 <= i < chain.deep_view().len() implies (#[trigger] chain.deep_view()[
            i]).index == i by {
                if i < chain0.len() {
                    assert(chain0[i].index == i);
                }
            }
            assert forall|i: int| 1 <= i < chain.deep_view().len() implies (#[trigger] chain.deep_view()[
            i]).previous_hash == spec_digest(chain.deep_view()[i - 1]) by {
                if i < chain0.len() {
                    assert(chain0[i].previous_hash == spec_digest(chain0[i - 1]));
                }
            }
        }
        self.chain = chain;
        sealed
    }

    /// Seals the pending pool into a new block whose proof is found by the
    /// proof-of-work search: the smallest candidate within the configured
    /// cutoff whose digest begins with the configured run of zero hex
    /// characters.  On success the block is appended and the pending pool
    /// cleared; if the search exhausts the cutoff the ledger is unchanged.
    pub fn mine_block(&mut self) -> (r: Result<Block, MineError>)
        ensures
            match r {
                Ok(b) => {
                    &&& final(self)@.chain == old(self)@.chain.push(b@)
                    &&& final(self)@.pending == Seq::<TransactionData>::empty()
                    &&& final(self)@.difficulty == old(self)@.difficulty
                    &&& final(self)@.max_iterations == old(self)@.max_iterations
                    &&& b@.index == old(self)@.chain.len()
                    &&& b@.transactions == old(self)@.pending
                    &&& b@.previous_hash == (if old(self)@.chain.len() > 0 {
                        spec_digest(old(self)@.chain.last())
                    } else {
                        Seq::<char>::empty()
                    })
                    &&& b@.proof <= old(self)@.max_iterations
                    &&& starts_with_zeros(spec_digest(b@), old(self)@.difficulty as nat)
                    &&& forall|q: u64|
                        q < b@.proof ==> !spec_valid_proof(old(self)@.difficulty as nat, b@, q)
                },
                Err(e) => {
                    &&& e == MineError::PredicateUnsatisfiable
                    &&& final(self)@ == old(self)@
                    &&& exists|ts: i64|
                        #![trigger candidate_data(old(self)@, ts)]
                        forall|q: u64|
                            q <= old(self)@.max_iterations ==> !spec_valid_proof(
                                old(self)@.difficulty as nat,
                                candidate_data(old(self)@, ts),
                                q,
                            )
                },
            },
    {
        proof {
            use_type_invariant(&*self);
        }
        let ghost chain0 = self@.chain;
        let ghost pending0 = self@.pending;
        let timestamp = clock::unix_time_now();
        let previous_hash: String = if self.chain.len() > 0 {
            Self::hash(&self.chain[self.chain.len() - 1])
        } else {
            String::new()
        };
        let index = self.chain.len() as u64;
        let transactions = clone_transactions(&self.current_transactions);
        let mut block = Block { index, timestamp, transactions, proof: 0, previous_hash };
        proof {
            assert(block@.transactions =~= pending0);
        }
        let ghost candidate_view = block@;
        match self.proof_of_work(&block) {
            Ok(found) => {
                block.proof = found;
                let mut pool: Vec<Transaction> = Vec::new();
                std::mem::swap(&mut pool, &mut self.current_transactions);
                let sealed = block.clone();
                proof {
                    let k = old(self)@.difficulty as nat;
                    assert forall|q: u64| q < found implies !spec_valid_proof(
                        k,
                        sealed@,
                        q,
                    ) by {
                        assert(!spec_valid_proof(k, candidate_view, q));
                        assert(codec::spec_encode_block_at(sealed@.index, sealed@.timestamp,
                            sealed@.transactions, q, sealed@.previous_hash)
                            == codec::spec_encode_block_at(candidate_view.index,
                            candidate_view.timestamp, candidate_view.transactions, q,
                            candidate_view.previous_hash));
                    }
                    assert(spec_digest(sealed@) == spec_digest_at(candidate_view, found));
                    assert(starts_with_zeros(spec_digest(sealed@), k));
                }
                let mut chain: Vec<Block> = Vec::new();
                std::mem::swap(&mut chain, &mut self.chain);
                chain.push(block);
                proof {
                    assert(chain.deep_view() =~= chain0.push(sealed@));
                    assert(self@.pending =~= Seq::<TransactionData>::empty());
                    assert forall|i: int|
                        0 <= i < chain.deep_view().len() implies (#[trigger] chain.deep_view()[i]).index
                        == i by {
                        if i < chain0.len() {
                            assert(chain0[i].index == i);
                        }
                    }
                    assert forall|i: int|
                        1 <= i < chain.deep_view().len() implies (#[trigger] chain.deep_view()[i]).previous_hash
                        == spec_digest(chain.deep_view()[i - 1]) by {
                        if i < chain0.len() {
                            assert(chain0[i].previous_hash == spec_digest(chain0[i - 1]));
                        }
                    }
                }
                self.chain = chain;
                Ok(sealed)
            },
            Err(e) => {
                proof {
                    let k = old(self)@.difficulty as nat;
                    let cand = candidate_data(old(self)@, timestamp);
                    assert(candidate_view.transactions =~= cand.transactions);
                    assert(candidate_view == cand);
                    assert(forall|q: u64|
                        q <= old(self)@.max_iterations ==> !spec_valid_proof(k, cand, q));
                }
                Err(e)
            },
        }
    }

}

/// Chain linkage, block by block: in a well-formed chain, each block after
/// the first records the digest of the block before it, and its index is
/// one past its predecessor's.
pub proof fn lemma_chain_linkage(chain: Seq<BlockData>, i: int)
    ensures
        (chain_well_formed(chain) && 1 <= i < chain.len()) ==> (chain[i].previous_hash
            == spec_digest(chain[i - 1]) && chain[i].index == chain[i - 1].index + 1),
{
}

/// The proof-of-work search is deterministic: a smallest valid proof for a
/// block at a given difficulty is unique, so repeated searches over the same
/// block contents return the same value.
pub proof fn lemma_minimal_proof_unique(k: nat, b: BlockData, p1: u64, p2: u64)
    ensures
        (spec_valid_proof(k, b, p1) && (forall|q: u64| q < p1 ==> !spec_valid_proof(k, b, q))
            && spec_valid_proof(k, b, p2) && (forall|q: u64|
            q < p2 ==> !spec_valid_proof(k, b, q))) ==> p1 == p2,
{
    if spec_valid_proof(k, b, p1) && (forall|q: u64| q < p1 ==> !spec_valid_proof(k, b, q))
        && spec_valid_proof(k, b, p2) && (forall|q: u64| q < p2 ==> !spec_valid_proof(k, b, q)) {
        if p1 < p2 {
            assert(!spec_valid_proof(k, b, p1));
        } else if p2 < p1 {
            assert(!spec_valid_proof(k, b, p2));
        }
    }
}

} // verus!
