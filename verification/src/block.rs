//! Blocks and the chain: headers carry the parent hash, a timestamp and the
//! digest of the contained transaction hashes; the chain is append-only,
//! every block's `prev_hash` is the hash of its parent, and the genesis
//! block's `prev_hash` is all zeros.

use vstd::prelude::*;
use crate::codec;
use crate::crypto;
use crate::strutil;
use crate::tx::{tx_hash_spec, SignedTransaction};

verus! {

/// Why a block was refused.
#[derive(PartialEq, Eq, Structural, Clone, Copy, Debug)]
pub enum ChainError {
    /// The block's height is not the next height.
    WrongHeight,
    /// The block's parent hash is not the hash of the last block.
    WrongParent,
}

/// A block header.
pub struct BlockHeader {
    pub height: u64,
    pub prev_hash: Vec<u8>,
    pub timestamp: u64,
    pub tx_root: Vec<u8>,
}

/// A block: header and the transactions it contains, in execution order.
pub struct Block {
    pub header: BlockHeader,
    pub transactions: Vec<SignedTransaction>,
}

/// The 32-byte all-zero digest.
pub open spec fn zero_hash() -> Seq<u8> {
    Seq::new(32, |i: int| 0u8)
}

/// The canonical bytes of a header.
pub open spec fn enc_header(height: u64, prev_hash: Seq<u8>, timestamp: u64, tx_root: Seq<u8>) -> Seq<
    u8,
> {
    codec::enc_u64(height) + prev_hash + codec::enc_u64(timestamp) + tx_root
}

/// The hash of a block: the SHA-256 digest of its header bytes.
pub open spec fn block_hash_spec(b: Block) -> Seq<u8> {
    crypto::sha256_spec(
        enc_header(b.header.height, b.header.prev_hash@, b.header.timestamp, b.header.tx_root@),
    )
}

/// The concatenation of the hashes of the given transactions, in order.
pub open spec fn hashes_cat(txs: Seq<SignedTransaction>) -> Seq<u8>
    decreases txs.len(),
{
    if txs.len() == 0 {
        Seq::empty()
    } else {
        tx_hash_spec(txs[0].transaction@) + hashes_cat(txs.drop_first())
    }
}

/// The transaction root: the digest of the concatenated transaction hashes.
pub open spec fn tx_root_spec(txs: Seq<SignedTransaction>) -> Seq<u8> {
    crypto::sha256_spec(hashes_cat(txs))
}

/// Appending one transaction extends the hash run by its hash.
pub proof fn lemma_hashes_cat_snoc(txs: Seq<SignedTransaction>, t: SignedTransaction)
    ensures
        hashes_cat(txs.push(t)) == hashes_cat(txs) + tx_hash_spec(t.transaction@),
    decreases txs.len(),
{
    if txs.len() == 0 {
        assert(txs.push(t).drop_first() =~= txs);
        assert(txs.push(t)[0] == t);
        assert(hashes_cat(txs) + tx_hash_spec(t.transaction@) =~= tx_hash_spec(t.transaction@)
            + Seq::<u8>::empty());
        assert(tx_hash_spec(t.transaction@) + Seq::<u8>::empty() =~= tx_hash_spec(t.transaction@));
    } else {
        lemma_hashes_cat_snoc(txs.drop_first(), t);
        assert(txs.push(t).drop_first() =~= txs.drop_first().push(t));
        assert(txs.push(t)[0] == txs[0]);
        assert(tx_hash_spec(txs[0].transaction@) + (hashes_cat(txs.drop_first()) + tx_hash_spec(
            t.transaction@,
        )) =~= (tx_hash_spec(txs[0].transaction@) + hashes_cat(txs.drop_first())) + tx_hash_spec(
            t.transaction@,
        ));
    }
}

/// Compute the transaction root of a batch.
pub fn compute_tx_root(txs: &Vec<SignedTransaction>) -> (r: Vec<u8>)
    requires
        forall|i: int| 0 <= i < txs@.len() ==> (#[trigger] txs@[i]).wf(),
    ensures
        r@ == tx_root_spec(txs@),
        r@.len() == 32,
{
    let mut cat: Vec<u8> = Vec::new();
    let n = txs.len();
    let mut i: usize = 0;
    while i < n
        invariant
            i <= n,
            n == txs@.len(),
            forall|j: int| 0 <= j < txs@.len() ==> (#[trigger] txs@[j]).wf(),
            cat@ == hashes_cat(txs@.take(i as int)),
        decreases n - i,
    {
        let h = txs[i].hash();
        proof {
            lemma_hashes_cat_snoc(txs@.take(i as int), txs@[i as int]);
            assert(txs@.take(i + 1) =~= txs@.take(i as int).push(txs@[i as int]));
        }
        let mut k: usize = 0;
        let ghost pre = cat@;
        while k < 32
            invariant
                k <= 32,
                h@.len() == 32,
                cat@ == pre + h@.take(k as int),
            decreases 32 - k,
        {
            cat.push(h[k]);
            proof {
                assert(cat@ =~= pre + h@.take(k + 1));
            }
            k = k + 1;
        }
        proof {
            assert(h@.take(32) =~= h@);
        }
        i = i + 1;
    }
    proof {
        assert(txs@.take(n as int) =~= txs@);
    }
    crypto::sha256(&cat)
}

impl Block {
    /// Well-formed: 32-byte digests and well-formed transactions, with the
    /// root matching the contained transactions.
    pub open spec fn wf(&self) -> bool {
        &&& self.header.prev_hash@.len() == 32
        &&& self.header.tx_root@.len() == 32
        &&& self.header.tx_root@ == tx_root_spec(self.transactions@)
        &&& forall|i: int| 0 <= i < self.transactions@.len() ==> (#[trigger] self.transactions@[i]).wf()
    }

    /// Build a block over a batch of transactions, computing its root.
    pub fn new(height: u64, prev_hash: Vec<u8>, timestamp: u64, transactions: Vec<
        SignedTransaction,
    >) -> (b: Block)
        requires
            prev_hash@.len() == 32,
            forall|i: int| 0 <= i < transactions@.len() ==> (#[trigger] transactions@[i]).wf(),
        ensures
            b.header.height == height,
            b.header.prev_hash@ == prev_hash@,
            b.header.timestamp == timestamp,
            b.transactions@ == transactions@,
            b.wf(),
    {
        let tx_root = compute_tx_root(&transactions);
        Block { header: BlockHeader { height, prev_hash, timestamp, tx_root }, transactions }
    }

    /// The block hash.
    pub fn hash(&self) -> (h: Vec<u8>)
        requires
            self.header.prev_hash@.len() == 32,
            self.header.tx_root@.len() == 32,
        ensures
            h@ == block_hash_spec(*self),
            h@.len() == 32,
    {
        let mut bytes: Vec<u8> = Vec::new();
        codec::write_u64(self.header.height, &mut bytes);
        let mut i: usize = 0;
        let ghost pre = bytes@;
        while i < 32
            invariant
                i <= 32,
                self.header.prev_hash@.len() == 32,
                bytes@ == pre + self.header.prev_hash@.take(i as int),
            decreases 32 - i,
        {
            bytes.push(self.header.prev_hash[i]);
            proof {
                assert(bytes@ =~= pre + self.header.prev_hash@.take(i + 1));
            }
            i = i + 1;
        }
        codec::write_u64(self.header.timestamp, &mut bytes);
        let mut i: usize = 0;
        let ghost pre2 = bytes@;
        while i < 32
            invariant
                i <= 32,
                self.header.tx_root@.len() == 32,
                bytes@ == pre2 + self.header.tx_root@.take(i as int),
            decreases 32 - i,
        {
            bytes.push(self.header.tx_root[i]);
            proof {
                assert(bytes@ =~= pre2 + self.header.tx_root@.take(i + 1));
            }
            i = i + 1;
        }
        proof {
            assert(self.header.prev_hash@.take(32) =~= self.header.prev_hash@);
            assert(self.header.tx_root@.take(32) =~= self.header.tx_root@);
            assert(bytes@ =~= enc_header(
                self.header.height,
                self.header.prev_hash@,
                self.header.timestamp,
                self.header.tx_root@,
            ));
        }
        crypto::sha256(&bytes)
    }
}

/// The chain invariant: heights are positions, the genesis parent is all
/// zeros, and every later block's parent hash is the hash of the block
/// before it.
pub open spec fn chain_wf(blocks: Seq<Block>) -> bool {
    &&& blocks.len() >= 1
    &&& forall|i: int| 0 <= i < blocks.len() ==> (#[trigger] blocks[i]).header.height == i
    &&& forall|i: int| 0 <= i < blocks.len() ==> (#[trigger] blocks[i]).wf()
    &&& blocks[0].header.prev_hash@ == zero_hash()
    &&& forall|i: int|
        1 <= i < blocks.len() ==> (#[trigger] blocks[i]).header.prev_hash@ == block_hash_spec(
            blocks[i - 1],
        )
}

/// The append-only chain of blocks.
pub struct Blockchain {
    pub blocks: Vec<Block>,
}

impl Blockchain {
    /// The chain invariant.
    pub open spec fn wf(&self) -> bool {
        chain_wf(self.blocks@)
    }

    /// A fresh chain holding only the genesis block: height zero, an
    /// all-zero parent hash, no transactions.
    pub fn new() -> (c: Blockchain)
        ensures
            c.wf(),
            c.blocks@.len() == 1,
            c.blocks@[0].transactions@.len() == 0,
    {
        let mut prev_hash: Vec<u8> = Vec::new();
        let mut i: usize = 0;
        while i < 32
            invariant
                i <= 32,
                prev_hash@.len() == i,
                forall|j: int| 0 <= j < i ==> prev_hash@[j] == 0u8,
            decreases 32 - i,
        {
            prev_hash.push(0);
            i = i + 1;
        }
        proof {
            assert(prev_hash@ =~= zero_hash());
        }
        let genesis = Block::new(0, prev_hash, 0, Vec::new());
        let mut blocks: Vec<Block> = Vec::new();
        blocks.push(genesis);
        Blockchain { blocks }
    }

    /// The height of the chain: the height of its last block.
    pub fn height(&self) -> (h: u64)
        requires
            self.wf(),
        ensures
            h as int == self.blocks@.len() - 1,
    {
        self.blocks.len() as u64 - 1
    }

    /// The last block.
    pub fn latest_block(&self) -> (b: &Block)
        requires
            self.wf(),
        ensures
            *b == self.blocks@.last(),
    {
        &self.blocks[self.blocks.len() - 1]
    }

    /// The block at a height, O(1).
    pub fn get_block(&self, height: u64) -> (r: Option<&Block>)
        requires
            self.wf(),
        ensures
            r is Some <==> height < self.blocks@.len(),
            r is Some ==> *r->0 == self.blocks@[height as int],
    {
        if height < self.blocks.len() as u64 {
            Some(&self.blocks[height as usize])
        } else {
            None
        }
    }

    /// Append a block. The block must carry the next height and the hash of
    /// the current last block as its parent.
    pub fn add_block(&mut self, block: Block) -> (r: Result<(), ChainError>)
        requires
            old(self).wf(),
            block.wf(),
        ensures
            final(self).wf(),
            r is Ok <==> block.header.height == old(self).blocks@.len()
                && block.header.prev_hash@ == block_hash_spec(old(self).blocks@.last()),
            r is Ok ==> final(self).blocks@ == old(self).blocks@.push(block),
            r is Err ==> *final(self) == *old(self),
    {
        if block.header.height != self.blocks.len() as u64 {
            return Err(ChainError::WrongHeight);
        }
        let tip_hash = self.latest_block().hash();
        if !strutil::bytes_eq(&block.header.prev_hash, &tip_hash) {
            return Err(ChainError::WrongParent);
        }
        let ghost pre = self.blocks@;
        self.blocks.push(block);
        proof {
            assert(forall|i: int| 0 <= i < pre.len() ==> self.blocks@[i] == pre[i]);
            assert(self.blocks@.last() == block);
            assert(chain_wf(self.blocks@));
        }
        Ok(())
    }

    /// The total number of transactions across all blocks, saturating at
    /// `usize::MAX`.
    pub fn get_transaction_count(&self) -> (n: usize)
        requires
            self.wf(),
        ensures
            spec_tx_count(self.blocks@) <= usize::MAX ==> n as int == spec_tx_count(self.blocks@),
            n as int <= spec_tx_count(self.blocks@),
    {
        let mut total: usize = 0;
        let n = self.blocks.len();
        let mut i: usize = 0;
        while i < n
            invariant
                i <= n,
                n == self.blocks@.len(),
                spec_tx_count(self.blocks@.take(i as int)) <= usize::MAX ==> total as int
                    == spec_tx_count(self.blocks@.take(i as int)),
                total as int <= spec_tx_count(self.blocks@.take(i as int)),
            decreases n - i,
        {
            proof {
                assert(self.blocks@.take(i + 1).drop_last() =~= self.blocks@.take(i as int));
                assert(self.blocks@.take(i + 1).last() == self.blocks@[i as int]);
            }
            let c = self.blocks[i].transactions.len();
            if total > usize::MAX - c {
                total = usize::MAX;
            } else {
                total = total + c;
            }
            i = i + 1;
        }
        proof {
            assert(self.blocks@.take(n as int) =~= self.blocks@);
        }
        total
    }
}

/// The number of transactions across a sequence of blocks.
pub open spec fn spec_tx_count(blocks: Seq<Block>) -> int
    decreases blocks.len(),
{
    if blocks.len() == 0 {
        0
    } else {
        spec_tx_count(blocks.drop_last()) + blocks.last().transactions@.len()
    }
}

/// Every block of a well-formed chain names its parent: block `i` carries
/// the hash of block `i - 1`, and the genesis block carries all zeros.
pub proof fn lemma_chain_linked(c: Blockchain)
    requires
        c.wf(),
    ensures
        c.blocks@[0].header.prev_hash@ == zero_hash(),
        forall|i: int|
            1 <= i < c.blocks@.len() ==> (#[trigger] c.blocks@[i]).header.prev_hash@
                == block_hash_spec(c.blocks@[i - 1]),
{
}

} // verus!
