use crate::block::{zero_block, Block, BLOCK_SIZE};
use vstd::prelude::*;

verus! {

/// The contents of each block in `blocks`, in order.
pub open spec fn contents(blocks: Seq<Block>) -> Seq<Seq<u8>> {
    blocks.map_values(|b: Block| b@)
}

/// Position of the first entry of `indices` that is not below `count`,
/// or the length of `indices` when every entry is below it.
pub open spec fn first_out_of_range(indices: Seq<usize>, count: nat) -> int
    decreases indices.len(),
{
    if indices.len() == 0 {
        0
    } else {
        let k = first_out_of_range(indices.drop_last(), count);
        if k < indices.len() - 1 {
            k
        } else if (indices.last() as nat) < count {
            indices.len() as int
        } else {
            indices.len() - 1
        }
    }
}

/// The blocks after writing `srcs[j]` to `indices[j]` for each `j < k`, in order.
pub open spec fn apply_writes(
    blocks: Seq<Seq<u8>>,
    indices: Seq<usize>,
    srcs: Seq<Seq<u8>>,
    k: int,
) -> Seq<Seq<u8>>
    decreases k,
{
    if k <= 0 {
        blocks
    } else {
        apply_writes(blocks, indices, srcs, k - 1).update(indices[k - 1] as int, srcs[k - 1])
    }
}

/// `first_out_of_range` is the least position whose index is not below `count`.
pub proof fn lemma_first_out_of_range(indices: Seq<usize>, count: nat)
    ensures
        0 <= first_out_of_range(indices, count) <= indices.len(),
        forall|j: int|
            0 <= j < first_out_of_range(indices, count) ==> (#[trigger] indices[j] as nat) < count,
        first_out_of_range(indices, count) < indices.len() ==> indices[first_out_of_range(
            indices,
            count,
        )] as nat >= count,
    decreases indices.len(),
{
    if indices.len() > 0 {
        let prefix = indices.drop_last();
        lemma_first_out_of_range(prefix, count);
        assert forall|j: int| 0 <= j < prefix.len() implies prefix[j] == indices[j] by {}
    }
}

/// Writing a block and then reading the same index gives back the block written,
/// and the number of blocks stays the same.
pub proof fn lemma_write_then_read(blocks: Seq<Seq<u8>>, index: int, b: Seq<u8>)
    requires
        0 <= index < blocks.len(),
    ensures
        blocks.update(index, b).len() == blocks.len(),
        blocks.update(index, b)[index] == b,
{
}

/// After the first `k` writes of a batch whose indices are all in range, each index holds
/// the block of its last write, and every block that none of them wrote keeps its contents.
pub proof fn lemma_apply_writes(blocks: Seq<Seq<u8>>, indices: Seq<usize>, srcs: Seq<Seq<u8>>, k: int)
    requires
        0 <= k <= indices.len(),
        indices.len() == srcs.len(),
        forall|j: int| 0 <= j < k ==> (#[trigger] indices[j] as nat) < blocks.len(),
    ensures
        apply_writes(blocks, indices, srcs, k).len() == blocks.len(),
        forall|p: int|
            0 <= p < k && (forall|q: int| p < q < k ==> #[trigger] indices[q] != indices[p])
                ==> apply_writes(blocks, indices, srcs, k)[#[trigger] indices[p] as int] == srcs[p],
        forall|b: int|
            0 <= b < blocks.len() && (forall|j: int| 0 <= j < k ==> #[trigger] indices[j] != b)
                ==> #[trigger] apply_writes(blocks, indices, srcs, k)[b] == blocks[b],
    decreases k,
{
    if k > 0 {
        lemma_apply_writes(blocks, indices, srcs, k - 1);
        let before = apply_writes(blocks, indices, srcs, k - 1);
        let after = apply_writes(blocks, indices, srcs, k);
        assert(after == before.update(indices[k - 1] as int, srcs[k - 1]));
        assert forall|p: int|
            0 <= p < k && (forall|q: int| p < q < k ==> #[trigger] indices[q] != indices[p])
                implies after[#[trigger] indices[p] as int] == srcs[p] by {
            if p < k - 1 {
                assert(indices[k - 1] != indices[p]);
            }
        }
        assert forall|b: int|
            0 <= b < blocks.len() && (forall|j: int| 0 <= j < k ==> #[trigger] indices[j] != b)
                implies #[trigger] after[b] == blocks[b] by {
            assert(indices[k - 1] != b);
        }
    }
}

/// A batch write that meets an out-of-range index partway through keeps the writes made
/// before it: each of those indices holds the block of its last write there, and every
/// block that none of them wrote, including those named only after the failing index,
/// keeps its old contents.
pub proof fn lemma_write_blocks_partial(blocks: Seq<Seq<u8>>, indices: Seq<usize>, srcs: Seq<Seq<u8>>)
    requires
        indices.len() == srcs.len(),
    ensures
        ({
            let k = first_out_of_range(indices, blocks.len());
            let after = apply_writes(blocks, indices, srcs, k);
            &&& after.len() == blocks.len()
            &&& forall|p: int|
                0 <= p < k && (forall|q: int| p < q < k ==> #[trigger] indices[q] != indices[p])
                    ==> after[#[trigger] indices[p] as int] == srcs[p]
            &&& forall|b: int|
                0 <= b < blocks.len() && (forall|j: int| 0 <= j < k ==> #[trigger] indices[j] != b)
                    ==> #[trigger] after[b] == blocks[b]
        }),
{
    lemma_first_out_of_range(indices, blocks.len());
    lemma_apply_writes(blocks, indices, srcs, first_out_of_range(indices, blocks.len()));
}

/// A model of a blocked physical storage device.
pub struct Storage {
    blocks: Vec<Block>,
}

impl View for Storage {
    type V = Seq<Seq<u8>>;

    closed spec fn view(&self) -> Seq<Seq<u8>> {
        contents(self.blocks@)
    }
}

/// Errors that block accesses report.
#[derive(Debug, Clone, Copy, PartialEq, Eq, Structural)]
pub enum Error {
    BlockIndexOutOfBounds,
}

impl Storage {
    /// Constructs a zero-initialized storage of the given size in bytes.
    pub fn new(size: usize) -> (r: Self)
        requires
            size % BLOCK_SIZE == 0,
        ensures
            r@.len() == size / BLOCK_SIZE,
            forall|i: int| 0 <= i < r@.len() ==> #[trigger] r@[i] == zero_block(),
    {
        let block_count = size / BLOCK_SIZE;
        let mut blocks: Vec<Block> = Vec::with_capacity(block_count);
        let mut i: usize = 0;
        while i < block_count
            invariant
                i <= block_count,
                blocks@.len() == i,
                forall|j: int| 0 <= j < i ==> #[trigger] blocks@[j]@ == zero_block(),
            decreases block_count - i,
        {
            blocks.push(Block::new());
            i = i + 1;
        }
        Storage { blocks }
    }

    /// Number of blocks, fixed at construction.
    pub fn block_count(&self) -> (r: usize)
        ensures
            r == self@.len(),
    {
        self.blocks.len()
    }

    /// Returns a copy of the block at the given index.
    pub fn read_block(&self, index: usize) -> (r: Result<Block, Error>)
        ensures
            index < self@.len() ==> (r matches Ok(b) && b@ == self@[index as int]),
            index >= self@.len() ==> r == Err::<Block, Error>(Error::BlockIndexOutOfBounds),
    {
        if index < self.blocks.len() {
            Ok(self.blocks[index])
        } else {
            Err(Error::BlockIndexOutOfBounds)
        }
    }

    /// Returns copies of the blocks at the given indices, in the same order.
    /// Fails as a whole if any index is out of range.
    pub fn read_blocks(&self, indices: &[usize]) -> (r: Result<Vec<Block>, Error>)
        ensures
            (forall|j: int| 0 <= j < indices@.len() ==> (#[trigger] indices@[j] as nat) < self@.len())
                ==> (r matches Ok(v) && contents(v@) == indices@.map_values(
                |i: usize| self@[i as int],
            )),
            (exists|j: int| 0 <= j < indices@.len() && (#[trigger] indices@[j] as nat) >= self@.len())
                ==> r == Err::<Vec<Block>, Error>(Error::BlockIndexOutOfBounds),
    {
        let mut blocks: Vec<Block> = Vec::with_capacity(indices.len());
        let mut k: usize = 0;
        while k < indices.len()
            invariant
                k <= indices@.len(),
                blocks@.len() == k,
                forall|j: int| 0 <= j < k ==> (#[trigger] indices@[j] as nat) < self@.len(),
                forall|j: int| 0 <= j < k ==> #[trigger] blocks@[j]@ == self@[indices@[j] as int],
            decreases indices@.len() - k,
        {
            let i = indices[k];
            if i >= self.blocks.len() {
                return Err(Error::BlockIndexOutOfBounds);
            }
            blocks.push(self.blocks[i]);
            k = k + 1;
        }
        assert(contents(blocks@) =~= indices@.map_values(|i: usize| self@[i as int]));
        Ok(blocks)
    }

    /// Overwrites the block at the given index with a copy of `src`.
    pub fn write_block(&mut self, index: usize, src: &Block) -> (r: Result<(), Error>)
        ensures
            index < old(self)@.len() ==> r == Ok::<(), Error>(()) && final(self)@ == old(
                self,
            )@.update(index as int, src@),
            index >= old(self)@.len() ==> r == Err::<(), Error>(Error::BlockIndexOutOfBounds)
                && final(self)@ == old(self)@,
    {
        if index < self.blocks.len() {
            self.blocks.set(index, *src);
            assert(self@ =~= old(self)@.update(index as int, src@));
            Ok(())
        } else {
            Err(Error::BlockIndexOutOfBounds)
        }
    }

    /// Writes `srcs[j]` to the block at `indices[j]`, in order. Stops at the first
    /// index that is out of range and reports it; the writes before it stay applied.
    pub fn write_blocks(&mut self, indices: &[usize], srcs: &[Block]) -> (r: Result<(), Error>)
        requires
            indices@.len() == srcs@.len(),
        ensures
            final(self)@ == apply_writes(
                old(self)@,
                indices@,
                contents(srcs@),
                first_out_of_range(indices@, old(self)@.len()),
            ),
            first_out_of_range(indices@, old(self)@.len()) == indices@.len() ==> r == Ok::<
                (),
                Error,
            >(()),
            first_out_of_range(indices@, old(self)@.len()) < indices@.len() ==> r == Err::<
                (),
                Error,
            >(Error::BlockIndexOutOfBounds),
    {
        let ghost count = old(self)@.len();
        let ghost srcv = contents(srcs@);
        proof {
            lemma_first_out_of_range(indices@, count);
        }
        let mut k: usize = 0;
        while k < indices.len()
            invariant
                k <= indices@.len(),
                indices@.len() == srcs@.len(),
                count == old(self)@.len(),
                srcv == contents(srcs@),
                self@.len() == count,
                forall|j: int| 0 <= j < k ==> (#[trigger] indices@[j] as nat) < count,
                self@ == apply_writes(old(self)@, indices@, srcv, k as int),
                0 <= first_out_of_range(indices@, count) <= indices@.len(),
                forall|j: int|
                    0 <= j < first_out_of_range(indices@, count) ==> (#[trigger] indices@[j] as nat)
                        < count,
                first_out_of_range(indices@, count) < indices@.len() ==> indices@[first_out_of_range(
                    indices@,
                    count,
                )] as nat >= count,
            decreases indices@.len() - k,
        {
            match self.write_block(indices[k], &srcs[k]) {
                Ok(()) => {},
                Err(e) => {
                    return Err(e);
                },
            }
            k = k + 1;
        }
        Ok(())
    }
}

} // verus!
