use vstd::prelude::*;
use zerocopy::FromBytes;

verus! {

/// Block size specified in bytes.
pub const BLOCK_SIZE: usize = 4096;

/// The contents of an all-zero block.
pub open spec fn zero_block() -> Seq<u8> {
    Seq::new(BLOCK_SIZE as nat, |i: int| 0u8)
}

/// The `k`-th block-sized chunk of `bytes`.
pub open spec fn chunk(bytes: Seq<u8>, k: int) -> Seq<u8> {
    bytes.subrange(k * BLOCK_SIZE as int, (k + 1) * BLOCK_SIZE as int)
}

/// A fixed-sized byte sequence.
#[derive(Clone, Copy)]
pub struct Block {
    pub data: [u8; BLOCK_SIZE],
}

impl View for Block {
    type V = Seq<u8>;

    open spec fn view(&self) -> Seq<u8> {
        self.data@
    }
}

/// Relies on zerocopy's `FromBytes::ref_from_bytes` for `[[u8; N]]`: a byte slice whose
/// length is a multiple of the element size is viewed, in order and without copying,
/// as a slice of byte arrays. Byte arrays have alignment 1, so the cast cannot fail.
#[verifier::external_body]
fn cast_to_arrays(bytes: &[u8]) -> (r: &[[u8; BLOCK_SIZE]])
    requires
        bytes@.len() % (BLOCK_SIZE as nat) == 0,
    ensures
        r@.len() * BLOCK_SIZE == bytes@.len(),
        forall|k: int| 0 <= k < r@.len() ==> #[trigger] r@[k]@ == chunk(bytes@, k),
{
    <[[u8; BLOCK_SIZE]]>::ref_from_bytes(bytes).unwrap()
}

impl Block {
    /// Constructs a zero-initialized block.
    pub fn new() -> (r: Self)
        ensures
            r@ == zero_block(),
    {
        let r = Block { data: [0u8; BLOCK_SIZE] };
        assert(r@ =~= zero_block());
        r
    }

    /// Splits a byte slice into consecutive blocks, each holding a copy of its chunk.
    pub fn slice_from_bytes(bytes: &[u8]) -> (r: Vec<Block>)
        requires
            bytes@.len() % (BLOCK_SIZE as nat) == 0,
        ensures
            r@.len() * BLOCK_SIZE == bytes@.len(),
            forall|k: int| 0 <= k < r@.len() ==> #[trigger] r@[k]@ == chunk(bytes@, k),
    {
        let arrays = cast_to_arrays(bytes);
        let mut r: Vec<Block> = Vec::with_capacity(arrays.len());
        let mut k: usize = 0;
        while k < arrays.len()
            invariant
                k <= arrays@.len(),
                arrays@.len() * BLOCK_SIZE == bytes@.len(),
                forall|j: int| 0 <= j < arrays@.len() ==> #[trigger] arrays@[j]@ == chunk(bytes@, j),
                r@.len() == k,
                forall|j: int| 0 <= j < k ==> #[trigger] r@[j]@ == chunk(bytes@, j),
            decreases arrays@.len() - k,
        {
            r.push(Block { data: arrays[k] });
            k = k + 1;
        }
        r
    }
}

} // verus!
