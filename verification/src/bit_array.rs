use vstd::prelude::*;

verus! {

/// Bits per storage block.
pub const BITS_PER_BLOCK: usize = 64;

/// The value of bit `i` of a block sequence.
pub open spec fn bit_get(blocks: Seq<u64>, i: int) -> bool {
    (blocks[i / 64] >> ((i % 64) as u64)) & 1 == 1
}

/// Reads one bit of a packed bit string.
pub fn get_bit(blocks: &Vec<u64>, bit_count: usize, bit_index: usize) -> (r: bool)
    requires
        bit_index < bit_count,
        bit_count <= blocks@.len() * 64,
    ensures
        r == bit_get(blocks@, bit_index as int),
{
    let in_block_offset = bit_index % 64;
    let block_index = bit_index / 64;
    proof {
        assert(bit_index as int / 64 < blocks@.len()) by (nonlinear_arith)
            requires
                bit_index < blocks@.len() * 64,
        ;
    }
    let block = blocks[block_index];
    (block >> (in_block_offset as u64)) & 1 == 1
}

/// Writes one bit of a packed bit string, leaving every other bit as it
/// was.
pub fn set_bit(blocks: &mut Vec<u64>, bit_count: usize, bit_index: usize, value: bool)
    requires
        bit_index < bit_count,
        bit_count <= old(blocks)@.len() * 64,
    ensures
        final(blocks)@.len() == old(blocks)@.len(),
        bit_get(final(blocks)@, bit_index as int) == value,
        forall|j: int|
            0 <= j < old(blocks)@.len() * 64 && j != bit_index as int ==> #[trigger] bit_get(
                final(blocks)@,
                j,
            ) == bit_get(old(blocks)@, j),
{
    let in_block_offset = bit_index % 64;
    let block_index = bit_index / 64;
    proof {
        assert(bit_index as int / 64 < blocks@.len()) by (nonlinear_arith)
            requires
                bit_index < blocks@.len() * 64,
        ;
    }
    let block = blocks[block_index];
    let bit_value: u64 = if value {
        1
    } else {
        0
    };
    let shifted_value = bit_value << (in_block_offset as u64);
    let new_block = (block & (!(1u64 << (in_block_offset as u64)))) | shifted_value;
    blocks[block_index] = new_block;
    proof {
        let off = in_block_offset as u64;
        assert((((block & (!(1u64 << off))) | (bit_value << off)) >> off) & 1 == bit_value)
            by (bit_vector)
            requires
                off < 64,
                bit_value == 0 || bit_value == 1,
        ;
        assert forall|j: int|
            0 <= j < old(blocks)@.len() * 64 && j != bit_index as int implies #[trigger] bit_get(
            blocks@,
            j,
        ) == bit_get(old(blocks)@, j) by {
            if j / 64 == bit_index as int / 64 {
                let joff = (j % 64) as u64;
                assert(0 <= j % 64 < 64) by (nonlinear_arith);
                assert(j / 64 * 64 + j % 64 == j) by (nonlinear_arith);
                assert(joff != off);
                assert(((((block & (!(1u64 << off))) | (bit_value << off)) >> joff) & 1) == ((
                block >> joff) & 1)) by (bit_vector)
                    requires
                        off < 64,
                        joff < 64,
                        joff != off,
                        bit_value == 0 || bit_value == 1,
                ;
            }
        }
    }
}

/// A fixed-size packed bit string.
pub struct BitArray<const BLOCK_COUNT: usize> {
    pub bit_count: usize,
    pub blocks: [u64; BLOCK_COUNT],
}

impl<const BLOCK_COUNT: usize> BitArray<BLOCK_COUNT> {
    /// An all-zero bit string of the given length.
    pub fn zero(bit_count: usize) -> (r: Self)
        ensures
            r.bit_count == bit_count,
            forall|i: int| 0 <= i < BLOCK_COUNT as int ==> (#[trigger] r.blocks@[i]) == 0,
    {
        let blocks: [u64; BLOCK_COUNT] = [0; BLOCK_COUNT];
        BitArray { bit_count, blocks }
    }
}

/// A growable packed bit string.
pub struct BitVec {
    pub bit_count: usize,
    pub blocks: Vec<u64>,
}

} // verus!
