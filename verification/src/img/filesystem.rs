//! Block allocation of the IMG container.
use vstd::prelude::*;
use crate::error::ImgError;
use crate::strings::{decimal, push_decimal, push_text};

verus! {

/// Highest block number a directory entry can hold.
pub const MAX_BLOCK: u32 = 0xFFFE;

/// Sequential block allocator.
pub struct BlockManager {
    block_size: u32,
    current_block: u32,
    max_block: u32,
}

/// The message of a block overflow at block `n`.
pub open spec fn block_overflow_text(n: u32, max: u32) -> Seq<char> {
    "Block overflow: "@ + decimal(n as nat) + " > max "@ + decimal(max as nat) + ". Use larger block size."@
}

/// Size of one directory entry, in bytes.
pub const ENTRY_SIZE: usize = 512;

/// Number of block numbers one directory entry can list.
pub const TABLE_SIZE: usize = 240;

/// Largest block size tried, 16 MiB.
pub const MAX_BLOCK_SIZE: u32 = 0x1000000;

/// Bytes in front of the files: two 512-byte header blocks and the
/// directory, counting one and a half entries per file and one for the header.
pub open spec fn fs_overhead(num_files: int) -> int {
    2 * 512 + (num_files + num_files / 2 + 1) * ENTRY_SIZE
}

/// Whether blocks of `bs` bytes keep the header within one block table and
/// the whole image within the block numbers.
pub open spec fn block_size_fits(overhead: int, total: int, bs: int) -> bool {
    &&& (overhead + bs - 1) / bs <= TABLE_SIZE
    &&& (total + bs - 1) / bs <= MAX_BLOCK as int
}

/// The first of `bs`, `2 bs`, `4 bs`, ... up to 16 MiB that fits; 16 MiB
/// when none does.
pub open spec fn first_fitting_block_size(overhead: int, total: int, bs: int) -> int
    decreases MAX_BLOCK_SIZE - bs,
{
    if bs <= 0 || block_size_fits(overhead, total, bs) || bs * 2 > MAX_BLOCK_SIZE {
        bs
    } else {
        first_fitting_block_size(overhead, total, bs * 2)
    }
}

/// The block size of an image holding `num_files` files of
/// `total_file_size` bytes in all: the smallest power of two from 1024 up
/// that fits, or 16 MiB.
pub open spec fn spec_calc_block_size(total_file_size: int, num_files: int) -> int {
    first_fitting_block_size(fs_overhead(num_files), total_file_size + fs_overhead(num_files), 1024)
}

/// The first fitting size from `bs` on is `bs` times a power of two, at
/// most 16 MiB; it fits unless it is 16 MiB; no size it skipped fits.
pub proof fn lemma_first_fitting_block_size(overhead: int, total: int, bs: int)
    requires
        1 <= bs <= MAX_BLOCK_SIZE,
    ensures
        ({
            let r = first_fitting_block_size(overhead, total, bs);
            &&& bs <= r <= MAX_BLOCK_SIZE
            &&& exists|k: nat| r == bs * vstd::arithmetic::power2::pow2(k)
            &&& (block_size_fits(overhead, total, r) || r * 2 > MAX_BLOCK_SIZE)
            &&& forall|k: nat| bs * vstd::arithmetic::power2::pow2(k) < r
                ==> !block_size_fits(overhead, total, #[trigger] (bs * vstd::arithmetic::power2::pow2(k)))
        }),
    decreases MAX_BLOCK_SIZE - bs,
{
    let r = first_fitting_block_size(overhead, total, bs);
    vstd::arithmetic::power2::lemma2_to64();
    if block_size_fits(overhead, total, bs) || bs * 2 > MAX_BLOCK_SIZE {
        assert(r == bs * vstd::arithmetic::power2::pow2(0));
        assert forall|k: nat| bs * vstd::arithmetic::power2::pow2(k) < r
            implies !block_size_fits(overhead, total, #[trigger] (bs * vstd::arithmetic::power2::pow2(k))) by {
            vstd::arithmetic::power2::lemma_pow2_pos(k);
            assert(bs * vstd::arithmetic::power2::pow2(k) >= bs) by (nonlinear_arith)
                requires bs >= 1, vstd::arithmetic::power2::pow2(k) >= 1;
        }
    } else {
        lemma_first_fitting_block_size(overhead, total, bs * 2);
        let k0 = choose|k: nat| r == bs * 2 * vstd::arithmetic::power2::pow2(k);
        vstd::arithmetic::power2::lemma_pow2_adds(1, k0);
        assert(r == bs * vstd::arithmetic::power2::pow2(k0 + 1)) by (nonlinear_arith)
            requires
                r == bs * 2 * vstd::arithmetic::power2::pow2(k0),
                vstd::arithmetic::power2::pow2(k0 + 1) == vstd::arithmetic::power2::pow2(1) * vstd::arithmetic::power2::pow2(k0),
                vstd::arithmetic::power2::pow2(1) == 2;
        assert forall|k: nat| bs * vstd::arithmetic::power2::pow2(k) < r
            implies !block_size_fits(overhead, total, #[trigger] (bs * vstd::arithmetic::power2::pow2(k))) by {
            if k == 0 {
                assert(bs * vstd::arithmetic::power2::pow2(0) == bs);
            } else {
                let j = (k - 1) as nat;
                vstd::arithmetic::power2::lemma_pow2_adds(1, j);
                assert(bs * vstd::arithmetic::power2::pow2(k) == bs * 2 * vstd::arithmetic::power2::pow2(j)) by (nonlinear_arith)
                    requires
                        k == j + 1,
                        vstd::arithmetic::power2::pow2(j + 1) == vstd::arithmetic::power2::pow2(1) * vstd::arithmetic::power2::pow2(j),
                        vstd::arithmetic::power2::pow2(1) == 2;
                assert(!block_size_fits(overhead, total, bs * 2 * vstd::arithmetic::power2::pow2(j)));
            }
        }
    }
}

/// The chosen block size is a power of two from 1024 to 16 MiB; it keeps
/// the header within one block table and the image within the block
/// numbers unless it is 16 MiB, and no smaller such size does.
pub proof fn lemma_calc_block_size_least(total_file_size: nat, num_files: nat)
    ensures
        ({
            let o = fs_overhead(num_files as int);
            let t = total_file_size + o;
            let r = spec_calc_block_size(total_file_size as int, num_files as int);
            &&& 1024 <= r <= MAX_BLOCK_SIZE
            &&& exists|k: nat| r == 1024 * vstd::arithmetic::power2::pow2(k)
            &&& (block_size_fits(o, t, r) || r == MAX_BLOCK_SIZE)
            &&& forall|k: nat| 1024 * vstd::arithmetic::power2::pow2(k) < r
                ==> !block_size_fits(o, t, #[trigger] ((1024 * vstd::arithmetic::power2::pow2(k)) as int))
        }),
{
    let o = fs_overhead(num_files as int);
    let t = total_file_size + o;
    lemma_first_fitting_block_size(o, t, 1024);
    let r = spec_calc_block_size(total_file_size as int, num_files as int);
    vstd::arithmetic::power2::lemma2_to64();
    if !block_size_fits(o, t, r) {
        let k = choose|k: nat| r == 1024 * vstd::arithmetic::power2::pow2(k);
        if k < 14 {
            vstd::arithmetic::power2::lemma_pow2_adds(k, 1);
            if k + 1 < 14 {
                vstd::arithmetic::power2::lemma_pow2_strictly_increases(k + 1, 14);
            }
            assert(r * 2 <= MAX_BLOCK_SIZE) by (nonlinear_arith)
                requires
                    r == 1024 * vstd::arithmetic::power2::pow2(k),
                    vstd::arithmetic::power2::pow2(k + 1) == vstd::arithmetic::power2::pow2(k) * vstd::arithmetic::power2::pow2(1),
                    vstd::arithmetic::power2::pow2(1) == 2,
                    vstd::arithmetic::power2::pow2(k + 1) <= vstd::arithmetic::power2::pow2(14),
                    vstd::arithmetic::power2::pow2(14) == 0x4000;
        } else {
            if k > 14 {
                vstd::arithmetic::power2::lemma_pow2_strictly_increases(14, k);
            }
            assert(r >= MAX_BLOCK_SIZE) by (nonlinear_arith)
                requires
                    r == 1024 * vstd::arithmetic::power2::pow2(k),
                    vstd::arithmetic::power2::pow2(k) >= vstd::arithmetic::power2::pow2(14),
                    vstd::arithmetic::power2::pow2(14) == 0x4000;
        }
    }
    assert forall|k: nat| 1024 * vstd::arithmetic::power2::pow2(k) < r
        implies !block_size_fits(o, t, #[trigger] ((1024 * vstd::arithmetic::power2::pow2(k)) as int)) by {
        assert(1024 * vstd::arithmetic::power2::pow2(k) == (1024int * vstd::arithmetic::power2::pow2(k)));
    }
}

/// Choose the block size of an image holding `num_files` files of
/// `total_file_size` bytes in all.
pub fn calc_block_size(total_file_size: usize, num_files: usize) -> (r: u32)
    requires
        total_file_size + fs_overhead(num_files as int) + MAX_BLOCK_SIZE <= u32::MAX,
    ensures
        r == spec_calc_block_size(total_file_size as int, num_files as int),
{
    let dir_entries = num_files + num_files / 2 + 1;
    let dir_size = dir_entries * ENTRY_SIZE;
    let header_size: usize = 2 * 512;
    let overhead = header_size + dir_size;
    let total = total_file_size + overhead;
    let ghost o = overhead as int;
    let ghost t = total as int;
    let mut block_size: u32 = 1024;
    assert(first_fitting_block_size(o, t, 1024) == spec_calc_block_size(total_file_size as int, num_files as int));
    loop
        invariant
            1024 <= block_size <= MAX_BLOCK_SIZE,
            o == overhead,
            t == total,
            t + MAX_BLOCK_SIZE <= u32::MAX,
            o <= t,
            first_fitting_block_size(o, t, block_size as int)
                == spec_calc_block_size(total_file_size as int, num_files as int),
        decreases MAX_BLOCK_SIZE - block_size,
    {
        let header_blocks = (overhead as u32 + block_size - 1) / block_size;
        let total_blocks = (total as u32 + block_size - 1) / block_size;
        if header_blocks <= TABLE_SIZE as u32 && total_blocks <= MAX_BLOCK {
            return block_size;
        }
        if block_size > MAX_BLOCK_SIZE / 2 {
            return block_size;
        }
        block_size = block_size * 2;
    }
}

impl BlockManager {
    #[verifier::type_invariant]
    spec fn inv(&self) -> bool {
        self.max_block == MAX_BLOCK
    }

    /// Size of one block, in bytes.
    pub closed spec fn spec_block_size(&self) -> u32 {
        self.block_size
    }

    /// The next block to hand out.
    pub closed spec fn spec_current_block(&self) -> u32 {
        self.current_block
    }

    /// The last block that can be handed out.
    pub closed spec fn spec_max_block(&self) -> u32 {
        self.max_block
    }

    /// An allocator of blocks of `block_size` bytes whose first block is `initial_block`.
    pub fn new(block_size: u32, initial_block: u32) -> (m: Self)
        ensures
            m.spec_block_size() == block_size,
            m.spec_current_block() == initial_block,
            m.spec_max_block() == MAX_BLOCK,
    {
        BlockManager { block_size, current_block: initial_block, max_block: MAX_BLOCK }
    }

    /// Hand out the next block, or fail past the last block number.
    pub fn allocate(&mut self) -> (r: Result<u16, ImgError>)
        ensures
            old(self).spec_current_block() <= old(self).spec_max_block() ==> {
                &&& r == Ok::<u16, ImgError>(old(self).spec_current_block() as u16)
                &&& final(self).spec_current_block() == old(self).spec_current_block() + 1
            },
            old(self).spec_current_block() > old(self).spec_max_block() ==> {
                &&& r matches Err(ImgError::BlockOverflow(msg))
                &&& msg@ == block_overflow_text(old(self).spec_current_block(), old(self).spec_max_block())
                &&& final(self).spec_current_block() == old(self).spec_current_block()
            },
            final(self).spec_block_size() == old(self).spec_block_size(),
            final(self).spec_max_block() == old(self).spec_max_block(),
    {
        proof {
            use_type_invariant(&*self);
        }
        let n = self.current_block;
        if n > self.max_block {
            let mut msg = String::new();
            push_text(&mut msg, "Block overflow: ");
            push_decimal(&mut msg, n);
            push_text(&mut msg, " > max ");
            push_decimal(&mut msg, self.max_block);
            push_text(&mut msg, ". Use larger block size.");
            assert(msg@ =~= block_overflow_text(n, self.max_block));
            return Err(ImgError::BlockOverflow(msg));
        }
        self.current_block += 1;
        Ok(n as u16)
    }

    pub fn block_size(&self) -> (r: u32)
        ensures
            r == self.spec_block_size(),
    {
        self.block_size
    }

    pub fn current_block(&self) -> (r: u32)
        ensures
            r == self.spec_current_block(),
    {
        self.current_block
    }
}

} // verus!
