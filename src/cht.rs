//! Addressing of canonical hash tries: which fixed-size range covers a block.
use vstd::prelude::*;
use crate::types::AddressingError;

verus! {

/// The agreed number of blocks in one range of the header CHT.
pub const SIZE: u64 = 2048;

/// The number of the range of `cht_size` blocks that covers `block`; ranges
/// start at block 1, so genesis lies in none.
pub open spec fn cht_number_of(cht_size: u64, block: u64) -> int
    recommends
        cht_size > 0,
        block >= 1,
{
    (block - 1) / (cht_size as int)
}

/// The CHT number of `block`, for ranges of `cht_size` blocks.
pub fn accumulator_number(cht_size: u64, block: u64) -> (r: Result<u64, AddressingError>)
    ensures
        block == 0 ==> r == Err::<u64, AddressingError>(AddressingError::ZeroBlock),
        block != 0 && cht_size == 0 ==> r == Err::<u64, AddressingError>(AddressingError::ZeroRangeSize),
        block != 0 && cht_size != 0 ==> r == Ok::<u64, AddressingError>(cht_number_of(cht_size, block) as u64),
{
    if block == 0 {
        Err(AddressingError::ZeroBlock)
    } else if cht_size == 0 {
        Err(AddressingError::ZeroRangeSize)
    } else {
        Ok((block - 1) / cht_size)
    }
}

/// Ranges partition the positive block numbers: blocks `k * size + 1` to
/// `(k + 1) * size` all have CHT number `k`, and no others do.
pub proof fn lemma_ranges_partition(cht_size: u64, block: u64, k: int)
    requires
        cht_size > 0,
        block >= 1,
        k >= 0,
    ensures
        cht_number_of(cht_size, block) >= 0,
        cht_number_of(cht_size, block) == k <==> (k * cht_size < block && block <= (k + 1) * cht_size),
{
    let s = cht_size as int;
    let b = block as int;
    let q = (b - 1) / s;
    assert(q >= 0) by (nonlinear_arith)
        requires s > 0, b >= 1, q == (b - 1) / s;
    assert(q * s <= b - 1 && b - 1 < (q + 1) * s) by (nonlinear_arith)
        requires s > 0, b >= 1, q == (b - 1) / s;
    if k * s < b && b <= (k + 1) * s {
        assert(q == k) by (nonlinear_arith)
            requires s > 0, q * s <= b - 1, b - 1 < (q + 1) * s, k * s < b, b <= (k + 1) * s;
    }
}

} // verus!
