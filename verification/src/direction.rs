//! The eight compass directions, as one bit each of a `u8` direction set.
//!
//! Direction `k` (for `0 <= k < 8`) owns bit `k` of a mask, so no two
//! directions ever share a bit. Its step is the pair of row and column
//! deltas `(dir_dy(k), dir_dx(k))`. Rows are counted from the bottom of the
//! drawn grid, so `UPPER` steps toward increasing row index.

use vstd::prelude::*;

verus! {

/// The empty direction set: no legal move at the scanned cell.
pub const NONE_DIRECTION: u8 = 0b00000000;

/// Toward increasing row index.
pub const UPPER: u8 = 0b00000001;

/// Toward increasing row, decreasing column.
pub const UPPER_LEFT: u8 = 0b00000010;

/// Toward decreasing column index.
pub const LEFT: u8 = 0b00000100;

/// Toward decreasing row, decreasing column.
pub const LOWER_LEFT: u8 = 0b00001000;

/// Toward decreasing row index.
pub const LOWER: u8 = 0b00010000;

/// Toward decreasing row, increasing column.
pub const LOWER_RIGHT: u8 = 0b00100000;

/// Toward increasing column index.
pub const RIGHT: u8 = 0b01000000;

/// Toward increasing row, increasing column.
pub const UPPER_RIGHT: u8 = 0b10000000;

/// The row delta of direction `k`; zero outside `0..8`.
pub open spec fn dir_dy(k: int) -> int {
    if k == 0 || k == 1 || k == 7 {
        1
    } else if k == 3 || k == 4 || k == 5 {
        -1
    } else {
        0
    }
}

/// The column delta of direction `k`; zero outside `0..8`.
pub open spec fn dir_dx(k: int) -> int {
    if k == 1 || k == 2 || k == 3 {
        -1
    } else if k == 5 || k == 6 || k == 7 {
        1
    } else {
        0
    }
}

/// True when bit `k` of the direction set `mask` is set.
pub open spec fn bit_set(mask: u8, k: int) -> bool {
    mask & (1u8 << (k as u8)) != 0
}

/// The row and column step of direction `k`.
pub(crate) fn dir_delta(k: usize) -> (d: (i8, i8))
    requires
        k < 8,
    ensures
        d.0 as int == dir_dy(k as int),
        d.1 as int == dir_dx(k as int),
        -1 <= d.0 as int <= 1,
        -1 <= d.1 as int <= 1,
{
    if k == 0 {
        (1, 0)
    } else if k == 1 {
        (1, -1)
    } else if k == 2 {
        (0, -1)
    } else if k == 3 {
        (-1, -1)
    } else if k == 4 {
        (-1, 0)
    } else if k == 5 {
        (-1, 1)
    } else if k == 6 {
        (0, 1)
    } else {
        (1, 1)
    }
}

/// `v` stepped by a delta of at most one, guarded against wrap-around.
pub(crate) fn offset(v: usize, d: i8) -> (r: usize)
    requires
        -1 <= d as int <= 1,
        d as int == -1 ==> v >= 1,
        d as int == 1 ==> v < usize::MAX,
    ensures
        r as int == v as int + d as int,
{
    if d == 1 {
        v + 1
    } else if d == -1 {
        v - 1
    } else {
        v
    }
}

/// Setting bit `j` of a mask leaves every bit but `j` as it was and sets
/// bit `j`.
pub proof fn lemma_or_bit(m: u8, j: u8, k: u8)
    by (bit_vector)
    requires
        j < 8,
        k < 8,
    ensures
        ((m | (1u8 << j)) & (1u8 << k) != 0) <==> (j == k || (m & (1u8 << k) != 0)),
{
}

/// Two masks that agree on each of the eight bits are the same mask.
pub proof fn lemma_eq_from_bits(d: u8, l: u8)
    by (bit_vector)
    requires
        (d & (1u8 << 0u8) != 0) == (l & (1u8 << 0u8) != 0),
        (d & (1u8 << 1u8) != 0) == (l & (1u8 << 1u8) != 0),
        (d & (1u8 << 2u8) != 0) == (l & (1u8 << 2u8) != 0),
        (d & (1u8 << 3u8) != 0) == (l & (1u8 << 3u8) != 0),
        (d & (1u8 << 4u8) != 0) == (l & (1u8 << 4u8) != 0),
        (d & (1u8 << 5u8) != 0) == (l & (1u8 << 5u8) != 0),
        (d & (1u8 << 6u8) != 0) == (l & (1u8 << 6u8) != 0),
        (d & (1u8 << 7u8) != 0) == (l & (1u8 << 7u8) != 0),
    ensures
        d == l,
{
}

/// The empty mask has no bit set.
pub proof fn lemma_zero_bit(k: u8)
    by (bit_vector)
    requires
        k < 8,
    ensures
        (0u8 & (1u8 << k)) == 0,
{
}

} // verus!
