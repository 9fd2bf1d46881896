//! Bitboards: sets of squares held in the bits of a `u64`, square A1 in the
//! lowest bit, then along the ranks up to H8.
use vstd::prelude::*;

verus! {

/// The bit of a square: 1 where the square is in the set, else 0.
pub open spec fn bit(bits: u64, square: int) -> u64 {
    (bits >> (square as u64)) & 1
}

/// The square on the same file, as many ranks from the other edge.
pub open spec fn mirror(square: int) -> int {
    56 - square + 2 * (square % 8)
}

/// How many of the first `n` squares are in the set.
pub open spec fn count_below(bits: u64, n: nat) -> nat
    decreases n,
{
    if n == 0 {
        0
    } else {
        count_below(bits, (n - 1) as nat) + bit(bits, n - 1) as nat
    }
}

/// How many squares are in the set.
pub open spec fn count_bits(bits: u64) -> nat {
    count_below(bits, 64)
}

/// There are at most as many squares in a set as were counted.
pub proof fn lemma_count_bound(bits: u64, n: nat)
    ensures
        count_below(bits, n) <= n,
    decreases n,
{
    if n > 0 {
        lemma_count_bound(bits, (n - 1) as nat);
        let square = (n - 1) as u64;
        assert((bits >> square) & 1 <= 1) by (bit_vector);
    }
}

/// Mirroring a square gives a square, and mirroring it again the first one.
pub proof fn law_mirror_is_its_own_inverse(square: int)
    requires
        0 <= square < 64,
    ensures
        0 <= mirror(square) < 64,
        mirror(mirror(square)) == square,
        mirror(square) % 8 == square % 8,
        mirror(square) / 8 == 7 - square / 8,
{
}

/// `u64::count_ones` returns the number of ones in the binary form of a number.
pub assume_specification[ u64::count_ones ](bits: u64) -> (r: u32)
    ensures
        r == count_bits(bits),
;

/// Calls `chess::BitBoard::popcnt`, which counts the squares of a set.
#[verifier::external_body]
pub(crate) fn popcnt(bits: u64) -> (r: u32)
    ensures
        r == count_bits(bits),
{
    chess::BitBoard::new(bits).popcnt()
}

/// Calls `chess::BitBoard::reverse_colors`, which swaps the first rank with the
/// eighth, the second with the seventh and so on, and leaves the files alone.
#[verifier::external_body]
pub(crate) fn reverse_colors(bits: u64) -> (r: u64)
    ensures
        forall|square: int|
            0 <= square < 64 ==> #[trigger] bit(r, square) == bit(bits, mirror(square)),
{
    chess::BitBoard::new(bits).reverse_colors().0
}

} // verus!
