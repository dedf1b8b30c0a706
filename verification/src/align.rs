//! Rounding addresses to power-of-two boundaries.
//!
//! The contracts speak of multiples; the executable code clears low bits.
//! The lemmas here connect the two.

use vstd::prelude::*;
use vstd::arithmetic::div_mod::{
    lemma_fundamental_div_mod,
    lemma_mod_multiples_basic,
    lemma_mod_self_0,
    lemma_small_mod,
    lemma_sub_mod_noop,
};
use vstd::arithmetic::power::pow;
use vstd::arithmetic::power2::{
    is_pow2,
    is_pow2_equiv,
    lemma2_to64,
    lemma_pow2,
    lemma_pow2_adds,
    lemma_pow2_pos,
    lemma_pow2_strictly_increases,
    pow2,
};
use vstd::bits::{low_bits_mask, lemma_usize_low_bits_mask_is_mod};

verus! {

/// Whether `addr` is a multiple of `align`.
pub open spec fn is_aligned(addr: int, align: int) -> bool {
    addr % align == 0
}

/// The largest multiple of `align` that does not exceed `addr`.
pub open spec fn round_down(addr: int, align: int) -> int {
    addr - addr % align
}

/// The smallest multiple of `align` that is not below `addr`.
pub open spec fn round_up(addr: int, align: int) -> int {
    round_down(addr + align - 1, align)
}

/// `round_down(addr, align)` is a multiple of `align`, lies within one
/// `align` below `addr`, and no multiple of `align` lies strictly between
/// it and `addr`.
pub proof fn lemma_round_down_greatest_multiple(addr: int, align: int)
    requires
        align > 0,
    ensures
        is_aligned(round_down(addr, align), align),
        addr - align < round_down(addr, align) <= addr,
        forall|m: int| #[trigger] is_aligned(m, align) && m <= addr ==> m <= round_down(addr, align),
{
    let r = round_down(addr, align);
    lemma_fundamental_div_mod(addr, align);
    assert(r == align * (addr / align));
    lemma_mod_multiples_basic(addr / align, align);
    assert(r % align == 0) by {
        assert(align * (addr / align) == (addr / align) * align) by (nonlinear_arith);
    }
    assert forall|m: int| #[trigger] is_aligned(m, align) && m <= addr implies m <= r by {
        if m > r {
            // 0 < m - r < align, yet both are multiples of align.
            lemma_sub_mod_noop(m, r, align);
            lemma_small_mod((m - r) as nat, align as nat);
        }
    }
}

/// `round_up(addr, align)` is a multiple of `align`, lies within one `align`
/// above `addr`, and no multiple of `align` lies strictly between `addr` and
/// it.
pub proof fn lemma_round_up_least_multiple(addr: int, align: int)
    requires
        align > 0,
    ensures
        is_aligned(round_up(addr, align), align),
        addr <= round_up(addr, align) < addr + align,
        forall|m: int| #[trigger] is_aligned(m, align) && addr <= m ==> round_up(addr, align) <= m,
{
    let r = round_up(addr, align);
    lemma_round_down_greatest_multiple(addr + align - 1, align);
    assert forall|m: int| #[trigger] is_aligned(m, align) && addr <= m implies r <= m by {
        if m < r {
            // 0 < r - m < align, yet both are multiples of align.
            lemma_sub_mod_noop(r, m, align);
            lemma_small_mod((r - m) as nat, align as nat);
        }
    }
}

/// A power of two is at least one.
pub proof fn lemma_pow2_at_least_one(align: int)
    requires
        is_pow2(align),
    ensures
        align >= 1,
{
    reveal(is_pow2);
}

/// A power of two that fits in a machine word is `2^e` for some `e` below
/// the word's width.
proof fn lemma_pow2_exponent(align: usize) -> (e: nat)
    requires
        is_pow2(align as int),
    ensures
        e < usize::BITS,
        pow2(e) == align,
{
    is_pow2_equiv(align as int);
    let e = choose|i: nat| pow(2, i) == align as int;
    lemma_pow2(e);
    if e >= usize::BITS {
        lemma2_to64();
        if e > usize::BITS {
            lemma_pow2_strictly_increases(usize::BITS as nat, e);
        }
        assert(false);
    }
    e
}

/// Every power of two that fits in a machine word divides the number of
/// values of a machine word.
proof fn lemma_pow2_divides_word(align: usize)
    requires
        is_pow2(align as int),
    ensures
        (usize::MAX + 1) % (align as int) == 0,
{
    let e = lemma_pow2_exponent(align);
    let rest = (usize::BITS - e) as nat;
    lemma2_to64();
    lemma_pow2_pos(e);
    lemma_pow2_adds(rest, e);
    assert(usize::MAX + 1 == pow2(rest) * pow2(e));
    lemma_mod_multiples_basic(pow2(rest) as int, align as int);
}

/// Clearing the bits of a mask subtracts the bits that the mask selects.
proof fn lemma_and_not_mask(x: usize, mask: usize)
    by (bit_vector)
    ensures
        x & !mask == x - (x & mask),
{
}

/// Clearing the bits below a power of two rounds down to its multiple.
pub proof fn lemma_clear_low_bits_rounds_down(addr: usize, align: usize)
    requires
        is_pow2(align as int),
    ensures
        align >= 1,
        addr & !((align - 1) as usize) == round_down(addr as int, align as int),
{
    let e = lemma_pow2_exponent(align);
    lemma_pow2_pos(e);
    let mask = (align - 1) as usize;
    assert(low_bits_mask(e) as usize == mask);
    lemma_usize_low_bits_mask_is_mod(addr, e);
    assert(addr & mask == addr % align);
    lemma_and_not_mask(addr, mask);
}

/// Half of a word above one that shares no bit with its predecessor is
/// again such a word.
proof fn lemma_single_bit_halves(n: usize)
    by (bit_vector)
    requires
        n > 1,
        n & ((n - 1) as usize) == 0,
    ensures
        n % 2 == 0,
        n / 2 > 0,
        (n / 2) & ((n / 2 - 1) as usize) == 0,
{
}

/// A nonzero word that shares no bit with its predecessor is a power of two.
proof fn lemma_single_bit_is_pow2(n: usize)
    requires
        n > 0,
        n & ((n - 1) as usize) == 0,
    ensures
        is_pow2(n as int),
    decreases n,
{
    reveal(is_pow2);
    if n > 1 {
        lemma_single_bit_halves(n);
        lemma_single_bit_is_pow2(n / 2);
    }
}

/// A power of two shares no bit with its predecessor.
proof fn lemma_pow2_is_single_bit(n: usize)
    requires
        is_pow2(n as int),
    ensures
        n > 0,
        n & ((n - 1) as usize) == 0,
{
    let e = lemma_pow2_exponent(n);
    lemma_pow2_pos(e);
    assert(low_bits_mask(e) as usize == (n - 1) as usize);
    lemma_usize_low_bits_mask_is_mod(n, e);
    lemma_mod_self_0(n as int);
}

/// Whether `n` is a power of two.
pub fn is_power_of_two(n: usize) -> (r: bool)
    ensures
        r == is_pow2(n as int),
{
    if n == 0 {
        proof {
            reveal(is_pow2);
        }
        return false;
    }
    let single_bit: bool = n & (n - 1) == 0;
    proof {
        if single_bit {
            lemma_single_bit_is_pow2(n);
        }
        if is_pow2(n as int) {
            lemma_pow2_is_single_bit(n);
        }
    }
    single_bit
}

/// Rounding up an address near the top of the address space leaves the
/// address space.
pub proof fn lemma_round_up_past_word(addr: usize, align: usize)
    requires
        is_pow2(align as int),
        addr + align - 1 > usize::MAX,
    ensures
        round_up(addr as int, align as int) > usize::MAX,
{
    let e = lemma_pow2_exponent(align);
    lemma_pow2_pos(e);
    lemma_pow2_divides_word(align);
    lemma_round_down_greatest_multiple(addr + align - 1, align as int);
    assert(is_aligned(usize::MAX + 1, align as int));
}

} // verus!
