//! Alignment of addresses.

use vstd::arithmetic::power::pow;
use vstd::arithmetic::power2::{is_pow2, pow2};
use vstd::prelude::*;

verus! {

/// The alignment of a `u128` on the target, to which the loader aligns
/// whatever follows data of variable length.
pub const BPF_ALIGN_OF_U128: u64 = 8;

/// The least multiple of `align` that is not below `address`.
pub open spec fn align_up(address: int, align: int) -> int {
    (address + align - 1) / align * align
}

/// What `align_up` computes: a multiple of the alignment, less than one
/// alignment above the address, and no greater than any other multiple that is
/// not below the address.
pub proof fn law_align_up_is_least(address: int, align: int, other: int)
    requires
        0 < align,
    ensures
        align_up(address, align) % align == 0,
        address <= align_up(address, align) < address + align,
        address <= other && other % align == 0 ==> align_up(address, align) <= other,
{
    let sum = address + align - 1;
    vstd::arithmetic::div_mod::lemma_fundamental_div_mod(sum, align);
    assert(sum / align * align == align * (sum / align)) by (nonlinear_arith);
    assert(align_up(address, align) == sum - sum % align);
    assert(0 <= sum % align < align) by (nonlinear_arith)
        requires
            0 < align,
    ;
    assert((sum / align * align) % align == 0) by (nonlinear_arith)
        requires
            0 < align,
    ;
    if address <= other && other % align == 0 {
        vstd::arithmetic::div_mod::lemma_fundamental_div_mod(other, align);
        let q = sum / align;
        let k = other / align;
        assert(q <= k) by (nonlinear_arith)
            requires
                0 < align,
                q * align < address + align,
                address <= align * k,
        ;
        assert(q * align <= k * align) by (nonlinear_arith)
            requires
                0 < align,
                q <= k,
        ;
        assert(k * align == align * k) by (nonlinear_arith);
    }
}

/// An address that is aligned already stays where it is.
pub proof fn law_align_up_keeps_aligned(address: int, align: int)
    requires
        0 < align,
        address % align == 0,
    ensures
        align_up(address, align) == address,
{
    law_align_up_is_least(address, align, address);
}

/// Clearing the low bits of a number rounds it down to a power of two's
/// multiple.
pub proof fn lemma_clear_low_bits(value: usize, align: usize)
    requires
        is_pow2(align as int),
    ensures
        value & !((align - 1) as usize) == value as int / align as int * align as int,
{
    vstd::arithmetic::power2::is_pow2_equiv(align as int);
    let n = choose|n: nat| pow(2, n) == align as int;
    assert(pow2(n) == align);
    lemma_pow2_positive(align as int);
    assert(n < 64) by {
        if n >= 64 {
            vstd::arithmetic::power2::lemma2_to64();
            if n > 64 {
                vstd::arithmetic::power2::lemma_pow2_strictly_increases(64, n);
            }
        }
    }
    vstd::arithmetic::power2::lemma_pow2_pos(n);
    let mask = (align - 1) as usize;
    assert(value & !mask == value - (value & mask)) by (bit_vector);
    vstd::bits::lemma_u64_low_bits_mask_is_mod(value as u64, n);
    assert((value & mask) as u64 == (value as u64) & (mask as u64)) by (bit_vector);
    assert((value & mask) as u64 == value & mask);
    assert(value & mask == value % align);
    vstd::arithmetic::div_mod::lemma_fundamental_div_mod(value as int, align as int);
    assert(value as int / align as int * align as int == align as int * (value as int
        / align as int)) by (nonlinear_arith);
}

/// The least multiple of the power of two `align` that is not below `address`.
pub fn align_to(address: usize, align: usize) -> (aligned: usize)
    requires
        is_pow2(align as int),
        address + align - 1 <= usize::MAX,
    ensures
        aligned == align_up(address as int, align as int),
        aligned % align == 0,
        address <= aligned < address + align,
{
    proof {
        lemma_pow2_positive(align as int);
        lemma_clear_low_bits((address + align - 1) as usize, align);
        law_align_up_is_least(address as int, align as int, 0);
    }
    (address + (align - 1)) & !(align - 1)
}

/// A power of two is positive.
pub proof fn lemma_pow2_positive(align: int)
    requires
        is_pow2(align),
    ensures
        align > 0,
{
    reveal(is_pow2);
}

/// A number is a power of two exactly if it has a single bit, which taking one
/// away clears.
pub proof fn lemma_pow2_by_bits(align: usize)
    requires
        align != 0,
    ensures
        is_pow2(align as int) <==> align & ((align - 1) as usize) == 0,
    decreases align,
{
    reveal(is_pow2);
    if align == 1 {
        assert(1usize & 0usize == 0usize) by (bit_vector);
    } else {
        let half = align / 2;
        lemma_pow2_by_bits(half);
        assert((align & ((align - 1) as usize) == 0usize) <==> (align % 2usize == 0usize && half & ((
        half - 1) as usize) == 0usize)) by (bit_vector)
            requires
                align > 1usize,
                half == align / 2usize,
        ;
    }
}

/// A power of two that is an address divides the middle of the address space,
/// or is the middle.
pub proof fn lemma_pow2_divides_half(align: usize)
    requires
        is_pow2(align as int),
    ensures
        align <= isize::MAX + 1,
        (isize::MAX + 1) % align as int == 0,
{
    vstd::arithmetic::power2::is_pow2_equiv(align as int);
    let n = choose|n: nat| pow(2, n) == align as int;
    assert(pow2(n) == align);
    vstd::layout::unsigned_int_max_values();
    vstd::layout::signed_int_min_max_values();
    let top = (isize::BITS - 1) as nat;
    assert(isize::MAX + 1 == pow2(top));
    assert(n <= top) by {
        if n > top {
            if n > top + 1 {
                vstd::arithmetic::power2::lemma_pow2_strictly_increases(top + 1, n);
            }
            assert(usize::BITS == top + 1);
        }
    }
    vstd::arithmetic::power2::lemma_pow2_adds(n, (top - n) as nat);
    let quotient = pow2((top - n) as nat) as int;
    vstd::arithmetic::power2::lemma_pow2_pos(n);
    assert((align as int * quotient) % align as int == 0) by (nonlinear_arith)
        requires
            align > 0,
    ;
    if n < top {
        vstd::arithmetic::power2::lemma_pow2_strictly_increases(n, top);
    }
}

/// Aligns an address of the program's memory to `BPF_ALIGN_OF_U128`.
pub fn align_address(address: u64) -> (aligned: u64)
    requires
        address + BPF_ALIGN_OF_U128 - 1 <= u64::MAX,
    ensures
        aligned == align_up(address as int, BPF_ALIGN_OF_U128 as int),
        aligned % 8 == 0,
        address <= aligned < address + 8,
{
    let sum: u64 = address + (BPF_ALIGN_OF_U128 - 1);
    proof {
        assert(sum & !7u64 == sum / 8 * 8) by (bit_vector);
    }
    sum & !(BPF_ALIGN_OF_U128 - 1)
}

} // verus!
