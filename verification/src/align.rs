//! Rounding addresses up to power-of-two boundaries.

use vstd::arithmetic::div_mod::{lemma_fundamental_div_mod, lemma_mod_multiples_basic};
use vstd::arithmetic::power2::{
    is_pow2,
    is_pow2_equiv,
    is_pow2_exists,
    lemma_pow2_pos,
    lemma_pow2_strictly_increases,
    lemma_pow2_unfold,
    pow2,
};
use vstd::bits::{lemma_usize_low_bits_mask_is_mod, low_bits_mask};
use vstd::prelude::*;

verus! {

/// The least multiple of `align` that is not below `addr`.
pub open spec fn round_up(addr: int, align: int) -> int
    recommends
        align > 0,
{
    if addr % align == 0 {
        addr
    } else {
        addr - addr % align + align
    }
}

/// Whether `n` is a power of two.
pub fn is_power_of_two(n: usize) -> (b: bool)
    ensures
        b == is_pow2(n as int),
{
    if n == 0 {
        proof {
            reveal(is_pow2);
        }
        return false;
    }
    let low: usize = n & (n - 1);
    proof {
        lemma_single_bit(n);
    }
    low == 0
}

/// Rounds `addr` up to the next multiple of the power of two `align`.
pub fn align_up(addr: usize, align: usize) -> (aligned: usize)
    requires
        is_pow2(align as int),
        addr + align - 1 <= usize::MAX,
    ensures
        aligned == round_up(addr as int, align as int),
        aligned % align == 0,
        addr <= aligned < addr + align,
{
    proof {
        reveal(is_pow2);
    }
    let top: usize = addr + (align - 1);
    let aligned: usize = top & !(align - 1);
    proof {
        lemma_mask_clears_remainder(top, align);
        lemma_round_up(addr as int, align as int);
        // top - top % align is the multiple of align in [addr, addr + align)
        let a = align as int;
        lemma_fundamental_div_mod(top as int, a);
        assert(aligned == a * (top as int / a));
        assert((top as int / a) * a == a * (top as int / a)) by (nonlinear_arith);
        lemma_mod_multiples_basic(top as int / a, a);
        assert(aligned % align == 0);
        lemma_multiple_gap(aligned as int, round_up(addr as int, a), a);
        lemma_multiple_gap(round_up(addr as int, a), aligned as int, a);
    }
    aligned
}

/// `round_up(addr, align)` is a multiple of `align` in `[addr, addr + align)`.
pub proof fn lemma_round_up(addr: int, align: int)
    requires
        align > 0,
    ensures
        round_up(addr, align) % align == 0,
        addr <= round_up(addr, align) < addr + align,
{
    let r = round_up(addr, align);
    let q = addr / align;
    lemma_fundamental_div_mod(addr, align);
    assert(addr == align * q + addr % align);
    if addr % align != 0 {
        assert(r == align * (q + 1)) by (nonlinear_arith)
            requires
                r == addr - addr % align + align,
                addr == align * q + addr % align,
        ;
        lemma_mod_multiples_basic(q + 1, align);
        assert((q + 1) * align == align * (q + 1)) by (nonlinear_arith);
    }
}

/// No multiple of `align` lies between `addr` and `round_up(addr, align)`.
pub proof fn lemma_round_up_least(addr: int, align: int, m: int)
    requires
        align > 0,
        m % align == 0,
        addr <= m,
    ensures
        round_up(addr, align) <= m,
{
    lemma_round_up(addr, align);
    lemma_multiple_gap(m, round_up(addr, align), align);
}

/// Where `addr + align - 1` leaves the address space, so does the rounding
/// of `addr`.
pub proof fn lemma_round_up_overflow(addr: usize, align: usize)
    requires
        is_pow2(align as int),
        addr + align - 1 > usize::MAX,
    ensures
        round_up(addr as int, align as int) > usize::MAX,
{
    reveal(is_pow2);
    let top = usize::MAX + 1;
    let r = round_up(addr as int, align as int);
    lemma_word_limits_pow2();
    lemma_pow2_aligned_to_smaller(top, align as int, top);
    lemma_round_up(addr as int, align as int);
    if r < top {
        lemma_multiple_below(r, top, align as int);
    }
}

/// Of two powers of two, the smaller divides the larger; so what is aligned
/// to the larger is aligned to the smaller.
pub proof fn lemma_pow2_aligned_to_smaller(addr: int, small: int, large: int)
    requires
        is_pow2(small),
        is_pow2(large),
        small <= large,
        addr % large == 0,
    ensures
        addr % small == 0,
    decreases large,
{
    reveal(is_pow2);
    if small < large {
        // large is even and its half is still a power of two not below small
        assert(large > 1);
        let half = large / 2;
        assert(is_pow2(half));
        assert(small <= half) by {
            if small > half {
                lemma_pow2_no_gap(small, half);
            }
        }
        lemma_fundamental_div_mod(addr, large);
        let q = addr / large;
        assert(addr == half * (2 * q)) by (nonlinear_arith)
            requires
                addr == large * q + addr % large,
                addr % large == 0,
                large == 2 * half,
        ;
        assert((2 * q) * half == half * (2 * q)) by (nonlinear_arith);
        lemma_mod_multiples_basic(2 * q, half);
        lemma_pow2_aligned_to_smaller(addr, small, half);
    }
}

/// One past the largest `usize`, and one past the largest `isize`, are
/// powers of two.
pub proof fn lemma_word_limits_pow2()
    ensures
        is_pow2(usize::MAX + 1),
        is_pow2(isize::MAX + 1),
{
    vstd::layout::unsigned_int_max_values();
    vstd::layout::signed_int_min_max_values();
    vstd::arithmetic::power::lemma_pow_positive(2, usize::BITS as nat);
    vstd::arithmetic::power::lemma_pow_positive(2, (isize::BITS - 1) as nat);
    assert(vstd::arithmetic::power::pow(2, usize::BITS as nat) == usize::MAX + 1);
    assert(vstd::arithmetic::power::pow(2, (isize::BITS - 1) as nat) == isize::MAX + 1);
    assert(is_pow2_exists(usize::MAX + 1));
    assert(is_pow2_exists(isize::MAX + 1));
    is_pow2_equiv(usize::MAX + 1);
    is_pow2_equiv(isize::MAX + 1);
}

/// The largest `isize` leaves the remainder `align - 1` when divided by a
/// power of two `align`.
pub proof fn lemma_isize_max_remainder(align: usize)
    requires
        is_pow2(align as int),
    ensures
        isize::MAX as int % align as int == align - 1,
{
    reveal(is_pow2);
    let a = align as int;
    let top = isize::MAX + 1;
    lemma_word_limits_pow2();
    if a <= top {
        lemma_pow2_aligned_to_smaller(top, a, top);
        lemma_fundamental_div_mod(top, a);
        let q = top / a;
        assert(isize::MAX as int == (q - 1) * a + (a - 1)) by (nonlinear_arith)
            requires
                top == a * q,
                top == isize::MAX + 1,
        ;
        vstd::arithmetic::div_mod::lemma_fundamental_div_mod_converse(
            isize::MAX as int,
            a,
            q - 1,
            a - 1,
        );
    } else {
        // a power of two above isize::MAX + 1 is at least twice it, which
        // no usize is
        lemma_pow2_no_gap(a, top);
        vstd::layout::unsigned_int_max_values();
        vstd::layout::signed_int_min_max_values();
        lemma_pow2_unfold(usize::BITS as nat);
        assert(usize::MAX + 1 == 2 * top);
    }
}

/// Of two multiples of `align`, one that is less than `align` below the
/// other is not below it at all.
proof fn lemma_multiple_gap(m: int, r: int, align: int)
    requires
        align > 0,
        m % align == 0,
        r % align == 0,
        m > r - align,
    ensures
        r <= m,
{
    lemma_fundamental_div_mod(m, align);
    lemma_fundamental_div_mod(r, align);
    let a = m / align;
    let b = r / align;
    assert(align * a > align * b - align);
    assert(a >= b) by (nonlinear_arith)
        requires
            align > 0,
            align * a > align * b - align,
    ;
    assert(align * a >= align * b) by (nonlinear_arith)
        requires
            align > 0,
            a >= b,
    ;
}

/// Of two multiples of a power of two `align`, the smaller is at least
/// `align` below the larger.
proof fn lemma_multiple_below(r: int, top: int, align: int)
    requires
        align > 0,
        r % align == 0,
        top % align == 0,
        r < top,
    ensures
        r + align <= top,
{
    if r > top - align {
        lemma_multiple_gap(r, top, align);
    }
}

/// The next power of two above a power of two is at least its double.
proof fn lemma_pow2_no_gap(p: int, half: int)
    requires
        is_pow2(p),
        is_pow2(half),
        half < p,
    ensures
        2 * half <= p,
    decreases half,
{
    reveal(is_pow2);
    if half > 1 {
        assert(p > 1);
        assert(p % 2 == 0 && half % 2 == 0);
        lemma_pow2_no_gap(p / 2, half / 2);
    }
}

/// A power of two that fits in `usize` is `pow2(n)` for some `n` below the
/// width of `usize`.
proof fn lemma_pow2_exponent(align: usize) -> (n: nat)
    requires
        is_pow2(align as int),
    ensures
        n < usize::BITS,
        pow2(n) == align,
{
    is_pow2_equiv(align as int);
    assert(is_pow2_exists(align as int));
    let n = choose|i: nat| vstd::arithmetic::power::pow(2, i) == align as int;
    lemma_pow2_pos(n);
    assert(pow2(n) == align);
    if n >= usize::BITS {
        // then pow2(n) is at least pow2(usize::BITS), which no usize is
        vstd::layout::unsigned_int_max_values();
        if n > usize::BITS {
            lemma_pow2_strictly_increases(usize::BITS as nat, n);
        }
    }
    n
}

/// Clearing the low bits of `x` under a power-of-two mask subtracts
/// `x % align`.
proof fn lemma_mask_clears_remainder(x: usize, align: usize)
    requires
        is_pow2(align as int),
    ensures
        x & !((align - 1) as usize) == x - x % align,
{
    reveal(is_pow2);
    let n = lemma_pow2_exponent(align);
    lemma_usize_low_bits_mask_is_mod(x, n);
    let mask: usize = (align - 1) as usize;
    assert(low_bits_mask(n) as usize == mask);
    assert(x & mask == x % align);
    assert(x & !mask == x - (x & mask)) by (bit_vector);
}

/// A positive number shares no bit with its predecessor exactly when it is
/// a power of two.
proof fn lemma_single_bit(n: usize)
    requires
        n > 0,
    ensures
        (n & ((n - 1) as usize) == 0) == is_pow2(n as int),
    decreases n,
{
    reveal(is_pow2);
    if n == 1 {
        assert(1usize & 0usize == 0) by (bit_vector);
    } else if n % 2 == 0 {
        let h: usize = n / 2;
        lemma_single_bit(h);
        let pn: usize = (n - 1) as usize;
        let ph: usize = (h - 1) as usize;
        assert((n & pn == 0) == (h & ph == 0)) by (bit_vector)
            requires
                n >= 2,
                n % 2 == 0,
                h == n / 2,
                pn == n - 1,
                ph == h - 1,
        ;
    } else {
        let pn: usize = (n - 1) as usize;
        assert(n & pn != 0) by (bit_vector)
            requires
                n > 1,
                n % 2 == 1,
                pn == n - 1,
        ;
    }
}

} // verus!
