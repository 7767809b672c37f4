use vstd::arithmetic::power2::{
    is_pow2_equiv, is_pow2_exists, lemma2_to64, lemma_pow2_pos, lemma_pow2_strictly_increases, pow2,
};
use vstd::bits::lemma_u64_low_bits_mask_is_mod;
use vstd::prelude::*;

verus! {

/// Alignment unit of the bump arena, in bytes.
pub const FEML_MEM_ALIGN: usize = 16;

/// `n` is a power of two.
pub open spec fn is_pow2(n: usize) -> bool {
    vstd::arithmetic::power2::is_pow2(n as int)
}

/// Whether `n` is a power of two.
pub fn is_power_of_two(n: usize) -> (r: bool)
    ensures
        r == is_pow2(n),
{
    let mut m = n;
    proof { reveal(vstd::arithmetic::power2::is_pow2); }
    while m > 1 && m % 2 == 0
        invariant
            is_pow2(m) == is_pow2(n),
        decreases m,
    {
        proof { reveal(vstd::arithmetic::power2::is_pow2); }
        m = m / 2;
    }
    m == 1
}

/// The smallest multiple of `n` that is at least `x`; `x` itself when `n` is zero.
pub open spec fn round_up(x: int, n: int) -> int {
    if n <= 0 {
        x
    } else {
        ((x + n - 1) / n) * n
    }
}

/// Clearing the low bits of `y` below a power of two `n` rounds it down to a multiple
/// of `n`.
proof fn lemma_mask_is_floor(y: usize, n: usize)
    requires
        is_pow2(n),
    ensures
        n > 0,
        y & !((n - 1) as usize) == y - y % n,
{
    is_pow2_equiv(n as int);
    assert(is_pow2_exists(n as int));
    let k = choose|k: nat| vstd::arithmetic::power::pow(2, k) == n;
    assert(pow2(k) == n);
    lemma2_to64();
    if k >= 64 {
        if k > 64 {
            lemma_pow2_strictly_increases(64, k);
        }
        assert(false);
    }
    lemma_pow2_pos(k);
    let (y64, n64) = (y as u64, n as u64);
    lemma_u64_low_bits_mask_is_mod(y64, k);
    let m = (n - 1) as usize;
    let m64 = (n64 - 1) as u64;
    assert((y & m) as u64 == y64 & m64) by (bit_vector)
        requires y64 == y as u64, m64 == m as u64;
    assert(y & !m == y - (y & m)) by (bit_vector);
}

/// The alignment unit is a power of two.
pub proof fn lemma_align_is_pow2()
    ensures
        is_pow2(FEML_MEM_ALIGN),
{
    reveal_with_fuel(vstd::arithmetic::power2::is_pow2, 5);
}

/// Rounds `x` up to a multiple of `n` with the mask `!(n - 1)`; a zero `n` leaves `x`
/// as it is.
pub fn feml_pad(x: usize, n: usize) -> (r: usize)
    requires
        n == 0 || is_pow2(n),
        x + n <= usize::MAX + 1,
    ensures
        r == round_up(x as int, n as int),
        x <= r,
        n > 0 ==> r < x + n,
        n > 0 ==> r % n == 0,
{
    if n == 0 {
        x
    } else {
        let y: usize = x + (n - 1);
        proof {
            lemma_mask_is_floor(y, n);
            assert(y - y % n == (y / n) * n) by (nonlinear_arith)
                requires n > 0;
            assert(((y as int / n as int) * n as int) % (n as int) == 0) by (nonlinear_arith)
                requires n > 0;
            assert(y % n < n) by (nonlinear_arith)
                requires n > 0;
        }
        y & !(n - 1)
    }
}

} // verus!
