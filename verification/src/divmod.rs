//! Software unsigned division for a machine without a divide instruction:
//! classic binary long division, computing quotient and remainder in one
//! pass over the dividend's bits.

use vstd::prelude::*;
use vstd::arithmetic::div_mod::{
    lemma_basic_div, lemma_fundamental_div_mod, lemma_fundamental_div_mod_converse,
    lemma_small_mod,
};
use vstd::arithmetic::mul::{
    lemma_mul_inequality, lemma_mul_is_associative, lemma_mul_is_commutative,
};
use crate::addr::is_pow2;

verus! {

/// Quotient/remainder pair, the shape divide-with-remainder interfaces
/// expect.
pub struct QR {
    /// computed quotient
    pub q: u32,
    /// computed remainder
    pub r: u32,
}

/// Computes quotient and remainder of `numerator / denominator`. Division
/// by zero leaves the quotient untouched and sets the remainder to the
/// all-ones marker.
pub fn uint_div_qr(numerator: u32, denominator: u32, qr: &mut QR)
    ensures
        denominator != 0 ==> final(qr).q == numerator / denominator && final(qr).r == numerator
            % denominator,
        denominator == 0 ==> final(qr).q == old(qr).q && final(qr).r == 0xFFFFFFFFu32,
{
    division_qr(numerator, denominator, qr);
}

/// Binary long division: scales the divisor up to the top bit, then
/// produces one quotient bit per step while scaling back down.
pub fn division_qr(n: u32, p: u32, qr: &mut QR)
    ensures
        p != 0 ==> final(qr).q == n / p && final(qr).r == n % p,
        p == 0 ==> final(qr).q == old(qr).q && final(qr).r == 0xFFFFFFFFu32,
{
    let ghost divisor: int = p as int;
    let ghost dividend: int = n as int;

    let mut i: u32 = 1;
    let mut q: u32 = 0;
    let mut p: u32 = p;
    let mut n: u32 = n;

    if p == 0 {
        qr.r = 0xFFFFFFFF;  // division by 0
        return;
    }

    while (p >> 31) == 0
        invariant
            1 <= divisor,
            1 <= p,
            is_pow2(i as int),
            p == divisor * i,
        decreases u32::MAX - p,
    {
        proof {
            assert(p < 0x8000_0000u32) by (bit_vector)
                requires
                    p >> 31 == 0u32,
            ;
            assert(i <= p) by {
                lemma_mul_inequality(1, divisor, i as int);
                lemma_mul_is_commutative(divisor, i as int);
            }
            assert(i << 1 == i * 2 && p << 1 == p * 2) by (bit_vector)
                requires
                    i <= p < 0x8000_0000u32,
            ;
            assert(divisor * (i as int * 2) == (divisor * i as int) * 2) by {
                lemma_mul_is_associative(divisor, i as int, 2);
            }
        }
        i = i << 1;  // count the max division steps
        p = p << 1;  // increase p until it has maximum size
    }

    proof {
        // The scaled divisor now exceeds any 32-bit dividend's half, so
        // the quotient so far is zero and the remainder is the dividend.
        assert(p >= 0x8000_0000u32) by (bit_vector)
            requires
                p >> 31 != 0u32,
        ;
        assert(divisor * i as int == p);
        lemma_basic_div(dividend, 2 * (divisor * i as int));
        lemma_small_mod(dividend as nat, (2 * (divisor * i as int)) as nat);
    }

    while i > 0
        invariant
            1 <= divisor,
            0 <= dividend <= u32::MAX,
            i > 0 ==> is_pow2(i as int) && p == divisor * i,
            i > 0 ==> q == dividend / (2 * (divisor * i as int)) && n == dividend % (2 * (divisor
                * i as int)),
            i == 0 ==> q == dividend / divisor && n == dividend % divisor,
        decreases i,
    {
        let ghost i0 = i as int;
        let ghost q0 = q as int;
        let ghost n0 = n as int;
        let ghost m: int = divisor * i0;

        proof {
            assert(1 <= m) by {
                lemma_mul_inequality(1, i0, divisor);
                lemma_mul_is_commutative(divisor, i0);
            }
            // One divide step: halving the modulus turns the next bit of
            // the dividend into the next quotient bit.
            lemma_fundamental_div_mod(dividend, 2 * m);
            assert(dividend == 2 * m * q0 + n0);
            assert(2 * q0 <= 2 * m * q0) by {
                lemma_mul_inequality(1, m, 2 * q0);
                lemma_mul_is_associative(m, 2, q0);
            }
            assert(q << 1 == q * 2) by (bit_vector)
                requires
                    q < 0x8000_0000u32,
            ;
            assert((2 * q0) * m == 2 * m * q0) by {
                lemma_mul_is_associative(2, q0, m);
                lemma_mul_is_commutative(q0, m);
                lemma_mul_is_associative(2, m, q0);
            }
            if n0 >= m {
                assert(dividend == (2 * q0 + 1) * m + (n0 - m)) by {
                    vstd::arithmetic::mul::lemma_mul_is_distributive_add_other_way(
                        m,
                        2 * q0,
                        1,
                    );
                }
                lemma_fundamental_div_mod_converse(dividend, m, 2 * q0 + 1, n0 - m);
            } else {
                lemma_fundamental_div_mod_converse(dividend, m, 2 * q0, n0);
            }
        }

        q = q << 1;  // write bit in q at index (size-1)
        if n >= p {
            n = n - p;
            q = q + 1;
        }

        proof {
            assert(p >> 1 == p / 2 && i >> 1 == i / 2) by (bit_vector);
            if i > 1 {
                assert(i % 2 == 0 && is_pow2(i as int / 2));
                assert(divisor * (i0 / 2) == m / 2 && 2 * (divisor * (i0 / 2)) == m) by {
                    lemma_mul_is_associative(divisor, i0 / 2, 2);
                    assert(divisor * ((i0 / 2) * 2) == divisor * i0);
                }
            }
        }

        p = p >> 1;  // decrease p
        i = i >> 1;  // decrease remaining size in q
    }
    qr.r = n;
    qr.q = q;
}

} // verus!
