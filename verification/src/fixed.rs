//! Fixed-point arithmetic helpers shared by the predictive encoder and
//! decoder: exact powers of two, sign extension of narrow coefficient
//! fields, flooring division (the arithmetic right shift of the predictor),
//! and reduction of a wide value into the 16-bit storage range.

use vstd::prelude::*;

verus! {

use vstd::arithmetic::power2::pow2;
use vstd::arithmetic::power2::lemma_pow2_strictly_increases;
use vstd::arithmetic::power2::lemma2_to64;
use vstd::arithmetic::div_mod::lemma_fundamental_div_mod;
use vstd::arithmetic::div_mod::lemma_fundamental_div_mod_converse;
use vstd::arithmetic::div_mod::lemma_mod_bound;

/// A coefficient field of `width` bits holds an unsigned raw value; it is
/// read as a signed value by sign extension from bit `width - 1`.
pub open spec fn sign_extend_spec(raw: nat, width: nat) -> int
    recommends
        1 <= width,
        raw < pow2(width),
{
    if raw >= pow2((width - 1) as nat) {
        raw - pow2(width)
    } else {
        raw as int
    }
}

/// 2 to the power `e`, as an executable value.
pub fn pow2_u32(e: u8) -> (r: u32)
    requires
        e <= 31,
    ensures
        r as nat == pow2(e as nat),
{
    let mut r: u32 = 1;
    let mut i: u8 = 0;
    proof {
        lemma2_to64();
    }
    while i < e
        invariant
            i <= e <= 31,
            r as nat == pow2(i as nat),
        decreases e - i,
    {
        proof {
            if (i as nat) < 31 {
                lemma_pow2_strictly_increases(i as nat, 31);
            }
            assert(pow2(31) == 0x80000000) by {
                lemma2_to64();
            }
        }
        r = r * 2;
        i = i + 1;
        assert(r as nat == pow2(i as nat)) by {
            vstd::arithmetic::power2::lemma_pow2_unfold(i as nat);
        }
    }
    r
}

/// Reads the raw unsigned content of a coefficient field as the signed
/// value `sign_extend_spec` describes.
pub fn sign_extend(raw: u16, width: u8) -> (r: i16)
    requires
        1 <= width <= 8,
        (raw as nat) < pow2(width as nat),
    ensures
        r as int == sign_extend_spec(raw as nat, width as nat),
        -128 <= r as int <= 127,
{
    let full = pow2_u32(width);
    let half = pow2_u32(width - 1);
    proof {
        lemma2_to64();
        lemma_pow2_strictly_increases((width - 1) as nat, width as nat);
        if (width as nat) < 8 {
            lemma_pow2_strictly_increases(width as nat, 8);
        }
        if ((width - 1) as nat) < 7 {
            lemma_pow2_strictly_increases((width - 1) as nat, 7);
        }
    }
    if (raw as u32) >= half {
        (raw as i16) - (full as i16)
    } else {
        raw as i16
    }
}

/// Flooring division of `a` by a positive divisor `d`: the quotient is
/// rounded toward negative infinity, exactly as an arithmetic right shift
/// rounds when `d` is a power of two.
pub fn floor_div(a: i64, d: i64) -> (q: i64)
    requires
        1 <= d <= 0x1_0000,
        -0x4000_0000_0000_0000 < a < 0x4000_0000_0000_0000,
    ensures
        q as int == a as int / d as int,
        a >= 0 ==> 0 <= q <= a,
        a < 0 ==> a <= q <= 0,
{
    if a >= 0 {
        let q = ((a as u64) / (d as u64)) as i64;
        proof {
            lemma_fundamental_div_mod(a as int, d as int);
            lemma_mod_bound(a as int, d as int);
            assert(a as int / d as int >= 0) by {
                vstd::arithmetic::div_mod::lemma_div_pos_is_pos(a as int, d as int);
            }
            // d * (a / d) == a - a % d, so the quotient is bounded by a.
            assert(q as int <= a as int) by (nonlinear_arith)
                requires
                    d as int >= 1,
                    q as int >= 0,
                    d as int * (q as int) <= a as int,
            ;
        }
        q
    } else {
        let n = (-a) as u64;
        let du = d as u64;
        let x = n + du - 1;
        let qn = x / du;
        proof {
            let xi: int = x as int;
            let di: int = d as int;
            let qni: int = qn as int;
            let ni: int = n as int;
            lemma_fundamental_div_mod(xi, di);
            lemma_mod_bound(xi, di);
            let rri: int = xi % di;
            assert(xi == di * qni + rri);
            // d * qn == n + d - 1 - rr with 0 <= rr < d, so 0 <= d * qn - n < d.
            let ri: int = di * qni - ni;
            assert(ri == di - 1 - rri);
            assert(0 <= ri < di);
            assert(qni <= ni) by (nonlinear_arith)
                requires
                    di >= 1,
                    qni >= 0,
                    di * qni <= ni + di - 1,
                    ni >= 1,
            ;
            assert(a as int == (-qni) * di + ri) by (nonlinear_arith)
                requires
                    a as int == -ni,
                    ri == di * qni - ni,
            ;
            lemma_fundamental_div_mod_converse(a as int, di, -qni, ri);
        }
        -(qn as i64)
    }
}

/// Reduces `v` modulo 2^16, the reduction the decoder applies when it
/// stores a reconstructed value back into a 16-bit sample.
pub open spec fn wrap16_spec(v: int) -> int {
    v % 0x1_0000
}

/// Executable reduction modulo 2^16 of a signed intermediate value.
pub fn wrap16(v: i64) -> (w: u16)
    requires
        -0x4000_0000_0000_0000 < v < 0x4000_0000_0000_0000,
    ensures
        w as int == wrap16_spec(v as int),
{
    let q = floor_div(v, 0x1_0000);
    proof {
        lemma_fundamental_div_mod(v as int, 0x1_0000);
        lemma_mod_bound(v as int, 0x1_0000);
    }
    (v - q * 0x1_0000) as u16
}

} // verus!
