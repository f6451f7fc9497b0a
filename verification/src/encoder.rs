//! The predictive residual encoder: runs the fixed-point prediction
//! recurrence over a quantized channel, emits signed 16-bit residuals,
//! and selects the coefficient vector with the least sum of squared
//! residuals by exhaustive search over the packed coefficient space.

use vstd::prelude::*;

verus! {

use vstd::arithmetic::power2::pow2;
use vstd::arithmetic::power2::lemma_pow2_strictly_increases;
use vstd::arithmetic::power2::lemma2_to64;
use crate::CodecError;
use crate::fixed::sign_extend_spec;
use crate::fixed::sign_extend;
use crate::fixed::pow2_u32;
use crate::fixed::floor_div;
use crate::predictor::window_value;
use crate::predictor::partial_weighted_sum;
use crate::predictor::weighted_sum;
use crate::predictor::prediction_at;
use crate::predictor::residual_at;
use crate::predictor::spec_residuals;
use crate::predictor::encodable;

/// Largest total width, in bits, of a packed coefficient vector that the
/// exhaustive search accepts; beyond it the search space is impractical.
pub const MAX_SEARCH_BITS: usize = 16;

/// A sequence of unsigned 16-bit samples, as mathematical integers.
pub open spec fn sample_view(s: Seq<u16>) -> Seq<int> {
    s.map_values(|x: u16| x as int)
}

/// A sequence of signed 16-bit values, as mathematical integers.
pub open spec fn signed_view(s: Seq<i16>) -> Seq<int> {
    s.map_values(|x: i16| x as int)
}

/// The weighted sum of the prediction at frame `i`, computed over the
/// true samples with a 64-bit accumulator.
pub(crate) fn weighted_sum_exec(vals: &Vec<u16>, i: usize, coeffs: &Vec<i16>) -> (s: i64)
    requires
        coeffs@.len() <= 0x1_0000,
        i <= vals@.len(),
    ensures
        s as int == weighted_sum(sample_view(vals@), i as int, signed_view(coeffs@)),
        -0x1_0000_0000_0000 <= s <= 0x1_0000_0000_0000,
{
    let ghost gvals = sample_view(vals@);
    let ghost gcoeffs = signed_view(coeffs@);
    let mut acc: i64 = 0;
    let mut k: usize = 0;
    while k < coeffs.len()
        invariant
            k <= coeffs@.len() <= 0x1_0000,
            i <= vals@.len(),
            gvals == sample_view(vals@),
            gcoeffs == signed_view(coeffs@),
            acc as int == partial_weighted_sum(gvals, i as int, gcoeffs, k as int),
            -(k as int) * 0x8000_0000 <= acc as int <= (k as int) * 0x8000_0000,
        decreases coeffs@.len() - k,
    {
        let v: u16 = if k + 1 <= i {
            vals[i - 1 - k]
        } else {
            0
        };
        proof {
            assert(v as int == window_value(gvals, i as int - 1 - k as int));
            assert(-0x8000_0000 <= (v as int) * (coeffs@[k as int] as int)
                <= 0x8000_0000) by (nonlinear_arith)
                requires
                    0 <= v as int <= 0xffff,
                    -0x8000 <= coeffs@[k as int] as int <= 0x7fff,
            ;
        }
        let term: i64 = (v as i64) * (coeffs[k] as i64);
        acc = acc + term;
        k = k + 1;
        proof {
            assert(acc as int == partial_weighted_sum(gvals, i as int, gcoeffs, k as int));
        }
    }
    acc
}

/// Runs the prediction recurrence with a fixed coefficient vector and
/// returns the residual stream, or reports that some residual does not
/// fit the signed 16-bit storage.
pub fn encode_with_coeffs(ints: &Vec<u16>, coeffs: &Vec<i16>, coeff_bits: u8) -> (r: Result<
    Vec<i16>,
    CodecError,
>)
    requires
        1 <= coeff_bits <= 8,
        coeffs@.len() <= 0x1_0000,
    ensures
        match r {
            Ok(res) => {
                &&& encodable(sample_view(ints@), signed_view(coeffs@), coeff_bits as nat)
                &&& signed_view(res@) == spec_residuals(
                    sample_view(ints@),
                    signed_view(coeffs@),
                    coeff_bits as nat,
                )
                &&& res@.len() == ints@.len()
            },
            Err(e) => {
                &&& e == CodecError::ArithmeticOverflow
                &&& !encodable(sample_view(ints@), signed_view(coeffs@), coeff_bits as nat)
            },
        },
{
    let ghost gints = sample_view(ints@);
    let ghost gcoeffs = signed_view(coeffs@);
    let half = pow2_u32(coeff_bits - 1);
    proof {
        lemma2_to64();
        if ((coeff_bits - 1) as nat) < 7 {
            lemma_pow2_strictly_increases((coeff_bits - 1) as nat, 7);
        }
    }
    let mut out: Vec<i16> = Vec::new();
    let mut i: usize = 0;
    while i < ints.len()
        invariant
            i <= ints@.len(),
            1 <= coeff_bits <= 8,
            coeffs@.len() <= 0x1_0000,
            gints == sample_view(ints@),
            gcoeffs == signed_view(coeffs@),
            half as nat == pow2((coeff_bits - 1) as nat),
            1 <= half <= 0x80,
            out@.len() == i,
            forall|j: int|
                0 <= j < i ==> signed_view(out@)[j] == residual_at(
                    gints,
                    j,
                    gcoeffs,
                    coeff_bits as nat,
                ),
        decreases ints@.len() - i,
    {
        let s = weighted_sum_exec(ints, i, coeffs);
        let p = floor_div(s, half as i64);
        proof {
            assert(p as int == prediction_at(gints, i as int, gcoeffs, coeff_bits as nat));
        }
        let resid: i64 = (ints[i] as i64) - p;
        proof {
            assert(resid as int == residual_at(gints, i as int, gcoeffs, coeff_bits as nat));
        }
        if resid < -0x8000 || resid > 0x7fff {
            return Err(CodecError::ArithmeticOverflow);
        }
        out.push(resid as i16);
        i = i + 1;
    }
    proof {
        assert(signed_view(out@) =~= spec_residuals(gints, gcoeffs, coeff_bits as nat));
    }
    Ok(out)
}

/// The sum of the squares of a residual sequence.
pub open spec fn sum_squares(res: Seq<int>) -> int
    decreases res.len(),
{
    if res.len() == 0 {
        0
    } else {
        sum_squares(res.drop_last()) + res.last() * res.last()
    }
}

/// Computes the sum of squared residuals with a 64-bit accumulator.
pub fn sum_squares_exec(res: &Vec<i16>) -> (s: u64)
    requires
        res@.len() <= 0x1_0000_0000,
    ensures
        s as int == sum_squares(signed_view(res@)),
{
    let ghost gres = signed_view(res@);
    let mut acc: u64 = 0;
    let mut i: usize = 0;
    while i < res.len()
        invariant
            i <= res@.len() <= 0x1_0000_0000,
            gres == signed_view(res@),
            acc as int == sum_squares(gres.take(i as int)),
            acc as int <= (i as int) * 0x4000_0000,
        decreases res@.len() - i,
    {
        let v = res[i];
        proof {
            assert(0 <= (v as int) * (v as int) <= 0x4000_0000) by (nonlinear_arith)
                requires
                    -0x8000 <= v as int <= 0x7fff,
            ;
        }
        let sq: i64 = (v as i64) * (v as i64);
        proof {
            assert(gres.take(i as int + 1).drop_last() =~= gres.take(i as int));
            assert(gres.take(i as int + 1).last() == v as int);
        }
        acc = acc + (sq as u64);
        i = i + 1;
    }
    proof {
        assert(gres.take(res@.len() as int) =~= gres);
    }
    acc
}

/// The signed coefficient vector packed into `code`: field `k` occupies
/// bits `k * width .. (k + 1) * width` and is read by sign extension.
pub open spec fn unpack_coeffs(code: nat, tap_order: nat, width: nat) -> Seq<int>
    decreases tap_order,
{
    if tap_order == 0 {
        Seq::empty()
    } else {
        seq![sign_extend_spec(code % pow2(width), width)] + unpack_coeffs(
            code / pow2(width),
            (tap_order - 1) as nat,
            width,
        )
    }
}

/// Unpacks a coefficient code into its signed coefficient vector.
pub fn unpack_coefficients(code: u32, tap_order: usize, coeff_bits: u8) -> (c: Vec<i16>)
    requires
        1 <= coeff_bits <= 8,
        tap_order <= 16,
    ensures
        c@.len() == tap_order,
        signed_view(c@) == unpack_coeffs(code as nat, tap_order as nat, coeff_bits as nat),
        forall|k: int| 0 <= k < tap_order ==> -0x80 <= #[trigger] (c@[k] as int) <= 0x7f,
{
    let full = pow2_u32(coeff_bits);
    proof {
        lemma2_to64();
        if (coeff_bits as nat) < 8 {
            lemma_pow2_strictly_increases(coeff_bits as nat, 8);
        }
    }
    let mut out: Vec<i16> = Vec::new();
    let mut rem: u32 = code;
    let mut k: usize = 0;
    while k < tap_order
        invariant
            k <= tap_order <= 16,
            1 <= coeff_bits <= 8,
            full as nat == pow2(coeff_bits as nat),
            2 <= full <= 0x100,
            out@.len() == k,
            signed_view(out@) + unpack_coeffs(
                rem as nat,
                (tap_order - k) as nat,
                coeff_bits as nat,
            ) == unpack_coeffs(code as nat, tap_order as nat, coeff_bits as nat),
            forall|j: int| 0 <= j < k ==> -0x80 <= #[trigger] (out@[j] as int) <= 0x7f,
        decreases tap_order - k,
    {
        let raw = rem % full;
        let c = sign_extend(raw as u16, coeff_bits);
        proof {
            assert((raw as nat) == (rem as nat) % pow2(coeff_bits as nat));
            assert(unpack_coeffs(rem as nat, (tap_order - k) as nat, coeff_bits as nat)
                == seq![sign_extend_spec(raw as nat, coeff_bits as nat)] + unpack_coeffs(
                (rem / full) as nat,
                (tap_order - k - 1) as nat,
                coeff_bits as nat,
            ));
        }
        let ghost old_out = out@;
        out.push(c);
        rem = rem / full;
        k = k + 1;
        proof {
            assert(signed_view(out@) =~= signed_view(old_out).push(c as int));
            assert(signed_view(old_out).push(c as int) + unpack_coeffs(
                rem as nat,
                (tap_order - k) as nat,
                coeff_bits as nat,
            ) =~= signed_view(old_out) + (seq![c as int] + unpack_coeffs(
                rem as nat,
                (tap_order - k) as nat,
                coeff_bits as nat,
            )));
        }
    }
    proof {
        assert(signed_view(out@) + Seq::<int>::empty() =~= signed_view(out@));
    }
    out
}

/// The residual stream a packed candidate coefficient vector produces.
pub open spec fn candidate_residuals(ints: Seq<int>, code: nat, tap_order: nat, width: nat) -> Seq<
    int,
> {
    spec_residuals(ints, unpack_coeffs(code, tap_order, width), width)
}

/// Whether a packed candidate's residuals all fit signed 16-bit storage.
pub open spec fn candidate_encodable(ints: Seq<int>, code: nat, tap_order: nat, width: nat) -> bool {
    encodable(ints, unpack_coeffs(code, tap_order, width), width)
}

/// The sum of squared residuals of a packed candidate.
pub open spec fn candidate_sse(ints: Seq<int>, code: nat, tap_order: nat, width: nat) -> int {
    sum_squares(candidate_residuals(ints, code, tap_order, width))
}

/// One encoded channel: the selected packed coefficient code, the same
/// coefficients unpacked to their signed values, and the residuals.
pub struct EncodedChannel {
    /// The packed unsigned storage form of the coefficient vector.
    pub coeff_code: u32,
    /// The coefficients, sign-extended to their signed values.
    pub coefficients: Vec<i16>,
    /// One signed residual per frame.
    pub residuals: Vec<i16>,
}

/// Encodes a quantized channel: exhaustively searches every packed
/// coefficient vector of `tap_order` fields of `coeff_bits` bits, runs
/// the full recurrence for each, and keeps the candidate with the least
/// sum of squared residuals, ties broken toward the lowest code.
pub fn encode(ints: &Vec<u16>, tap_order: usize, coeff_bits: u8) -> (r: Result<
    EncodedChannel,
    CodecError,
>)
    requires
        ints@.len() <= 0x1_0000_0000,
    ensures
        match r {
            Ok(enc) => {
                &&& 1 <= coeff_bits <= 8
                &&& tap_order * coeff_bits <= MAX_SEARCH_BITS
                &&& (enc.coeff_code as nat) < pow2((tap_order * coeff_bits) as nat)
                &&& enc.coefficients@.len() == tap_order
                &&& signed_view(enc.coefficients@) == unpack_coeffs(
                    enc.coeff_code as nat,
                    tap_order as nat,
                    coeff_bits as nat,
                )
                &&& candidate_encodable(
                    sample_view(ints@),
                    enc.coeff_code as nat,
                    tap_order as nat,
                    coeff_bits as nat,
                )
                &&& signed_view(enc.residuals@) == candidate_residuals(
                    sample_view(ints@),
                    enc.coeff_code as nat,
                    tap_order as nat,
                    coeff_bits as nat,
                )
                &&& enc.residuals@.len() == ints@.len()
                &&& forall|c: nat|
                    c < pow2((tap_order * coeff_bits) as nat) && candidate_encodable(
                        sample_view(ints@),
                        c,
                        tap_order as nat,
                        coeff_bits as nat,
                    ) ==> candidate_sse(
                        sample_view(ints@),
                        enc.coeff_code as nat,
                        tap_order as nat,
                        coeff_bits as nat,
                    ) <= #[trigger] candidate_sse(sample_view(ints@), c, tap_order as nat, coeff_bits as nat)
                        && (candidate_sse(
                        sample_view(ints@),
                        enc.coeff_code as nat,
                        tap_order as nat,
                        coeff_bits as nat,
                    ) == candidate_sse(sample_view(ints@), c, tap_order as nat, coeff_bits as nat)
                        ==> enc.coeff_code as nat <= c)
            },
            Err(e) => {
                ||| {
                    &&& e == CodecError::InvalidConfiguration
                    &&& !(1 <= coeff_bits <= 8 && tap_order * coeff_bits <= MAX_SEARCH_BITS)
                }
                ||| {
                    &&& e == CodecError::ArithmeticOverflow
                    &&& 1 <= coeff_bits <= 8 && tap_order * coeff_bits <= MAX_SEARCH_BITS
                    &&& forall|c: nat|
                        c < pow2((tap_order * coeff_bits) as nat) ==> !candidate_encodable(
                            sample_view(ints@),
                            c,
                            tap_order as nat,
                            coeff_bits as nat,
                        )
                }
            },
        },
{
    if coeff_bits < 1 || coeff_bits > 8 {
        return Err(CodecError::InvalidConfiguration);
    }
    if tap_order > MAX_SEARCH_BITS {
        proof {
            assert(tap_order * coeff_bits >= tap_order) by (nonlinear_arith)
                requires
                    coeff_bits >= 1,
                    tap_order >= 0,
            ;
        }
        return Err(CodecError::InvalidConfiguration);
    }
    proof {
        assert(0 <= tap_order * (coeff_bits as usize) <= 128) by (nonlinear_arith)
            requires
                tap_order <= 16,
                1 <= coeff_bits <= 8,
        ;
    }
    if tap_order * (coeff_bits as usize) > MAX_SEARCH_BITS {
        return Err(CodecError::InvalidConfiguration);
    }
    let total_bits = tap_order * (coeff_bits as usize);
    let pmax: u32 = pow2_u32(total_bits as u8);
    let ghost gints = sample_view(ints@);
    let ghost t = tap_order as nat;
    let ghost w = coeff_bits as nat;
    let mut best: Option<EncodedChannel> = None;
    let mut best_sse: u64 = 0;
    let mut code: u32 = 0;
    while code < pmax
        invariant
            code <= pmax,
            pmax as nat == pow2((tap_order * coeff_bits) as nat),
            1 <= coeff_bits <= 8,
            tap_order <= 16,
            tap_order * coeff_bits <= MAX_SEARCH_BITS,
            gints == sample_view(ints@),
            t == tap_order as nat,
            w == coeff_bits as nat,
            ints@.len() <= 0x1_0000_0000,
            best is None ==> forall|c: nat| c < code as nat ==> !candidate_encodable(gints, c, t, w),
            best matches Some(b) ==> {
                &&& (b.coeff_code as nat) < code as nat
                &&& b.coefficients@.len() == tap_order
                &&& signed_view(b.coefficients@) == unpack_coeffs(b.coeff_code as nat, t, w)
                &&& candidate_encodable(gints, b.coeff_code as nat, t, w)
                &&& signed_view(b.residuals@) == candidate_residuals(gints, b.coeff_code as nat, t, w)
                &&& b.residuals@.len() == ints@.len()
                &&& best_sse as int == candidate_sse(gints, b.coeff_code as nat, t, w)
                &&& forall|c: nat|
                    c < code as nat && candidate_encodable(gints, c, t, w) ==> best_sse as int
                        <= #[trigger] candidate_sse(gints, c, t, w) && (best_sse as int
                        == candidate_sse(gints, c, t, w) ==> b.coeff_code as nat <= c)
            },
        decreases pmax - code,
    {
        let coeffs = unpack_coefficients(code, tap_order, coeff_bits);
        match encode_with_coeffs(ints, &coeffs, coeff_bits) {
            Ok(res) => {
                let s = sum_squares_exec(&res);
                proof {
                    assert(signed_view(res@) == candidate_residuals(gints, code as nat, t, w));
                    assert(s as int == candidate_sse(gints, code as nat, t, w));
                }
                if best.is_none() || s < best_sse {
                    best = Some(
                        EncodedChannel { coeff_code: code, coefficients: coeffs, residuals: res },
                    );
                    best_sse = s;
                }
            },
            Err(_) => {
                proof {
                    assert(!candidate_encodable(gints, code as nat, t, w));
                }
            },
        }
        code = code + 1;
    }
    match best {
        Some(enc) => Ok(enc),
        None => Err(CodecError::ArithmeticOverflow),
    }
}

/// Coefficient code 0 unpacks to the all-zero coefficient vector.
proof fn lemma_zero_code_unpacks_to_zeros(tap_order: nat, width: nat)
    requires
        1 <= width,
    ensures
        unpack_coeffs(0, tap_order, width).len() == tap_order,
        forall|k: int|
            0 <= k < tap_order ==> #[trigger] unpack_coeffs(0, tap_order, width)[k] == 0,
    decreases tap_order,
{
    vstd::arithmetic::power2::lemma_pow2_pos(width);
    vstd::arithmetic::power2::lemma_pow2_pos((width - 1) as nat);
    if tap_order > 0 {
        vstd::arithmetic::div_mod::lemma_small_mod(0, pow2(width));
        vstd::arithmetic::div_mod::lemma_fundamental_div_mod_converse(
            0,
            pow2(width) as int,
            0,
            0,
        );
        lemma_zero_code_unpacks_to_zeros((tap_order - 1) as nat, width);
    }
}

/// With an all-zero coefficient vector every weighted sum is 0.
proof fn lemma_zero_coeffs_weighted_sum(vals: Seq<int>, i: int, coeffs: Seq<int>, k: int)
    requires
        forall|m: int| 0 <= m < coeffs.len() ==> #[trigger] coeffs[m] == 0,
        k <= coeffs.len(),
    ensures
        partial_weighted_sum(vals, i, coeffs, k) == 0,
    decreases k,
{
    if k > 0 {
        lemma_zero_coeffs_weighted_sum(vals, i, coeffs, k - 1);
        assert(window_value(vals, i - k) * coeffs[k - 1] == 0);
    }
}

/// Coefficient code 0 is the "no prediction" baseline: its residuals
/// are the samples themselves, and its sum of squared residuals the sum
/// of squared samples.
pub proof fn lemma_zero_code_is_baseline(ints: Seq<int>, tap_order: nat, width: nat)
    requires
        1 <= width,
    ensures
        candidate_residuals(ints, 0, tap_order, width) == ints,
        candidate_sse(ints, 0, tap_order, width) == sum_squares(ints),
{
    lemma_zero_code_unpacks_to_zeros(tap_order, width);
    let coeffs = unpack_coeffs(0, tap_order, width);
    assert forall|i: int| 0 <= i < ints.len() implies #[trigger] residual_at(
        ints,
        i,
        coeffs,
        width,
    ) == ints[i] by {
        lemma_zero_coeffs_weighted_sum(ints, i, coeffs, coeffs.len() as int);
        vstd::arithmetic::power2::lemma_pow2_pos((width - 1) as nat);
        vstd::arithmetic::div_mod::lemma_fundamental_div_mod_converse(
            0,
            pow2((width - 1) as nat) as int,
            0,
            0,
        );
    }
    assert(candidate_residuals(ints, 0, tap_order, width) =~= ints);
}

/// The search never does worse than no prediction: whenever the all-zero
/// baseline is itself storable, the sum of squared residuals of any
/// coefficient code that is optimal among the storable candidates — as
/// the code `encode` selects is — is at most the sum of squared samples,
/// the baseline's residual energy.
pub proof fn lemma_search_no_worse_than_baseline(
    ints: Seq<int>,
    code: nat,
    tap_order: nat,
    width: nat,
)
    requires
        1 <= width,
        candidate_encodable(ints, 0, tap_order, width),
        forall|c: nat|
            c < pow2((tap_order * width) as nat) && candidate_encodable(ints, c, tap_order, width)
                ==> candidate_sse(ints, code, tap_order, width) <= #[trigger] candidate_sse(
                ints,
                c,
                tap_order,
                width,
            ),
    ensures
        candidate_sse(ints, code, tap_order, width) <= sum_squares(ints),
{
    vstd::arithmetic::power2::lemma_pow2_pos((tap_order * width) as nat);
    lemma_zero_code_is_baseline(ints, tap_order, width);
    assert(candidate_sse(ints, code, tap_order, width) <= candidate_sse(ints, 0, tap_order, width));
}

} // verus!
