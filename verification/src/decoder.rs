//! The residual decoder: replays the fixed-point prediction recurrence
//! from a zero-initialized window, adding each stored residual to the
//! prediction computed from the values already reconstructed. The
//! round-trip law at the end shows the replay recovers the encoder's
//! input exactly.

use vstd::prelude::*;

verus! {

use vstd::arithmetic::div_mod::lemma_small_mod;
use vstd::arithmetic::power2::lemma2_to64;
use vstd::arithmetic::power2::lemma_pow2_strictly_increases;
use vstd::arithmetic::power2::pow2;
use crate::CodecError;
use crate::fixed::pow2_u32;
use crate::fixed::floor_div;
use crate::fixed::wrap16;
use crate::fixed::wrap16_spec;
use crate::predictor::window_value;
use crate::predictor::prediction_at;
use crate::predictor::residual_at;
use crate::predictor::decodes_to;
use crate::predictor::lemma_prediction_prefix;
use crate::encoder::sample_view;
use crate::encoder::signed_view;
use crate::encoder::weighted_sum_exec;

/// Reconstructs the quantized sample stream from stored coefficients and
/// residuals. The only failure is malformed input: coefficient or
/// residual data whose length does not match the declared tap order or
/// frame count.
pub fn decode(
    coefficients: &Vec<i16>,
    residuals: &Vec<i16>,
    tap_order: usize,
    coeff_bits: u8,
    num_frames: usize,
) -> (r: Result<Vec<u16>, CodecError>)
    requires
        1 <= coeff_bits <= 8,
        tap_order <= 0x1_0000,
    ensures
        match r {
            Ok(out) => {
                &&& coefficients@.len() == tap_order
                &&& residuals@.len() == num_frames
                &&& out@.len() == num_frames
                &&& decodes_to(
                    sample_view(out@),
                    signed_view(residuals@),
                    signed_view(coefficients@),
                    coeff_bits as nat,
                )
            },
            Err(e) => {
                &&& e == CodecError::MalformedStream
                &&& (coefficients@.len() != tap_order || residuals@.len() != num_frames)
            },
        },
{
    if coefficients.len() != tap_order || residuals.len() != num_frames {
        return Err(CodecError::MalformedStream);
    }
    let ghost gcoeffs = signed_view(coefficients@);
    let ghost gres = signed_view(residuals@);
    let half = pow2_u32(coeff_bits - 1);
    proof {
        lemma2_to64();
        if ((coeff_bits - 1) as nat) < 7 {
            lemma_pow2_strictly_increases((coeff_bits - 1) as nat, 7);
        }
    }
    let mut out: Vec<u16> = Vec::new();
    let mut i: usize = 0;
    while i < residuals.len()
        invariant
            i <= residuals@.len(),
            out@.len() == i,
            1 <= coeff_bits <= 8,
            coefficients@.len() == tap_order <= 0x1_0000,
            gcoeffs == signed_view(coefficients@),
            gres == signed_view(residuals@),
            half as nat == pow2((coeff_bits - 1) as nat),
            1 <= half <= 0x80,
            forall|j: int|
                0 <= j < i ==> sample_view(out@)[j] == wrap16_spec(
                    prediction_at(sample_view(out@), j, gcoeffs, coeff_bits as nat) + gres[j],
                ),
        decreases residuals@.len() - i,
    {
        let ghost old_view = sample_view(out@);
        let s = weighted_sum_exec(&out, i, coefficients);
        let p = floor_div(s, half as i64);
        let v = wrap16(p + (residuals[i] as i64));
        out.push(v);
        i = i + 1;
        proof {
            let new_view = sample_view(out@);
            assert(new_view =~= old_view.push(v as int));
            assert forall|j: int| 0 <= j < i implies new_view[j] == wrap16_spec(
                prediction_at(new_view, j, gcoeffs, coeff_bits as nat) + gres[j],
            ) by {
                assert(forall|m: int|
                    m < j ==> #[trigger] window_value(old_view, m) == window_value(new_view, m));
                lemma_prediction_prefix(old_view, new_view, j, gcoeffs, coeff_bits as nat);
                if j < i - 1 {
                    assert(old_view[j] == wrap16_spec(
                        prediction_at(old_view, j, gcoeffs, coeff_bits as nat) + gres[j],
                    ));
                } else {
                    assert(p as int == prediction_at(old_view, j, gcoeffs, coeff_bits as nat));
                }
            }
        }
    }
    Ok(out)
}

/// Two value sequences of equal length that satisfy, respectively, the
/// encoder's residual equation and the decoder's reconstruction equation
/// for the same residual stream agree on every prefix.
proof fn lemma_round_trip_prefix(
    ints: Seq<int>,
    residuals: Seq<int>,
    out: Seq<int>,
    coeffs: Seq<int>,
    coeff_bits: nat,
    i: int,
)
    requires
        forall|j: int| 0 <= j < ints.len() ==> 0 <= #[trigger] ints[j] < 0x1_0000,
        residuals.len() == ints.len(),
        forall|j: int|
            0 <= j < ints.len() ==> #[trigger] residuals[j] == residual_at(
                ints,
                j,
                coeffs,
                coeff_bits,
            ),
        decodes_to(out, residuals, coeffs, coeff_bits),
        0 <= i <= ints.len(),
    ensures
        forall|j: int| 0 <= j < i ==> #[trigger] out[j] == ints[j],
    decreases i,
{
    if i > 0 {
        lemma_round_trip_prefix(ints, residuals, out, coeffs, coeff_bits, i - 1);
        assert(forall|m: int|
            m < i - 1 ==> #[trigger] window_value(out, m) == window_value(ints, m));
        lemma_prediction_prefix(out, ints, i - 1, coeffs, coeff_bits);
        lemma_small_mod(ints[i - 1] as nat, 0x1_0000);
        assert(out[i - 1] == wrap16_spec(
            prediction_at(ints, i - 1, coeffs, coeff_bits) + residuals[i - 1],
        ));
        assert(out[i - 1] == ints[i - 1]);
    }
}

/// The reconstruction recurrence is deterministic: it has exactly one
/// solution for a given residual stream, coefficient vector and
/// coefficient width, so any two decoders that follow it agree.
pub proof fn lemma_decode_deterministic(
    out1: Seq<int>,
    out2: Seq<int>,
    residuals: Seq<int>,
    coeffs: Seq<int>,
    coeff_bits: nat,
)
    requires
        decodes_to(out1, residuals, coeffs, coeff_bits),
        decodes_to(out2, residuals, coeffs, coeff_bits),
    ensures
        out1 == out2,
{
    lemma_decode_deterministic_prefix(out1, out2, residuals, coeffs, coeff_bits, out1.len() as int);
    assert(out1 =~= out2);
}

/// Two solutions of the reconstruction recurrence agree on every prefix.
proof fn lemma_decode_deterministic_prefix(
    out1: Seq<int>,
    out2: Seq<int>,
    residuals: Seq<int>,
    coeffs: Seq<int>,
    coeff_bits: nat,
    i: int,
)
    requires
        decodes_to(out1, residuals, coeffs, coeff_bits),
        decodes_to(out2, residuals, coeffs, coeff_bits),
        0 <= i <= out1.len(),
    ensures
        forall|j: int| 0 <= j < i ==> #[trigger] out1[j] == out2[j],
    decreases i,
{
    if i > 0 {
        lemma_decode_deterministic_prefix(out1, out2, residuals, coeffs, coeff_bits, i - 1);
        assert(forall|m: int|
            m < i - 1 ==> #[trigger] window_value(out1, m) == window_value(out2, m));
        lemma_prediction_prefix(out1, out2, i - 1, coeffs, coeff_bits);
    }
}

/// The predictive transform is exactly invertible: a residual stream
/// produced by the encoder's recurrence over `ints`, replayed by the
/// decoder's reconstruction recurrence, yields `ints` again, for every
/// coefficient vector and coefficient width.
pub proof fn lemma_predictive_round_trip(
    ints: Seq<int>,
    residuals: Seq<int>,
    out: Seq<int>,
    coeffs: Seq<int>,
    coeff_bits: nat,
)
    requires
        forall|j: int| 0 <= j < ints.len() ==> 0 <= #[trigger] ints[j] < 0x1_0000,
        residuals.len() == ints.len(),
        forall|j: int|
            0 <= j < ints.len() ==> #[trigger] residuals[j] == residual_at(
                ints,
                j,
                coeffs,
                coeff_bits,
            ),
        decodes_to(out, residuals, coeffs, coeff_bits),
    ensures
        out == ints,
{
    lemma_round_trip_prefix(ints, residuals, out, coeffs, coeff_bits, ints.len() as int);
    assert(out =~= ints);
}

} // verus!
