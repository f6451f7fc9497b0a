//! Delta coding: the order-1 special case of the predictive coder with
//! the coefficient fixed at the unit value, so each prediction is simply
//! the previous reconstructed value and each residual a difference of
//! neighbours. The round-trip law reduces it to the general predictor
//! with a single coefficient of 1 at width 1, where the fixed-point
//! scale factor is 1 and the recurrences coincide.

use vstd::prelude::*;

verus! {

use vstd::arithmetic::power2::lemma2_to64;
use vstd::arithmetic::div_mod::lemma_fundamental_div_mod_converse;
use crate::CodecError;
use crate::fixed::wrap16;
use crate::fixed::wrap16_spec;
use crate::predictor::window_value;
use crate::predictor::partial_weighted_sum;
use crate::predictor::prediction_at;
use crate::predictor::residual_at;
use crate::predictor::decodes_to;
use crate::decoder::lemma_predictive_round_trip;
use crate::encoder::sample_view;
use crate::encoder::signed_view;

/// The delta residual at frame `i`: the sample minus its predecessor,
/// with a predecessor of 0 before the first frame.
pub open spec fn delta_residual_at(ints: Seq<int>, i: int) -> int {
    ints[i] - window_value(ints, i - 1)
}

/// The delta residual stream of a whole channel.
pub open spec fn spec_delta_residuals(ints: Seq<int>) -> Seq<int> {
    Seq::new(ints.len(), |i: int| delta_residual_at(ints, i))
}

/// Whether every delta residual fits the signed 16-bit storage.
pub open spec fn delta_encodable(ints: Seq<int>) -> bool {
    forall|i: int|
        0 <= i < ints.len() ==> -0x8000 <= #[trigger] delta_residual_at(ints, i) <= 0x7fff
}

/// The reconstruction recurrence of the delta decoder: each output is
/// its predecessor plus the stored residual, reduced to 16 bits.
pub open spec fn delta_decodes_to(out: Seq<int>, residuals: Seq<int>) -> bool {
    &&& out.len() == residuals.len()
    &&& forall|i: int|
        0 <= i < out.len() ==> #[trigger] out[i] == wrap16_spec(
            window_value(out, i - 1) + residuals[i],
        )
}

/// Emits the delta residual stream of a quantized channel, or reports
/// that some difference does not fit the signed 16-bit storage.
pub fn delta_encode(ints: &Vec<u16>) -> (r: Result<Vec<i16>, CodecError>)
    ensures
        match r {
            Ok(res) => {
                &&& delta_encodable(sample_view(ints@))
                &&& signed_view(res@) == spec_delta_residuals(sample_view(ints@))
                &&& res@.len() == ints@.len()
            },
            Err(e) => {
                &&& e == CodecError::ArithmeticOverflow
                &&& !delta_encodable(sample_view(ints@))
            },
        },
{
    let ghost gints = sample_view(ints@);
    let mut out: Vec<i16> = Vec::new();
    let mut prev: u16 = 0;
    let mut i: usize = 0;
    while i < ints.len()
        invariant
            i <= ints@.len(),
            out@.len() == i,
            gints == sample_view(ints@),
            prev as int == window_value(gints, i as int - 1),
            forall|j: int| 0 <= j < i ==> signed_view(out@)[j] == delta_residual_at(gints, j),
        decreases ints@.len() - i,
    {
        let cur = ints[i];
        let d: i32 = (cur as i32) - (prev as i32);
        if d < -0x8000 || d > 0x7fff {
            proof {
                assert(delta_residual_at(gints, i as int) == d as int);
            }
            return Err(CodecError::ArithmeticOverflow);
        }
        out.push(d as i16);
        prev = cur;
        i = i + 1;
    }
    proof {
        assert(signed_view(out@) =~= spec_delta_residuals(gints));
    }
    Ok(out)
}

/// Replays the delta recurrence: each reconstructed sample is its
/// predecessor plus the stored residual, reduced to 16 bits.
pub fn delta_decode(residuals: &Vec<i16>) -> (out: Vec<u16>)
    ensures
        delta_decodes_to(sample_view(out@), signed_view(residuals@)),
        out@.len() == residuals@.len(),
{
    let ghost gres = signed_view(residuals@);
    let mut out: Vec<u16> = Vec::new();
    let mut prev: u16 = 0;
    let mut i: usize = 0;
    while i < residuals.len()
        invariant
            i <= residuals@.len(),
            out@.len() == i,
            gres == signed_view(residuals@),
            prev as int == window_value(sample_view(out@), i as int - 1),
            forall|j: int|
                0 <= j < i ==> sample_view(out@)[j] == wrap16_spec(
                    window_value(sample_view(out@), j - 1) + gres[j],
                ),
        decreases residuals@.len() - i,
    {
        let ghost old_view = sample_view(out@);
        let v = wrap16((prev as i64) + (residuals[i] as i64));
        out.push(v);
        prev = v;
        i = i + 1;
        proof {
            assert(sample_view(out@) =~= old_view.push(v as int));
        }
    }
    out
}

/// With a single coefficient of 1 at width 1 the fixed-point prediction
/// is exactly the previous value.
pub proof fn lemma_unit_tap_prediction(vals: Seq<int>, i: int)
    ensures
        prediction_at(vals, i, seq![1int], 1) == window_value(vals, i - 1),
{
    lemma2_to64();
    let s = partial_weighted_sum(vals, i, seq![1int], 1);
    assert(s == window_value(vals, i - 1) * 1 + partial_weighted_sum(vals, i, seq![1int], 0));
    lemma_fundamental_div_mod_converse(s, 1, s, 0);
}

/// Delta coding is exactly invertible: decoding the delta residuals of
/// a 16-bit sample stream reproduces the stream.
pub proof fn lemma_delta_round_trip(ints: Seq<int>, residuals: Seq<int>, out: Seq<int>)
    requires
        forall|j: int| 0 <= j < ints.len() ==> 0 <= #[trigger] ints[j] < 0x1_0000,
        residuals.len() == ints.len(),
        forall|j: int|
            0 <= j < ints.len() ==> #[trigger] residuals[j] == delta_residual_at(ints, j),
        delta_decodes_to(out, residuals),
    ensures
        out == ints,
{
    assert forall|j: int| 0 <= j < ints.len() implies #[trigger] residuals[j] == residual_at(
        ints,
        j,
        seq![1int],
        1,
    ) by {
        lemma_unit_tap_prediction(ints, j);
    }
    assert forall|j: int| 0 <= j < out.len() implies #[trigger] out[j] == wrap16_spec(
        prediction_at(out, j, seq![1int], 1) + residuals[j],
    ) by {
        lemma_unit_tap_prediction(out, j);
    }
    assert(decodes_to(out, residuals, seq![1int], 1));
    lemma_predictive_round_trip(ints, residuals, out, seq![1int], 1);
}

} // verus!
