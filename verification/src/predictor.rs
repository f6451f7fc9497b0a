//! The fixed-point linear prediction recurrence, stated over mathematical
//! sequences. A predictor of tap order `t` with coefficient width `w`
//! predicts the sample at frame `i` as
//! `(sum over k < t of value[i - 1 - k] * coeff[k]) / 2^(w - 1)`,
//! where values before frame 0 read as 0 (a zero-initialized window) and
//! the division floors, as an arithmetic right shift does.

use vstd::prelude::*;

verus! {

use vstd::arithmetic::power2::pow2;
use crate::fixed::wrap16_spec;

/// The value the prediction window reads at position `i`: the sample
/// there, or 0 before the start of the stream.
pub open spec fn window_value(vals: Seq<int>, i: int) -> int {
    if 0 <= i < vals.len() {
        vals[i]
    } else {
        0
    }
}

/// The sum of the first `k` products of the prediction at frame `i`:
/// terms `window_value(vals, i - 1 - j) * coeffs[j]` for `j < k`.
pub open spec fn partial_weighted_sum(vals: Seq<int>, i: int, coeffs: Seq<int>, k: int) -> int
    decreases k,
{
    if k <= 0 {
        0
    } else {
        partial_weighted_sum(vals, i, coeffs, k - 1) + window_value(vals, i - k) * coeffs[k - 1]
    }
}

/// The full weighted sum of the prediction at frame `i`.
pub open spec fn weighted_sum(vals: Seq<int>, i: int, coeffs: Seq<int>) -> int {
    partial_weighted_sum(vals, i, coeffs, coeffs.len() as int)
}

/// The fixed-point prediction at frame `i`: the weighted sum of the
/// previous `coeffs.len()` values, shifted right by `coeff_bits - 1`.
pub open spec fn prediction_at(vals: Seq<int>, i: int, coeffs: Seq<int>, coeff_bits: nat) -> int
    recommends
        1 <= coeff_bits,
{
    weighted_sum(vals, i, coeffs) / pow2((coeff_bits - 1) as nat) as int
}

/// The residual the encoder stores at frame `i`: the actual value minus
/// its prediction from the true earlier values.
pub open spec fn residual_at(ints: Seq<int>, i: int, coeffs: Seq<int>, coeff_bits: nat) -> int {
    ints[i] - prediction_at(ints, i, coeffs, coeff_bits)
}

/// The residual sequence of a whole channel for one coefficient vector.
pub open spec fn spec_residuals(ints: Seq<int>, coeffs: Seq<int>, coeff_bits: nat) -> Seq<int> {
    Seq::new(ints.len(), |i: int| residual_at(ints, i, coeffs, coeff_bits))
}

/// Whether every residual of the channel fits the signed 16-bit storage.
pub open spec fn encodable(ints: Seq<int>, coeffs: Seq<int>, coeff_bits: nat) -> bool {
    forall|i: int|
        0 <= i < ints.len() ==> -0x8000 <= #[trigger] residual_at(ints, i, coeffs, coeff_bits)
            <= 0x7fff
}

/// The reconstruction recurrence the decoder obeys: each output value is
/// the prediction from its own earlier outputs, plus the stored residual,
/// reduced into the 16-bit sample range.
pub open spec fn decodes_to(out: Seq<int>, residuals: Seq<int>, coeffs: Seq<int>, coeff_bits: nat) -> bool {
    &&& out.len() == residuals.len()
    &&& forall|i: int|
        0 <= i < out.len() ==> #[trigger] out[i] == wrap16_spec(
            prediction_at(out, i, coeffs, coeff_bits) + residuals[i],
        )
}

/// The weighted sum at frame `i` only reads window positions below `i`,
/// so two value sequences that agree below `i` produce the same sum.
pub proof fn lemma_partial_weighted_sum_prefix(
    v1: Seq<int>,
    v2: Seq<int>,
    i: int,
    coeffs: Seq<int>,
    k: int,
)
    requires
        forall|j: int| j < i ==> #[trigger] window_value(v1, j) == window_value(v2, j),
    ensures
        partial_weighted_sum(v1, i, coeffs, k) == partial_weighted_sum(v2, i, coeffs, k),
    decreases k,
{
    if k > 0 {
        lemma_partial_weighted_sum_prefix(v1, v2, i, coeffs, k - 1);
        assert(window_value(v1, i - k) == window_value(v2, i - k));
    }
}

/// The prediction at frame `i` depends only on values below `i`.
pub proof fn lemma_prediction_prefix(
    v1: Seq<int>,
    v2: Seq<int>,
    i: int,
    coeffs: Seq<int>,
    coeff_bits: nat,
)
    requires
        forall|j: int| j < i ==> #[trigger] window_value(v1, j) == window_value(v2, j),
    ensures
        prediction_at(v1, i, coeffs, coeff_bits) == prediction_at(v2, i, coeffs, coeff_bits),
{
    lemma_partial_weighted_sum_prefix(v1, v2, i, coeffs, coeffs.len() as int);
}

} // verus!
