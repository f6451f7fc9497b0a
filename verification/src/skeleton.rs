//! The skeleton tree: joints with typed channels, child joints or a
//! terminal end-site offset. The tree assigns every channel a canonical
//! depth-first index — a joint's own channels in declared order, then
//! its children in declared order — and that single assignment drives
//! both extraction of per-channel columns from a frame-major sample
//! matrix and reassembly of the matrix from per-channel columns.
//!
//! Sample words are carried as opaque 64-bit bit patterns: the codec
//! never interprets them here, it only moves them between the
//! frame-major and the channel-major layout.

use vstd::prelude::*;

verus! {

use crate::CodecError;

broadcast use vstd::std_specs::vec::group_vec_axioms;

/// The six channel kinds: one translation or rotation axis of a joint.
#[derive(Clone, Copy, PartialEq, Eq, Structural, Debug)]
pub enum ChannelType {
    TranslationX,
    TranslationY,
    TranslationZ,
    RotationX,
    RotationY,
    RotationZ,
}

/// One animation channel with its encode-stage metadata: the
/// quantization width and observed minimum/range (the two as raw bit
/// patterns of the stored 32-bit floating values, opaque to the codec),
/// the coefficient width, the signed predictor coefficients (the tap
/// order is their number), and one signed residual per frame.
pub struct Channel {
    /// Which axis this channel animates.
    pub type_: ChannelType,
    /// Quantization bit width, 1 to 16.
    pub quant_bits: u8,
    /// Bit pattern of the channel's observed minimum value.
    pub value_range_min_bits: u32,
    /// Bit pattern of the channel's observed range (maximum - minimum).
    pub value_range_bits: u32,
    /// Coefficient bit width, 1 to 8.
    pub coeff_bits: u8,
    /// Sign-extended fixed-point predictor coefficients, one per tap.
    pub coefficients: Vec<i16>,
    /// Signed residuals, one per frame.
    pub residuals: Vec<i16>,
}

impl Channel {
    /// The metadata invariants a channel carries after encoding: bit
    /// widths in their documented ranges, and a tap order the decoder's
    /// prediction window can hold.
    pub open spec fn wf(self) -> bool {
        &&& 1 <= self.quant_bits <= 16
        &&& 1 <= self.coeff_bits <= 8
        &&& self.coefficients@.len() <= 0x1_0000
    }

    /// Builds a delta-coded channel: tap order 1 with the unit
    /// coefficient, residuals the differences of neighbouring samples.
    pub fn from_delta(
        type_: ChannelType,
        quant_bits: u8,
        value_range_min_bits: u32,
        value_range_bits: u32,
        ints: &Vec<u16>,
    ) -> (r: Result<Channel, CodecError>)
        requires
            1 <= quant_bits <= 16,
        ensures
            match r {
                Ok(ch) => {
                    &&& ch.type_ == type_
                    &&& ch.quant_bits == quant_bits
                    &&& ch.value_range_min_bits == value_range_min_bits
                    &&& ch.value_range_bits == value_range_bits
                    &&& ch.coeff_bits == 1
                    &&& crate::encoder::signed_view(ch.coefficients@) == seq![1int]
                    &&& crate::delta::delta_encodable(crate::encoder::sample_view(ints@))
                    &&& crate::encoder::signed_view(ch.residuals@)
                        == crate::delta::spec_delta_residuals(crate::encoder::sample_view(ints@))
                    &&& ch.residuals@.len() == ints@.len()
                    &&& ch.wf()
                },
                Err(e) => {
                    &&& e == CodecError::ArithmeticOverflow
                    &&& !crate::delta::delta_encodable(crate::encoder::sample_view(ints@))
                },
            },
    {
        let residuals = match crate::delta::delta_encode(ints) {
            Ok(res) => res,
            Err(e) => {
                return Err(e);
            },
        };
        let coefficients: Vec<i16> = vec![1i16];
        proof {
            assert(crate::encoder::signed_view(coefficients@) =~= seq![1int]);
        }
        Ok(
            Channel {
                type_,
                quant_bits,
                value_range_min_bits,
                value_range_bits,
                coeff_bits: 1,
                coefficients,
                residuals,
            },
        )
    }

    /// Builds a predictively coded channel: the exhaustive search picks
    /// the coefficient vector with the least sum of squared residuals,
    /// and the channel stores those coefficients and residuals.
    pub fn from_predictive(
        type_: ChannelType,
        quant_bits: u8,
        value_range_min_bits: u32,
        value_range_bits: u32,
        ints: &Vec<u16>,
        tap_order: usize,
        coeff_bits: u8,
    ) -> (r: Result<Channel, CodecError>)
        requires
            1 <= quant_bits <= 16,
            ints@.len() <= 0x1_0000_0000,
        ensures
            match r {
                Ok(ch) => {
                    &&& ch.type_ == type_
                    &&& ch.quant_bits == quant_bits
                    &&& ch.value_range_min_bits == value_range_min_bits
                    &&& ch.value_range_bits == value_range_bits
                    &&& ch.coeff_bits == coeff_bits
                    &&& ch.coefficients@.len() == tap_order
                    &&& ch.residuals@.len() == ints@.len()
                    &&& ch.wf()
                    &&& exists|code: nat|
                        {
                            &&& code < vstd::arithmetic::power2::pow2(
                                (tap_order * coeff_bits) as nat,
                            )
                            &&& crate::encoder::signed_view(ch.coefficients@)
                                == #[trigger] crate::encoder::unpack_coeffs(
                                code,
                                tap_order as nat,
                                coeff_bits as nat,
                            )
                            &&& crate::encoder::candidate_encodable(
                                crate::encoder::sample_view(ints@),
                                code,
                                tap_order as nat,
                                coeff_bits as nat,
                            )
                            &&& crate::encoder::signed_view(ch.residuals@)
                                == crate::encoder::candidate_residuals(
                                crate::encoder::sample_view(ints@),
                                code,
                                tap_order as nat,
                                coeff_bits as nat,
                            )
                            &&& forall|c: nat|
                                c < vstd::arithmetic::power2::pow2(
                                    (tap_order * coeff_bits) as nat,
                                ) && crate::encoder::candidate_encodable(
                                    crate::encoder::sample_view(ints@),
                                    c,
                                    tap_order as nat,
                                    coeff_bits as nat,
                                ) ==> crate::encoder::candidate_sse(
                                    crate::encoder::sample_view(ints@),
                                    code,
                                    tap_order as nat,
                                    coeff_bits as nat,
                                ) <= #[trigger] crate::encoder::candidate_sse(
                                    crate::encoder::sample_view(ints@),
                                    c,
                                    tap_order as nat,
                                    coeff_bits as nat,
                                )
                        }
                },
                Err(e) => {
                    ||| {
                        &&& e == CodecError::InvalidConfiguration
                        &&& !(1 <= coeff_bits <= 8 && tap_order * coeff_bits
                            <= crate::encoder::MAX_SEARCH_BITS)
                    }
                    ||| {
                        &&& e == CodecError::ArithmeticOverflow
                        &&& forall|c: nat|
                            c < vstd::arithmetic::power2::pow2((tap_order * coeff_bits) as nat)
                                ==> !crate::encoder::candidate_encodable(
                                crate::encoder::sample_view(ints@),
                                c,
                                tap_order as nat,
                                coeff_bits as nat,
                            )
                    }
                },
            },
    {
        let enc = match crate::encoder::encode(ints, tap_order, coeff_bits) {
            Ok(enc) => enc,
            Err(e) => {
                return Err(e);
            },
        };
        proof {
            assert(tap_order <= 16) by (nonlinear_arith)
                requires
                    coeff_bits >= 1,
                    tap_order * coeff_bits <= 16,
            ;
            // The selected code is the witness for the exists clause.
            assert(crate::encoder::signed_view(enc.coefficients@)
                == crate::encoder::unpack_coeffs(
                enc.coeff_code as nat,
                tap_order as nat,
                coeff_bits as nat,
            ));
        }
        Ok(
            Channel {
                type_,
                quant_bits,
                value_range_min_bits,
                value_range_bits,
                coeff_bits,
                coefficients: enc.coefficients,
                residuals: enc.residuals,
            },
        )
    }

    /// Reconstructs the channel's quantized sample stream from its
    /// stored coefficients and residuals; rejects a channel whose
    /// residual count does not match the frame count.
    pub fn decode_samples(&self, num_frames: usize) -> (r: Result<Vec<u16>, CodecError>)
        requires
            self.wf(),
        ensures
            match r {
                Ok(out) => {
                    &&& self.residuals@.len() == num_frames
                    &&& out@.len() == num_frames
                    &&& crate::predictor::decodes_to(
                        crate::encoder::sample_view(out@),
                        crate::encoder::signed_view(self.residuals@),
                        crate::encoder::signed_view(self.coefficients@),
                        self.coeff_bits as nat,
                    )
                },
                Err(e) => {
                    &&& e == CodecError::MalformedStream
                    &&& self.residuals@.len() != num_frames
                },
            },
    {
        crate::decoder::decode(
            &self.coefficients,
            &self.residuals,
            self.coefficients.len(),
            self.coeff_bits,
            num_frames,
        )
    }
}

/// A joint either has child joints or ends in a terminal offset.
pub enum JointChildren {
    /// Child joints, in declared order.
    Joints(Vec<Joint>),
    /// An end-effector: the terminal offset's three bit patterns.
    EndSite((u32, u32, u32)),
}

/// One node of the skeleton: a name, a static offset (three 32-bit
/// floating bit patterns, opaque to the codec), its channels in
/// declared order, and its children.
pub struct Joint {
    /// The joint's name.
    pub name: String,
    /// Bit patterns of the static offset's three components.
    pub offset_bits: (u32, u32, u32),
    /// The joint's own channels, in declared order.
    pub channels: Vec<Channel>,
    /// Child joints, or the end-site offset.
    pub children: JointChildren,
}

/// How many channels the subtree rooted at `j` contributes to the
/// canonical depth-first order.
pub open spec fn spec_channel_count(j: Joint) -> nat
    decreases j,
{
    j.channels@.len() + match j.children {
        JointChildren::Joints(v) => spec_channel_count_seq(v@),
        JointChildren::EndSite(_) => 0,
    }
}

/// The total channel count of a sequence of sibling joints.
pub open spec fn spec_channel_count_seq(js: Seq<Joint>) -> nat
    decreases js,
{
    if js.len() == 0 {
        0
    } else {
        spec_channel_count_seq(js.drop_last()) + spec_channel_count(js.last())
    }
}

/// The views of the rows of a matrix held as a vector of vectors.
pub open spec fn rows_view(rows: Seq<Vec<u64>>) -> Seq<Seq<u64>> {
    rows.map_values(|r: Vec<u64>| r@)
}

/// Column `c` of a frame-major matrix: one value per frame.
pub open spec fn spec_column(matrix: Seq<Seq<u64>>, c: int) -> Seq<u64> {
    Seq::new(matrix.len(), |f: int| matrix[f][c])
}

/// Walks the subtree at `j` depth-first, appending to `out` the matrix
/// column of every channel it visits; each channel reads the column at
/// its canonical index, which is the number of channels visited before
/// it. Returns false when the subtree holds more channels than the
/// matrix has columns.
fn extract_rec(j: &Joint, matrix: &Vec<Vec<u64>>, out: &mut Vec<Vec<u64>>) -> (ok: bool)
    requires
        matrix@.len() >= 1,
        forall|f: int| 0 <= f < matrix@.len() ==> #[trigger] matrix@[f]@.len() == matrix@[0]@.len(),
        old(out)@.len() <= matrix@[0]@.len(),
    ensures
        final(out)@.len() >= old(out)@.len(),
        final(out)@.len() <= matrix@[0]@.len(),
        forall|k: int| 0 <= k < old(out)@.len() ==> #[trigger] final(out)@[k] == old(out)@[k],
        ok ==> final(out)@.len() == old(out)@.len() + spec_channel_count(*j),
        ok ==> forall|k: int|
            old(out)@.len() <= k < final(out)@.len() ==> #[trigger] final(out)@[k]@ == spec_column(
                rows_view(matrix@),
                k,
            ),
        !ok ==> old(out)@.len() + spec_channel_count(*j) > matrix@[0]@.len(),
    decreases *j,
{
    let width = matrix[0].len();
    let mut ci: usize = 0;
    while ci < j.channels.len()
        invariant
            matrix@.len() >= 1,
            forall|f: int|
                0 <= f < matrix@.len() ==> #[trigger] matrix@[f]@.len() == matrix@[0]@.len(),
            width == matrix@[0]@.len(),
            ci <= j.channels@.len(),
            out@.len() == old(out)@.len() + ci,
            out@.len() <= width,
            forall|k: int| 0 <= k < old(out)@.len() ==> #[trigger] out@[k] == old(out)@[k],
            forall|k: int|
                old(out)@.len() <= k < out@.len() ==> #[trigger] out@[k]@ == spec_column(
                    rows_view(matrix@),
                    k,
                ),
        decreases j.channels@.len() - ci,
    {
        let cursor = out.len();
        if cursor >= width {
            proof {
                assert(old(out)@.len() + spec_channel_count(*j) > matrix@[0]@.len());
            }
            return false;
        }
        let mut col: Vec<u64> = Vec::new();
        let mut f: usize = 0;
        while f < matrix.len()
            invariant
                f <= matrix@.len(),
                cursor < matrix@[0]@.len(),
                forall|g: int|
                    0 <= g < matrix@.len() ==> #[trigger] matrix@[g]@.len() == matrix@[0]@.len(),
                col@.len() == f,
                forall|g: int| 0 <= g < f ==> #[trigger] col@[g] == matrix@[g]@[cursor as int],
            decreases matrix@.len() - f,
        {
            col.push(matrix[f][cursor]);
            f = f + 1;
        }
        proof {
            assert(col@ =~= spec_column(rows_view(matrix@), cursor as int));
        }
        out.push(col);
        ci = ci + 1;
    }
    match &j.children {
        JointChildren::Joints(js) => {
            let mut n: usize = 0;
            while n < js.len()
                invariant
                    matrix@.len() >= 1,
                    forall|f: int|
                        0 <= f < matrix@.len() ==> #[trigger] matrix@[f]@.len()
                            == matrix@[0]@.len(),
                    width == matrix@[0]@.len(),
                    n <= js@.len(),
                    j.children == JointChildren::Joints(*js),
                    out@.len() == old(out)@.len() + j.channels@.len() + spec_channel_count_seq(
                        js@.take(n as int),
                    ),
                    out@.len() <= width,
                    forall|k: int| 0 <= k < old(out)@.len() ==> #[trigger] out@[k] == old(out)@[k],
                    forall|k: int|
                        old(out)@.len() <= k < out@.len() ==> #[trigger] out@[k]@ == spec_column(
                            rows_view(matrix@),
                            k,
                        ),
                decreases js@.len() - n,
            {
                proof {
                    assert(decreases_to!(*j => j.children));
                    assert(decreases_to!(j.children => j.children->Joints_0));
                    assert(j.children->Joints_0 == *js);
                    assert(decreases_to!(*js => js@));
                    assert(decreases_to!(js@ => js@[n as int]));
                    assert(decreases_to!(*j => js@[n as int]));
                }
                let ok = extract_rec(&js[n], matrix, out);
                proof {
                    assert(js@.take(n as int + 1).drop_last() =~= js@.take(n as int));
                    assert(js@.take(n as int + 1).last() == js@[n as int]);
                }
                if !ok {
                    proof {
                        lemma_channel_count_seq_take_bound(js@, n as int + 1);
                    }
                    return false;
                }
                n = n + 1;
            }
            proof {
                assert(js@.take(js@.len() as int) =~= js@);
            }
            true
        },
        JointChildren::EndSite(_) => true,
    }
}

/// A prefix of a sibling sequence never holds more channels than the
/// whole sequence.
proof fn lemma_channel_count_seq_take_bound(js: Seq<Joint>, n: int)
    requires
        0 <= n <= js.len(),
    ensures
        spec_channel_count_seq(js.take(n)) <= spec_channel_count_seq(js),
    decreases js.len() - n,
{
    if n == js.len() {
        assert(js.take(n) =~= js);
    } else {
        lemma_channel_count_seq_take_bound(js, n + 1);
        assert(js.take(n + 1).drop_last() =~= js.take(n));
        assert(js.take(n + 1).last() == js[n]);
    }
}

/// Extracts every channel's per-frame column from a frame-major matrix,
/// in canonical depth-first channel order. Rejects an empty matrix (no
/// frames: a channel's range would be undefined downstream) and a
/// matrix whose rows are not all exactly as wide as the tree's total
/// channel count.
pub fn extract_channel_columns(root: &Joint, matrix: &Vec<Vec<u64>>) -> (r: Result<
    Vec<Vec<u64>>,
    CodecError,
>)
    ensures
        match r {
            Ok(cols) => {
                &&& matrix@.len() >= 1
                &&& forall|f: int|
                    0 <= f < matrix@.len() ==> #[trigger] matrix@[f]@.len() == spec_channel_count(
                        *root,
                    )
                &&& cols@.len() == spec_channel_count(*root)
                &&& forall|c: int|
                    0 <= c < cols@.len() ==> #[trigger] cols@[c]@ == spec_column(
                        rows_view(matrix@),
                        c,
                    )
            },
            Err(e) => {
                ||| (e == CodecError::EmptyChannel && matrix@.len() == 0)
                ||| {
                    &&& e == CodecError::MalformedStream
                    &&& matrix@.len() >= 1
                    &&& !((forall|f: int|
                        0 <= f < matrix@.len() ==> #[trigger] matrix@[f]@.len()
                            == matrix@[0]@.len()) && matrix@[0]@.len() == spec_channel_count(*root))
                }
            },
        },
{
    if matrix.len() == 0 {
        return Err(CodecError::EmptyChannel);
    }
    let width = matrix[0].len();
    let mut f: usize = 1;
    while f < matrix.len()
        invariant
            1 <= f <= matrix@.len(),
            width == matrix@[0]@.len(),
            forall|g: int| 0 <= g < f ==> #[trigger] matrix@[g]@.len() == matrix@[0]@.len(),
        decreases matrix@.len() - f,
    {
        if matrix[f].len() != width {
            return Err(CodecError::MalformedStream);
        }
        f = f + 1;
    }
    let mut out: Vec<Vec<u64>> = Vec::new();
    let ok = extract_rec(root, matrix, &mut out);
    if !ok {
        return Err(CodecError::MalformedStream);
    }
    if out.len() != width {
        return Err(CodecError::MalformedStream);
    }
    Ok(out)
}

/// Walks the subtree at `j` depth-first, appending to `row` the sample
/// of frame `f` of every channel it visits; each channel writes the
/// matrix cell at its canonical index, which is the number of channels
/// visited before it. Returns false when the subtree holds more
/// channels than there are columns.
fn fill_row_rec(j: &Joint, columns: &Vec<Vec<u64>>, f: usize, row: &mut Vec<u64>) -> (ok: bool)
    requires
        forall|c: int| 0 <= c < columns@.len() ==> f < #[trigger] columns@[c]@.len(),
        old(row)@.len() <= columns@.len(),
    ensures
        final(row)@.len() >= old(row)@.len(),
        final(row)@.len() <= columns@.len(),
        forall|k: int| 0 <= k < old(row)@.len() ==> #[trigger] final(row)@[k] == old(row)@[k],
        ok ==> final(row)@.len() == old(row)@.len() + spec_channel_count(*j),
        ok ==> forall|k: int|
            old(row)@.len() <= k < final(row)@.len() ==> #[trigger] final(row)@[k] == columns@[k]@[f as int],
        !ok ==> old(row)@.len() + spec_channel_count(*j) > columns@.len(),
    decreases *j,
{
    let mut ci: usize = 0;
    while ci < j.channels.len()
        invariant
            forall|c: int| 0 <= c < columns@.len() ==> f < #[trigger] columns@[c]@.len(),
            ci <= j.channels@.len(),
            row@.len() == old(row)@.len() + ci,
            row@.len() <= columns@.len(),
            forall|k: int| 0 <= k < old(row)@.len() ==> #[trigger] row@[k] == old(row)@[k],
            forall|k: int|
                old(row)@.len() <= k < row@.len() ==> #[trigger] row@[k] == columns@[k]@[f as int],
        decreases j.channels@.len() - ci,
    {
        let cursor = row.len();
        if cursor >= columns.len() {
            return false;
        }
        row.push(columns[cursor][f]);
        ci = ci + 1;
    }
    match &j.children {
        JointChildren::Joints(js) => {
            let mut n: usize = 0;
            while n < js.len()
                invariant
                    forall|c: int| 0 <= c < columns@.len() ==> f < #[trigger] columns@[c]@.len(),
                    n <= js@.len(),
                    j.children == JointChildren::Joints(*js),
                    row@.len() == old(row)@.len() + j.channels@.len() + spec_channel_count_seq(
                        js@.take(n as int),
                    ),
                    row@.len() <= columns@.len(),
                    forall|k: int| 0 <= k < old(row)@.len() ==> #[trigger] row@[k] == old(row)@[k],
                    forall|k: int|
                        old(row)@.len() <= k < row@.len() ==> #[trigger] row@[k]
                            == columns@[k]@[f as int],
                decreases js@.len() - n,
            {
                proof {
                    assert(decreases_to!(*j => j.children));
                    assert(decreases_to!(j.children => j.children->Joints_0));
                    assert(j.children->Joints_0 == *js);
                    assert(decreases_to!(*js => js@));
                    assert(decreases_to!(js@ => js@[n as int]));
                    assert(decreases_to!(*j => js@[n as int]));
                }
                let ok = fill_row_rec(&js[n], columns, f, row);
                proof {
                    assert(js@.take(n as int + 1).drop_last() =~= js@.take(n as int));
                    assert(js@.take(n as int + 1).last() == js@[n as int]);
                }
                if !ok {
                    proof {
                        lemma_channel_count_seq_take_bound(js@, n as int + 1);
                    }
                    return false;
                }
                n = n + 1;
            }
            proof {
                assert(js@.take(js@.len() as int) =~= js@);
            }
            true
        },
        JointChildren::EndSite(_) => true,
    }
}

/// Rebuilds the frame-major matrix from per-channel columns, walking
/// the same canonical depth-first channel order as extraction. Rejects
/// column data that does not match the tree: a column count different
/// from the tree's channel count, or a column whose length is not the
/// frame count.
pub fn reassemble_matrix(root: &Joint, columns: &Vec<Vec<u64>>, num_frames: usize) -> (r: Result<
    Vec<Vec<u64>>,
    CodecError,
>)
    ensures
        match r {
            Ok(m) => {
                &&& columns@.len() == spec_channel_count(*root)
                &&& forall|c: int|
                    0 <= c < columns@.len() ==> #[trigger] columns@[c]@.len() == num_frames
                &&& m@.len() == num_frames
                &&& forall|f: int| 0 <= f < m@.len() ==> #[trigger] m@[f]@.len() == columns@.len()
                &&& forall|f: int, c: int|
                    0 <= f < m@.len() && 0 <= c < columns@.len() ==> #[trigger] m@[f]@[c]
                        == columns@[c]@[f]
            },
            Err(e) => {
                &&& e == CodecError::MalformedStream
                &&& !(columns@.len() == spec_channel_count(*root) && (forall|c: int|
                    0 <= c < columns@.len() ==> #[trigger] columns@[c]@.len() == num_frames))
            },
        },
{
    let mut c: usize = 0;
    while c < columns.len()
        invariant
            c <= columns@.len(),
            forall|g: int| 0 <= g < c ==> #[trigger] columns@[g]@.len() == num_frames,
        decreases columns@.len() - c,
    {
        if columns[c].len() != num_frames {
            return Err(CodecError::MalformedStream);
        }
        c = c + 1;
    }
    let count = match channel_count_upto(root, columns.len(), 0) {
        Some(n) => n,
        None => {
            return Err(CodecError::MalformedStream);
        },
    };
    if count != columns.len() {
        return Err(CodecError::MalformedStream);
    }
    let mut m: Vec<Vec<u64>> = Vec::new();
    let mut f: usize = 0;
    while f < num_frames
        invariant
            f <= num_frames,
            forall|g: int| 0 <= g < columns@.len() ==> #[trigger] columns@[g]@.len() == num_frames,
            m@.len() == f,
            forall|g: int| 0 <= g < f ==> #[trigger] m@[g]@.len() == columns@.len(),
            forall|g: int, c2: int|
                0 <= g < f && 0 <= c2 < columns@.len() ==> #[trigger] m@[g]@[c2]
                    == columns@[c2]@[g],
            columns@.len() == spec_channel_count(*root),
        decreases num_frames - f,
    {
        let mut row: Vec<u64> = Vec::new();
        let ok = fill_row_rec(root, columns, f, &mut row);
        if !ok {
            return Err(CodecError::MalformedStream);
        }
        m.push(row);
        f = f + 1;
    }
    Ok(m)
}

/// Counts the channels of the subtree at `j` on top of `acc`, giving up
/// as soon as the count would pass `limit`.
fn channel_count_upto(j: &Joint, limit: usize, acc: usize) -> (r: Option<usize>)
    requires
        acc <= limit,
    ensures
        r matches Some(n) ==> n == acc + spec_channel_count(*j) && n <= limit,
        r is None ==> acc + spec_channel_count(*j) > limit,
    decreases *j,
{
    if j.channels.len() > limit - acc {
        return None;
    }
    let mut total = acc + j.channels.len();
    match &j.children {
        JointChildren::Joints(js) => {
            let mut n: usize = 0;
            while n < js.len()
                invariant
                    n <= js@.len(),
                    j.children == JointChildren::Joints(*js),
                    total == acc + j.channels@.len() + spec_channel_count_seq(js@.take(n as int)),
                    total <= limit,
                decreases js@.len() - n,
            {
                proof {
                    assert(decreases_to!(*j => j.children));
                    assert(decreases_to!(j.children => j.children->Joints_0));
                    assert(j.children->Joints_0 == *js);
                    assert(decreases_to!(*js => js@));
                    assert(decreases_to!(js@ => js@[n as int]));
                    assert(decreases_to!(*j => js@[n as int]));
                }
                let sub = channel_count_upto(&js[n], limit, total);
                proof {
                    assert(js@.take(n as int + 1).drop_last() =~= js@.take(n as int));
                    assert(js@.take(n as int + 1).last() == js@[n as int]);
                }
                match sub {
                    Some(t) => {
                        total = t;
                    },
                    None => {
                        proof {
                            lemma_channel_count_seq_take_bound(js@, n as int + 1);
                        }
                        return None;
                    },
                }
                n = n + 1;
            }
            proof {
                assert(js@.take(js@.len() as int) =~= js@);
            }
            Some(total)
        },
        JointChildren::EndSite(_) => Some(total),
    }
}

/// The canonical channel index is stable across the pipeline: a matrix
/// taken apart into per-channel columns by the depth-first extraction
/// walk and rebuilt by the depth-first reassembly walk is restored
/// exactly — every channel's samples land back in the same column.
pub proof fn lemma_extract_reassemble_round_trip(
    matrix: Seq<Seq<u64>>,
    cols: Seq<Seq<u64>>,
    rebuilt: Seq<Seq<u64>>,
)
    requires
        forall|f: int| 0 <= f < matrix.len() ==> #[trigger] matrix[f].len() == cols.len(),
        forall|c: int| 0 <= c < cols.len() ==> #[trigger] cols[c].len() == matrix.len(),
        forall|c: int, f: int|
            0 <= c < cols.len() && 0 <= f < matrix.len() ==> #[trigger] cols[c][f] == matrix[f][c],
        rebuilt.len() == matrix.len(),
        forall|f: int| 0 <= f < rebuilt.len() ==> #[trigger] rebuilt[f].len() == cols.len(),
        forall|f: int, c: int|
            0 <= f < rebuilt.len() && 0 <= c < cols.len() ==> #[trigger] rebuilt[f][c]
                == cols[c][f],
    ensures
        rebuilt == matrix,
{
    assert forall|f: int| 0 <= f < matrix.len() implies rebuilt[f] == matrix[f] by {
        assert(rebuilt[f] =~= matrix[f]);
    }
    assert(rebuilt =~= matrix);
}

} // verus!
