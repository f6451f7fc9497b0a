//! A verified core for a motion-capture channel codec: per-channel
//! quantized sample streams are turned into predictive residuals by a
//! fixed-point linear predictor whose coefficients are chosen by an
//! exhaustive minimum-squared-error search, and decoded back exactly.

pub mod fixed;
pub mod predictor;
pub mod encoder;
pub mod decoder;
pub mod delta;
pub mod skeleton;
pub mod dump;

use vstd::prelude::*;

verus! {

use vstd::arithmetic::power2::pow2;

/// The error kinds the codec can report.
#[derive(Clone, Copy, PartialEq, Eq, Structural, Debug)]
pub enum CodecError {
    /// A channel with zero frames: its minimum and maximum are undefined.
    EmptyChannel,
    /// A bit width outside its documented range, or a search space too large.
    InvalidConfiguration,
    /// Residual or coefficient data whose length does not match the stream.
    MalformedStream,
    /// A residual that does not fit the signed 16-bit storage format.
    ArithmeticOverflow,
}

/// The tuning surface of the codec, passed explicitly into every
/// quantize and encode call.
#[derive(Clone, Copy, PartialEq, Eq, Structural, Debug)]
pub struct CodecConfig {
    /// Quantization bit width, 1 to 16.
    pub quant_bits: u8,
    /// Predictor tap order, at least 1.
    pub tap_order: usize,
    /// Coefficient bit width, 1 to 8.
    pub coeff_bits: u8,
}

impl CodecConfig {
    /// The documented ranges of the three knobs.
    pub open spec fn spec_valid(self) -> bool {
        &&& 1 <= self.quant_bits <= 16
        &&& 1 <= self.tap_order
        &&& 1 <= self.coeff_bits <= 8
    }

    /// Accepts exactly the configurations within the documented ranges.
    pub fn validate(&self) -> (r: Result<(), CodecError>)
        ensures
            r is Ok <==> self.spec_valid(),
            r is Err ==> r == Result::<(), CodecError>::Err(CodecError::InvalidConfiguration),
    {
        if self.quant_bits < 1 || self.quant_bits > 16 || self.tap_order < 1 || self.coeff_bits < 1
            || self.coeff_bits > 8 {
            Err(CodecError::InvalidConfiguration)
        } else {
            Ok(())
        }
    }

    /// The number of coefficient vectors the exhaustive search would
    /// enumerate, or nothing when the space is beyond the practical
    /// limit the search accepts.
    pub fn search_space_size(&self) -> (r: Option<u64>)
        ensures
            r matches Some(n) ==> self.tap_order * self.coeff_bits
                <= crate::encoder::MAX_SEARCH_BITS && n as nat == pow2(
                (self.tap_order * self.coeff_bits) as nat,
            ),
            r is None ==> self.tap_order * self.coeff_bits > crate::encoder::MAX_SEARCH_BITS,
    {
        if self.coeff_bits == 0 {
            proof {
                vstd::arithmetic::power2::lemma2_to64();
            }
            return Some(1);
        }
        if self.tap_order > crate::encoder::MAX_SEARCH_BITS {
            proof {
                assert(self.tap_order * self.coeff_bits >= self.tap_order) by (nonlinear_arith)
                    requires
                        self.coeff_bits >= 1,
                        self.tap_order >= 0,
                ;
            }
            return None;
        }
        proof {
            assert(0 <= self.tap_order * (self.coeff_bits as usize) <= 0x1000) by (nonlinear_arith)
                requires
                    self.tap_order <= 16,
                    self.coeff_bits <= 0xff,
            ;
        }
        let total = self.tap_order * (self.coeff_bits as usize);
        if total > crate::encoder::MAX_SEARCH_BITS {
            return None;
        }
        Some(crate::fixed::pow2_u32(total as u8) as u64)
    }
}

} // verus!
