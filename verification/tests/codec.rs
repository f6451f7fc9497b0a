use mocap_codec::delta::delta_decode;
use mocap_codec::delta::delta_encode;
use mocap_codec::decoder::decode;
use mocap_codec::encoder::encode;
use mocap_codec::encoder::encode_with_coeffs;
use mocap_codec::encoder::sum_squares_exec;
use mocap_codec::encoder::unpack_coefficients;
use mocap_codec::CodecConfig;
use mocap_codec::CodecError;

#[test]
fn ramp_delta_coding_scenario() {
    // The quantized ramp 0.0, 10.0, 20.0, 30.0 at 8 bits.
    let ints: Vec<u16> = vec![0, 85, 170, 255];
    let res = delta_encode(&ints).unwrap();
    assert_eq!(res, vec![0, 85, 85, 85]);
    let back = delta_decode(&res);
    assert_eq!(back, ints);
}

#[test]
fn ramp_search_scenario() {
    // Exhaustive search over 256 one-tap candidates on the same ramp:
    // the best storable coefficient is 127, one step under the unit
    // scale factor of 128.
    let ints: Vec<u16> = vec![0, 85, 170, 255];
    let enc = encode(&ints, 1, 8).unwrap();
    assert_eq!(enc.coeff_code, 127);
    assert_eq!(enc.coefficients, vec![127]);
    assert_eq!(enc.residuals, vec![0, 85, 86, 87]);
    let selected_sse = sum_squares_exec(&enc.residuals);
    assert_eq!(selected_sse, 22190);

    // Delta coding with the true unit coefficient is not in the search
    // space here, and on this ramp it is already optimal.
    let delta_res = delta_encode(&ints).unwrap();
    let delta_sse = sum_squares_exec(&delta_res);
    assert_eq!(delta_sse, 21675);
    assert!(delta_sse < selected_sse);

    // The selected vector still beats the no-prediction baseline.
    let zero_res = encode_with_coeffs(&ints, &vec![0], 8).unwrap();
    assert_eq!(zero_res, vec![0, 85, 170, 255]);
    let zero_sse = sum_squares_exec(&zero_res);
    assert_eq!(zero_sse, 101150);
    assert!(selected_sse <= zero_sse);
}

#[test]
fn search_round_trip_two_taps() {
    let ints: Vec<u16> = vec![5, 300, 70, 900, 12, 0, 1000, 999, 998, 4];
    let enc = encode(&ints, 2, 4).unwrap();
    assert_eq!(enc.coefficients.len(), 2);
    let back = decode(&enc.coefficients, &enc.residuals, 2, 4, ints.len()).unwrap();
    assert_eq!(back, ints);
}

#[test]
fn search_round_trip_no_taps() {
    // Tap order 0 means no prediction: the residuals are the samples.
    let ints: Vec<u16> = vec![7, 0, 30000];
    let enc = encode(&ints, 0, 8).unwrap();
    assert_eq!(enc.coeff_code, 0);
    assert_eq!(enc.coefficients, Vec::<i16>::new());
    assert_eq!(enc.residuals, vec![7, 0, 30000]);
    let back = decode(&enc.coefficients, &enc.residuals, 0, 8, 3).unwrap();
    assert_eq!(back, ints);
}

#[test]
fn delta_round_trip_large_values() {
    let ints: Vec<u16> = vec![30000, 30001, 29999, 20000, 52767];
    let res = delta_encode(&ints).unwrap();
    let back = delta_decode(&res);
    assert_eq!(back, ints);
}

#[test]
fn fixed_coefficients_half_step() {
    // One coefficient of 64 at width 8 predicts half the previous value.
    let ints: Vec<u16> = vec![100, 100, 100];
    let res = encode_with_coeffs(&ints, &vec![64], 8).unwrap();
    assert_eq!(res, vec![100, 50, 50]);
}

#[test]
fn decoder_wraps_into_sixteen_bits() {
    // With no taps the reconstruction is just the residual, reduced
    // modulo 2^16: -1 comes back as 65535.
    let out = decode(&Vec::new(), &vec![-1], 0, 8, 1).unwrap();
    assert_eq!(out, vec![65535]);
}

#[test]
fn unpack_sign_extension() {
    assert_eq!(unpack_coefficients(0x7f, 1, 8), vec![127]);
    assert_eq!(unpack_coefficients(0x80, 1, 8), vec![-128]);
    assert_eq!(unpack_coefficients(0xff, 1, 8), vec![-1]);
    assert_eq!(unpack_coefficients(0x12, 2, 4), vec![2, 1]);
    assert_eq!(unpack_coefficients(0x9, 1, 4), vec![-7]);
}

#[test]
fn sum_squares_exact() {
    assert_eq!(sum_squares_exec(&vec![3, -4]), 25);
    assert_eq!(sum_squares_exec(&Vec::new()), 0);
}

#[test]
fn encode_rejects_bad_configuration() {
    let ints: Vec<u16> = vec![1, 2, 3];
    assert!(matches!(encode(&ints, 1, 0), Err(CodecError::InvalidConfiguration)));
    assert!(matches!(encode(&ints, 1, 9), Err(CodecError::InvalidConfiguration)));
    assert!(matches!(encode(&ints, 3, 8), Err(CodecError::InvalidConfiguration)));
    assert!(matches!(encode(&ints, 17, 1), Err(CodecError::InvalidConfiguration)));
}

#[test]
fn encode_reports_unstorable_residuals() {
    // At 16 quantization bits no candidate keeps every residual inside
    // the signed 16-bit storage range.
    let ints: Vec<u16> = vec![0, 65535];
    assert!(matches!(encode(&ints, 0, 8), Err(CodecError::ArithmeticOverflow)));
}

#[test]
fn delta_encode_reports_overflow() {
    let ints: Vec<u16> = vec![0, 40000];
    assert_eq!(delta_encode(&ints), Err(CodecError::ArithmeticOverflow));
}

#[test]
fn decode_rejects_length_mismatch() {
    let coeffs: Vec<i16> = vec![1];
    let res: Vec<i16> = vec![0, 1];
    assert_eq!(
        decode(&coeffs, &res, 2, 8, 2),
        Err(CodecError::MalformedStream)
    );
    assert_eq!(
        decode(&coeffs, &res, 1, 8, 3),
        Err(CodecError::MalformedStream)
    );
    assert!(decode(&coeffs, &res, 1, 8, 2).is_ok());
}

#[test]
fn search_tie_break_picks_lowest_code() {
    // On a constant-zero channel every candidate produces zero
    // residuals; the tie goes to the first-encountered, lowest code.
    let ints: Vec<u16> = vec![0, 0, 0];
    let enc = encode(&ints, 1, 8).unwrap();
    assert_eq!(enc.coeff_code, 0);
    assert_eq!(enc.residuals, vec![0, 0, 0]);
}

#[test]
fn constant_channel_delta_codes_to_zeros() {
    // A degenerate-range channel quantizes to all zeros; the integer
    // stage keeps it all-zero end to end.
    let ints: Vec<u16> = vec![0, 0, 0, 0];
    let res = delta_encode(&ints).unwrap();
    assert_eq!(res, vec![0, 0, 0, 0]);
    assert_eq!(delta_decode(&res), ints);
}

#[test]
fn fixed_coefficients_report_overflow() {
    let ints: Vec<u16> = vec![0, 40000];
    assert!(matches!(
        encode_with_coeffs(&ints, &vec![0], 8),
        Err(CodecError::ArithmeticOverflow)
    ));
}

#[test]
fn configuration_ranges() {
    let good = CodecConfig { quant_bits: 8, tap_order: 1, coeff_bits: 8 };
    assert_eq!(good.validate(), Ok(()));
    assert_eq!(good.search_space_size(), Some(256));

    let wide = CodecConfig { quant_bits: 16, tap_order: 2, coeff_bits: 8 };
    assert_eq!(wide.validate(), Ok(()));
    assert_eq!(wide.search_space_size(), Some(65536));

    let huge = CodecConfig { quant_bits: 8, tap_order: 3, coeff_bits: 8 };
    assert_eq!(huge.validate(), Ok(()));
    assert_eq!(huge.search_space_size(), None);

    let bad_bits = CodecConfig { quant_bits: 0, tap_order: 1, coeff_bits: 8 };
    assert_eq!(bad_bits.validate(), Err(CodecError::InvalidConfiguration));
    let bad_bits_high = CodecConfig { quant_bits: 17, tap_order: 1, coeff_bits: 8 };
    assert_eq!(bad_bits_high.validate(), Err(CodecError::InvalidConfiguration));
    let bad_taps = CodecConfig { quant_bits: 8, tap_order: 0, coeff_bits: 8 };
    assert_eq!(bad_taps.validate(), Err(CodecError::InvalidConfiguration));
    let bad_coeff = CodecConfig { quant_bits: 8, tap_order: 1, coeff_bits: 9 };
    assert_eq!(bad_coeff.validate(), Err(CodecError::InvalidConfiguration));
}
