use mocap_codec::skeleton::Channel;
use mocap_codec::skeleton::ChannelType;
use mocap_codec::skeleton::Joint;
use mocap_codec::skeleton::JointChildren;
use mocap_codec::skeleton::extract_channel_columns;
use mocap_codec::skeleton::reassemble_matrix;
use mocap_codec::dump::dump_channels_csv;
use mocap_codec::dump::dump_channels_raw;
use mocap_codec::CodecError;

fn channel(type_: ChannelType, residuals: Vec<i16>) -> Channel {
    Channel {
        type_,
        quant_bits: 8,
        value_range_min_bits: 0,
        value_range_bits: 0,
        coeff_bits: 8,
        coefficients: vec![127],
        residuals,
    }
}

fn nested_tree() -> Joint {
    // Root: 3 channels; first child: 2 channels then an end-site
    // grandchild with 1 channel; second child: an end-site with 1
    // channel. 7 channels in canonical depth-first order.
    Joint {
        name: "root".to_string(),
        offset_bits: (0, 0, 0),
        channels: vec![
            channel(ChannelType::TranslationX, vec![]),
            channel(ChannelType::TranslationY, vec![]),
            channel(ChannelType::TranslationZ, vec![]),
        ],
        children: JointChildren::Joints(vec![
            Joint {
                name: "spine".to_string(),
                offset_bits: (1, 2, 3),
                channels: vec![
                    channel(ChannelType::RotationX, vec![]),
                    channel(ChannelType::RotationY, vec![]),
                ],
                children: JointChildren::Joints(vec![Joint {
                    name: "head".to_string(),
                    offset_bits: (4, 5, 6),
                    channels: vec![channel(ChannelType::RotationZ, vec![])],
                    children: JointChildren::EndSite((7, 8, 9)),
                }]),
            },
            Joint {
                name: "leg".to_string(),
                offset_bits: (9, 9, 9),
                channels: vec![channel(ChannelType::RotationX, vec![])],
                children: JointChildren::EndSite((1, 1, 1)),
            },
        ]),
    }
}

#[test]
fn extraction_and_reassembly_keep_every_column() {
    let tree = nested_tree();
    // Two frames, seven channels, all cells distinct.
    let matrix: Vec<Vec<u64>> = vec![
        vec![100, 101, 102, 103, 104, 105, 106],
        vec![200, 201, 202, 203, 204, 205, 206],
    ];
    let cols = extract_channel_columns(&tree, &matrix).unwrap();
    assert_eq!(cols.len(), 7);
    for c in 0..7 {
        assert_eq!(cols[c], vec![100 + c as u64, 200 + c as u64]);
    }
    let rebuilt = reassemble_matrix(&tree, &cols, 2).unwrap();
    assert_eq!(rebuilt, matrix);
}

#[test]
fn pipeline_restores_the_matrix() {
    // End to end on the integer stage: extract columns, delta-code each
    // channel, decode each channel, reassemble the matrix.
    let tree = nested_tree();
    let matrix: Vec<Vec<u64>> = vec![
        vec![10, 20, 30, 40, 50, 60, 70],
        vec![11, 19, 33, 40, 48, 66, 70],
        vec![12, 21, 30, 41, 50, 60, 69],
    ];
    let cols = extract_channel_columns(&tree, &matrix).unwrap();
    let mut decoded: Vec<Vec<u64>> = Vec::new();
    for col in &cols {
        let ints: Vec<u16> = col.iter().map(|v| *v as u16).collect();
        let ch = Channel::from_delta(ChannelType::RotationX, 8, 0, 0, &ints).unwrap();
        let back = ch.decode_samples(3).unwrap();
        assert_eq!(back, ints);
        decoded.push(back.iter().map(|v| *v as u64).collect());
    }
    let rebuilt = reassemble_matrix(&tree, &decoded, 3).unwrap();
    assert_eq!(rebuilt, matrix);
}

#[test]
fn extraction_rejects_empty_and_misshapen_matrices() {
    let tree = nested_tree();
    let empty: Vec<Vec<u64>> = Vec::new();
    assert_eq!(
        extract_channel_columns(&tree, &empty),
        Err(CodecError::EmptyChannel)
    );
    let narrow: Vec<Vec<u64>> = vec![vec![1, 2, 3]];
    assert_eq!(
        extract_channel_columns(&tree, &narrow),
        Err(CodecError::MalformedStream)
    );
    let ragged: Vec<Vec<u64>> = vec![
        vec![1, 2, 3, 4, 5, 6, 7],
        vec![1, 2, 3],
    ];
    assert_eq!(
        extract_channel_columns(&tree, &ragged),
        Err(CodecError::MalformedStream)
    );
}

#[test]
fn reassembly_rejects_mismatched_columns() {
    let tree = nested_tree();
    let too_few: Vec<Vec<u64>> = vec![vec![1], vec![2]];
    assert_eq!(
        reassemble_matrix(&tree, &too_few, 1),
        Err(CodecError::MalformedStream)
    );
    let wrong_frames: Vec<Vec<u64>> = vec![vec![1]; 7];
    assert_eq!(
        reassemble_matrix(&tree, &wrong_frames, 2),
        Err(CodecError::MalformedStream)
    );
}

#[test]
fn channel_decode_samples_round_trip() {
    let ch = Channel {
        type_: ChannelType::TranslationX,
        quant_bits: 8,
        value_range_min_bits: 0,
        value_range_bits: 0,
        coeff_bits: 1,
        coefficients: vec![1],
        residuals: vec![0, 85, 85, 85],
    };
    // One tap of value 1 at width 1 is delta coding: the ramp returns.
    assert_eq!(ch.decode_samples(4), Ok(vec![0, 85, 170, 255]));
    assert_eq!(ch.decode_samples(3), Err(CodecError::MalformedStream));
}

#[test]
fn delta_channel_construction_round_trip() {
    let ints: Vec<u16> = vec![0, 85, 170, 255];
    let ch = Channel::from_delta(ChannelType::TranslationY, 8, 17, 42, &ints).unwrap();
    assert_eq!(ch.quant_bits, 8);
    assert_eq!(ch.value_range_min_bits, 17);
    assert_eq!(ch.value_range_bits, 42);
    assert_eq!(ch.coeff_bits, 1);
    assert_eq!(ch.coefficients, vec![1]);
    assert_eq!(ch.residuals, vec![0, 85, 85, 85]);
    assert_eq!(ch.decode_samples(4), Ok(ints));
}

#[test]
fn predictive_channel_construction_round_trip() {
    let ints: Vec<u16> = vec![0, 85, 170, 255];
    let ch = Channel::from_predictive(ChannelType::RotationZ, 8, 0, 0, &ints, 1, 8).unwrap();
    assert_eq!(ch.coefficients, vec![127]);
    assert_eq!(ch.residuals, vec![0, 85, 86, 87]);
    assert_eq!(ch.decode_samples(4), Ok(ints.clone()));
    assert!(matches!(
        Channel::from_predictive(ChannelType::RotationZ, 8, 0, 0, &ints, 4, 8),
        Err(CodecError::InvalidConfiguration)
    ));
}

#[test]
fn csv_dump_lines() {
    let tree = Joint {
        name: "solo".to_string(),
        offset_bits: (0, 0, 0),
        channels: vec![channel(ChannelType::RotationX, vec![0, -5, 300])],
        children: JointChildren::EndSite((0, 0, 0)),
    };
    let out = dump_channels_csv(&tree);
    assert_eq!(out, b"0;0\n1;-5\n2;300\n".to_vec());
}

#[test]
fn csv_dump_follows_canonical_order() {
    let tree = Joint {
        name: "root".to_string(),
        offset_bits: (0, 0, 0),
        channels: vec![channel(ChannelType::TranslationX, vec![1])],
        children: JointChildren::Joints(vec![
            Joint {
                name: "a".to_string(),
                offset_bits: (0, 0, 0),
                channels: vec![channel(ChannelType::RotationX, vec![2])],
                children: JointChildren::EndSite((0, 0, 0)),
            },
            Joint {
                name: "b".to_string(),
                offset_bits: (0, 0, 0),
                channels: vec![channel(ChannelType::RotationY, vec![3])],
                children: JointChildren::EndSite((0, 0, 0)),
            },
        ]),
    };
    let out = dump_channels_csv(&tree);
    assert_eq!(out, b"0;1\n0;2\n0;3\n".to_vec());
}

#[test]
fn raw_dump_narrow_and_wide() {
    let tree = Joint {
        name: "solo".to_string(),
        offset_bits: (0, 0, 0),
        channels: vec![channel(ChannelType::RotationX, vec![0, -5, 300])],
        children: JointChildren::EndSite((0, 0, 0)),
    };
    // Narrow: one two's-complement low byte per residual.
    assert_eq!(dump_channels_raw(&tree, false), vec![0x00, 0xfb, 0x2c]);
    // Wide: two little-endian two's-complement bytes per residual.
    assert_eq!(
        dump_channels_raw(&tree, true),
        vec![0x00, 0x00, 0xfb, 0xff, 0x2c, 0x01]
    );
}
