use demo2::can_data::{
    decode_axis_raw, decode_self_test_response, decode_sent_1_raw, decode_sent_2_raw,
    decode_sent_error, decode_sent_value_bits, Sent1Raw,
};

#[test]
fn sent_error_ignores_tx_frames() {
    assert!(decode_sent_error(true, 3, &[1, 1, 0, 0]).is_none());
    let error = decode_sent_error(false, 3, &[2, 1, 0, 1]).unwrap();
    assert_eq!(error.error_type, 2);
    assert!(error.t1_error);
    assert!(!error.t2_error);
    assert!(error.s_error);
}

#[test]
fn specialized_sent_ids_skip_the_generic_decoder() {
    let data = [0u8; 64];
    for identifier in [1, 2, 3] {
        assert!(decode_sent_value_bits(false, identifier, &data).is_none());
    }
}

#[test]
fn axis_sample_reads_big_endian_i32() {
    let data = 123_i32.to_be_bytes();
    assert_eq!(decode_axis_raw(0x102, &data), Some((1, 123)));
}

#[test]
fn generic_sent_values_are_little_endian_f32_bits() {
    let mut data = [0u8; 53];
    data[25..29].copy_from_slice(&1.5f32.to_le_bytes());
    data[49..53].copy_from_slice(&(-2.0f32).to_le_bytes());
    let values = decode_sent_value_bits(false, 9, &data).unwrap();
    assert_eq!(values[0], (0, 1.5f32.to_bits()));
    assert_eq!(f32::from_bits(values[4].1), -2.0);
    assert!(decode_sent_value_bits(false, 9, &data[..52]).is_none());
    assert!(decode_sent_value_bits(true, 9, &data).is_none());
}

#[test]
fn sent_1_flag_selects_t2_or_s_values() {
    let mut data = [0u8; 10];
    data[0] = 1;
    data[6..8].copy_from_slice(&i16::MIN.to_le_bytes());
    data[8..10].copy_from_slice(&i16::MAX.to_le_bytes());
    assert_eq!(
        decode_sent_1_raw(false, 1, &data),
        Some(Sent1Raw::T2 { angle: i16::MIN, torque: i16::MAX })
    );
    data[0] = 2;
    data[4..6].copy_from_slice(&0x1234_i16.to_le_bytes());
    assert_eq!(decode_sent_1_raw(false, 1, &data), Some(Sent1Raw::S(0x1234)));
    data[0] = 3;
    assert!(decode_sent_1_raw(false, 1, &data).is_none());
}

#[test]
fn sent_2_reads_t1_fields() {
    let mut data = [0u8; 10];
    data[6..8].copy_from_slice(&(-5i16).to_le_bytes());
    data[8..10].copy_from_slice(&300i16.to_le_bytes());
    assert_eq!(decode_sent_2_raw(false, 2, &data), Some((-5, 300)));
    assert!(decode_sent_2_raw(false, 2, &data[..9]).is_none());
}

#[test]
fn self_test_reply_reports_each_axis() {
    assert_eq!(decode_self_test_response(false, 0x123, &[1, 0, 1]), Some((true, false, true)));
    assert!(decode_self_test_response(true, 0x123, &[1, 1, 1]).is_none());
    assert!(decode_self_test_response(false, 0x123, &[1, 1]).is_none());
    assert_eq!(decode_axis_raw(0x104, &(-7i32).to_be_bytes()), Some((2, -7)));
    assert!(decode_axis_raw(0x101, &[0, 0, 0, 1]).is_none());
}
