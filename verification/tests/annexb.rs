use game_stream::annexb::{
    h264_nal_type, hevc_nal_type, iter_nals, H264_PPS, H264_SPS, HEVC_PPS, HEVC_SPS, HEVC_VPS,
};

#[test]
fn parses_three_and_four_byte_start_codes() {
    let data = [
        0, 0, 0, 1, 0x67, 1, 2, 0, 0, 1, 0x68, 3, 0, 0, 0, 1, 0x65, 4,
    ];
    let nals = iter_nals(&data);
    assert_eq!(nals.len(), 3);
    assert_eq!(h264_nal_type(nals[0]), Some(H264_SPS));
    assert_eq!(h264_nal_type(nals[1]), Some(H264_PPS));
    assert_eq!(h264_nal_type(nals[2]), Some(5));
}

#[test]
fn parses_hevc_parameter_set_types() {
    let data = [
        0,
        0,
        0,
        1,
        HEVC_VPS << 1,
        1,
        0,
        0,
        1,
        HEVC_SPS << 1,
        1,
        0,
        0,
        0,
        1,
        HEVC_PPS << 1,
        1,
    ];
    let nals = iter_nals(&data);
    assert_eq!(hevc_nal_type(nals[0]), Some(HEVC_VPS));
    assert_eq!(hevc_nal_type(nals[1]), Some(HEVC_SPS));
    assert_eq!(hevc_nal_type(nals[2]), Some(HEVC_PPS));
}

#[test]
fn nal_units_keep_their_start_codes_and_skip_leading_bytes() {
    let data = [9, 9, 0, 0, 1, 0x67, 5, 0, 0, 0, 1, 0x68];
    let nals = iter_nals(&data);
    assert_eq!(nals, vec![&data[2..7], &data[7..12]]);
}

#[test]
fn start_code_in_the_last_three_bytes_is_not_scanned() {
    // The scan needs four bytes left, so a trailing 00 00 01 is not a unit.
    assert!(iter_nals(&[7, 0, 0, 1]).is_empty());
    assert!(iter_nals(&[0, 0, 1]).is_empty());
    assert_eq!(iter_nals(&[0, 0, 1, 0x65]).len(), 1);
}

#[test]
fn nal_type_of_unit_without_start_code_is_none() {
    assert_eq!(h264_nal_type(&[0x67, 1, 2]), None);
    assert_eq!(h264_nal_type(&[0, 0, 1]), None);
    assert_eq!(hevc_nal_type(&[0, 0, 0, 1]), None);
    assert_eq!(hevc_nal_type(&[0, 0, 1, 0x7f]), Some(0x3f));
    assert_eq!(h264_nal_type(&[0, 0, 0, 1, 0xff]), Some(0x1f));
}
