use game_stream::encode::{
    add_av1_temporal_delimiters, apple_encoder_candidates, assemble_access_units,
    candidates_for, desktop_encoder_candidates, encoder_options, expected_frame_len,
    is_lgpl_license, keyframe_still_needed, opening_forces_keyframe, plan_encoder, telemetry_sei, validate_frame_layout, EncoderPlan,
    VideoEncoder,
};
use game_stream::shared::{EncoderBackend, PixelFormat, StreamCodec};

const AV1_TEMPORAL_DELIMITER: [u8; 2] = [0x12, 0x00];

#[test]
fn telemetry_sei_is_one_escaped_annex_b_nal() {
    let packet = telemetry_sei(0x0000_0001, 0x0000_0002);
    assert!(packet.starts_with(&[0, 0, 0, 1, 0x06, 5, 32]));
    assert_eq!(
        packet[4..]
            .windows(3)
            .filter(|window| *window == [0, 0, 1])
            .count(),
        0,
        "RBSP must escape embedded Annex-B start codes"
    );
}

#[test]
fn candidates_are_ordered_by_wire_codec() {
    for table in [desktop_encoder_candidates(), apple_encoder_candidates()] {
        let codecs = table
            .iter()
            .map(|candidate| candidate.codec)
            .collect::<Vec<_>>();
        let av1_end = codecs
            .iter()
            .rposition(|codec| *codec == StreamCodec::Av1)
            .unwrap_or(0);
        let hevc_start = codecs
            .iter()
            .position(|codec| *codec == StreamCodec::Hevc)
            .expect("HEVC candidate");
        let h264_start = codecs
            .iter()
            .position(|codec| *codec == StreamCodec::H264)
            .expect("H.264 candidate");
        assert!(av1_end < hevc_start || !codecs.contains(&StreamCodec::Av1));
        assert!(hevc_start < h264_start);
        assert_eq!(codecs.last(), Some(&StreamCodec::H264));
    }
}

#[test]
fn av1_access_unit_gets_leading_and_trailing_delimiters() {
    let mut packets = vec![
        (vec![0x0a, 0x01, 0x00], false),
        (vec![0x0a, 0x02, 0x00], false),
    ];
    add_av1_temporal_delimiters(&mut packets);
    for (data, _) in &packets {
        assert!(data.starts_with(&AV1_TEMPORAL_DELIMITER));
        assert!(data.ends_with(&AV1_TEMPORAL_DELIMITER));
    }

    // Normalization must be idempotent: a second pass changes no bytes.
    let flattened: Vec<u8> = packets
        .iter()
        .flat_map(|(data, _)| data.iter().copied())
        .collect();
    add_av1_temporal_delimiters(&mut packets);
    let reflattened: Vec<u8> = packets
        .iter()
        .flat_map(|(data, _)| data.iter().copied())
        .collect();
    assert_eq!(
        flattened, reflattened,
        "normalization must not stack delimiters"
    );
}

#[test]
fn frame_layout_validation_covers_packed_and_nv12_stride() {
    assert_eq!(expected_frame_len(4, 2, 16, PixelFormat::Rgba8), Some(32));
    assert_eq!(expected_frame_len(6, 4, 8, PixelFormat::Nv12), Some(48));
    assert_eq!(expected_frame_len(5, 4, 8, PixelFormat::Nv12), None);
    assert!(validate_frame_layout(6, 4, 8, PixelFormat::Nv12, 47).is_err());
}

#[test]
fn av1_delimiters_leave_empty_packets_and_keep_key_flags() {
    let mut packets = vec![(vec![], true), (vec![0x12], true), (vec![0x12, 0x00, 7], false)];
    add_av1_temporal_delimiters(&mut packets);
    assert_eq!(
        packets,
        vec![
            (vec![], true),
            (vec![0x12, 0x00, 0x12, 0x12, 0x00], true),
            (vec![0x12, 0x00, 7, 0x12, 0x00], false),
        ]
    );
}

#[test]
fn telemetry_sei_escapes_zero_runs_exactly() {
    // sequence 0 and time 0 give long zero runs: 00 00 03 00 00 03 ...
    let packet = telemetry_sei(0, 0);
    assert_eq!(&packet[..7], &[0, 0, 0, 1, 0x06, 5, 32]);
    assert_eq!(&packet[7..23], b"GSTREAM-TIMING01");
    assert_eq!(
        &packet[23..],
        &[0, 0, 3, 0, 0, 3, 0, 0, 3, 0, 0, 3, 0, 0, 3, 0, 0, 3, 0, 0, 3, 0, 0, 0x80]
    );
    assert_eq!(packet.len(), 47);
}

#[test]
fn frame_layout_rejects_short_strides_and_zero_sizes() {
    assert_eq!(expected_frame_len(4, 2, 15, PixelFormat::Bgra8), None);
    assert_eq!(expected_frame_len(0, 2, 16, PixelFormat::Rgba8), None);
    assert_eq!(expected_frame_len(4, 2, 0x8000_0000, PixelFormat::Rgba8), None);
    assert_eq!(expected_frame_len(6, 4, 4, PixelFormat::Nv12), None);
    assert_eq!(expected_frame_len(6, 4, 7, PixelFormat::Nv12), None);
    assert!(validate_frame_layout(4, 2, 16, PixelFormat::Rgba8, 32).is_ok());
}

#[test]
fn candidate_probe_list_follows_the_requested_codec() {
    let table = desktop_encoder_candidates();
    let hevc: Vec<&str> = candidates_for(&table, StreamCodec::Hevc)
        .iter()
        .map(|c| c.name)
        .collect();
    assert_eq!(hevc, ["hevc_nvenc", "hevc_amf", "hevc_qsv"]);
    assert_eq!(candidates_for(&table, StreamCodec::Auto).len(), 9);
    assert!(candidates_for(&apple_encoder_candidates(), StreamCodec::Av1).is_empty());
    for c in &table {
        assert_eq!(c.name, c.backend.as_str());
    }
}

#[test]
fn encoder_options_depend_on_backend_codec_and_input() {
    let table = desktop_encoder_candidates();
    let nvenc_h264 = table[6];
    assert_eq!(nvenc_h264.backend, EncoderBackend::H264Nvenc);
    let options = encoder_options(nvenc_h264, PixelFormat::Bgra8);
    assert_eq!(options.len(), 14);
    assert_eq!(options[0], ("preset", "p4"));
    assert_eq!(options[11], ("profile", "high"));
    assert_eq!(options[13], ("rgb_mode", "yuv420"));
    assert_eq!(encoder_options(nvenc_h264, PixelFormat::Nv12).len(), 13);
    let vt = apple_encoder_candidates()[0];
    assert_eq!(
        encoder_options(vt, PixelFormat::Nv12),
        vec![
            ("allow_sw", "0"),
            ("realtime", "1"),
            ("prio_speed", "0"),
            ("spatial_aq", "1"),
            ("profile", "main")
        ]
    );
}

#[test]
fn encoder_state_keeps_timestamps_strictly_increasing() {
    let table = desktop_encoder_candidates();
    let mut encoder = VideoEncoder::configured(table[2], 1280, 720, PixelFormat::Rgba8);
    assert_eq!(encoder.input_pixel(), PixelFormat::Nv12);
    assert_eq!(encoder.codec(), StreamCodec::Av1);
    assert_eq!(encoder.backend(), EncoderBackend::Av1Qsv);
    assert_eq!(encoder.output_dimensions(), (1280, 720));
    assert_eq!(encoder.next_pts(100), 100);
    assert_eq!(encoder.next_pts(100), 101);
    assert_eq!(encoder.next_pts(50), 102);
    assert_eq!(encoder.next_pts(500), 500);
    assert!(!encoder.needs_reconfigure((1280, 720), PixelFormat::Bgra8));
    assert!(encoder.needs_reconfigure((1280, 718), PixelFormat::Bgra8));
    let direct = VideoEncoder::configured(table[0], 1280, 720, PixelFormat::Rgba8);
    assert!(direct.needs_reconfigure((1280, 720), PixelFormat::Bgra8));
    assert!(direct.is_direct_input(1280, 720, PixelFormat::Rgba8));
    assert!(!direct.is_direct_input(1920, 1080, PixelFormat::Rgba8));
}

#[test]
fn h264_sei_rides_with_the_last_packet_only() {
    let packets = vec![(vec![1, 2], false), (vec![3], true)];
    let units = assemble_access_units(packets.clone(), StreamCodec::H264, 7, 9);
    assert_eq!(units.len(), 2);
    assert_eq!(units[0].packets, vec![vec![1, 2]]);
    assert!(!units[0].keyframe);
    assert_eq!(units[1].packets, vec![telemetry_sei(7, 9), vec![3]]);
    assert!(units[1].keyframe);
    let hevc = assemble_access_units(packets, StreamCodec::Hevc, 7, 9);
    assert_eq!(hevc[1].packets, vec![vec![3]]);
}

#[test]
fn resize_reopens_the_selected_candidate() {
    let table = desktop_encoder_candidates();
    assert_eq!(plan_encoder(None, (1280, 720), PixelFormat::Rgba8), EncoderPlan::Probe);
    let mut encoder = VideoEncoder::configured(table[3], 1280, 720, PixelFormat::Rgba8);
    assert_eq!(encoder.previous_pts(), None);
    encoder.next_pts(9);
    assert_eq!(encoder.previous_pts(), Some(9));
    assert_eq!(
        plan_encoder(Some(&encoder), (1280, 720), PixelFormat::Rgba8),
        EncoderPlan::Keep
    );
    let plan = plan_encoder(Some(&encoder), (1920, 1080), PixelFormat::Rgba8);
    assert_eq!(plan, EncoderPlan::Reopen(table[3]));
    match plan {
        EncoderPlan::Reopen(candidate) => assert_eq!(candidate.codec, StreamCodec::Hevc),
        _ => panic!("expected a reopen"),
    }
}

#[test]
fn keyframe_request_survives_a_skipped_or_dropped_frame() {
    assert!(keyframe_still_needed(true, false, false));
    assert!(!keyframe_still_needed(true, true, false));
    assert!(!keyframe_still_needed(false, false, false));
    assert!(keyframe_still_needed(false, true, true));
}

#[test]
fn telemetry_sei_decodes_back_to_sequence_and_capture_time() {
    let sequence = 0x0000_0100_0000_0001u64;
    let capture = 0x0003_0000_0000_0000u64;
    let nal = telemetry_sei(sequence, capture);
    let mut rbsp = Vec::new();
    let mut zeros = 0;
    for &byte in &nal[5..] {
        if zeros >= 2 && byte == 3 {
            zeros = 0;
            continue;
        }
        rbsp.push(byte);
        zeros = if byte == 0 { zeros + 1 } else { 0 };
    }
    assert_eq!(rbsp.len(), 35);
    assert_eq!(&rbsp[0..2], &[5, 32]);
    assert_eq!(&rbsp[2..18], b"GSTREAM-TIMING01");
    assert_eq!(u64::from_be_bytes(rbsp[18..26].try_into().unwrap()), sequence);
    assert_eq!(u64::from_be_bytes(rbsp[26..34].try_into().unwrap()), capture);
    assert_eq!(rbsp[34], 0x80);
}

#[test]
fn opened_encoders_start_with_a_key_frame_and_builds_must_be_lgpl() {
    assert!(opening_forces_keyframe(EncoderPlan::Probe));
    let table = desktop_encoder_candidates();
    assert!(opening_forces_keyframe(EncoderPlan::Reopen(table[0])));
    assert!(!opening_forces_keyframe(EncoderPlan::Keep));
    assert!(is_lgpl_license(b"LGPL version 2.1 or later"));
    assert!(!is_lgpl_license(b"GPL version 2 or later"));
    assert!(!is_lgpl_license(b"LGP"));
    assert!(!is_lgpl_license(b"nonfree and unredistributable"));
}
