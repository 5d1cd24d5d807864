use game_stream::annexb::{HEVC_PPS, HEVC_SPS, HEVC_VPS};
use game_stream::net::{
    delivery_sample, elapsed_us, udp_chunks, update_parameter_sets, CaptureTimeline,
    ClientGate, EncodeStages, FrameDecision, ParameterSets, SendStages, StreamCache,
    UdpStreamCache, UDP_PAYLOAD_SIZE,
};
use game_stream::shared::StreamCodec;

#[test]
fn udp_sender_splits_payload_without_changing_bytes() {
    let payload = (0..UDP_PAYLOAD_SIZE * 2 + 37)
        .map(|index| (index % 251) as u8)
        .collect::<Vec<_>>();
    let chunks = udp_chunks(&payload);
    let mut received = Vec::new();
    for chunk in &chunks {
        assert!(chunk.len() <= UDP_PAYLOAD_SIZE);
        received.extend_from_slice(chunk);
    }
    assert_eq!(chunks.len(), 3);
    assert_eq!(received, payload);
}

#[test]
fn send_cached_keyframe_writes_the_full_access_unit() {
    let packets = vec![vec![0, 0, 0, 1, 0x67, 1], vec![0, 0, 0, 1, 0x65, 2, 3]];
    let mut cache = StreamCache::new();
    cache.sync_codec(StreamCodec::H264);
    let decision = cache.accept_frame(&packets, StreamCodec::H264, true, 0);
    assert_eq!(
        decision,
        FrameDecision {
            hold_clients: false,
            deliver: true
        }
    );
    let units = cache.bootstrap(StreamCodec::H264);
    // First the cached headers (the SPS this key frame carried), then every
    // unit of the key frame, complete and in order.
    assert_eq!(units.len(), 3);
    assert_eq!(units[0], &[0, 0, 0, 1, 0x67, 1][..]);
    let keyframe: Vec<u8> = units[1..]
        .iter()
        .flat_map(|unit| unit.iter().copied())
        .collect();
    assert_eq!(keyframe, [0, 0, 0, 1, 0x67, 1, 0, 0, 0, 1, 0x65, 2, 3]);
}

#[test]
fn caches_hevc_vps_sps_and_pps() {
    let packet = [
        0,
        0,
        0,
        1,
        HEVC_VPS << 1,
        1,
        0,
        0,
        1,
        HEVC_SPS << 1,
        1,
        0,
        0,
        0,
        1,
        HEVC_PPS << 1,
        1,
    ];
    let mut sets = ParameterSets::new();
    update_parameter_sets(&packet, StreamCodec::Hevc, &mut sets);
    let headers = sets.headers(StreamCodec::Hevc);
    assert_eq!(headers.len(), 3);
    assert_eq!(headers[0], &packet[0..6]);
    assert_eq!(headers[1], &packet[6..11]);
    assert_eq!(headers[2], &packet[11..17]);
}

#[test]
fn dropped_frame_holds_clients_until_a_key_frame() {
    let key = vec![vec![0, 0, 0, 1, 0x65]];
    let inter = vec![vec![0, 0, 0, 1, 0x41]];
    let mut cache = StreamCache::new();
    let mut gate = ClientGate::new();
    // Codec change from the initial state: clients wait, frame delivered.
    let d = cache.accept_frame(&key, StreamCodec::H264, true, 1);
    assert_eq!(
        d,
        FrameDecision {
            hold_clients: true,
            deliver: true
        }
    );
    if d.hold_clients {
        gate.hold();
    }
    assert!(gate.should_send(true));
    gate.sent();
    let d = cache.accept_frame(&inter, StreamCodec::H264, false, 2);
    assert_eq!(
        d,
        FrameDecision {
            hold_clients: false,
            deliver: true
        }
    );
    assert!(gate.should_send(false));
    // Sequence 3 never arrived: the inter frame 4 is withheld.
    let d = cache.accept_frame(&inter, StreamCodec::H264, false, 4);
    assert_eq!(
        d,
        FrameDecision {
            hold_clients: true,
            deliver: false
        }
    );
    gate.hold();
    let d = cache.accept_frame(&inter, StreamCodec::H264, false, 5);
    assert!(d.deliver);
    assert!(!gate.should_send(false));
    let d = cache.accept_frame(&key, StreamCodec::H264, true, 9);
    assert!(d.deliver && !d.hold_clients);
    assert!(gate.should_send(true));
}

#[test]
fn codec_change_drops_cached_units() {
    let sps = vec![vec![0, 0, 1, 0x67, 9]];
    let mut cache = StreamCache::new();
    cache.accept_frame(&sps, StreamCodec::H264, true, 0);
    assert!(cache.has_keyframe());
    assert_eq!(cache.bootstrap(StreamCodec::H264).len(), 2);
    cache.sync_codec(StreamCodec::Hevc);
    assert!(!cache.has_keyframe());
    assert!(cache.bootstrap(StreamCodec::Hevc).is_empty());
    // AV1 never sends separate headers.
    let mut sets = ParameterSets::new();
    update_parameter_sets(&sps[0], StreamCodec::H264, &mut sets);
    assert!(sets.headers(StreamCodec::Av1).is_empty());
    assert_eq!(sets.headers(StreamCodec::H264).len(), 1);
}

#[test]
fn udp_key_frames_carry_cached_headers() {
    let packets = vec![vec![0, 0, 0, 1, 0x67, 1], vec![0, 0, 0, 1, 0x68, 2]];
    let mut cache = UdpStreamCache::new();
    cache.accept_frame(&packets, StreamCodec::H264);
    let key_units = cache.access_unit(&packets, StreamCodec::H264, true);
    assert_eq!(key_units.len(), 4);
    let inter_units = cache.access_unit(&packets, StreamCodec::H264, false);
    assert_eq!(inter_units.len(), 2);
    assert!(udp_chunks(&[]).is_empty());
}

#[test]
fn delivery_sample_measures_each_stage_in_microseconds() {
    let timeline = CaptureTimeline {
        capture_unix_us: 5,
        post_draw_at: 1_000_000,
        render_thread_at: 3_000_000,
        readback_submitted_at: 3_500_000,
        callback_at: 10_000_000,
        ready_for_encode_at: 10_400_000,
    };
    let encode = EncodeStages {
        encode_started_at: 11_000_000,
        encoded_at: 15_000_000,
        scale_us: 7,
        encode_us: 8,
    };
    let send = SendStages {
        network_started_at: 15_500_000,
        write_started: 16_000_000,
        completed_at: 17_000_999,
        bytes: 1234,
    };
    let sample = delivery_sample(timeline, encode, send);
    assert_eq!(sample.post_to_render_us, 2_000);
    assert_eq!(sample.render_setup_us, 500);
    assert_eq!(sample.readback_wait_us, 6_500);
    assert_eq!(sample.callback_copy_us, 400);
    assert_eq!(sample.encode_queue_us, 600);
    assert_eq!(sample.encoder_stage_us, 4_000);
    assert_eq!(sample.capture_to_encoded_us, 14_000);
    assert_eq!(sample.network_queue_us, 500);
    assert_eq!(sample.packet_prep_us, 500);
    assert_eq!(sample.socket_write_us, 1_000);
    assert_eq!(sample.total_us, 16_000);
    assert_eq!(sample.frame_bytes, 1234);
    assert_eq!(elapsed_us(10, 5), 0);
}
