use game_stream::shared::{
    best_fit, percentile, EncoderBackend, FrameBufferPool, FrameTimingSample, LatestSlot, PixelFormat,
    StreamCodec,
    StreamConfig, SubmitClock, TimingWindow,
};

#[test]
fn submit_clock_does_not_halve_a_slightly_fast_sixty_hz_source() {
    let start: u64 = 0;
    let interval: u64 = 1_000_000_000 / 60;
    let source_interval: u64 = 16_500_000;
    let mut clock = SubmitClock::new();
    let accepted = (0..600u64)
        .filter(|frame| clock.should_submit(start + source_interval * *frame, interval))
        .count();

    assert!(accepted >= 590, "accepted only {accepted} frames");
}

#[test]
fn submit_clock_samples_seventy_five_hz_close_to_sixty_hz() {
    let start: u64 = 0;
    let interval: u64 = 1_000_000_000 / 60;
    let source_interval: u64 = 1_000_000_000 / 75;
    let mut clock = SubmitClock::new();
    let accepted = (0..750u64)
        .filter(|frame| clock.should_submit(start + source_interval * *frame, interval))
        .count();

    assert!(
        (598..=602).contains(&accepted),
        "accepted {accepted} frames"
    );
}

#[test]
fn timing_window_reports_nearest_rank_percentiles() {
    let start: u64 = 0;
    let mut window = TimingWindow::new(100);
    for value in 1..=100_u64 {
        let captured_at = start + value * 1_000_000;
        window.record(FrameTimingSample {
            captured_at,
            completed_at: captured_at + 1_000_000,
            post_to_render_us: value,
            render_setup_us: value,
            readback_wait_us: value,
            callback_copy_us: value,
            encode_queue_us: value,
            scale_us: value,
            encode_us: value,
            encoder_stage_us: value,
            capture_to_encoded_us: value,
            network_queue_us: value,
            packet_prep_us: value,
            socket_write_us: value,
            total_us: value,
            frame_bytes: 1_000,
        });
    }

    let summary = window.summary();
    assert_eq!(summary.samples, 100);
    assert_eq!(summary.total.p50_us, 50);
    assert_eq!(summary.total.p95_us, 95);
    assert_eq!(summary.total.p99_us, 99);
    assert_eq!(summary.total.max_us, 100);
    let duration_seconds = summary.window_ns as f64 / 1_000_000_000.0;
    let stream_bitrate_bps = if duration_seconds > 0.0 {
        ((summary.frame_bytes as f64 * 8.0) / duration_seconds) as u64
    } else {
        0
    };
    assert!(stream_bitrate_bps > 0);
}

#[test]
fn stream_config_clamps_to_even_source_dimensions() {
    let config = StreamConfig::new(1920, 1080, 120).expect("valid config");
    assert_eq!(config.dimensions_for_source(2560, 1181), Some((1920, 1080)));
    assert_eq!(config.dimensions_for_source(1281, 721), Some((1280, 720)));
    assert_eq!(config.bitrate_for(1920, 1080), 45_000_000);
}

#[test]
fn stream_config_rejects_fps_above_one_twenty() {
    assert!(StreamConfig::new(1920, 1080, 120).is_some());
    assert!(StreamConfig::new(1920, 1080, 121).is_none());
}

#[test]
fn bitrate_scales_with_pixel_rate_and_is_clamped() {
    let config = StreamConfig::default();
    assert_eq!(config.requested_width, 1280);
    assert_eq!(config.codec, StreamCodec::H264);
    assert_eq!(config.bitrate_for(1280, 720), 10_000_000);
    assert_eq!(config.bitrate_for(1920, 1080), 22_500_000);
    assert_eq!(config.bitrate_for(2, 2), 500_000);
    assert_eq!(config.bitrate_for(7680, 4320), 200_000_000);
    // 10 Mbps * 3 / 55_296_000 pixel-frames rounds up.
    assert_eq!(StreamConfig::new(2, 2, 1).unwrap().bitrate_for(3, 1), 500_000);
    assert_eq!(config.timing_window_capacity(), 600);
}

#[test]
fn dimensions_below_two_are_rejected() {
    let config = StreamConfig::new(1280, 720, 60).unwrap();
    assert_eq!(config.dimensions_for_source(1, 720), None);
    assert_eq!(config.dimensions_for_source(3, 3), Some((2, 2)));
    assert!(StreamConfig::new(1, 720, 60).is_none());
    assert!(StreamConfig::new(1280, 720, 0).is_none());
}

#[test]
fn codec_names_parse_case_insensitively_after_trimming() {
    assert_eq!(StreamCodec::from_env_value(" HEVC\n"), Some(StreamCodec::Hevc));
    assert_eq!(StreamCodec::from_env_value("h265"), Some(StreamCodec::Hevc));
    assert_eq!(StreamCodec::from_env_value("Avc"), Some(StreamCodec::H264));
    assert_eq!(StreamCodec::from_env_value("\u{3000}auto\u{a0}"), Some(StreamCodec::Auto));
    assert_eq!(StreamCodec::from_env_value("av1"), Some(StreamCodec::Av1));
    assert_eq!(StreamCodec::from_env_value("vp9"), None);
    assert_eq!(StreamCodec::from_env_value("h 264"), None);
    assert_eq!(StreamCodec::Hevc.as_str(), "hevc");
    assert!(!StreamCodec::Auto.is_concrete());
    assert!(StreamCodec::Av1.is_concrete());
}

#[test]
fn pixel_formats_and_backends_round_trip_their_codes() {
    for format in [PixelFormat::Rgba8, PixelFormat::Bgra8, PixelFormat::Nv12] {
        assert_eq!(PixelFormat::from_u32(format.to_u32()), Some(format));
    }
    assert_eq!(PixelFormat::from_u32(0), None);
    assert_eq!(PixelFormat::Nv12.packed_bytes_per_pixel(), None);
    assert_eq!(PixelFormat::Bgra8.packed_bytes_per_pixel(), Some(4));
    assert_eq!(PixelFormat::Rgba8.as_str(), "rgba8");
    for code in 0..12 {
        assert_eq!(EncoderBackend::from_u32(code).to_u32(), code);
    }
    assert_eq!(EncoderBackend::from_u32(99), EncoderBackend::NoEncoder);
    assert_eq!(EncoderBackend::from_u32(11).as_str(), "h264_videotoolbox");
    assert_eq!(EncoderBackend::NoEncoder.as_str(), "none");
}

#[test]
fn percentile_uses_nearest_rank() {
    let sorted = [1, 2, 3, 4];
    assert_eq!(percentile(&sorted, 50), 2);
    assert_eq!(percentile(&sorted, 95), 4);
    assert_eq!(percentile(&sorted, 0), 1);
    assert_eq!(percentile(&[9], 99), 9);
}

#[test]
fn timing_window_drops_oldest_and_summarizes_empty_as_zero() {
    let mut window = TimingWindow::new(2);
    assert_eq!(window.summary().samples, 0);
    assert_eq!(window.summary().total.max_us, 0);
    for value in [30u64, 10, 20] {
        window.record(FrameTimingSample {
            captured_at: value * 1_000_000,
            completed_at: value * 1_000_000 + 500,
            post_to_render_us: value,
            render_setup_us: 0,
            readback_wait_us: 0,
            callback_copy_us: 0,
            encode_queue_us: 0,
            scale_us: 0,
            encode_us: 0,
            encoder_stage_us: 0,
            capture_to_encoded_us: 0,
            network_queue_us: 0,
            packet_prep_us: 0,
            socket_write_us: 0,
            total_us: value,
            frame_bytes: u64::MAX,
        });
    }
    let summary = window.summary();
    assert_eq!(summary.samples, 2);
    assert_eq!(summary.post_to_render.p50_us, 10);
    assert_eq!(summary.post_to_render.max_us, 20);
    // From the capture of 10 to the completion of 20.
    assert_eq!(summary.window_ns, 10_000_500);
    assert_eq!(summary.window_ms, 10);
    assert_eq!(summary.frame_bytes, 2 * u64::MAX as u128);
}

#[test]
fn frame_pool_reuses_buffers_up_to_its_capacity() {
    let mut pool = FrameBufferPool::new();
    let first = pool.take(8);
    assert_eq!(first, vec![0; 8]);
    pool.recycle(first);
    assert_eq!(pool.available(), 1);
    let again = pool.take(4);
    assert_eq!(again, vec![0; 4]);
    assert_eq!(pool.available(), 0);
    for _ in 0..6 {
        pool.recycle(vec![1, 2, 3]);
    }
    assert_eq!(pool.available(), 4);
    assert_eq!(pool.take(3), vec![0; 3]);
    assert_eq!(FrameBufferPool::default().available(), 0);
}

#[test]
fn clock_waits_for_the_due_time_and_restarts_when_late() {
    let mut clock = SubmitClock::new();
    assert!(clock.should_submit(1_000, 100));
    assert!(!clock.should_submit(1_050, 100));
    assert!(clock.should_submit(1_120, 100));
    // Due at 1_200: a frame a full interval late restarts from itself.
    assert!(clock.should_submit(1_400, 100));
    assert!(!clock.should_submit(1_450, 100));
    assert!(clock.should_submit(1_500, 100));
}

#[test]
fn timing_percentiles_sort_values_recorded_out_of_order() {
    let mut window = TimingWindow::new(3);
    for (index, value) in [30u64, 10, 20].into_iter().enumerate() {
        let at = index as u64 * 1_000;
        window.record(FrameTimingSample {
            captured_at: at,
            completed_at: at + 10,
            post_to_render_us: value,
            render_setup_us: value,
            readback_wait_us: value,
            callback_copy_us: value,
            encode_queue_us: value,
            scale_us: value,
            encode_us: value,
            encoder_stage_us: value,
            capture_to_encoded_us: value,
            network_queue_us: value,
            packet_prep_us: value,
            socket_write_us: value,
            total_us: value,
            frame_bytes: 100,
        });
    }
    let summary = window.summary();
    assert_eq!(summary.samples, 3);
    assert_eq!(summary.total.p50_us, 20);
    assert_eq!(summary.total.p95_us, 30);
    assert_eq!(summary.total.max_us, 30);
    assert_eq!(summary.scale.p50_us, 20);
    assert_eq!(summary.window_ns, 2_010);
    assert_eq!(summary.frame_bytes, 300);
}

#[test]
fn latest_slot_keeps_only_the_newest_frame() {
    let mut slot = LatestSlot::new();
    assert_eq!(slot.take(), None);
    assert_eq!(slot.push(1u64), None);
    assert_eq!(slot.push(2), Some(1));
    assert_eq!(slot.push(3), Some(2));
    assert_eq!(slot.take(), Some(3));
    assert_eq!(slot.take(), None);
}

#[test]
fn best_fit_takes_the_first_smallest_sufficient_capacity() {
    assert_eq!(best_fit(&[16, 8, 32, 8], 5), Some(1));
    assert_eq!(best_fit(&[16, 8, 32], 9), Some(0));
    assert_eq!(best_fit(&[4, 2], 5), None);
    assert_eq!(best_fit(&[], 0), None);
    assert_eq!(best_fit(&[3], 0), Some(0));
}

#[test]
fn frame_pool_reuses_the_best_fitting_buffer() {
    let mut pool = FrameBufferPool::new();
    pool.recycle(Vec::with_capacity(4096));
    pool.recycle(Vec::with_capacity(64));
    assert_eq!(pool.available(), 2);
    // The 64-byte buffer fits 40 bytes best and leaves the pool.
    assert_eq!(pool.take(40), vec![0; 40]);
    assert_eq!(pool.available(), 1);
    // The 4096-byte buffer is still there and serves a larger request.
    assert_eq!(pool.take(1000).len(), 1000);
    assert_eq!(pool.available(), 0);
}

#[test]
fn clock_accepts_a_full_interval_after_the_last_submission() {
    let mut clock = SubmitClock::new();
    let interval = 100;
    let mut accepted = Vec::new();
    for t in [0u64, 30, 99, 100, 150, 199, 260, 300, 420] {
        if clock.should_submit(t, interval) {
            accepted.push(t);
        }
    }
    assert_eq!(accepted, vec![0, 100, 260, 300, 420]);
    for (m, a) in accepted.iter().enumerate() {
        assert!(*a >= accepted[0] + m as u64 * interval);
    }
    assert!(clock.should_submit(520, interval));
}

#[test]
fn recycled_buffer_serves_a_request_of_its_former_length() {
    let mut pool = FrameBufferPool::new();
    pool.recycle(vec![7u8; 50]);
    assert_eq!(pool.available(), 1);
    assert_eq!(pool.take(50), vec![0; 50]);
    assert_eq!(pool.available(), 0);
}
