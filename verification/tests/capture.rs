use game_stream::capture::{
    duration_to_pts, map_rd_format, nv12_layout, nv12_push_constant_bytes, plan_preprocess,
    should_force_draw, stuck_action, PreprocessPlan, PreprocessStatus, validate_readback_layout, workgroups, RdTextureFormat, SlotRing, StuckAction,
    FORCED_DRAW_MIN_INTERVAL_US,
};
use game_stream::shared::PixelFormat;

#[test]
fn nv12_layout_is_even_and_four_byte_aligned() {
    assert_eq!(nv12_layout(1920, 1080), Some((1920, 2_073_600, 3_110_400)));
    assert_eq!(nv12_layout(1918, 1080), Some((1920, 2_073_600, 3_110_400)));
    assert_eq!(nv12_layout(1919, 1080), None);
    assert_eq!(nv12_layout(1920, 1079), None);
}

#[test]
fn nv12_push_constants_match_shader_layout() {
    let bytes = nv12_push_constant_bytes(1918, 1080, 1920);
    let values: Vec<u32> = bytes
        .chunks_exact(4)
        .map(|chunk| u32::from_le_bytes(chunk.try_into().expect("four bytes")))
        .collect();
    assert_eq!(values, [1918, 1080, 480, 518_400]);
}

#[test]
fn readback_layout_rejects_truncated_or_misdeclared_planes() {
    assert_eq!(
        validate_readback_layout(PixelFormat::Nv12, 1918, 1080, 1920, 3_110_400),
        Some(1920)
    );
    assert_eq!(
        validate_readback_layout(PixelFormat::Nv12, 1918, 1080, 1918, 3_110_400),
        None
    );
    assert_eq!(
        validate_readback_layout(PixelFormat::Nv12, 1918, 1080, 1920, 3_110_399),
        None
    );
    assert_eq!(
        validate_readback_layout(PixelFormat::Rgba8, 4, 2, 16, 32),
        Some(16)
    );
}

#[test]
fn forced_redraw_waits_for_a_pending_keyframe_and_a_quiet_game() {
    let now = 10_000_000_000;
    // No pending keyframe: never force, even when the game is idle.
    assert!(!should_force_draw(false, 0, 0, now));
    // Pending keyframe but the game still draws every frame: not needed.
    assert!(!should_force_draw(true, now - 16_000, 0, now));
    // Pending keyframe and the game went quiet: force one redraw.
    assert!(should_force_draw(
        true,
        now - FORCED_DRAW_MIN_INTERVAL_US,
        0,
        now
    ));
    // Never drew since streaming started: the startup bootstrap forces.
    assert!(should_force_draw(true, 0, 0, now));
    // A recent forced redraw is rate-limited until the interval elapses.
    assert!(!should_force_draw(
        true,
        now - FORCED_DRAW_MIN_INTERVAL_US * 5,
        now - 16_000,
        now
    ));
    assert!(should_force_draw(
        true,
        now - FORCED_DRAW_MIN_INTERVAL_US * 5,
        now - FORCED_DRAW_MIN_INTERVAL_US,
        now
    ));
}

#[test]
fn shader_uses_bt709_studio_range_reference_values() {
    fn convert(rgb: [f32; 3]) -> [u8; 3] {
        let byte = |value: f32| (value * 255.0).round().clamp(0.0, 255.0) as u8;
        [
            byte(16.0 / 255.0 + rgb[0] * 0.182_586 + rgb[1] * 0.614_231 + rgb[2] * 0.062_007),
            byte(128.0 / 255.0 - rgb[0] * 0.100_644 - rgb[1] * 0.338_572 + rgb[2] * 0.439_216),
            byte(128.0 / 255.0 + rgb[0] * 0.439_216 - rgb[1] * 0.398_942 - rgb[2] * 0.040_274),
        ]
    }

    assert_eq!(convert([0.0, 0.0, 0.0]), [16, 128, 128]);
    assert_eq!(convert([1.0, 1.0, 1.0]), [235, 128, 128]);
    assert_eq!(convert([1.0, 0.0, 0.0]), [63, 102, 240]);
}

#[test]
fn readback_layout_packed_stride_comes_from_the_data() {
    // 40 bytes over 2 rows: stride 20 >= 4 * 4.
    assert_eq!(validate_readback_layout(PixelFormat::Bgra8, 4, 2, 0, 40), Some(20));
    assert_eq!(validate_readback_layout(PixelFormat::Rgba8, 4, 2, 16, 30), None);
    assert_eq!(validate_readback_layout(PixelFormat::Rgba8, 5, 2, 16, 32), None);
    assert_eq!(validate_readback_layout(PixelFormat::Rgba8, 4, 0, 16, 0), None);
}

#[test]
fn pts_counts_ninety_kilohertz_ticks_and_saturates() {
    assert_eq!(duration_to_pts(1_000_000_000), 90_000);
    assert_eq!(duration_to_pts(16_666_667), 1_500);
    assert_eq!(duration_to_pts(0), 0);
    assert_eq!(duration_to_pts(u128::MAX), i64::MAX);
}

#[test]
fn rd_formats_map_to_packed_pixels() {
    assert_eq!(map_rd_format(RdTextureFormat::R8G8B8A8Srgb), Some(PixelFormat::Rgba8));
    assert_eq!(map_rd_format(RdTextureFormat::B8G8R8A8Unorm), Some(PixelFormat::Bgra8));
    assert_eq!(map_rd_format(RdTextureFormat::Other), None);
    assert_eq!(workgroups(1918, 8 * 4), 60);
    assert_eq!(workgroups(1080, 8 * 2), 68);
    assert_eq!(workgroups(1920, 8), 240);
}

#[test]
fn slot_ring_alternates_and_reports_busy() {
    let mut ring = SlotRing::new();
    assert!(!ring.any_busy());
    assert_eq!(ring.acquire(), Some(0));
    assert_eq!(ring.acquire(), Some(1));
    assert_eq!(ring.acquire(), None);
    ring.release(0);
    assert_eq!(ring.acquire(), Some(0));
    ring.release(1);
    ring.release(7);
    assert_eq!(ring.acquire(), Some(1));
    assert!(ring.any_busy());
}

#[test]
fn stuck_gate_recovers_after_the_timeout() {
    assert_eq!(stuck_action(None, 5), StuckAction::StartWatch);
    assert_eq!(stuck_action(Some(1_000), 400_000), StuckAction::Wait);
    assert_eq!(stuck_action(Some(1_000), 501_000), StuckAction::Recover);
    assert_eq!(stuck_action(Some(9_000), 1_000), StuckAction::Wait);
}

#[test]
fn preprocessing_rebuilds_only_when_no_readback_is_outstanding() {
    assert_eq!(
        plan_preprocess(PreprocessStatus::Uninitialized, 1280, 720),
        PreprocessPlan::Build
    );
    assert_eq!(
        plan_preprocess(PreprocessStatus::Disabled, 1280, 720),
        PreprocessPlan::Fallback
    );
    let ready = |any_busy| PreprocessStatus::Ready {
        output_width: 1280,
        output_height: 720,
        any_busy,
    };
    assert_eq!(plan_preprocess(ready(true), 1280, 720), PreprocessPlan::Dispatch);
    assert_eq!(plan_preprocess(ready(true), 1920, 1080), PreprocessPlan::Busy);
    assert_eq!(plan_preprocess(ready(false), 1280, 718), PreprocessPlan::Rebuild);
}
