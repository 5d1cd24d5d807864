use game_stream::session::{
    bind_target, codec_setting, configured_options, input_enabled_from_value, options_config,
    valid_port, BindTarget, CodecSetting,
};
use game_stream::shared::{StreamCodec, StreamConfig};

#[test]
fn ports_outside_the_tcp_range_are_rejected() {
    assert_eq!(valid_port(0), None);
    assert_eq!(valid_port(65_536), None);
    assert_eq!(valid_port(-1), None);
    assert_eq!(valid_port(20_831), Some(20_831));
}

#[test]
fn listen_options_are_validated_before_conversion() {
    assert_eq!(
        options_config(1920, 1080, 60, StreamCodec::H264),
        StreamConfig::new(1920, 1080, 60)
    );
    assert_eq!(options_config(-2, 1080, 60, StreamCodec::H264), None);
    assert_eq!(options_config(1920, 1080, 0, StreamCodec::H264), None);
    assert_eq!(options_config(1920, 1080, 121, StreamCodec::H264), None);
    assert_eq!(
        configured_options(1280, 720, 30, "hevc"),
        StreamConfig::with_codec(1280, 720, 30, StreamCodec::Hevc)
    );
    assert_eq!(configured_options(1280, 720, 30, "mpeg2"), None);
}

#[test]
fn input_switch_only_turns_off_on_explicit_values() {
    assert!(input_enabled_from_value(""));
    assert!(input_enabled_from_value("1"));
    assert!(!input_enabled_from_value("0"));
    assert!(!input_enabled_from_value("FALSE"));
    assert!(!input_enabled_from_value("Off"));
    assert!(!input_enabled_from_value("no"));
    // No trimming for this switch.
    assert!(input_enabled_from_value(" no"));
}

#[test]
fn codec_override_distinguishes_unset_and_unknown() {
    assert_eq!(codec_setting(""), CodecSetting::Unset);
    assert_eq!(codec_setting("  \t"), CodecSetting::Unset);
    assert_eq!(codec_setting(" AV1 "), CodecSetting::Codec(StreamCodec::Av1));
    assert_eq!(codec_setting("vp8"), CodecSetting::Unknown);
}

#[test]
fn bind_setting_selects_transport() {
    assert_eq!(bind_target(""), BindTarget::DefaultTcp);
    assert_eq!(bind_target("   "), BindTarget::DefaultTcp);
    assert_eq!(bind_target("0.0.0.0"), BindTarget::Tcp);
    assert_eq!(bind_target("udp://192.168.1.5"), BindTarget::Udp);
    assert_eq!(bind_target("udp:// "), BindTarget::EmptyUdpHost);
    assert_eq!(bind_target(" udp://x"), BindTarget::Tcp);
}
