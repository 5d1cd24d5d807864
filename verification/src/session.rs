//! Validation of the host's listen settings: port, stream options, codec
//! and input switches, and the bind address.
use crate::shared::{StreamCodec, StreamConfig, valid_request};
use crate::text::{chars_of, eq_ignore_ascii_case_to, equals_ascii_lowercase, spec_trim, trim_bounds};
use vstd::prelude::*;

verus! {

pub const DEFAULT_BIND: &'static str = "127.0.0.1";

/// A listen port must be in `1..=65535`.
pub fn valid_port(port: i32) -> (valid: Option<u16>)
    ensures
        valid == if 1 <= port <= 65535 {
            Some(port as u16)
        } else {
            None::<u16>
        },
{
    if 1 <= port && port <= 65535 {
        Some(port as u16)
    } else {
        None
    }
}

pub open spec fn spec_options_config(width: i32, height: i32, fps: i32, codec: StreamCodec) -> Option<StreamConfig> {
    if width >= 2 && height >= 2 && fps >= 1 && valid_request(width as u32, height as u32, fps as u32) {
        Some(StreamConfig { requested_width: width as u32, requested_height: height as u32, fps: fps as u32, codec })
    } else {
        None
    }
}

/// Stream options from script integers: sides at least 2 and a frame rate in
/// `1..=MAX_TARGET_FPS`.
pub fn options_config(width: i32, height: i32, fps: i32, codec: StreamCodec) -> (config: Option<StreamConfig>)
    ensures
        config == spec_options_config(width, height, fps, codec),
{
    if width >= 2 && height >= 2 && fps >= 1 {
        StreamConfig::with_codec(width as u32, height as u32, fps as u32, codec)
    } else {
        None
    }
}

/// Settings of the explicit listen call: the codec name must be known and
/// the options valid.
pub fn configured_options(width: i32, height: i32, fps: i32, codec: &str) -> (config: Option<StreamConfig>)
    ensures
        config == match StreamCodec::spec_from_setting(codec@) {
            Some(c) => spec_options_config(width, height, fps, c),
            None => None,
        },
{
    match StreamCodec::from_env_value(codec) {
        Some(c) => options_config(width, height, fps, c),
        None => None,
    }
}

/// The input kill switch: input stays on unless the value, ignoring ASCII
/// case, is `0`, `false`, `off` or `no`.
pub open spec fn spec_input_enabled(value: Seq<char>) -> bool {
    !(eq_ignore_ascii_case_to(value, "0"@) || eq_ignore_ascii_case_to(value, "false"@)
        || eq_ignore_ascii_case_to(value, "off"@) || eq_ignore_ascii_case_to(value, "no"@))
}

pub fn input_enabled_from_value(value: &str) -> (enabled: bool)
    ensures
        enabled == spec_input_enabled(value@),
{
    let chars = chars_of(value);
    let n = chars.len();
    assert(chars@.subrange(0, n as int) =~= value@);
    !(equals_ascii_lowercase(&chars, 0, n, "0") || equals_ascii_lowercase(&chars, 0, n, "false")
        || equals_ascii_lowercase(&chars, 0, n, "off") || equals_ascii_lowercase(&chars, 0, n, "no"))
}

/// The codec override setting.
#[derive(Clone, Copy, Debug, PartialEq, Eq, Structural)]
pub enum CodecSetting {
    /// Empty or blank: no override.
    Unset,
    Codec(StreamCodec),
    /// Set but not a codec name; it is ignored.
    Unknown,
}

pub fn codec_setting(value: &str) -> (setting: CodecSetting)
    ensures
        setting == if spec_trim(value@).len() == 0 {
            CodecSetting::Unset
        } else {
            match StreamCodec::spec_from_setting(value@) {
                Some(c) => CodecSetting::Codec(c),
                None => CodecSetting::Unknown,
            }
        },
{
    let chars = chars_of(value);
    let (start, end) = trim_bounds(&chars);
    if start == end {
        return CodecSetting::Unset;
    }
    match StreamCodec::from_env_value(value) {
        Some(c) => CodecSetting::Codec(c),
        None => CodecSetting::Unknown,
    }
}

/// Where the stream goes, given the bind setting.
#[derive(Clone, Copy, Debug, PartialEq, Eq, Structural)]
pub enum BindTarget {
    /// Blank setting: listen on TCP at `DEFAULT_BIND`.
    DefaultTcp,
    /// Listen on TCP at the setting as given.
    Tcp,
    /// Send UDP to the host after the `udp://` prefix, as given.
    Udp,
    /// `udp://` with a blank host.
    EmptyUdpHost,
}

pub open spec fn udp_prefix() -> Seq<char> {
    seq!['u', 'd', 'p', ':', '/', '/']
}

pub open spec fn spec_bind_target(bind: Seq<char>) -> BindTarget {
    if spec_trim(bind).len() == 0 {
        BindTarget::DefaultTcp
    } else if bind.len() >= 6 && bind.take(6) == udp_prefix() {
        if spec_trim(bind.skip(6)).len() == 0 {
            BindTarget::EmptyUdpHost
        } else {
            BindTarget::Udp
        }
    } else {
        BindTarget::Tcp
    }
}

pub fn bind_target(bind: &str) -> (target: BindTarget)
    ensures
        target == spec_bind_target(bind@),
{
    let chars = chars_of(bind);
    let (start, end) = trim_bounds(&chars);
    if start == end {
        return BindTarget::DefaultTcp;
    }
    let n = chars.len();
    if n >= 6 && chars[0] == 'u' && chars[1] == 'd' && chars[2] == 'p' && chars[3] == ':'
        && chars[4] == '/' && chars[5] == '/' {
        assert(chars@.take(6) =~= udp_prefix());
        let mut host: Vec<char> = Vec::new();
        let mut i: usize = 6;
        while i < n
            invariant
                6 <= i <= n,
                n == chars@.len(),
                host@ == chars@.subrange(6, i as int),
            decreases n - i,
        {
            host.push(chars[i]);
            i += 1;
            assert(host@ =~= chars@.subrange(6, i as int));
        }
        assert(host@ =~= bind@.skip(6));
        let (hs, he) = trim_bounds(&host);
        if hs == he {
            BindTarget::EmptyUdpHost
        } else {
            BindTarget::Udp
        }
    } else {
        proof {
            if chars@.len() >= 6 && chars@.take(6) == udp_prefix() {
                assert(chars@.take(6)[0] == 'u');
                assert(chars@.take(6)[1] == 'd');
                assert(chars@.take(6)[2] == 'p');
                assert(chars@.take(6)[3] == ':');
                assert(chars@.take(6)[4] == '/');
                assert(chars@.take(6)[5] == '/');
            }
        }
        BindTarget::Tcp
    }
}

} // verus!
