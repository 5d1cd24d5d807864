//! Stream configuration and the small value types shared by capture,
//! encoding and delivery.
use std::collections::VecDeque;
use vstd::prelude::*;
use vstd::relations::{sorted_by, total_ordering};
use crate::net::{CaptureTimeline, EncodeStages};
use crate::text::{chars_of, eq_ignore_ascii_case_to, equals_ascii_lowercase, spec_trim, trim_bounds};

verus! {

pub const DEFAULT_OUTPUT_WIDTH: u32 = 1280;

pub const DEFAULT_OUTPUT_HEIGHT: u32 = 720;

pub const DEFAULT_TARGET_FPS: u32 = 60;

pub const MAX_TARGET_FPS: u32 = 120;

pub const MAX_IN_FLIGHT: u32 = 2;

/// Bandwidth is intentionally traded for quality: 10 Mbps at 720p60 scales to
/// 22.5 Mbps at 1080p60, 40 Mbps at 1440p60, and 90 Mbps at 4K60.
pub const BASE_TARGET_BITRATE: usize = 10_000_000;

pub const VIDEO_TIME_BASE: i32 = 90_000;

pub const DOWNSCALE_BUFFER_COUNT: usize = 2;

pub const FRAME_POOL_CAPACITY: usize = 4;

pub const TIMING_WINDOW_SECONDS: usize = 10;

pub const MIN_TARGET_BITRATE: usize = 500_000;

pub const MAX_TARGET_BITRATE: usize = 200_000_000;

/// Requested or selected wire codec. `Auto` is only valid before the encoder
/// is opened; every encoded frame carries one concrete codec.
#[derive(Clone, Copy, PartialEq, Eq, Debug, Structural)]
pub enum StreamCodec {
    Auto,
    Av1,
    Hevc,
    H264,
}

impl StreamCodec {
    pub open spec fn spec_name(self) -> Seq<char> {
        match self {
            StreamCodec::Auto => "auto"@,
            StreamCodec::Av1 => "av1"@,
            StreamCodec::Hevc => "hevc"@,
            StreamCodec::H264 => "h264"@,
        }
    }

    pub fn as_str(&self) -> (name: &'static str)
        ensures
            name@ == self.spec_name(),
    {
        match self {
            StreamCodec::Auto => "auto",
            StreamCodec::Av1 => "av1",
            StreamCodec::Hevc => "hevc",
            StreamCodec::H264 => "h264",
        }
    }

    /// The codec a setting names: the trimmed value, ignoring ASCII case, is
    /// `auto`, `av1`, `hevc`/`h265` or `h264`/`avc`.
    pub open spec fn spec_from_setting(value: Seq<char>) -> Option<StreamCodec> {
        let t = spec_trim(value);
        if eq_ignore_ascii_case_to(t, "auto"@) {
            Some(StreamCodec::Auto)
        } else if eq_ignore_ascii_case_to(t, "av1"@) {
            Some(StreamCodec::Av1)
        } else if eq_ignore_ascii_case_to(t, "hevc"@) || eq_ignore_ascii_case_to(t, "h265"@) {
            Some(StreamCodec::Hevc)
        } else if eq_ignore_ascii_case_to(t, "h264"@) || eq_ignore_ascii_case_to(t, "avc"@) {
            Some(StreamCodec::H264)
        } else {
            None
        }
    }

    pub fn from_env_value(value: &str) -> (codec: Option<Self>)
        ensures
            codec == Self::spec_from_setting(value@),
    {
        let chars = chars_of(value);
        let (start, end) = trim_bounds(&chars);
        if equals_ascii_lowercase(&chars, start, end, "auto") {
            Some(Self::Auto)
        } else if equals_ascii_lowercase(&chars, start, end, "av1") {
            Some(Self::Av1)
        } else if equals_ascii_lowercase(&chars, start, end, "hevc") || equals_ascii_lowercase(
            &chars,
            start,
            end,
            "h265",
        ) {
            Some(Self::Hevc)
        } else if equals_ascii_lowercase(&chars, start, end, "h264") || equals_ascii_lowercase(
            &chars,
            start,
            end,
            "avc",
        ) {
            Some(Self::H264)
        } else {
            None
        }
    }

    pub fn is_concrete(self) -> (concrete: bool)
        ensures
            concrete == (self != StreamCodec::Auto),
    {
        !matches!(self, StreamCodec::Auto)
    }
}

#[derive(Clone, Copy, Debug, PartialEq, Eq, Structural)]
pub struct StreamConfig {
    pub requested_width: u32,
    pub requested_height: u32,
    pub fps: u32,
    pub codec: StreamCodec,
}

impl Default for StreamConfig {
    fn default() -> (config: Self)
        ensures
            config == (StreamConfig {
                requested_width: DEFAULT_OUTPUT_WIDTH,
                requested_height: DEFAULT_OUTPUT_HEIGHT,
                fps: DEFAULT_TARGET_FPS,
                codec: StreamCodec::H264,
            }),
    {
        Self {
            requested_width: DEFAULT_OUTPUT_WIDTH,
            requested_height: DEFAULT_OUTPUT_HEIGHT,
            fps: DEFAULT_TARGET_FPS,
            codec: StreamCodec::H264,
        }
    }
}

/// A request is usable when both sides are at least 2 pixels and the frame
/// rate is within `1..=MAX_TARGET_FPS`.
pub open spec fn valid_request(width: u32, height: u32, fps: u32) -> bool {
    width >= 2 && height >= 2 && 1 <= fps <= MAX_TARGET_FPS
}

/// `x` rounded down to an even number.
pub open spec fn even_floor(x: u32) -> u32 {
    (x - x % 2) as u32
}

pub open spec fn min_u32(a: u32, b: u32) -> u32 {
    if a <= b {
        a
    } else {
        b
    }
}

/// Target bitrate before clamping: the base rate scaled by pixel rate
/// relative to 720p60, rounded up.
pub open spec fn scaled_bitrate(width: u32, height: u32, fps: u32) -> int {
    let numerator = BASE_TARGET_BITRATE * width * height * fps;
    let denominator = DEFAULT_OUTPUT_WIDTH * DEFAULT_OUTPUT_HEIGHT * DEFAULT_TARGET_FPS;
    (numerator + denominator - 1) / denominator
}

pub open spec fn spec_bitrate(width: u32, height: u32, fps: u32) -> int {
    let raw = scaled_bitrate(width, height, fps);
    if raw < MIN_TARGET_BITRATE {
        MIN_TARGET_BITRATE as int
    } else if raw > MAX_TARGET_BITRATE {
        MAX_TARGET_BITRATE as int
    } else {
        raw
    }
}

/// Output dimensions for a source: each requested side clamped to the
/// source and rounded down to even; `None` when a side ends below 2.
pub open spec fn spec_dimensions_for_source(config: StreamConfig, source_width: u32, source_height: u32) -> Option<(u32, u32)> {
    let w = even_floor(min_u32(config.requested_width, source_width));
    let h = even_floor(min_u32(config.requested_height, source_height));
    if w >= 2 && h >= 2 {
        Some((w, h))
    } else {
        None
    }
}

/// Law: the stream never exceeds the source or the request. Each output side
/// is even, at least 2, no larger than the requested side or the source side,
/// and is the largest such even value; there is no output exactly when one
/// side would end below 2.
pub proof fn lemma_output_fits_source(config: StreamConfig, source_width: u32, source_height: u32)
    ensures
        match spec_dimensions_for_source(config, source_width, source_height) {
            Some((w, h)) => {
                &&& 2 <= w <= config.requested_width && w <= source_width && w % 2 == 0
                &&& min_u32(config.requested_width, source_width) <= w + 1
                &&& 2 <= h <= config.requested_height && h <= source_height && h % 2 == 0
                &&& min_u32(config.requested_height, source_height) <= h + 1
            },
            None => min_u32(config.requested_width, source_width) < 2 || min_u32(
                config.requested_height,
                source_height,
            ) < 2,
        },
{
}

impl StreamConfig {
    pub fn new(width: u32, height: u32, fps: u32) -> (config: Option<Self>)
        ensures
            config == (if valid_request(width, height, fps) {
                Some(
                    StreamConfig {
                        requested_width: width,
                        requested_height: height,
                        fps,
                        codec: StreamCodec::H264,
                    },
                )
            } else {
                None
            }),
    {
        Self::with_codec(width, height, fps, StreamCodec::H264)
    }

    pub fn with_codec(width: u32, height: u32, fps: u32, codec: StreamCodec) -> (config: Option<
        Self,
    >)
        ensures
            config == (if valid_request(width, height, fps) {
                Some(StreamConfig { requested_width: width, requested_height: height, fps, codec })
            } else {
                None
            }),
    {
        if width >= 2 && height >= 2 && 1 <= fps && fps <= MAX_TARGET_FPS {
            Some(Self { requested_width: width, requested_height: height, fps, codec })
        } else {
            None
        }
    }

    /// Output dimensions for a source: each requested side clamped to the
    /// source and rounded down to even; `None` when a side ends below 2.
    pub fn dimensions_for_source(self, source_width: u32, source_height: u32) -> (dims: Option<
        (u32, u32),
    >)
        ensures
            dims == spec_dimensions_for_source(self, source_width, source_height),
    {
        let w0 = if self.requested_width <= source_width {
            self.requested_width
        } else {
            source_width
        };
        let h0 = if self.requested_height <= source_height {
            self.requested_height
        } else {
            source_height
        };
        let width = w0 & !1u32;
        let height = h0 & !1u32;
        assert(w0 & !1u32 == w0 - w0 % 2) by (bit_vector);
        assert(h0 & !1u32 == h0 - h0 % 2) by (bit_vector);
        if width >= 2 && height >= 2 {
            Some((width, height))
        } else {
            None
        }
    }

    /// Encoder target bitrate for an output size at this frame rate, clamped
    /// to `MIN_TARGET_BITRATE..=MAX_TARGET_BITRATE`.
    pub fn bitrate_for(self, width: u32, height: u32) -> (bitrate: usize)
        ensures
            bitrate == spec_bitrate(width, height, self.fps),
    {
        let w = width as u128;
        let h = height as u128;
        let f = self.fps as u128;
        assert(w * h <= 0xffff_ffff * 0xffff_ffffu128) by (nonlinear_arith)
            requires
                w <= 0xffff_ffff,
                h <= 0xffff_ffff,
        ;
        let wh = w * h;
        assert(wh * f <= 0xffff_ffff * 0xffff_ffffu128 * 0xffff_ffffu128) by (nonlinear_arith)
            requires
                wh <= 0xffff_ffff * 0xffff_ffffu128,
                f <= 0xffff_ffff,
        ;
        let whf = wh * f;
        let numerator = (BASE_TARGET_BITRATE as u128) * whf;
        // DEFAULT_OUTPUT_WIDTH * DEFAULT_OUTPUT_HEIGHT * DEFAULT_TARGET_FPS
        let denominator: u128 = 55_296_000;
        assert(denominator == DEFAULT_OUTPUT_WIDTH * DEFAULT_OUTPUT_HEIGHT * DEFAULT_TARGET_FPS);
        assert(numerator == BASE_TARGET_BITRATE * width * height * self.fps) by (nonlinear_arith)
            requires
                numerator == BASE_TARGET_BITRATE * whf,
                whf == wh * f,
                wh == w * h,
                w == width,
                h == height,
                f == self.fps,
        ;
        let raw = (numerator + denominator - 1) / denominator;
        if raw < MIN_TARGET_BITRATE as u128 {
            MIN_TARGET_BITRATE
        } else if raw > MAX_TARGET_BITRATE as u128 {
            MAX_TARGET_BITRATE
        } else {
            raw as usize
        }
    }

    /// Number of timing samples kept: ten seconds at the target rate.
    pub fn timing_window_capacity(self) -> (capacity: usize)
        requires
            self.fps * TIMING_WINDOW_SECONDS <= usize::MAX,
        ensures
            capacity == self.fps * TIMING_WINDOW_SECONDS,
    {
        self.fps as usize * TIMING_WINDOW_SECONDS
    }
}

/// Pixel layout of a captured frame.
#[derive(Clone, Copy, Debug, PartialEq, Eq, Structural)]
pub enum PixelFormat {
    Rgba8,
    Bgra8,
    Nv12,
}

impl PixelFormat {
    pub open spec fn spec_code(self) -> u32 {
        match self {
            PixelFormat::Rgba8 => 1,
            PixelFormat::Bgra8 => 2,
            PixelFormat::Nv12 => 3,
        }
    }

    pub open spec fn spec_from_u32(value: u32) -> Option<PixelFormat> {
        if value == 1 {
            Some(PixelFormat::Rgba8)
        } else if value == 2 {
            Some(PixelFormat::Bgra8)
        } else if value == 3 {
            Some(PixelFormat::Nv12)
        } else {
            None
        }
    }

    pub open spec fn spec_name(self) -> Seq<char> {
        match self {
            PixelFormat::Rgba8 => "rgba8"@,
            PixelFormat::Bgra8 => "bgra8"@,
            PixelFormat::Nv12 => "nv12"@,
        }
    }

    /// Bytes per pixel of a packed format; `None` for planar NV12.
    pub fn packed_bytes_per_pixel(self) -> (bytes: Option<usize>)
        ensures
            bytes == (match self {
                PixelFormat::Nv12 => None,
                _ => Some(4usize),
            }),
    {
        match self {
            PixelFormat::Rgba8 | PixelFormat::Bgra8 => Some(4),
            PixelFormat::Nv12 => None,
        }
    }

    /// The numeric code stored in statistics (`1` RGBA8, `2` BGRA8, `3` NV12).
    pub fn to_u32(self) -> (code: u32)
        ensures
            code == self.spec_code(),
    {
        match self {
            PixelFormat::Rgba8 => 1,
            PixelFormat::Bgra8 => 2,
            PixelFormat::Nv12 => 3,
        }
    }

    pub fn from_u32(value: u32) -> (format: Option<Self>)
        ensures
            format == Self::spec_from_u32(value),
    {
        match value {
            1 => Some(Self::Rgba8),
            2 => Some(Self::Bgra8),
            3 => Some(Self::Nv12),
            _ => None,
        }
    }

    pub fn as_str(self) -> (name: &'static str)
        ensures
            name@ == self.spec_name(),
    {
        match self {
            Self::Rgba8 => "rgba8",
            Self::Bgra8 => "bgra8",
            Self::Nv12 => "nv12",
        }
    }
}

/// Law: a pixel format's code reads back as that format, and only the three
/// codes name a format.
pub proof fn lemma_pixel_format_code_round_trip(format: PixelFormat, value: u32)
    ensures
        PixelFormat::spec_from_u32(format.spec_code()) == Some(format),
        PixelFormat::spec_from_u32(value) is Some <==> 1 <= value <= 3,
{
}

/// Hardware encoder in use.
#[derive(Clone, Copy, Debug, PartialEq, Eq, Structural)]
pub enum EncoderBackend {
    NoEncoder,
    Av1Nvenc,
    HevcNvenc,
    H264Nvenc,
    Av1Amf,
    HevcAmf,
    H264Amf,
    Av1Qsv,
    HevcQsv,
    H264Qsv,
    HevcVideoToolbox,
    H264VideoToolbox,
}

impl EncoderBackend {
    pub open spec fn spec_code(self) -> u32 {
        match self {
            EncoderBackend::NoEncoder => 0,
            EncoderBackend::Av1Nvenc => 1,
            EncoderBackend::HevcNvenc => 2,
            EncoderBackend::H264Nvenc => 3,
            EncoderBackend::Av1Amf => 4,
            EncoderBackend::HevcAmf => 5,
            EncoderBackend::H264Amf => 6,
            EncoderBackend::Av1Qsv => 7,
            EncoderBackend::HevcQsv => 8,
            EncoderBackend::H264Qsv => 9,
            EncoderBackend::HevcVideoToolbox => 10,
            EncoderBackend::H264VideoToolbox => 11,
        }
    }

    pub open spec fn spec_from_u32(value: u32) -> EncoderBackend {
        if value == 1 {
            EncoderBackend::Av1Nvenc
        } else if value == 2 {
            EncoderBackend::HevcNvenc
        } else if value == 3 {
            EncoderBackend::H264Nvenc
        } else if value == 4 {
            EncoderBackend::Av1Amf
        } else if value == 5 {
            EncoderBackend::HevcAmf
        } else if value == 6 {
            EncoderBackend::H264Amf
        } else if value == 7 {
            EncoderBackend::Av1Qsv
        } else if value == 8 {
            EncoderBackend::HevcQsv
        } else if value == 9 {
            EncoderBackend::H264Qsv
        } else if value == 10 {
            EncoderBackend::HevcVideoToolbox
        } else if value == 11 {
            EncoderBackend::H264VideoToolbox
        } else {
            EncoderBackend::NoEncoder
        }
    }

    pub open spec fn spec_name(self) -> Seq<char> {
        match self {
            EncoderBackend::NoEncoder => "none"@,
            EncoderBackend::Av1Nvenc => "av1_nvenc"@,
            EncoderBackend::HevcNvenc => "hevc_nvenc"@,
            EncoderBackend::H264Nvenc => "h264_nvenc"@,
            EncoderBackend::Av1Amf => "av1_amf"@,
            EncoderBackend::HevcAmf => "hevc_amf"@,
            EncoderBackend::H264Amf => "h264_amf"@,
            EncoderBackend::Av1Qsv => "av1_qsv"@,
            EncoderBackend::HevcQsv => "hevc_qsv"@,
            EncoderBackend::H264Qsv => "h264_qsv"@,
            EncoderBackend::HevcVideoToolbox => "hevc_videotoolbox"@,
            EncoderBackend::H264VideoToolbox => "h264_videotoolbox"@,
        }
    }

    /// Unknown codes read as `NoEncoder`.
    pub fn from_u32(value: u32) -> (backend: Self)
        ensures
            backend == Self::spec_from_u32(value),
    {
        match value {
            1 => Self::Av1Nvenc,
            2 => Self::HevcNvenc,
            3 => Self::H264Nvenc,
            4 => Self::Av1Amf,
            5 => Self::HevcAmf,
            6 => Self::H264Amf,
            7 => Self::Av1Qsv,
            8 => Self::HevcQsv,
            9 => Self::H264Qsv,
            10 => Self::HevcVideoToolbox,
            11 => Self::H264VideoToolbox,
            _ => Self::NoEncoder,
        }
    }

    /// The numeric code stored in shared state.
    pub fn to_u32(self) -> (code: u32)
        ensures
            code == self.spec_code(),
    {
        match self {
            Self::NoEncoder => 0,
            Self::Av1Nvenc => 1,
            Self::HevcNvenc => 2,
            Self::H264Nvenc => 3,
            Self::Av1Amf => 4,
            Self::HevcAmf => 5,
            Self::H264Amf => 6,
            Self::Av1Qsv => 7,
            Self::HevcQsv => 8,
            Self::H264Qsv => 9,
            Self::HevcVideoToolbox => 10,
            Self::H264VideoToolbox => 11,
        }
    }

    pub fn as_str(self) -> (name: &'static str)
        ensures
            name@ == self.spec_name(),
    {
        match self {
            Self::NoEncoder => "none",
            Self::Av1Nvenc => "av1_nvenc",
            Self::HevcNvenc => "hevc_nvenc",
            Self::H264Nvenc => "h264_nvenc",
            Self::Av1Amf => "av1_amf",
            Self::HevcAmf => "hevc_amf",
            Self::H264Amf => "h264_amf",
            Self::Av1Qsv => "av1_qsv",
            Self::HevcQsv => "hevc_qsv",
            Self::H264Qsv => "h264_qsv",
            Self::HevcVideoToolbox => "hevc_videotoolbox",
            Self::H264VideoToolbox => "h264_videotoolbox",
        }
    }
}

/// Law: the backend stored as its code reads back unchanged.
pub proof fn lemma_backend_code_round_trip(backend: EncoderBackend)
    ensures
        EncoderBackend::spec_from_u32(backend.spec_code()) == backend,
{
}

/// One step of the capture throttle on a mathematical clock: whether a frame
/// arriving at `now` is submitted, and the next due time. The first frame is
/// always taken; later frames wait for the due time, which then advances by
/// one interval, or restarts from `now` when the source fell a full interval
/// behind.
pub open spec fn clock_step(due: Option<int>, now: int, interval: int) -> (bool, Option<int>) {
    match due {
        None => (true, Some(now + interval)),
        Some(d) => if now < d {
            (false, Some(d))
        } else if now - d >= interval {
            (true, Some(now + interval))
        } else {
            (true, Some(d + interval))
        },
    }
}

/// Runs the throttle over frames arriving at `times`: how many are submitted
/// and the final due time.
pub open spec fn clock_run(due: Option<int>, times: Seq<int>, interval: int) -> (int, Option<int>)
    decreases times.len(),
{
    if times.len() == 0 {
        (0, due)
    } else {
        let step = clock_step(due, times[0], interval);
        let rest = clock_run(step.1, times.drop_first(), interval);
        (rest.0 + if step.0 {
            1int
        } else {
            0
        }, rest.1)
    }
}

pub open spec fn option_u64_as_int(o: Option<u64>) -> Option<int> {
    match o {
        Some(v) => Some(v as int),
        None => None,
    }
}

/// One captured frame on its way to the encoder.
pub struct CapturedFrame {
    pub pixels: Vec<u8>,
    pub width: u32,
    pub height: u32,
    pub row_stride: u32,
    pub output_width: u32,
    pub output_height: u32,
    pub format: PixelFormat,
    pub sequence: u64,
    pub timeline: CaptureTimeline,
    pub pts: i64,
}

/// One encoded access unit on its way to the network thread.
pub struct EncodedFrame {
    pub packets: Vec<Vec<u8>>,
    /// Concrete codec of this access unit, attached so a reconfigure cannot
    /// race the network thread's codec-dependent handling.
    pub codec: StreamCodec,
    /// Decoder-reset point, taken from the encoder packet flags so the
    /// network thread never parses slices.
    pub keyframe: bool,
    pub sequence: u64,
    pub timeline: CaptureTimeline,
    pub stages: EncodeStages,
}

/// Capacity-one hand-off between pipeline stages that keeps only the newest
/// item: a consumer that falls behind skips stale frames instead of queueing
/// latency.
pub struct LatestSlot<T> {
    item: Option<T>,
}

impl<T> LatestSlot<T> {
    pub closed spec fn item(&self) -> Option<T> {
        self.item
    }

    pub fn new() -> (slot: Self)
        ensures
            slot.item() == None::<T>,
    {
        Self { item: None }
    }

    /// Stores `value` as the newest item and hands back the unread one it
    /// replaces, if any.
    pub fn push(&mut self, value: T) -> (replaced: Option<T>)
        ensures
            replaced == old(self).item(),
            final(self).item() == Some(value),
    {
        let replaced = self.item.take();
        self.item = Some(value);
        replaced
    }

    /// Takes the newest item, leaving the slot empty.
    pub fn take(&mut self) -> (value: Option<T>)
        ensures
            value == old(self).item(),
            final(self).item() == None::<T>,
    {
        self.item.take()
    }
}

/// Paces capture submissions to the target frame rate. Times are in
/// nanoseconds on a monotonic clock.
pub struct SubmitClock {
    next_due: Option<u64>,
}

impl SubmitClock {
    pub closed spec fn due(&self) -> Option<int> {
        option_u64_as_int(self.next_due)
    }

    pub fn new() -> (clock: Self)
        ensures
            clock.due() == None::<int>,
    {
        Self { next_due: None }
    }

    pub fn should_submit(&mut self, now: u64, interval: u64) -> (submit: bool)
        requires
            now + interval <= u64::MAX,
        ensures
            (submit, final(self).due()) == clock_step(old(self).due(), now as int, interval as int),
    {
        match self.next_due {
            None => {
                self.next_due = Some(now + interval);
                true
            },
            Some(next_due) => {
                if now < next_due {
                    return false;
                }
                let lateness = now - next_due;
                self.next_due = Some(
                    if lateness >= interval {
                        now + interval
                    } else {
                        next_due + interval
                    },
                );
                true
            },
        }
    }
}

/// While the clock is waiting for `d`, every frame submitted at or before
/// `last` costs one interval of time counted from `d`.
proof fn lemma_clock_run_budget(d: int, times: Seq<int>, interval: int, last: int)
    requires
        interval >= 0,
        forall|i: int| 0 <= i < times.len() ==> times[i] <= last,
    ensures
        clock_run(Some(d), times, interval).0 * interval <= if last + interval - d > 0 {
            last + interval - d
        } else {
            0
        },
        clock_run(Some(d), times, interval).0 >= 0,
    decreases times.len(),
{
    if times.len() > 0 {
        let step = clock_step(Some(d), times[0], interval);
        let rest = times.drop_first();
        let d2 = step.1->0;
        lemma_clock_run_budget(d2, rest, interval, last);
        let n = clock_run(Some(d2), rest, interval).0;
        if step.0 {
            assert(d2 >= d + interval);
            assert(times[0] <= last);
            assert(n * interval <= if last + interval - d2 > 0 {
                last + interval - d2
            } else {
                0
            });
            assert((n + 1) * interval == n * interval + interval) by (nonlinear_arith);
        }
    }
}

/// Law: the throttle never submits faster than the target rate. Starting
/// fresh, if every frame arrives between `first` and `last`, at most
/// `(last - first) / interval + 1` frames are submitted.
pub proof fn lemma_clock_rate_limit(times: Seq<int>, interval: int, first: int, last: int)
    requires
        interval >= 0,
        first <= last,
        forall|i: int| 0 <= i < times.len() ==> first <= #[trigger] times[i] <= last,
    ensures
        clock_run(None, times, interval).0 * interval <= last - first + interval,
{
    if times.len() > 0 {
        let rest = times.drop_first();
        lemma_clock_run_budget(times[0] + interval, rest, interval, last);
        let n = clock_run(Some(times[0] + interval), rest, interval).0;
        assert((n + 1) * interval == n * interval + interval) by (nonlinear_arith);
    } else {
        assert(0 * interval == 0) by (nonlinear_arith);
    }
}

/// Arrival times that never fall behind by more than `interval`: each one is
/// at or after the one before it and at most `interval` later.
pub open spec fn paced_arrivals(times: Seq<int>, interval: int) -> bool {
    forall|i: int|
        1 <= i < times.len() ==> times[i - 1] <= #[trigger] times[i] <= times[i - 1] + interval
}

/// While the last frame seen came before the due time and frames keep coming
/// within an interval of each other, every submission moves the due time by
/// exactly one interval and the due time stays ahead of the newest frame.
proof fn lemma_clock_run_paced(d: int, prev: int, times: Seq<int>, interval: int)
    requires
        interval > 0,
        prev < d,
        times.len() > 0,
        prev <= times[0] <= prev + interval,
        paced_arrivals(times, interval),
    ensures
        clock_run(Some(d), times, interval).0 * interval + d > times.last(),
    decreases times.len(),
{
    let t = times[0];
    let rest = times.drop_first();
    let step = clock_step(Some(d), t, interval);
    if rest.len() > 0 {
        assert(rest[0] == times[1]);
        assert forall|i: int| 1 <= i < rest.len() implies rest[i - 1] <= #[trigger] rest[i] <= rest[i - 1]
            + interval by {
            assert(rest[i] == times[i + 1]);
            assert(rest[i - 1] == times[i]);
        }
        assert(rest.last() == times.last());
    }
    assert(clock_run(Some(d), times, interval).0 == clock_run(step.1, rest, interval).0 + if step.0 {
        1int
    } else {
        0
    });
    if rest.len() == 0 {
        assert(clock_run(step.1, rest, interval).0 == 0);
    }
    if t < d {
        if rest.len() > 0 {
            lemma_clock_run_paced(d, t, rest, interval);
        }
    } else {
        assert(step.1 == Some(d + interval));
        if rest.len() > 0 {
            lemma_clock_run_paced(d + interval, t, rest, interval);
            let n = clock_run(Some(d + interval), rest, interval).0;
            assert((n + 1) * interval == n * interval + interval) by (nonlinear_arith);
        } else {
            assert(1 * interval == interval);
        }
    }
}

/// Law: the throttle keeps pace with any source that is at least as fast as
/// the target rate. When frames arrive no more than one interval apart, more
/// than `(last - first) / interval` of them are submitted, so a slightly
/// fast source is never halved.
pub proof fn lemma_clock_keeps_pace(times: Seq<int>, interval: int)
    requires
        interval > 0,
        times.len() > 0,
        paced_arrivals(times, interval),
    ensures
        clock_run(None, times, interval).0 * interval > times.last() - times[0],
{
    let rest = times.drop_first();
    assert(clock_run(None, times, interval).0 == clock_run(Some(times[0] + interval), rest, interval).0
        + 1);
    if rest.len() == 0 {
        assert(clock_run(Some(times[0] + interval), rest, interval).0 == 0);
    }
    if rest.len() > 0 {
        assert(rest[0] == times[1]);
        assert forall|i: int| 1 <= i < rest.len() implies rest[i - 1] <= #[trigger] rest[i] <= rest[i - 1]
            + interval by {
            assert(rest[i] == times[i + 1]);
            assert(rest[i - 1] == times[i]);
        }
        assert(rest.last() == times.last());
        lemma_clock_run_paced(times[0] + interval, times[0], rest, interval);
        let n = clock_run(Some(times[0] + interval), rest, interval).0;
        assert((n + 1) * interval == n * interval + interval) by (nonlinear_arith);
    } else {
        assert(1 * interval == interval);
    }
}

/// The arrival times the throttle submits, in order, when frames arrive at
/// `times`.
pub open spec fn clock_accepted(due: Option<int>, times: Seq<int>, interval: int) -> Seq<int>
    decreases times.len(),
{
    if times.len() == 0 {
        seq![]
    } else {
        let step = clock_step(due, times[0], interval);
        let rest = clock_accepted(step.1, times.drop_first(), interval);
        if step.0 {
            seq![times[0]] + rest
        } else {
            rest
        }
    }
}

/// Waiting for `d`, the `k`-th submission comes no earlier than `d + k`
/// intervals; the final due time is at most one interval after the last
/// submission, or still `d` when nothing was submitted.
proof fn lemma_clock_accepted_from(d: int, times: Seq<int>, interval: int)
    requires
        interval >= 0,
    ensures
        ({
            let a = clock_accepted(Some(d), times, interval);
            let due = clock_run(Some(d), times, interval).1;
            &&& a.len() == clock_run(Some(d), times, interval).0
            &&& forall|k: int| 0 <= k < a.len() ==> #[trigger] a[k] >= d + k * interval
            &&& due is Some
            &&& (a.len() == 0 ==> due == Some(d))
            &&& (a.len() > 0 ==> due->0 <= a.last() + interval)
        }),
    decreases times.len(),
{
    if times.len() > 0 {
        let t = times[0];
        let rest = times.drop_first();
        let step = clock_step(Some(d), t, interval);
        let d2 = step.1->0;
        lemma_clock_accepted_from(d2, rest, interval);
        let r = clock_accepted(Some(d2), rest, interval);
        let a = clock_accepted(Some(d), times, interval);
        if step.0 {
            assert(a == seq![t] + r);
            assert(d2 >= d + interval);
            assert(d2 <= t + interval);
            assert forall|k: int| 0 <= k < a.len() implies #[trigger] a[k] >= d + k * interval by {
                if k > 0 {
                    assert(a[k] == r[k - 1]);
                    assert(r[k - 1] >= d2 + (k - 1) * interval);
                    assert(k * interval == (k - 1) * interval + interval) by (nonlinear_arith);
                } else {
                    assert(0 * interval == 0);
                }
            }
            if r.len() > 0 {
                assert(a.last() == r.last());
            }
        } else {
            assert(a == r);
        }
    }
}

/// Law: acceptances of the throttle. Starting fresh, the first frame is
/// always submitted; the `m`-th submission after it comes at least `m`
/// intervals after it, so up to time `T` at most `1 + (T - first) / interval`
/// frames go through; and a frame arriving a full interval after the last
/// submission is always submitted, so a source no faster than the target
/// rate is never throttled.
pub proof fn lemma_clock_acceptances(times: Seq<int>, interval: int, t: int)
    requires
        interval >= 0,
        times.len() > 0,
    ensures
        ({
            let a = clock_accepted(None, times, interval);
            &&& a.len() == clock_run(None, times, interval).0
            &&& a.len() > 0 && a[0] == times[0]
            &&& forall|m: int| 0 <= m < a.len() ==> #[trigger] a[m] >= a[0] + m * interval
            &&& (t >= a.last() + interval ==> clock_step(clock_run(None, times, interval).1, t, interval).0)
        }),
{
    let t0 = times[0];
    let rest = times.drop_first();
    lemma_clock_accepted_from(t0 + interval, rest, interval);
    let r = clock_accepted(Some(t0 + interval), rest, interval);
    let a = clock_accepted(None, times, interval);
    assert(a == seq![t0] + r);
    assert forall|m: int| 0 <= m < a.len() implies #[trigger] a[m] >= a[0] + m * interval by {
        if m > 0 {
            assert(a[m] == r[m - 1]);
            assert(m * interval == (m - 1) * interval + interval) by (nonlinear_arith);
        } else {
            assert(0 * interval == 0);
        }
    }
    if r.len() > 0 {
        assert(a.last() == r.last());
    }
}

/// The arrival times of the calls that returned `true`, in call order.
pub open spec fn submitted_times(times: Seq<int>, results: Seq<bool>) -> Seq<int>
    decreases times.len(),
{
    if times.len() == 0 || results.len() == 0 {
        seq![]
    } else {
        (if results[0] {
            seq![times[0]]
        } else {
            seq![]
        }) + submitted_times(times.drop_first(), results.drop_first())
    }
}

/// A run of `should_submit` calls: call `j` at `times[j]` found the clock due
/// at `dues[j]`, returned `results[j]` and left it due at `dues[j + 1]`,
/// exactly as that method's `ensures` states.
pub open spec fn clock_calls(
    times: Seq<int>,
    results: Seq<bool>,
    dues: Seq<Option<int>>,
    interval: int,
) -> bool {
    &&& results.len() == times.len()
    &&& dues.len() == times.len() + 1
    &&& forall|j: int|
        0 <= j < times.len() ==> (#[trigger] results[j], dues[j + 1]) == clock_step(
            dues[j],
            times[j],
            interval,
        )
}

/// A run of calls submits exactly the times `clock_accepted` lists and ends
/// where `clock_run` ends.
proof fn lemma_clock_calls_follow_run(
    times: Seq<int>,
    results: Seq<bool>,
    dues: Seq<Option<int>>,
    interval: int,
)
    requires
        clock_calls(times, results, dues, interval),
    ensures
        submitted_times(times, results) == clock_accepted(dues[0], times, interval),
        dues.last() == clock_run(dues[0], times, interval).1,
    decreases times.len(),
{
    if times.len() > 0 {
        let t2 = times.drop_first();
        let r2 = results.drop_first();
        let d2 = dues.drop_first();
        assert(results[0] == clock_step(dues[0], times[0], interval).0);
        assert(dues[1] == clock_step(dues[0], times[0], interval).1);
        assert forall|j: int| 0 <= j < t2.len() implies (#[trigger] r2[j], d2[j + 1]) == clock_step(
            d2[j],
            t2[j],
            interval,
        ) by {
            assert(r2[j] == results[j + 1]);
            assert(d2[j + 1] == dues[j + 2]);
            assert(d2[j] == dues[j + 1]);
            assert(t2[j] == times[j + 1]);
            assert((results[j + 1], dues[j + 2]) == clock_step(dues[j + 1], times[j + 1], interval));
        }
        lemma_clock_calls_follow_run(t2, r2, d2, interval);
        assert(d2[0] == dues[1]);
        assert(d2.last() == dues.last());
    }
}

/// Law: the acceptances of a fresh clock over any run of `should_submit`
/// calls. The first call is accepted; the `m`-th accepted call comes at least
/// `m` intervals after the first, so up to time `T` at most
/// `1 + (T - first) / interval` calls are accepted; and the next call, if it
/// comes a full interval after the last accepted one, is accepted too.
pub proof fn lemma_submit_calls_acceptances(
    times: Seq<int>,
    results: Seq<bool>,
    dues: Seq<Option<int>>,
    interval: int,
    t: int,
)
    requires
        interval >= 0,
        times.len() > 0,
        dues[0] == None::<int>,
        clock_calls(times, results, dues, interval),
    ensures
        ({
            let a = submitted_times(times, results);
            &&& results[0]
            &&& a.len() > 0 && a[0] == times[0]
            &&& forall|m: int| 0 <= m < a.len() ==> #[trigger] a[m] >= a[0] + m * interval
            &&& (t >= a.last() + interval ==> clock_step(dues.last(), t, interval).0)
        }),
{
    lemma_clock_calls_follow_run(times, results, dues, interval);
    lemma_clock_acceptances(times, interval, t);
    assert(results[0] == clock_step(dues[0], times[0], interval).0);
}

/// Per-frame latency breakdown of one delivered frame. `captured_at` and
/// `completed_at` are nanoseconds on a monotonic clock; the stage durations
/// are microseconds.
#[derive(Clone, Copy, Debug, PartialEq, Eq, Structural)]
pub struct FrameTimingSample {
    pub captured_at: u64,
    pub completed_at: u64,
    pub post_to_render_us: u64,
    pub render_setup_us: u64,
    pub readback_wait_us: u64,
    pub callback_copy_us: u64,
    pub encode_queue_us: u64,
    pub scale_us: u64,
    pub encode_us: u64,
    pub encoder_stage_us: u64,
    pub capture_to_encoded_us: u64,
    pub network_queue_us: u64,
    pub packet_prep_us: u64,
    pub socket_write_us: u64,
    pub total_us: u64,
    pub frame_bytes: u64,
}

/// Which stage duration of a sample a percentile summary is about.
#[derive(Clone, Copy, Debug, PartialEq, Eq, Structural)]
pub enum TimingField {
    PostToRender,
    RenderSetup,
    ReadbackWait,
    CallbackCopy,
    EncodeQueue,
    Scale,
    Encode,
    EncoderStage,
    CaptureToEncoded,
    NetworkQueue,
    PacketPrep,
    SocketWrite,
    Total,
}

pub open spec fn field_value(sample: FrameTimingSample, field: TimingField) -> u64 {
    match field {
        TimingField::PostToRender => sample.post_to_render_us,
        TimingField::RenderSetup => sample.render_setup_us,
        TimingField::ReadbackWait => sample.readback_wait_us,
        TimingField::CallbackCopy => sample.callback_copy_us,
        TimingField::EncodeQueue => sample.encode_queue_us,
        TimingField::Scale => sample.scale_us,
        TimingField::Encode => sample.encode_us,
        TimingField::EncoderStage => sample.encoder_stage_us,
        TimingField::CaptureToEncoded => sample.capture_to_encoded_us,
        TimingField::NetworkQueue => sample.network_queue_us,
        TimingField::PacketPrep => sample.packet_prep_us,
        TimingField::SocketWrite => sample.socket_write_us,
        TimingField::Total => sample.total_us,
    }
}

fn field_of(sample: &FrameTimingSample, field: TimingField) -> (value: u64)
    ensures
        value == field_value(*sample, field),
{
    match field {
        TimingField::PostToRender => sample.post_to_render_us,
        TimingField::RenderSetup => sample.render_setup_us,
        TimingField::ReadbackWait => sample.readback_wait_us,
        TimingField::CallbackCopy => sample.callback_copy_us,
        TimingField::EncodeQueue => sample.encode_queue_us,
        TimingField::Scale => sample.scale_us,
        TimingField::Encode => sample.encode_us,
        TimingField::EncoderStage => sample.encoder_stage_us,
        TimingField::CaptureToEncoded => sample.capture_to_encoded_us,
        TimingField::NetworkQueue => sample.network_queue_us,
        TimingField::PacketPrep => sample.packet_prep_us,
        TimingField::SocketWrite => sample.socket_write_us,
        TimingField::Total => sample.total_us,
    }
}

#[derive(Clone, Copy, Debug, PartialEq, Eq, Structural)]
pub struct TimingPercentiles {
    pub p50_us: u64,
    pub p95_us: u64,
    pub p99_us: u64,
    pub max_us: u64,
}

impl Default for TimingPercentiles {
    fn default() -> (zero: Self)
        ensures
            zero == (TimingPercentiles { p50_us: 0, p95_us: 0, p99_us: 0, max_us: 0 }),
    {
        TimingPercentiles { p50_us: 0, p95_us: 0, p99_us: 0, max_us: 0 }
    }
}

/// Integer part of a timing window summary: sample count, the span from the
/// first capture to the last completion, the bytes delivered in it, and the
/// stage percentiles. Rates derived from these (frames and bits per second)
/// are computed by the caller.
#[derive(Clone, Copy, Debug, PartialEq, Eq, Structural)]
pub struct TimingSummary {
    pub samples: u64,
    pub window_ns: u64,
    pub window_ms: u64,
    pub frame_bytes: u128,
    pub post_to_render: TimingPercentiles,
    pub render_setup: TimingPercentiles,
    pub readback_wait: TimingPercentiles,
    pub callback_copy: TimingPercentiles,
    pub encode_queue: TimingPercentiles,
    pub scale: TimingPercentiles,
    pub encode: TimingPercentiles,
    pub encoder_stage: TimingPercentiles,
    pub capture_to_encoded: TimingPercentiles,
    pub network_queue: TimingPercentiles,
    pub packet_prep: TimingPercentiles,
    pub socket_write: TimingPercentiles,
    pub total: TimingPercentiles,
}

pub open spec fn zero_percentiles() -> TimingPercentiles {
    TimingPercentiles { p50_us: 0, p95_us: 0, p99_us: 0, max_us: 0 }
}

pub open spec fn ascending() -> spec_fn(u64, u64) -> bool {
    |a: u64, b: u64| a <= b
}

/// Nearest-rank position: `ceil(len * percent / 100) - 1`, kept inside the
/// slice (`len * percent` saturates at `usize::MAX`).
pub open spec fn nearest_rank(len: int, percent: int) -> int {
    let product = if len * percent > usize::MAX {
        usize::MAX as int
    } else {
        len * percent
    };
    let ceil = (product + 99) / 100;
    let rank = if ceil >= 1 {
        ceil - 1
    } else {
        0
    };
    if rank < len - 1 {
        rank
    } else {
        len - 1
    }
}

/// Nearest-rank percentiles of a non-empty set of values.
pub open spec fn spec_percentiles(values: Seq<u64>) -> TimingPercentiles {
    if values.len() == 0 {
        zero_percentiles()
    } else {
        let sorted = values.sort_by(ascending());
        TimingPercentiles {
            p50_us: sorted[nearest_rank(values.len() as int, 50)],
            p95_us: sorted[nearest_rank(values.len() as int, 95)],
            p99_us: sorted[nearest_rank(values.len() as int, 99)],
            max_us: sorted[values.len() - 1],
        }
    }
}

pub open spec fn field_values(samples: Seq<FrameTimingSample>, field: TimingField) -> Seq<u64> {
    samples.map_values(|sample: FrameTimingSample| field_value(sample, field))
}

pub open spec fn sum_frame_bytes(samples: Seq<FrameTimingSample>) -> int
    decreases samples.len(),
{
    if samples.len() == 0 {
        0
    } else {
        sum_frame_bytes(samples.drop_last()) + samples.last().frame_bytes
    }
}

pub open spec fn spec_summary(samples: Seq<FrameTimingSample>) -> TimingSummary {
    if samples.len() == 0 {
        TimingSummary {
            samples: 0,
            window_ns: 0,
            window_ms: 0,
            frame_bytes: 0,
            post_to_render: zero_percentiles(),
            render_setup: zero_percentiles(),
            readback_wait: zero_percentiles(),
            callback_copy: zero_percentiles(),
            encode_queue: zero_percentiles(),
            scale: zero_percentiles(),
            encode: zero_percentiles(),
            encoder_stage: zero_percentiles(),
            capture_to_encoded: zero_percentiles(),
            network_queue: zero_percentiles(),
            packet_prep: zero_percentiles(),
            socket_write: zero_percentiles(),
            total: zero_percentiles(),
        }
    } else {
        let span = samples.last().completed_at - samples[0].captured_at;
        let window = if span > 0 {
            span
        } else {
            0
        };
        TimingSummary {
            samples: samples.len() as u64,
            window_ns: window as u64,
            window_ms: (window / 1_000_000) as u64,
            frame_bytes: sum_frame_bytes(samples) as u128,
            post_to_render: spec_percentiles(field_values(samples, TimingField::PostToRender)),
            render_setup: spec_percentiles(field_values(samples, TimingField::RenderSetup)),
            readback_wait: spec_percentiles(field_values(samples, TimingField::ReadbackWait)),
            callback_copy: spec_percentiles(field_values(samples, TimingField::CallbackCopy)),
            encode_queue: spec_percentiles(field_values(samples, TimingField::EncodeQueue)),
            scale: spec_percentiles(field_values(samples, TimingField::Scale)),
            encode: spec_percentiles(field_values(samples, TimingField::Encode)),
            encoder_stage: spec_percentiles(field_values(samples, TimingField::EncoderStage)),
            capture_to_encoded: spec_percentiles(
                field_values(samples, TimingField::CaptureToEncoded),
            ),
            network_queue: spec_percentiles(field_values(samples, TimingField::NetworkQueue)),
            packet_prep: spec_percentiles(field_values(samples, TimingField::PacketPrep)),
            socket_write: spec_percentiles(field_values(samples, TimingField::SocketWrite)),
            total: spec_percentiles(field_values(samples, TimingField::Total)),
        }
    }
}

/// `slice::sort_unstable` on `u64` values: the result is sorted ascending
/// and holds the same values.
#[verifier::external_body]
fn sort_ascending(values: &mut Vec<u64>)
    ensures
        final(values)@.to_multiset() == old(values)@.to_multiset(),
        sorted_by(final(values)@, ascending()),
{
    values.sort_unstable();
}

proof fn lemma_ascending_total()
    ensures
        total_ordering(ascending()),
{
}

/// The nearest-rank element of ascending values.
pub fn percentile(sorted: &[u64], percent: usize) -> (value: u64)
    requires
        sorted@.len() > 0,
    ensures
        value == sorted@[nearest_rank(sorted@.len() as int, percent as int)],
{
    let len = sorted.len();
    let product = match len.checked_mul(percent) {
        Some(p) => p,
        None => usize::MAX,
    };
    assert(product == if len * percent > usize::MAX {
        usize::MAX as int
    } else {
        len * percent
    });
    let ceil = product / 100 + if product % 100 != 0 {
        1
    } else {
        0
    };
    assert(ceil == (product + 99) / 100);
    let rank = if ceil >= 1 {
        ceil - 1
    } else {
        0
    };
    let rank = if rank < len - 1 {
        rank
    } else {
        len - 1
    };
    sorted[rank]
}

/// Law: the reported percentiles are ordered, `p50 <= p95 <= p99 <= max`,
/// and each is one of the measured values.
pub proof fn lemma_percentiles_ordered(values: Seq<u64>)
    requires
        values.len() > 0,
    ensures
        spec_percentiles(values).p50_us <= spec_percentiles(values).p95_us,
        spec_percentiles(values).p95_us <= spec_percentiles(values).p99_us,
        spec_percentiles(values).p99_us <= spec_percentiles(values).max_us,
        values.contains(spec_percentiles(values).p50_us),
        values.contains(spec_percentiles(values).max_us),
{
    lemma_ascending_total();
    values.lemma_sort_by_ensures(ascending());
    let sorted = values.sort_by(ascending());
    let len = values.len() as int;
    vstd::seq_lib::to_multiset_len(values);
    vstd::seq_lib::to_multiset_len(sorted);
    lemma_nearest_rank_monotone(len, 50, 95);
    lemma_nearest_rank_monotone(len, 95, 99);
    let r50 = nearest_rank(len, 50);
    let r95 = nearest_rank(len, 95);
    let r99 = nearest_rank(len, 99);
    if r50 < r95 {
        assert(ascending()(sorted[r50], sorted[r95]));
    }
    if r95 < r99 {
        assert(ascending()(sorted[r95], sorted[r99]));
    }
    if r99 < len - 1 {
        assert(ascending()(sorted[r99], sorted[len - 1]));
    }
    assert(sorted.contains(sorted[r50]));
    assert(sorted.contains(sorted[len - 1]));
}

/// Percentiles that describe `values`: the maximum bounds every value and
/// is one of them, and each reported percentile is a measured value.
pub open spec fn summarizes(values: Seq<u64>, p: TimingPercentiles) -> bool {
    &&& forall|i: int| 0 <= i < values.len() ==> #[trigger] values[i] <= p.max_us
    &&& values.contains(p.max_us)
    &&& values.contains(p.p50_us)
    &&& values.contains(p.p95_us)
    &&& values.contains(p.p99_us)
}

proof fn lemma_percentiles_summarize(values: Seq<u64>)
    requires
        values.len() > 0,
    ensures
        summarizes(values, spec_percentiles(values)),
{
    lemma_ascending_total();
    values.lemma_sort_by_ensures(ascending());
    let sorted = values.sort_by(ascending());
    let len = values.len() as int;
    values.to_multiset_ensures();
    sorted.to_multiset_ensures();
    lemma_nearest_rank_monotone(len, 50, 99);
    lemma_nearest_rank_monotone(len, 95, 99);
    assert forall|i: int| 0 <= i < values.len() implies #[trigger] values[i] <= spec_percentiles(
        values,
    ).max_us by {
        assert(values.contains(values[i]));
        assert(values.to_multiset().count(values[i]) > 0);
        assert(sorted.contains(values[i]));
        let j = choose|j: int| 0 <= j < sorted.len() && sorted[j] == values[i];
        if j < len - 1 {
            assert(ascending()(sorted[j], sorted[len - 1]));
        }
    }
    let r50 = nearest_rank(len, 50);
    let r95 = nearest_rank(len, 95);
    let r99 = nearest_rank(len, 99);
    assert(sorted.contains(sorted[r50]));
    assert(sorted.contains(sorted[r95]));
    assert(sorted.contains(sorted[r99]));
    assert(sorted.contains(sorted[len - 1]));
}

/// Law: every stage of the summary describes that same stage of the
/// recorded frames. For each stage, the maximum is the largest of that
/// stage's recorded values, and p50, p95 and p99 are values of that stage;
/// the encode percentiles come from `encode_us`, the scale percentiles from
/// `scale_us`, and so on.
pub proof fn lemma_summary_stages(samples: Seq<FrameTimingSample>)
    requires
        samples.len() > 0,
    ensures
        summarizes(samples.map_values(|x: FrameTimingSample| x.post_to_render_us), spec_summary(samples).post_to_render),
        summarizes(samples.map_values(|x: FrameTimingSample| x.render_setup_us), spec_summary(samples).render_setup),
        summarizes(samples.map_values(|x: FrameTimingSample| x.readback_wait_us), spec_summary(samples).readback_wait),
        summarizes(samples.map_values(|x: FrameTimingSample| x.callback_copy_us), spec_summary(samples).callback_copy),
        summarizes(samples.map_values(|x: FrameTimingSample| x.encode_queue_us), spec_summary(samples).encode_queue),
        summarizes(samples.map_values(|x: FrameTimingSample| x.scale_us), spec_summary(samples).scale),
        summarizes(samples.map_values(|x: FrameTimingSample| x.encode_us), spec_summary(samples).encode),
        summarizes(samples.map_values(|x: FrameTimingSample| x.encoder_stage_us), spec_summary(samples).encoder_stage),
        summarizes(samples.map_values(|x: FrameTimingSample| x.capture_to_encoded_us), spec_summary(samples).capture_to_encoded),
        summarizes(samples.map_values(|x: FrameTimingSample| x.network_queue_us), spec_summary(samples).network_queue),
        summarizes(samples.map_values(|x: FrameTimingSample| x.packet_prep_us), spec_summary(samples).packet_prep),
        summarizes(samples.map_values(|x: FrameTimingSample| x.socket_write_us), spec_summary(samples).socket_write),
        summarizes(samples.map_values(|x: FrameTimingSample| x.total_us), spec_summary(samples).total),
{
    lemma_percentiles_summarize(field_values(samples, TimingField::PostToRender));
    assert(field_values(samples, TimingField::PostToRender) =~= samples.map_values(|x: FrameTimingSample| x.post_to_render_us));
    lemma_percentiles_summarize(field_values(samples, TimingField::RenderSetup));
    assert(field_values(samples, TimingField::RenderSetup) =~= samples.map_values(|x: FrameTimingSample| x.render_setup_us));
    lemma_percentiles_summarize(field_values(samples, TimingField::ReadbackWait));
    assert(field_values(samples, TimingField::ReadbackWait) =~= samples.map_values(|x: FrameTimingSample| x.readback_wait_us));
    lemma_percentiles_summarize(field_values(samples, TimingField::CallbackCopy));
    assert(field_values(samples, TimingField::CallbackCopy) =~= samples.map_values(|x: FrameTimingSample| x.callback_copy_us));
    lemma_percentiles_summarize(field_values(samples, TimingField::EncodeQueue));
    assert(field_values(samples, TimingField::EncodeQueue) =~= samples.map_values(|x: FrameTimingSample| x.encode_queue_us));
    lemma_percentiles_summarize(field_values(samples, TimingField::Scale));
    assert(field_values(samples, TimingField::Scale) =~= samples.map_values(|x: FrameTimingSample| x.scale_us));
    lemma_percentiles_summarize(field_values(samples, TimingField::Encode));
    assert(field_values(samples, TimingField::Encode) =~= samples.map_values(|x: FrameTimingSample| x.encode_us));
    lemma_percentiles_summarize(field_values(samples, TimingField::EncoderStage));
    assert(field_values(samples, TimingField::EncoderStage) =~= samples.map_values(|x: FrameTimingSample| x.encoder_stage_us));
    lemma_percentiles_summarize(field_values(samples, TimingField::CaptureToEncoded));
    assert(field_values(samples, TimingField::CaptureToEncoded) =~= samples.map_values(|x: FrameTimingSample| x.capture_to_encoded_us));
    lemma_percentiles_summarize(field_values(samples, TimingField::NetworkQueue));
    assert(field_values(samples, TimingField::NetworkQueue) =~= samples.map_values(|x: FrameTimingSample| x.network_queue_us));
    lemma_percentiles_summarize(field_values(samples, TimingField::PacketPrep));
    assert(field_values(samples, TimingField::PacketPrep) =~= samples.map_values(|x: FrameTimingSample| x.packet_prep_us));
    lemma_percentiles_summarize(field_values(samples, TimingField::SocketWrite));
    assert(field_values(samples, TimingField::SocketWrite) =~= samples.map_values(|x: FrameTimingSample| x.socket_write_us));
    lemma_percentiles_summarize(field_values(samples, TimingField::Total));
    assert(field_values(samples, TimingField::Total) =~= samples.map_values(|x: FrameTimingSample| x.total_us));
}

proof fn lemma_nearest_rank_monotone(len: int, p: int, q: int)
    requires
        len > 0,
        0 <= p <= q,
    ensures
        0 <= nearest_rank(len, p) <= nearest_rank(len, q) < len,
{
    assert(len * p <= len * q) by (nonlinear_arith)
        requires
            len > 0,
            p <= q,
    ;
    assert(len * p >= 0) by (nonlinear_arith)
        requires
            len > 0,
            p >= 0,
    ;
}

/// Sliding window of the most recent delivered frames.
pub struct TimingWindow {
    samples: VecDeque<FrameTimingSample>,
    capacity: usize,
}

impl TimingWindow {
    pub closed spec fn samples(&self) -> Seq<FrameTimingSample> {
        self.samples@
    }

    pub closed spec fn capacity(&self) -> int {
        self.capacity as int
    }

    pub fn new(capacity: usize) -> (window: Self)
        ensures
            window.samples() == Seq::<FrameTimingSample>::empty(),
            window.capacity() == capacity,
    {
        Self { samples: VecDeque::with_capacity(capacity), capacity }
    }

    /// Adds a sample; when the window is exactly full the oldest one leaves
    /// (a zero-capacity window never drops).
    pub fn record(&mut self, sample: FrameTimingSample)
        ensures
            final(self).capacity() == old(self).capacity(),
            final(self).samples() == if old(self).samples().len() == old(self).capacity()
                && old(self).capacity() > 0 {
                old(self).samples().drop_first().push(sample)
            } else {
                old(self).samples().push(sample)
            },
    {
        if self.samples.len() == self.capacity {
            self.samples.pop_front();
        }
        self.samples.push_back(sample);
        proof {
            if old(self).samples().len() == old(self).capacity() && old(self).capacity() > 0 {
                assert(old(self).samples().subrange(1, old(self).samples().len() as int)
                    =~= old(self).samples().drop_first());
            }
        }
    }

    pub fn summary(&self) -> (summary: TimingSummary)
        ensures
            summary == spec_summary(self.samples()),
    {
        let len = self.samples.len();
        if len == 0 {
            let zero = TimingPercentiles::default();
            return TimingSummary {
                samples: 0,
                window_ns: 0,
                window_ms: 0,
                frame_bytes: 0,
                post_to_render: zero,
                render_setup: zero,
                readback_wait: zero,
                callback_copy: zero,
                encode_queue: zero,
                scale: zero,
                encode: zero,
                encoder_stage: zero,
                capture_to_encoded: zero,
                network_queue: zero,
                packet_prep: zero,
                socket_write: zero,
                total: zero,
            };
        }
        let first = self.samples[0];
        let last = self.samples[len - 1];
        let window_ns = last.completed_at.saturating_sub(first.captured_at);
        let mut bytes: u128 = 0;
        let mut i: usize = 0;
        while i < len
            invariant
                i <= len,
                len == self.samples@.len(),
                bytes == sum_frame_bytes(self.samples@.subrange(0, i as int)),
                bytes <= i * 0xffff_ffff_ffff_ffffu128,
            decreases len - i,
        {
            let sample = self.samples[i];
            proof {
                let sub = self.samples@.subrange(0, i + 1);
                assert(sub.drop_last() =~= self.samples@.subrange(0, i as int));
                assert(bytes + sample.frame_bytes <= (i + 1) * 0xffff_ffff_ffff_ffffu128)
                    by (nonlinear_arith)
                    requires
                        bytes <= i * 0xffff_ffff_ffff_ffffu128,
                        sample.frame_bytes <= 0xffff_ffff_ffff_ffffu64,
                ;
                assert((i + 1) * 0xffff_ffff_ffff_ffffu128 <= 0xffff_ffff_ffff_ffff * 0xffff_ffff_ffff_ffffu128)
                    by (nonlinear_arith)
                    requires
                        i + 1 <= 0xffff_ffff_ffff_ffffu64,
                ;
            }
            bytes = bytes + sample.frame_bytes as u128;
            i += 1;
        }
        assert(self.samples@.subrange(0, len as int) =~= self.samples@);
        TimingSummary {
            samples: len as u64,
            window_ns,
            window_ms: window_ns / 1_000_000,
            frame_bytes: bytes,
            post_to_render: self.percentiles(TimingField::PostToRender),
            render_setup: self.percentiles(TimingField::RenderSetup),
            readback_wait: self.percentiles(TimingField::ReadbackWait),
            callback_copy: self.percentiles(TimingField::CallbackCopy),
            encode_queue: self.percentiles(TimingField::EncodeQueue),
            scale: self.percentiles(TimingField::Scale),
            encode: self.percentiles(TimingField::Encode),
            encoder_stage: self.percentiles(TimingField::EncoderStage),
            capture_to_encoded: self.percentiles(TimingField::CaptureToEncoded),
            network_queue: self.percentiles(TimingField::NetworkQueue),
            packet_prep: self.percentiles(TimingField::PacketPrep),
            socket_write: self.percentiles(TimingField::SocketWrite),
            total: self.percentiles(TimingField::Total),
        }
    }

    fn percentiles(&self, field: TimingField) -> (result: TimingPercentiles)
        ensures
            result == spec_percentiles(field_values(self.samples(), field)),
    {
        let mut values: Vec<u64> = Vec::new();
        let len = self.samples.len();
        let mut i: usize = 0;
        while i < len
            invariant
                i <= len,
                len == self.samples@.len(),
                values@ == field_values(self.samples@.subrange(0, i as int), field),
            decreases len - i,
        {
            let v = field_of(&self.samples[i], field);
            values.push(v);
            i += 1;
            assert(values@ =~= field_values(self.samples@.subrange(0, i as int), field));
        }
        assert(self.samples@.subrange(0, len as int) =~= self.samples@);
        let ghost unsorted = values@;
        if values.len() == 0 {
            return TimingPercentiles::default();
        }
        sort_ascending(&mut values);
        proof {
            lemma_ascending_total();
            unsorted.lemma_sort_by_ensures(ascending());
            vstd::seq_lib::to_multiset_len(unsorted);
            vstd::seq_lib::to_multiset_len(values@);
            vstd::seq_lib::lemma_sorted_unique(values@, unsorted.sort_by(ascending()), ascending());
        }
        let n = values.len();
        TimingPercentiles {
            p50_us: percentile(values.as_slice(), 50),
            p95_us: percentile(values.as_slice(), 95),
            p99_us: percentile(values.as_slice(), 99),
            max_us: values[n - 1],
        }
    }
}

/// `Vec::capacity`. It depends on what the allocator gave; all that is
/// stated is that it is at least the length.
#[verifier::external_body]
fn capacity_of(buffer: &Vec<u8>) -> (capacity: usize)
    ensures
        capacity >= buffer@.len(),
{
    buffer.capacity()
}

/// `index` is the best fit for a request of `len` bytes: a capacity of at
/// least `len`, no larger than any other such capacity, and the first of the
/// equally small ones.
pub open spec fn is_best_fit(capacities: Seq<usize>, len: usize, index: int) -> bool {
    &&& 0 <= index < capacities.len()
    &&& capacities[index] >= len
    &&& forall|j: int|
        0 <= j < capacities.len() && #[trigger] capacities[j] >= len ==> capacities[index]
            <= capacities[j]
    &&& forall|j: int| 0 <= j < index && #[trigger] capacities[j] >= len ==> capacities[index] < capacities[j]
}

/// Some capacity holds at least `len` bytes.
pub open spec fn fits_any(capacities: Seq<usize>, len: usize) -> bool {
    exists|j: int| 0 <= j < capacities.len() && #[trigger] capacities[j] >= len
}

/// The smallest capacity of at least `len`, the first one among equals;
/// `None` when every capacity is smaller.
pub fn best_fit(capacities: &[usize], len: usize) -> (found: Option<usize>)
    ensures
        match found {
            Some(i) => is_best_fit(capacities@, len, i as int),
            None => !fits_any(capacities@, len),
        },
{
    let mut best: Option<usize> = None;
    let mut i: usize = 0;
    while i < capacities.len()
        invariant
            i <= capacities@.len(),
            match best {
                Some(b) => {
                    &&& b < i
                    &&& capacities@[b as int] >= len
                    &&& forall|j: int|
                        0 <= j < i && #[trigger] capacities@[j] >= len ==> capacities@[b as int]
                            <= capacities@[j]
                    &&& forall|j: int|
                        0 <= j < b && #[trigger] capacities@[j] >= len ==> capacities@[b as int]
                            < capacities@[j]
                },
                None => forall|j: int| 0 <= j < i ==> #[trigger] capacities@[j] < len,
            },
        decreases capacities@.len() - i,
    {
        let capacity = capacities[i];
        let better = capacity >= len && match best {
            Some(b) => capacity < capacities[b],
            None => true,
        };
        if better {
            best = Some(i);
        }
        i += 1;
    }
    best
}

/// Recycled pixel buffers, so steady-state capture does not allocate. Each
/// pooled buffer is kept with the capacity it had when it was recycled.
pub struct FrameBufferPool {
    buffers: Vec<Vec<u8>>,
    capacities: Vec<usize>,
}

impl Default for FrameBufferPool {
    fn default() -> (pool: Self)
        ensures
            pool.wf(),
            pool.count() == 0,
    {
        Self::new()
    }
}

impl FrameBufferPool {
    pub closed spec fn count(&self) -> int {
        self.buffers@.len() as int
    }

    /// The capacities of the pooled buffers, in pool order.
    pub closed spec fn capacities(&self) -> Seq<usize> {
        self.capacities@
    }

    /// At most `FRAME_POOL_CAPACITY` buffers, all emptied, one capacity each.
    pub closed spec fn wf(&self) -> bool {
        &&& self.buffers@.len() <= FRAME_POOL_CAPACITY
        &&& self.capacities@.len() == self.buffers@.len()
        &&& forall|i: int| 0 <= i < self.buffers@.len() ==> (#[trigger] self.buffers@[i])@.len() == 0
    }

    pub fn new() -> (pool: Self)
        ensures
            pool.wf(),
            pool.count() == 0,
            pool.capacities() == Seq::<usize>::empty(),
    {
        Self { buffers: Vec::with_capacity(FRAME_POOL_CAPACITY), capacities: Vec::new() }
    }

    /// A zero-filled buffer of `len` bytes. The best-fitting pooled buffer
    /// (see `is_best_fit`) is reused and leaves the pool, the last one taking
    /// its place; when none holds `len` bytes a new one is allocated and the
    /// pool is unchanged.
    pub fn take(&mut self, len: usize) -> (buffer: Vec<u8>)
        requires
            old(self).wf(),
        ensures
            final(self).wf(),
            buffer@ == Seq::new(len as nat, |i: int| 0u8),
            final(self).count() == final(self).capacities().len(),
            fits_any(old(self).capacities(), len) ==> exists|i: int|
                #[trigger] is_best_fit(old(self).capacities(), len, i) && final(self).capacities()
                    == old(self).capacities().update(i, old(self).capacities().last()).drop_last(),
            !fits_any(old(self).capacities(), len) ==> final(self).capacities() == old(
                self,
            ).capacities(),
    {
        let mut buffer = match best_fit(self.capacities.as_slice(), len) {
            Some(index) => {
                let ghost before = self.buffers@;
                let b = self.buffers.swap_remove(index);
                self.capacities.swap_remove(index);
                proof {
                    assert forall|k: int| 0 <= k < self.buffers@.len() implies (
                    #[trigger] self.buffers@[k])@.len() == 0 by {
                        if k == index {
                            assert(self.buffers@[k] == before.last());
                        } else {
                            assert(self.buffers@[k] == before[k]);
                        }
                    }
                }
                b
            },
            None => Vec::with_capacity(len),
        };
        assert(buffer@.len() == 0);
        buffer.resize(len, 0u8);
        assert forall|k: int| 0 <= k < len implies buffer@[k] == 0u8 by {
            assert(cloned::<u8>(0u8, buffer@[k]));
        }
        assert(buffer@ =~= Seq::new(len as nat, |i: int| 0u8));
        buffer
    }

    /// Returns a buffer to the pool, emptied and with its capacity recorded
    /// (at least the length it came back with), unless the pool is full.
    pub fn recycle(&mut self, buffer: Vec<u8>)
        requires
            old(self).wf(),
        ensures
            final(self).wf(),
            final(self).count() == if old(self).count() < FRAME_POOL_CAPACITY {
                old(self).count() + 1
            } else {
                old(self).count()
            },
            final(self).capacities() == if old(self).count() < FRAME_POOL_CAPACITY {
                old(self).capacities().push(final(self).capacities().last())
            } else {
                old(self).capacities()
            },
            old(self).count() < FRAME_POOL_CAPACITY ==> final(self).capacities().last()
                >= buffer@.len(),
    {
        // Clearing a vector keeps its allocation, so the capacity read
        // before clearing is the capacity of the pooled buffer.
        let capacity = capacity_of(&buffer);
        let mut buffer = buffer;
        buffer.clear();
        if self.buffers.len() < FRAME_POOL_CAPACITY {
            let ghost before = self.buffers@;
            self.buffers.push(buffer);
            self.capacities.push(capacity);
            assert forall|k: int| 0 <= k < self.buffers@.len() implies (
            #[trigger] self.buffers@[k])@.len() == 0 by {
                if k < before.len() {
                    assert(self.buffers@[k] == before[k]);
                }
            }
        }
    }

    pub fn available(&self) -> (count: usize)
        ensures
            count == self.count(),
    {
        self.buffers.len()
    }
}

} // verus!
