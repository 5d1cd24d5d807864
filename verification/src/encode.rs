//! Encoder-side byte handling: the telemetry SEI, AV1 temporal delimiters,
//! frame layout checks, timestamps, access-unit assembly and the encoder
//! candidate tables with their options.
use crate::le::{be_u64_bytes, push_be_u64};
use crate::shared::{EncoderBackend, PixelFormat, StreamCodec};
use vstd::prelude::*;

verus! {

/// "GSTREAM-TIMING01"
pub const TELEMETRY_UUID: [u8; 16] = [
    0x47,
    0x53,
    0x54,
    0x52,
    0x45,
    0x41,
    0x4d,
    0x2d,
    0x54,
    0x49,
    0x4d,
    0x49,
    0x4e,
    0x47,
    0x30,
    0x31,
];

pub const PAYLOAD_TYPE_USER_DATA_UNREGISTERED: u8 = 5;

pub const SEI_PAYLOAD_SIZE: u8 = 32;

/// The SEI RBSP: user-data-unregistered payload type and size, the UUID, the
/// frame sequence and capture time (big-endian), and the stop bit.
pub open spec fn sei_rbsp(sequence: u64, capture_unix_us: u64) -> Seq<u8> {
    seq![PAYLOAD_TYPE_USER_DATA_UNREGISTERED, SEI_PAYLOAD_SIZE] + TELEMETRY_UUID@ + be_u64_bytes(
        sequence,
    ) + be_u64_bytes(capture_unix_us) + seq![0x80u8]
}

/// Emulation prevention over `bytes`, with the number of zero bytes that end
/// the output: after two zeros, any byte `<= 3` is preceded by `03`.
pub open spec fn escape_state(bytes: Seq<u8>) -> (Seq<u8>, int)
    decreases bytes.len(),
{
    if bytes.len() == 0 {
        (seq![], 0)
    } else {
        let prev = escape_state(bytes.drop_last());
        let x = bytes.last();
        let escaped = if prev.1 >= 2 && x <= 3 {
            (prev.0.push(3u8), 0int)
        } else {
            prev
        };
        (escaped.0.push(x), if x == 0 {
            escaped.1 + 1
        } else {
            0
        })
    }
}

pub open spec fn sei_nal_header() -> Seq<u8> {
    seq![0u8, 0, 0, 1, 0x06]
}

pub open spec fn spec_telemetry_sei(sequence: u64, capture_unix_us: u64) -> Seq<u8> {
    sei_nal_header() + escape_state(sei_rbsp(sequence, capture_unix_us)).0
}

/// Three bytes at `j - 2..=j` that would read as a start code or its
/// prefix: `00 00 00`, `00 00 01` or `00 00 02`.
pub open spec fn start_code_emulation_at(s: Seq<u8>, j: int) -> bool {
    j >= 2 && s[j - 2] == 0 && s[j - 1] == 0 && s[j] <= 2
}

/// One Annex-B SEI NAL unit carrying the frame sequence and capture time, so
/// a client can measure end-to-end latency.
pub fn telemetry_sei(sequence: u64, capture_unix_us: u64) -> (nal: Vec<u8>)
    ensures
        nal@ == spec_telemetry_sei(sequence, capture_unix_us),
        forall|j: int| 0 <= j < nal@.len() - 4 ==> !#[trigger] start_code_emulation_at(nal@.skip(4), j),
{
    let mut rbsp: Vec<u8> = Vec::with_capacity(35);
    rbsp.push(PAYLOAD_TYPE_USER_DATA_UNREGISTERED);
    rbsp.push(SEI_PAYLOAD_SIZE);
    let mut u: usize = 0;
    while u < 16
        invariant
            u <= 16,
            rbsp@ == seq![PAYLOAD_TYPE_USER_DATA_UNREGISTERED, SEI_PAYLOAD_SIZE] + TELEMETRY_UUID@.take(
                u as int,
            ),
        decreases 16 - u,
    {
        rbsp.push(TELEMETRY_UUID[u]);
        u += 1;
        assert(rbsp@ =~= seq![PAYLOAD_TYPE_USER_DATA_UNREGISTERED, SEI_PAYLOAD_SIZE]
            + TELEMETRY_UUID@.take(u as int));
    }
    assert(TELEMETRY_UUID@.take(16) =~= TELEMETRY_UUID@);
    push_be_u64(&mut rbsp, sequence);
    push_be_u64(&mut rbsp, capture_unix_us);
    rbsp.push(0x80);
    let ghost input = sei_rbsp(sequence, capture_unix_us);
    assert(rbsp@ =~= input);

    let mut nal: Vec<u8> = Vec::with_capacity(rbsp.len() + 8);
    nal.push(0);
    nal.push(0);
    nal.push(0);
    nal.push(1);
    nal.push(0x06);
    let mut zero_count: usize = 0;
    let mut i: usize = 0;
    assert(input.take(0) =~= Seq::<u8>::empty());
    assert(nal@ =~= sei_nal_header() + Seq::<u8>::empty());
    while i < rbsp.len()
        invariant
            i <= rbsp.len(),
            rbsp@ == input,
            nal@ == sei_nal_header() + escape_state(input.take(i as int)).0,
            zero_count == escape_state(input.take(i as int)).1,
            zero_count <= 2,
            zero_count >= 1 ==> nal@.last() == 0,
            zero_count >= 2 ==> nal@[nal@.len() - 2] == 0,
            zero_count == 0 ==> nal@.last() != 0,
            zero_count == 1 ==> nal@[nal@.len() - 2] != 0,
            nal@.len() >= 5,
            forall|j: int| 0 <= j < nal@.len() - 4 ==> !#[trigger] start_code_emulation_at(nal@.skip(4), j),
        decreases rbsp.len() - i,
    {
        let byte = rbsp[i];
        let ghost before = nal@;
        proof {
            assert(input.take(i + 1).drop_last() =~= input.take(i as int));
            assert(input.take(i + 1).last() == byte);
        }
        if zero_count >= 2 && byte <= 3 {
            nal.push(3);
            zero_count = 0;
        }
        let ghost mid = nal@;
        nal.push(byte);
        if byte == 0 {
            zero_count += 1;
        } else {
            zero_count = 0;
        }
        i += 1;
        proof {
            assert forall|j: int| 0 <= j < nal@.len() - 4 implies !#[trigger] start_code_emulation_at(
                nal@.skip(4),
                j,
            ) by {
                if j < before.len() - 4 {
                    assert(nal@.skip(4)[j] == before.skip(4)[j]);
                    if j >= 2 {
                        assert(nal@.skip(4)[j - 2] == before.skip(4)[j - 2]);
                        assert(nal@.skip(4)[j - 1] == before.skip(4)[j - 1]);
                    }
                    assert(!start_code_emulation_at(before.skip(4), j));
                }
            }
        }
    }
    assert(input.take(rbsp.len() as int) =~= input);
    nal
}

/// What a decoder does to a NAL payload: every `03` that follows two zero
/// bytes is an emulation-prevention byte and is dropped. Also returns the
/// number of zeros that end the kept bytes since the last dropped byte.
pub open spec fn unescape_state(bytes: Seq<u8>) -> (Seq<u8>, int)
    decreases bytes.len(),
{
    if bytes.len() == 0 {
        (seq![], 0)
    } else {
        let prev = unescape_state(bytes.drop_last());
        let x = bytes.last();
        if prev.1 >= 2 && x == 3 {
            (prev.0, 0)
        } else {
            (prev.0.push(x), if x == 0 {
                prev.1 + 1
            } else {
                0
            })
        }
    }
}

/// Law: emulation prevention is undone exactly by a decoder. Dropping each
/// `03` that follows two zeros gives back the escaped bytes.
pub proof fn lemma_escape_reversible(bytes: Seq<u8>)
    ensures
        unescape_state(escape_state(bytes).0) == (bytes, escape_state(bytes).1),
    decreases bytes.len(),
{
    if bytes.len() > 0 {
        let init = bytes.drop_last();
        lemma_escape_reversible(init);
        let prev = escape_state(init);
        let x = bytes.last();
        if prev.1 >= 2 && x <= 3 {
            let mid = prev.0.push(3u8);
            assert(mid.drop_last() =~= prev.0);
            assert(unescape_state(mid) == (init, 0int));
            assert(prev.0.push(3u8).push(x).drop_last() =~= mid);
        } else {
            assert(prev.0.push(x).drop_last() =~= prev.0);
        }
        assert(init.push(x) =~= bytes);
    }
}

/// Law: a client that strips the five-byte NAL prefix of the telemetry SEI
/// and undoes emulation prevention reads back the RBSP it was built from,
/// and with it the sequence number and capture time.
pub proof fn lemma_telemetry_sei_decodes(sequence: u64, capture_unix_us: u64)
    ensures
        unescape_state(spec_telemetry_sei(sequence, capture_unix_us).skip(5)).0 == sei_rbsp(
            sequence,
            capture_unix_us,
        ),
{
    let rbsp = sei_rbsp(sequence, capture_unix_us);
    lemma_escape_reversible(rbsp);
    assert(spec_telemetry_sei(sequence, capture_unix_us).skip(5) =~= escape_state(rbsp).0);
}

pub const AV1_TEMPORAL_DELIMITER_0: u8 = 0x12;

pub const AV1_TEMPORAL_DELIMITER_1: u8 = 0x00;

pub open spec fn temporal_delimiter() -> Seq<u8> {
    seq![AV1_TEMPORAL_DELIMITER_0, AV1_TEMPORAL_DELIMITER_1]
}

pub open spec fn starts_with_td(d: Seq<u8>) -> bool {
    d.len() >= 2 && d[0] == AV1_TEMPORAL_DELIMITER_0 && d[1] == AV1_TEMPORAL_DELIMITER_1
}

pub open spec fn ends_with_td(d: Seq<u8>) -> bool {
    d.len() >= 2 && d[d.len() - 2] == AV1_TEMPORAL_DELIMITER_0 && d[d.len() - 1]
        == AV1_TEMPORAL_DELIMITER_1
}

/// A non-empty AV1 packet framed as one temporal unit: a temporal delimiter
/// is added in front unless present, then one at the end unless present. A
/// trailing delimiter lets a raw-stream client emit the unit immediately.
pub open spec fn spec_delimit(d: Seq<u8>) -> Seq<u8> {
    if d.len() == 0 {
        d
    } else {
        let led = if starts_with_td(d) {
            d
        } else {
            temporal_delimiter() + d
        };
        if ends_with_td(led) {
            led
        } else {
            led + temporal_delimiter()
        }
    }
}

pub open spec fn packet_views(v: Seq<(Vec<u8>, bool)>) -> Seq<(Seq<u8>, bool)> {
    v.map_values(|p: (Vec<u8>, bool)| (p.0@, p.1))
}

fn delimit(data: Vec<u8>) -> (out: Vec<u8>)
    ensures
        out@ == spec_delimit(data@),
{
    if data.len() == 0 {
        return data;
    }
    let mut out = if data.len() >= 2 && data[0] == AV1_TEMPORAL_DELIMITER_0 && data[1]
        == AV1_TEMPORAL_DELIMITER_1 {
        data
    } else {
        let mut led: Vec<u8> = Vec::new();
        led.push(AV1_TEMPORAL_DELIMITER_0);
        led.push(AV1_TEMPORAL_DELIMITER_1);
        led.extend_from_slice(data.as_slice());
        assert(led@ =~= temporal_delimiter() + data@);
        led
    };
    let n = out.len();
    if !(n >= 2 && out[n - 2] == AV1_TEMPORAL_DELIMITER_0 && out[n - 1]
        == AV1_TEMPORAL_DELIMITER_1) {
        let ghost led = out@;
        out.push(AV1_TEMPORAL_DELIMITER_0);
        out.push(AV1_TEMPORAL_DELIMITER_1);
        assert(out@ =~= led + temporal_delimiter());
    }
    out
}

/// Frames every non-empty packet as an AV1 temporal unit; key flags stay
/// attached to their packets.
pub fn add_av1_temporal_delimiters(packets: &mut Vec<(Vec<u8>, bool)>)
    ensures
        packet_views(final(packets)@) == packet_views(old(packets)@).map_values(
            |p: (Seq<u8>, bool)| (spec_delimit(p.0), p.1),
        ),
{
    let mut input: Vec<(Vec<u8>, bool)> = Vec::new();
    std::mem::swap(&mut input, packets);
    let ghost all = packet_views(input@);
    let ghost target = all.map_values(|p: (Seq<u8>, bool)| (spec_delimit(p.0), p.1));
    let mut k: usize = 0;
    assert(packet_views(input@.skip(0)) =~= all);
    while input.len() > 0
        invariant
            target == all.map_values(|p: (Seq<u8>, bool)| (spec_delimit(p.0), p.1)),
            packets@.len() == k,
            k + input@.len() == all.len(),
            packet_views(input@) == all.skip(k as int),
            packet_views(packets@) == target.take(k as int),
        decreases input@.len(),
    {
        let ghost old_input = input@;
        let (data, key) = input.remove(0);
        proof {
            assert(packet_views(old_input)[0] == (data@, key));
            assert(all.skip(k as int)[0] == (data@, key));
            assert(input@ =~= old_input.drop_first());
            assert forall|i: int| 0 <= i < input@.len() implies #[trigger] packet_views(input@)[i]
                == all.skip(k + 1)[i] by {
                assert(packet_views(input@)[i] == packet_views(old_input)[i + 1]);
            }
        }
        let framed = delimit(data);
        let ghost before = packets@;
        packets.push((framed, key));
        proof {
            assert(packet_views(input@) =~= all.skip(k + 1));
            assert(k < all.len());
            assert(all[k as int] == all.skip(k as int)[0]);
            assert(target.len() == all.len());
            assert(target[k as int] == (spec_delimit(all[k as int].0), all[k as int].1));
            assert(target[k as int] == (spec_delimit(data@), key));
            assert forall|i: int| 0 <= i < packets@.len() implies #[trigger] packet_views(packets@)[i]
                == target.take(k + 1)[i] by {
                if i < k {
                    assert(packets@[i] == before[i]);
                    assert(packet_views(before)[i] == target.take(k as int)[i]);
                }
            }
            assert(packet_views(packets@) =~= target.take(k + 1));
        }
        k = packets.len();
    }
    assert(target.take(k as int) =~= target);
}

/// Law: delimiting is idempotent, and every non-empty delimited packet begins
/// and ends with a temporal delimiter.
pub proof fn lemma_delimit_idempotent(d: Seq<u8>)
    ensures
        spec_delimit(spec_delimit(d)) == spec_delimit(d),
        d.len() > 0 ==> starts_with_td(spec_delimit(d)) && ends_with_td(spec_delimit(d)),
{
    if d.len() > 0 {
        let led = if starts_with_td(d) {
            d
        } else {
            temporal_delimiter() + d
        };
        assert(starts_with_td(led));
        let out = spec_delimit(d);
        if !ends_with_td(led) {
            assert(out == led + temporal_delimiter());
            assert(out[0] == led[0] && out[1] == led[1]);
        }
        assert(starts_with_td(out));
        assert(ends_with_td(out));
    }
}

/// Bytes a captured frame must have: `row_stride * height` for packed
/// RGBA/BGRA (stride at least four bytes per pixel), and a full-height luma
/// plane plus a half-height chroma plane for NV12 (even sizes and stride,
/// stride at least the width). `None` for an invalid layout or a size that
/// does not fit in `usize`.
pub open spec fn spec_expected_frame_len(
    width: u32,
    height: u32,
    row_stride: u32,
    format: PixelFormat,
) -> Option<int> {
    if width == 0 || height == 0 || row_stride == 0 || row_stride > i32::MAX {
        None
    } else {
        match format {
            PixelFormat::Nv12 => {
                if width % 2 != 0 || height % 2 != 0 || row_stride % 2 != 0 || row_stride < width {
                    None
                } else {
                    let luma = row_stride * height;
                    let chroma = row_stride * (height / 2);
                    if luma > usize::MAX || chroma > usize::MAX || luma + chroma > usize::MAX {
                        None
                    } else {
                        Some(luma + chroma)
                    }
                }
            },
            _ => {
                if width * 4 > usize::MAX || row_stride < width * 4 || row_stride * height
                    > usize::MAX {
                    None
                } else {
                    Some(row_stride * height)
                }
            },
        }
    }
}

pub fn expected_frame_len(width: u32, height: u32, row_stride: u32, format: PixelFormat) -> (len:
    Option<usize>)
    ensures
        match len {
            Some(n) => spec_expected_frame_len(width, height, row_stride, format) == Some(n as int),
            None => spec_expected_frame_len(width, height, row_stride, format) is None,
        },
{
    if width == 0 || height == 0 || row_stride == 0 || row_stride > i32::MAX as u32 {
        return None;
    }
    let stride = row_stride as usize;
    let rows = height as usize;
    match format {
        PixelFormat::Rgba8 | PixelFormat::Bgra8 => {
            let minimum_stride = match (width as usize).checked_mul(4) {
                Some(m) => m,
                None => return None,
            };
            if stride < minimum_stride {
                return None;
            }
            stride.checked_mul(rows)
        },
        PixelFormat::Nv12 => {
            if width % 2 != 0 || height % 2 != 0 || row_stride % 2 != 0 || row_stride < width {
                return None;
            }
            let luma = match stride.checked_mul(rows) {
                Some(v) => v,
                None => return None,
            };
            let chroma = match stride.checked_mul(rows / 2) {
                Some(v) => v,
                None => return None,
            };
            luma.checked_add(chroma)
        },
    }
}

/// The frame bytes do not match the declared layout.
#[derive(Clone, Copy, Debug, PartialEq, Eq, Structural)]
pub struct InvalidFrameLayout;

pub fn validate_frame_layout(
    width: u32,
    height: u32,
    row_stride: u32,
    format: PixelFormat,
    len: usize,
) -> (result: Result<(), InvalidFrameLayout>)
    ensures
        result is Ok <==> spec_expected_frame_len(width, height, row_stride, format) == Some(
            len as int,
        ),
{
    match expected_frame_len(width, height, row_stride, format) {
        Some(expected) => if expected == len {
            Ok(())
        } else {
            Err(InvalidFrameLayout)
        },
        None => Err(InvalidFrameLayout),
    }
}

/// Which pixel format an encoder candidate is fed.
#[derive(Clone, Copy, Debug, PartialEq, Eq, Structural)]
pub enum InputPolicy {
    /// The capture's own format.
    Preferred,
    Nv12,
}

impl InputPolicy {
    pub open spec fn spec_pixel(self, preferred: PixelFormat) -> PixelFormat {
        match self {
            InputPolicy::Preferred => preferred,
            InputPolicy::Nv12 => PixelFormat::Nv12,
        }
    }

    pub fn pixel(self, preferred: PixelFormat) -> (pixel: PixelFormat)
        ensures
            pixel == self.spec_pixel(preferred),
    {
        match self {
            InputPolicy::Preferred => preferred,
            InputPolicy::Nv12 => PixelFormat::Nv12,
        }
    }
}

/// One hardware encoder to probe.
#[derive(Clone, Copy, Debug, PartialEq, Eq)]
pub struct EncoderCandidate {
    pub name: &'static str,
    pub codec: StreamCodec,
    pub backend: EncoderBackend,
    pub input: InputPolicy,
}

pub struct CandidateView {
    pub name: Seq<char>,
    pub codec: StreamCodec,
    pub backend: EncoderBackend,
    pub input: InputPolicy,
}

pub open spec fn candidate_view(c: EncoderCandidate) -> CandidateView {
    CandidateView { name: c.name@, codec: c.codec, backend: c.backend, input: c.input }
}

pub open spec fn candidate_views(v: Seq<EncoderCandidate>) -> Seq<CandidateView> {
    v.map_values(|c: EncoderCandidate| candidate_view(c))
}

pub open spec fn cand(backend: EncoderBackend, codec: StreamCodec, input: InputPolicy) -> CandidateView {
    CandidateView { name: backend.spec_name(), codec, backend, input }
}

/// Probe order off Apple platforms. Codec priority is intentional and takes
/// precedence over vendor; opening the codec context is the capability probe.
pub open spec fn spec_desktop_candidates() -> Seq<CandidateView> {
    seq![
        cand(EncoderBackend::Av1Nvenc, StreamCodec::Av1, InputPolicy::Preferred),
        cand(EncoderBackend::Av1Amf, StreamCodec::Av1, InputPolicy::Preferred),
        cand(EncoderBackend::Av1Qsv, StreamCodec::Av1, InputPolicy::Nv12),
        cand(EncoderBackend::HevcNvenc, StreamCodec::Hevc, InputPolicy::Preferred),
        cand(EncoderBackend::HevcAmf, StreamCodec::Hevc, InputPolicy::Preferred),
        cand(EncoderBackend::HevcQsv, StreamCodec::Hevc, InputPolicy::Nv12),
        cand(EncoderBackend::H264Nvenc, StreamCodec::H264, InputPolicy::Preferred),
        cand(EncoderBackend::H264Amf, StreamCodec::H264, InputPolicy::Preferred),
        cand(EncoderBackend::H264Qsv, StreamCodec::H264, InputPolicy::Nv12),
    ]
}

/// Probe order with VideoToolbox, which offers HEVC and H.264 but not AV1.
pub open spec fn spec_apple_candidates() -> Seq<CandidateView> {
    seq![
        cand(EncoderBackend::HevcVideoToolbox, StreamCodec::Hevc, InputPolicy::Nv12),
        cand(EncoderBackend::H264VideoToolbox, StreamCodec::H264, InputPolicy::Nv12),
    ]
}

fn candidate(name: &'static str, codec: StreamCodec, backend: EncoderBackend, input: InputPolicy) -> (c:
    EncoderCandidate)
    ensures
        c == (EncoderCandidate { name, codec, backend, input }),
{
    EncoderCandidate { name, codec, backend, input }
}

pub fn desktop_encoder_candidates() -> (table: Vec<EncoderCandidate>)
    ensures
        candidate_views(table@) == spec_desktop_candidates(),
{
    let mut table: Vec<EncoderCandidate> = Vec::new();
    table.push(candidate("av1_nvenc", StreamCodec::Av1, EncoderBackend::Av1Nvenc, InputPolicy::Preferred));
    table.push(candidate("av1_amf", StreamCodec::Av1, EncoderBackend::Av1Amf, InputPolicy::Preferred));
    table.push(candidate("av1_qsv", StreamCodec::Av1, EncoderBackend::Av1Qsv, InputPolicy::Nv12));
    table.push(candidate("hevc_nvenc", StreamCodec::Hevc, EncoderBackend::HevcNvenc, InputPolicy::Preferred));
    table.push(candidate("hevc_amf", StreamCodec::Hevc, EncoderBackend::HevcAmf, InputPolicy::Preferred));
    table.push(candidate("hevc_qsv", StreamCodec::Hevc, EncoderBackend::HevcQsv, InputPolicy::Nv12));
    table.push(candidate("h264_nvenc", StreamCodec::H264, EncoderBackend::H264Nvenc, InputPolicy::Preferred));
    table.push(candidate("h264_amf", StreamCodec::H264, EncoderBackend::H264Amf, InputPolicy::Preferred));
    table.push(candidate("h264_qsv", StreamCodec::H264, EncoderBackend::H264Qsv, InputPolicy::Nv12));
    assert(candidate_views(table@) =~= spec_desktop_candidates());
    table
}

pub fn apple_encoder_candidates() -> (table: Vec<EncoderCandidate>)
    ensures
        candidate_views(table@) == spec_apple_candidates(),
{
    let mut table: Vec<EncoderCandidate> = Vec::new();
    table.push(
        candidate("hevc_videotoolbox", StreamCodec::Hevc, EncoderBackend::HevcVideoToolbox, InputPolicy::Nv12),
    );
    table.push(
        candidate("h264_videotoolbox", StreamCodec::H264, EncoderBackend::H264VideoToolbox, InputPolicy::Nv12),
    );
    assert(candidate_views(table@) =~= spec_apple_candidates());
    table
}

/// Wire-codec priority of the probe order: AV1, then HEVC, then H.264.
pub open spec fn codec_rank(codec: StreamCodec) -> int {
    match codec {
        StreamCodec::Av1 => 0,
        StreamCodec::Hevc => 1,
        StreamCodec::H264 => 2,
        StreamCodec::Auto => 3,
    }
}

/// Law: both probe tables are ordered by wire codec (AV1 before HEVC before
/// H.264) and end with H.264; every candidate is named after its backend and
/// is a concrete codec.
pub proof fn lemma_candidates_ordered_by_codec()
    ensures
        forall|i: int, j: int|
            0 <= i < j < spec_desktop_candidates().len() ==> codec_rank(
                #[trigger] spec_desktop_candidates()[i].codec,
            ) <= codec_rank(#[trigger] spec_desktop_candidates()[j].codec),
        forall|i: int, j: int|
            0 <= i < j < spec_apple_candidates().len() ==> codec_rank(
                #[trigger] spec_apple_candidates()[i].codec,
            ) <= codec_rank(#[trigger] spec_apple_candidates()[j].codec),
        spec_desktop_candidates().last().codec == StreamCodec::H264,
        spec_apple_candidates().last().codec == StreamCodec::H264,
        forall|i: int|
            0 <= i < spec_desktop_candidates().len() ==> (#[trigger] spec_desktop_candidates()[i]).name
                == spec_desktop_candidates()[i].backend.spec_name()
                && spec_desktop_candidates()[i].codec != StreamCodec::Auto,
        forall|i: int|
            0 <= i < spec_apple_candidates().len() ==> (#[trigger] spec_apple_candidates()[i]).name
                == spec_apple_candidates()[i].backend.spec_name()
                && spec_apple_candidates()[i].codec != StreamCodec::Auto,
{
    let d = spec_desktop_candidates();
    let a = spec_apple_candidates();
    assert forall|i: int, j: int| 0 <= i < j < d.len() implies codec_rank(#[trigger] d[i].codec)
        <= codec_rank(#[trigger] d[j].codec) by {
        assert(codec_rank(d[i].codec) == i / 3);
        assert(codec_rank(d[j].codec) == j / 3);
    }
}

/// The candidates worth probing for a requested codec, in probe order: all
/// of them for `Auto`, else those of that codec.
pub open spec fn spec_candidates_for(table: Seq<CandidateView>, requested: StreamCodec) -> Seq<
    CandidateView,
>
    decreases table.len(),
{
    if table.len() == 0 {
        seq![]
    } else {
        let rest = spec_candidates_for(table.drop_last(), requested);
        if requested == StreamCodec::Auto || table.last().codec == requested {
            rest.push(table.last())
        } else {
            rest
        }
    }
}

pub fn candidates_for(table: &Vec<EncoderCandidate>, requested: StreamCodec) -> (probe: Vec<
    EncoderCandidate,
>)
    ensures
        candidate_views(probe@) == spec_candidates_for(candidate_views(table@), requested),
{
    let mut probe: Vec<EncoderCandidate> = Vec::new();
    let mut i: usize = 0;
    while i < table.len()
        invariant
            i <= table.len(),
            candidate_views(probe@) == spec_candidates_for(
                candidate_views(table@.subrange(0, i as int)),
                requested,
            ),
        decreases table.len() - i,
    {
        let c = table[i];
        proof {
            assert(candidate_views(table@.subrange(0, i + 1)).drop_last() =~= candidate_views(
                table@.subrange(0, i as int),
            ));
            assert(candidate_views(table@.subrange(0, i + 1)).last() == candidate_view(c));
        }
        if matches!(requested, StreamCodec::Auto) || c.codec == requested {
            let ghost before = probe@;
            probe.push(c);
            assert(candidate_views(probe@) =~= candidate_views(before).push(candidate_view(c)));
        }
        i += 1;
    }
    assert(table@.subrange(0, table.len() as int) =~= table@);
    probe
}

pub open spec fn opt_views(v: Seq<(&'static str, &'static str)>) -> Seq<(Seq<char>, Seq<char>)> {
    v.map_values(|p: (&'static str, &'static str)| (p.0@, p.1@))
}

pub open spec fn nvenc_spec(codec: StreamCodec, input_pixel: PixelFormat) -> Seq<(Seq<char>, Seq<char>)> {
    seq![
        ("preset"@, "p4"@),
        ("tune"@, "ull"@),
        ("rc"@, "cbr"@),
        ("delay"@, "0"@),
        ("zerolatency"@, "1"@),
        ("forced-idr"@, "1"@),
        ("rc-lookahead"@, "0"@),
        ("no-scenecut"@, "1"@),
        ("spatial-aq"@, "1"@),
        ("aq-strength"@, "8"@),
        ("multipass"@, "disabled"@),
    ] + match codec {
        StreamCodec::H264 => seq![("profile"@, "high"@), ("aud"@, "1"@)],
        StreamCodec::Hevc => seq![("profile"@, "main"@), ("aud"@, "1"@)],
        _ => seq![],
    } + if input_pixel == PixelFormat::Rgba8 || input_pixel == PixelFormat::Bgra8 {
        seq![("rgb_mode"@, "yuv420"@)]
    } else {
        seq![]
    }
}

pub open spec fn amf_spec(codec: StreamCodec) -> Seq<(Seq<char>, Seq<char>)> {
    seq![
        ("usage"@, "lowlatency_high_quality"@),
        ("quality"@, "quality"@),
        ("rc"@, "cbr"@),
        ("async_depth"@, "1"@),
        ("forced_idr"@, "1"@),
        ("preencode"@, "0"@),
    ] + match codec {
        StreamCodec::Av1 => seq![("latency"@, "lowest_latency"@), ("header_insertion_mode"@, "idr"@)],
        StreamCodec::Hevc => seq![
            ("latency"@, "1"@),
            ("profile"@, "main"@),
            ("header_insertion_mode"@, "idr"@),
            ("aud"@, "1"@),
        ],
        StreamCodec::H264 => seq![
            ("latency"@, "1"@),
            ("profile"@, "high"@),
            ("header_spacing"@, "1"@),
            ("aud"@, "1"@),
        ],
        StreamCodec::Auto => seq![],
    }
}

pub open spec fn qsv_spec(codec: StreamCodec) -> Seq<(Seq<char>, Seq<char>)> {
    seq![
        ("async_depth"@, "1"@),
        ("preset"@, "medium"@),
        ("forced_idr"@, "1"@),
        ("low_delay_brc"@, "1"@),
    ] + match codec {
        StreamCodec::H264 => seq![("profile"@, "high"@), ("scenario"@, "remotegaming"@), ("aud"@, "1"@)],
        StreamCodec::Hevc => seq![("profile"@, "main"@), ("scenario"@, "remotegaming"@), ("aud"@, "1"@)],
        _ => seq![],
    }
}

pub open spec fn videotoolbox_spec(codec: StreamCodec) -> Seq<(Seq<char>, Seq<char>)> {
    seq![
        ("allow_sw"@, "0"@),
        ("realtime"@, "1"@),
        ("prio_speed"@, "0"@),
        ("spatial_aq"@, "1"@),
    ] + match codec {
        StreamCodec::H264 => seq![("profile"@, "high"@)],
        StreamCodec::Hevc => seq![("profile"@, "main"@)],
        _ => seq![],
    }
}

/// Encoder private options, in the order they are set, for a candidate's
/// backend family.
pub open spec fn spec_encoder_options(backend: EncoderBackend, codec: StreamCodec, input_pixel: PixelFormat) -> Seq<(Seq<char>, Seq<char>)> {
    match backend {
        EncoderBackend::Av1Nvenc | EncoderBackend::HevcNvenc | EncoderBackend::H264Nvenc => nvenc_spec(codec, input_pixel),
        EncoderBackend::Av1Amf | EncoderBackend::HevcAmf | EncoderBackend::H264Amf => amf_spec(codec),
        EncoderBackend::Av1Qsv | EncoderBackend::HevcQsv | EncoderBackend::H264Qsv => qsv_spec(codec),
        EncoderBackend::HevcVideoToolbox | EncoderBackend::H264VideoToolbox => videotoolbox_spec(codec),
        EncoderBackend::NoEncoder => seq![],
    }
}

fn nvenc_options(codec: StreamCodec, input_pixel: PixelFormat) -> (options: Vec<(&'static str, &'static str)>)
    ensures
        opt_views(options@) == nvenc_spec(codec, input_pixel),
{
    let mut options: Vec<(&'static str, &'static str)> = Vec::new();
    // P4 is NVIDIA's balanced low-latency preset; P1 traded away too much
    // quality even when ample bitrate was available.
    options.push(("preset", "p4"));
    options.push(("tune", "ull"));
    options.push(("rc", "cbr"));
    options.push(("delay", "0"));
    options.push(("zerolatency", "1"));
    options.push(("forced-idr", "1"));
    options.push(("rc-lookahead", "0"));
    options.push(("no-scenecut", "1"));
    options.push(("spatial-aq", "1"));
    options.push(("aq-strength", "8"));
    options.push(("multipass", "disabled"));
    match codec {
        StreamCodec::H264 => {
            options.push(("profile", "high"));
            options.push(("aud", "1"));
        },
        StreamCodec::Hevc => {
            options.push(("profile", "main"));
            options.push(("aud", "1"));
        },
        _ => {},
    }
    if matches!(input_pixel, PixelFormat::Rgba8 | PixelFormat::Bgra8) {
        options.push(("rgb_mode", "yuv420"));
    }
    assert(opt_views(options@) =~= nvenc_spec(codec, input_pixel));
    options
}

fn amf_options(codec: StreamCodec) -> (options: Vec<(&'static str, &'static str)>)
    ensures
        opt_views(options@) == amf_spec(codec),
{
    let mut options: Vec<(&'static str, &'static str)> = Vec::new();
    options.push(("usage", "lowlatency_high_quality"));
    options.push(("quality", "quality"));
    options.push(("rc", "cbr"));
    options.push(("async_depth", "1"));
    options.push(("forced_idr", "1"));
    options.push(("preencode", "0"));
    match codec {
        StreamCodec::Av1 => {
            options.push(("latency", "lowest_latency"));
            options.push(("header_insertion_mode", "idr"));
        },
        StreamCodec::Hevc => {
            options.push(("latency", "1"));
            options.push(("profile", "main"));
            options.push(("header_insertion_mode", "idr"));
            options.push(("aud", "1"));
        },
        StreamCodec::H264 => {
            options.push(("latency", "1"));
            options.push(("profile", "high"));
            options.push(("header_spacing", "1"));
            options.push(("aud", "1"));
        },
        StreamCodec::Auto => {},
    }
    assert(opt_views(options@) =~= amf_spec(codec));
    options
}

fn qsv_options(codec: StreamCodec) -> (options: Vec<(&'static str, &'static str)>)
    ensures
        opt_views(options@) == qsv_spec(codec),
{
    let mut options: Vec<(&'static str, &'static str)> = Vec::new();
    options.push(("async_depth", "1"));
    options.push(("preset", "medium"));
    options.push(("forced_idr", "1"));
    options.push(("low_delay_brc", "1"));
    match codec {
        StreamCodec::H264 => {
            options.push(("profile", "high"));
            options.push(("scenario", "remotegaming"));
            options.push(("aud", "1"));
        },
        StreamCodec::Hevc => {
            options.push(("profile", "main"));
            options.push(("scenario", "remotegaming"));
            options.push(("aud", "1"));
        },
        _ => {},
    }
    assert(opt_views(options@) =~= qsv_spec(codec));
    options
}

fn videotoolbox_options(codec: StreamCodec) -> (options: Vec<(&'static str, &'static str)>)
    ensures
        opt_views(options@) == videotoolbox_spec(codec),
{
    let mut options: Vec<(&'static str, &'static str)> = Vec::new();
    // allow_sw=0 makes probing authoritative: success means a hardware
    // encoder, not Apple's software implementation.
    options.push(("allow_sw", "0"));
    options.push(("realtime", "1"));
    options.push(("prio_speed", "0"));
    // Some hardware sessions reject constant_bit_rate; the context's target
    // bitrate (ABR) is used instead.
    options.push(("spatial_aq", "1"));
    match codec {
        StreamCodec::H264 => options.push(("profile", "high")),
        StreamCodec::Hevc => options.push(("profile", "main")),
        _ => {},
    }
    assert(opt_views(options@) =~= videotoolbox_spec(codec));
    options
}

pub fn encoder_options(candidate: EncoderCandidate, input_pixel: PixelFormat) -> (options: Vec<
    (&'static str, &'static str),
>)
    ensures
        opt_views(options@) == spec_encoder_options(candidate.backend, candidate.codec, input_pixel),
{
    match candidate.backend {
        EncoderBackend::Av1Nvenc | EncoderBackend::HevcNvenc | EncoderBackend::H264Nvenc => {
            nvenc_options(candidate.codec, input_pixel)
        },
        EncoderBackend::Av1Amf | EncoderBackend::HevcAmf | EncoderBackend::H264Amf => {
            amf_options(candidate.codec)
        },
        EncoderBackend::Av1Qsv | EncoderBackend::HevcQsv | EncoderBackend::H264Qsv => {
            qsv_options(candidate.codec)
        },
        EncoderBackend::HevcVideoToolbox | EncoderBackend::H264VideoToolbox => {
            videotoolbox_options(candidate.codec)
        },
        EncoderBackend::NoEncoder => {
            let options: Vec<(&'static str, &'static str)> = Vec::new();
            assert(opt_views(options@) =~= Seq::<(Seq<char>, Seq<char>)>::empty());
            options
        },
    }
}

/// The next presentation timestamp: the capture timestamp, raised to one
/// past the previous one when readbacks complete out of step.
pub open spec fn spec_next_pts(last: Option<i64>, pts: i64) -> i64 {
    match last {
        Some(previous) => if pts > previous {
            pts
        } else {
            (previous + 1) as i64
        },
        None => pts,
    }
}

/// The plain state of an opened encoder: the selected candidate, the pixel
/// format it is fed, its output size and the last timestamp it was given.
pub struct VideoEncoder {
    selection: EncoderCandidate,
    input_pixel: PixelFormat,
    output_width: u32,
    output_height: u32,
    last_pts: Option<i64>,
}

impl VideoEncoder {
    pub closed spec fn selection(&self) -> EncoderCandidate {
        self.selection
    }

    pub closed spec fn spec_input_pixel(&self) -> PixelFormat {
        self.input_pixel
    }

    pub closed spec fn spec_output_dimensions(&self) -> (u32, u32) {
        (self.output_width, self.output_height)
    }

    pub closed spec fn last_pts(&self) -> Option<i64> {
        self.last_pts
    }

    /// The state of `selection` opened for an output size, fed in the format
    /// its input policy picks for the capture format.
    pub fn configured(
        selection: EncoderCandidate,
        output_width: u32,
        output_height: u32,
        preferred_input: PixelFormat,
    ) -> (encoder: Self)
        ensures
            encoder.selection() == selection,
            encoder.spec_input_pixel() == selection.input.spec_pixel(preferred_input),
            encoder.spec_output_dimensions() == (output_width, output_height),
            encoder.last_pts() == None::<i64>,
    {
        Self {
            selection,
            input_pixel: selection.input.pixel(preferred_input),
            output_width,
            output_height,
            last_pts: None,
        }
    }

    pub fn selection_candidate(&self) -> (selection: EncoderCandidate)
        ensures
            selection == self.selection(),
    {
        self.selection
    }

    pub fn backend(&self) -> (backend: EncoderBackend)
        ensures
            backend == self.selection().backend,
    {
        self.selection.backend
    }

    pub fn codec(&self) -> (codec: StreamCodec)
        ensures
            codec == self.selection().codec,
    {
        self.selection.codec
    }

    pub fn input_pixel(&self) -> (pixel: PixelFormat)
        ensures
            pixel == self.spec_input_pixel(),
    {
        self.input_pixel
    }

    pub fn output_dimensions(&self) -> (dims: (u32, u32))
        ensures
            dims == self.spec_output_dimensions(),
    {
        (self.output_width, self.output_height)
    }

    /// A new output size, or a capture format that changes what this
    /// candidate is fed, requires reopening the encoder.
    pub fn needs_reconfigure(&self, output_dimensions: (u32, u32), preferred_input: PixelFormat) -> (reopen: bool)
        ensures
            reopen == (self.spec_output_dimensions() != output_dimensions
                || self.selection().input.spec_pixel(preferred_input) != self.spec_input_pixel()),
    {
        self.output_width != output_dimensions.0 || self.output_height != output_dimensions.1
            || self.selection.input.pixel(preferred_input) != self.input_pixel
    }

    /// A frame can go to the encoder without scaling or conversion.
    pub fn is_direct_input(&self, width: u32, height: u32, format: PixelFormat) -> (direct: bool)
        ensures
            direct == (width == self.spec_output_dimensions().0 && height
                == self.spec_output_dimensions().1 && format == self.spec_input_pixel()),
    {
        width == self.output_width && height == self.output_height && format == self.input_pixel
    }

    /// The timestamp given to the previous frame, if any.
    pub fn previous_pts(&self) -> (last: Option<i64>)
        ensures
            last == self.last_pts(),
    {
        self.last_pts
    }

    /// Assigns the timestamp of the next frame. Readbacks may complete with
    /// gaps; the capture-clock timestamp is kept while the order stays
    /// strictly increasing, as encoders require.
    pub fn next_pts(&mut self, pts: i64) -> (assigned: i64)
        requires
            old(self).last_pts() != Some(i64::MAX),
        ensures
            assigned == spec_next_pts(old(self).last_pts(), pts),
            assigned >= pts,
            old(self).last_pts() matches Some(previous) ==> assigned > previous,
            final(self).last_pts() == Some(assigned),
            final(self).selection() == old(self).selection(),
            final(self).spec_input_pixel() == old(self).spec_input_pixel(),
            final(self).spec_output_dimensions() == old(self).spec_output_dimensions(),
    {
        let assigned = match self.last_pts {
            Some(previous) => if pts > previous {
                pts
            } else {
                previous + 1
            },
            None => pts,
        };
        self.last_pts = Some(assigned);
        assigned
    }
}

/// Stage times of one encode call.
#[derive(Clone, Copy, Debug, PartialEq, Eq, Structural)]
pub struct EncodeTiming {
    pub scale_us: u64,
    pub encode_us: u64,
    /// The frame went to the encoder without scaling or conversion.
    pub direct_input: bool,
}

/// What the encoder thread does with its encoder before encoding a frame.
#[derive(Clone, Copy, Debug, PartialEq, Eq)]
pub enum EncoderPlan {
    /// The open encoder fits the frame.
    Keep,
    /// Reopen this candidate for the new output size or input format.
    Reopen(EncoderCandidate),
    /// No encoder yet: probe the candidates of the requested codec.
    Probe,
}

pub open spec fn spec_needs_reconfigure(
    encoder: VideoEncoder,
    output_dimensions: (u32, u32),
    preferred_input: PixelFormat,
) -> bool {
    encoder.spec_output_dimensions() != output_dimensions
        || encoder.selection().input.spec_pixel(preferred_input) != encoder.spec_input_pixel()
}

pub open spec fn spec_plan_encoder(
    current: Option<VideoEncoder>,
    output_dimensions: (u32, u32),
    preferred_input: PixelFormat,
) -> EncoderPlan {
    match current {
        None => EncoderPlan::Probe,
        Some(encoder) => if spec_needs_reconfigure(encoder, output_dimensions, preferred_input) {
            EncoderPlan::Reopen(encoder.selection())
        } else {
            EncoderPlan::Keep
        },
    }
}

/// Once a wire codec is selected, a new output size or capture format
/// reopens that exact candidate; probing again could switch the codec under
/// a connected raw-stream client.
pub fn plan_encoder(
    current: Option<&VideoEncoder>,
    output_dimensions: (u32, u32),
    preferred_input: PixelFormat,
) -> (plan: EncoderPlan)
    ensures
        plan == spec_plan_encoder(
            match current {
                Some(e) => Some(*e),
                None => None,
            },
            output_dimensions,
            preferred_input,
        ),
{
    match current {
        None => EncoderPlan::Probe,
        Some(encoder) => if encoder.needs_reconfigure(output_dimensions, preferred_input) {
            EncoderPlan::Reopen(encoder.selection_candidate())
        } else {
            EncoderPlan::Keep
        },
    }
}

/// Law: a resolution or input change keeps the wire codec. The plan for an
/// open encoder never probes again, and the encoder it reopens is the same
/// candidate, so it encodes the same codec with the same backend.
pub proof fn lemma_reopen_keeps_codec(
    encoder: VideoEncoder,
    output_dimensions: (u32, u32),
    preferred_input: PixelFormat,
)
    ensures
        spec_plan_encoder(Some(encoder), output_dimensions, preferred_input) != EncoderPlan::Probe,
        spec_plan_encoder(Some(encoder), output_dimensions, preferred_input) matches EncoderPlan::Reopen(c)
            ==> c == encoder.selection() && c.codec == encoder.selection().codec,
{
}

/// A freshly opened or reopened encoder starts with a key frame: clients
/// cannot decode a new stream configuration from inter frames.
pub fn opening_forces_keyframe(plan: EncoderPlan) -> (force: bool)
    ensures
        force == (plan != EncoderPlan::Keep),
{
    !matches!(plan, EncoderPlan::Keep)
}

/// The distribution ships under the LGPL: an FFmpeg build whose license
/// string does not begin with `LGPL` (a GPL or nonfree build) is refused.
pub fn is_lgpl_license(license: &[u8]) -> (lgpl: bool)
    ensures
        lgpl == (license@.len() >= 4 && license@.take(4) == seq![0x4cu8, 0x47, 0x50, 0x4c]),
{
    if license.len() < 4 {
        return false;
    }
    let lgpl = license[0] == 0x4c && license[1] == 0x47 && license[2] == 0x50 && license[3] == 0x4c;
    proof {
        if lgpl {
            assert(license@.take(4) =~= seq![0x4cu8, 0x47, 0x50, 0x4c]);
        } else {
            let t = license@.take(4);
            if t == seq![0x4cu8, 0x47, 0x50, 0x4c] {
                assert(t[0] == 0x4c && t[1] == 0x47 && t[2] == 0x50 && t[3] == 0x4c);
            }
        }
    }
    lgpl
}

/// A key frame is still owed after encoding a frame when one was requested
/// and none came out (the encoder skipped the frame or ignored the picture
/// type), or when an access unit was replaced before the sender took it.
pub fn keyframe_still_needed(requested: bool, produced_keyframe: bool, dropped_unit: bool) -> (needed: bool)
    ensures
        needed == ((requested && !produced_keyframe) || dropped_unit),
{
    (requested && !produced_keyframe) || dropped_unit
}

/// One encoded access unit as handed to the network thread.
pub struct AccessUnit {
    pub packets: Vec<Vec<u8>>,
    pub keyframe: bool,
}

pub open spec fn unit_views(v: Seq<AccessUnit>) -> Seq<(Seq<Seq<u8>>, bool)> {
    v.map_values(|u: AccessUnit| (u.packets@.map_values(|p: Vec<u8>| p@), u.keyframe))
}

/// Each encoder packet becomes its own access unit, keeping its own key
/// flag. For H.264 the telemetry SEI rides in front of the last packet, the
/// one produced from the capture being encoded.
pub open spec fn spec_access_units(
    packets: Seq<(Seq<u8>, bool)>,
    codec: StreamCodec,
    sequence: u64,
    capture_unix_us: u64,
) -> Seq<(Seq<Seq<u8>>, bool)> {
    Seq::new(
        packets.len(),
        |i: int|
            (
                if codec == StreamCodec::H264 && i == packets.len() - 1 {
                    seq![spec_telemetry_sei(sequence, capture_unix_us), packets[i].0]
                } else {
                    seq![packets[i].0]
                },
                packets[i].1,
            ),
    )
}

/// Law: each encoder packet becomes exactly one access unit, in order, with
/// its own key flag, and the packet is the unit's last part. Only an H.264
/// stream carries the telemetry SEI, and only in front of its last packet;
/// for any other codec, and for every earlier H.264 packet, the unit is the
/// packet alone.
pub proof fn lemma_access_units_wrap_packets(
    packets: Seq<(Seq<u8>, bool)>,
    codec: StreamCodec,
    sequence: u64,
    capture_unix_us: u64,
)
    ensures
        ({
            let units = spec_access_units(packets, codec, sequence, capture_unix_us);
            &&& units.len() == packets.len()
            &&& forall|i: int|
                0 <= i < packets.len() ==> (#[trigger] units[i]).1 == packets[i].1 && units[i].0.len()
                    >= 1 && units[i].0.last() == packets[i].0
            &&& forall|i: int|
                0 <= i < packets.len() && (codec != StreamCodec::H264 || i + 1 < packets.len())
                    ==> (#[trigger] units[i]).0 == seq![packets[i].0]
            &&& (codec == StreamCodec::H264 && packets.len() > 0) ==> units.last().0 == seq![
                spec_telemetry_sei(sequence, capture_unix_us),
                packets.last().0,
            ]
        }),
{
}

pub fn assemble_access_units(
    packets: Vec<(Vec<u8>, bool)>,
    codec: StreamCodec,
    sequence: u64,
    capture_unix_us: u64,
) -> (units: Vec<AccessUnit>)
    ensures
        unit_views(units@) == spec_access_units(
            packet_views(packets@),
            codec,
            sequence,
            capture_unix_us,
        ),
{
    let ghost all = packet_views(packets@);
    let ghost target = spec_access_units(all, codec, sequence, capture_unix_us);
    let total = packets.len();
    let mut input = packets;
    let mut units: Vec<AccessUnit> = Vec::new();
    let mut index: usize = 0;
    assert(all.skip(0) =~= all);
    while input.len() > 0
        invariant
            target == spec_access_units(all, codec, sequence, capture_unix_us),
            total == all.len(),
            units@.len() == index,
            index + input@.len() == total,
            packet_views(input@) == all.skip(index as int),
            unit_views(units@) == target.take(index as int),
        decreases input@.len(),
    {
        let ghost old_input = input@;
        let (data, is_key) = input.remove(0);
        proof {
            assert(packet_views(old_input)[0] == (data@, is_key));
            assert(all[index as int] == all.skip(index as int)[0]);
            assert(input@ =~= old_input.drop_first());
            assert forall|i: int| 0 <= i < input@.len() implies #[trigger] packet_views(input@)[i]
                == all.skip(index + 1)[i] by {
                assert(packet_views(input@)[i] == packet_views(old_input)[i + 1]);
            }
        }
        let mut access_unit: Vec<Vec<u8>> = Vec::with_capacity(2);
        if matches!(codec, StreamCodec::H264) && index + 1 == total {
            access_unit.push(telemetry_sei(sequence, capture_unix_us));
        }
        access_unit.push(data);
        let ghost before = units@;
        units.push(AccessUnit { packets: access_unit, keyframe: is_key });
        proof {
            assert(packet_views(input@) =~= all.skip(index + 1));
            assert(target[index as int].0 =~= units@[index as int].packets@.map_values(
                |p: Vec<u8>| p@,
            ));
            assert forall|i: int| 0 <= i < units@.len() implies #[trigger] unit_views(units@)[i]
                == target.take(index + 1)[i] by {
                if i < index {
                    assert(units@[i] == before[i]);
                    assert(unit_views(before)[i] == target.take(index as int)[i]);
                }
            }
            assert(unit_views(units@) =~= target.take(index + 1));
        }
        index = units.len();
    }
    assert(target.take(index as int) =~= target);
    units
}

} // verus!
