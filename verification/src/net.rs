//! Delivery decisions of the network threads: parameter-set caching, the
//! key-frame gate for clients, the bootstrap sent to a new client, and UDP
//! datagram splitting.
use crate::annexb::{
    iter_nals, h264_nal_type, hevc_nal_type, spec_h264_nal_type, spec_hevc_nal_type, spec_nals,
    H264_PPS, H264_SPS, HEVC_PPS, HEVC_SPS, HEVC_VPS,
};
use crate::shared::{FrameTimingSample, StreamCodec};
use vstd::prelude::*;
use vstd::slice::slice_to_vec;

verus! {

pub const UDP_PAYLOAD_SIZE: usize = 1_200;

pub open spec fn opt_bytes(o: Option<Vec<u8>>) -> Option<Seq<u8>> {
    match o {
        Some(v) => Some(v@),
        None => None,
    }
}

/// The cached parameter sets, as byte sequences.
pub struct SetsView {
    pub vps: Option<Seq<u8>>,
    pub sps: Option<Seq<u8>>,
    pub pps: Option<Seq<u8>>,
}

pub open spec fn empty_sets() -> SetsView {
    SetsView { vps: None, sps: None, pps: None }
}

/// The cache after seeing one NAL unit of `codec`: an H.264 SPS/PPS or an
/// HEVC VPS/SPS/PPS replaces the cached unit of its kind; anything else, and
/// every unit of the other codecs, leaves the cache unchanged.
pub open spec fn cache_nal(sets: SetsView, nal: Seq<u8>, codec: StreamCodec) -> SetsView {
    match codec {
        StreamCodec::H264 => if spec_h264_nal_type(nal) == Some(H264_SPS) {
            SetsView { sps: Some(nal), ..sets }
        } else if spec_h264_nal_type(nal) == Some(H264_PPS) {
            SetsView { pps: Some(nal), ..sets }
        } else {
            sets
        },
        StreamCodec::Hevc => if spec_hevc_nal_type(nal) == Some(HEVC_VPS) {
            SetsView { vps: Some(nal), ..sets }
        } else if spec_hevc_nal_type(nal) == Some(HEVC_SPS) {
            SetsView { sps: Some(nal), ..sets }
        } else if spec_hevc_nal_type(nal) == Some(HEVC_PPS) {
            SetsView { pps: Some(nal), ..sets }
        } else {
            sets
        },
        _ => sets,
    }
}

/// The cache after seeing `nals` in order.
pub open spec fn cache_nals(sets: SetsView, nals: Seq<Seq<u8>>, codec: StreamCodec) -> SetsView
    decreases nals.len(),
{
    if nals.len() == 0 {
        sets
    } else {
        cache_nal(cache_nals(sets, nals.drop_last(), codec), nals.last(), codec)
    }
}

/// The headers a decoder needs before a key frame, in sending order: VPS,
/// SPS, PPS for HEVC; SPS, PPS for H.264; none for AV1 (its sequence header
/// rides in the key frame) or an unresolved codec. Missing sets are skipped.
pub open spec fn spec_headers(sets: SetsView, codec: StreamCodec) -> Seq<Seq<u8>> {
    let vps = if codec == StreamCodec::Hevc {
        opt_seq(sets.vps)
    } else {
        seq![]
    };
    let rest = if codec == StreamCodec::Hevc || codec == StreamCodec::H264 {
        opt_seq(sets.sps) + opt_seq(sets.pps)
    } else {
        seq![]
    };
    vps + rest
}

pub open spec fn opt_seq(o: Option<Seq<u8>>) -> Seq<Seq<u8>> {
    match o {
        Some(s) => seq![s],
        None => seq![],
    }
}

pub open spec fn slice_views(v: Seq<&[u8]>) -> Seq<Seq<u8>> {
    v.map_values(|s: &[u8]| s@)
}

pub open spec fn vec_views(v: Seq<Vec<u8>>) -> Seq<Seq<u8>> {
    v.map_values(|s: Vec<u8>| s@)
}

/// The most recent parameter sets seen on the stream.
pub struct ParameterSets {
    vps: Option<Vec<u8>>,
    sps: Option<Vec<u8>>,
    pps: Option<Vec<u8>>,
}

impl ParameterSets {
    pub closed spec fn view(&self) -> SetsView {
        SetsView { vps: opt_bytes(self.vps), sps: opt_bytes(self.sps), pps: opt_bytes(self.pps) }
    }

    pub fn new() -> (sets: Self)
        ensures
            sets.view() == empty_sets(),
    {
        Self { vps: None, sps: None, pps: None }
    }

    /// The cached headers for `codec`, in sending order.
    pub fn headers(&self, codec: StreamCodec) -> (headers: Vec<&[u8]>)
        ensures
            slice_views(headers@) == spec_headers(self.view(), codec),
    {
        let mut headers: Vec<&[u8]> = Vec::new();
        let hevc = matches!(codec, StreamCodec::Hevc);
        let h264 = matches!(codec, StreamCodec::H264);
        if hevc {
            if let Some(vps) = &self.vps {
                headers.push(vps.as_slice());
            }
        }
        if hevc || h264 {
            if let Some(sps) = &self.sps {
                headers.push(sps.as_slice());
            }
            if let Some(pps) = &self.pps {
                headers.push(pps.as_slice());
            }
        }
        assert(slice_views(headers@) =~= spec_headers(self.view(), codec));
        headers
    }
}

/// Caches every parameter set found in an Annex-B packet of `codec`.
pub fn update_parameter_sets(packet: &[u8], codec: StreamCodec, sets: &mut ParameterSets)
    ensures
        final(sets).view() == cache_nals(old(sets).view(), spec_nals(packet@), codec),
{
    let nals = iter_nals(packet);
    let ghost all = spec_nals(packet@);
    let mut i: usize = 0;
    while i < nals.len()
        invariant
            i <= nals.len(),
            nals.len() == all.len(),
            forall|k: int| 0 <= k < nals.len() ==> (#[trigger] nals[k])@ == all[k],
            sets.view() == cache_nals(old(sets).view(), all.subrange(0, i as int), codec),
        decreases nals.len() - i,
    {
        let nal = nals[i];
        proof {
            assert(all.subrange(0, i + 1).drop_last() =~= all.subrange(0, i as int));
            assert(nal@ == all[i as int]);
        }
        match codec {
            StreamCodec::H264 => {
                let ty = h264_nal_type(nal);
                if ty == Some(H264_SPS) {
                    sets.sps = Some(slice_to_vec(nal));
                } else if ty == Some(H264_PPS) {
                    sets.pps = Some(slice_to_vec(nal));
                }
            },
            StreamCodec::Hevc => {
                let ty = hevc_nal_type(nal);
                if ty == Some(HEVC_VPS) {
                    sets.vps = Some(slice_to_vec(nal));
                } else if ty == Some(HEVC_SPS) {
                    sets.sps = Some(slice_to_vec(nal));
                } else if ty == Some(HEVC_PPS) {
                    sets.pps = Some(slice_to_vec(nal));
                }
            },
            _ => {},
        }
        i += 1;
    }
    assert(all.subrange(0, nals.len() as int) =~= all);
}

/// The cache after seeing every NAL unit of every packet, in order.
pub open spec fn cache_packets(sets: SetsView, packets: Seq<Seq<u8>>, codec: StreamCodec) -> SetsView
    decreases packets.len(),
{
    if packets.len() == 0 {
        sets
    } else {
        cache_nals(cache_packets(sets, packets.drop_last(), codec), spec_nals(packets.last()), codec)
    }
}

/// What the TCP sender remembers about the stream it relays.
pub struct CacheView {
    pub codec: StreamCodec,
    pub last_sequence: Option<int>,
    pub sets: SetsView,
    pub keyframe: Option<Seq<Seq<u8>>>,
}

/// How the sender treats one encoded frame: whether every client must wait
/// for a key frame again, and whether the frame goes out at all.
#[derive(Clone, Copy, Debug, PartialEq, Eq, Structural)]
pub struct FrameDecision {
    pub hold_clients: bool,
    pub deliver: bool,
}

/// An inter frame whose sequence skips past the last one seen: the frames in
/// between were dropped, so the inter frame may reference pictures no client
/// has.
pub open spec fn is_gap(last: Option<int>, keyframe: bool, sequence: int) -> bool {
    !keyframe && last is Some && sequence > last->0 + 1
}

pub open spec fn reset_for(c: CacheView, codec: StreamCodec) -> CacheView {
    if codec != c.codec {
        CacheView { codec, last_sequence: c.last_sequence, sets: empty_sets(), keyframe: None }
    } else {
        c
    }
}

/// The sender's reaction to a frame. A codec change drops every cached unit
/// and makes clients wait for a key frame. A sequence gap before an inter
/// frame holds all clients and withholds the frame. Otherwise the frame is
/// delivered, its parameter sets are cached, and a key frame becomes the
/// bootstrap for later clients.
pub open spec fn spec_accept_frame(
    c: CacheView,
    packets: Seq<Seq<u8>>,
    codec: StreamCodec,
    keyframe: bool,
    sequence: int,
) -> (CacheView, FrameDecision) {
    let changed = codec != c.codec;
    let c1 = reset_for(c, codec);
    if is_gap(c1.last_sequence, keyframe, sequence) {
        (
            CacheView { last_sequence: Some(sequence), ..c1 },
            FrameDecision { hold_clients: true, deliver: false },
        )
    } else {
        (
            CacheView {
                codec,
                last_sequence: Some(sequence),
                sets: cache_packets(c1.sets, packets, codec),
                keyframe: if keyframe {
                    Some(packets)
                } else {
                    c1.keyframe
                },
            },
            FrameDecision { hold_clients: changed, deliver: true },
        )
    }
}

/// What a newly connected client receives before live frames: the cached
/// headers for the current codec, then the cached key frame's packets.
pub open spec fn spec_bootstrap(c: CacheView, codec: StreamCodec) -> Seq<Seq<u8>> {
    spec_headers(c.sets, codec) + match c.keyframe {
        Some(k) => k,
        None => seq![],
    }
}

pub open spec fn opt_packets(o: Option<Vec<Vec<u8>>>) -> Option<Seq<Seq<u8>>> {
    match o {
        Some(v) => Some(vec_views(v@)),
        None => None,
    }
}

pub open spec fn opt_sequence(o: Option<u64>) -> Option<int> {
    match o {
        Some(v) => Some(v as int),
        None => None,
    }
}

proof fn lemma_vec_views_push(v: Seq<Vec<u8>>, x: Vec<u8>)
    ensures
        vec_views(v.push(x)) == vec_views(v).push(x@),
{
    assert(vec_views(v.push(x)) =~= vec_views(v).push(x@));
}

proof fn lemma_slice_views_push<'a>(v: Seq<&'a [u8]>, x: &'a [u8])
    ensures
        slice_views(v.push(x)) == slice_views(v).push(x@),
{
    assert(slice_views(v.push(x)) =~= slice_views(v).push(x@));
}

proof fn lemma_prefix_push<T>(v: Seq<T>, i: int)
    requires
        0 <= i < v.len(),
    ensures
        v.subrange(0, i + 1) == v.subrange(0, i).push(v[i]),
{
    assert(v.subrange(0, i + 1) =~= v.subrange(0, i).push(v[i]));
}

fn copy_packets(packets: &Vec<Vec<u8>>) -> (copy: Vec<Vec<u8>>)
    ensures
        vec_views(copy@) == vec_views(packets@),
{
    let mut copy: Vec<Vec<u8>> = Vec::new();
    let mut i: usize = 0;
    while i < packets.len()
        invariant
            i <= packets.len(),
            vec_views(copy@) == vec_views(packets@.subrange(0, i as int)),
        decreases packets.len() - i,
    {
        let packet = slice_to_vec(packets[i].as_slice());
        proof {
            lemma_vec_views_push(copy@, packet);
            lemma_vec_views_push(packets@.subrange(0, i as int), packets@[i as int]);
            lemma_prefix_push(packets@, i as int);
        }
        copy.push(packet);
        i += 1;
    }
    assert(packets@.subrange(0, packets.len() as int) =~= packets@);
    copy
}

/// Stream state of the TCP sender.
pub struct StreamCache {
    cached_codec: StreamCodec,
    last_sequence: Option<u64>,
    parameter_sets: ParameterSets,
    last_keyframe: Option<Vec<Vec<u8>>>,
}

impl StreamCache {
    pub closed spec fn view(&self) -> CacheView {
        CacheView {
            codec: self.cached_codec,
            last_sequence: opt_sequence(self.last_sequence),
            sets: self.parameter_sets.view(),
            keyframe: opt_packets(self.last_keyframe),
        }
    }

    pub fn new() -> (cache: Self)
        ensures
            cache.view() == (CacheView {
                codec: StreamCodec::Auto,
                last_sequence: None,
                sets: empty_sets(),
                keyframe: None,
            }),
    {
        Self {
            cached_codec: StreamCodec::Auto,
            last_sequence: None,
            parameter_sets: ParameterSets::new(),
            last_keyframe: None,
        }
    }

    /// Follows the encoder's active codec: a change drops the cached units.
    pub fn sync_codec(&mut self, codec: StreamCodec)
        ensures
            final(self).view() == reset_for(old(self).view(), codec),
    {
        if codec != self.cached_codec {
            self.parameter_sets = ParameterSets::new();
            self.last_keyframe = None;
            self.cached_codec = codec;
        }
    }

    pub fn has_keyframe(&self) -> (cached: bool)
        ensures
            cached == (self.view().keyframe is Some),
    {
        self.last_keyframe.is_some()
    }

    /// Records an encoded frame and decides how clients are served.
    pub fn accept_frame(
        &mut self,
        packets: &Vec<Vec<u8>>,
        codec: StreamCodec,
        keyframe: bool,
        sequence: u64,
    ) -> (decision: FrameDecision)
        ensures
            (final(self).view(), decision) == spec_accept_frame(
                old(self).view(),
                vec_views(packets@),
                codec,
                keyframe,
                sequence as int,
            ),
    {
        let changed = codec != self.cached_codec;
        self.sync_codec(codec);
        let gap = match self.last_sequence {
            Some(last) => !keyframe && sequence > last && sequence - last > 1,
            None => false,
        };
        if gap {
            self.last_sequence = Some(sequence);
            return FrameDecision { hold_clients: true, deliver: false };
        }
        self.last_sequence = Some(sequence);
        let ghost start = self.parameter_sets.view();
        let ghost kept = self.view().keyframe;
        let mut i: usize = 0;
        while i < packets.len()
            invariant
                i <= packets.len(),
                self.view().keyframe == kept,
                self.cached_codec == codec,
                self.last_sequence == Some(sequence),
                self.parameter_sets.view() == cache_packets(
                    start,
                    vec_views(packets@.subrange(0, i as int)),
                    codec,
                ),
            decreases packets.len() - i,
        {
            proof {
                lemma_vec_views_push(packets@.subrange(0, i as int), packets@[i as int]);
                lemma_prefix_push(packets@, i as int);
                let sub = vec_views(packets@.subrange(0, i + 1));
                assert(sub.drop_last() =~= vec_views(packets@.subrange(0, i as int)));
            }
            update_parameter_sets(packets[i].as_slice(), codec, &mut self.parameter_sets);
            i += 1;
        }
        assert(packets@.subrange(0, packets.len() as int) =~= packets@);
        if keyframe {
            self.last_keyframe = Some(copy_packets(packets));
        }
        FrameDecision { hold_clients: changed, deliver: true }
    }

    /// The bytes a newly connected client receives first, in order.
    pub fn bootstrap(&self, codec: StreamCodec) -> (units: Vec<&[u8]>)
        ensures
            slice_views(units@) == spec_bootstrap(self.view(), codec),
    {
        let mut units = self.parameter_sets.headers(codec);
        let ghost headers = slice_views(units@);
        match &self.last_keyframe {
            Some(packets) => {
                let mut i: usize = 0;
                while i < packets.len()
                    invariant
                        i <= packets.len(),
                        slice_views(units@) == headers + vec_views(packets@.subrange(0, i as int)),
                    decreases packets.len() - i,
                {
                    let unit = packets[i].as_slice();
                    proof {
                        lemma_slice_views_push(units@, unit);
                        lemma_vec_views_push(packets@.subrange(0, i as int), packets@[i as int]);
                        lemma_prefix_push(packets@, i as int);
                        assert(headers + vec_views(packets@.subrange(0, i as int)).push(
                            packets@[i as int]@,
                        ) =~= (headers + vec_views(packets@.subrange(0, i as int))).push(
                            packets@[i as int]@,
                        ));
                    }
                    units.push(unit);
                    i += 1;
                }
                assert(packets@.subrange(0, packets.len() as int) =~= packets@);
            },
            None => {
                assert(headers + Seq::<Seq<u8>>::empty() =~= headers);
            },
        }
        units
    }
}

/// Law: a key frame is never withheld, and it becomes the bootstrap. A
/// client connecting after it receives the cached headers of the codec,
/// including any parameter sets the key frame itself carried, and then
/// exactly that key frame.
pub proof fn lemma_keyframe_becomes_bootstrap(
    c: CacheView,
    packets: Seq<Seq<u8>>,
    codec: StreamCodec,
    sequence: int,
)
    ensures
        ({
            let (after, decision) = spec_accept_frame(c, packets, codec, true, sequence);
            &&& decision.deliver
            &&& after.codec == codec
            &&& after.sets == cache_packets(
                if codec != c.codec {
                    empty_sets()
                } else {
                    c.sets
                },
                packets,
                codec,
            )
            &&& spec_bootstrap(after, codec) == spec_headers(after.sets, codec) + packets
        }),
{
}

/// Law: the cached key frame survives inter frames. A frame of the current
/// codec that is not a key frame, whether delivered or withheld after a gap,
/// leaves the cached key frame as it was, so a client joining mid-GOP still
/// receives the last key frame: its bootstrap ends with that key frame's
/// packets.
pub proof fn lemma_inter_frame_keeps_keyframe(c: CacheView, packets: Seq<Seq<u8>>, sequence: int)
    ensures
        spec_accept_frame(c, packets, c.codec, false, sequence).0.keyframe == c.keyframe,
        c.keyframe matches Some(k) ==> ({
            let b = spec_bootstrap(spec_accept_frame(c, packets, c.codec, false, sequence).0, c.codec);
            b.len() >= k.len() && b.skip(b.len() - k.len()) == k
        }),
{
    let after = spec_accept_frame(c, packets, c.codec, false, sequence).0;
    if let Some(k) = c.keyframe {
        let h = spec_headers(after.sets, c.codec);
        let b = spec_bootstrap(after, c.codec);
        assert(b == h + k);
        assert(b.skip(b.len() - k.len()) =~= k);
    }
}

/// Law: headers go out in decoding order. For H.264 the SPS comes before the
/// PPS that refers to it; for HEVC the VPS, then the SPS, then the PPS. Only
/// the cached sets of the codec are sent (an H.264 stream never gets a VPS),
/// and AV1 or an unresolved codec gets none.
pub proof fn lemma_header_order(sets: SetsView)
    ensures
        spec_headers(sets, StreamCodec::H264).len() == (if sets.sps is Some { 1int } else { 0 }) + (
        if sets.pps is Some {
            1int
        } else {
            0
        }),
        sets.sps matches Some(sps) ==> spec_headers(sets, StreamCodec::H264)[0] == sps,
        sets.pps matches Some(pps) ==> spec_headers(sets, StreamCodec::H264).last() == pps,
        spec_headers(sets, StreamCodec::Hevc).len() == (if sets.vps is Some { 1int } else { 0 }) + (
        if sets.sps is Some {
            1int
        } else {
            0
        }) + (if sets.pps is Some {
            1int
        } else {
            0
        }),
        sets.vps matches Some(vps) ==> spec_headers(sets, StreamCodec::Hevc)[0] == vps,
        sets.pps matches Some(pps) ==> spec_headers(sets, StreamCodec::Hevc).last() == pps,
        sets.sps matches Some(sps) ==> spec_headers(sets, StreamCodec::Hevc)[if sets.vps is Some {
            1int
        } else {
            0
        }] == sps,
        spec_headers(sets, StreamCodec::Av1).len() == 0,
        spec_headers(sets, StreamCodec::Auto).len() == 0,
{
    let h = spec_headers(sets, StreamCodec::H264);
    let v = spec_headers(sets, StreamCodec::Hevc);
    assert(h =~= opt_seq(sets.sps) + opt_seq(sets.pps));
    assert(v =~= opt_seq(sets.vps) + (opt_seq(sets.sps) + opt_seq(sets.pps)));
}

/// Key-frame gate of one TCP client.
pub struct ClientGate {
    waiting_for_keyframe: bool,
}

/// One step of a client's gate, assuming the write succeeds (a failed write
/// disconnects the client): a hold makes it wait; a waiting client skips
/// inter frames; a delivered frame it receives ends the wait.
pub open spec fn gate_step(waiting: bool, decision: FrameDecision, keyframe: bool) -> (bool, bool) {
    let w = waiting || decision.hold_clients;
    if !decision.deliver {
        (false, w)
    } else if w && !keyframe {
        (false, w)
    } else {
        (true, false)
    }
}

impl ClientGate {
    pub closed spec fn waiting(&self) -> bool {
        self.waiting_for_keyframe
    }

    /// A new client waits for a live key frame even after its bootstrap, so
    /// inter frames of a newer group of pictures are not sent before it.
    pub fn new() -> (gate: Self)
        ensures
            gate.waiting(),
    {
        Self { waiting_for_keyframe: true }
    }

    pub fn hold(&mut self)
        ensures
            final(self).waiting(),
    {
        self.waiting_for_keyframe = true;
    }

    pub fn should_send(&self, keyframe: bool) -> (send: bool)
        ensures
            send == !(self.waiting() && !keyframe),
    {
        !(self.waiting_for_keyframe && !keyframe)
    }

    /// The frame was written completely.
    pub fn sent(&mut self)
        ensures
            !final(self).waiting(),
    {
        self.waiting_for_keyframe = false;
    }
}

/// A frame as far as the client gate is concerned.
pub struct GateEvent {
    pub decision: FrameDecision,
    pub keyframe: bool,
}

pub open spec fn gate_after(waiting: bool, events: Seq<GateEvent>) -> bool
    decreases events.len(),
{
    if events.len() == 0 {
        waiting
    } else {
        gate_step(gate_after(waiting, events.drop_last()), events.last().decision, events.last().keyframe).1
    }
}

/// Whether the client receives the `j`-th frame.
pub open spec fn gate_receives(waiting: bool, events: Seq<GateEvent>, j: int) -> bool {
    gate_step(gate_after(waiting, events.take(j)), events[j].decision, events[j].keyframe).0
}

/// The client has received a key frame at `i` and no hold happened in
/// `(i, j]`.
pub open spec fn recovered_at(waiting: bool, events: Seq<GateEvent>, i: int, j: int) -> bool {
    &&& 0 <= i <= j
    &&& gate_receives(waiting, events, i)
    &&& events[i].keyframe
    &&& forall|k: int| i < k <= j ==> !(#[trigger] events[k]).decision.hold_clients
}

/// While not waiting, the client has recovered at some key frame since which
/// nothing was held.
proof fn lemma_gate_invariant(events: Seq<GateEvent>, j: int)
    requires
        0 <= j <= events.len(),
    ensures
        !gate_after(true, events.take(j)) ==> exists|i: int| i < j && #[trigger] recovered_at(true, events, i, j - 1),
    decreases j,
{
    if j > 0 {
        lemma_gate_invariant(events, j - 1);
        let prev = events.take(j - 1);
        assert(events.take(j).drop_last() =~= prev);
        assert(events.take(j).last() == events[j - 1]);
        let w = gate_after(true, prev);
        let e = events[j - 1];
        assert(gate_receives(true, events, j - 1) == gate_step(w, e.decision, e.keyframe).0);
        if !gate_after(true, events.take(j)) {
            let step = gate_step(w, e.decision, e.keyframe);
            if step.0 && e.keyframe {
                assert(recovered_at(true, events, j - 1, j - 1));
            } else {
                assert(!w);
                assert(!e.decision.hold_clients);
                let i = choose|i: int| i < j - 1 && #[trigger] recovered_at(true, events, i, j - 2);
                assert forall|k: int| i < k <= j - 1 implies !(#[trigger] events[k]).decision.hold_clients by {
                    if k < j - 1 {
                        assert(recovered_at(true, events, i, j - 2));
                    }
                }
                assert(recovered_at(true, events, i, j - 1));
            }
        }
    }
}

/// Law: recovery happens at a key frame before dependent frames are
/// delivered. A client that connects (waiting) and later receives an inter
/// frame `j` has received a key frame `i < j` with no codec change or dropped
/// frame in between.
pub proof fn lemma_inter_frames_follow_keyframe(events: Seq<GateEvent>, j: int)
    requires
        0 <= j < events.len(),
        gate_receives(true, events, j),
        !events[j].keyframe,
    ensures
        exists|i: int| i < j && #[trigger] recovered_at(true, events, i, j),
{
    lemma_gate_invariant(events, j);
    let w = gate_after(true, events.take(j));
    let e = events[j];
    assert(!w);
    assert(!e.decision.hold_clients);
    let i = choose|i: int| i < j && #[trigger] recovered_at(true, events, i, j - 1);
    assert forall|k: int| i < k <= j implies !(#[trigger] events[k]).decision.hold_clients by {
        if k < j {
            assert(recovered_at(true, events, i, j - 1));
        }
    }
    assert(recovered_at(true, events, i, j));
}

/// Stream state of the UDP sender: parameter sets of the current codec.
pub struct UdpStreamCache {
    cached_codec: StreamCodec,
    parameter_sets: ParameterSets,
}

impl UdpStreamCache {
    pub closed spec fn codec(&self) -> StreamCodec {
        self.cached_codec
    }

    pub closed spec fn sets(&self) -> SetsView {
        self.parameter_sets.view()
    }

    pub fn new() -> (cache: Self)
        ensures
            cache.codec() == StreamCodec::Auto,
            cache.sets() == empty_sets(),
    {
        Self { cached_codec: StreamCodec::Auto, parameter_sets: ParameterSets::new() }
    }

    /// Records a frame's parameter sets; a codec change first drops the
    /// cached ones.
    pub fn accept_frame(&mut self, packets: &Vec<Vec<u8>>, codec: StreamCodec)
        ensures
            final(self).codec() == codec,
            final(self).sets() == cache_packets(
                if codec != old(self).codec() {
                    empty_sets()
                } else {
                    old(self).sets()
                },
                vec_views(packets@),
                codec,
            ),
    {
        if codec != self.cached_codec {
            self.parameter_sets = ParameterSets::new();
            self.cached_codec = codec;
        }
        let ghost start = self.parameter_sets.view();
        let mut i: usize = 0;
        while i < packets.len()
            invariant
                i <= packets.len(),
                self.cached_codec == codec,
                self.parameter_sets.view() == cache_packets(
                    start,
                    vec_views(packets@.subrange(0, i as int)),
                    codec,
                ),
            decreases packets.len() - i,
        {
            proof {
                lemma_vec_views_push(packets@.subrange(0, i as int), packets@[i as int]);
                lemma_prefix_push(packets@, i as int);
                let sub = vec_views(packets@.subrange(0, i + 1));
                assert(sub.drop_last() =~= vec_views(packets@.subrange(0, i as int)));
            }
            update_parameter_sets(packets[i].as_slice(), codec, &mut self.parameter_sets);
            i += 1;
        }
        assert(packets@.subrange(0, packets.len() as int) =~= packets@);
    }

    /// The units of one access unit on the wire: a key frame is preceded by
    /// the cached headers of its codec.
    pub fn access_unit<'a>(&'a self, packets: &'a Vec<Vec<u8>>, codec: StreamCodec, keyframe: bool) -> (units: Vec<&'a [u8]>)
        ensures
            slice_views(units@) == (if keyframe {
                spec_headers(self.sets(), codec)
            } else {
                Seq::<Seq<u8>>::empty()
            }) + vec_views(packets@),
    {
        let mut units: Vec<&[u8]> = if keyframe {
            self.parameter_sets.headers(codec)
        } else {
            Vec::new()
        };
        let ghost headers = slice_views(units@);
        let mut i: usize = 0;
        while i < packets.len()
            invariant
                i <= packets.len(),
                slice_views(units@) == headers + vec_views(packets@.subrange(0, i as int)),
            decreases packets.len() - i,
        {
            let unit = packets[i].as_slice();
            proof {
                lemma_slice_views_push(units@, unit);
                lemma_vec_views_push(packets@.subrange(0, i as int), packets@[i as int]);
                lemma_prefix_push(packets@, i as int);
                assert(headers + vec_views(packets@.subrange(0, i as int)).push(packets@[i as int]@)
                    =~= (headers + vec_views(packets@.subrange(0, i as int))).push(
                    packets@[i as int]@,
                ));
            }
            units.push(unit);
            i += 1;
        }
        assert(packets@.subrange(0, packets.len() as int) =~= packets@);
        proof {
            if !keyframe {
                assert(slice_views(Seq::<&[u8]>::empty()) =~= Seq::<Seq<u8>>::empty());
            }
        }
        units
    }
}

/// Datagram payloads of a byte string: consecutive pieces of
/// `UDP_PAYLOAD_SIZE` bytes, the last one possibly shorter.
pub open spec fn spec_chunks(bytes: Seq<u8>) -> Seq<Seq<u8>>
    decreases bytes.len(),
{
    if bytes.len() == 0 {
        seq![]
    } else if bytes.len() <= UDP_PAYLOAD_SIZE {
        seq![bytes]
    } else {
        seq![bytes.take(UDP_PAYLOAD_SIZE as int)] + spec_chunks(bytes.skip(UDP_PAYLOAD_SIZE as int))
    }
}

/// Splits bytes into datagram payloads without changing them.
pub fn udp_chunks(bytes: &[u8]) -> (chunks: Vec<&[u8]>)
    ensures
        slice_views(chunks@) == spec_chunks(bytes@),
{
    let mut chunks: Vec<&[u8]> = Vec::new();
    let mut start: usize = 0;
    assert(bytes@.skip(0) =~= bytes@);
    assert(slice_views(chunks@) + spec_chunks(bytes@) =~= spec_chunks(bytes@));
    while start < bytes.len()
        invariant
            start <= bytes.len(),
            slice_views(chunks@) + spec_chunks(bytes@.skip(start as int)) == spec_chunks(bytes@),
        decreases bytes.len() - start,
    {
        let remaining = bytes.len() - start;
        let end = if remaining > UDP_PAYLOAD_SIZE {
            start + UDP_PAYLOAD_SIZE
        } else {
            bytes.len()
        };
        let chunk = &bytes[start..end];
        proof {
            let rest = bytes@.skip(start as int);
            lemma_slice_views_push(chunks@, chunk);
            if remaining > UDP_PAYLOAD_SIZE {
                assert(rest.skip(UDP_PAYLOAD_SIZE as int) =~= bytes@.skip(end as int));
            }
            assert(chunk@ =~= if remaining > UDP_PAYLOAD_SIZE {
                rest.take(UDP_PAYLOAD_SIZE as int)
            } else {
                rest
            });
            if remaining <= UDP_PAYLOAD_SIZE {
                assert(bytes@.skip(end as int) =~= Seq::<u8>::empty());
            }
            assert(slice_views(chunks@).push(chunk@) + spec_chunks(bytes@.skip(end as int))
                =~= slice_views(chunks@) + spec_chunks(rest));
        }
        chunks.push(chunk);
        start = end;
    }
    assert(bytes@.skip(start as int) =~= Seq::<u8>::empty());
    assert(slice_views(chunks@) + Seq::<Seq<u8>>::empty() =~= slice_views(chunks@));
    chunks
}

/// Law: splitting into datagrams changes no byte. The payloads concatenate
/// to the input, and none is empty or larger than `UDP_PAYLOAD_SIZE`.
pub proof fn lemma_chunks_preserve_bytes(bytes: Seq<u8>)
    ensures
        spec_chunks(bytes).flatten() == bytes,
        forall|k: int|
            0 <= k < spec_chunks(bytes).len() ==> 0 < (#[trigger] spec_chunks(bytes)[k]).len()
                <= UDP_PAYLOAD_SIZE,
    decreases bytes.len(),
{
    let c = spec_chunks(bytes);
    if bytes.len() == 0 {
    } else if bytes.len() <= UDP_PAYLOAD_SIZE {
        assert(c.drop_first() =~= Seq::<Seq<u8>>::empty());
        assert(c.flatten() == c[0] + c.drop_first().flatten());
        assert(c.flatten() =~= bytes);
    } else {
        let rest = bytes.skip(UDP_PAYLOAD_SIZE as int);
        lemma_chunks_preserve_bytes(rest);
        assert(c.drop_first() =~= spec_chunks(rest));
        assert(c.flatten() == c[0] + c.drop_first().flatten());
        assert(bytes.take(UDP_PAYLOAD_SIZE as int) + rest =~= bytes);
        assert forall|k: int| 0 <= k < c.len() implies 0 < (#[trigger] c[k]).len() <= UDP_PAYLOAD_SIZE by {
            if k > 0 {
                assert(c[k] == spec_chunks(rest)[k - 1]);
            }
        }
    }
}

/// When one captured frame passed each stage, in nanoseconds on the stream's
/// monotonic clock, with the wall-clock capture time in microseconds.
#[derive(Clone, Copy, Debug, PartialEq, Eq, Structural)]
pub struct CaptureTimeline {
    pub capture_unix_us: u64,
    pub post_draw_at: u64,
    pub render_thread_at: u64,
    pub readback_submitted_at: u64,
    pub callback_at: u64,
    pub ready_for_encode_at: u64,
}

/// Whole microseconds from `from` to `to`, zero if `to` is earlier.
pub open spec fn micros_between(from: u64, to: u64) -> u64 {
    if to >= from {
        ((to - from) / 1000) as u64
    } else {
        0
    }
}

pub fn elapsed_us(from: u64, to: u64) -> (us: u64)
    ensures
        us == micros_between(from, to),
{
    to.saturating_sub(from) / 1000
}

/// Encoder-side stage times of a delivered frame.
#[derive(Clone, Copy, Debug, PartialEq, Eq, Structural)]
pub struct EncodeStages {
    pub encode_started_at: u64,
    pub encoded_at: u64,
    pub scale_us: u64,
    pub encode_us: u64,
}

/// Network-side stage times of a delivered frame.
#[derive(Clone, Copy, Debug, PartialEq, Eq, Structural)]
pub struct SendStages {
    pub network_started_at: u64,
    pub write_started: u64,
    pub completed_at: u64,
    pub bytes: u64,
}

/// The latency breakdown recorded for a delivered frame.
pub open spec fn spec_delivery_sample(t: CaptureTimeline, e: EncodeStages, n: SendStages) -> FrameTimingSample {
    FrameTimingSample {
        captured_at: t.post_draw_at,
        completed_at: n.completed_at,
        post_to_render_us: micros_between(t.post_draw_at, t.render_thread_at),
        render_setup_us: micros_between(t.render_thread_at, t.readback_submitted_at),
        readback_wait_us: micros_between(t.readback_submitted_at, t.callback_at),
        callback_copy_us: micros_between(t.callback_at, t.ready_for_encode_at),
        encode_queue_us: micros_between(t.ready_for_encode_at, e.encode_started_at),
        scale_us: e.scale_us,
        encode_us: e.encode_us,
        encoder_stage_us: micros_between(e.encode_started_at, e.encoded_at),
        capture_to_encoded_us: micros_between(t.post_draw_at, e.encoded_at),
        network_queue_us: micros_between(e.encoded_at, n.network_started_at),
        packet_prep_us: micros_between(n.network_started_at, n.write_started),
        socket_write_us: micros_between(n.write_started, n.completed_at),
        total_us: micros_between(t.post_draw_at, n.completed_at),
        frame_bytes: n.bytes,
    }
}

pub fn delivery_sample(t: CaptureTimeline, e: EncodeStages, n: SendStages) -> (sample: FrameTimingSample)
    ensures
        sample == spec_delivery_sample(t, e, n),
{
    FrameTimingSample {
        captured_at: t.post_draw_at,
        completed_at: n.completed_at,
        post_to_render_us: elapsed_us(t.post_draw_at, t.render_thread_at),
        render_setup_us: elapsed_us(t.render_thread_at, t.readback_submitted_at),
        readback_wait_us: elapsed_us(t.readback_submitted_at, t.callback_at),
        callback_copy_us: elapsed_us(t.callback_at, t.ready_for_encode_at),
        encode_queue_us: elapsed_us(t.ready_for_encode_at, e.encode_started_at),
        scale_us: e.scale_us,
        encode_us: e.encode_us,
        encoder_stage_us: elapsed_us(e.encode_started_at, e.encoded_at),
        capture_to_encoded_us: elapsed_us(t.post_draw_at, e.encoded_at),
        network_queue_us: elapsed_us(e.encoded_at, n.network_started_at),
        packet_prep_us: elapsed_us(n.network_started_at, n.write_started),
        socket_write_us: elapsed_us(n.write_started, n.completed_at),
        total_us: elapsed_us(t.post_draw_at, n.completed_at),
        frame_bytes: n.bytes,
    }
}

} // verus!
