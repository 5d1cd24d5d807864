//! Capture-side decisions: when to force a redraw, readback layouts, GPU
//! preprocessing slots, the in-flight gate and capture timestamps.
use crate::le::{le_u32_bytes, push_le_u32};
use crate::shared::{PixelFormat, DOWNSCALE_BUFFER_COUNT, MAX_IN_FLIGHT, VIDEO_TIME_BASE};
use vstd::prelude::*;

verus! {

/// Minimum quiet time before the watchdog forces a redraw. Long enough that
/// an actively rendering game never gets double-drawn, short enough that a
/// client connecting to an idle scene sees a key frame quickly.
pub const FORCED_DRAW_MIN_INTERVAL_US: u64 = 100_000;

pub const IN_FLIGHT_STUCK_TIMEOUT_US: u64 = 500_000;

pub const DOWNSCALE_WORKGROUP_SIZE: u32 = 8;

pub const NV12_PIXELS_PER_INVOCATION_X: u32 = 4;

pub const NV12_PIXELS_PER_INVOCATION_Y: u32 = 2;

pub open spec fn spec_should_force_draw(
    keyframe_pending: bool,
    last_post_draw_us: u64,
    last_forced_draw_us: u64,
    now_us: u64,
) -> bool {
    let last = if last_post_draw_us >= last_forced_draw_us {
        last_post_draw_us
    } else {
        last_forced_draw_us
    };
    keyframe_pending && (if now_us >= last {
        now_us - last
    } else {
        0
    }) >= FORCED_DRAW_MIN_INTERVAL_US
}

/// Godot only emits the post-draw signal for frames it draws, so a pending
/// key-frame request can starve in a static scene. One redraw is forced while
/// a key frame is pending and neither a draw nor a forced draw happened in
/// the last `FORCED_DRAW_MIN_INTERVAL_US`. A timestamp of 0 means "never".
pub fn should_force_draw(
    keyframe_pending: bool,
    last_post_draw_us: u64,
    last_forced_draw_us: u64,
    now_us: u64,
) -> (force: bool)
    ensures
        force == spec_should_force_draw(keyframe_pending, last_post_draw_us, last_forced_draw_us, now_us),
        force ==> keyframe_pending,
        force ==> now_us >= last_forced_draw_us + FORCED_DRAW_MIN_INTERVAL_US,
        force ==> now_us >= last_post_draw_us + FORCED_DRAW_MIN_INTERVAL_US,
{
    if !keyframe_pending {
        return false;
    }
    let last = if last_post_draw_us >= last_forced_draw_us {
        last_post_draw_us
    } else {
        last_forced_draw_us
    };
    now_us.saturating_sub(last) >= FORCED_DRAW_MIN_INTERVAL_US
}

/// `x` rounded up to a multiple of four.
pub open spec fn round_up4(x: int) -> int {
    ((x + 3) / 4) * 4
}

/// NV12 readback layout for an output size: row stride (the width rounded up
/// to four bytes), the chroma plane offset and the total size. Sizes must be
/// even and at least 2; `None` when a value does not fit in `u32`.
pub open spec fn spec_nv12_layout(width: u32, height: u32) -> Option<(u32, u32, u32)> {
    if width < 2 || height < 2 || width % 2 != 0 || height % 2 != 0 {
        None
    } else {
        let stride = round_up4(width as int);
        let uv_offset = stride * height;
        let uv_size = stride * (height / 2);
        if width + 3 > u32::MAX || uv_offset > u32::MAX || uv_size > u32::MAX || uv_offset
            + uv_size > u32::MAX {
            None
        } else {
            Some((stride as u32, uv_offset as u32, (uv_offset + uv_size) as u32))
        }
    }
}

pub fn nv12_layout(width: u32, height: u32) -> (layout: Option<(u32, u32, u32)>)
    ensures
        layout == spec_nv12_layout(width, height),
        layout matches Some((stride, _, _)) ==> stride % 4 == 0 && width <= stride < width + 4,
{
    if width < 2 || height < 2 || width % 2 != 0 || height % 2 != 0 {
        return None;
    }
    let padded = match width.checked_add(3) {
        Some(p) => p,
        None => return None,
    };
    let row_stride = padded & !3u32;
    assert(padded & !3u32 == padded - padded % 4) by (bit_vector);
    assert(row_stride == round_up4(width as int));
    let uv_offset = match row_stride.checked_mul(height) {
        Some(v) => v,
        None => return None,
    };
    let uv_size = match row_stride.checked_mul(height / 2) {
        Some(v) => v,
        None => return None,
    };
    let size_bytes = match uv_offset.checked_add(uv_size) {
        Some(v) => v,
        None => return None,
    };
    Some((row_stride, uv_offset, size_bytes))
}

/// Push constants of the NV12 shader: output width and height, row stride in
/// 32-bit words, and the chroma offset in words, each little-endian.
pub open spec fn spec_push_constants(width: u32, height: u32, row_stride: u32) -> Seq<u8> {
    le_u32_bytes(width) + le_u32_bytes(height) + le_u32_bytes((row_stride / 4) as u32)
        + le_u32_bytes(((row_stride * height) / 4) as u32)
}

pub fn nv12_push_constant_bytes(width: u32, height: u32, row_stride: u32) -> (bytes: Vec<u8>)
    requires
        row_stride * height <= u32::MAX,
    ensures
        bytes@ == spec_push_constants(width, height, row_stride),
{
    let uv_offset = row_stride * height;
    let mut bytes: Vec<u8> = Vec::with_capacity(16);
    push_le_u32(&mut bytes, width);
    push_le_u32(&mut bytes, height);
    push_le_u32(&mut bytes, row_stride / 4);
    push_le_u32(&mut bytes, uv_offset / 4);
    bytes
}

/// Readback layout check. NV12 must have exactly the expected stride and
/// size; packed formats must divide evenly into rows of at least four bytes
/// per pixel. Returns the row stride to use.
pub open spec fn spec_validate_readback_layout(
    format: PixelFormat,
    width: u32,
    height: u32,
    declared_stride: u32,
    len: int,
) -> Option<u32> {
    match format {
        PixelFormat::Nv12 => match spec_nv12_layout(width, height) {
            Some((stride, _, size)) => if declared_stride == stride && len == size {
                Some(stride)
            } else {
                None
            },
            None => None,
        },
        _ => {
            if width * 4 > u32::MAX || height == 0 || len % (height as int) != 0 {
                None
            } else {
                let actual = len / (height as int);
                if actual > u32::MAX || actual < width * 4 {
                    None
                } else {
                    Some(actual as u32)
                }
            }
        },
    }
}

pub fn validate_readback_layout(
    format: PixelFormat,
    width: u32,
    height: u32,
    declared_stride: u32,
    len: usize,
) -> (stride: Option<u32>)
    ensures
        stride == spec_validate_readback_layout(format, width, height, declared_stride, len as int),
{
    match format {
        PixelFormat::Nv12 => {
            match nv12_layout(width, height) {
                Some((expected_stride, _, expected_len)) => {
                    if declared_stride == expected_stride && len == expected_len as usize {
                        Some(expected_stride)
                    } else {
                        None
                    }
                },
                None => None,
            }
        },
        PixelFormat::Rgba8 | PixelFormat::Bgra8 => {
            let bytes_per_pixel: u32 = 4;
            let minimum_stride = match width.checked_mul(bytes_per_pixel) {
                Some(m) => m,
                None => return None,
            };
            if height == 0 || len % (height as usize) != 0 {
                return None;
            }
            let actual = len / (height as usize);
            if actual > u32::MAX as usize {
                return None;
            }
            let actual_stride = actual as u32;
            if actual_stride >= minimum_stride {
                Some(actual_stride)
            } else {
                None
            }
        },
    }
}

/// Capture timestamp in `VIDEO_TIME_BASE` ticks for a time since stream
/// start in nanoseconds, saturating.
pub open spec fn spec_duration_to_pts(nanos: u128) -> i64 {
    let product = if nanos * VIDEO_TIME_BASE > u128::MAX {
        u128::MAX as int
    } else {
        nanos * VIDEO_TIME_BASE
    };
    let ticks = product / 1_000_000_000;
    if ticks > i64::MAX {
        i64::MAX
    } else {
        ticks as i64
    }
}

pub fn duration_to_pts(nanos: u128) -> (pts: i64)
    ensures
        pts == spec_duration_to_pts(nanos),
        pts >= 0,
{
    let product = match nanos.checked_mul(VIDEO_TIME_BASE as u128) {
        Some(p) => p,
        None => u128::MAX,
    };
    let ticks = product / 1_000_000_000;
    if ticks > i64::MAX as u128 {
        i64::MAX
    } else {
        ticks as i64
    }
}

/// RenderingDevice texture formats the capture distinguishes.
#[derive(Clone, Copy, Debug, PartialEq, Eq, Structural)]
pub enum RdTextureFormat {
    R8G8B8A8Unorm,
    R8G8B8A8Srgb,
    B8G8R8A8Unorm,
    B8G8R8A8Srgb,
    Other,
}

pub fn map_rd_format(format: RdTextureFormat) -> (pixel: Option<PixelFormat>)
    ensures
        pixel == (match format {
            RdTextureFormat::R8G8B8A8Unorm | RdTextureFormat::R8G8B8A8Srgb => Some(PixelFormat::Rgba8),
            RdTextureFormat::B8G8R8A8Unorm | RdTextureFormat::B8G8R8A8Srgb => Some(PixelFormat::Bgra8),
            RdTextureFormat::Other => None,
        }),
{
    match format {
        RdTextureFormat::R8G8B8A8Unorm | RdTextureFormat::R8G8B8A8Srgb => Some(PixelFormat::Rgba8),
        RdTextureFormat::B8G8R8A8Unorm | RdTextureFormat::B8G8R8A8Srgb => Some(PixelFormat::Bgra8),
        RdTextureFormat::Other => None,
    }
}

/// Every 8-bit RGBA/BGRA source can be converted on the GPU.
pub fn should_gpu_preprocess(format: RdTextureFormat) -> (gpu: bool)
    ensures
        gpu == (format != RdTextureFormat::Other),
{
    !matches!(format, RdTextureFormat::Other)
}

/// Number of `size`-wide workgroups covering `extent` (rounded up).
pub fn workgroups(extent: u32, size: u32) -> (groups: u32)
    requires
        size > 0,
    ensures
        groups == (extent + size - 1) / (size as int),
{
    let q = extent / size;
    let r = extent % size;
    assert(q + (if r != 0 { 1int } else { 0 }) == (extent + size - 1) / (size as int)
        && q + (if r != 0 { 1int } else { 0 }) <= u32::MAX) by (nonlinear_arith)
        requires
            size > 0,
            q == extent / size,
            r == extent % size,
            extent <= u32::MAX,
    {
        assert(extent == q * size + r);
        assert(0 <= r < size);
        if r != 0 {
            assert((extent + size - 1) == (q + 1) * size + (r - 1));
        } else {
            assert((extent + size - 1) == q * size + (size - 1));
        }
    }
    q + if r != 0 {
        1
    } else {
        0
    }
}

/// Round-robin ownership of the GPU readback buffers: a slot is busy from
/// dispatch until its readback completes.
pub struct SlotRing {
    busy: Vec<bool>,
    next_slot: usize,
}

impl SlotRing {
    pub closed spec fn busy(&self) -> Seq<bool> {
        self.busy@
    }

    pub closed spec fn next(&self) -> int {
        self.next_slot as int
    }

    pub closed spec fn wf(&self) -> bool {
        self.busy@.len() == DOWNSCALE_BUFFER_COUNT && self.next_slot < DOWNSCALE_BUFFER_COUNT
    }

    /// A well-formed ring has one busy flag per readback buffer, and the
    /// slot whose turn it is is one of them.
    pub proof fn lemma_wf_shape(&self)
        requires
            self.wf(),
        ensures
            self.busy().len() == DOWNSCALE_BUFFER_COUNT,
            0 <= self.next() < DOWNSCALE_BUFFER_COUNT,
    {
    }

    pub fn new() -> (ring: Self)
        ensures
            ring.wf(),
            ring.busy() == seq![false, false],
            ring.next() == 0,
    {
        let mut busy: Vec<bool> = Vec::new();
        busy.push(false);
        busy.push(false);
        Self { busy, next_slot: 0 }
    }

    pub fn any_busy(&self) -> (any: bool)
        requires
            self.wf(),
        ensures
            any == (self.busy()[0] || self.busy()[1]),
    {
        self.busy[0] || self.busy[1]
    }

    /// Takes the first free slot starting at the next one in turn, marks it
    /// busy and moves the turn past it.
    pub fn acquire(&mut self) -> (slot: Option<usize>)
        requires
            old(self).wf(),
        ensures
            final(self).wf(),
            final(self).busy().len() == DOWNSCALE_BUFFER_COUNT,
            0 <= final(self).next() < DOWNSCALE_BUFFER_COUNT,
            match slot {
                Some(s) => {
                    &&& s < DOWNSCALE_BUFFER_COUNT
                    &&& !old(self).busy()[s as int]
                    &&& (old(self).busy()[old(self).next()] ==> s != old(self).next())
                    &&& (!old(self).busy()[old(self).next()] ==> s == old(self).next())
                    &&& final(self).busy() == old(self).busy().update(s as int, true)
                    &&& final(self).next() == (s + 1) % (DOWNSCALE_BUFFER_COUNT as int)
                },
                None => {
                    &&& old(self).busy()[0] && old(self).busy()[1]
                    &&& final(self).busy() == old(self).busy()
                    &&& final(self).next() == old(self).next()
                },
            },
    {
        let mut offset: usize = 0;
        while offset < DOWNSCALE_BUFFER_COUNT
            invariant
                self.wf(),
                self.busy@ == old(self).busy@,
                self.next_slot == old(self).next_slot,
                offset <= DOWNSCALE_BUFFER_COUNT,
                forall|o: int|
                    0 <= o < offset ==> #[trigger] self.busy@[(self.next_slot + o) % 2],
            decreases DOWNSCALE_BUFFER_COUNT - offset,
        {
            let slot = (self.next_slot + offset) % DOWNSCALE_BUFFER_COUNT;
            proof {
                if offset > 0 {
                    assert(self.busy@[(self.next_slot + 0) % 2]);
                    assert((self.next_slot + 0) % 2 == self.next_slot);
                }
            }
            if !self.busy[slot] {
                self.busy.set(slot, true);
                self.next_slot = (slot + 1) % DOWNSCALE_BUFFER_COUNT;
                return Some(slot);
            }
            offset += 1;
        }
        assert(self.busy@[(self.next_slot + 0) % 2]);
        assert(self.busy@[(self.next_slot + 1) % 2]);
        None
    }

    /// The readback of `slot` completed; out-of-range slots are ignored.
    pub fn release(&mut self, slot: usize)
        requires
            old(self).wf(),
        ensures
            final(self).wf(),
            final(self).busy().len() == DOWNSCALE_BUFFER_COUNT,
            final(self).next() == old(self).next(),
            final(self).busy() == if slot < DOWNSCALE_BUFFER_COUNT {
                old(self).busy().update(slot as int, false)
            } else {
                old(self).busy()
            },
    {
        if slot < DOWNSCALE_BUFFER_COUNT {
            self.busy.set(slot, false);
        }
    }
}

/// What the GPU preprocessing resources are, as far as planning a dispatch
/// needs to know.
#[derive(Clone, Copy, Debug, PartialEq, Eq, Structural)]
pub enum PreprocessStatus {
    /// Nothing built yet.
    Uninitialized,
    /// Built for an output size; `any_busy` when a readback still uses a slot.
    Ready { output_width: u32, output_height: u32, any_busy: bool },
    /// Building failed or the device lost the resources: read back the source.
    Disabled,
}

/// The first step of a GPU preprocessing dispatch.
#[derive(Clone, Copy, Debug, PartialEq, Eq, Structural)]
pub enum PreprocessPlan {
    /// The resources were built for another size while a readback still
    /// uses them: skip this frame.
    Busy,
    /// Free the resources built for another size, then build new ones.
    Rebuild,
    /// Build resources for this size.
    Build,
    /// Dispatch with the resources that are there.
    Dispatch,
    /// Preprocessing is off: read back the source texture instead.
    Fallback,
}

pub open spec fn spec_plan_preprocess(status: PreprocessStatus, output_width: u32, output_height: u32) -> PreprocessPlan {
    match status {
        PreprocessStatus::Uninitialized => PreprocessPlan::Build,
        PreprocessStatus::Ready { output_width: w, output_height: h, any_busy } => if w
            == output_width && h == output_height {
            PreprocessPlan::Dispatch
        } else if any_busy {
            PreprocessPlan::Busy
        } else {
            PreprocessPlan::Rebuild
        },
        PreprocessStatus::Disabled => PreprocessPlan::Fallback,
    }
}

/// Resources are rebuilt when the output size changes, but never while a
/// readback of the old size is outstanding.
pub fn plan_preprocess(status: PreprocessStatus, output_width: u32, output_height: u32) -> (plan: PreprocessPlan)
    ensures
        plan == spec_plan_preprocess(status, output_width, output_height),
{
    match status {
        PreprocessStatus::Uninitialized => PreprocessPlan::Build,
        PreprocessStatus::Ready { output_width: w, output_height: h, any_busy } => {
            if w == output_width && h == output_height {
                PreprocessPlan::Dispatch
            } else if any_busy {
                PreprocessPlan::Busy
            } else {
                PreprocessPlan::Rebuild
            }
        },
        PreprocessStatus::Disabled => PreprocessPlan::Fallback,
    }
}

/// A frame is captured while a client watches, or while a key frame is
/// requested so the sender can cache a bootstrap key frame even when idle.
pub fn should_capture(client_count: u32, keyframe_pending: bool) -> (capture: bool)
    ensures
        capture == (client_count > 0 || keyframe_pending),
{
    client_count > 0 || keyframe_pending
}

/// The in-flight gate lets a new readback start below `MAX_IN_FLIGHT`.
pub fn in_flight_has_room(in_flight: u32) -> (room: bool)
    ensures
        room == (in_flight < MAX_IN_FLIGHT),
{
    in_flight < MAX_IN_FLIGHT
}

/// A completion lowers the in-flight count, never below zero (a self-heal
/// reset may already have zeroed it).
pub fn finish_in_flight(in_flight: u32) -> (remaining: u32)
    ensures
        remaining == if in_flight == 0 {
            0
        } else {
            in_flight - 1
        },
{
    in_flight.saturating_sub(1)
}

/// What to do when the in-flight gate is full.
#[derive(Clone, Copy, Debug, PartialEq, Eq, Structural)]
pub enum StuckAction {
    /// First saturation: start timing it.
    StartWatch,
    /// Saturated for less than the timeout: keep waiting for completions.
    Wait,
    /// No completion arrived within the timeout: clear the in-flight count and ask for a key frame.
    Recover,
}

/// `stuck_since_us` is the time saturation was first noticed, when it is being timed.
/// Without recovery two lost callbacks would freeze the stream.
pub fn stuck_action(stuck_since_us: Option<u64>, now_us: u64) -> (action: StuckAction)
    ensures
        action == match stuck_since_us {
            None => StuckAction::StartWatch,
            Some(since) => if now_us >= since && now_us - since >= IN_FLIGHT_STUCK_TIMEOUT_US {
                StuckAction::Recover
            } else {
                StuckAction::Wait
            },
        },
{
    match stuck_since_us {
        None => StuckAction::StartWatch,
        Some(since) => if now_us.saturating_sub(since) >= IN_FLIGHT_STUCK_TIMEOUT_US {
            StuckAction::Recover
        } else {
            StuckAction::Wait
        },
    }
}

} // verus!
