//! Annex-B NAL helpers for H.264 and HEVC parameter-set caching.
use vstd::prelude::*;

verus! {

pub const H264_SPS: u8 = 7;

pub const H264_PPS: u8 = 8;

pub const HEVC_VPS: u8 = 32;

pub const HEVC_SPS: u8 = 33;

pub const HEVC_PPS: u8 = 34;

/// `00 00 01` at `i`.
pub open spec fn three_byte_start_at(data: Seq<u8>, i: int) -> bool {
    data[i] == 0 && data[i + 1] == 0 && data[i + 2] == 1
}

/// `00 00 00 01` at `i`.
pub open spec fn four_byte_start_at(data: Seq<u8>, i: int) -> bool {
    data[i] == 0 && data[i + 1] == 0 && data[i + 2] == 0 && data[i + 3] == 1
}

/// Positions of the start codes found by a left-to-right scan from `index`.
/// A scan position is only examined while four bytes remain; a matched start
/// code is skipped as a whole, so start codes never overlap.
pub open spec fn start_codes_from(data: Seq<u8>, index: int) -> Seq<int>
    decreases data.len() - index,
{
    if index + 3 >= data.len() {
        seq![]
    } else if three_byte_start_at(data, index) {
        seq![index] + start_codes_from(data, index + 3)
    } else if four_byte_start_at(data, index) {
        seq![index] + start_codes_from(data, index + 4)
    } else {
        start_codes_from(data, index + 1)
    }
}

pub open spec fn start_codes(data: Seq<u8>) -> Seq<int> {
    start_codes_from(data, 0)
}

/// End of the `k`-th unit: the next start code, or the end of the data.
pub open spec fn unit_end(starts: Seq<int>, k: int, len: int) -> int {
    if k + 1 < starts.len() {
        starts[k + 1]
    } else {
        len
    }
}

/// The NAL units of `data`: each runs from its start code (included) to the
/// next start code or the end of the data. Bytes before the first start code
/// belong to no unit.
pub open spec fn spec_nals(data: Seq<u8>) -> Seq<Seq<u8>> {
    let starts = start_codes(data);
    Seq::new(starts.len(), |k: int| data.subrange(starts[k], unit_end(starts, k, data.len() as int)))
}

/// Every start code found from `index` lies in `[index, len - 3)`, and the
/// positions strictly increase.
pub proof fn lemma_start_codes_bounds(data: Seq<u8>, index: int)
    requires
        0 <= index,
    ensures
        forall|k: int|
            0 <= k < start_codes_from(data, index).len() ==> index <= #[trigger] start_codes_from(
                data,
                index,
            )[k] && start_codes_from(data, index)[k] + 3 < data.len(),
        forall|j: int, k: int|
            0 <= j < k < start_codes_from(data, index).len() ==> #[trigger] start_codes_from(
                data,
                index,
            )[j] < #[trigger] start_codes_from(data, index)[k],
    decreases data.len() - index,
{
    let all = start_codes_from(data, index);
    if index + 3 >= data.len() {
    } else if three_byte_start_at(data, index) || four_byte_start_at(data, index) {
        let step: int = if three_byte_start_at(data, index) {
            3
        } else {
            4
        };
        let rest = start_codes_from(data, index + step);
        lemma_start_codes_bounds(data, index + step);
        assert(all =~= seq![index] + rest);
        assert forall|k: int| 0 < k < all.len() implies #[trigger] all[k] == rest[k - 1] by {}
        assert forall|k: int| 0 <= k < all.len() implies index <= #[trigger] all[k] && all[k] + 3
            < data.len() by {
            if k > 0 {
                assert(all[k] == rest[k - 1]);
            }
        }
        assert forall|j: int, k: int| 0 <= j < k < all.len() implies #[trigger] all[j]
            < #[trigger] all[k] by {
            assert(all[k] == rest[k - 1]);
            if j > 0 {
                assert(all[j] == rest[j - 1]);
            }
        }
    } else {
        lemma_start_codes_bounds(data, index + 1);
        assert(all == start_codes_from(data, index + 1));
    }
}

/// Splits an Annex-B byte stream into its NAL units, each including its start
/// code.
pub fn iter_nals(data: &[u8]) -> (nals: Vec<&[u8]>)
    ensures
        nals.len() == spec_nals(data@).len(),
        forall|k: int| 0 <= k < nals.len() ==> (#[trigger] nals[k])@ == spec_nals(data@)[k],
{
    let mut starts: Vec<usize> = Vec::new();
    let mut index: usize = 0;
    while data.len() - index > 3
        invariant
            index <= data.len(),
            start_codes(data@) == starts@.map_values(|s: usize| s as int) + start_codes_from(
                data@,
                index as int,
            ),
        decreases data.len() - index,
    {
        if data[index] == 0 && data[index + 1] == 0 {
            if data[index + 2] == 1 {
                proof {
                    assert(starts@.push(index).map_values(|s: usize| s as int) =~= starts@.map_values(
                        |s: usize| s as int,
                    ).push(index as int));
                }
                starts.push(index);
                index += 3;
                continue;
            }
            if data[index + 2] == 0 && data[index + 3] == 1 {
                proof {
                    assert(starts@.push(index).map_values(|s: usize| s as int) =~= starts@.map_values(
                        |s: usize| s as int,
                    ).push(index as int));
                }
                starts.push(index);
                index += 4;
                continue;
            }
        }
        index += 1;
    }
    let ghost all = start_codes(data@);
    proof {
        assert(all =~= starts@.map_values(|s: usize| s as int));
        lemma_start_codes_bounds(data@, 0);
    }

    let mut nals: Vec<&[u8]> = Vec::new();
    let mut k: usize = 0;
    while k < starts.len()
        invariant
            k <= starts.len(),
            all == starts@.map_values(|s: usize| s as int),
            all == start_codes(data@),
            nals.len() == k,
            forall|i: int|
                0 <= i < all.len() ==> 0 <= #[trigger] all[i] && all[i] + 3 < data@.len(),
            forall|i: int, j: int| 0 <= i < j < all.len() ==> #[trigger] all[i] < #[trigger] all[j],
            forall|i: int| 0 <= i < k ==> (#[trigger] nals[i])@ == spec_nals(data@)[i],
        decreases starts.len() - k,
    {
        let start = starts[k];
        let end = if k + 1 < starts.len() {
            starts[k + 1]
        } else {
            data.len()
        };
        proof {
            assert(all[k as int] == start);
            if k + 1 < starts.len() {
                assert(all[k + 1] == end);
                assert(all[k as int] < all[k + 1]);
            }
        }
        nals.push(&data[start..end]);
        k += 1;
    }
    nals
}

/// The bytes that follow the unit's start code; empty when the unit does not
/// begin with a start code.
pub open spec fn spec_nal_payload(nal: Seq<u8>) -> Seq<u8> {
    if nal.len() >= 4 && nal[0] == 0 && nal[1] == 0 && nal[2] == 0 && nal[3] == 1 {
        nal.skip(4)
    } else if nal.len() >= 3 && nal[0] == 0 && nal[1] == 0 && nal[2] == 1 {
        nal.skip(3)
    } else {
        seq![]
    }
}

/// The first payload byte (the NAL header), if any.
pub open spec fn spec_nal_header(nal: Seq<u8>) -> Option<u8> {
    if spec_nal_payload(nal).len() > 0 {
        Some(spec_nal_payload(nal)[0])
    } else {
        None
    }
}

pub open spec fn spec_h264_nal_type(nal: Seq<u8>) -> Option<u8> {
    match spec_nal_header(nal) {
        Some(byte) => Some(byte & 0x1f),
        None => None,
    }
}

pub open spec fn spec_hevc_nal_type(nal: Seq<u8>) -> Option<u8> {
    match spec_nal_header(nal) {
        Some(byte) => Some((byte >> 1u8) & 0x3f),
        None => None,
    }
}

/// H.264 `nal_unit_type`: the low five bits of the NAL header.
pub fn h264_nal_type(nal: &[u8]) -> (ty: Option<u8>)
    ensures
        ty == spec_h264_nal_type(nal@),
{
    let payload = nal_payload(nal);
    if payload.len() > 0 {
        Some(payload[0] & 0x1f)
    } else {
        None
    }
}

/// HEVC `nal_unit_type`: bits 1..=6 of the first NAL header byte.
pub fn hevc_nal_type(nal: &[u8]) -> (ty: Option<u8>)
    ensures
        ty == spec_hevc_nal_type(nal@),
{
    let payload = nal_payload(nal);
    if payload.len() > 0 {
        Some((payload[0] >> 1u8) & 0x3f)
    } else {
        None
    }
}

fn nal_payload(nal: &[u8]) -> (payload: &[u8])
    ensures
        payload@ == spec_nal_payload(nal@),
{
    if nal.len() >= 4 && nal[0] == 0 && nal[1] == 0 && nal[2] == 0 && nal[3] == 1 {
        &nal[4..nal.len()]
    } else if nal.len() >= 3 && nal[0] == 0 && nal[1] == 0 && nal[2] == 1 {
        &nal[3..nal.len()]
    } else {
        &nal[0..0]
    }
}

} // verus!
