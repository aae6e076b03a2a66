//! Content delivery framing: the status and byte accounting a
//! response carries, computed exactly from the plan and the file
//! size, and the extraction of a planned range from content. The
//! framing and the served byte count are mutually consistent by
//! construction.

use vstd::prelude::*;
use crate::range::sub_bytes;
use crate::range::ByteRange;
use crate::range::DeliveryPlan;

verus! {

/// The framing metadata of one response: whether it is partial, the
/// file's total size, the served range and the served byte count.
#[derive(Clone, Copy, Debug, PartialEq, Eq, Structural)]
pub struct DeliveryFrame {
    /// Partial content rather than the whole file.
    pub partial: bool,
    /// The file's total size in bytes.
    pub total: u64,
    /// First byte served, inclusive.
    pub start: u64,
    /// Last byte served, inclusive.
    pub end: u64,
    /// Number of bytes served.
    pub count: u64,
}

/// The frame a plan produces for a file of `size` bytes.
pub open spec fn frame_of(plan: DeliveryPlan, size: u64) -> DeliveryFrame {
    match plan {
        DeliveryPlan::Full => DeliveryFrame {
            partial: false,
            total: size,
            start: 0,
            end: if size == 0 {
                0
            } else {
                (size - 1) as u64
            },
            count: size,
        },
        DeliveryPlan::Partial(r) => DeliveryFrame {
            partial: true,
            total: r.total,
            start: r.start,
            end: r.end,
            count: (r.end - r.start + 1) as u64,
        },
    }
}

/// Computes the framing of a response: for a full plan the whole
/// size, for a partial plan the range's bounds and their byte count,
/// all mutually consistent.
pub fn frame_for(plan: &DeliveryPlan, size: u64) -> (f: DeliveryFrame)
    requires
        plan matches DeliveryPlan::Partial(r) ==> r.wf() && r.total == size,
    ensures
        f == frame_of(*plan, size),
        f.total == size,
        f.partial ==> f.start <= f.end < f.total && f.count == f.end - f.start + 1,
        !f.partial ==> f.start == 0 && f.count == size,
{
    match plan {
        DeliveryPlan::Full => DeliveryFrame {
            partial: false,
            total: size,
            start: 0,
            end: if size == 0 {
                0
            } else {
                size - 1
            },
            count: size,
        },
        DeliveryPlan::Partial(r) => DeliveryFrame {
            partial: true,
            total: r.total,
            start: r.start,
            end: r.end,
            count: r.end - r.start + 1,
        },
    }
}

/// Extracts the bytes of a validated range from in-memory content:
/// exactly `end - start + 1` bytes, starting at `start`.
pub fn slice_range(data: &Vec<u8>, r: &ByteRange) -> (out: Vec<u8>)
    requires
        r.wf(),
        r.total == data@.len(),
    ensures
        out@ == data@.subrange(r.start as int, r.end + 1 as int),
        out@.len() == r.end - r.start + 1,
{
    let n = data.len();
    let start: usize = r.start as usize;
    let end_excl: usize = (r.end as usize) + 1;
    proof {
        assert(start == r.start);
        assert(end_excl == r.end + 1);
    }
    sub_bytes(data, start, end_excl)
}

/// Serves content under a plan: the computed frame together with the
/// bytes to stream, which for a partial plan are exactly the planned
/// range and for a full plan the whole content.
pub fn deliver_bytes(data: &Vec<u8>, plan: &DeliveryPlan) -> (r: (DeliveryFrame, Vec<u8>))
    requires
        plan matches DeliveryPlan::Partial(br) ==> br.wf() && br.total == data@.len(),
        data@.len() <= u64::MAX,
    ensures
        r.0 == frame_of(*plan, data@.len() as u64),
        plan is Full ==> r.1@ == data@,
        plan matches DeliveryPlan::Partial(br) ==> r.1@ == data@.subrange(
            br.start as int,
            br.end + 1 as int,
        ),
        r.1@.len() == r.0.count,
{
    let size: u64 = data.len() as u64;
    match plan {
        DeliveryPlan::Full => {
            let copy = crate::bytes::clone_bytes(data);
            let f = frame_for(&DeliveryPlan::Full, size);
            (f, copy)
        },
        DeliveryPlan::Partial(br) => {
            let out = slice_range(data, br);
            let f = frame_for(plan, size);
            (f, out)
        },
    }
}

/// The size of the next bounded chunk of a stream: never more than
/// `cap`, never more than what remains, and positive while both are.
pub fn chunk_len(remaining: u64, cap: u64) -> (r: u64)
    ensures
        r == if remaining < cap {
            remaining
        } else {
            cap
        },
        r <= remaining && r <= cap,
        remaining > 0 && cap > 0 ==> r > 0,
{
    if remaining < cap {
        remaining
    } else {
        cap
    }
}

} // verus!
