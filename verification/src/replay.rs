//! Timing of the replay timeline: the frame range spanned by a set of
//! recording indices, each of which may be empty.  Timestamps are
//! nanoseconds since the epoch on the caller's clock.

use vstd::prelude::*;

verus! {

/// What one non-empty recording index reports: the timestamp of its
/// first frame, and the timestamp and duration of its last frame.
pub struct RecordingIndexTiming {
    pub first_timestamp_ns: u64,
    pub last_timestamp_ns: u64,
    pub last_duration_ns: u64,
}

/// The time span the timeline displays.
pub struct FrameRange {
    pub begin_ns: u64,
    pub end_ns: u64,
}

/// Join the timings of all recording indices into one frame range: the
/// earliest first frame to the latest end of a last frame, or the epoch
/// on both sides where no index has frames.
#[verifier::loop_isolation(false)]
pub fn join_timing(recording_indices: &Vec<Option<RecordingIndexTiming>>) -> (r: FrameRange)
    requires
        forall|i: int|
            0 <= i < recording_indices@.len() && (#[trigger] recording_indices@[i]) is Some
                ==> recording_indices@[i].unwrap().last_timestamp_ns
                + recording_indices@[i].unwrap().last_duration_ns <= u64::MAX,
    ensures
        forall|i: int|
            0 <= i < recording_indices@.len() && (#[trigger] recording_indices@[i]) is Some
                ==> r.begin_ns <= recording_indices@[i].unwrap().first_timestamp_ns,
        forall|i: int|
            0 <= i < recording_indices@.len() && (#[trigger] recording_indices@[i]) is Some
                ==> r.end_ns >= recording_indices@[i].unwrap().last_timestamp_ns
                + recording_indices@[i].unwrap().last_duration_ns,
        (exists|i: int|
            0 <= i < recording_indices@.len() && (#[trigger] recording_indices@[i]) is Some)
            ==> ((exists|i: int|
            0 <= i < recording_indices@.len() && (#[trigger] recording_indices@[i]) is Some
                && r.begin_ns == recording_indices@[i].unwrap().first_timestamp_ns) && (
        exists|i: int|
            0 <= i < recording_indices@.len() && (#[trigger] recording_indices@[i]) is Some
                && r.end_ns == recording_indices@[i].unwrap().last_timestamp_ns
                + recording_indices@[i].unwrap().last_duration_ns)),
        (forall|i: int|
            0 <= i < recording_indices@.len() ==> (#[trigger] recording_indices@[i]) is None)
            ==> r.begin_ns == 0 && r.end_ns == 0,
{
    let n = recording_indices.len();
    let mut begin: Option<u64> = None;
    let mut end: Option<u64> = None;
    let mut i: usize = 0;
    while i < n
        invariant
            i <= n,
            n == recording_indices@.len(),
            match begin {
                Some(b) => (forall|j: int|
                    0 <= j < i && (#[trigger] recording_indices@[j]) is Some ==> b
                        <= recording_indices@[j].unwrap().first_timestamp_ns) && (exists|j: int|
                    0 <= j < i && (#[trigger] recording_indices@[j]) is Some && b
                        == recording_indices@[j].unwrap().first_timestamp_ns),
                None => forall|j: int|
                    0 <= j < i ==> (#[trigger] recording_indices@[j]) is None,
            },
            match end {
                Some(e) => (forall|j: int|
                    0 <= j < i && (#[trigger] recording_indices@[j]) is Some ==> e
                        >= recording_indices@[j].unwrap().last_timestamp_ns
                        + recording_indices@[j].unwrap().last_duration_ns) && (exists|j: int|
                    0 <= j < i && (#[trigger] recording_indices@[j]) is Some && e
                        == recording_indices@[j].unwrap().last_timestamp_ns
                        + recording_indices@[j].unwrap().last_duration_ns),
                None => forall|j: int|
                    0 <= j < i ==> (#[trigger] recording_indices@[j]) is None,
            },
            begin is Some <==> end is Some,
        decreases n - i,
    {
        match &recording_indices[i] {
            Some(timing) => {
                let frame_end = timing.last_timestamp_ns + timing.last_duration_ns;
                begin = Some(
                    match begin {
                        Some(b) => if timing.first_timestamp_ns < b {
                            timing.first_timestamp_ns
                        } else {
                            b
                        },
                        None => timing.first_timestamp_ns,
                    },
                );
                end = Some(
                    match end {
                        Some(e) => if frame_end > e {
                            frame_end
                        } else {
                            e
                        },
                        None => frame_end,
                    },
                );
            },
            None => {},
        }
        i = i + 1;
    }
    match (begin, end) {
        (Some(b), Some(e)) => FrameRange { begin_ns: b, end_ns: e },
        _ => FrameRange { begin_ns: 0, end_ns: 0 },
    }
}

} // verus!
