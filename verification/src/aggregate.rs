//! The result aggregator: partition a batch outcome into successes and
//! failures, keeping each partition's original order, and compute the
//! batch statistics.

use vstd::prelude::*;
use crate::record::{AudioInfo, AudioProbeError};

verus! {

/// Derived once per batch: counts, the externally measured wall-clock
/// time, and sums over successes only.
pub struct BatchStatistics {
    pub total_files: usize,
    pub successful: usize,
    pub failed: usize,
    pub processing_time_ms: u64,
    pub total_duration_ms: u64,
    pub total_size_bytes: u64,
}

/// The successful records of an outcome sequence, in order.
pub open spec fn successes_of(s: Seq<Result<AudioInfo, AudioProbeError>>) -> Seq<AudioInfo>
    decreases s.len(),
{
    if s.len() == 0 {
        Seq::<AudioInfo>::empty()
    } else {
        successes_of(s.drop_last()) + (match s.last() {
            Ok(rec) => seq![rec],
            Err(_) => Seq::<AudioInfo>::empty(),
        })
    }
}

/// The failures of an outcome sequence, in order.
pub open spec fn failures_of(s: Seq<Result<AudioInfo, AudioProbeError>>) -> Seq<AudioProbeError>
    decreases s.len(),
{
    if s.len() == 0 {
        Seq::<AudioProbeError>::empty()
    } else {
        failures_of(s.drop_last()) + (match s.last() {
            Ok(_) => Seq::<AudioProbeError>::empty(),
            Err(e) => seq![e],
        })
    }
}

/// Sum of the durations of the successful records, in milliseconds.
pub open spec fn sum_duration_ms(s: Seq<Result<AudioInfo, AudioProbeError>>) -> int
    decreases s.len(),
{
    if s.len() == 0 {
        0
    } else {
        sum_duration_ms(s.drop_last()) + (match s.last() {
            Ok(rec) => rec.duration_ms as int,
            Err(_) => 0,
        })
    }
}

/// Sum of the file sizes of the successful records, in bytes.
pub open spec fn sum_size_bytes(s: Seq<Result<AudioInfo, AudioProbeError>>) -> int
    decreases s.len(),
{
    if s.len() == 0 {
        0
    } else {
        sum_size_bytes(s.drop_last()) + (match s.last() {
            Ok(rec) => rec.file_size as int,
            Err(_) => 0,
        })
    }
}

/// `v` clamped to `u64`.
pub open spec fn clamp_u64(v: int) -> int {
    if v > u64::MAX {
        u64::MAX as int
    } else {
        v
    }
}

/// Partition a batch outcome into successes and failures, each in its
/// original order, and derive the statistics: total and per-partition
/// counts, the supplied wall-clock time, and the sums of duration and
/// size over successes only (clamped to `u64`).  Failures contribute
/// to no sum.
pub fn summarize(outcomes: Vec<Result<AudioInfo, AudioProbeError>>, elapsed_ms: u64) -> (r: (
    Vec<AudioInfo>,
    Vec<AudioProbeError>,
    BatchStatistics,
))
    ensures
        r.0@ == successes_of(outcomes@),
        r.1@ == failures_of(outcomes@),
        r.2.total_files == outcomes@.len(),
        r.2.successful == successes_of(outcomes@).len(),
        r.2.failed == failures_of(outcomes@).len(),
        r.2.processing_time_ms == elapsed_ms,
        r.2.total_duration_ms == clamp_u64(sum_duration_ms(outcomes@)),
        r.2.total_size_bytes == clamp_u64(sum_size_bytes(outcomes@)),
{
    let ghost all = outcomes@;
    let total_files = outcomes.len();
    let mut successes: Vec<AudioInfo> = Vec::new();
    let mut failures: Vec<AudioProbeError> = Vec::new();
    let mut total_duration_ms: u64 = 0;
    let mut total_size_bytes: u64 = 0;
    let mut rest = outcomes;
    let mut i: usize = 0;
    proof {
        assert(all.take(0) =~= Seq::<Result<AudioInfo, AudioProbeError>>::empty());
        assert(rest@ =~= all.skip(0));
    }
    while rest.len() > 0
        invariant
            all.len() == total_files,
            i <= all.len(),
            i + rest@.len() == all.len(),
            rest@ == all.skip(i as int),
            successes@ == successes_of(all.take(i as int)),
            failures@ == failures_of(all.take(i as int)),
            total_duration_ms == clamp_u64(sum_duration_ms(all.take(i as int))),
            total_size_bytes == clamp_u64(sum_size_bytes(all.take(i as int))),
        decreases rest@.len(),
    {
        proof {
            assert(rest@[0] == all[i as int]);
            assert(all.take(i as int + 1).drop_last() =~= all.take(i as int));
            assert(all.take(i as int + 1).last() == all[i as int]);
        }
        let outcome = rest.remove(0);
        match outcome {
            Ok(rec) => {
                total_duration_ms = total_duration_ms.saturating_add(rec.duration_ms);
                total_size_bytes = total_size_bytes.saturating_add(rec.file_size);
                successes.push(rec);
            },
            Err(e) => {
                failures.push(e);
            },
        }
        i = i + 1;
        proof {
            assert(rest@ =~= all.skip(i as int));
        }
    }
    proof {
        assert(all.take(all.len() as int) =~= all);
    }
    let successful = successes.len();
    let failed = failures.len();
    let stats = BatchStatistics {
        total_files,
        successful,
        failed,
        processing_time_ms: elapsed_ms,
        total_duration_ms,
        total_size_bytes,
    };
    (successes, failures, stats)
}

} // verus!
