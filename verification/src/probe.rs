//! The metadata resolver and the batch scheduler: one record or typed
//! failure per target, never more than the configured number of
//! resolutions admitted at once.

use vstd::prelude::*;
use crate::estimate::{
    est_bit_rate,
    est_codec_long,
    est_codec_name,
    est_duration_ms,
    est_format_long,
    fallback_analysis,
};
use crate::gate::AdmissionGate;
use crate::probe_data::{FFProbeOutput, analyze_with_probe, probe_fields_ok, probe_tag_result};
use crate::record::{AudioInfo, AudioProbeError, spec_backfill};
use crate::text::{lower_seq, spec_extension, spec_stem, upper_seq};

verus! {

/// Everything the resolver needs to know about one target: the facts
/// that only the file system and the probe tool can report, gathered by
/// the caller, as plain values.
pub struct ResolveInput {
    /// The target path.
    pub path: String,
    /// Whether the path exists at resolution time.
    pub exists: bool,
    /// The stat size in bytes; 0 when the stat was not permitted.
    pub file_size: u64,
    /// The parsed probe document; `None` when the tool failed or was
    /// never run.
    pub probe: Option<FFProbeOutput>,
    /// Wall-clock time spent on this target, in milliseconds.
    pub elapsed_ms: u64,
}

/// The fields an estimated record carries: the extension table entry of
/// the path (or a blank one without an extension), and the duration
/// estimated from file size and assumed bit-rate.
pub open spec fn estimate_fields_ok(path: String, file_size: u64, r: AudioInfo) -> bool {
    &&& r.file_path == path
    &&& r.file_size == file_size
    &&& !r.has_video
    &&& match spec_extension(path@) {
        Some(e) => {
            let le = lower_seq(e);
            let ue = upper_seq(e);
            &&& r.format_name@ == le
            &&& r.codec_name@ == est_codec_name(le)
            &&& r.codec_long_name@ == est_codec_long(le, ue)
            &&& r.format_long_name@ == est_format_long(le, ue)
            &&& r.sample_rate == 44100
            &&& r.channels == 2
            &&& r.bit_rate == est_bit_rate(le, 0)
        },
        None => {
            &&& r.format_name@ == Seq::<char>::empty()
            &&& r.codec_name@ == Seq::<char>::empty()
            &&& r.codec_long_name@ == Seq::<char>::empty()
            &&& r.format_long_name@ == Seq::<char>::empty()
            &&& r.sample_rate == 0
            &&& r.channels == 0
            &&& r.bit_rate == 0
        },
    }
    &&& r.duration_ms == est_duration_ms(file_size as nat, r.bit_rate as int)
}

/// The resolver's whole contract, shared by `analyze_file` and
/// `process_files`: a missing target fails with `FileNotFound` and
/// nothing else fails; an existing target yields a record that is
/// tool-derived when a probe document is in hand, estimated otherwise,
/// with the default tags back-filled and the elapsed time recorded.
pub open spec fn resolution_ok(
    use_ffprobe: bool,
    input: ResolveInput,
    r: Result<AudioInfo, AudioProbeError>,
) -> bool {
    match r {
        Err(e) => !input.exists && e == (AudioProbeError::FileNotFound { path: input.path }),
        Ok(rec) => {
            &&& input.exists
            &&& rec.well_formed()
            &&& rec.processing_time_ms == input.elapsed_ms
            &&& match input.probe {
                Some(p) => if use_ffprobe {
                    &&& probe_fields_ok(input.path, input.file_size, p, rec)
                    &&& rec.metadata.view_seq() == spec_backfill(
                        probe_tag_result(p),
                        spec_stem(input.path@),
                    )
                } else {
                    &&& estimate_fields_ok(input.path, input.file_size, rec)
                    &&& rec.metadata.view_seq() == spec_backfill(
                        Seq::<(Seq<char>, Seq<char>)>::empty(),
                        spec_stem(input.path@),
                    )
                },
                None => {
                    &&& estimate_fields_ok(input.path, input.file_size, rec)
                    &&& rec.metadata.view_seq() == spec_backfill(
                        Seq::<(Seq<char>, Seq<char>)>::empty(),
                        spec_stem(input.path@),
                    )
                },
            }
        },
    }
}

/// The batch front end: a concurrency limit and the probe-tool
/// availability, fixed at construction.
#[derive(Clone, Copy)]
pub struct AudioProbe {
    max_concurrent: usize,
    use_ffprobe: bool,
}

impl AudioProbe {
    /// The configured limit is positive.
    pub closed spec fn wf(self) -> bool {
        self.max_concurrent >= 1
    }

    pub closed spec fn spec_max_concurrent(self) -> int {
        self.max_concurrent as int
    }

    pub closed spec fn spec_use_ffprobe(self) -> bool {
        self.use_ffprobe
    }

    /// A front end admitting at most `max_concurrent` resolutions at
    /// once; `use_ffprobe` says whether the probe tool answered a
    /// version query.
    pub fn new(max_concurrent: usize, use_ffprobe: bool) -> (p: AudioProbe)
        requires
            max_concurrent >= 1,
        ensures
            p.wf(),
            p.spec_max_concurrent() == max_concurrent,
            p.spec_use_ffprobe() == use_ffprobe,
    {
        AudioProbe { max_concurrent, use_ffprobe }
    }

    pub fn max_concurrent(&self) -> (n: usize)
        ensures
            n == self.spec_max_concurrent(),
    {
        self.max_concurrent
    }

    pub fn uses_ffprobe(&self) -> (b: bool)
        ensures
            b == self.spec_use_ffprobe(),
    {
        self.use_ffprobe
    }

    /// Resolve one target from the gathered facts.  Only a missing
    /// path is an error; every other adverse condition has already
    /// degraded into `probe: None` and becomes an estimated record.
    pub fn analyze_file(&self, input: ResolveInput) -> (r: Result<AudioInfo, AudioProbeError>)
        ensures
            resolution_ok(self.spec_use_ffprobe(), input, r),
    {
        if !input.exists {
            return Err(AudioProbeError::FileNotFound { path: input.path });
        }
        let ResolveInput { path, exists: _, file_size, probe, elapsed_ms } = input;
        let mut rec = if self.use_ffprobe && probe.is_some() {
            let p = match &probe {
                Some(p) => p,
                None => unreached(),
            };
            analyze_with_probe(path, file_size, p)
        } else {
            let mut base = AudioInfo::new(path);
            base.file_size = file_size;
            fallback_analysis(&mut base);
            base
        };
        rec.backfill_tags();
        rec.processing_time_ms = elapsed_ms;
        Ok(rec)
    }

    /// Fan the targets out through a fresh admission gate sized at the
    /// configured limit: one outcome per target, in target order, each
    /// resolved under a held permit, every permit returned.
    pub fn process_files(&self, inputs: Vec<ResolveInput>) -> (results: Vec<
        Result<AudioInfo, AudioProbeError>,
    >)
        requires
            self.wf(),
        ensures
            results@.len() == inputs@.len(),
            forall|i: int|
                0 <= i < results@.len() ==> resolution_ok(
                    self.spec_use_ffprobe(),
                    inputs@[i],
                    results@[i],
                ),
    {
        let ghost inputs0 = inputs@;
        let mut gate = AdmissionGate::new(self.max_concurrent);
        let mut results: Vec<Result<AudioInfo, AudioProbeError>> = Vec::new();
        let mut rest = inputs;
        proof {
            assert(rest@ =~= inputs0.skip(0));
        }
        while rest.len() > 0
            invariant
                self.wf(),
                results@.len() + rest@.len() == inputs0.len(),
                rest@ == inputs0.skip(results@.len() as int),
                gate.wf(),
                gate.spec_limit() == self.spec_max_concurrent(),
                gate.spec_available() == gate.spec_limit(),
                gate.spec_held() == 0,
                forall|i: int|
                    0 <= i < results@.len() ==> resolution_ok(
                        self.spec_use_ffprobe(),
                        inputs0[i],
                        results@[i],
                    ),
            decreases rest@.len(),
        {
            let ghost k = results@.len() as int;
            proof {
                assert(rest@[0] == inputs0[k]);
            }
            let input = rest.remove(0);
            gate.acquire();
            let r = self.analyze_file(input);
            gate.release();
            results.push(r);
            proof {
                assert(rest@ =~= inputs0.skip(results@.len() as int));
            }
        }
        results
    }
}

} // verus!
