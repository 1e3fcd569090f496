//! Bounded-concurrency audio-file inspector library.
//!
//! Given facts about one file (its path, whether it exists, its size, and
//! optionally the structured output of an external probe tool), the library
//! produces a metadata record, either tool-derived or estimated from the
//! file extension.  A batch driver fans a list of such inputs through a
//! counting admission gate and collects one outcome per input; an
//! aggregator partitions the outcomes and computes batch statistics.

pub mod aggregate;
pub mod codec;
pub mod estimate;
pub mod format;
pub mod gate;
pub mod probe;
pub mod probe_data;
pub mod record;
pub mod tags;
pub mod text;

pub use aggregate::BatchStatistics;
pub use aggregate::summarize;
pub use estimate::is_audio_path;
pub use codec::record_from_json;
pub use codec::record_to_json;
pub use format::format_bitrate;
pub use format::format_bytes;
pub use format::format_duration;
pub use gate::AdmissionGate;
pub use probe::AudioProbe;
pub use probe::ResolveInput;
pub use probe_data::FFProbeFormat;
pub use probe_data::FFProbeOutput;
pub use probe_data::FFProbeStream;
pub use record::AudioInfo;
pub use record::AudioProbeError;
pub use tags::Tags;
