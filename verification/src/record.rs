//! The per-file outcome types: the metadata record of a successfully
//! resolved file, and the failure taxonomy.

use vstd::prelude::*;
use vstd::string::*;
use crate::tags::{Tags, spec_fill_absent, lookup};
use crate::text::{spec_stem, stem_of};

verus! {

/// Why resolving one target failed, or what an inner probe step
/// reported before the resolver degraded to estimation.  Only
/// `FileNotFound` ever crosses the resolver boundary as an error.
#[derive(Debug, Clone)]
pub enum AudioProbeError {
    FileNotFound { path: String },
    InvalidAudioFile { path: String, reason: String },
    FFprobeNotFound,
    FFprobeError(String),
    Io(String),
    Processing(String),
}

impl AudioProbeError {
    /// A human-readable description, in place of `Display`.
    pub fn message(&self) -> (r: String)
        ensures
            r@ == match self {
                AudioProbeError::FileNotFound { path } => "File not found: "@ + path@,
                AudioProbeError::InvalidAudioFile { path, reason } => "Invalid audio file: "@
                    + path@ + " - "@ + reason@,
                AudioProbeError::FFprobeNotFound => "FFprobe not found. Please install FFmpeg."@,
                AudioProbeError::FFprobeError(msg) => "FFprobe execution error: "@ + msg@,
                AudioProbeError::Io(msg) => "I/O error: "@ + msg@,
                AudioProbeError::Processing(msg) => "Processing error: "@ + msg@,
            },
    {
        match self {
            AudioProbeError::FileNotFound { path } => String::from_str("File not found: ").concat(
                path.as_str(),
            ),
            AudioProbeError::InvalidAudioFile { path, reason } => String::from_str(
                "Invalid audio file: ",
            ).concat(path.as_str()).concat(" - ").concat(reason.as_str()),
            AudioProbeError::FFprobeNotFound => String::from_str(
                "FFprobe not found. Please install FFmpeg.",
            ),
            AudioProbeError::FFprobeError(msg) => String::from_str("FFprobe execution error: ")
                .concat(msg.as_str()),
            AudioProbeError::Io(msg) => String::from_str("I/O error: ").concat(msg.as_str()),
            AudioProbeError::Processing(msg) => String::from_str("Processing error: ").concat(
                msg.as_str(),
            ),
        }
    }
}

/// Technical metadata of one audio file.  Durations are whole
/// milliseconds; a bit-rate, sample-rate or channel count of 0 means
/// unknown.
#[derive(Debug, Clone)]
pub struct AudioInfo {
    pub file_path: String,
    pub file_size: u64,
    pub duration_ms: u64,
    pub bit_rate: i64,
    pub sample_rate: i32,
    pub channels: i32,
    pub codec_name: String,
    pub codec_long_name: String,
    pub format_name: String,
    pub format_long_name: String,
    pub has_video: bool,
    pub metadata: Tags,
    pub processing_time_ms: u64,
}

/// What back-filling the default tags does to a tag-pair sequence:
/// `title` (the path's stem), `artist` and `album` are appended when
/// absent, in that order; present tags are never overwritten.
pub open spec fn spec_backfill(
    s: Seq<(Seq<char>, Seq<char>)>,
    stem: Seq<char>,
) -> Seq<(Seq<char>, Seq<char>)> {
    spec_fill_absent(
        spec_fill_absent(spec_fill_absent(s, "title"@, stem), "artist"@, "Unknown Artist"@),
        "album"@,
        "Unknown Album"@,
    )
}

impl AudioInfo {
    /// Counts are nonnegative and the tag keys are unique.
    pub open spec fn well_formed(self) -> bool {
        &&& self.bit_rate >= 0
        &&& self.sample_rate >= 0
        &&& self.channels >= 0
        &&& self.metadata.wf()
    }

    /// A blank record for `file_path`: every numeric field 0, every
    /// string empty, no video, no tags.
    pub fn new(file_path: String) -> (r: AudioInfo)
        ensures
            r.well_formed(),
            r.file_path == file_path,
            r.file_size == 0,
            r.duration_ms == 0,
            r.bit_rate == 0,
            r.sample_rate == 0,
            r.channels == 0,
            r.codec_name@ == Seq::<char>::empty(),
            r.codec_long_name@ == Seq::<char>::empty(),
            r.format_name@ == Seq::<char>::empty(),
            r.format_long_name@ == Seq::<char>::empty(),
            !r.has_video,
            r.metadata.view_seq() == Seq::<(Seq<char>, Seq<char>)>::empty(),
            r.processing_time_ms == 0,
    {
        AudioInfo {
            file_path,
            file_size: 0,
            duration_ms: 0,
            bit_rate: 0,
            sample_rate: 0,
            channels: 0,
            codec_name: String::new(),
            codec_long_name: String::new(),
            format_name: String::new(),
            format_long_name: String::new(),
            has_video: false,
            metadata: Tags::new(),
            processing_time_ms: 0,
        }
    }

    /// Back-fill the default tags: `title` from the file's stem,
    /// `artist` and `album` from fixed labels, each only when absent.
    pub fn backfill_tags(&mut self)
        requires
            old(self).metadata.wf(),
        ensures
            final(self).metadata.wf(),
            final(self).metadata.view_seq() == spec_backfill(
                old(self).metadata.view_seq(),
                spec_stem(old(self).file_path@),
            ),
            *final(self) == (AudioInfo { metadata: final(self).metadata, ..*old(self) }),
    {
        let stem = stem_of(self.file_path.as_str());
        self.metadata.fill_absent(String::from_str("title"), stem);
        self.metadata.fill_absent(
            String::from_str("artist"),
            String::from_str("Unknown Artist"),
        );
        self.metadata.fill_absent(String::from_str("album"), String::from_str("Unknown Album"));
    }
}

/// Looking a key up after appending a pair finds an earlier binding
/// first, the new pair only for its own, previously absent, key.
proof fn lemma_lookup_push(
    s: Seq<(Seq<char>, Seq<char>)>,
    k: Seq<char>,
    v: Seq<char>,
    k2: Seq<char>,
)
    ensures
        lookup(s.push((k, v)), k2) == (if lookup(s, k2) is Some {
            lookup(s, k2)
        } else if k2 == k {
            Some(v)
        } else {
            None
        }),
    decreases s.len(),
{
    if s.len() == 0 {
        assert(s.push((k, v)).drop_first() =~= Seq::<(Seq<char>, Seq<char>)>::empty());
    } else {
        assert(s.push((k, v)).drop_first() =~= s.drop_first().push((k, v)));
        lemma_lookup_push(s.drop_first(), k, v, k2);
    }
}

/// Back-fill is idempotent: running it twice on the same record, with
/// the same stem, leaves exactly the tags that one run leaves.
pub proof fn lemma_backfill_idempotent(s: Seq<(Seq<char>, Seq<char>)>, stem: Seq<char>)
    ensures
        spec_backfill(spec_backfill(s, stem), stem) == spec_backfill(s, stem),
{
    reveal_strlit("title");
    reveal_strlit("artist");
    reveal_strlit("album");
    assert("title"@ != "artist"@) by {
        assert("title"@.len() == 5);
        assert("artist"@.len() == 6);
    }
    assert("title"@ != "album"@) by {
        assert("title"@[0] == 't');
        assert("album"@[0] == 'a');
    }
    assert("artist"@ != "album"@) by {
        assert("artist"@.len() == 6);
        assert("album"@.len() == 5);
    }
    let s1 = spec_fill_absent(s, "title"@, stem);
    let s2 = spec_fill_absent(s1, "artist"@, "Unknown Artist"@);
    let s3 = spec_fill_absent(s2, "album"@, "Unknown Album"@);
    if lookup(s, "title"@) is None {
        lemma_lookup_push(s, "title"@, stem, "title"@);
    }
    if lookup(s1, "artist"@) is None {
        lemma_lookup_push(s1, "artist"@, "Unknown Artist"@, "artist"@);
        lemma_lookup_push(s1, "artist"@, "Unknown Artist"@, "title"@);
    }
    if lookup(s2, "album"@) is None {
        lemma_lookup_push(s2, "album"@, "Unknown Album"@, "album"@);
        lemma_lookup_push(s2, "album"@, "Unknown Album"@, "title"@);
        lemma_lookup_push(s2, "album"@, "Unknown Album"@, "artist"@);
    }
    assert(lookup(s3, "title"@) is Some);
    assert(lookup(s3, "artist"@) is Some);
    assert(lookup(s3, "album"@) is Some);
}

} // verus!
