//! The structured output of the external probe tool, as plain values,
//! and the extraction of a metadata record from it.

use vstd::prelude::*;
use vstd::string::*;
use crate::record::AudioInfo;
use crate::tags::spec_insert;
use crate::text::{
    all_digits,
    ascii_lowercase,
    duration_ms_spec,
    lower_seq,
    parse_digits_bounded,
    parse_duration_ms,
    str_eq,
    val_of,
};

verus! {

/// Container-level facts reported by the probe tool: names, optional
/// numeric strings, and the container tags.
pub struct FFProbeFormat {
    pub format_name: String,
    pub format_long_name: String,
    pub duration: Option<String>,
    pub bit_rate: Option<String>,
    pub tags: Vec<(String, String)>,
}

/// One stream reported by the probe tool.
pub struct FFProbeStream {
    pub codec_name: Option<String>,
    pub codec_long_name: Option<String>,
    pub codec_type: String,
    pub sample_rate: Option<String>,
    pub channels: Option<i32>,
    pub bit_rate: Option<String>,
}

/// The whole probe document: an optional container object and the
/// stream list, in declaration order.
pub struct FFProbeOutput {
    pub format: Option<FFProbeFormat>,
    pub streams: Vec<FFProbeStream>,
}

impl FFProbeFormat {
    /// The container duration in milliseconds: the parsed duration
    /// string, or 0 when absent, malformed or out of range.
    pub open spec fn spec_duration_ms(self) -> int {
        match self.duration {
            Some(d) => match duration_ms_spec(d@) {
                Some(m) => if m <= u64::MAX {
                    m
                } else {
                    0
                },
                None => 0,
            },
            None => 0,
        }
    }

    /// The container bit-rate: the parsed digit string, or 0 when
    /// absent, malformed or out of range.
    pub open spec fn spec_bit_rate(self) -> int {
        match self.bit_rate {
            Some(b) => if b@.len() > 0 && all_digits(b@) && val_of(b@) <= i64::MAX {
                val_of(b@) as int
            } else {
                0
            },
            None => 0,
        }
    }

    /// The container tag pairs, over character views.
    pub open spec fn spec_tag_pairs(self) -> Seq<(Seq<char>, Seq<char>)> {
        self.tags@.map_values(|p: (String, String)| (p.0@, p.1@))
    }
}

impl FFProbeStream {
    /// The stream sample-rate: the parsed digit string, or 0.
    pub open spec fn spec_sample_rate(self) -> int {
        match self.sample_rate {
            Some(s) => if s@.len() > 0 && all_digits(s@) && val_of(s@) <= i32::MAX {
                val_of(s@) as int
            } else {
                0
            },
            None => 0,
        }
    }

    /// The stream channel count; a negative or absent count reads as 0.
    pub open spec fn spec_channels(self) -> int {
        match self.channels {
            Some(c) => if c >= 0 {
                c as int
            } else {
                0
            },
            None => 0,
        }
    }

    /// The stream bit-rate: the parsed digit string, or 0.
    pub open spec fn spec_bit_rate(self) -> int {
        match self.bit_rate {
            Some(b) => if b@.len() > 0 && all_digits(b@) && val_of(b@) <= i64::MAX {
                val_of(b@) as int
            } else {
                0
            },
            None => 0,
        }
    }
}

/// Index of the first audio-typed stream at or after `i`; the length
/// when there is none.
pub open spec fn first_audio(streams: Seq<FFProbeStream>, i: int) -> int
    decreases streams.len() - i,
    when 0 <= i <= streams.len()
{
    if i >= streams.len() {
        streams.len() as int
    } else if streams[i].codec_type@ == "audio"@ {
        i
    } else {
        first_audio(streams, i + 1)
    }
}

/// Some stream is video-typed.
pub open spec fn spec_has_video(streams: Seq<FFProbeStream>) -> bool {
    exists|i: int| 0 <= i < streams.len() && streams[i].codec_type@ == "video"@
}

/// The record's bit-rate after stream selection: the stream-level rate
/// of the selected audio stream is used only when it is positive and
/// the container-level rate was 0; the container level always wins
/// otherwise.
pub open spec fn spec_final_bit_rate(container: int, streams: Seq<FFProbeStream>) -> int {
    let sel = first_audio(streams, 0);
    if sel < streams.len() {
        let sbr = streams[sel].spec_bit_rate();
        if container == 0 && sbr > 0 {
            sbr
        } else {
            container
        }
    } else {
        container
    }
}

/// Folding the container tags into a tag mapping, keys lowercased,
/// first pair first, later pairs overwriting earlier equal keys.
pub open spec fn spec_ingest(
    t: Seq<(Seq<char>, Seq<char>)>,
    pairs: Seq<(Seq<char>, Seq<char>)>,
) -> Seq<(Seq<char>, Seq<char>)>
    decreases pairs.len(),
{
    if pairs.len() == 0 {
        t
    } else {
        spec_ingest(spec_insert(t, lower_seq(pairs[0].0), pairs[0].1), pairs.drop_first())
    }
}

proof fn lemma_first_audio_from(streams: Seq<FFProbeStream>, i: int, p: int)
    requires
        0 <= i <= p <= streams.len(),
        forall|j: int| i <= j < p ==> streams[j].codec_type@ != "audio"@,
        p == streams.len() || streams[p].codec_type@ == "audio"@,
    ensures
        first_audio(streams, i) == p,
    decreases p - i,
{
    if i < p {
        lemma_first_audio_from(streams, i + 1, p);
    }
}

/// The non-tag fields a record must carry after extraction from a
/// probe document.
pub open spec fn probe_fields_ok(
    path: String,
    file_size: u64,
    probe: FFProbeOutput,
    r: AudioInfo,
) -> bool {
    &&& r.file_path == path
    &&& r.file_size == file_size
    &&& match probe.format {
        Some(f) => {
            &&& r.format_name == f.format_name
            &&& r.format_long_name == f.format_long_name
            &&& r.duration_ms == f.spec_duration_ms()
            &&& r.bit_rate == spec_final_bit_rate(f.spec_bit_rate(), probe.streams@)
        },
        None => {
            &&& r.format_name@ == Seq::<char>::empty()
            &&& r.format_long_name@ == Seq::<char>::empty()
            &&& r.duration_ms == 0
            &&& r.bit_rate == spec_final_bit_rate(0, probe.streams@)
        },
    }
    &&& r.has_video == spec_has_video(probe.streams@)
    &&& ({
        let sel = first_audio(probe.streams@, 0);
        if sel < probe.streams@.len() {
            let st = probe.streams@[sel];
            &&& r.codec_name == (match st.codec_name {
                Some(c) => c,
                None => r.codec_name,
            })
            &&& (st.codec_name is None ==> r.codec_name@ == Seq::<char>::empty())
            &&& r.codec_long_name == (match st.codec_long_name {
                Some(c) => c,
                None => r.codec_long_name,
            })
            &&& (st.codec_long_name is None ==> r.codec_long_name@ == Seq::<char>::empty())
            &&& r.sample_rate == st.spec_sample_rate()
            &&& r.channels == st.spec_channels()
        } else {
            &&& r.codec_name@ == Seq::<char>::empty()
            &&& r.codec_long_name@ == Seq::<char>::empty()
            &&& r.sample_rate == 0
            &&& r.channels == 0
        }
    })
}

/// The tag mapping extracted from a probe document: the container
/// tags, keys lowercased, or no tags at all without a container object.
pub open spec fn probe_tag_result(probe: FFProbeOutput) -> Seq<(Seq<char>, Seq<char>)> {
    match probe.format {
        Some(f) => spec_ingest(Seq::<(Seq<char>, Seq<char>)>::empty(), f.spec_tag_pairs()),
        None => Seq::<(Seq<char>, Seq<char>)>::empty(),
    }
}

/// Build the record for `path` from a successfully parsed probe
/// document: container names and tags, the parsed duration and
/// bit-rate, the first audio stream's codec facts, and the video flag.
pub fn analyze_with_probe(path: String, file_size: u64, probe: &FFProbeOutput) -> (r: AudioInfo)
    ensures
        r.well_formed(),
        r.processing_time_ms == 0,
        probe_fields_ok(path, file_size, *probe, r),
        r.metadata.view_seq() == probe_tag_result(*probe),
{
    let mut r = AudioInfo::new(path);
    r.file_size = file_size;
    match &probe.format {
        Some(f) => {
            r.format_name = f.format_name.clone();
            r.format_long_name = f.format_long_name.clone();
            match &f.duration {
                Some(d) => {
                    r.duration_ms = match parse_duration_ms(d.as_str()) {
                        Some(v) => v,
                        None => 0,
                    };
                },
                None => {},
            }
            match &f.bit_rate {
                Some(b) => {
                    r.bit_rate = match parse_digits_bounded(b.as_str(), i64::MAX as u64) {
                        Some(v) => v as i64,
                        None => 0,
                    };
                },
                None => {},
            }
            let ghost r0 = r;
            let n = f.tags.len();
            let mut i: usize = 0;
            proof {
                assert(f.spec_tag_pairs().skip(0) =~= f.spec_tag_pairs());
            }
            while i < n
                invariant
                    i <= n,
                    n == f.tags@.len(),
                    r == (AudioInfo { metadata: r.metadata, ..r0 }),
                    r.metadata.wf(),
                    spec_ingest(r0.metadata.view_seq(), f.spec_tag_pairs()) == spec_ingest(
                        r.metadata.view_seq(),
                        f.spec_tag_pairs().skip(i as int),
                    ),
                decreases n - i,
            {
                let k = ascii_lowercase(f.tags[i].0.as_str());
                let v = f.tags[i].1.clone();
                proof {
                    let pairs = f.spec_tag_pairs();
                    assert(pairs.skip(i as int)[0] == pairs[i as int]);
                    assert(pairs.skip(i as int).drop_first() =~= pairs.skip(i as int + 1));
                }
                r.metadata.insert(k, v);
                i = i + 1;
            }
            proof {
                assert(f.spec_tag_pairs().skip(n as int) =~= Seq::<(Seq<char>, Seq<char>)>::empty());
            }
        },
        None => {},
    }
    let n = probe.streams.len();
    let mut sel: usize = n;
    let mut video: bool = false;
    let mut i: usize = 0;
    while i < n
        invariant
            i <= n,
            n == probe.streams@.len(),
            (sel == n && (forall|j: int|
                0 <= j < i ==> probe.streams@[j].codec_type@ != "audio"@)) || (sel < i
                && probe.streams@[sel as int].codec_type@ == "audio"@ && (forall|j: int|
                0 <= j < sel ==> probe.streams@[j].codec_type@ != "audio"@)),
            video == (exists|j: int|
                0 <= j < i && probe.streams@[j].codec_type@ == "video"@),
        decreases n - i,
    {
        if str_eq(probe.streams[i].codec_type.as_str(), "audio") {
            proof {
                reveal_strlit("audio");
                reveal_strlit("video");
                assert("audio"@ != "video"@) by {
                    assert("audio"@[0] == 'a');
                    assert("video"@[0] == 'v');
                }
            }
            if sel == n {
                if i < n {
                    sel = i;
                }
            }
        } else if str_eq(probe.streams[i].codec_type.as_str(), "video") {
            video = true;
            proof {
                assert(probe.streams@[i as int].codec_type@ == "video"@);
            }
        }
        i = i + 1;
    }
    proof {
        if sel < n {
            lemma_first_audio_from(probe.streams@, 0, sel as int);
        } else {
            lemma_first_audio_from(probe.streams@, 0, n as int);
        }
    }
    r.has_video = video;
    if sel < n {
        let st = &probe.streams[sel];
        match &st.codec_name {
            Some(c) => {
                r.codec_name = c.clone();
            },
            None => {},
        }
        match &st.codec_long_name {
            Some(c) => {
                r.codec_long_name = c.clone();
            },
            None => {},
        }
        match &st.sample_rate {
            Some(s) => {
                r.sample_rate = match parse_digits_bounded(s.as_str(), i32::MAX as u64) {
                    Some(v) => v as i32,
                    None => 0,
                };
            },
            None => {},
        }
        match st.channels {
            Some(c) => {
                if c >= 0 {
                    r.channels = c;
                } else {
                    r.channels = 0;
                }
            },
            None => {},
        }
        match &st.bit_rate {
            Some(b) => {
                match parse_digits_bounded(b.as_str(), i64::MAX as u64) {
                    Some(v) => {
                        let sbr = v as i64;
                        if sbr > 0 && r.bit_rate == 0 {
                            r.bit_rate = sbr;
                        }
                    },
                    None => {},
                }
            },
            None => {},
        }
    }
    r
}

} // verus!
