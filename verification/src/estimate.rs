//! Extension-based estimation: when the probe tool is unavailable or
//! failed, a record is filled from a static per-extension assumption
//! table, and the duration is estimated from file size and bit-rate.

use vstd::prelude::*;
use vstd::string::*;
use crate::record::AudioInfo;
use crate::text::{
    ascii_lowercase,
    ascii_uppercase,
    extension_of,
    lower_seq,
    spec_extension,
    str_eq,
    upper_seq,
};

verus! {

/// Assumed codec long name for a lowercased extension.
pub open spec fn est_codec_long(le: Seq<char>, ue: Seq<char>) -> Seq<char> {
    if le == "mp3"@ {
        "MP3 (MPEG audio layer 3)"@
    } else if le == "wav"@ {
        "PCM signed 16-bit little-endian"@
    } else if le == "flac"@ {
        "FLAC (Free Lossless Audio Codec)"@
    } else {
        ue + " audio"@
    }
}

/// Assumed container long name for a lowercased extension.
pub open spec fn est_format_long(le: Seq<char>, ue: Seq<char>) -> Seq<char> {
    if le == "mp3"@ {
        "MP2/3 (MPEG audio layer 2/3)"@
    } else if le == "wav"@ {
        "WAV / WAVE (Waveform Audio)"@
    } else if le == "flac"@ {
        "raw FLAC"@
    } else {
        ue + " format"@
    }
}

/// Assumed codec short name: the lowercased extension, except the exact
/// PCM codec of wave files.
pub open spec fn est_codec_name(le: Seq<char>) -> Seq<char> {
    if le == "wav"@ {
        "pcm_s16le"@
    } else {
        le
    }
}

/// Assumed bit-rate: a fixed compressed rate for mp3-like extensions,
/// the exact PCM rate for wave, and no assumption (the rate already in
/// the record, normally 0) for lossless flac.
pub open spec fn est_bit_rate(le: Seq<char>, old_rate: int) -> int {
    if le == "mp3"@ {
        320000
    } else if le == "wav"@ {
        1411200
    } else if le == "flac"@ {
        old_rate
    } else {
        320000
    }
}

/// Estimated duration in milliseconds: `size * 8000 / rate` (clamped to
/// `u64`) when the bit-rate is known and nonzero, else a fixed default
/// of five minutes.
pub open spec fn est_duration_ms(size: nat, rate: int) -> int {
    if rate > 0 {
        let q = (size * 8000) as int / rate;
        if q > u64::MAX {
            u64::MAX as int
        } else {
            q
        }
    } else {
        300000
    }
}

/// The estimated duration of `size` bytes at bit-rate `rate`.
fn duration_from_size(size: u64, rate: i64) -> (d: u64)
    requires
        rate >= 0,
    ensures
        d == est_duration_ms(size as nat, rate as int),
{
    if rate > 0 {
        let prod: u128 = (size as u128) * 8000;
        let q: u128 = prod / (rate as u128);
        if q > u64::MAX as u128 {
            u64::MAX
        } else {
            q as u64
        }
    } else {
        300000
    }
}

/// `le` is one of the recognized audio-file extensions, lowercased.
pub open spec fn is_audio_ext(le: Seq<char>) -> bool {
    ||| le == "mp3"@
    ||| le == "wav"@
    ||| le == "flac"@
    ||| le == "aac"@
    ||| le == "ogg"@
    ||| le == "m4a"@
    ||| le == "wma"@
    ||| le == "opus"@
    ||| le == "mp2"@
    ||| le == "ac3"@
    ||| le == "dts"@
    ||| le == "ape"@
    ||| le == "aiff"@
    ||| le == "au"@
    ||| le == "ra"@
    ||| le == "amr"@
    ||| le == "webm"@
    ||| le == "mkv"@
    ||| le == "m4b"@
    ||| le == "m4p"@
}

/// Whether discovery keeps `path`: it has an extension whose lowercase
/// form is in the audio-extension table.
pub fn is_audio_path(path: &str) -> (r: bool)
    ensures
        r == match spec_extension(path@) {
            Some(e) => is_audio_ext(lower_seq(e)),
            None => false,
        },
{
    match extension_of(path) {
        Some(e) => {
            let le = ascii_lowercase(e.as_str());
            let l = le.as_str();
            str_eq(l, "mp3") || str_eq(l, "wav") || str_eq(l, "flac") || str_eq(l, "aac") || str_eq(
                l,
                "ogg",
            ) || str_eq(l, "m4a") || str_eq(l, "wma") || str_eq(l, "opus") || str_eq(l, "mp2")
                || str_eq(l, "ac3") || str_eq(l, "dts") || str_eq(l, "ape") || str_eq(l, "aiff")
                || str_eq(l, "au") || str_eq(l, "ra") || str_eq(l, "amr") || str_eq(l, "webm")
                || str_eq(l, "mkv") || str_eq(l, "m4b") || str_eq(l, "m4p")
        },
        None => false,
    }
}

/// Fill `info` from the extension table of its own path, then estimate
/// the duration from file size and bit-rate.  A path without an
/// extension leaves the format fields alone and only estimates the
/// duration.
pub fn fallback_analysis(info: &mut AudioInfo)
    requires
        old(info).well_formed(),
    ensures
        final(info).well_formed(),
        match spec_extension(old(info).file_path@) {
            Some(e) => {
                let le = lower_seq(e);
                let ue = upper_seq(e);
                &&& final(info).format_name@ == le
                &&& final(info).codec_name@ == est_codec_name(le)
                &&& final(info).codec_long_name@ == est_codec_long(le, ue)
                &&& final(info).format_long_name@ == est_format_long(le, ue)
                &&& final(info).sample_rate == 44100
                &&& final(info).channels == 2
                &&& final(info).bit_rate == est_bit_rate(le, old(info).bit_rate as int)
            },
            None => (*final(info) == (AudioInfo {
                duration_ms: final(info).duration_ms,
                ..*old(info)
            })),
        },
        final(info).duration_ms == est_duration_ms(
            old(info).file_size as nat,
            final(info).bit_rate as int,
        ),
        final(info).file_path == old(info).file_path,
        final(info).file_size == old(info).file_size,
        final(info).has_video == old(info).has_video,
        final(info).metadata == old(info).metadata,
        final(info).processing_time_ms == old(info).processing_time_ms,
    {
        match extension_of(info.file_path.as_str()) {
            Some(e) => {
                let le = ascii_lowercase(e.as_str());
                let ue = ascii_uppercase(e.as_str());
                proof {
                    reveal_strlit("mp3");
                    reveal_strlit("wav");
                    reveal_strlit("flac");
                    assert("mp3"@ != "wav"@) by {
                        assert("mp3"@[0] == 'm');
                        assert("wav"@[0] == 'w');
                    }
                    assert("flac"@ != "wav"@) by {
                        assert("flac"@.len() == 4);
                        assert("wav"@.len() == 3);
                    }
                }
                info.format_name = le.clone();
                info.sample_rate = 44100;
                info.channels = 2;
                if str_eq(le.as_str(), "mp3") {
                    info.codec_name = le.clone();
                    info.codec_long_name = String::from_str("MP3 (MPEG audio layer 3)");
                    info.format_long_name = String::from_str("MP2/3 (MPEG audio layer 2/3)");
                    info.bit_rate = 320000;
                } else if str_eq(le.as_str(), "wav") {
                    info.codec_name = String::from_str("pcm_s16le");
                    info.codec_long_name = String::from_str("PCM signed 16-bit little-endian");
                    info.format_long_name = String::from_str("WAV / WAVE (Waveform Audio)");
                    info.bit_rate = 1411200;
                } else if str_eq(le.as_str(), "flac") {
                    info.codec_name = le.clone();
                    info.codec_long_name = String::from_str("FLAC (Free Lossless Audio Codec)");
                    info.format_long_name = String::from_str("raw FLAC");
                } else {
                    info.codec_name = le.clone();
                    info.codec_long_name = ue.clone().concat(" audio");
                    info.format_long_name = ue.clone().concat(" format");
                    info.bit_rate = 320000;
                }
            },
            None => {},
        }
        let d = duration_from_size(info.file_size, info.bit_rate);
        info.duration_ms = d;
    }

} // verus!
