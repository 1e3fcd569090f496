use audio_probe::{
    AudioInfo, AudioProbe, AudioProbeError, FFProbeFormat, FFProbeOutput, FFProbeStream,
    ResolveInput,
};

fn input(path: &str, exists: bool, size: u64, probe: Option<FFProbeOutput>) -> ResolveInput {
    ResolveInput {
        path: String::from(path),
        exists,
        file_size: size,
        probe,
        elapsed_ms: 7,
    }
}

#[test]
fn test_audio_probe_creation() {
    let probe = AudioProbe::new(10, false);
    assert_eq!(probe.max_concurrent(), 10);
}

#[test]
fn test_file_not_found() {
    let probe = AudioProbe::new(1, false);
    let result = probe.analyze_file(input("nonexistent.mp3", false, 0, None));
    assert!(matches!(result, Err(AudioProbeError::FileNotFound { .. })));
}

#[test]
fn test_audio_info_creation() {
    let path = String::from("test.mp3");
    let info = AudioInfo::new(path.clone());
    assert_eq!(info.file_path, path);
    assert_eq!(info.duration_ms, 0);
}

// A missing path always fails with FileNotFound, never an estimate.
#[test]
fn missing_path_never_estimated() {
    let probe = AudioProbe::new(3, true);
    let result = probe.analyze_file(input("gone.wav", false, 999, None));
    match result {
        Err(AudioProbeError::FileNotFound { path }) => assert_eq!(path, "gone.wav"),
        _ => panic!("expected FileNotFound"),
    }
}

// An empty wav with no probe tool: exact PCM assumptions, duration 0.
#[test]
fn empty_wav_estimate() {
    let probe = AudioProbe::new(2, false);
    let rec = probe.analyze_file(input("sound.wav", true, 0, None)).unwrap();
    assert_eq!(rec.sample_rate, 44100);
    assert_eq!(rec.channels, 2);
    assert_eq!(rec.codec_name, "pcm_s16le");
    assert_eq!(rec.codec_long_name, "PCM signed 16-bit little-endian");
    assert_eq!(rec.bit_rate, 1411200);
    assert_eq!(rec.duration_ms, 0);
    assert_eq!(rec.processing_time_ms, 7);
}

// A 40000-byte mp3 at the assumed 320000 bps is exactly one second.
#[test]
fn mp3_forty_kilobyte_duration() {
    let probe = AudioProbe::new(2, false);
    let rec = probe.analyze_file(input("song.mp3", true, 40000, None)).unwrap();
    assert_eq!(rec.bit_rate, 320000);
    assert_eq!(rec.duration_ms, 1000);
    assert_eq!(rec.codec_long_name, "MP3 (MPEG audio layer 3)");
    assert_eq!(rec.format_long_name, "MP2/3 (MPEG audio layer 2/3)");
}

#[test]
fn flac_estimate_has_no_assumed_rate() {
    let probe = AudioProbe::new(2, false);
    let rec = probe.analyze_file(input("a.flac", true, 1000, None)).unwrap();
    assert_eq!(rec.bit_rate, 0);
    assert_eq!(rec.duration_ms, 300000);
    assert_eq!(rec.codec_long_name, "FLAC (Free Lossless Audio Codec)");
    assert_eq!(rec.format_long_name, "raw FLAC");
}

#[test]
fn unknown_extension_estimate() {
    let probe = AudioProbe::new(2, false);
    let rec = probe.analyze_file(input("x.xyz", true, 0, None)).unwrap();
    assert_eq!(rec.codec_long_name, "XYZ audio");
    assert_eq!(rec.format_long_name, "XYZ format");
    assert_eq!(rec.bit_rate, 320000);
    assert_eq!(rec.sample_rate, 44100);
}

#[test]
fn degraded_probe_falls_back_to_estimate() {
    let probe = AudioProbe::new(2, true);
    let rec = probe.analyze_file(input("song.mp3", true, 40000, None)).unwrap();
    assert_eq!(rec.bit_rate, 320000);
    assert_eq!(rec.duration_ms, 1000);
}

fn sample_probe_output(container_rate: Option<&str>, stream_rate: Option<&str>) -> FFProbeOutput {
    FFProbeOutput {
        format: Some(FFProbeFormat {
            format_name: String::from("mp3"),
            format_long_name: String::from("MP2/3 (MPEG audio layer 2/3)"),
            duration: Some(String::from("1.5")),
            bit_rate: container_rate.map(String::from),
            tags: vec![
                (String::from("Title"), String::from("Song")),
                (String::from("GENRE"), String::from("Rock")),
            ],
        }),
        streams: vec![
            FFProbeStream {
                codec_name: None,
                codec_long_name: None,
                codec_type: String::from("video"),
                sample_rate: None,
                channels: None,
                bit_rate: None,
            },
            FFProbeStream {
                codec_name: Some(String::from("mp3")),
                codec_long_name: Some(String::from("MP3 (MPEG audio layer 3)")),
                codec_type: String::from("audio"),
                sample_rate: Some(String::from("44100")),
                channels: Some(2),
                bit_rate: stream_rate.map(String::from),
            },
        ],
    }
}

#[test]
fn probe_extraction_with_container_rate() {
    let probe = AudioProbe::new(1, true);
    let out = sample_probe_output(Some("128000"), Some("256000"));
    let rec = probe.analyze_file(input("dir/track.mp3", true, 5000, Some(out))).unwrap();
    // container-level bit-rate wins when both are present
    assert_eq!(rec.bit_rate, 128000);
    assert_eq!(rec.duration_ms, 1500);
    assert_eq!(rec.sample_rate, 44100);
    assert_eq!(rec.channels, 2);
    assert!(rec.has_video);
    assert_eq!(rec.codec_name, "mp3");
    // tag keys are lowercased; title came from the container tags
    assert_eq!(rec.metadata.get("title"), Some(String::from("Song")));
    assert_eq!(rec.metadata.get("genre"), Some(String::from("Rock")));
    // back-fill touches only the absent tags
    assert_eq!(rec.metadata.get("artist"), Some(String::from("Unknown Artist")));
    assert_eq!(rec.metadata.get("album"), Some(String::from("Unknown Album")));
    assert_eq!(rec.processing_time_ms, 7);
}

#[test]
fn probe_extraction_stream_rate_fills_unknown_container_rate() {
    let probe = AudioProbe::new(1, true);
    let out = sample_probe_output(None, Some("256000"));
    let rec = probe.analyze_file(input("t.mp3", true, 5000, Some(out))).unwrap();
    assert_eq!(rec.bit_rate, 256000);
}

#[test]
fn estimated_title_is_file_stem() {
    let probe = AudioProbe::new(1, false);
    let rec = probe.analyze_file(input("music/My Song.mp3", true, 0, None)).unwrap();
    assert_eq!(rec.metadata.get("title"), Some(String::from("My Song")));
    assert_eq!(rec.metadata.get("artist"), Some(String::from("Unknown Artist")));
    assert_eq!(rec.metadata.get("album"), Some(String::from("Unknown Album")));
}

#[test]
fn error_messages() {
    let e = AudioProbeError::FileNotFound { path: String::from("x.mp3") };
    assert_eq!(e.message(), "File not found: x.mp3");
    let e = AudioProbeError::FFprobeNotFound;
    assert_eq!(e.message(), "FFprobe not found. Please install FFmpeg.");
    let e = AudioProbeError::Processing(String::from("bad json"));
    assert_eq!(e.message(), "Processing error: bad json");
    let e = AudioProbeError::FFprobeError(String::from("boom"));
    assert_eq!(e.message(), "FFprobe execution error: boom");
    let e = AudioProbeError::Io(String::from("denied"));
    assert_eq!(e.message(), "I/O error: denied");
    let e = AudioProbeError::InvalidAudioFile {
        path: String::from("y.ogg"),
        reason: String::from("empty"),
    };
    assert_eq!(e.message(), "Invalid audio file: y.ogg - empty");
}
