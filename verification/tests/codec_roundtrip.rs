use audio_probe::{AudioInfo, record_from_json, record_to_json};

fn sample_record() -> AudioInfo {
    let mut rec = AudioInfo::new(String::from("music/My \"Quoted\" \\ Song.mp3"));
    rec.file_size = 40000;
    rec.duration_ms = 1000;
    rec.bit_rate = 320000;
    rec.sample_rate = 44100;
    rec.channels = 2;
    rec.codec_name = String::from("mp3");
    rec.codec_long_name = String::from("MP3 (MPEG audio layer 3)");
    rec.format_name = String::from("mp3");
    rec.format_long_name = String::from("MP2/3 (MPEG audio layer 2/3)");
    rec.has_video = false;
    rec.metadata.insert(String::from("title"), String::from("My \"Quoted\" \\ Song"));
    rec.metadata.insert(String::from("artist"), String::from("Unknown Artist"));
    rec.processing_time_ms = 12;
    rec
}

fn assert_records_equal(a: &AudioInfo, b: &AudioInfo) {
    assert_eq!(a.file_path, b.file_path);
    assert_eq!(a.file_size, b.file_size);
    assert_eq!(a.duration_ms, b.duration_ms);
    assert_eq!(a.bit_rate, b.bit_rate);
    assert_eq!(a.sample_rate, b.sample_rate);
    assert_eq!(a.channels, b.channels);
    assert_eq!(a.codec_name, b.codec_name);
    assert_eq!(a.codec_long_name, b.codec_long_name);
    assert_eq!(a.format_name, b.format_name);
    assert_eq!(a.format_long_name, b.format_long_name);
    assert_eq!(a.has_video, b.has_video);
    assert_eq!(a.processing_time_ms, b.processing_time_ms);
    assert_eq!(a.metadata.len(), b.metadata.len());
    let mut i = 0;
    while i < a.metadata.len() {
        assert_eq!(a.metadata.pair_at(i), b.metadata.pair_at(i));
        i += 1;
    }
}

// Serializing then deserializing yields field-for-field equality.
#[test]
fn json_roundtrip() {
    let rec = sample_record();
    let json = record_to_json(&rec);
    let back = record_from_json(json.as_str()).unwrap();
    assert_records_equal(&rec, &back);
}

#[test]
fn json_roundtrip_empty_record() {
    let rec = AudioInfo::new(String::new());
    let json = record_to_json(&rec);
    let back = record_from_json(json.as_str()).unwrap();
    assert_records_equal(&rec, &back);
}

#[test]
fn json_shape_is_canonical() {
    let rec = AudioInfo::new(String::from("a.mp3"));
    let json = record_to_json(&rec);
    assert_eq!(
        json,
        "{\"file_path\":\"a.mp3\",\"file_size\":0,\"duration_ms\":0,\"bit_rate\":0,\
         \"sample_rate\":0,\"channels\":0,\"codec_name\":\"\",\"codec_long_name\":\"\",\
         \"format_name\":\"\",\"format_long_name\":\"\",\"has_video\":false,\
         \"metadata\":{},\"processing_time_ms\":0}"
    );
}

#[test]
fn json_parse_handwritten() {
    let json = "{\"file_path\":\"a\",\"file_size\":1,\"duration_ms\":2,\"bit_rate\":3,\
                \"sample_rate\":4,\"channels\":5,\"codec_name\":\"c\",\"codec_long_name\":\"cl\",\
                \"format_name\":\"f\",\"format_long_name\":\"fl\",\"has_video\":true,\
                \"metadata\":{\"k\":\"v\"},\"processing_time_ms\":6}";
    let rec = record_from_json(json).unwrap();
    assert_eq!(rec.file_path, "a");
    assert_eq!(rec.file_size, 1);
    assert_eq!(rec.duration_ms, 2);
    assert_eq!(rec.bit_rate, 3);
    assert_eq!(rec.sample_rate, 4);
    assert_eq!(rec.channels, 5);
    assert!(rec.has_video);
    assert_eq!(rec.metadata.get("k"), Some(String::from("v")));
    assert_eq!(rec.processing_time_ms, 6);
}

#[test]
fn json_parse_rejects_malformed() {
    assert!(record_from_json("").is_none());
    assert!(record_from_json("{}").is_none());
    assert!(record_from_json("{\"file_path\":\"a\"}").is_none());
    // trailing bytes are rejected
    let rec = AudioInfo::new(String::from("a"));
    let mut json = record_to_json(&rec);
    json.push(' ');
    assert!(record_from_json(json.as_str()).is_none());
}

#[test]
fn json_parse_rejects_duplicate_tag_keys() {
    let json = "{\"file_path\":\"a\",\"file_size\":0,\"duration_ms\":0,\"bit_rate\":0,\
                \"sample_rate\":0,\"channels\":0,\"codec_name\":\"\",\"codec_long_name\":\"\",\
                \"format_name\":\"\",\"format_long_name\":\"\",\"has_video\":false,\
                \"metadata\":{\"k\":\"v\",\"k\":\"w\"},\"processing_time_ms\":0}";
    assert!(record_from_json(json).is_none());
}
