use audio_probe::text::{
    ascii_lowercase, ascii_uppercase, extension_of, parse_digits_bounded, parse_duration_ms,
    stem_of, str_eq, u64_to_string,
};
use audio_probe::{is_audio_path, AudioInfo, Tags};

#[test]
fn ascii_case_mapping() {
    // would fail if the character collector handed its input back unchanged
    assert_eq!(ascii_lowercase("MP3 Mix"), "mp3 mix");
    assert_eq!(ascii_uppercase("flac!"), "FLAC!");
    // non-ASCII letters are left alone
    assert_eq!(ascii_lowercase("ÄBC"), "Äbc");
    assert_eq!(ascii_lowercase(""), "");
}

#[test]
fn string_equality() {
    assert!(str_eq("abc", "abc"));
    assert!(!str_eq("abc", "abd"));
    assert!(!str_eq("abc", "ab"));
}

#[test]
fn decimal_rendering() {
    assert_eq!(u64_to_string(0), "0");
    assert_eq!(u64_to_string(1234), "1234");
    assert_eq!(u64_to_string(u64::MAX), "18446744073709551615");
}

#[test]
fn digit_parsing() {
    assert_eq!(parse_digits_bounded("123", u64::MAX), Some(123));
    assert_eq!(parse_digits_bounded("0", u64::MAX), Some(0));
    assert_eq!(parse_digits_bounded("", u64::MAX), None);
    assert_eq!(parse_digits_bounded("12a", u64::MAX), None);
    assert_eq!(parse_digits_bounded("-5", u64::MAX), None);
    assert_eq!(parse_digits_bounded("500", 499), None);
    assert_eq!(parse_digits_bounded("99999999999999999999", u64::MAX), None);
}

#[test]
fn duration_parsing() {
    assert_eq!(parse_duration_ms("10"), Some(10000));
    assert_eq!(parse_duration_ms("1.5"), Some(1500));
    assert_eq!(parse_duration_ms("123.456"), Some(123456));
    // fractional digits past the third carry no weight
    assert_eq!(parse_duration_ms("1.2345"), Some(1234));
    assert_eq!(parse_duration_ms("1."), Some(1000));
    assert_eq!(parse_duration_ms("0.07"), Some(70));
    assert_eq!(parse_duration_ms(".5"), None);
    assert_eq!(parse_duration_ms("abc"), None);
    assert_eq!(parse_duration_ms("1.5e3"), None);
    assert_eq!(parse_duration_ms("-1"), None);
}

#[test]
fn path_extension_and_stem() {
    assert_eq!(extension_of("a/b.mp3"), Some(String::from("mp3")));
    assert_eq!(extension_of("x.tar.gz"), Some(String::from("gz")));
    assert_eq!(extension_of(".bashrc"), None);
    assert_eq!(extension_of("noext"), None);
    assert_eq!(extension_of("dir.d/file"), None);
    assert_eq!(extension_of("a."), Some(String::from("")));
    assert_eq!(stem_of("a/b.mp3"), "b");
    assert_eq!(stem_of("x.tar.gz"), "x.tar");
    assert_eq!(stem_of(".bashrc"), ".bashrc");
    assert_eq!(stem_of("dir/noext"), "noext");
}

#[test]
fn tag_insert_overwrites() {
    let mut t = Tags::new();
    t.insert(String::from("a"), String::from("1"));
    t.insert(String::from("b"), String::from("2"));
    t.insert(String::from("a"), String::from("3"));
    assert_eq!(t.len(), 2);
    assert_eq!(t.get("a"), Some(String::from("3")));
    assert_eq!(t.get("b"), Some(String::from("2")));
    assert_eq!(t.get("c"), None);
    assert!(t.contains_key("a"));
    assert!(!t.contains_key("c"));
}

#[test]
fn fill_absent_never_overwrites() {
    let mut t = Tags::new();
    t.insert(String::from("title"), String::from(""));
    t.fill_absent(String::from("title"), String::from("x"));
    // an empty-string tag counts as present
    assert_eq!(t.get("title"), Some(String::from("")));
    t.fill_absent(String::from("artist"), String::from("Unknown Artist"));
    assert_eq!(t.get("artist"), Some(String::from("Unknown Artist")));
}

fn tags_snapshot(t: &Tags) -> Vec<(String, String)> {
    let mut v = Vec::new();
    let mut i = 0;
    while i < t.len() {
        v.push(t.pair_at(i));
        i += 1;
    }
    v
}

// Back-fill is idempotent: a second run changes nothing.
#[test]
fn backfill_idempotent() {
    let mut rec = AudioInfo::new(String::from("dir/track.mp3"));
    rec.metadata.insert(String::from("genre"), String::from("Rock"));
    rec.backfill_tags();
    let once = tags_snapshot(&rec.metadata);
    rec.backfill_tags();
    let twice = tags_snapshot(&rec.metadata);
    assert_eq!(once, twice);
    assert_eq!(rec.metadata.get("title"), Some(String::from("track")));
    assert_eq!(rec.metadata.get("genre"), Some(String::from("Rock")));
}

#[test]
fn audio_path_filter() {
    assert!(is_audio_path("x/y.mp3"));
    assert!(is_audio_path("A.WAV"));
    assert!(is_audio_path("deep/dir/tune.OpUs"));
    assert!(!is_audio_path("notes.txt"));
    assert!(!is_audio_path("noext"));
    assert!(!is_audio_path(".mp3"));
}
