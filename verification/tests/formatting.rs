use audio_probe::{format_bitrate, format_bytes, format_duration};

#[test]
fn test_format_bytes() {
    assert_eq!(format_bytes(512), "512 bytes");
    assert_eq!(format_bytes(1024), "1.00 KB");
    assert_eq!(format_bytes(1024 * 1024), "1.00 MB");
    assert_eq!(format_bytes(1024 * 1024 * 1024), "1.00 GB");
}

#[test]
fn test_format_bytes_fractions() {
    assert_eq!(format_bytes(0), "0 bytes");
    assert_eq!(format_bytes(1023), "1023 bytes");
    assert_eq!(format_bytes(1536), "1.50 KB");
    assert_eq!(format_bytes(2 * 1024 * 1024 + 512 * 1024), "2.50 MB");
}

#[test]
fn test_format_duration() {
    assert_eq!(format_duration(30000), "30.0秒");
    assert_eq!(format_duration(90000), "1分30秒");
    assert_eq!(format_duration(3661000), "1時間1分1秒");
}

#[test]
fn test_format_duration_fractions() {
    assert_eq!(format_duration(0), "0.0秒");
    assert_eq!(format_duration(1500), "1.5秒");
    assert_eq!(format_duration(59900), "59.9秒");
    assert_eq!(format_duration(3600000), "1時間0分0秒");
}

#[test]
fn test_format_bitrate() {
    assert_eq!(format_bitrate(128), "128 bps");
    assert_eq!(format_bitrate(128000), "128 kbps");
    assert_eq!(format_bitrate(1000000), "1.0 Mbps");
    assert_eq!(format_bitrate(0), "N/A");
}

#[test]
fn test_format_bitrate_edges() {
    assert_eq!(format_bitrate(-5), "N/A");
    assert_eq!(format_bitrate(999), "999 bps");
    assert_eq!(format_bitrate(1411200), "1.4 Mbps");
    assert_eq!(format_bitrate(2550000), "2.6 Mbps");
}
