use media_registry::media::FrameRate;
use media_registry::probe::{extract_metadata, parse_duration_ms, parse_frame_rate};

#[test]
fn duration_whole_seconds() {
    assert_eq!(parse_duration_ms("10"), Some(10000));
    assert_eq!(parse_duration_ms("0"), Some(0));
    assert_eq!(parse_duration_ms("10.000000"), Some(10000));
}

#[test]
fn duration_fractional_truncates_to_milliseconds() {
    assert_eq!(parse_duration_ms("0.5"), Some(500));
    assert_eq!(parse_duration_ms("1.2345"), Some(1234));
    assert_eq!(parse_duration_ms("3.04"), Some(3040));
    assert_eq!(parse_duration_ms("10."), Some(10000));
}

#[test]
fn duration_rejects_bad_text() {
    assert_eq!(parse_duration_ms(""), None);
    assert_eq!(parse_duration_ms("abc"), None);
    assert_eq!(parse_duration_ms("1.2.3"), None);
    assert_eq!(parse_duration_ms(".5"), None);
    assert_eq!(parse_duration_ms("-1"), None);
    assert_eq!(parse_duration_ms("1x"), None);
    assert_eq!(parse_duration_ms("1.x"), None);
}

#[test]
fn duration_rejects_overflow() {
    assert_eq!(parse_duration_ms("99999999999999999999"), None);
    assert_eq!(parse_duration_ms("9223372036854775808"), None);
}

#[test]
fn frame_rate_parses_rational() {
    assert_eq!(parse_frame_rate("30000/1001"), Some(FrameRate { num: 30000, den: 1001 }));
    assert_eq!(parse_frame_rate("25/1"), Some(FrameRate { num: 25, den: 1 }));
    assert_eq!(parse_frame_rate("0/25"), Some(FrameRate { num: 0, den: 25 }));
}

#[test]
fn frame_rate_undefined_or_bad_is_unset() {
    assert_eq!(parse_frame_rate("0/0"), None);
    assert_eq!(parse_frame_rate("bogus"), None);
    assert_eq!(parse_frame_rate("1/2/3"), None);
    assert_eq!(parse_frame_rate("/5"), None);
    assert_eq!(parse_frame_rate("5/"), None);
    assert_eq!(parse_frame_rate(""), None);
    assert_eq!(parse_frame_rate("99999999999/1"), None);
}

#[test]
fn probe_success_reads_first_video_stream() {
    let report = r#"{
        "format": { "duration": "10.000000" },
        "streams": [
            { "codec_type": "audio", "codec_name": "aac" },
            { "codec_type": "video", "width": 1920, "height": 1080,
              "r_frame_rate": "30000/1001", "codec_name": "h264" },
            { "codec_type": "video", "width": 640, "height": 480,
              "r_frame_rate": "25/1", "codec_name": "mpeg4" }
        ]
    }"#;
    let meta = extract_metadata(true, report).unwrap();
    assert_eq!(meta.duration_ms, Some(10000));
    assert_eq!(meta.width, Some(1920));
    assert_eq!(meta.height, Some(1080));
    assert_eq!(meta.fps, Some(FrameRate { num: 30000, den: 1001 }));
    assert_eq!(meta.codec.as_deref(), Some("h264"));
}

#[test]
fn probe_missing_fields_stay_unset() {
    let report = r#"{
        "streams": [
            { "codec_type": "video", "r_frame_rate": "0/0" }
        ]
    }"#;
    let meta = extract_metadata(true, report).unwrap();
    assert_eq!(meta.duration_ms, None);
    assert_eq!(meta.width, None);
    assert_eq!(meta.height, None);
    assert_eq!(meta.fps, None);
    assert_eq!(meta.codec, None);
}

#[test]
fn probe_without_video_stream_has_no_video_fields() {
    let report = r#"{
        "format": { "duration": "3.5" },
        "streams": [ { "codec_type": "audio", "codec_name": "aac" } ]
    }"#;
    let meta = extract_metadata(true, report).unwrap();
    assert_eq!(meta.duration_ms, Some(3500));
    assert_eq!(meta.width, None);
    assert_eq!(meta.codec, None);
}

#[test]
fn probe_tool_failure_is_an_error() {
    let err = extract_metadata(false, "").unwrap_err();
    assert!(err.contains("FFprobe"));
    assert!(!err.is_empty());
}

#[test]
fn probe_invalid_json_is_an_error() {
    let err = extract_metadata(true, "not json at all").unwrap_err();
    assert_eq!(err, "FFprobe output was not valid JSON");
}
