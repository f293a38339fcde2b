use media_registry::ffmpeg::{
    generate_proxy_args, generate_proxy_outcome, probe_args, proxy_output_path, proxy_plan,
    scale_filter,
};
use media_registry::media::MediaMetadata;
use media_registry::registry::{ProxyResolution, ProxySettings};
use media_registry::text::u32_to_decimal;

fn meta_1080p() -> MediaMetadata {
    MediaMetadata {
        duration_ms: Some(10000),
        width: Some(1920),
        height: Some(1080),
        fps: None,
        codec: Some(String::from("h264")),
    }
}

fn settings(resolution: ProxyResolution) -> ProxySettings {
    ProxySettings { resolution, codec: String::from("h264"), quality: 23 }
}

#[test]
fn decimal_rendering_is_exact() {
    assert_eq!(u32_to_decimal(0), "0");
    assert_eq!(u32_to_decimal(7), "7");
    assert_eq!(u32_to_decimal(100), "100");
    assert_eq!(u32_to_decimal(4294967295), "4294967295");
}

#[test]
fn scale_filter_text() {
    assert_eq!(scale_filter(960, 540), "scale=960:540");
}

#[test]
fn half_of_full_hd_is_960_by_540() {
    let plan = proxy_plan(&settings(ProxyResolution::Half), &meta_1080p());
    assert_eq!(plan, Some((960, 540)));
}

#[test]
fn quarter_and_custom_plans() {
    let quarter = proxy_plan(&settings(ProxyResolution::Quarter), &meta_1080p());
    assert_eq!(quarter, Some((480, 270)));
    let custom = proxy_plan(&settings(ProxyResolution::Custom(333, 222)), &meta_1080p());
    assert_eq!(custom, Some((333, 222)));
}

#[test]
fn relative_plan_needs_source_dimensions() {
    let unknown = MediaMetadata {
        duration_ms: None,
        width: None,
        height: None,
        fps: None,
        codec: None,
    };
    assert_eq!(proxy_plan(&settings(ProxyResolution::Half), &unknown), None);
    assert_eq!(proxy_plan(&settings(ProxyResolution::Custom(10, 10)), &unknown), Some((10, 10)));
}

#[test]
fn transcode_argument_list() {
    let args = generate_proxy_args("/in.mp4", "/out.mp4", 960, 540, 23);
    let expect = vec![
        "-i", "/in.mp4", "-vf", "scale=960:540", "-c:v", "h264", "-crf", "23", "-y", "/out.mp4",
    ];
    let got: Vec<&str> = args.iter().map(|a| a.as_str()).collect();
    assert_eq!(got, expect);
}

#[test]
fn probe_argument_list() {
    let args = probe_args("/in.mp4");
    let expect =
        vec!["-v", "quiet", "-print_format", "json", "-show_format", "-show_streams", "/in.mp4"];
    let got: Vec<&str> = args.iter().map(|a| a.as_str()).collect();
    assert_eq!(got, expect);
}

#[test]
fn proxy_outcome_follows_exit_status() {
    assert!(generate_proxy_outcome(true).is_ok());
    let err = generate_proxy_outcome(false).unwrap_err();
    assert!(err.contains("FFmpeg"));
}

#[test]
fn proxy_path_layout() {
    assert_eq!(proxy_output_path("/tmp/proxies", "abc"), "/tmp/proxies/abc_proxy.mp4");
}
