use vstd::prelude::*;
use vstd::string::*;
use crate::media::MediaMetadata;
use crate::registry::{ProxyResolution, ProxySettings};
use crate::text::{spec_dec, u32_to_decimal};

verus! {

/// The scale filter handed to the transcode tool: "scale=<w>:<h>".
pub open spec fn spec_scale_filter(w: int, h: int) -> Seq<char> {
    "scale="@ + spec_dec(w) + ":"@ + spec_dec(h)
}

pub fn scale_filter(width: u32, height: u32) -> (r: String)
    ensures
        r@ == spec_scale_filter(width as int, height as int),
{
    let mut s = String::from_str("scale=");
    let ws = u32_to_decimal(width);
    s.append(ws.as_str());
    s.append(":");
    let hs = u32_to_decimal(height);
    s.append(hs.as_str());
    proof {
        assert(s@ =~= spec_scale_filter(width as int, height as int));
    }
    s
}

/// The dimensions one proxy run scales to: exactly the custom size, or the
/// source dimensions halved or quartered; undecidable (`None`) when the
/// class is relative and the probe did not report the source size.
pub open spec fn spec_proxy_plan(settings: ProxySettings, m: MediaMetadata) -> Option<(u32, u32)> {
    match settings.resolution {
        ProxyResolution::Custom(w, h) => Some((w, h)),
        ProxyResolution::Half => match (m.width, m.height) {
            (Some(w), Some(h)) => Some((w / 2, h / 2)),
            _ => None,
        },
        ProxyResolution::Quarter => match (m.width, m.height) {
            (Some(w), Some(h)) => Some((w / 4, h / 4)),
            _ => None,
        },
    }
}

pub fn proxy_plan(settings: &ProxySettings, m: &MediaMetadata) -> (r: Option<(u32, u32)>)
    ensures
        r == spec_proxy_plan(*settings, *m),
{
    match settings.resolution {
        ProxyResolution::Custom(w, h) => Some((w, h)),
        ProxyResolution::Half => match (m.width, m.height) {
            (Some(w), Some(h)) => Some((w / 2, h / 2)),
            _ => None,
        },
        ProxyResolution::Quarter => match (m.width, m.height) {
            (Some(w), Some(h)) => Some((w / 4, h / 4)),
            _ => None,
        },
    }
}

/// The argument list of one transcode run: input, scale filter, the fixed
/// codec family, the quality parameter, overwrite, output.
pub fn generate_proxy_args(
    input_path: &str,
    output_path: &str,
    width: u32,
    height: u32,
    quality: u32,
) -> (r: Vec<String>)
    ensures
        r@.len() == 10,
        r@[0]@ == "-i"@,
        r@[1]@ == input_path@,
        r@[2]@ == "-vf"@,
        r@[3]@ == spec_scale_filter(width as int, height as int),
        r@[4]@ == "-c:v"@,
        r@[5]@ == "h264"@,
        r@[6]@ == "-crf"@,
        r@[7]@ == spec_dec(quality as int),
        r@[8]@ == "-y"@,
        r@[9]@ == output_path@,
{
    let mut v: Vec<String> = Vec::new();
    v.push(String::from_str("-i"));
    v.push(String::from_str(input_path));
    v.push(String::from_str("-vf"));
    v.push(scale_filter(width, height));
    v.push(String::from_str("-c:v"));
    v.push(String::from_str("h264"));
    v.push(String::from_str("-crf"));
    v.push(u32_to_decimal(quality));
    v.push(String::from_str("-y"));
    v.push(String::from_str(output_path));
    v
}

/// The argument list of one probe run: quiet, JSON output, the container
/// format and the streams, then the input path.
pub fn probe_args(path: &str) -> (r: Vec<String>)
    ensures
        r@.len() == 7,
        r@[0]@ == "-v"@,
        r@[1]@ == "quiet"@,
        r@[2]@ == "-print_format"@,
        r@[3]@ == "json"@,
        r@[4]@ == "-show_format"@,
        r@[5]@ == "-show_streams"@,
        r@[6]@ == path@,
{
    let mut v: Vec<String> = Vec::new();
    v.push(String::from_str("-v"));
    v.push(String::from_str("quiet"));
    v.push(String::from_str("-print_format"));
    v.push(String::from_str("json"));
    v.push(String::from_str("-show_format"));
    v.push(String::from_str("-show_streams"));
    v.push(String::from_str(path));
    v
}

/// Interpret the transcode tool's exit: success exactly on exit code zero.
pub fn generate_proxy_outcome(exit_success: bool) -> (r: Result<(), String>)
    ensures
        r is Ok <==> exit_success,
        r matches Err(e) ==> e@ == "FFmpeg proxy generation failed"@ && e@.len() > 0,
{
    if exit_success {
        Ok(())
    } else {
        proof {
            reveal_strlit("FFmpeg proxy generation failed");
        }
        Err(String::from_str("FFmpeg proxy generation failed"))
    }
}

/// The on-disk path of one record's proxy artifact: the proxy directory, a
/// separator, the identifier, and a fixed suffix.
pub fn proxy_output_path(proxy_dir: &str, id: &str) -> (r: String)
    ensures
        r@ == proxy_dir@ + "/"@ + id@ + "_proxy.mp4"@,
{
    let mut s = String::from_str(proxy_dir);
    s.append("/");
    s.append(id);
    s.append("_proxy.mp4");
    proof {
        assert(s@ =~= proxy_dir@ + "/"@ + id@ + "_proxy.mp4"@);
    }
    s
}

} // verus!
