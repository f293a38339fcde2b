use vstd::prelude::*;
use vstd::string::*;
use crate::media::{FrameRate, MediaMetadata};
use crate::text::{all_digits, digit_val, digits_val, is_digit_char, str_eq};

verus! {

#[verifier::external_type_specification]
#[verifier::external_body]
pub struct ExJsonValue(serde_json::Value);

/// Whether a text is one valid JSON document, as serde_json::from_str
/// decides it: a function of the text alone.
pub uninterp spec fn json_parses(s: Seq<char>) -> bool;

/// Relies on serde_json::from_str::<serde_json::Value>: `Some` exactly when
/// the text is one valid JSON document, a function of the text alone.
#[verifier::external_body]
fn json_from_str(s: &str) -> (r: Option<serde_json::Value>)
    ensures
        r is Some <==> json_parses(s@),
{
    serde_json::from_str(s).ok()
}

/// Relies on serde_json::Value::get: member lookup in a JSON object.
#[verifier::external_body]
fn json_get<'a>(v: &'a serde_json::Value, key: &str) -> (r: Option<&'a serde_json::Value>) {
    v.get(key)
}

/// Relies on serde_json::Value::as_str: the text of a JSON string node.
#[verifier::external_body]
fn json_as_str<'a>(v: &'a serde_json::Value) -> (r: Option<&'a str>) {
    v.as_str()
}

/// Relies on serde_json::Value::as_u64: a JSON number node that is an
/// unsigned 64-bit integer.
#[verifier::external_body]
fn json_as_u64(v: &serde_json::Value) -> (r: Option<u64>) {
    v.as_u64()
}

/// Relies on serde_json::Value::as_array: the elements of a JSON array node.
#[verifier::external_body]
fn json_as_array<'a>(v: &'a serde_json::Value) -> (r: Option<&'a Vec<serde_json::Value>>) {
    v.as_array()
}

/// The fields this pipeline reads from one entry of the probe report's
/// `streams` array, as plain values; absent or differently-typed members
/// are unset.
#[derive(Debug)]
pub struct StreamFields {
    pub codec_type: Option<String>,
    pub width: Option<u64>,
    pub height: Option<u64>,
    pub r_frame_rate: Option<String>,
    pub codec_name: Option<String>,
}

/// What this pipeline reads from a whole probe report: the container
/// duration (a decimal string, in seconds) and the stream entries.
#[derive(Debug)]
pub struct ProbeDoc {
    pub duration: Option<String>,
    pub streams: Vec<StreamFields>,
}

fn json_get_string(v: &serde_json::Value, key: &str) -> Option<String> {
    match json_get(v, key) {
        Some(x) => match json_as_str(x) {
            Some(s) => Some(s.to_owned()),
            None => None,
        },
        None => None,
    }
}

fn stream_fields_of(v: &serde_json::Value) -> StreamFields {
    StreamFields {
        codec_type: json_get_string(v, "codec_type"),
        width: match json_get(v, "width") {
            Some(w) => json_as_u64(w),
            None => None,
        },
        height: match json_get(v, "height") {
            Some(h) => json_as_u64(h),
            None => None,
        },
        r_frame_rate: json_get_string(v, "r_frame_rate"),
        codec_name: json_get_string(v, "codec_name"),
    }
}

fn probe_doc_of_json(v: &serde_json::Value) -> ProbeDoc {
    let duration = match json_get(v, "format") {
        Some(f) => json_get_string(f, "duration"),
        None => None,
    };
    let mut streams: Vec<StreamFields> = Vec::new();
    match json_get(v, "streams") {
        Some(sv) => match json_as_array(sv) {
            Some(arr) => {
                let n = arr.len();
                let mut i: usize = 0;
                while i < n
                    invariant
                        n == arr@.len(),
                        i <= n,
                    decreases n - i,
                {
                    let fields = stream_fields_of(&arr[i]);
                    streams.push(fields);
                    i += 1;
                }
            },
            None => {},
        },
        None => {},
    }
    ProbeDoc { duration, streams }
}

/// `i` splits `s` into a non-empty run of digits, then optionally a dot and
/// a (possibly empty) run of digits. At most one index can do so.
pub open spec fn dot_split_ok(s: Seq<char>, i: int) -> bool {
    &&& 0 < i <= s.len()
    &&& all_digits(s.take(i))
    &&& (i < s.len() ==> s[i] == '.' && all_digits(s.subrange(i + 1, s.len() as int)))
}

/// `s` is a decimal duration: digits, optionally followed by a dot and more
/// digits.
pub open spec fn valid_duration(s: Seq<char>) -> bool {
    exists|i: int| dot_split_ok(s, i)
}

pub open spec fn dot_split_pos(s: Seq<char>) -> int {
    choose|i: int| dot_split_ok(s, i)
}

/// The millisecond contribution of the fractional digits: the first three
/// of them, padded with zeros (further digits are beyond millisecond
/// precision and are dropped).
pub open spec fn frac_ms(f: Seq<char>) -> int {
    if f.len() == 0 {
        0
    } else if f.len() == 1 {
        digit_val(f[0]) * 100
    } else if f.len() == 2 {
        digits_val(f) * 10
    } else {
        digits_val(f.take(3))
    }
}

/// Seconds-with-fraction read as integer milliseconds, truncated to
/// millisecond precision; `None` if the text is not a decimal duration or
/// the value does not fit.
pub open spec fn spec_duration_ms(s: Seq<char>) -> Option<i64> {
    if valid_duration(s) {
        let i = dot_split_pos(s);
        let v = digits_val(s.take(i)) * 1000 + (if i < s.len() {
            frac_ms(s.subrange(i + 1, s.len() as int))
        } else {
            0
        });
        if v <= i64::MAX {
            Some(v as i64)
        } else {
            None
        }
    } else {
        None
    }
}

proof fn lemma_dot_split_unique(s: Seq<char>, i: int, j: int)
    requires
        dot_split_ok(s, i),
        dot_split_ok(s, j),
    ensures
        i == j,
{
    if i < j {
        assert(s.take(j)[i] == s[i]);
        assert(is_digit_char(s[i]));
    }
    if j < i {
        assert(s.take(i)[j] == s[j]);
        assert(is_digit_char(s[j]));
    }
}

proof fn lemma_digits_val_small(f: Seq<char>)
    requires
        f.len() <= 3,
    ensures
        f.len() == 0 ==> digits_val(f) == 0,
        f.len() == 1 ==> digits_val(f) == digit_val(f[0]),
        f.len() == 2 ==> digits_val(f) == digit_val(f[0]) * 10 + digit_val(f[1]),
        f.len() == 3 ==> digits_val(f) == digit_val(f[0]) * 100 + digit_val(f[1]) * 10
            + digit_val(f[2]),
    decreases f.len(),
{
    if f.len() > 0 {
        lemma_digits_val_small(f.drop_last());
    }
}

fn digit_at(s: &str, k: usize) -> (r: u64)
    requires
        k < s@.len(),
        is_digit_char(s@[k as int]),
    ensures
        r == digit_val(s@[k as int]),
        r <= 9,
{
    (s.get_char(k) as u64) - 48
}

/// Parse a probe duration ("seconds, with an optional decimal fraction")
/// into integer milliseconds, truncating below the millisecond.
pub fn parse_duration_ms(s: &str) -> (r: Option<i64>)
    ensures
        r == spec_duration_ms(s@),
{
    let n = s.unicode_len();
    let mut i: usize = 0;
    let mut acc: u64 = 0;
    let mut big = false;
    let mut dot_found = false;
    while i < n && !dot_found
        invariant
            n == s@.len(),
            i <= n,
            all_digits(s@.take(i as int)),
            dot_found ==> i < n && s@[i as int] == '.',
            !dot_found ==> forall|k: int| 0 <= k < i ==> s@[k] != '.',
            !big ==> acc == digits_val(s@.take(i as int)),
            big ==> digits_val(s@.take(i as int)) > 1844674407370955160,
        decreases n - i, (if dot_found { 0int } else { 1int }),
    {
        let c = s.get_char(i);
        if c == '.' {
            dot_found = true;
        } else if '0' <= c && c <= '9' {
            proof {
                assert(s@.take(i as int + 1).drop_last() =~= s@.take(i as int));
                assert(s@.take(i as int + 1).last() == s@[i as int]);
            }
            let d: u64 = (c as u64) - 48;
            if !big {
                if acc <= 1844674407370955160u64 {
                    acc = acc * 10 + d;
                } else {
                    big = true;
                }
            }
            i += 1;
        } else {
            proof {
                assert forall|ii: int| !dot_split_ok(s@, ii) by {
                    if dot_split_ok(s@, ii) {
                        if ii <= i as int {
                            assert(ii < s@.len());
                            assert(s@[ii] == '.');
                            if ii < i as int {
                                assert(is_digit_char(s@.take(i as int)[ii]));
                            }
                        } else {
                            assert(s@.take(ii)[i as int] == s@[i as int]);
                            assert(is_digit_char(s@[i as int]));
                        }
                    }
                }
            }
            return None;
        }
    }
    if i == 0 {
        proof {
            assert forall|ii: int| !dot_split_ok(s@, ii) by {
                if dot_split_ok(s@, ii) {
                    assert(0 < ii);
                    assert(s@.take(ii)[0] == s@[0]);
                    assert(is_digit_char(s@[0]));
                    assert(s@[0] == '.');
                }
            }
        }
        return None;
    }
    let ghost iv = i as int;
    let mut frac: u64 = 0;
    if dot_found {
        let mut j: usize = i + 1;
        while j < n
            invariant
                n == s@.len(),
                0 < i < n,
                s@[i as int] == '.',
                all_digits(s@.take(i as int)),
                i + 1 <= j <= n,
                all_digits(s@.subrange(i as int + 1, j as int)),
            decreases n - j,
        {
            let c = s.get_char(j);
            if !('0' <= c && c <= '9') {
                proof {
                    assert forall|ii: int| !dot_split_ok(s@, ii) by {
                        if dot_split_ok(s@, ii) {
                            if ii < i as int {
                                assert(ii < s@.len());
                                assert(s@[ii] == '.');
                                assert(is_digit_char(s@.take(i as int)[ii]));
                            } else if ii == i as int {
                                assert(is_digit_char(
                                    s@.subrange(i as int + 1, s@.len() as int)[j - i - 1],
                                ));
                            } else {
                                assert(s@.take(ii)[i as int] == s@[i as int]);
                                assert(is_digit_char(s@[i as int]));
                            }
                        }
                    }
                }
                return None;
            }
            proof {
                assert(s@.subrange(i as int + 1, j as int + 1).drop_last() =~= s@.subrange(
                    i as int + 1,
                    j as int,
                ));
                assert(s@.subrange(i as int + 1, j as int + 1).last() == s@[j as int]);
            }
            j += 1;
        }
        let ghost fp = s@.subrange(iv + 1, s@.len() as int);
        let d0: u64 = if n - i > 1 {
            proof {
                assert(fp[0] == s@[iv + 1]);
            }
            digit_at(s, i + 1)
        } else {
            0
        };
        let d1: u64 = if n - i > 2 {
            proof {
                assert(fp[1] == s@[iv + 2]);
            }
            digit_at(s, i + 2)
        } else {
            0
        };
        let d2: u64 = if n - i > 3 {
            proof {
                assert(fp[2] == s@[iv + 3]);
            }
            digit_at(s, i + 3)
        } else {
            0
        };
        frac = 100 * d0 + 10 * d1 + d2;
        proof {
            if fp.len() < 3 {
                lemma_digits_val_small(fp);
            } else {
                lemma_digits_val_small(fp.take(3));
                assert(fp.take(3)[0] == fp[0]);
                assert(fp.take(3)[1] == fp[1]);
                assert(fp.take(3)[2] == fp[2]);
            }
            assert(frac == frac_ms(fp));
        }
    }
    proof {
        assert(dot_split_ok(s@, iv));
        assert(valid_duration(s@));
        lemma_dot_split_unique(s@, iv, dot_split_pos(s@));
    }
    if big {
        proof {
            assert(digits_val(s@.take(iv)) * 1000 >= 1844674407370955161 * 1000) by {
                assert(digits_val(s@.take(iv)) >= 1844674407370955161);
            }
        }
        return None;
    }
    if acc > 18446744073709550u64 {
        proof {
            assert(acc * 1000 > 18446744073709550000) by {
                assert(acc >= 18446744073709551);
            }
        }
        return None;
    }
    let ms: u64 = acc * 1000 + frac;
    if ms > 9223372036854775807u64 {
        None
    } else {
        Some(ms as i64)
    }
}

/// `i` splits `s` as "digits, a slash, digits", both runs non-empty. At most
/// one index can do so.
pub open spec fn slash_split_ok(s: Seq<char>, i: int) -> bool {
    &&& 0 < i
    &&& i + 1 < s.len()
    &&& s[i] == '/'
    &&& all_digits(s.take(i))
    &&& all_digits(s.subrange(i + 1, s.len() as int))
}

/// A frame-rate rational "num/den", defined exactly when both parts fit in
/// 32 bits and the denominator is non-zero (the probe tool writes "0/0" for
/// an undefined rate).
pub open spec fn slash_split_pos(s: Seq<char>) -> int {
    choose|i: int| slash_split_ok(s, i)
}

pub open spec fn spec_frame_rate(s: Seq<char>) -> Option<FrameRate> {
    if exists|i: int| slash_split_ok(s, i) {
        let i = slash_split_pos(s);
        let nv = digits_val(s.take(i));
        let dv = digits_val(s.subrange(i + 1, s.len() as int));
        if nv <= u32::MAX && dv <= u32::MAX && dv != 0 {
            Some(FrameRate { num: nv as u32, den: dv as u32 })
        } else {
            None
        }
    } else {
        None
    }
}

proof fn lemma_slash_split_unique(s: Seq<char>, i: int, j: int)
    requires
        slash_split_ok(s, i),
        slash_split_ok(s, j),
    ensures
        i == j,
{
    if i < j {
        assert(s.take(j)[i] == s[i]);
        assert(is_digit_char(s[i]));
    }
    if j < i {
        assert(s.take(i)[j] == s[j]);
        assert(is_digit_char(s[j]));
    }
}

/// Parse a "num/den" rational. An undefined or unparseable ratio yields
/// `None`, never a failure.
pub fn parse_frame_rate(s: &str) -> (r: Option<FrameRate>)
    ensures
        r == spec_frame_rate(s@),
{
    let n = s.unicode_len();
    let mut i: usize = 0;
    let mut num: u64 = 0;
    let mut nbig = false;
    let mut slash_found = false;
    while i < n && !slash_found
        invariant
            n == s@.len(),
            i <= n,
            all_digits(s@.take(i as int)),
            slash_found ==> i < n && s@[i as int] == '/',
            !slash_found ==> forall|k: int| 0 <= k < i ==> s@[k] != '/',
            !nbig ==> num == digits_val(s@.take(i as int)) && num <= u32::MAX,
            nbig ==> digits_val(s@.take(i as int)) > u32::MAX,
        decreases n - i, (if slash_found { 0int } else { 1int }),
    {
        let c = s.get_char(i);
        if c == '/' {
            slash_found = true;
        } else if '0' <= c && c <= '9' {
            proof {
                assert(s@.take(i as int + 1).drop_last() =~= s@.take(i as int));
                assert(s@.take(i as int + 1).last() == s@[i as int]);
            }
            let d: u64 = (c as u64) - 48;
            if !nbig {
                let next = num * 10 + d;
                if next <= 4294967295u64 {
                    num = next;
                } else {
                    nbig = true;
                }
            }
            i += 1;
        } else {
            proof {
                assert forall|ii: int| !slash_split_ok(s@, ii) by {
                    if slash_split_ok(s@, ii) {
                        if ii < i as int {
                            assert(is_digit_char(s@.take(i as int)[ii]));
                        } else if ii == i as int {
                            assert(s@[ii] == '/');
                        } else {
                            assert(s@.take(ii)[i as int] == s@[i as int]);
                            assert(is_digit_char(s@[i as int]));
                        }
                    }
                }
            }
            return None;
        }
    }
    if !slash_found || i == 0 || n - i <= 1 {
        proof {
            assert forall|ii: int| !slash_split_ok(s@, ii) by {
                if slash_split_ok(s@, ii) {
                    if !slash_found {
                        assert(i == n);
                        assert(s@[ii] == '/');
                    } else if i == 0 {
                        assert(s@.take(ii)[0] == s@[0]);
                        assert(is_digit_char(s@[0]));
                        assert(s@[0] == '/');
                    } else {
                        if ii < i as int {
                            assert(is_digit_char(s@.take(i as int)[ii]));
                            assert(s@[ii] == '/');
                        } else if ii > i as int {
                            assert(s@.take(ii)[i as int] == s@[i as int]);
                            assert(is_digit_char(s@[i as int]));
                        }
                    }
                }
            }
        }
        return None;
    }
    let ghost iv = i as int;
    let mut den: u64 = 0;
    let mut dbig = false;
    let mut j: usize = i + 1;
    while j < n
        invariant
            n == s@.len(),
            0 < i < n,
            s@[i as int] == '/',
            all_digits(s@.take(i as int)),
            i + 1 <= j <= n,
            all_digits(s@.subrange(i as int + 1, j as int)),
            !dbig ==> den == digits_val(s@.subrange(i as int + 1, j as int)) && den <= u32::MAX,
            dbig ==> digits_val(s@.subrange(i as int + 1, j as int)) > u32::MAX,
        decreases n - j,
    {
        let c = s.get_char(j);
        if !('0' <= c && c <= '9') {
            proof {
                assert forall|ii: int| !slash_split_ok(s@, ii) by {
                    if slash_split_ok(s@, ii) {
                        if ii < i as int {
                            assert(is_digit_char(s@.take(i as int)[ii]));
                            assert(s@[ii] == '/');
                        } else if ii == i as int {
                            assert(is_digit_char(
                                s@.subrange(i as int + 1, s@.len() as int)[j - i - 1],
                            ));
                        } else {
                            assert(s@.take(ii)[i as int] == s@[i as int]);
                            assert(is_digit_char(s@[i as int]));
                        }
                    }
                }
            }
            return None;
        }
        proof {
            assert(s@.subrange(i as int + 1, j as int + 1).drop_last() =~= s@.subrange(
                i as int + 1,
                j as int,
            ));
            assert(s@.subrange(i as int + 1, j as int + 1).last() == s@[j as int]);
        }
        let d: u64 = (c as u64) - 48;
        if !dbig {
            let next = den * 10 + d;
            if next <= 4294967295u64 {
                den = next;
            } else {
                dbig = true;
            }
        }
        j += 1;
    }
    proof {
        assert(slash_split_ok(s@, iv));
        assert(exists|k: int| slash_split_ok(s@, k));
        lemma_slash_split_unique(s@, iv, slash_split_pos(s@));
    }
    if nbig || dbig || den == 0 {
        return None;
    }
    Some(FrameRate { num: num as u32, den: den as u32 })
}

/// The stream entry is typed as video.
pub open spec fn is_video_stream(s: StreamFields) -> bool {
    s.codec_type matches Some(t) && t@ == "video"@
}

fn is_video_exec(s: &StreamFields) -> (r: bool)
    ensures
        r == is_video_stream(*s),
{
    match &s.codec_type {
        Some(t) => str_eq(t.as_str(), "video"),
        None => false,
    }
}

pub open spec fn has_video(streams: Seq<StreamFields>) -> bool {
    exists|i: int| 0 <= i < streams.len() && is_video_stream(streams[i])
}

/// The first stream entry typed as video, if any: the one the metadata is
/// read from.
pub open spec fn spec_video_stream(streams: Seq<StreamFields>) -> Option<StreamFields> {
    if has_video(streams) {
        let i = choose|i: int|
            0 <= i < streams.len() && is_video_stream(streams[i]) && (forall|j: int|
                0 <= j < i ==> !is_video_stream(streams[j]));
        Some(streams[i])
    } else {
        None
    }
}

/// The millisecond value of the report's duration field, when it parses.
pub open spec fn spec_doc_duration(doc_duration: Option<String>) -> Option<i64> {
    match doc_duration {
        Some(d) => spec_duration_ms(d@),
        None => None,
    }
}

/// Assemble the typed metadata from a probe report: the duration from the
/// container, and width, height, frame rate and codec from the first video
/// stream. Every missing, differently-typed or unparseable field is unset,
/// never a failure.
pub fn metadata_from_doc(doc: &ProbeDoc) -> (r: MediaMetadata)
    ensures
        r.duration_ms == spec_doc_duration(doc.duration),
        match spec_video_stream(doc.streams@) {
            Some(v) => {
                &&& r.width == (match v.width {
                    Some(w) => if w <= u32::MAX {
                        Some(w as u32)
                    } else {
                        None::<u32>
                    },
                    None => None::<u32>,
                })
                &&& r.height == (match v.height {
                    Some(h) => if h <= u32::MAX {
                        Some(h as u32)
                    } else {
                        None::<u32>
                    },
                    None => None::<u32>,
                })
                &&& r.fps == (match v.r_frame_rate {
                    Some(f) => spec_frame_rate(f@),
                    None => None::<FrameRate>,
                })
                &&& r.codec == v.codec_name
            },
            None => {
                &&& r.width is None
                &&& r.height is None
                &&& r.fps is None
                &&& r.codec is None
            },
        },
{
    let duration_ms = match &doc.duration {
        Some(d) => parse_duration_ms(d.as_str()),
        None => None,
    };
    let n = doc.streams.len();
    let mut vi: usize = 0;
    let mut found = false;
    while vi < n && !found
        invariant
            n == doc.streams@.len(),
            vi <= n,
            found ==> vi < n && is_video_stream(doc.streams@[vi as int]),
            forall|k: int| 0 <= k < vi ==> !is_video_stream(doc.streams@[k]),
        decreases n - vi, (if found { 0int } else { 1int }),
    {
        if is_video_exec(&doc.streams[vi]) {
            found = true;
        } else {
            vi += 1;
        }
    }
    if !found {
        proof {
            assert(!has_video(doc.streams@));
        }
        return MediaMetadata { duration_ms, width: None, height: None, fps: None, codec: None };
    }
    proof {
        assert((vi as int) < doc.streams@.len() && is_video_stream(doc.streams@[vi as int]) && (
        forall|j: int| 0 <= j < vi as int ==> !is_video_stream(doc.streams@[j])));
        let ci = choose|i: int|
            0 <= i < doc.streams@.len() && is_video_stream(doc.streams@[i]) && (forall|j: int|
                0 <= j < i ==> !is_video_stream(doc.streams@[j]));
        if ci < vi as int {
            assert(!is_video_stream(doc.streams@[ci]));
        } else if ci > vi as int {
            assert(!is_video_stream(doc.streams@[vi as int]));
        }
        assert(spec_video_stream(doc.streams@) == Some(doc.streams@[vi as int]));
    }
    let v = &doc.streams[vi];
    let width: Option<u32> = match v.width {
        Some(w) => if w <= 4294967295u64 {
            Some(w as u32)
        } else {
            None
        },
        None => None,
    };
    let height: Option<u32> = match v.height {
        Some(h) => if h <= 4294967295u64 {
            Some(h as u32)
        } else {
            None
        },
        None => None,
    };
    let fps: Option<FrameRate> = match &v.r_frame_rate {
        Some(f) => parse_frame_rate(f.as_str()),
        None => None,
    };
    let codec: Option<String> = match &v.codec_name {
        Some(c) => Some(c.clone()),
        None => None,
    };
    MediaMetadata { duration_ms, width, height, fps, codec }
}

/// Interpret one run of the external probe tool. The probe fails exactly
/// when the tool exited non-zero or its output is not valid JSON; a parsed
/// report is turned into metadata by `metadata_from_doc`, whose contract
/// pins the result exactly, and a missing field there is unset, never a
/// failure.
pub fn extract_metadata(tool_success: bool, stdout: &str) -> (r: Result<MediaMetadata, String>)
    ensures
        !tool_success ==> (r matches Err(e) && e@ == "FFprobe metadata extraction failed"@),
        tool_success ==> (r is Ok <==> json_parses(stdout@)),
        (tool_success && !json_parses(stdout@)) ==> (r matches Err(e) && e@
            == "FFprobe output was not valid JSON"@),
        r matches Err(e) ==> e@.len() > 0,
        r is Ok ==> tool_success,
{
    if !tool_success {
        proof {
            reveal_strlit("FFprobe metadata extraction failed");
        }
        return Err(String::from_str("FFprobe metadata extraction failed"));
    }
    match json_from_str(stdout) {
        None => {
            proof {
                reveal_strlit("FFprobe output was not valid JSON");
            }
            Err(String::from_str("FFprobe output was not valid JSON"))
        },
        Some(v) => {
            let doc = probe_doc_of_json(&v);
            Ok(metadata_from_doc(&doc))
        },
    }
}

} // verus!
