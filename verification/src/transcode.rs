//! Per-segment transcoding contract: the two-stage seek compensation, the
//! exact argument lists for the two external-tool invocations, the scratch
//! and storage naming scheme, and the artifact descriptor handed onward to
//! the assembler.
//!
//! The tool invocations themselves are blocking subprocess calls and live
//! outside the library; everything the tools are told — seek targets,
//! durations, filters, output names — is computed and pinned down here.

use vstd::prelude::*;
use vstd::string::StrSliceExecFns;
use vstd::string::StringExecFns;

verus! {

/// Descriptor of one transcoded segment: what the fan-in assembler and the
/// bookkeeping collaborators need to know about the finished unit of work.
#[derive(Clone, Debug)]
pub struct TranscodeOutput {
    pub job_id: String,
    /// Storage filename of the repackaged transport-stream segment.
    pub transcoded_segment: String,
    /// Global order copied from the originating segment descriptor.
    pub segment_order: i32,
    pub s3_bucket: String,
    pub s3_prefix: String,
    pub object_name: String,
}

/// One second, in milliseconds: the fixed compensation applied around the
/// coarse container-level seek.
pub const SEEK_COMPENSATION_MS: u64 = 1000;

/// Coarse seek target for a segment starting at `start_ms`: one second
/// before the cut, clamped to zero. The clamp is a deliberate policy: a
/// segment starting at the head of the video gets no head start, rather
/// than a negative seek handed to the external tool.
pub open spec fn spec_coarse_seek_ms(start_ms: int) -> int {
    if start_ms >= SEEK_COMPENSATION_MS { start_ms - SEEK_COMPENSATION_MS } else { 0 }
}

/// Fine seek applied after the input is opened: exactly the distance the
/// coarse seek stopped short of the cut.
pub open spec fn spec_fine_seek_ms(start_ms: int) -> int {
    start_ms - spec_coarse_seek_ms(start_ms)
}

/// Coarse seek target, in milliseconds.
pub fn coarse_seek_ms(start_ms: u64) -> (r: u64)
    ensures
        r == spec_coarse_seek_ms(start_ms as int),
{
    if start_ms >= SEEK_COMPENSATION_MS {
        start_ms - SEEK_COMPENSATION_MS
    } else {
        0
    }
}

/// Fine seek distance, in milliseconds.
pub fn fine_seek_ms(start_ms: u64) -> (r: u64)
    ensures
        r == spec_fine_seek_ms(start_ms as int),
{
    if start_ms >= SEEK_COMPENSATION_MS {
        SEEK_COMPENSATION_MS
    } else {
        start_ms
    }
}

/// The two seeks land exactly on the cut: coarse plus fine equals the
/// segment start, the coarse target is never negative, and the fine seek
/// never exceeds the one-second compensation.
pub proof fn lemma_seek_compensation_exact(start_ms: u64)
    ensures
        spec_coarse_seek_ms(start_ms as int) + spec_fine_seek_ms(start_ms as int)
            == start_ms as int,
        0 <= spec_coarse_seek_ms(start_ms as int) <= start_ms as int,
        0 <= spec_fine_seek_ms(start_ms as int) <= SEEK_COMPENSATION_MS,
{
}

/// The decimal digits of `n`, most significant first, without sign or
/// leading zeros (`0` itself is the single digit `0`).
pub open spec fn dec_digits(n: int) -> Seq<char>
    decreases n,
{
    if n < 10 {
        seq![digit_char(n)]
    } else {
        dec_digits(n / 10).push(digit_char(n % 10))
    }
}

/// The character for one decimal digit.
pub open spec fn digit_char(d: int) -> char {
    if d == 0 {
        '0'
    } else if d == 1 {
        '1'
    } else if d == 2 {
        '2'
    } else if d == 3 {
        '3'
    } else if d == 4 {
        '4'
    } else if d == 5 {
        '5'
    } else if d == 6 {
        '6'
    } else if d == 7 {
        '7'
    } else if d == 8 {
        '8'
    } else {
        '9'
    }
}

/// Append the single digit `d` to `s`.
fn push_digit(s: &mut String, d: u64)
    requires
        d < 10,
    ensures
        final (s)@ == old(s)@.push(digit_char(d as int)),
{
    let c: &str = if d == 0 {
        "0"
    } else if d == 1 {
        "1"
    } else if d == 2 {
        "2"
    } else if d == 3 {
        "3"
    } else if d == 4 {
        "4"
    } else if d == 5 {
        "5"
    } else if d == 6 {
        "6"
    } else if d == 7 {
        "7"
    } else if d == 8 {
        "8"
    } else {
        "9"
    };
    proof {
        reveal_strlit("0");
        reveal_strlit("1");
        reveal_strlit("2");
        reveal_strlit("3");
        reveal_strlit("4");
        reveal_strlit("5");
        reveal_strlit("6");
        reveal_strlit("7");
        reveal_strlit("8");
        reveal_strlit("9");
        assert(c@ =~= seq![digit_char(d as int)]);
    }
    s.append(c);
    proof {
        assert(s@ =~= old(s)@.push(digit_char(d as int)));
    }
}

/// Render `n` in decimal.
pub fn u64_to_dec(n: u64) -> (r: String)
    ensures
        r@ == dec_digits(n as int),
    decreases n,
{
    if n < 10 {
        let mut s = String::new();
        push_digit(&mut s, n);
        proof {
            assert(s@ =~= dec_digits(n as int));
        }
        s
    } else {
        let mut s = u64_to_dec(n / 10);
        push_digit(&mut s, n % 10);
        s
    }
}

/// The millisecond fraction of a second, rendered as exactly three
/// decimal digits.
pub open spec fn pad3(f: int) -> Seq<char> {
    if f < 10 {
        seq!['0', '0'] + dec_digits(f)
    } else if f < 100 {
        seq!['0'] + dec_digits(f)
    } else {
        dec_digits(f)
    }
}

/// `ms` milliseconds rendered as seconds for the external tool: the whole
/// seconds in decimal, and — only when the value is not a whole second —
/// a dot and the three-digit millisecond fraction.
pub open spec fn spec_seconds_str(ms: int) -> Seq<char> {
    if ms % 1000 == 0 {
        dec_digits(ms / 1000)
    } else {
        dec_digits(ms / 1000) + seq!['.'] + pad3(ms % 1000)
    }
}

/// Render a millisecond count as a seconds argument for the external tool.
pub fn format_seconds_ms(ms: u64) -> (r: String)
    ensures
        r@ == spec_seconds_str(ms as int),
{
    let q = ms / 1000;
    let f = ms % 1000;
    let mut s = u64_to_dec(q);
    if f == 0 {
        return s;
    }
    proof {
        reveal_strlit(".");
        reveal_strlit("0");
        reveal_strlit("00");
    }
    s.append(".");
    if f < 10 {
        s.append("00");
    } else if f < 100 {
        s.append("0");
    }
    let frac = u64_to_dec(f);
    s.append(frac.as_str());
    proof {
        assert(s@ =~= spec_seconds_str(ms as int));
    }
    s
}

/// Scratch filename for the extracted segment of the given order.
pub fn segment_mp4_filename(order: u64) -> (r: String)
    ensures
        r@ == "tmp_"@ + dec_digits(order as int) + ".mp4"@,
{
    let mut s = String::from_str("tmp_");
    let digits = u64_to_dec(order);
    s.append(digits.as_str());
    s.append(".mp4");
    proof {
        assert(s@ =~= "tmp_"@ + dec_digits(order as int) + ".mp4"@);
    }
    s
}

/// Storage filename for the repackaged transport-stream segment of the
/// given order.
pub fn segment_ts_filename(order: u64) -> (r: String)
    ensures
        r@ == "tmp_"@ + dec_digits(order as int) + ".ts"@,
{
    let mut s = String::from_str("tmp_");
    let digits = u64_to_dec(order);
    s.append(digits.as_str());
    s.append(".ts");
    proof {
        assert(s@ =~= "tmp_"@ + dec_digits(order as int) + ".ts"@);
    }
    s
}

/// Path of a scratch file in the worker's temporary workspace.
pub fn scratch_path(filename: &str) -> (r: String)
    ensures
        r@ == "/tmp/"@ + filename@,
{
    let mut s = String::from_str("/tmp/");
    s.append(filename);
    s
}

/// Storage key under which an encoded artifact or a manifest is stored:
/// `output/{job_id}/{filename}`.
pub fn storage_key(job_id: &str, filename: &str) -> (r: String)
    ensures
        r@ == "output/"@ + job_id@ + "/"@ + filename@,
{
    let mut s = String::from_str("output/");
    s.append(job_id);
    s.append("/");
    s.append(filename);
    proof {
        assert(s@ =~= "output/"@ + job_id@ + "/"@ + filename@);
    }
    s
}

/// Argument list for the first external-tool invocation: extraction with
/// seek compensation. A coarse fast seek lands one second before the cut
/// (clamped to zero at the head of the video), a fine seek of the
/// remaining distance runs after the input is open, and exactly the
/// segment's duration is extracted; video is re-encoded at the fixed
/// target height with stitchable segments, audio is copied.
pub fn extraction_args(presigned_url: &str, start_ms: u64, duration_ms: u64, output_path: &str)
    -> (args: Vec<String>)
    ensures
        args@.len() == 18,
        args@[0]@ == "-v"@,
        args@[1]@ == "error"@,
        args@[2]@ == "-ss"@,
        args@[3]@ == spec_seconds_str(spec_coarse_seek_ms(start_ms as int)),
        args@[4]@ == "-i"@,
        args@[5]@ == presigned_url@,
        args@[6]@ == "-ss"@,
        args@[7]@ == spec_seconds_str(spec_fine_seek_ms(start_ms as int)),
        args@[8]@ == "-t"@,
        args@[9]@ == spec_seconds_str(duration_ms as int),
        args@[10]@ == "-vf"@,
        args@[11]@ == "scale=-1:720"@,
        args@[12]@ == "-x264opts"@,
        args@[13]@ == "stitchable"@,
        args@[14]@ == "-c:a"@,
        args@[15]@ == "copy"@,
        args@[16]@ == "-y"@,
        args@[17]@ == output_path@,
{
    let mut args: Vec<String> = Vec::new();
    args.push(String::from_str("-v"));
    args.push(String::from_str("error"));
    args.push(String::from_str("-ss"));
    args.push(format_seconds_ms(coarse_seek_ms(start_ms)));
    args.push(String::from_str("-i"));
    args.push(String::from_str(presigned_url));
    args.push(String::from_str("-ss"));
    args.push(format_seconds_ms(fine_seek_ms(start_ms)));
    args.push(String::from_str("-t"));
    args.push(format_seconds_ms(duration_ms));
    args.push(String::from_str("-vf"));
    args.push(String::from_str("scale=-1:720"));
    args.push(String::from_str("-x264opts"));
    args.push(String::from_str("stitchable"));
    args.push(String::from_str("-c:a"));
    args.push(String::from_str("copy"));
    args.push(String::from_str("-y"));
    args.push(String::from_str(output_path));
    args
}

/// Argument list for the second external-tool invocation: repackage the
/// extracted container into a streaming-transport container, copying both
/// streams and applying the bitstream filter that converts the boxed
/// elementary stream to annex-B form.
pub fn repackage_args(mp4_path: &str, ts_path: &str) -> (args: Vec<String>)
    ensures
        args@.len() == 10,
        args@[0]@ == "-y"@,
        args@[1]@ == "-i"@,
        args@[2]@ == mp4_path@,
        args@[3]@ == "-vcodec"@,
        args@[4]@ == "copy"@,
        args@[5]@ == "-acodec"@,
        args@[6]@ == "copy"@,
        args@[7]@ == "-bsf:v"@,
        args@[8]@ == "h264_mp4toannexb"@,
        args@[9]@ == ts_path@,
{
    let mut args: Vec<String> = Vec::new();
    args.push(String::from_str("-y"));
    args.push(String::from_str("-i"));
    args.push(String::from_str(mp4_path));
    args.push(String::from_str("-vcodec"));
    args.push(String::from_str("copy"));
    args.push(String::from_str("-acodec"));
    args.push(String::from_str("copy"));
    args.push(String::from_str("-bsf:v"));
    args.push(String::from_str("h264_mp4toannexb"));
    args.push(String::from_str(ts_path));
    args
}

/// The artifact descriptor for a finished segment: the storage filename
/// of the repackaged segment together with the passthrough job fields the
/// downstream collaborators need.
pub fn transcode_artifact(
    job_id: &str,
    order: u64,
    ts_filename: String,
    s3_bucket: &str,
    s3_prefix: &str,
    object_name: &str,
) -> (r: TranscodeOutput)
    requires
        order <= i32::MAX,
    ensures
        r.job_id@ == job_id@,
        r.transcoded_segment == ts_filename,
        r.segment_order == order,
        r.s3_bucket@ == s3_bucket@,
        r.s3_prefix@ == s3_prefix@,
        r.object_name@ == object_name@,
{
    TranscodeOutput {
        job_id: String::from_str(job_id),
        transcoded_segment: ts_filename,
        segment_order: order as i32,
        s3_bucket: String::from_str(s3_bucket),
        s3_prefix: String::from_str(s3_prefix),
        object_name: String::from_str(object_name),
    }
}

} // verus!
