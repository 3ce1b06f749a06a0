//! Encoding raw interleaved `f32le` PCM into an audio file with FFmpeg.
//!
//! The library decides what to run: it refuses empty audio and paths that are
//! not text, chooses the format, and builds FFmpeg's argument list. Running
//! FFmpeg (feeding it the samples on stdin and checking its exit status) is
//! the caller's part.
use vstd::prelude::*;
use crate::format::{RecordingFormat, spec_from_path};
use crate::text::{decimal, decimal_string, digits_value, law_decimal_reads_back};

verus! {

/// Why an encode job cannot be prepared.
#[derive(Debug, Clone, Copy, PartialEq, Eq, Structural)]
pub enum EncodeError {
    /// There are no audio bytes to encode.
    NoAudioData,
    /// The output path is not valid UTF-8 text.
    InvalidOutputPath,
}

/// One FFmpeg run: the format it writes and its full argument list.
pub struct EncodeJob {
    pub format: RecordingFormat,
    pub args: Vec<String>,
}

/// The texts of a sequence of strings.
pub open spec fn string_texts(v: Seq<String>) -> Seq<Seq<char>> {
    v.map_values(|s: String| s@)
}

/// FFmpeg arguments that read mono-or-more `f32le` samples at `sample_rate`
/// from stdin and write `output` in `format`, overwriting it.
pub open spec fn spec_encode_args(
    sample_rate: nat,
    channels: nat,
    output: Seq<char>,
    format: RecordingFormat,
) -> Seq<Seq<char>> {
    seq![
        "-f"@,
        "f32le"@,
        "-ar"@,
        decimal(sample_rate),
        "-ac"@,
        decimal(channels),
        "-i"@,
        "pipe:0"@,
    ] + format.spec_ffmpeg_output_args() + seq!["-y"@, output]
}

/// The encode arguments read raw 32-bit float little-endian samples from
/// stdin, declaring the sample rate after `-ar` and the channel count after
/// `-ac` (each in decimal, reading back as the value passed); then come the
/// format's own output arguments, and last `-y` and the output path.
pub proof fn law_encode_args_layout(
    sample_rate: nat,
    channels: nat,
    output: Seq<char>,
    format: RecordingFormat,
)
    ensures
        ({
            let a = spec_encode_args(sample_rate, channels, output, format);
            let n = a.len();
            &&& n == 10 + format.spec_ffmpeg_output_args().len()
            &&& a[0] == "-f"@
            &&& a[1] == "f32le"@
            &&& a[2] == "-ar"@
            &&& a[3] == decimal(sample_rate)
            &&& digits_value(a[3]) == sample_rate
            &&& a[4] == "-ac"@
            &&& a[5] == decimal(channels)
            &&& digits_value(a[5]) == channels
            &&& a[6] == "-i"@
            &&& a[7] == "pipe:0"@
            &&& a.subrange(8, n - 2) == format.spec_ffmpeg_output_args()
            &&& a[n - 2] == "-y"@
            &&& a[n - 1] == output
        }),
{
    law_decimal_reads_back(sample_rate, channels);
    law_decimal_reads_back(channels, sample_rate);
    let a = spec_encode_args(sample_rate, channels, output, format);
    let o = format.spec_ffmpeg_output_args();
    assert(a.subrange(8, a.len() - 2) =~= o);
}

/// The format a file is encoded in when only its path is given: the one its
/// extension names, or the default (MP3) for an unknown or missing extension.
pub open spec fn spec_format_for_path(output_path: Option<Seq<char>>) -> RecordingFormat {
    match output_path {
        Some(p) => match spec_from_path(p) {
            Some(f) => f,
            None => RecordingFormat::Mp3,
        },
        None => RecordingFormat::Mp3,
    }
}

/// The outcome of preparing an encode: the job, or the error, in the order
/// the checks are made (no data first, then a path that is not text).
pub open spec fn spec_encode_outcome(
    data_len: nat,
    sample_rate: nat,
    channels: nat,
    output_path: Option<Seq<char>>,
    format: RecordingFormat,
    r: Result<EncodeJob, EncodeError>,
) -> bool {
    if data_len == 0 {
        r == Err::<EncodeJob, EncodeError>(EncodeError::NoAudioData)
    } else {
        match output_path {
            None => r == Err::<EncodeJob, EncodeError>(EncodeError::InvalidOutputPath),
            Some(p) => match r {
                Ok(job) => job.format == format && string_texts(job.args@) == spec_encode_args(
                    sample_rate,
                    channels,
                    p,
                    format,
                ),
                Err(_) => false,
            },
        }
    }
}

/// FFmpeg arguments for encoding `f32le` samples from stdin into
/// `output_path` as `format`.
pub fn ffmpeg_encode_args(
    sample_rate: u32,
    channels: u16,
    output_path: &str,
    format: RecordingFormat,
) -> (r: Vec<String>)
    ensures
        string_texts(r@) == spec_encode_args(
            sample_rate as nat,
            channels as nat,
            output_path@,
            format,
        ),
{
    let mut r: Vec<String> = Vec::new();
    r.push(String::from_str("-f"));
    r.push(String::from_str("f32le"));
    r.push(String::from_str("-ar"));
    r.push(decimal_string(sample_rate as u64));
    r.push(String::from_str("-ac"));
    r.push(decimal_string(channels as u64));
    r.push(String::from_str("-i"));
    r.push(String::from_str("pipe:0"));
    let ghost head = string_texts(r@);
    assert(head =~= seq![
        "-f"@,
        "f32le"@,
        "-ar"@,
        decimal(sample_rate as nat),
        "-ac"@,
        decimal(channels as nat),
        "-i"@,
        "pipe:0"@,
    ]);
    let out = format.ffmpeg_output_args();
    let n = out.len();
    let mut i: usize = 0;
    while i < n
        invariant
            i <= n,
            n == out@.len(),
            r@.len() == 8 + i,
            string_texts(r@) =~= head + crate::format::texts(out@).take(i as int),
        decreases n - i,
    {
        let ghost prev = r@;
        r.push(String::from_str(out[i]));
        assert(string_texts(r@) =~= string_texts(prev).push(out@[i as int]@));
        i = i + 1;
        assert(crate::format::texts(out@).take(i as int) =~= crate::format::texts(out@).take(
            (i - 1) as int,
        ).push(out@[i - 1]@));
    }
    let ghost mid = r@;
    r.push(String::from_str("-y"));
    r.push(String::from_str(output_path));
    assert(string_texts(r@) =~= string_texts(mid) + seq!["-y"@, output_path@]);
    assert(crate::format::texts(out@).take(n as int) =~= crate::format::texts(out@));
    assert(string_texts(r@) =~= spec_encode_args(
        sample_rate as nat,
        channels as nat,
        output_path@,
        format,
    ));
    r
}

/// Prepare encoding raw interleaved `f32le` PCM into `output_path` using an
/// explicit format. `output_path` is `None` when the path is not valid UTF-8.
pub fn encode_single_audio_as(
    data: &[u8],
    sample_rate: u32,
    channels: u16,
    output_path: Option<&str>,
    format: RecordingFormat,
) -> (r: Result<EncodeJob, EncodeError>)
    ensures
        spec_encode_outcome(
            data@.len(),
            sample_rate as nat,
            channels as nat,
            crate::format::opt_text(output_path),
            format,
            r,
        ),
{
    if data.len() == 0 {
        return Err(EncodeError::NoAudioData);
    }
    match output_path {
        None => Err(EncodeError::InvalidOutputPath),
        Some(p) => Ok(
            EncodeJob { format, args: ffmpeg_encode_args(sample_rate, channels, p, format) },
        ),
    }
}

/// Prepare encoding raw interleaved `f32le` PCM into an audio file whose
/// codec and container are chosen from `output_path`'s extension: callers
/// control the format simply by naming the file (`audio.mp3`, `audio.wav`,
/// ...). An unrecognised extension falls back to the default recording
/// format rather than failing.
pub fn encode_single_audio(
    data: &[u8],
    sample_rate: u32,
    channels: u16,
    output_path: Option<&str>,
) -> (r: Result<EncodeJob, EncodeError>)
    ensures
        spec_encode_outcome(
            data@.len(),
            sample_rate as nat,
            channels as nat,
            crate::format::opt_text(output_path),
            spec_format_for_path(crate::format::opt_text(output_path)),
            r,
        ),
{
    let format = match output_path {
        Some(p) => match RecordingFormat::from_path(p) {
            Some(f) => f,
            None => RecordingFormat::default(),
        },
        None => RecordingFormat::default(),
    };
    encode_single_audio_as(data, sample_rate, channels, output_path, format)
}

} // verus!
