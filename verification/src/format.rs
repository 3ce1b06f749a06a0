//! Recording output formats.
//!
//! While recording, audio is written to checkpoint files that are always WAV:
//! WAV has no encoder delay or padding, so concatenating checkpoints is
//! sample-exact, and a crashed session leaves plain, playable chunks behind.
//! At finalize time the checkpoints are concatenated and encoded once into the
//! format the user chose; when that format is WAV the merge is a stream copy.
use vstd::prelude::*;

verus! {

/// Extension used for on-disk checkpoint files while recording.
pub const CHECKPOINT_EXTENSION: &'static str = "wav";

/// Default recording format for new installs.
pub const DEFAULT_RECORDING_FORMAT: &'static str = "mp3";

/// Formats a recording can be saved as.
#[derive(Debug, Clone, Copy, PartialEq, Eq, Structural)]
pub enum RecordingFormat {
    /// MPEG Layer III. Small files, plays everywhere.
    Mp3,
    /// Uncompressed PCM. Lossless, large files, instant to save.
    Wav,
    /// AAC in an audio-only MPEG-4 container.
    M4a,
    /// Free Lossless Audio Codec. Lossless, roughly half the size of WAV.
    Flac,
    /// AAC in a video MPEG-4 container. Legacy default, kept for compatibility.
    Mp4,
}

/// ASCII lower-casing of one character; every other character is kept.
pub open spec fn lower_ascii_char(c: char) -> char {
    if 'A' <= c && c <= 'Z' {
        ((c as u32) + 32) as char
    } else {
        c
    }
}

/// ASCII lower-casing of a whole text.
pub open spec fn lower_ascii(s: Seq<char>) -> Seq<char> {
    s.map_values(|c: char| lower_ascii_char(c))
}

/// The text with every leading `.` removed.
pub open spec fn trim_leading_dots(s: Seq<char>) -> Seq<char>
    decreases s.len(),
{
    if s.len() > 0 && s[0] == '.' {
        trim_leading_dots(s.drop_first())
    } else {
        s
    }
}

/// The format whose canonical (lower-case) extension is exactly `name`.
pub open spec fn format_named(name: Seq<char>) -> Option<RecordingFormat> {
    if name == "mp3"@ {
        Some(RecordingFormat::Mp3)
    } else if name == "wav"@ {
        Some(RecordingFormat::Wav)
    } else if name == "m4a"@ {
        Some(RecordingFormat::M4a)
    } else if name == "flac"@ {
        Some(RecordingFormat::Flac)
    } else if name == "mp4"@ {
        Some(RecordingFormat::Mp4)
    } else {
        None
    }
}

/// What a file extension denotes: leading dots are ignored and ASCII case
/// does not matter.
pub open spec fn spec_from_extension(ext: Seq<char>) -> Option<RecordingFormat> {
    format_named(lower_ascii(trim_leading_dots(ext)))
}

/// A stored preference: the format it names, or MP3 when it names none.
pub open spec fn spec_parse_or_default(value: Seq<char>) -> RecordingFormat {
    match spec_from_extension(value) {
        Some(f) => f,
        None => RecordingFormat::Mp3,
    }
}

impl RecordingFormat {
    /// File extension, without the leading dot.
    pub open spec fn spec_extension(self) -> Seq<char> {
        match self {
            RecordingFormat::Mp3 => "mp3"@,
            RecordingFormat::Wav => "wav"@,
            RecordingFormat::M4a => "m4a"@,
            RecordingFormat::Flac => "flac"@,
            RecordingFormat::Mp4 => "mp4"@,
        }
    }

    /// Human-readable name.
    pub open spec fn spec_display_name(self) -> Seq<char> {
        match self {
            RecordingFormat::Mp3 => "MP3"@,
            RecordingFormat::Wav => "WAV"@,
            RecordingFormat::M4a => "M4A"@,
            RecordingFormat::Flac => "FLAC"@,
            RecordingFormat::Mp4 => "MP4"@,
        }
    }
}

proof fn lemma_trim_leading_dots_skip(s: Seq<char>, i: int)
    requires
        0 <= i <= s.len(),
        forall|j: int| 0 <= j < i ==> s[j] == '.',
        i == s.len() || s[i] != '.',
    ensures
        trim_leading_dots(s) == s.skip(i),
    decreases i,
{
    if i == 0 {
        assert(s.skip(0) =~= s);
    } else {
        let t = s.drop_first();
        assert forall|j: int| 0 <= j < i - 1 implies t[j] == '.' by {
            assert(t[j] == s[j + 1]);
        }
        lemma_trim_leading_dots_skip(t, i - 1);
        assert(t.skip(i - 1) =~= s.skip(i));
    }
}

fn lower_ascii_exec(c: char) -> (r: char)
    ensures
        r == lower_ascii_char(c),
{
    if 'A' <= c && c <= 'Z' {
        ((c as u8) + 32) as char
    } else {
        c
    }
}

impl RecordingFormat {
    /// Parse a file extension (case-insensitive, leading dots optional).
    pub fn from_extension(ext: &str) -> (r: Option<Self>)
        ensures
            r == spec_from_extension(ext@),
    {
        let n = ext.unicode_len();
        let mut i: usize = 0;
        while i < n && ext.get_char(i) == '.'
            invariant
                i <= n,
                n == ext@.len(),
                forall|j: int| 0 <= j < i ==> ext@[j] == '.',
            decreases n - i,
        {
            i = i + 1;
        }
        proof {
            lemma_trim_leading_dots_skip(ext@, i as int);
        }
        let ghost name = lower_ascii(ext@.skip(i as int));
        proof {
            reveal_strlit("mp3");
            reveal_strlit("wav");
            reveal_strlit("m4a");
            reveal_strlit("flac");
            reveal_strlit("mp4");
        }
        if n - i == 3 {
            let a = lower_ascii_exec(ext.get_char(i));
            let b = lower_ascii_exec(ext.get_char(i + 1));
            let c = lower_ascii_exec(ext.get_char(i + 2));
            assert(name =~= seq![a, b, c]);
            assert(name[0] == a && name[1] == b && name[2] == c);
            if a == 'm' && b == 'p' && c == '3' {
                assert(name =~= "mp3"@);
                Some(RecordingFormat::Mp3)
            } else if a == 'w' && b == 'a' && c == 'v' {
                assert(name =~= "wav"@);
                Some(RecordingFormat::Wav)
            } else if a == 'm' && b == '4' && c == 'a' {
                assert(name =~= "m4a"@);
                Some(RecordingFormat::M4a)
            } else if a == 'm' && b == 'p' && c == '4' {
                assert(name =~= "mp4"@);
                Some(RecordingFormat::Mp4)
            } else {
                None
            }
        } else if n - i == 4 {
            let a = lower_ascii_exec(ext.get_char(i));
            let b = lower_ascii_exec(ext.get_char(i + 1));
            let c = lower_ascii_exec(ext.get_char(i + 2));
            let d = lower_ascii_exec(ext.get_char(i + 3));
            assert(name =~= seq![a, b, c, d]);
            assert(name[0] == a && name[1] == b && name[2] == c && name[3] == d);
            if a == 'f' && b == 'l' && c == 'a' && d == 'c' {
                assert(name =~= "flac"@);
                Some(RecordingFormat::Flac)
            } else {
                None
            }
        } else {
            assert(name.len() == n - i);
            None
        }
    }
}


/// The name `std::path::Path::extension` gives to the extension of a path
/// written as text (the text after the final `.` of the file name).
pub uninterp spec fn path_extension(path: Seq<char>) -> Option<Seq<char>>;

/// The view of an optional borrowed text.
pub open spec fn opt_text(o: Option<&str>) -> Option<Seq<char>> {
    match o {
        Some(s) => Some(s@),
        None => None,
    }
}

/// Position of the last `.` in `s`, or -1 when there is none.
pub open spec fn last_dot(s: Seq<char>) -> int
    decreases s.len(),
{
    if s.len() == 0 {
        -1
    } else if s.last() == '.' {
        s.len() - 1
    } else {
        last_dot(s.drop_last())
    }
}

/// A bare file name: not empty, not `.` or `..`, and free of the characters
/// that separate or prefix path components on any platform.
pub open spec fn is_plain_file_name(p: Seq<char>) -> bool {
    &&& p.len() > 0
    &&& p != "."@
    &&& p != ".."@
    &&& forall|i: int| 0 <= i < p.len() ==> p[i] != '/' && p[i] != '\\' && p[i] != ':'
}

/// The extension of a bare file name: the text after its final `.`; none
/// when the name has no `.`, or when its only `.` is the first character.
pub open spec fn file_name_extension(name: Seq<char>) -> Option<Seq<char>> {
    let k = last_dot(name);
    if k <= 0 {
        None
    } else {
        Some(name.skip(k + 1))
    }
}

/// Position of the last `/` in `s`, or -1 when there is none.
pub open spec fn last_slash(s: Seq<char>) -> int
    decreases s.len(),
{
    if s.len() == 0 {
        -1
    } else if s.last() == '/' {
        s.len() - 1
    } else {
        last_slash(s.drop_last())
    }
}

/// The text after the last `/` of a path (the whole path when it has none).
pub open spec fn final_name(path: Seq<char>) -> Seq<char> {
    path.skip(last_slash(path) + 1)
}

/// A path `dir/name` whose final component is the bare file name `name`:
/// the directory part holds no `\` or `:` (so no platform reads a prefix or
/// another separator in it) and the path does not begin with `//`.
pub open spec fn is_dir_file_path(path: Seq<char>) -> bool {
    let k = last_slash(path);
    &&& k >= 0
    &&& is_plain_file_name(path.skip(k + 1))
    &&& forall|i: int| 0 <= i < k ==> path[i] != '\\' && path[i] != ':'
    &&& !(path.len() >= 2 && path[0] == '/' && path[1] == '/')
}

/// The extension `std::path::Path::extension` gives `path`: the documented
/// rule (`file_name_extension`) applied to the file name, for a bare file
/// name and for a `dir/name` path; for any other path the named result
/// `path_extension`.
pub open spec fn std_extension(path: Seq<char>) -> Option<Seq<char>> {
    if is_plain_file_name(path) {
        file_name_extension(path)
    } else if is_dir_file_path(path) {
        file_name_extension(final_name(path))
    } else {
        path_extension(path)
    }
}

/// The extension that `std::path::Path::extension` finds in `path`, as text.
/// The extension is that of the path's file name, its final component. For a
/// bare file name, and for a `dir/name` path whose final component is a bare
/// file name, the contract states the documented rule on that name: the text
/// after the final `.`, none without an embedded `.` or when the name begins
/// with its only `.`. For other paths the result is the named
/// `path_extension`: the component rules (other separators, `.` and `..`
/// components, prefixes) are not restated.
#[verifier::external_body]
fn std_path_extension(path: &str) -> (r: Option<&str>)
    ensures
        is_plain_file_name(path@) ==> opt_text(r) == file_name_extension(path@),
        is_dir_file_path(path@) ==> opt_text(r) == file_name_extension(final_name(path@)),
        !is_plain_file_name(path@) ==> opt_text(r) == path_extension(path@),
{
    match std::path::Path::new(path).extension() {
        Some(e) => e.to_str(),
        None => None,
    }
}

impl RecordingFormat {
    /// Parse a stored preference string, falling back to the default when the
    /// value is unknown (e.g. preferences written by a newer build).
    pub fn parse_or_default(value: &str) -> (r: Self)
        ensures
            r == spec_parse_or_default(value@),
    {
        match Self::from_extension(value) {
            Some(f) => f,
            None => {
                proof {
                    lemma_default_format_parses();
                }
                Self::from_extension(DEFAULT_RECORDING_FORMAT).unwrap()
            },
        }
    }

    /// Infer the format from an output path's extension.
    pub fn from_path(path: &str) -> (r: Option<Self>)
        ensures
            r == spec_from_path(path@),
    {
        match std_path_extension(path) {
            Some(e) => Self::from_extension(e),
            None => None,
        }
    }

    /// File extension, without the leading dot.
    pub fn extension(&self) -> (r: &'static str)
        ensures
            r@ == self.spec_extension(),
    {
        match self {
            RecordingFormat::Mp3 => "mp3",
            RecordingFormat::Wav => "wav",
            RecordingFormat::M4a => "m4a",
            RecordingFormat::Flac => "flac",
            RecordingFormat::Mp4 => "mp4",
        }
    }

    /// Human-readable name for logs and UI.
    pub fn display_name(&self) -> (r: &'static str)
        ensures
            r@ == self.spec_display_name(),
    {
        match self {
            RecordingFormat::Mp3 => "MP3",
            RecordingFormat::Wav => "WAV",
            RecordingFormat::M4a => "M4A",
            RecordingFormat::Flac => "FLAC",
            RecordingFormat::Mp4 => "MP4",
        }
    }

    /// True when the merge step can stream-copy the WAV checkpoints instead of
    /// re-encoding them.
    pub fn can_stream_copy_from_checkpoints(&self) -> (r: bool)
        ensures
            r == (*self == RecordingFormat::Wav),
    {
        match self {
            RecordingFormat::Wav => true,
            _ => false,
        }
    }

    /// The text of the format: its extension.
    pub fn to_string(&self) -> (r: String)
        ensures
            r@ == self.spec_extension(),
    {
        String::from_str(self.extension())
    }
}

/// The format a path's extension names, if any.
pub open spec fn spec_from_path(path: Seq<char>) -> Option<RecordingFormat> {
    match std_extension(path) {
        Some(e) => spec_from_extension(e),
        None => None,
    }
}

/// The default preference names MP3.
pub proof fn lemma_default_format_parses()
    ensures
        spec_from_extension(DEFAULT_RECORDING_FORMAT@) == Some(RecordingFormat::Mp3),
{
    reveal_strlit("mp3");
    assert(trim_leading_dots("mp3"@) == "mp3"@);
    assert(lower_ascii("mp3"@) =~= "mp3"@);
}

impl Default for RecordingFormat {
    /// The default format: the one `DEFAULT_RECORDING_FORMAT` names.
    fn default() -> (r: Self)
        ensures
            r == RecordingFormat::Mp3,
    {
        proof {
            lemma_default_format_parses();
        }
        Self::parse_or_default(DEFAULT_RECORDING_FORMAT)
    }
}


/// The texts of a sequence of borrowed strings.
pub open spec fn texts(v: Seq<&str>) -> Seq<Seq<char>> {
    v.map_values(|t: &str| t@)
}

impl RecordingFormat {
    /// FFmpeg output arguments (codec and container) for this format.
    ///
    /// Bitrates are tuned for speech: 128k is transparent enough for voice,
    /// while the AAC paths keep 192k so existing recordings stay comparable.
    /// `-f ipod` is FFmpeg's audio-only MPEG-4 muxer, which is what an .m4a
    /// file should be; `-f mp4` would produce a video container.
    pub open spec fn spec_ffmpeg_output_args(self) -> Seq<Seq<char>> {
        match self {
            RecordingFormat::Mp3 => seq!["-c:a"@, "libmp3lame"@, "-b:a"@, "128k"@, "-f"@, "mp3"@],
            RecordingFormat::Wav => seq!["-c:a"@, "pcm_s16le"@, "-f"@, "wav"@],
            RecordingFormat::Flac => seq![
                "-c:a"@,
                "flac"@,
                "-compression_level"@,
                "5"@,
                "-f"@,
                "flac"@,
            ],
            RecordingFormat::M4a => seq![
                "-c:a"@,
                "aac"@,
                "-b:a"@,
                "192k"@,
                "-profile:a"@,
                "aac_low"@,
                "-movflags"@,
                "+faststart"@,
                "-f"@,
                "ipod"@,
            ],
            RecordingFormat::Mp4 => seq![
                "-c:a"@,
                "aac"@,
                "-b:a"@,
                "192k"@,
                "-profile:a"@,
                "aac_low"@,
                "-movflags"@,
                "+faststart"@,
                "-f"@,
                "mp4"@,
            ],
        }
    }

    /// FFmpeg output arguments (codec and container) for this format.
    pub fn ffmpeg_output_args(&self) -> (r: Vec<&'static str>)
        ensures
            texts(r@) == self.spec_ffmpeg_output_args(),
    {
        let r = match self {
            RecordingFormat::Mp3 => vec!["-c:a", "libmp3lame", "-b:a", "128k", "-f", "mp3"],
            RecordingFormat::Wav => vec!["-c:a", "pcm_s16le", "-f", "wav"],
            RecordingFormat::Flac => vec!["-c:a", "flac", "-compression_level", "5", "-f", "flac"],
            RecordingFormat::M4a => vec![
                "-c:a",
                "aac",
                "-b:a",
                "192k",
                "-profile:a",
                "aac_low",
                "-movflags",
                "+faststart",
                "-f",
                "ipod",
            ],
            RecordingFormat::Mp4 => vec![
                "-c:a",
                "aac",
                "-b:a",
                "192k",
                "-profile:a",
                "aac_low",
                "-movflags",
                "+faststart",
                "-f",
                "mp4",
            ],
        };
        assert(texts(r@) =~= self.spec_ffmpeg_output_args());
        r
    }
}

/// Formats a recording can be saved as, in the order shown in the UI.
pub const RECORDING_FORMATS: [&'static str; 5] = ["mp3", "wav", "m4a", "flac", "mp4"];


proof fn lemma_lower_ascii_char_idempotent(c: char)
    ensures
        lower_ascii_char(lower_ascii_char(c)) == lower_ascii_char(c),
{
}

proof fn lemma_trim_lower_commute(s: Seq<char>)
    ensures
        trim_leading_dots(lower_ascii(s)) == lower_ascii(trim_leading_dots(s)),
    decreases s.len(),
{
    if s.len() > 0 {
        assert(lower_ascii(s)[0] == lower_ascii_char(s[0]));
        assert(lower_ascii(s).drop_first() =~= lower_ascii(s.drop_first()));
        if s[0] == '.' {
            lemma_trim_lower_commute(s.drop_first());
        }
    }
}

/// Parsing an extension ignores ASCII case: the lower-cased text names the
/// same format as the text itself.
pub proof fn law_extension_case_insensitive(ext: Seq<char>)
    ensures
        spec_from_extension(lower_ascii(ext)) == spec_from_extension(ext),
{
    lemma_trim_lower_commute(ext);
    let t = trim_leading_dots(ext);
    assert(lower_ascii(lower_ascii(t)) =~= lower_ascii(t)) by {
        assert forall|i: int| 0 <= i < t.len() implies lower_ascii(lower_ascii(t))[i]
            == lower_ascii(t)[i] by {
            lemma_lower_ascii_char_idempotent(t[i]);
        }
    }
}

/// A leading dot is optional: `.ext` names the same format as `ext`.
pub proof fn law_extension_leading_dot_optional(ext: Seq<char>)
    ensures
        spec_from_extension(seq!['.'] + ext) == spec_from_extension(ext),
{
    let d = seq!['.'] + ext;
    assert(d.drop_first() =~= ext);
}

/// Every format's own extension parses back to that format.
pub proof fn law_extension_round_trip(f: RecordingFormat)
    ensures
        spec_from_extension(f.spec_extension()) == Some(f),
{
    reveal_strlit("mp3");
    reveal_strlit("wav");
    reveal_strlit("m4a");
    reveal_strlit("flac");
    reveal_strlit("mp4");
    let e = f.spec_extension();
    assert(e[0] != '.');
    assert(trim_leading_dots(e) == e);
    assert(lower_ascii(e) =~= e);
    match f {
        RecordingFormat::Mp3 => {},
        RecordingFormat::Wav => {
            assert(e != "mp3"@);
        },
        RecordingFormat::M4a => {
            assert(e[1] != "mp3"@[1]);
            assert(e != "wav"@);
        },
        RecordingFormat::Flac => {
            assert(e.len() != "mp3"@.len());
        },
        RecordingFormat::Mp4 => {
            assert(e[2] != "mp3"@[2]);
            assert(e[0] != "wav"@[0]);
            assert(e[1] != "m4a"@[1]);
        },
    }
}

/// A preference holding a format's own extension keeps selecting that format.
pub proof fn law_preference_round_trip(f: RecordingFormat)
    ensures
        spec_parse_or_default(f.spec_extension()) == f,
{
    law_extension_round_trip(f);
}

/// Every advertised format is parseable and round-trips through its
/// extension, and every format is advertised.
pub proof fn law_advertised_formats_round_trip()
    ensures
        forall|i: int|
            0 <= i < RECORDING_FORMATS@.len() ==> {
                &&& spec_from_extension(#[trigger] RECORDING_FORMATS@[i]@) is Some
                &&& spec_from_extension(RECORDING_FORMATS@[i]@)->0.spec_extension()
                    == RECORDING_FORMATS@[i]@
            },
        forall|f: RecordingFormat|
            #![trigger f.spec_extension()]
            exists|i: int|
                0 <= i < RECORDING_FORMATS@.len() && (#[trigger] RECORDING_FORMATS@[i])@
                    == f.spec_extension(),
{
    let a = RECORDING_FORMATS@;
    assert(a.len() == 5);
    assert(a[0]@ == "mp3"@);
    law_extension_round_trip(RecordingFormat::Mp3);
    law_extension_round_trip(RecordingFormat::Wav);
    law_extension_round_trip(RecordingFormat::M4a);
    law_extension_round_trip(RecordingFormat::Flac);
    law_extension_round_trip(RecordingFormat::Mp4);
}

/// Checkpoint files are written as WAV.
pub proof fn law_checkpoints_are_wav()
    ensures
        spec_from_extension(CHECKPOINT_EXTENSION@) == Some(RecordingFormat::Wav),
{
    law_extension_round_trip(RecordingFormat::Wav);
}

/// Every format has FFmpeg output arguments, and they end by naming the
/// container with `-f`.
pub proof fn law_output_args_name_container(f: RecordingFormat)
    ensures
        f.spec_ffmpeg_output_args().len() >= 2,
        f.spec_ffmpeg_output_args()[f.spec_ffmpeg_output_args().len() - 2] == "-f"@,
{
}


/// A stored preference that names no format selects the default format,
/// MP3 (the one `DEFAULT_RECORDING_FORMAT` names); one that names a format
/// selects that format.
pub proof fn law_unknown_preference_is_default(value: Seq<char>)
    ensures
        spec_from_extension(value) is None ==> spec_parse_or_default(value)
            == RecordingFormat::Mp3,
        spec_from_extension(value) matches Some(f) ==> spec_parse_or_default(value) == f,
        spec_from_extension(DEFAULT_RECORDING_FORMAT@) == Some(RecordingFormat::Mp3),
{
    lemma_default_format_parses();
}

/// Each format's FFmpeg arguments name the codec and container it stands for:
/// `-c:a` comes first with MP3's LAME encoder, 16-bit PCM for WAV, FLAC's
/// own encoder, and AAC for both MPEG-4 formats; the bitrate is 128k for MP3
/// and 192k for AAC; `-f` comes last but one, naming the container: the
/// audio-only `ipod` muxer for M4A, the format's extension otherwise. M4A and
/// MP4 differ only in that container.
pub proof fn law_output_args_name_codec_and_container(f: RecordingFormat)
    ensures
        ({
            let a = f.spec_ffmpeg_output_args();
            &&& a.len() >= 4
            &&& a[0] == "-c:a"@
            &&& f == RecordingFormat::Mp3 ==> a[1] == "libmp3lame"@ && a[2] == "-b:a"@ && a[3]
                == "128k"@
            &&& f == RecordingFormat::Wav ==> a[1] == "pcm_s16le"@ && a.len() == 4
            &&& f == RecordingFormat::Flac ==> a[1] == "flac"@ && a[2] == "-compression_level"@
                && a[3] == "5"@
            &&& (f == RecordingFormat::M4a || f == RecordingFormat::Mp4) ==> {
                &&& a[1] == "aac"@
                &&& a[2] == "-b:a"@
                &&& a[3] == "192k"@
                &&& a[4] == "-profile:a"@
                &&& a[5] == "aac_low"@
            }
            &&& a[a.len() - 2] == "-f"@
            &&& a[a.len() - 1] == if f == RecordingFormat::M4a {
                "ipod"@
            } else {
                f.spec_extension()
            }
        }),
        RecordingFormat::M4a.spec_ffmpeg_output_args().drop_last()
            == RecordingFormat::Mp4.spec_ffmpeg_output_args().drop_last(),
{
    let m4a = RecordingFormat::M4a.spec_ffmpeg_output_args();
    let mp4 = RecordingFormat::Mp4.spec_ffmpeg_output_args();
    assert(m4a.drop_last() =~= mp4.drop_last());
}

proof fn lemma_last_slash_before(s: Seq<char>, e: Seq<char>)
    requires
        s.len() > 0,
        s.last() == '/',
        forall|i: int| 0 <= i < e.len() ==> e[i] != '/',
    ensures
        last_slash(s + e) == s.len() - 1,
    decreases e.len(),
{
    if e.len() == 0 {
        assert(s + e =~= s);
    } else {
        assert((s + e).drop_last() =~= s + e.drop_last());
        assert((s + e).last() == e.last());
        lemma_last_slash_before(s, e.drop_last());
    }
}

/// The format of a path depends only on its file name: `dir/name` has the
/// format of `name`, for a bare file name `name` and a directory part with no
/// `\\` or `:` (the path not beginning with `//`).
pub proof fn law_path_format_is_file_names(dir: Seq<char>, name: Seq<char>)
    requires
        is_plain_file_name(name),
        forall|i: int| 0 <= i < dir.len() ==> dir[i] != '\\' && dir[i] != ':',
        !(dir.len() >= 1 && dir[0] == '/' && (dir.len() == 1 || dir[1] == '/')),
    ensures
        spec_from_path(dir + "/"@ + name) == spec_from_path(name),
{
    reveal_strlit("/");
    let s = dir + "/"@;
    let p = s + name;
    assert(p =~= dir + "/"@ + name);
    lemma_last_slash_before(s, name);
    assert(p.skip(s.len() as int) =~= name);
    assert(final_name(p) == name);
    assert(p[dir.len() as int] == '/');
    assert(!is_plain_file_name(p));
    assert forall|i: int| 0 <= i < dir.len() implies p[i] != '\\' && p[i] != ':' by {
        assert(p[i] == dir[i]);
    }
    if p.len() >= 2 && p[0] == '/' && p[1] == '/' {
        if dir.len() == 0 {
            assert(p[1] == name[0]);
        } else {
            assert(p[0] == dir[0]);
            if dir.len() == 1 {
                assert(p[1] == '/');
            } else {
                assert(p[1] == dir[1]);
            }
        }
    }
    assert(is_dir_file_path(p));
}

} // verus!
