//! The decisions of the incremental audio saver.
//!
//! While recording, audio chunks are buffered; once the buffer holds a
//! checkpoint interval's worth of samples (30 seconds at the recording's
//! sample rate) it is written to a numbered WAV checkpoint and cleared, which
//! keeps memory bounded and lets a crashed session be recovered. Finalizing
//! writes what is left, then merges the checkpoints into `audio.<ext>` in the
//! user's format.
//!
//! This module holds the saver's state and decides every step; the caller
//! holds the samples, writes the files and runs FFmpeg, and reports back.
use vstd::prelude::*;
use crate::encode::string_texts;
use crate::format::{RecordingFormat, CHECKPOINT_EXTENSION, law_output_args_name_codec_and_container};
use crate::text::{zero_padded, zero_padded_string};
use vstd::arithmetic::div_mod::{lemma_fundamental_div_mod, lemma_fundamental_div_mod_converse};

verus! {

/// Seconds of audio held before a checkpoint is written.
pub const CHECKPOINT_SECONDS: u64 = 30;

/// Directory, inside the meeting folder, that holds the checkpoint files.
pub const CHECKPOINTS_DIR_NAME: &'static str = ".checkpoints";

/// File, inside the checkpoints directory, that lists the files to merge.
pub const CONCAT_LIST_FILE_NAME: &'static str = "concat_list.txt";

/// Sum of a sequence of sample counts.
pub open spec fn seq_sum(s: Seq<usize>) -> nat
    decreases s.len(),
{
    if s.len() == 0 {
        0
    } else {
        seq_sum(s.drop_last()) + s.last() as nat
    }
}

/// The sum of a prefix never exceeds the sum of the whole.
pub proof fn lemma_seq_sum_prefix(s: Seq<usize>, i: int)
    requires
        0 <= i <= s.len(),
    ensures
        seq_sum(s.take(i)) <= seq_sum(s),
    decreases s.len(),
{
    if i < s.len() {
        assert(s.drop_last().take(i) =~= s.take(i));
        lemma_seq_sum_prefix(s.drop_last(), i);
    } else {
        assert(s.take(i) =~= s);
    }
}

/// Appending a count adds it to the sum.
pub proof fn lemma_seq_sum_push(s: Seq<usize>, x: usize)
    ensures
        seq_sum(s.push(x)) == seq_sum(s) + x,
{
    assert(s.push(x).drop_last() =~= s);
}

/// The saver's state as the contracts speak of it.
pub struct SaverModel {
    /// Sample count of each buffered chunk, oldest first.
    pub buffered: Seq<usize>,
    /// Samples that make a checkpoint due.
    pub interval: nat,
    /// Checkpoints written so far.
    pub count: nat,
    pub sample_rate: nat,
    pub output_format: RecordingFormat,
    /// Sample count of every chunk ever added, in order.
    pub recorded: Seq<usize>,
    /// Sample counts of the chunks of each written checkpoint, in order.
    pub checkpoints: Seq<Seq<usize>>,
}

/// The chunks of `s` that hold samples, in order.
pub open spec fn nonempty_chunks(s: Seq<usize>) -> Seq<usize>
    decreases s.len(),
{
    if s.len() == 0 {
        Seq::empty()
    } else if s.last() == 0 {
        nonempty_chunks(s.drop_last())
    } else {
        nonempty_chunks(s.drop_last()).push(s.last())
    }
}

/// The chunks of all of `cs`, one list after the other.
pub open spec fn joined(cs: Seq<Seq<usize>>) -> Seq<usize>
    decreases cs.len(),
{
    if cs.len() == 0 {
        Seq::empty()
    } else {
        joined(cs.drop_last()) + cs.last()
    }
}

/// File name of checkpoint number `index`: `audio_chunk_{index:03}.wav`.
pub open spec fn spec_checkpoint_file_name(index: nat) -> Seq<char> {
    "audio_chunk_"@ + zero_padded(index, 3) + "."@ + CHECKPOINT_EXTENSION@
}

/// File name of the finished recording: `audio.<ext>`.
pub open spec fn spec_final_audio_file_name(format: RecordingFormat) -> Seq<char> {
    "audio."@ + format.spec_extension()
}

/// What saving the buffer as a checkpoint amounts to.
pub enum CheckpointStep {
    /// The buffer holds no samples: nothing is written.
    Skip,
    /// Write the buffered samples as checkpoint `index` to `file_name` in the
    /// checkpoints directory, encoded as `format` with `channels` channels.
    Write { index: u32, file_name: String, format: RecordingFormat, channels: u16 },
}

impl SaverModel {
    /// Samples in the buffer.
    pub open spec fn buffered_samples(self) -> nat {
        seq_sum(self.buffered)
    }

    /// The buffer has reached the checkpoint threshold.
    pub open spec fn checkpoint_due(self) -> bool {
        self.buffered_samples() >= self.interval
    }

    /// The state after a chunk of `len` samples is buffered.
    pub open spec fn with_chunk(self, len: usize) -> Self {
        SaverModel { buffered: self.buffered.push(len), recorded: self.recorded.push(len), ..self }
    }

    /// No sample is lost, duplicated or reordered: the chunks that hold
    /// samples, in the order they were added, are those of checkpoint 0, 1,
    /// ... and then of the buffer; there is one written checkpoint per count,
    /// and none of them is empty.
    pub open spec fn conserves_samples(self) -> bool {
        &&& self.count == self.checkpoints.len()
        &&& nonempty_chunks(self.recorded) == nonempty_chunks(
            joined(self.checkpoints) + self.buffered,
        )
        &&& forall|k: int| 0 <= k < self.checkpoints.len() ==> seq_sum(#[trigger] self.checkpoints[k]) > 0
    }

    /// `step` is what saving the buffer amounts to in this state.
    pub open spec fn is_step(self, step: CheckpointStep) -> bool {
        if self.buffered_samples() == 0 {
            step is Skip
        } else {
            match step {
                CheckpointStep::Write { index, file_name, format, channels } => {
                    &&& index == self.count
                    &&& file_name@ == spec_checkpoint_file_name(self.count)
                    &&& format == RecordingFormat::Wav
                    &&& channels == 1
                },
                CheckpointStep::Skip => false,
            }
        }
    }

    /// The state after the buffered chunks have been written as the next
    /// checkpoint: they leave the buffer and become that checkpoint.
    pub open spec fn with_checkpoint_written(self) -> Self {
        SaverModel {
            count: self.count + 1,
            checkpoints: self.checkpoints.push(self.buffered),
            buffered: Seq::empty(),
            ..self
        }
    }

    /// The state after a buffer without samples is dropped.
    pub open spec fn with_empty_buffer_dropped(self) -> Self {
        SaverModel { buffered: Seq::empty(), ..self }
    }

    /// The state after the buffer is saved successfully: written as a
    /// checkpoint when it holds samples, dropped otherwise.
    pub open spec fn after_save(self) -> Self {
        if self.buffered_samples() == 0 {
            self.with_empty_buffer_dropped()
        } else {
            self.with_checkpoint_written()
        }
    }

    /// The state after a chunk is added and, when that makes a checkpoint
    /// due, the checkpoint is saved successfully.
    pub open spec fn record_chunk(self, len: usize) -> Self {
        let a = self.with_chunk(len);
        if a.checkpoint_due() {
            a.after_save()
        } else {
            a
        }
    }
}

/// Incremental audio saver state: buffers chunk sizes and decides when a
/// checkpoint is written, what it is called and how the checkpoints are merged.
pub struct IncrementalAudioSaver {
    checkpoint_buffer: Vec<usize>,
    checkpoint_interval_samples: u64,
    checkpoint_count: u32,
    sample_rate: u32,
    output_format: RecordingFormat,
    recorded: Ghost<Seq<usize>>,
    checkpoints: Ghost<Seq<Seq<usize>>>,
}

impl View for IncrementalAudioSaver {
    type V = SaverModel;

    closed spec fn view(&self) -> SaverModel {
        SaverModel {
            buffered: self.checkpoint_buffer@,
            interval: self.checkpoint_interval_samples as nat,
            count: self.checkpoint_count as nat,
            sample_rate: self.sample_rate as nat,
            output_format: self.output_format,
            recorded: self.recorded@,
            checkpoints: self.checkpoints@,
        }
    }
}

impl IncrementalAudioSaver {
    #[verifier::type_invariant]
    closed spec fn inv(self) -> bool {
        &&& seq_sum(self.checkpoint_buffer@) <= usize::MAX
        &&& self.checkpoint_interval_samples == self.sample_rate as u64 * CHECKPOINT_SECONDS
    }

    /// A saver for a recording at `sample_rate` that is finally written in
    /// `output_format`: nothing buffered, no checkpoint written, a checkpoint
    /// every 30 seconds of samples.
    pub fn new(sample_rate: u32, output_format: RecordingFormat) -> (s: Self)
        ensures
            s@ == (SaverModel {
                buffered: Seq::empty(),
                interval: sample_rate as nat * 30,
                count: 0,
                sample_rate: sample_rate as nat,
                output_format,
                recorded: Seq::empty(),
                checkpoints: Seq::empty(),
            }),
            s@.conserves_samples(),
    {
        let s = IncrementalAudioSaver {
            checkpoint_buffer: Vec::new(),
            checkpoint_interval_samples: sample_rate as u64 * CHECKPOINT_SECONDS,
            checkpoint_count: 0,
            sample_rate,
            output_format,
            recorded: Ghost(Seq::empty()),
            checkpoints: Ghost(Seq::empty()),
        };
        proof {
            assert(s@.buffered =~= Seq::<usize>::empty());
            assert(joined(s@.checkpoints) + s@.buffered =~= Seq::<usize>::empty());
        }
        s
    }

    /// Total samples in the buffer.
    pub fn buffered_samples(&self) -> (r: usize)
        ensures
            r == self@.buffered_samples(),
    {
        proof {
            use_type_invariant(self);
        }
        let n = self.checkpoint_buffer.len();
        let mut total: usize = 0;
        let mut i: usize = 0;
        while i < n
            invariant
                i <= n,
                n == self.checkpoint_buffer@.len(),
                total == seq_sum(self.checkpoint_buffer@.take(i as int)),
                seq_sum(self.checkpoint_buffer@) <= usize::MAX,
            decreases n - i,
        {
            proof {
                let s = self.checkpoint_buffer@;
                assert(s.take(i + 1).drop_last() =~= s.take(i as int));
                lemma_seq_sum_prefix(s, i + 1);
            }
            total = total + self.checkpoint_buffer[i];
            i = i + 1;
        }
        proof {
            assert(self.checkpoint_buffer@.take(n as int) =~= self.checkpoint_buffer@);
        }
        total
    }

    /// Buffer an audio chunk of `chunk_len` samples. Returns whether the
    /// buffer has reached the checkpoint threshold, in which case the caller
    /// saves the buffer as a checkpoint (see `next_checkpoint`) and, once
    /// that succeeded, clears it.
    pub fn add_chunk(&mut self, chunk_len: usize) -> (due: bool)
        requires
            old(self)@.buffered_samples() + chunk_len <= usize::MAX,
        ensures
            final(self)@ == old(self)@.with_chunk(chunk_len),
            due == final(self)@.checkpoint_due(),
    {
        proof {
            use_type_invariant(&*self);
            lemma_seq_sum_push(self.checkpoint_buffer@, chunk_len);
        }
        let mut buffer: Vec<usize> = Vec::new();
        std::mem::swap(&mut buffer, &mut self.checkpoint_buffer);
        buffer.push(chunk_len);
        self.checkpoint_buffer = buffer;
        self.recorded = Ghost(self.recorded@.push(chunk_len));
        let total = self.buffered_samples();
        (total as u64) >= self.checkpoint_interval_samples
    }

    /// What saving the buffer as a checkpoint amounts to now: nothing when
    /// it holds no samples, else writing checkpoint number `count` to
    /// `audio_chunk_{count:03}.wav` as mono WAV (checkpoints are always WAV so
    /// that merging them is sample-exact).
    pub fn next_checkpoint(&self) -> (step: CheckpointStep)
        ensures
            self@.is_step(step),
    {
        if self.buffered_samples() == 0 {
            CheckpointStep::Skip
        } else {
            CheckpointStep::Write {
                index: self.checkpoint_count,
                file_name: checkpoint_file_name(self.checkpoint_count),
                format: RecordingFormat::Wav,
                channels: 1,
            }
        }
    }

    /// Record that the buffered chunks have been written as the next
    /// checkpoint (the `Write` step); they leave the buffer.
    pub fn checkpoint_written(&mut self)
        requires
            old(self)@.count < u32::MAX,
            old(self)@.buffered_samples() > 0,
        ensures
            final(self)@ == old(self)@.with_checkpoint_written(),
    {
        proof {
            use_type_invariant(&*self);
        }
        let ghost written = self.checkpoint_buffer@;
        self.checkpoint_count = self.checkpoint_count + 1;
        self.checkpoints = Ghost(self.checkpoints@.push(written));
        self.checkpoint_buffer = Vec::new();
        proof {
            assert(self.checkpoint_buffer@ =~= Seq::<usize>::empty());
        }
    }

    /// Drop a buffer that holds no samples (the `Skip` step).
    pub fn drop_empty_buffer(&mut self)
        requires
            old(self)@.buffered_samples() == 0,
        ensures
            final(self)@ == old(self)@.with_empty_buffer_dropped(),
    {
        proof {
            use_type_invariant(&*self);
        }
        self.checkpoint_buffer = Vec::new();
        proof {
            assert(self.checkpoint_buffer@ =~= Seq::<usize>::empty());
        }
    }

    /// Whether any chunk is buffered.
    pub fn has_buffered_chunks(&self) -> (r: bool)
        ensures
            r == (self@.buffered.len() > 0),
    {
        self.checkpoint_buffer.len() > 0
    }

    /// Current checkpoint count.
    pub fn get_checkpoint_count(&self) -> (r: u32)
        ensures
            r == self@.count,
    {
        self.checkpoint_count
    }

    /// Format the final recording will be written in.
    pub fn get_output_format(&self) -> (r: RecordingFormat)
        ensures
            r == self@.output_format,
    {
        self.output_format
    }

    /// Sample rate of the recording; the checkpoint interval is 30 seconds
    /// of samples at this rate.
    pub fn get_sample_rate(&self) -> (r: u32)
        ensures
            r == self@.sample_rate,
            self@.interval == self@.sample_rate * 30,
    {
        proof {
            use_type_invariant(self);
        }
        self.sample_rate
    }

    /// Samples that make a checkpoint due: 30 seconds at the sample rate.
    /// Every saver keeps this relation, and its buffered samples fit a `usize`.
    pub fn checkpoint_interval_samples(&self) -> (r: u64)
        ensures
            r == self@.interval,
            self@.interval == self@.sample_rate * 30,
            self@.buffered_samples() <= usize::MAX,
    {
        proof {
            use_type_invariant(self);
        }
        self.checkpoint_interval_samples
    }
}

/// File name of checkpoint number `index`: `audio_chunk_{index:03}.wav`.
pub fn checkpoint_file_name(index: u32) -> (r: String)
    ensures
        r@ == spec_checkpoint_file_name(index as nat),
{
    let mut r = String::from_str("audio_chunk_");
    let digits = zero_padded_string(index as u64, 3);
    r.append(digits.as_str());
    r.append(".");
    r.append(CHECKPOINT_EXTENSION);
    r
}

/// File name of the finished recording in `format`: `audio.<ext>`.
pub fn final_audio_file_name(format: RecordingFormat) -> (r: String)
    ensures
        r@ == spec_final_audio_file_name(format),
{
    let mut r = String::from_str("audio.");
    r.append(format.extension());
    r
}


/// Why a recording cannot be finalized.
#[derive(Debug, Clone, Copy, PartialEq, Eq, Structural)]
pub enum FinalizeError {
    /// No checkpoint was ever written: the recording may have failed.
    NoCheckpoints,
}

/// What finalizing a recording does next.
pub enum FinalizeStep {
    /// Save the chunks still buffered, as `step` says.
    SaveRemaining(CheckpointStep),
    /// Merge the checkpoints into `file_name` in the meeting folder.
    Merge { file_name: String },
}

/// FFmpeg arguments that concatenate the files listed in `list_file` (with
/// absolute paths) into `output`: a stream copy when `stream_copy`, otherwise
/// one encode into `target`.
pub open spec fn spec_concat_merge_args(
    list_file: Seq<char>,
    stream_copy: bool,
    target: RecordingFormat,
    output: Seq<char>,
) -> Seq<Seq<char>> {
    seq!["-f"@, "concat"@, "-safe"@, "0"@, "-i"@, list_file] + (if stream_copy {
        seq!["-c"@, "copy"@]
    } else {
        target.spec_ffmpeg_output_args()
    }) + seq!["-y"@, output]
}

/// The merge arguments read the concat list (`-f concat -safe 0 -i <list>`),
/// then either copy the streams (`-c copy`) or encode with exactly the
/// target format's own output arguments, so the codec after `-c:a` is the
/// one the target stands for (LAME for MP3, 16-bit PCM for WAV, FLAC's
/// encoder for FLAC, AAC for M4A and MP4); last come `-y` and the output.
pub proof fn law_merge_args_layout(
    list_file: Seq<char>,
    stream_copy: bool,
    target: RecordingFormat,
    output: Seq<char>,
)
    ensures
        ({
            let a = spec_concat_merge_args(list_file, stream_copy, target, output);
            let n = a.len();
            &&& n >= 10
            &&& a[0] == "-f"@
            &&& a[1] == "concat"@
            &&& a[2] == "-safe"@
            &&& a[3] == "0"@
            &&& a[4] == "-i"@
            &&& a[5] == list_file
            &&& stream_copy ==> n == 10 && a[6] == "-c"@ && a[7] == "copy"@
            &&& !stream_copy ==> {
                &&& a.subrange(6, n - 2) == target.spec_ffmpeg_output_args()
                &&& a[6] == "-c:a"@
                &&& target == RecordingFormat::Mp3 ==> a[7] == "libmp3lame"@
                &&& target == RecordingFormat::Wav ==> a[7] == "pcm_s16le"@
                &&& target == RecordingFormat::Flac ==> a[7] == "flac"@
                &&& (target == RecordingFormat::M4a || target == RecordingFormat::Mp4) ==> a[7]
                    == "aac"@
            }
            &&& a[n - 2] == "-y"@
            &&& a[n - 1] == output
        }),
{
    law_output_args_name_codec_and_container(target);
    let a = spec_concat_merge_args(list_file, stream_copy, target, output);
    let o = target.spec_ffmpeg_output_args();
    if !stream_copy {
        assert(a.subrange(6, a.len() - 2) =~= o);
        assert(a[6] == o[0]);
        assert(a[7] == o[1]);
    }
}

/// One line of an FFmpeg concat list.
pub open spec fn spec_concat_list_entry(path: Seq<char>) -> Seq<char> {
    "file '"@ + path + "'\n"@
}

/// An FFmpeg concat list naming `paths` in order.
pub open spec fn spec_concat_list(paths: Seq<Seq<char>>) -> Seq<char>
    decreases paths.len(),
{
    if paths.len() == 0 {
        Seq::empty()
    } else {
        spec_concat_list(paths.drop_last()) + spec_concat_list_entry(paths.last())
    }
}

/// The checkpoint file names `0 .. count`, in order.
pub open spec fn spec_checkpoint_file_names(count: nat) -> Seq<Seq<char>> {
    Seq::new(count, |i: int| spec_checkpoint_file_name(i as nat))
}

/// FFmpeg arguments that concatenate the files listed in `list_file` into
/// `output`, by stream copy or by one encode into `target`.
pub fn concat_merge_args(
    list_file: &str,
    stream_copy: bool,
    target: RecordingFormat,
    output: &str,
) -> (r: Vec<String>)
    ensures
        string_texts(r@) == spec_concat_merge_args(list_file@, stream_copy, target, output@),
{
    let mut r: Vec<String> = Vec::new();
    r.push(String::from_str("-f"));
    r.push(String::from_str("concat"));
    r.push(String::from_str("-safe"));
    r.push(String::from_str("0"));
    r.push(String::from_str("-i"));
    r.push(String::from_str(list_file));
    let ghost head = string_texts(r@);
    assert(head =~= seq!["-f"@, "concat"@, "-safe"@, "0"@, "-i"@, list_file@]);
    let middle: Vec<&str> = if stream_copy {
        vec!["-c", "copy"]
    } else {
        target.ffmpeg_output_args()
    };
    let ghost mid = crate::format::texts(middle@);
    assert(mid =~= (if stream_copy {
        seq!["-c"@, "copy"@]
    } else {
        target.spec_ffmpeg_output_args()
    }));
    let n = middle.len();
    let mut i: usize = 0;
    while i < n
        invariant
            i <= n,
            n == middle@.len(),
            mid == crate::format::texts(middle@),
            string_texts(r@) =~= head + mid.take(i as int),
        decreases n - i,
    {
        let ghost prev = r@;
        r.push(String::from_str(middle[i]));
        assert(string_texts(r@) =~= string_texts(prev).push(middle@[i as int]@));
        i = i + 1;
        assert(mid.take(i as int) =~= mid.take((i - 1) as int).push(middle@[i - 1]@));
    }
    assert(mid.take(n as int) =~= mid);
    let ghost body = r@;
    r.push(String::from_str("-y"));
    r.push(String::from_str(output));
    assert(string_texts(r@) =~= string_texts(body) + seq!["-y"@, output@]);
    assert(string_texts(r@) =~= spec_concat_merge_args(list_file@, stream_copy, target, output@));
    r
}

/// The FFmpeg concat list for `paths` (absolute paths of the files to merge,
/// in order): one `file '<path>'` line each.
pub fn concat_list(paths: &Vec<String>) -> (r: String)
    ensures
        r@ == spec_concat_list(string_texts(paths@)),
{
    let mut r = String::new();
    let n = paths.len();
    let mut i: usize = 0;
    while i < n
        invariant
            i <= n,
            n == paths@.len(),
            r@ == spec_concat_list(string_texts(paths@).take(i as int)),
        decreases n - i,
    {
        r.append("file '");
        r.append(paths[i].as_str());
        r.append("'\n");
        proof {
            let t = string_texts(paths@);
            assert(t.take(i + 1).drop_last() =~= t.take(i as int));
        }
        i = i + 1;
    }
    proof {
        assert(string_texts(paths@).take(n as int) =~= string_texts(paths@));
    }
    r
}

impl IncrementalAudioSaver {
    /// The file name of the finished recording, `audio.<ext>` in the output
    /// format; an error when no checkpoint was ever written.
    pub fn final_audio_file(&self) -> (r: Result<String, FinalizeError>)
        ensures
            self@.count == 0 ==> r == Err::<String, FinalizeError>(FinalizeError::NoCheckpoints),
            self@.count > 0 ==> (r matches Ok(name) && name@ == spec_final_audio_file_name(
                self@.output_format,
            )),
    {
        if self.checkpoint_count == 0 {
            Err(FinalizeError::NoCheckpoints)
        } else {
            Ok(final_audio_file_name(self.output_format))
        }
    }

    /// The next step of finalizing: while chunks are buffered, save them as a
    /// checkpoint (or drop them when they hold no samples); after that, merge the checkpoints
    /// into `audio.<ext>`, or fail when no checkpoint was ever written.
    pub fn next_finalize_step(&self) -> (r: Result<FinalizeStep, FinalizeError>)
        ensures
            self@.buffered.len() > 0 ==> (r matches Ok(FinalizeStep::SaveRemaining(step))
                && self@.is_step(step)),
            self@.buffered.len() == 0 && self@.count == 0 ==> r == Err::<
                FinalizeStep,
                FinalizeError,
            >(FinalizeError::NoCheckpoints),
            self@.buffered.len() == 0 && self@.count > 0 ==> (r matches Ok(
                FinalizeStep::Merge { file_name },
            ) && file_name@ == spec_final_audio_file_name(self@.output_format)),
    {
        if self.has_buffered_chunks() {
            Ok(FinalizeStep::SaveRemaining(self.next_checkpoint()))
        } else {
            match self.final_audio_file() {
                Ok(file_name) => Ok(FinalizeStep::Merge { file_name }),
                Err(e) => Err(e),
            }
        }
    }

    /// The file names of the checkpoints written so far, in the order they
    /// were written.
    pub fn checkpoint_file_names(&self) -> (r: Vec<String>)
        ensures
            string_texts(r@) == spec_checkpoint_file_names(self@.count),
    {
        let mut r: Vec<String> = Vec::new();
        let mut i: u32 = 0;
        while i < self.checkpoint_count
            invariant
                i <= self.checkpoint_count,
                string_texts(r@) =~= spec_checkpoint_file_names(i as nat),
            decreases self.checkpoint_count - i,
        {
            let ghost prev = r@;
            r.push(checkpoint_file_name(i));
            assert(string_texts(r@) =~= string_texts(prev).push(
                spec_checkpoint_file_name(i as nat),
            ));
            i = i + 1;
        }
        r
    }

    /// FFmpeg arguments that merge the checkpoints listed in `list_file` into
    /// `output`: a stream copy when the output format is WAV (the checkpoint
    /// format), otherwise one encode into the output format, which avoids
    /// per-checkpoint encoder padding drifting transcript timestamps.
    pub fn merge_args(&self, list_file: &str, output: &str) -> (r: Vec<String>)
        ensures
            string_texts(r@) == spec_concat_merge_args(
                list_file@,
                self@.output_format == RecordingFormat::Wav,
                self@.output_format,
                output@,
            ),
    {
        concat_merge_args(
            list_file,
            self.output_format.can_stream_copy_from_checkpoints(),
            self.output_format,
            output,
        )
    }
}


/// The state after `k` chunks of `len` samples each are recorded, every due
/// checkpoint being saved successfully.
pub open spec fn record_chunks(s: SaverModel, len: usize, k: nat) -> SaverModel
    decreases k,
{
    if k == 0 {
        s
    } else {
        record_chunks(s, len, (k - 1) as nat).record_chunk(len)
    }
}

/// How many chunks of `len > 0` samples make a checkpoint due: the fewest
/// whose samples reach `interval` (one when the interval is zero).
pub open spec fn chunks_per_checkpoint(interval: nat, len: nat) -> nat {
    if interval == 0 {
        1
    } else {
        ((interval + len - 1) / len as int) as nat
    }
}

proof fn lemma_seq_sum_repeat(n: nat, len: usize)
    ensures
        seq_sum(Seq::new(n, |i: int| len)) == n * len,
    decreases n,
{
    if n > 0 {
        let s = Seq::new(n, |i: int| len);
        assert(s.drop_last() =~= Seq::new((n - 1) as nat, |i: int| len));
        assert(s.last() == len);
        lemma_seq_sum_repeat((n - 1) as nat, len);
        assert(n * len == (n - 1) * len + len) by (nonlinear_arith);
        assert(seq_sum(s) == seq_sum(s.drop_last()) + len);
    } else {
        assert(n * len == 0) by (nonlinear_arith)
            requires
                n == 0,
        ;
    }
}

/// With `m` the ceiling of `interval / len`, `j` chunks reach the interval
/// exactly when `j >= m`.
proof fn lemma_chunks_reach_interval(interval: nat, len: nat, j: nat)
    requires
        len > 0,
    ensures
        chunks_per_checkpoint(interval, len) >= 1,
        j >= 1 ==> ((j * len >= interval) <==> (j >= chunks_per_checkpoint(interval, len))),
{
    let m = chunks_per_checkpoint(interval, len);
    if interval == 0 {
        assert(j * len >= 0) by (nonlinear_arith);
        if j == 0 {
            assert(j * len == 0);
        }
    } else {
        let x = interval + len - 1;
        lemma_fundamental_div_mod(x as int, len as int);
        let q = x / len as int;
        let r = x % len as int;
        assert(x == len * q + r);
        assert(0 <= r < len);
        assert(q >= 1) by (nonlinear_arith)
            requires
                x == len * q + r,
                0 <= r < len,
                x >= len,
        ;
        assert(q * len >= interval) by (nonlinear_arith)
            requires
                x == len * q + r,
                r <= len - 1,
                x == interval + len - 1,
        ;
        assert((q - 1) * len < interval) by (nonlinear_arith)
            requires
                x == len * q + r,
                r >= 0,
                x == interval + len - 1,
        ;
        if j >= q {
            assert(j * len >= q * len) by (nonlinear_arith)
                requires
                    j >= q,
                    len > 0,
            ;
        } else {
            assert(j * len <= (q - 1) * len) by (nonlinear_arith)
                requires
                    j <= q - 1,
                    len > 0,
            ;
        }
    }
}

proof fn lemma_div_mod_step(k: nat, m: nat)
    requires
        m >= 1,
        k >= 1,
    ensures
        ((k - 1) as nat) % m + 1 == m ==> k % m == 0 && k / m == ((k - 1) as nat) / m + 1,
        ((k - 1) as nat) % m + 1 < m ==> k % m == ((k - 1) as nat) % m + 1 && k / m == ((k
            - 1) as nat) / m,
{
    let p = (k - 1) as nat;
    lemma_fundamental_div_mod(p as int, m as int);
    let q = p / m;
    let r = p % m;
    assert(p == m * q + r);
    if r + 1 == m {
        assert(k == (q + 1) * m + 0) by (nonlinear_arith)
            requires
                p == m * q + r,
                r + 1 == m,
                k == p + 1,
        ;
        lemma_fundamental_div_mod_converse(k as int, m as int, (q + 1) as int, 0);
    } else {
        assert(k == q * m + (r + 1)) by (nonlinear_arith)
            requires
                p == m * q + r,
                k == p + 1,
        ;
        lemma_fundamental_div_mod_converse(k as int, m as int, q as int, (r + 1) as int);
    }
}

/// A checkpoint is written every `m` chunks: starting from an empty buffer,
/// after `k` chunks of `len > 0` samples each (every due checkpoint saved),
/// `k / m` more checkpoints have been written and the last `k % m` chunks
/// are buffered, where `m` is the fewest chunks whose samples reach the
/// 30-second interval. The format and rates do not change.
pub proof fn law_checkpoint_every_interval(s: SaverModel, len: usize, k: nat)
    requires
        s.buffered.len() == 0,
        len > 0,
    ensures
        ({
            let m = chunks_per_checkpoint(s.interval, len as nat);
            let t = record_chunks(s, len, k);
            &&& t.count == s.count + k / m
            &&& t.buffered == Seq::new(k % m, |i: int| len)
            &&& t.interval == s.interval
            &&& t.sample_rate == s.sample_rate
            &&& t.output_format == s.output_format
        }),
    decreases k,
{
    let m = chunks_per_checkpoint(s.interval, len as nat);
    lemma_chunks_reach_interval(s.interval, len as nat, 0);
    if k == 0 {
        assert(s.buffered =~= Seq::new(0, |i: int| len));
    } else {
        let p = (k - 1) as nat;
        law_checkpoint_every_interval(s, len, p);
        let prev = record_chunks(s, len, p);
        let q = p % m;
        let a = prev.with_chunk(len);
        assert(a.buffered =~= Seq::new(q + 1, |i: int| len));
        lemma_seq_sum_repeat(q + 1, len);
        lemma_chunks_reach_interval(s.interval, len as nat, q + 1);
        lemma_div_mod_step(k, m);
        assert((q + 1) * len > 0) by (nonlinear_arith)
            requires
                len > 0,
        ;
        if q + 1 == m {
            assert(a.checkpoint_due());
            assert(Seq::<usize>::empty() =~= Seq::new(k % m, |i: int| len));
        } else {
            assert(!a.checkpoint_due());
        }
    }
}


/// Memory stays bounded: while the interval is positive, a buffer that holds
/// fewer samples than the interval still does after the next chunk is
/// recorded (a due checkpoint being saved successfully).
pub proof fn law_buffer_stays_below_interval(s: SaverModel, len: usize)
    requires
        s.interval > 0,
        s.buffered_samples() < s.interval,
    ensures
        s.record_chunk(len).buffered_samples() < s.interval,
        s.record_chunk(len).count <= s.count + 1,
{
    lemma_seq_sum_push(s.buffered, len);
    let a = s.with_chunk(len);
    if a.checkpoint_due() {
        assert(a.after_save().buffered =~= Seq::<usize>::empty());
    }
}


/// A state-changing call on the saver.
pub enum SaverCall {
    /// `add_chunk` with a chunk of this many samples.
    AddChunk(usize),
    /// `checkpoint_written`.
    CheckpointWritten,
    /// `drop_empty_buffer`.
    DropEmptyBuffer,
}

impl SaverModel {
    /// The state after `call`, as that call's contract gives it.
    pub open spec fn after_call(self, call: SaverCall) -> Self {
        match call {
            SaverCall::AddChunk(len) => self.with_chunk(len),
            SaverCall::CheckpointWritten => self.with_checkpoint_written(),
            SaverCall::DropEmptyBuffer => self.with_empty_buffer_dropped(),
        }
    }

    /// `call` may be made in this state: its `requires` holds.
    pub open spec fn allows(self, call: SaverCall) -> bool {
        match call {
            SaverCall::AddChunk(len) => self.buffered_samples() + len <= usize::MAX,
            SaverCall::CheckpointWritten => self.count < u32::MAX && self.buffered_samples() > 0,
            SaverCall::DropEmptyBuffer => self.buffered_samples() == 0,
        }
    }

    /// The state after `calls`, in order.
    pub open spec fn after_calls(self, calls: Seq<SaverCall>) -> Self
        decreases calls.len(),
    {
        if calls.len() == 0 {
            self
        } else {
            self.after_calls(calls.drop_last()).after_call(calls.last())
        }
    }

    /// Each of `calls` may be made in the state the earlier ones leave.
    pub open spec fn allows_all(self, calls: Seq<SaverCall>) -> bool
        decreases calls.len(),
    {
        if calls.len() == 0 {
            true
        } else {
            self.allows_all(calls.drop_last()) && self.after_calls(calls.drop_last()).allows(
                calls.last(),
            )
        }
    }
}

/// No sequence of calls changes the output format, the sample rate or the
/// checkpoint interval of a saver; the checkpoint count never goes down.
/// (The saver's other calls take it by shared reference.)
pub proof fn law_saver_calls_keep_settings(s: SaverModel, calls: Seq<SaverCall>)
    ensures
        s.after_calls(calls).output_format == s.output_format,
        s.after_calls(calls).sample_rate == s.sample_rate,
        s.after_calls(calls).interval == s.interval,
        s.after_calls(calls).count >= s.count,
    decreases calls.len(),
{
    if calls.len() > 0 {
        law_saver_calls_keep_settings(s, calls.drop_last());
    }
}

proof fn lemma_nonempty_chunks_push(s: Seq<usize>, x: usize)
    ensures
        nonempty_chunks(s.push(x)) == if x == 0 {
            nonempty_chunks(s)
        } else {
            nonempty_chunks(s).push(x)
        },
{
    assert(s.push(x).drop_last() =~= s);
}

/// Appending chunks without samples keeps the chunks that hold samples.
proof fn lemma_nonempty_chunks_append_empty(a: Seq<usize>, b: Seq<usize>)
    requires
        seq_sum(b) == 0,
    ensures
        nonempty_chunks(a + b) == nonempty_chunks(a),
    decreases b.len(),
{
    if b.len() == 0 {
        assert(a + b =~= a);
    } else {
        assert((a + b).drop_last() =~= a + b.drop_last());
        lemma_nonempty_chunks_append_empty(a, b.drop_last());
    }
}

proof fn lemma_seq_sum_append(a: Seq<usize>, b: Seq<usize>)
    ensures
        seq_sum(a + b) == seq_sum(a) + seq_sum(b),
    decreases b.len(),
{
    if b.len() == 0 {
        assert(a + b =~= a);
    } else {
        assert((a + b).drop_last() =~= a + b.drop_last());
        lemma_seq_sum_append(a, b.drop_last());
    }
}

proof fn lemma_seq_sum_nonempty_chunks(s: Seq<usize>)
    ensures
        seq_sum(nonempty_chunks(s)) == seq_sum(s),
    decreases s.len(),
{
    if s.len() > 0 {
        lemma_seq_sum_nonempty_chunks(s.drop_last());
        if s.last() != 0 {
            lemma_seq_sum_push(nonempty_chunks(s.drop_last()), s.last());
        }
    }
}

/// Every allowed call keeps the samples conserved.
pub proof fn law_call_conserves_samples(s: SaverModel, call: SaverCall)
    requires
        s.conserves_samples(),
        s.allows(call),
    ensures
        s.after_call(call).conserves_samples(),
{
    let t = s.after_call(call);
    let j = joined(s.checkpoints);
    match call {
        SaverCall::AddChunk(len) => {
            lemma_nonempty_chunks_push(s.recorded, len);
            assert(j + s.buffered.push(len) =~= (j + s.buffered).push(len));
            lemma_nonempty_chunks_push(j + s.buffered, len);
        },
        SaverCall::CheckpointWritten => {
            assert(t.checkpoints.drop_last() =~= s.checkpoints);
            assert(joined(t.checkpoints) + t.buffered =~= j + s.buffered);
            assert forall|k: int| 0 <= k < t.checkpoints.len() implies seq_sum(
                #[trigger] t.checkpoints[k],
            ) > 0 by {
                if k < s.checkpoints.len() {
                    assert(t.checkpoints[k] == s.checkpoints[k]);
                }
            }
        },
        SaverCall::DropEmptyBuffer => {
            lemma_nonempty_chunks_append_empty(j, s.buffered);
            assert(j + t.buffered =~= j);
        },
    }
}

/// No sample is lost, duplicated or reordered by any sequence of allowed
/// calls: a saver that conserves its samples still does afterwards, so the
/// chunks holding samples, in the order they were added, are always those of
/// checkpoint 0, 1, ... followed by those of the buffer.
pub proof fn law_calls_conserve_samples(s: SaverModel, calls: Seq<SaverCall>)
    requires
        s.conserves_samples(),
        s.allows_all(calls),
    ensures
        s.after_calls(calls).conserves_samples(),
    decreases calls.len(),
{
    if calls.len() > 0 {
        law_calls_conserve_samples(s, calls.drop_last());
        law_call_conserves_samples(s.after_calls(calls.drop_last()), calls.last());
    }
}

/// Every recorded sample is counted once: the samples added equal the
/// samples of the written checkpoints plus those still buffered.
pub proof fn law_samples_accounted(s: SaverModel)
    requires
        s.conserves_samples(),
    ensures
        seq_sum(s.recorded) == seq_sum(joined(s.checkpoints)) + s.buffered_samples(),
{
    lemma_seq_sum_nonempty_chunks(s.recorded);
    lemma_seq_sum_nonempty_chunks(joined(s.checkpoints) + s.buffered);
    lemma_seq_sum_append(joined(s.checkpoints), s.buffered);
}

/// When finalizing reaches the merge (nothing left buffered), the checkpoints
/// `0 .. count`, merged in index order, hold every recorded sample once, in
/// the order it was added, and each of them holds samples.
pub proof fn law_merge_holds_every_sample(s: SaverModel)
    requires
        s.conserves_samples(),
        s.buffered.len() == 0,
    ensures
        s.checkpoints.len() == s.count,
        nonempty_chunks(s.recorded) == nonempty_chunks(joined(s.checkpoints)),
        seq_sum(s.recorded) == seq_sum(joined(s.checkpoints)),
        forall|k: int| 0 <= k < s.count ==> seq_sum(#[trigger] s.checkpoints[k]) > 0,
{
    assert(joined(s.checkpoints) + s.buffered =~= joined(s.checkpoints));
    law_samples_accounted(s);
}

} // verus!
