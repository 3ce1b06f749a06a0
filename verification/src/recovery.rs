//! Recovering audio from the checkpoint files a crashed session left behind.
//!
//! The checkpoints directory is scanned for audio files (WAV today; folders
//! left by older builds may hold MP4 chunks, so any known format counts),
//! they are ordered by file name, which is their write order, and merged into
//! `audio.<ext>` in the user's current format: a stream copy when the
//! checkpoints are already in that format, otherwise one encode.
use vstd::prelude::*;
use vstd::utf8::encode_utf8;
use crate::encode::string_texts;
use crate::format::{RecordingFormat, spec_from_path};
use crate::saver::{final_audio_file_name, spec_final_audio_file_name};
use crate::text::{decimal, decimal_string};

verus! {

/// Byte-wise lexicographic order (the order of paths in one directory).
pub open spec fn bytes_le(a: Seq<u8>, b: Seq<u8>) -> bool
    decreases a.len(),
{
    if a.len() == 0 {
        true
    } else if b.len() == 0 {
        false
    } else if a[0] != b[0] {
        a[0] < b[0]
    } else {
        bytes_le(a.drop_first(), b.drop_first())
    }
}

/// The UTF-8 bytes of a name, by which names are ordered.
pub open spec fn name_key(name: Seq<char>) -> Seq<u8> {
    encode_utf8(name)
}

/// A path that looks like an audio checkpoint this library knows how to merge.
pub open spec fn spec_is_checkpoint_file(path: Seq<char>) -> bool {
    spec_from_path(path) is Some
}

/// `order` lists, by index into `names`, every checkpoint file among `names`
/// exactly once, ordered by name (names that are equal keep their scan order).
pub open spec fn is_merge_order(names: Seq<Seq<char>>, order: Seq<usize>) -> bool {
    &&& forall|k: int|
        0 <= k < order.len() ==> #[trigger] order[k] < names.len() && spec_is_checkpoint_file(
            names[order[k] as int],
        )
    &&& forall|i: int|
        0 <= i < names.len() && spec_is_checkpoint_file(#[trigger] names[i]) ==> order.contains(
            i as usize,
        )
    &&& forall|a: int, b: int|
        #![trigger order[a], order[b]]
        0 <= a < b < order.len() ==> {
            &&& order[a] != order[b]
            &&& bytes_le(name_key(names[order[a] as int]), name_key(names[order[b] as int]))
            &&& name_key(names[order[a] as int]) == name_key(names[order[b] as int]) ==> order[a]
                < order[b]
        }
}

/// Byte order is total.
pub proof fn lemma_bytes_le_total(a: Seq<u8>, b: Seq<u8>)
    ensures
        bytes_le(a, b) || bytes_le(b, a),
    decreases a.len(),
{
    if a.len() > 0 && b.len() > 0 && a[0] == b[0] {
        lemma_bytes_le_total(a.drop_first(), b.drop_first());
    }
}

/// Byte order is antisymmetric.
pub proof fn lemma_bytes_le_antisymmetric(a: Seq<u8>, b: Seq<u8>)
    requires
        bytes_le(a, b),
        bytes_le(b, a),
    ensures
        a == b,
    decreases a.len(),
{
    if a.len() == 0 {
        assert(b.len() == 0);
        assert(a =~= b);
    } else {
        lemma_bytes_le_antisymmetric(a.drop_first(), b.drop_first());
        assert(a =~= seq![a[0]] + a.drop_first());
        assert(b =~= seq![b[0]] + b.drop_first());
    }
}

/// Byte order is transitive.
pub proof fn lemma_bytes_le_transitive(a: Seq<u8>, b: Seq<u8>, c: Seq<u8>)
    requires
        bytes_le(a, b),
        bytes_le(b, c),
    ensures
        bytes_le(a, c),
    decreases a.len(),
{
    if a.len() > 0 && b.len() > 0 && c.len() > 0 && a[0] == b[0] && b[0] == c[0] {
        lemma_bytes_le_transitive(a.drop_first(), b.drop_first(), c.drop_first());
    }
}

/// Whether `a` comes before or with `b` in byte order.
fn name_le(a: &str, b: &str) -> (r: bool)
    ensures
        r == bytes_le(name_key(a@), name_key(b@)),
{
    let x = a.as_bytes();
    let y = b.as_bytes();
    let mut i: usize = 0;
    assert(x@.skip(0) =~= x@);
    assert(y@.skip(0) =~= y@);
    while i < x.len() && i < y.len() && x[i] == y[i]
        invariant
            i <= x@.len(),
            i <= y@.len(),
            bytes_le(x@, y@) == bytes_le(x@.skip(i as int), y@.skip(i as int)),
        decreases x@.len() - i,
    {
        assert(x@.skip(i as int).drop_first() =~= x@.skip(i + 1));
        assert(y@.skip(i as int).drop_first() =~= y@.skip(i + 1));
        i = i + 1;
    }
    if i == x.len() {
        true
    } else if i == y.len() {
        false
    } else {
        x[i] < y[i]
    }
}

/// True when `path` looks like an audio checkpoint this library knows how to
/// merge: its extension names a recording format.
pub fn is_checkpoint_file(path: &str) -> (r: bool)
    ensures
        r == spec_is_checkpoint_file(path@),
{
    RecordingFormat::from_path(path).is_some()
}

/// Whether any of `names` is a checkpoint file.
pub fn any_checkpoint_file(names: &Vec<String>) -> (r: bool)
    ensures
        r == exists|i: int| 0 <= i < names@.len() && spec_is_checkpoint_file(#[trigger] names@[i]@),
{
    let n = names.len();
    let mut i: usize = 0;
    while i < n
        invariant
            i <= n,
            n == names@.len(),
            forall|k: int| 0 <= k < i ==> !spec_is_checkpoint_file(#[trigger] names@[k]@),
        decreases n - i,
    {
        if is_checkpoint_file(names[i].as_str()) {
            return true;
        }
        i = i + 1;
    }
    false
}

/// The checkpoint files among `names` (file names scanned from the
/// checkpoints directory), as indices into `names`, sorted by name.
pub fn checkpoint_merge_order(names: &Vec<String>) -> (r: Vec<usize>)
    ensures
        is_merge_order(string_texts(names@), r@),
{
    let ghost t = string_texts(names@);
    let n = names.len();
    let mut r: Vec<usize> = Vec::new();
    let mut i: usize = 0;
    while i < n
        invariant
            i <= n,
            n == names@.len(),
            t == string_texts(names@),
            forall|k: int| 0 <= k < r@.len() ==> #[trigger] r@[k] < i,
            forall|k: int|
                0 <= k < r@.len() ==> #[trigger] r@[k] < t.len() && spec_is_checkpoint_file(
                    t[r@[k] as int],
                ),
            forall|j: int|
                0 <= j < i && spec_is_checkpoint_file(#[trigger] t[j]) ==> r@.contains(j as usize),
            forall|a: int, b: int|
                #![trigger r@[a], r@[b]]
                0 <= a < b < r@.len() ==> {
                    &&& r@[a] != r@[b]
                    &&& bytes_le(name_key(t[r@[a] as int]), name_key(t[r@[b] as int]))
                    &&& name_key(t[r@[a] as int]) == name_key(t[r@[b] as int]) ==> r@[a] < r@[b]
                },
        decreases n - i,
    {
        assert(t[i as int] == names@[i as int]@);
        if is_checkpoint_file(names[i].as_str()) {
            // Find where `i` goes: after every name that is not greater.
            let mut p = r.len();
            while p > 0 && !name_le(names[r[p - 1]].as_str(), names[i].as_str())
                invariant
                    p <= r@.len(),
                    i < n,
                    n == names@.len(),
                    t == string_texts(names@),
                    forall|k: int| 0 <= k < r@.len() ==> #[trigger] r@[k] < i,
                    forall|q: int|
                        p <= q < r@.len() ==> !bytes_le(
                            name_key(t[#[trigger] r@[q] as int]),
                            name_key(t[i as int]),
                        ),
                decreases p,
            {
                p = p - 1;
            }
            let ghost old_r = r@;
            proof {
                let x = name_key(t[i as int]);
                assert forall|a: int| 0 <= a < p implies bytes_le(
                    name_key(t[#[trigger] old_r[a] as int]),
                    x,
                ) by {
                    if a < p - 1 {
                        lemma_bytes_le_transitive(
                            name_key(t[old_r[a] as int]),
                            name_key(t[old_r[p - 1] as int]),
                            x,
                        );
                    }
                }
                assert forall|q: int| p <= q < old_r.len() implies bytes_le(
                    x,
                    name_key(t[#[trigger] old_r[q] as int]),
                ) && x != name_key(t[old_r[q] as int]) by {
                    lemma_bytes_le_total(x, name_key(t[old_r[q] as int]));
                    if x == name_key(t[old_r[q] as int]) {
                        assert(bytes_le(x, x)) by {
                            lemma_bytes_le_total(x, x);
                        }
                    }
                }
            }
            r.insert(p, i);
            proof {
                assert(r@ =~= old_r.insert(p as int, i));
                assert forall|k: int| 0 <= k < r@.len() implies #[trigger] r@[k] < i + 1 by {
                    if k < p {
                        assert(r@[k] == old_r[k]);
                    } else if k > p {
                        assert(r@[k] == old_r[k - 1]);
                    }
                }
                assert forall|j: int|
                    0 <= j < i + 1 && spec_is_checkpoint_file(#[trigger] t[j]) implies r@.contains(
                    j as usize,
                ) by {
                    if j < i {
                        let k = choose|k: int| 0 <= k < old_r.len() && old_r[k] == j as usize;
                        if k < p {
                            assert(r@[k] == j as usize);
                        } else {
                            assert(r@[k + 1] == j as usize);
                        }
                    } else {
                        assert(r@[p as int] == i);
                    }
                }
            }
        } else {
            proof {
                assert forall|j: int|
                    0 <= j < i + 1 && spec_is_checkpoint_file(#[trigger] t[j]) implies r@.contains(
                    j as usize,
                ) by {}
            }
        }
        i = i + 1;
    }
    r
}

/// How a scanned checkpoints directory is recovered.
pub struct RecoveryPlan {
    /// The checkpoint files to merge, as indices into the scanned names, in
    /// merge order.
    pub checkpoint_files: Vec<usize>,
    /// Number of checkpoint files, as the status reports it (truncated to 32
    /// bits).
    pub chunk_count: u32,
    /// Format the checkpoints are stored in (they are all written by the same
    /// run): that of the first one, WAV when it names none.
    pub checkpoint_format: RecordingFormat,
    /// The checkpoints are already in the target format: merge without
    /// re-encoding.
    pub stream_copy: bool,
    /// File name of the recovered recording, `audio.<ext>` in the target format.
    pub output_file_name: String,
}

/// `r` is the recovery of the checkpoint files among `names` into `target`:
/// none when there is no checkpoint file; else the files in merge order,
/// their count (truncated to 32 bits), the format of the first one (WAV when
/// it names none), whether that already is the target format, and the output
/// file name `audio.<ext>`.
pub open spec fn is_recovery_plan(
    names: Seq<Seq<char>>,
    target: RecordingFormat,
    r: Option<RecoveryPlan>,
) -> bool {
    &&& r is None <==> !(exists|i: int|
        0 <= i < names.len() && spec_is_checkpoint_file(#[trigger] names[i]))
    &&& r matches Some(plan) ==> {
        &&& is_merge_order(names, plan.checkpoint_files@)
        &&& plan.checkpoint_files@.len() > 0
        &&& plan.chunk_count == plan.checkpoint_files@.len() as u32
        &&& plan.checkpoint_format == match spec_from_path(
            names[plan.checkpoint_files@[0] as int],
        ) {
            Some(f) => f,
            None => RecordingFormat::Wav,
        }
        &&& plan.stream_copy == (plan.checkpoint_format == target)
        &&& plan.output_file_name@ == spec_final_audio_file_name(target)
    }
}

/// Plan the recovery of the checkpoint files among `names` (the file names
/// in the checkpoints directory) into a recording in `target`; `None` when
/// there is no checkpoint file.
pub fn plan_recovery(names: &Vec<String>, target: RecordingFormat) -> (r: Option<RecoveryPlan>)
    ensures
        is_recovery_plan(string_texts(names@), target, r),
{
    let order = checkpoint_merge_order(names);
    let ghost t = string_texts(names@);
    if order.len() == 0 {
        proof {
            assert forall|i: int| 0 <= i < t.len() implies !spec_is_checkpoint_file(
                #[trigger] t[i],
            ) by {
                if spec_is_checkpoint_file(t[i]) {
                    assert(order@.contains(i as usize));
                }
            }
        }
        return None;
    }
    proof {
        assert(t[order@[0] as int] == names@[order@[0] as int]@);
    }
    let checkpoint_format = match RecordingFormat::from_path(names[order[0]].as_str()) {
        Some(f) => f,
        None => RecordingFormat::Wav,
    };
    let chunk_count = order.len() as u32;
    Some(
        RecoveryPlan {
            checkpoint_files: order,
            chunk_count,
            checkpoint_format,
            stream_copy: checkpoint_format == target,
            output_file_name: final_audio_file_name(target),
        },
    )
}


/// How the FFmpeg merge of a recovery went.
pub enum MergeRun {
    /// FFmpeg ran and succeeded.
    Succeeded,
    /// FFmpeg ran and failed, printing `stderr`.
    Failed { stderr: String },
    /// FFmpeg could not be run, for the reason `error`.
    NotRun { error: String },
}

/// What a recovery reports (all but its duration estimate).
pub struct RecoveryReport {
    /// `success`, `failed` or `none`.
    pub status: String,
    pub chunk_count: u32,
    /// The recovered recording, when there is one.
    pub audio_file_path: Option<String>,
    pub message: String,
}

/// The report of a recovery that had nothing to merge: no checkpoints
/// directory, or no checkpoint file in it.
pub open spec fn spec_no_recovery_report(directory_found: bool, r: RecoveryReport) -> bool {
    &&& r.status@ == "none"@
    &&& r.chunk_count == 0
    &&& r.audio_file_path is None
    &&& r.message@ == if directory_found {
        "No audio checkpoint files found"@
    } else {
        "No audio checkpoints found"@
    }
}

/// The report of a recovery that merged `chunk_count` checkpoints into
/// `output_path`, given how FFmpeg went.
pub open spec fn spec_recovery_report(
    chunk_count: u32,
    output_path: Seq<char>,
    run: MergeRun,
    r: RecoveryReport,
) -> bool {
    &&& r.chunk_count == chunk_count
    &&& match run {
        MergeRun::Succeeded => {
            &&& r.status@ == "success"@
            &&& r.audio_file_path matches Some(p) && p@ == output_path
            &&& r.message@ == "Successfully recovered "@ + decimal(chunk_count as nat)
                + " audio chunks"@
        },
        MergeRun::Failed { stderr } => {
            &&& r.status@ == "failed"@
            &&& r.audio_file_path is None
            &&& r.message@ == "FFmpeg failed: "@ + stderr@
        },
        MergeRun::NotRun { error } => {
            &&& r.status@ == "failed"@
            &&& r.audio_file_path is None
            &&& r.message@ == "Failed to run FFmpeg: "@ + error@
        },
    }
}

/// The report of a recovery that had nothing to merge.
pub fn no_recovery_report(directory_found: bool) -> (r: RecoveryReport)
    ensures
        spec_no_recovery_report(directory_found, r),
{
    let message = if directory_found {
        String::from_str("No audio checkpoint files found")
    } else {
        String::from_str("No audio checkpoints found")
    };
    RecoveryReport {
        status: String::from_str("none"),
        chunk_count: 0,
        audio_file_path: None,
        message,
    }
}

/// The report of a recovery that merged `chunk_count` checkpoints into
/// `output_path`: `success` with the path when FFmpeg succeeded, `failed`
/// with FFmpeg's error output or the reason it could not run otherwise.
pub fn recovery_report(chunk_count: u32, output_path: &str, run: MergeRun) -> (r: RecoveryReport)
    ensures
        spec_recovery_report(chunk_count, output_path@, run, r),
{
    match run {
        MergeRun::Succeeded => {
            let mut message = String::from_str("Successfully recovered ");
            let count = decimal_string(chunk_count as u64);
            message.append(count.as_str());
            message.append(" audio chunks");
            RecoveryReport {
                status: String::from_str("success"),
                chunk_count,
                audio_file_path: Some(String::from_str(output_path)),
                message,
            }
        },
        MergeRun::Failed { stderr } => {
            let mut message = String::from_str("FFmpeg failed: ");
            message.append(stderr.as_str());
            RecoveryReport {
                status: String::from_str("failed"),
                chunk_count,
                audio_file_path: None,
                message,
            }
        },
        MergeRun::NotRun { error } => {
            let mut message = String::from_str("Failed to run FFmpeg: ");
            message.append(error.as_str());
            RecoveryReport {
                status: String::from_str("failed"),
                chunk_count,
                audio_file_path: None,
                message,
            }
        },
    }
}

} // verus!
