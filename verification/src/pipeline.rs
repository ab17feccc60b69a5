//! The acquisition pipeline: stream the archive with cancellation and
//! progress, decompress and unpack it, rectify the raw dump, validate the
//! result, and hand back the dictionary to publish.
use crate::download::{
    any_cancel, concat_chunks, effective_total_size, monotone, run_download, sum_len, ChunkData,
    DownloadOutcome,
};
use crate::extract::{extract, spec_extract, utf8_to_string};
use crate::json::{entries_view, json_dict_entries};
use crate::rectify::{rectify_text, spec_rectified};
use crate::registry::OfflineDict;
use crate::store::Dictionary;
use vstd::prelude::*;

verus! {

/// How a pipeline run fails: cancelled between chunks, a corrupt archive, a
/// raw dump that is not UTF-8, or an assembled text that fails JSON
/// validation.
#[derive(Debug, Clone, Copy, PartialEq, Eq, Structural)]
pub enum PipelineError {
    Cancelled,
    Corrupt,
    Decode,
    Malformed,
}

/// What processing a downloaded archive yields: the rectified, validated
/// text, or the stage that failed. A function of the archive bytes and the
/// registry entry alone — processing the same archive twice yields the same
/// dictionary.
pub open spec fn spec_process(archive: Seq<u8>, name: Seq<char>, code: Seq<char>) -> Result<
    Seq<char>,
    PipelineError,
> {
    match spec_extract(archive, code) {
        None => Err(PipelineError::Corrupt),
        Some(dump_bytes) => if !vstd::utf8::valid_utf8(dump_bytes) {
            Err(PipelineError::Decode)
        } else {
            let text = spec_rectified(vstd::utf8::decode_utf8(dump_bytes), name, code);
            if json_dict_entries(text) is Some {
                Ok(text)
            } else {
                Err(PipelineError::Malformed)
            }
        },
    }
}

/// A successful run's artifacts: the rectified JSON text to persist, and the
/// dictionary parsed back out of it, ready for the lookup store.
pub struct ProcessedDictionary {
    pub text: String,
    pub dictionary: Dictionary,
}

/// Extracts, rectifies and validates a downloaded archive. The outcome is
/// pinned to `spec_process`, a function of the archive bytes and the entry
/// alone, so a second run over identical bytes yields an identical
/// dictionary.
pub fn process_archive(archive: &Vec<u8>, entry: &OfflineDict, workers: usize) -> (r: Result<
    ProcessedDictionary,
    PipelineError,
>)
    requires
        1 <= workers,
    ensures
        match r {
            Ok(out) => spec_process(archive@, entry.name@, entry.code@) == Ok::<
                Seq<char>,
                PipelineError,
            >(out.text@) && json_dict_entries(out.text@) == Some(
                entries_view(out.dictionary.entries@),
            ),
            Err(e) => spec_process(archive@, entry.name@, entry.code@) == Err::<
                Seq<char>,
                PipelineError,
            >(e),
        },
{
    let dump_bytes = match extract(archive, entry.code.as_str()) {
        Ok(b) => b,
        Err(_) => {
            return Err(PipelineError::Corrupt);
        },
    };
    let dump = match utf8_to_string(dump_bytes) {
        Some(s) => s,
        None => {
            return Err(PipelineError::Decode);
        },
    };
    let text = rectify_text(dump.as_str(), entry.name.as_str(), entry.code.as_str(), workers);
    match Dictionary::parse(text.as_str()) {
        Some(d) => Ok(ProcessedDictionary { text, dictionary: d }),
        None => Err(PipelineError::Malformed),
    }
}

/// What a pipeline run leaves behind: the published dictionary or the stage
/// that failed, and the progress percentages emitted along the way. The
/// downloaded archive and the raw dump are transient and kept by no run.
pub struct PipelineRun {
    pub outcome: Result<ProcessedDictionary, PipelineError>,
    pub emitted: Vec<u8>,
}

/// Drives one whole acquisition: download with cancellation and progress,
/// then extraction, rectification and validation. A cancelled run publishes
/// no dictionary; a successful run has emitted 100 before it reports
/// success.
pub fn run_pipeline(
    chunks: &Vec<ChunkData>,
    content_length: Option<u64>,
    entry: &OfflineDict,
    workers: usize,
) -> (r: PipelineRun)
    requires
        entry.wf(),
        1 <= workers,
        sum_len(chunks@) <= u64::MAX,
    ensures
        r.emitted@.len() >= 1,
        r.emitted@[0] == 0,
        monotone(r.emitted@),
        forall|k: int| 0 <= k < r.emitted@.len() ==> r.emitted@[k] <= 100,
        (r.outcome matches Err(PipelineError::Cancelled)) == any_cancel(chunks@),
        r.outcome is Ok ==> r.emitted@.last() == 100,
        !any_cancel(chunks@) ==> match r.outcome {
            Ok(out) => spec_process(concat_chunks(chunks@), entry.name@, entry.code@) == Ok::<
                Seq<char>,
                PipelineError,
            >(out.text@) && json_dict_entries(out.text@) == Some(
                entries_view(out.dictionary.entries@),
            ),
            Err(e) => spec_process(concat_chunks(chunks@), entry.name@, entry.code@) == Err::<
                Seq<char>,
                PipelineError,
            >(e),
        },
{
    let total = effective_total_size(content_length, entry);
    let dl = run_download(total, chunks);
    match dl.outcome {
        DownloadOutcome::Cancelled => PipelineRun {
            outcome: Err(PipelineError::Cancelled),
            emitted: dl.emitted,
        },
        DownloadOutcome::Completed => {
            let archive = match dl.archive {
                Some(a) => a,
                None => vstd::pervasive::unreached(),
            };
            match process_archive(&archive, entry, workers) {
                Ok(out) => PipelineRun { outcome: Ok(out), emitted: dl.emitted },
                Err(e) => PipelineRun { outcome: Err(e), emitted: dl.emitted },
            }
        },
    }
}

} // verus!
