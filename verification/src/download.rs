//! The download stage, modeled as a session state machine: bytes arrive in
//! chunks, cancellation is checked at each chunk boundary, and progress is
//! reported as a clamped percentage, throttled to one emission per fixed
//! interval, with an unthrottled start event at 0 and completion event at
//! 100.
use crate::registry::OfflineDict;
use vstd::prelude::*;

verus! {

/// The clamped progress percentage for `done` of `total` bytes.
pub open spec fn spec_percentage(done: int, total: int) -> int {
    let p = done * 100 / total;
    if p > 100 {
        100
    } else {
        p
    }
}

/// More bytes never lower the percentage.
pub proof fn lemma_percentage_monotone(d1: int, d2: int, total: int)
    requires
        0 <= d1 <= d2,
        1 <= total,
    ensures
        spec_percentage(d1, total) <= spec_percentage(d2, total),
{
    vstd::arithmetic::div_mod::lemma_div_is_ordered(d1 * 100, d2 * 100, total);
}

/// Computes the clamped percentage without overflow.
pub fn percentage(done: u64, total: u64) -> (p: u8)
    requires
        total >= 1,
    ensures
        p == spec_percentage(done as int, total as int),
        p <= 100,
{
    let raw = (done as u128) * 100 / (total as u128);
    if raw > 100 {
        100
    } else {
        raw as u8
    }
}

/// The download size a session works against: the content length the server
/// declared, when it declared a usable one, else the registry's estimate.
pub open spec fn spec_effective_total(content_length: Option<u64>, length_mb: int) -> int {
    match content_length {
        Some(n) => if n > 0 {
            n as int
        } else {
            length_mb * 0x100000
        },
        None => length_mb * 0x100000,
    }
}

/// Picks the total size for a download: the server's content length when
/// present and positive, else the registry entry's estimate in bytes.
pub fn effective_total_size(content_length: Option<u64>, entry: &OfflineDict) -> (r: u64)
    requires
        entry.wf(),
    ensures
        r as int == spec_effective_total(content_length, entry.length_mb as int),
        r >= 1,
{
    match content_length {
        Some(n) => if n > 0 {
            n
        } else {
            entry.length_mb * 0x100000
        },
        None => entry.length_mb * 0x100000,
    }
}

/// What the downloader decides at a chunk boundary: abort (deleting the
/// destination), or go on, possibly emitting a progress percentage.
pub enum ChunkAction {
    Cancel,
    Proceed { emit: Option<u8> },
}

/// One download in flight: how much of which total has arrived, the last
/// percentage handed to the listener, and when the throttle next opens.
pub struct DownloadSession {
    pub total_size: u64,
    pub bytes_downloaded: u64,
    pub next_emit_secs: u64,
    pub last_emitted: u8,
    pub cancelled: bool,
    pub finished: bool,
}

impl DownloadSession {
    /// The session invariant: percentages stay within 0..=100, what was last
    /// emitted never exceeds the current percentage, and a finished session
    /// has emitted exactly 100.
    pub open spec fn wf(&self) -> bool {
        &&& self.total_size >= 1
        &&& self.last_emitted <= 100
        &&& !self.finished ==> self.last_emitted <= spec_percentage(
            self.bytes_downloaded as int,
            self.total_size as int,
        )
        &&& self.finished ==> self.last_emitted == 100
    }

    /// Opens a session; the unthrottled 0% start event is considered
    /// emitted.
    pub fn new(total_size: u64) -> (s: DownloadSession)
        requires
            total_size >= 1,
        ensures
            s.wf(),
            s.total_size == total_size,
            s.bytes_downloaded == 0,
            s.next_emit_secs == 2,
            s.last_emitted == 0,
            !s.cancelled,
            !s.finished,
    {
        proof {
            vstd::arithmetic::div_mod::lemma_div_basics_1(total_size as int);
        }
        DownloadSession {
            total_size,
            bytes_downloaded: 0,
            next_emit_secs: 2,
            last_emitted: 0,
            cancelled: false,
            finished: false,
        }
    }

    /// One chunk boundary: a requested cancellation aborts before the chunk
    /// is written; otherwise the chunk counts and a progress event is
    /// emitted exactly when the throttle interval has elapsed.
    pub fn on_chunk(&mut self, len: u64, cancel_requested: bool, elapsed_secs: u64) -> (a:
        ChunkAction)
        requires
            old(self).wf(),
            !old(self).cancelled,
            !old(self).finished,
            old(self).bytes_downloaded + len <= u64::MAX,
        ensures
            final(self).wf(),
            final(self).total_size == old(self).total_size,
            !final(self).finished,
            final(self).cancelled == cancel_requested,
            (a is Cancel) == cancel_requested,
            cancel_requested ==> final(self).bytes_downloaded == old(self).bytes_downloaded
                && final(self).last_emitted == old(self).last_emitted,
            !cancel_requested ==> final(self).bytes_downloaded == old(self).bytes_downloaded
                + len && match a {
                ChunkAction::Proceed { emit } => match emit {
                    Some(p) => elapsed_secs >= old(self).next_emit_secs && p == spec_percentage(
                        old(self).bytes_downloaded + len,
                        old(self).total_size as int,
                    ) && old(self).last_emitted <= p <= 100 && final(self).last_emitted == p,
                    None => elapsed_secs < old(self).next_emit_secs && final(self).last_emitted
                        == old(self).last_emitted,
                },
                ChunkAction::Cancel => false,
            },
    {
        if cancel_requested {
            self.cancelled = true;
            return ChunkAction::Cancel;
        }
        let new_bytes = self.bytes_downloaded + len;
        proof {
            lemma_percentage_monotone(
                self.bytes_downloaded as int,
                new_bytes as int,
                self.total_size as int,
            );
        }
        self.bytes_downloaded = new_bytes;
        if elapsed_secs >= self.next_emit_secs {
            let p = percentage(new_bytes, self.total_size);
            self.last_emitted = p;
            self.next_emit_secs = if self.next_emit_secs <= u64::MAX - 2 {
                self.next_emit_secs + 2
            } else {
                self.next_emit_secs
            };
            ChunkAction::Proceed { emit: Some(p) }
        } else {
            ChunkAction::Proceed { emit: None }
        }
    }

    /// The stream ended: the unthrottled 100% completion event, emitted
    /// before the stage reports success.
    pub fn on_complete(&mut self) -> (p: u8)
        requires
            old(self).wf(),
            !old(self).cancelled,
            !old(self).finished,
        ensures
            final(self).wf(),
            final(self).finished,
            !final(self).cancelled,
            p == 100,
            old(self).last_emitted <= p,
            final(self).last_emitted == 100,
            final(self).total_size == old(self).total_size,
            final(self).bytes_downloaded == old(self).bytes_downloaded,
    {
        self.finished = true;
        self.last_emitted = 100;
        100
    }
}

// ---------------------------------------------------------------------------
// A whole download, driven over a sequence of observed chunk events.
// ---------------------------------------------------------------------------
/// One chunk as observed at its boundary: the bytes, whether cancellation
/// had been signaled, and the seconds elapsed since the download began.
pub struct ChunkData {
    pub data: Vec<u8>,
    pub cancel_requested: bool,
    pub elapsed_secs: u64,
}

pub enum DownloadOutcome {
    Completed,
    Cancelled,
}

/// What a download run leaves behind: its outcome, the destination file's
/// content — absent after a cancellation — and the percentages emitted, in
/// order.
pub struct DownloadRun {
    pub outcome: DownloadOutcome,
    pub archive: Option<Vec<u8>>,
    pub emitted: Vec<u8>,
}

/// Total byte count of a chunk sequence.
pub open spec fn sum_len(chunks: Seq<ChunkData>) -> int
    decreases chunks.len(),
{
    if chunks.len() == 0 {
        0
    } else {
        sum_len(chunks.drop_last()) + chunks.last().data@.len()
    }
}

/// The bytes of a chunk sequence, in arrival order.
pub open spec fn concat_chunks(chunks: Seq<ChunkData>) -> Seq<u8>
    decreases chunks.len(),
{
    if chunks.len() == 0 {
        Seq::empty()
    } else {
        concat_chunks(chunks.drop_last()) + chunks.last().data@
    }
}

/// Whether cancellation is signaled at any chunk boundary.
pub open spec fn any_cancel(chunks: Seq<ChunkData>) -> bool {
    exists|i: int| 0 <= i < chunks.len() && chunks[i].cancel_requested
}

/// Percentages are reported in non-decreasing order.
pub open spec fn monotone(s: Seq<u8>) -> bool {
    forall|i: int, j: int| 0 <= i <= j < s.len() ==> s[i] <= s[j]
}

proof fn lemma_sum_len_step(chunks: Seq<ChunkData>, i: int)
    requires
        0 <= i < chunks.len(),
    ensures
        sum_len(chunks.subrange(0, i + 1)) == sum_len(chunks.subrange(0, i))
            + chunks[i].data@.len(),
        concat_chunks(chunks.subrange(0, i + 1)) == concat_chunks(chunks.subrange(0, i))
            + chunks[i].data@,
{
    assert(chunks.subrange(0, i + 1).drop_last() =~= chunks.subrange(0, i));
}

proof fn lemma_sum_len_prefix(chunks: Seq<ChunkData>, k: int)
    requires
        0 <= k <= chunks.len(),
    ensures
        sum_len(chunks.subrange(0, k)) <= sum_len(chunks),
    decreases chunks.len(),
{
    if k == chunks.len() {
        assert(chunks.subrange(0, k) =~= chunks);
    } else {
        assert(chunks.drop_last().subrange(0, k) =~= chunks.subrange(0, k));
        lemma_sum_len_prefix(chunks.drop_last(), k);
    }
}

/// Drives a download over the observed chunk events, mirroring the
/// streaming loop: cancellation is honored at the chunk boundary, before the
/// chunk is written; progress is emitted monotonically, 0 first; on
/// completion the destination holds exactly the streamed bytes and 100 has
/// been emitted; on cancellation the destination is deleted.
pub fn run_download(total_size: u64, chunks: &Vec<ChunkData>) -> (r: DownloadRun)
    requires
        total_size >= 1,
        sum_len(chunks@) <= u64::MAX,
    ensures
        r.emitted@.len() >= 1,
        r.emitted@[0] == 0,
        monotone(r.emitted@),
        forall|k: int| 0 <= k < r.emitted@.len() ==> r.emitted@[k] <= 100,
        (r.outcome is Cancelled) == any_cancel(chunks@),
        r.outcome is Cancelled ==> r.archive is None,
        r.outcome is Completed ==> match r.archive {
            Some(v) => v@ == concat_chunks(chunks@),
            None => false,
        },
        r.outcome is Completed ==> r.emitted@.last() == 100,
{
    let mut session = DownloadSession::new(total_size);
    let mut emitted: Vec<u8> = Vec::new();
    emitted.push(0);
    let mut archive: Vec<u8> = Vec::new();
    let n = chunks.len();
    let mut i: usize = 0;
    proof {
        assert(chunks@.subrange(0, 0) =~= Seq::<ChunkData>::empty());
    }
    while i < n
        invariant
            i <= n,
            n == chunks@.len(),
            session.wf(),
            !session.cancelled,
            !session.finished,
            session.total_size == total_size,
            sum_len(chunks@) <= u64::MAX,
            session.bytes_downloaded as int == sum_len(chunks@.subrange(0, i as int)),
            archive@ == concat_chunks(chunks@.subrange(0, i as int)),
            emitted@.len() >= 1,
            emitted@[0] == 0,
            monotone(emitted@),
            forall|k: int| 0 <= k < emitted@.len() ==> emitted@[k] <= 100,
            emitted@.last() == session.last_emitted,
            forall|j: int| 0 <= j < i ==> !chunks@[j].cancel_requested,
        decreases n - i,
    {
        proof {
            lemma_sum_len_step(chunks@, i as int);
            lemma_sum_len_prefix(chunks@, i as int + 1);
        }
        let clen = chunks[i].data.len() as u64;
        let act = session.on_chunk(
            clen,
            chunks[i].cancel_requested,
            chunks[i].elapsed_secs,
        );
        match act {
            ChunkAction::Cancel => {
                return DownloadRun {
                    outcome: DownloadOutcome::Cancelled,
                    archive: None,
                    emitted,
                };
            },
            ChunkAction::Proceed { emit } => {
                archive.extend_from_slice(chunks[i].data.as_slice());
                match emit {
                    Some(p) => {
                        let ghost prev = emitted@;
                        emitted.push(p);
                        proof {
                            assert forall|a: int, b: int|
                                0 <= a <= b < emitted@.len() implies emitted@[a]
                                <= emitted@[b] by {
                                if b < prev.len() {
                                    assert(prev[a] <= prev[b]);
                                } else if a < prev.len() {
                                    assert(prev[a] <= prev.last());
                                }
                            }
                        }
                    },
                    None => {},
                }
            },
        }
        i += 1;
    }
    proof {
        assert(chunks@.subrange(0, n as int) =~= chunks@);
    }
    let p = session.on_complete();
    let ghost prev = emitted@;
    emitted.push(p);
    proof {
        assert forall|a: int, b: int| 0 <= a <= b < emitted@.len() implies emitted@[a]
            <= emitted@[b] by {
            if b < prev.len() {
                assert(prev[a] <= prev[b]);
            } else if a < prev.len() {
                assert(prev[a] <= prev.last());
            }
        }
    }
    DownloadRun { outcome: DownloadOutcome::Completed, archive: Some(archive), emitted }
}

} // verus!
