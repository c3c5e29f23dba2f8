//! Per-job log buffers fed by workers' log chunks.
//!
//! Each job's stream is tracked by byte offset for deduplication and resume;
//! the buffered bytes are bounded per job. Live delivery to subscribers and
//! the copy on disk are done by the caller from the outcome of each append.
use crate::dag::names_view;
use vstd::prelude::*;
use vstd::utf8::{decode_utf8, valid_utf8};

verus! {

/// The text `String::from_utf8_lossy` makes of `bytes`.
pub uninterp spec fn utf8_lossy(bytes: Seq<u8>) -> Seq<char>;

/// `String::from_utf8_lossy(bytes).to_string()`. Trusted: the text is named;
/// std documents that valid UTF-8 comes back as its own text, and that each
/// invalid sequence becomes U+FFFD (which is not stated here).
#[verifier::external_body]
fn lossy_text(bytes: &[u8]) -> (s: String)
    ensures
        s@ == utf8_lossy(bytes@),
        valid_utf8(bytes@) ==> s@ == decode_utf8(bytes@),
{
    String::from_utf8_lossy(bytes).to_string()
}

/// Bytes buffered in memory per job (50 MiB).
pub const MAX_BUFFERED_BYTES_PER_JOB: usize = 52428800;

/// A log chunk with metadata for broadcasting.
pub struct LogChunkData {
    pub worker_id: String,
    pub offset: u64,
    pub data: Vec<u8>,
    pub timestamp_unix: i64,
}

/// Log state of one job.
pub struct JobLogState {
    /// Byte offset the stream has reached.
    pub last_offset: u64,
    /// Bytes accepted since the stream (re)started.
    pub total_bytes: u64,
    /// Whether the stream is finalized.
    pub complete: bool,
    /// Buffered bytes (the newest, when the buffer is disk-backed).
    pub log_data: Vec<u8>,
    /// When the stream was finalized, in Unix seconds.
    pub finalized_at: Option<i64>,
}

pub struct JobLogV {
    pub last_offset: u64,
    pub total_bytes: u64,
    pub complete: bool,
    pub data: Seq<u8>,
    pub finalized_at: Option<i64>,
}

impl View for JobLogState {
    type V = JobLogV;

    open spec fn view(&self) -> JobLogV {
        JobLogV {
            last_offset: self.last_offset,
            total_bytes: self.total_bytes,
            complete: self.complete,
            data: self.log_data@,
            finalized_at: self.finalized_at,
        }
    }
}

/// What became of an appended chunk.
pub enum ChunkFate {
    /// Its offset lies behind the stream: already received, nothing changed.
    Duplicate,
    /// Accepted and buffered (and to be written to disk where there is a log directory).
    Stored,
    /// Accepted but not buffered: the buffer is full and not disk-backed.
    Unbuffered,
}

pub struct AppendOutcome {
    /// The stream's offset after the append.
    pub last_offset: u64,
    pub fate: ChunkFate,
    /// The chunk started a fresh run of a stream that had data.
    pub restarted: bool,
}

// ── Specification of one stream ─────────────────────────────────────────────
pub open spec fn fresh_log() -> JobLogV {
    JobLogV { last_offset: 0, total_bytes: 0, complete: false, data: Seq::empty(), finalized_at: None }
}

/// A chunk at offset 0 on a stream that has moved on starts a fresh run.
pub open spec fn restarts(s: JobLogV, offset: u64) -> bool {
    offset == 0 && s.last_offset > 0
}

pub open spec fn rebased(s: JobLogV, offset: u64) -> JobLogV {
    if restarts(s, offset) {
        fresh_log()
    } else {
        s
    }
}

pub open spec fn fate_of(s: JobLogV, offset: u64, chunk: Seq<u8>, disk: bool) -> ChunkFate {
    let b = rebased(s, offset);
    if offset < b.last_offset {
        ChunkFate::Duplicate
    } else if b.data.len() + chunk.len() > MAX_BUFFERED_BYTES_PER_JOB && !disk {
        ChunkFate::Unbuffered
    } else {
        ChunkFate::Stored
    }
}

/// Oldest bytes dropped from a disk-backed buffer to make room for `chunk`.
pub open spec fn drained(b: JobLogV, chunk: Seq<u8>) -> int {
    if b.data.len() + chunk.len() > MAX_BUFFERED_BYTES_PER_JOB {
        let over = b.data.len() + chunk.len() - MAX_BUFFERED_BYTES_PER_JOB;
        if over < b.data.len() {
            over
        } else {
            b.data.len() as int
        }
    } else {
        0
    }
}

/// The stream after a chunk at `offset` is appended.
pub open spec fn appended(s: JobLogV, offset: u64, chunk: Seq<u8>, disk: bool) -> JobLogV {
    let b = rebased(s, offset);
    if offset < b.last_offset {
        b
    } else {
        let moved = JobLogV {
            last_offset: (offset + chunk.len()) as u64,
            total_bytes: (b.total_bytes + chunk.len()) as u64,
            ..b
        };
        match fate_of(s, offset, chunk, disk) {
            ChunkFate::Stored => JobLogV { data: b.data.skip(drained(b, chunk)) + chunk, ..moved },
            _ => moved,
        }
    }
}

/// A chunk behind the stream's offset (and not a restart at 0) was already
/// received: appending it changes nothing.
pub proof fn law_duplicate_chunk_is_ignored(s: JobLogV, offset: u64, chunk: Seq<u8>, disk: bool)
    requires
        0 < offset < s.last_offset,
    ensures
        appended(s, offset, chunk, disk) == s,
        fate_of(s, offset, chunk, disk) == ChunkFate::Duplicate,
{
}

/// The per-job buffer stays within [`MAX_BUFFERED_BYTES_PER_JOB`] bytes as
/// long as no single chunk is larger than that.
pub proof fn law_buffer_bounded(s: JobLogV, offset: u64, chunk: Seq<u8>, disk: bool)
    requires
        s.data.len() <= MAX_BUFFERED_BYTES_PER_JOB,
        chunk.len() <= MAX_BUFFERED_BYTES_PER_JOB,
    ensures
        appended(s, offset, chunk, disk).data.len() <= MAX_BUFFERED_BYTES_PER_JOB,
{
}

/// A chunk that continues the stream where it stopped moves the offset by its
/// length, which is where a reconnecting worker resumes.
pub proof fn law_resume_offset(s: JobLogV, chunk: Seq<u8>, disk: bool)
    requires
        s.last_offset + chunk.len() <= u64::MAX,
    ensures
        appended(s, s.last_offset, chunk, disk).last_offset == s.last_offset + chunk.len(),
{
}

/// The counters do not overflow on this append.
pub open spec fn append_fits(s: JobLogV, offset: u64, len: nat) -> bool {
    &&& offset + len <= u64::MAX
    &&& rebased(s, offset).total_bytes + len <= u64::MAX
}

/// The buffered chunk that a subscriber starting at `from_offset` gets: the
/// bytes from that offset on (clamped to the buffer), if there are any.
pub open spec fn buffered_from(s: JobLogV, from_offset: u64) -> Option<(u64, Seq<u8>)> {
    let actual = if from_offset > s.data.len() {
        s.data.len()
    } else {
        from_offset as nat
    };
    if actual < s.data.len() {
        Some((actual as u64, s.data.skip(actual as int)))
    } else {
        None
    }
}

/// A finalized stream older than `max_age_secs` at `now`.
pub open spec fn expired(s: JobLogV, now: i64, max_age_secs: i64) -> bool {
    s.complete && match s.finalized_at {
        Some(t) => now - t > max_age_secs,
        None => false,
    }
}

// ── One stream ──────────────────────────────────────────────────────────────
impl JobLogState {
    pub fn new() -> (s: Self)
        ensures
            s@ == fresh_log(),
    {
        JobLogState {
            last_offset: 0,
            total_bytes: 0,
            complete: false,
            log_data: Vec::new(),
            finalized_at: None,
        }
    }

    /// Appends a chunk; `disk` says whether the bytes also go to a log file,
    /// in which case the oldest buffered bytes make room for new ones.
    pub fn append(&mut self, offset: u64, data: &[u8], disk: bool) -> (r: AppendOutcome)
        requires
            append_fits(old(self)@, offset, data@.len()),
        ensures
            final(self)@ == appended(old(self)@, offset, data@, disk),
            r.fate == fate_of(old(self)@, offset, data@, disk),
            r.restarted == restarts(old(self)@, offset),
            r.last_offset == final(self)@.last_offset,
    {
        let restarted = offset == 0 && self.last_offset > 0;
        if restarted {
            *self = JobLogState::new();
        }
        let ghost b = self@;
        if offset < self.last_offset {
            return AppendOutcome { last_offset: self.last_offset, fate: ChunkFate::Duplicate, restarted };
        }
        let chunk_len = data.len() as u64;
        self.last_offset = offset + chunk_len;
        self.total_bytes = self.total_bytes + chunk_len;
        let held = self.log_data.len();
        if held as u128 + data.len() as u128 > MAX_BUFFERED_BYTES_PER_JOB as u128 {
            if disk {
                let over = (held as u128 + data.len() as u128 - MAX_BUFFERED_BYTES_PER_JOB as u128);
                let drain: usize = if over < held as u128 {
                    over as usize
                } else {
                    held
                };
                let tail = self.log_data.split_off(drain);
                self.log_data = tail;
                assert(self.log_data@ == b.data.skip(drain as int));
            } else {
                return AppendOutcome {
                    last_offset: self.last_offset,
                    fate: ChunkFate::Unbuffered,
                    restarted,
                };
            }
        }
        assert(self.log_data@ =~= b.data.skip(drained(b, data@)));
        let ghost kept = self.log_data@;
        self.log_data.extend_from_slice(data);
        assert(self.log_data@ == kept + data@);
        AppendOutcome { last_offset: self.last_offset, fate: ChunkFate::Stored, restarted }
    }
}

// ── All streams ─────────────────────────────────────────────────────────────
/// The state of stream `id`: the first entry with that id.
pub open spec fn state_of(jobs: Seq<(String, JobLogState)>, id: Seq<char>) -> Option<JobLogV>
    decreases jobs.len(),
{
    if jobs.len() == 0 {
        None
    } else if jobs[0].0@ == id {
        Some(jobs[0].1@)
    } else {
        state_of(jobs.drop_first(), id)
    }
}

pub open spec fn ids_distinct(jobs: Seq<(String, JobLogState)>) -> bool {
    forall|i: int, j: int| 0 <= i < j < jobs.len() ==> jobs[i].0@ != jobs[j].0@
}

proof fn lemma_state_at(jobs: Seq<(String, JobLogState)>, i: int)
    requires
        ids_distinct(jobs),
        0 <= i < jobs.len(),
    ensures
        state_of(jobs, jobs[i].0@) == Some(jobs[i].1@),
    decreases jobs.len(),
{
    if i > 0 {
        assert(jobs[0].0@ != jobs[i].0@);
        assert(jobs.drop_first()[i - 1] == jobs[i]);
        lemma_state_at(jobs.drop_first(), i - 1);
    }
}

proof fn lemma_state_absent(jobs: Seq<(String, JobLogState)>, id: Seq<char>)
    requires
        forall|k: int| 0 <= k < jobs.len() ==> jobs[k].0@ != id,
    ensures
        state_of(jobs, id) is None,
    decreases jobs.len(),
{
    if jobs.len() > 0 {
        assert forall|k: int| 0 <= k < jobs.drop_first().len() implies jobs.drop_first()[k].0@ != id by {
            assert(jobs.drop_first()[k] == jobs[k + 1]);
        }
        lemma_state_absent(jobs.drop_first(), id);
    }
}

/// The state of `id` is read from the entry that has it.
proof fn lemma_state_found(jobs: Seq<(String, JobLogState)>, id: Seq<char>)
    requires
        ids_distinct(jobs),
    ensures
        state_of(jobs, id) is Some <==> exists|k: int| 0 <= k < jobs.len() && jobs[k].0@ == id,
{
    if exists|k: int| 0 <= k < jobs.len() && jobs[k].0@ == id {
        let k = choose|k: int| 0 <= k < jobs.len() && jobs[k].0@ == id;
        lemma_state_at(jobs, k);
    } else {
        lemma_state_absent(jobs, id);
    }
}

pub struct LogAggregator {
    jobs: Vec<(String, JobLogState)>,
    broadcast_capacity: usize,
    log_dir: Option<String>,
}

impl LogAggregator {
    /// The state of each stream, by job id.
    pub closed spec fn state(&self, id: Seq<char>) -> Option<JobLogV> {
        state_of(self.jobs@, id)
    }

    pub closed spec fn wf(&self) -> bool {
        ids_distinct(self.jobs@)
    }

    pub closed spec fn disk_backed(&self) -> bool {
        self.log_dir is Some
    }

    pub closed spec fn capacity(&self) -> usize {
        self.broadcast_capacity
    }

    /// An aggregator without log directory, with room for 256 chunks per live channel.
    pub fn new() -> (a: Self)
        ensures
            a.wf(),
            !a.disk_backed(),
            a.capacity() == 256,
            forall|id: Seq<char>| #[trigger] a.state(id) is None,
    {
        LogAggregator { jobs: Vec::new(), broadcast_capacity: 256, log_dir: None }
    }

    /// An aggregator that also writes each job's log to `{log_dir}/{job_id}.log`.
    pub fn with_log_dir(log_dir: String) -> (a: Self)
        ensures
            a.wf(),
            a.disk_backed(),
            a.capacity() == 256,
            forall|id: Seq<char>| #[trigger] a.state(id) is None,
    {
        LogAggregator { jobs: Vec::new(), broadcast_capacity: 256, log_dir: Some(log_dir) }
    }

    /// Capacity of each job's live channel.
    pub fn broadcast_capacity(&self) -> (c: usize)
        ensures
            c == self.capacity(),
    {
        self.broadcast_capacity
    }

    /// The log directory, if the buffers are disk-backed.
    pub fn log_dir(&self) -> (d: Option<&String>)
        ensures
            d is Some <==> self.disk_backed(),
    {
        match &self.log_dir {
            Some(d) => Some(d),
            None => None,
        }
    }

    fn find(&self, job_id: &str) -> (r: Option<usize>)
        requires
            self.wf(),
        ensures
            match r {
                Some(i) => i < self.jobs.len() && self.jobs@[i as int].0@ == job_id@ && self.state(
                    job_id@,
                ) == Some(self.jobs@[i as int].1@),
                None => self.state(job_id@) is None,
            },
    {
        let target = String::from_str(job_id);
        let mut i: usize = 0;
        while i < self.jobs.len()
            invariant
                i <= self.jobs.len(),
                ids_distinct(self.jobs@),
                target@ == job_id@,
                forall|k: int| 0 <= k < i ==> self.jobs@[k].0@ != job_id@,
            decreases self.jobs.len() - i,
        {
            if self.jobs[i].0 == target {
                proof {
                    lemma_state_at(self.jobs@, i as int);
                }
                return Some(i);
            }
            i += 1;
        }
        proof {
            lemma_state_absent(self.jobs@, job_id@);
        }
        None
    }

    /// Index of `job_id`'s entry, created fresh when there is none.
    fn entry(&mut self, job_id: &str) -> (i: usize)
        requires
            old(self).wf(),
        ensures
            final(self).wf(),
            i < final(self).jobs.len(),
            final(self).jobs@[i as int].0@ == job_id@,
            final(self).state(job_id@) == Some(
                match old(self).state(job_id@) {
                    Some(s) => s,
                    None => fresh_log(),
                },
            ),
            final(self).jobs@[i as int].1@ == match old(self).state(job_id@) {
                Some(s) => s,
                None => fresh_log(),
            },
            forall|id: Seq<char>| id != job_id@ ==> #[trigger] final(self).state(id) == old(self).state(id),
            final(self).log_dir == old(self).log_dir,
            final(self).broadcast_capacity == old(self).broadcast_capacity,
    {
        match self.find(job_id) {
            Some(i) => i,
            None => {
                let ghost before = self.jobs@;
                self.jobs.push((String::from_str(job_id), JobLogState::new()));
                proof {
                    let after = self.jobs@;
                    assert forall|a: int, b: int| 0 <= a < b < after.len() implies after[a].0@
                        != after[b].0@ by {
                        if b == before.len() {
                            assert(after[a] == before[a]);
                            lemma_state_at(before, a);
                        }
                    }
                    lemma_state_at(after, before.len() as int);
                    assert forall|id: Seq<char>| id != job_id@ implies #[trigger] state_of(after, id)
                        == state_of(before, id) by {
                        lemma_state_found(before, id);
                        lemma_state_found(after, id);
                        if exists|k: int| 0 <= k < before.len() && before[k].0@ == id {
                            let k = choose|k: int| 0 <= k < before.len() && before[k].0@ == id;
                            assert(after[k] == before[k]);
                            lemma_state_at(before, k);
                            lemma_state_at(after, k);
                        } else {
                            assert forall|k: int| 0 <= k < after.len() implies after[k].0@ != id by {
                                if k < before.len() {
                                    assert(after[k] == before[k]);
                                }
                            }
                            lemma_state_absent(after, id);
                        }
                    }
                }
                self.jobs.len() - 1
            },
        }
    }

    /// Replaces the state in entry `i`.
    fn put(&mut self, i: usize, s: JobLogState)
        requires
            old(self).wf(),
            i < old(self).jobs.len(),
        ensures
            final(self).wf(),
            final(self).jobs.len() == old(self).jobs.len(),
            final(self).jobs@[i as int].0@ == old(self).jobs@[i as int].0@,
            final(self).state(old(self).jobs@[i as int].0@) == Some(s@),
            forall|id: Seq<char>| id != old(self).jobs@[i as int].0@ ==> #[trigger] final(self).state(id)
                == old(self).state(id),
            final(self).log_dir == old(self).log_dir,
            final(self).broadcast_capacity == old(self).broadcast_capacity,
    {
        let ghost before = self.jobs@;
        let (k, _old_state) = self.jobs.remove(i);
        self.jobs.insert(i, (k, s));
        proof {
            let after = self.jobs@;
            assert forall|a: int| 0 <= a < after.len() && a != i implies after[a] == before[a] by {
                if a < i {
                    assert(after[a] == before[a]);
                } else {
                    assert(after[a] == before[a]);
                }
            }
            assert(after[i as int].0 == before[i as int].0);
            assert forall|a: int, b: int| 0 <= a < b < after.len() implies after[a].0@ != after[b].0@ by {
                assert(after[a].0 == before[a].0);
                assert(after[b].0 == before[b].0);
            }
            lemma_state_at(after, i as int);
            assert forall|id: Seq<char>| id != before[i as int].0@ implies #[trigger] state_of(after, id)
                == state_of(before, id) by {
                if exists|k: int| 0 <= k < before.len() && before[k].0@ == id {
                    let k = choose|k: int| 0 <= k < before.len() && before[k].0@ == id;
                    assert(k != i);
                    lemma_state_at(before, k);
                    lemma_state_at(after, k);
                } else {
                    lemma_state_absent(before, id);
                    assert forall|k: int| 0 <= k < after.len() implies after[k].0@ != id by {
                        assert(after[k].0 == before[k].0);
                    }
                    lemma_state_absent(after, id);
                }
            }
        }
    }

    /// Takes the state out of entry `i`, leaving a fresh one there.
    fn take(&mut self, i: usize) -> (s: JobLogState)
        requires
            old(self).wf(),
            i < old(self).jobs.len(),
        ensures
            s@ == old(self).jobs@[i as int].1@,
            final(self).wf(),
            final(self).jobs.len() == old(self).jobs.len(),
            forall|k: int| 0 <= k < final(self).jobs.len() ==> #[trigger] final(self).jobs@[k].0@
                == old(self).jobs@[k].0@,
            forall|k: int|
                0 <= k < final(self).jobs.len() && k != i ==> #[trigger] final(self).jobs@[k]
                    == old(self).jobs@[k],
            final(self).log_dir == old(self).log_dir,
            final(self).broadcast_capacity == old(self).broadcast_capacity,
    {
        let ghost before = self.jobs@;
        let (k, st) = self.jobs.remove(i);
        self.jobs.insert(i, (k, JobLogState::new()));
        proof {
            let after = self.jobs@;
            assert forall|a: int| 0 <= a < after.len() && a != i implies after[a] == before[a] by {}
            assert forall|a: int| 0 <= a < after.len() implies #[trigger] after[a].0@ == before[a].0@ by {
                if a != i {
                    assert(after[a] == before[a]);
                }
            }
            assert forall|a: int, b: int| 0 <= a < b < after.len() implies after[a].0@ != after[b].0@ by {
                assert(after[a].0@ == before[a].0@);
                assert(after[b].0@ == before[b].0@);
            }
        }
        st
    }

    /// Append a log chunk for a job and return what became of it; a job seen
    /// for the first time starts with a fresh stream.
    pub fn append_chunk(&mut self, job_id: &str, offset: u64, data: &[u8]) -> (r: AppendOutcome)
        requires
            old(self).wf(),
            append_fits(
                match old(self).state(job_id@) {
                    Some(s) => s,
                    None => fresh_log(),
                },
                offset,
                data@.len(),
            ),
        ensures
            final(self).wf(),
            ({
                let s = match old(self).state(job_id@) {
                    Some(s) => s,
                    None => fresh_log(),
                };
                &&& final(self).state(job_id@) == Some(appended(s, offset, data@, old(self).disk_backed()))
                &&& r.fate == fate_of(s, offset, data@, old(self).disk_backed())
                &&& r.restarted == restarts(s, offset)
                &&& r.last_offset == appended(s, offset, data@, old(self).disk_backed()).last_offset
            }),
            forall|id: Seq<char>| id != job_id@ ==> #[trigger] final(self).state(id) == old(self).state(id),
            final(self).disk_backed() == old(self).disk_backed(),
            final(self).capacity() == old(self).capacity(),
    {
        let disk = self.log_dir.is_some();
        let i = self.entry(job_id);
        let ghost mid = *self;
        let mut st = self.take(i);
        let r = st.append(offset, data, disk);
        proof {
            assert forall|k: int| 0 <= k < self.jobs.len() && k != i implies #[trigger] self.jobs@[k]
                == mid.jobs@[k] by {}
        }
        self.put_back(i, st, Ghost(mid));
        r
    }

    /// Puts a state into entry `i` after [`Self::take`].
    fn put_back(&mut self, i: usize, s: JobLogState, before: Ghost<LogAggregator>)
        requires
            before@.wf(),
            i < before@.jobs.len(),
            old(self).jobs.len() == before@.jobs.len(),
            forall|k: int| 0 <= k < old(self).jobs.len() ==> #[trigger] old(self).jobs@[k].0@
                == before@.jobs@[k].0@,
            forall|k: int|
                0 <= k < old(self).jobs.len() && k != i ==> #[trigger] old(self).jobs@[k]
                    == before@.jobs@[k],
            old(self).wf(),
        ensures
            final(self).wf(),
            final(self).state(before@.jobs@[i as int].0@) == Some(s@),
            forall|id: Seq<char>| id != before@.jobs@[i as int].0@ ==> #[trigger] final(self).state(id)
                == before@.state(id),
            final(self).log_dir == old(self).log_dir,
            final(self).broadcast_capacity == old(self).broadcast_capacity,
    {
        proof {
            let cur = self.jobs@;
            let b = before@.jobs@;
            assert forall|id: Seq<char>| id != b[i as int].0@ implies #[trigger] state_of(cur, id)
                == state_of(b, id) by {
                if exists|k: int| 0 <= k < b.len() && b[k].0@ == id {
                    let k = choose|k: int| 0 <= k < b.len() && b[k].0@ == id;
                    lemma_state_at(b, k);
                    lemma_state_at(cur, k);
                } else {
                    lemma_state_absent(b, id);
                    assert forall|k: int| 0 <= k < cur.len() implies cur[k].0@ != id by {
                        assert(cur[k].0@ == b[k].0@);
                    }
                    lemma_state_absent(cur, id);
                }
            }
        }
        self.put(i, s);
    }

    /// The offset a job's stream has reached (0 for an unknown job); the
    /// worker resumes from there after reconnecting.
    pub fn last_offset(&self, job_id: &str) -> (o: u64)
        requires
            self.wf(),
        ensures
            o == match self.state(job_id@) {
                Some(s) => s.last_offset,
                None => 0,
            },
    {
        match self.find(job_id) {
            Some(i) => self.jobs[i].1.last_offset,
            None => 0,
        }
    }

    /// Whether a job's stream is finalized.
    pub fn is_complete(&self, job_id: &str) -> (b: bool)
        requires
            self.wf(),
        ensures
            b == match self.state(job_id@) {
                Some(s) => s.complete,
                None => false,
            },
    {
        match self.find(job_id) {
            Some(i) => self.jobs[i].1.complete,
            None => false,
        }
    }

    /// The buffered bytes of a job (none for an unknown job).
    pub fn get_log_data(&self, job_id: &str) -> (d: Vec<u8>)
        requires
            self.wf(),
        ensures
            d@ == match self.state(job_id@) {
                Some(s) => s.data,
                None => Seq::empty(),
            },
    {
        match self.find(job_id) {
            Some(i) => self.jobs[i].1.log_data.clone(),
            None => Vec::new(),
        }
    }

    /// The buffered bytes of a job as text, invalid UTF-8 replaced.
    pub fn get_log_string(&self, job_id: &str) -> (t: String)
        requires
            self.wf(),
        ensures
            t@ == utf8_lossy(
                match self.state(job_id@) {
                    Some(s) => s.data,
                    None => Seq::empty(),
                },
            ),
    {
        let d = self.get_log_data(job_id);
        lossy_text(d.as_slice())
    }

    /// Marks a job's stream complete at `now` (Unix seconds); an unknown job
    /// is left alone.
    pub fn finalize(&mut self, job_id: &str, now: i64)
        requires
            old(self).wf(),
        ensures
            final(self).wf(),
            final(self).state(job_id@) == match old(self).state(job_id@) {
                Some(s) => Some(JobLogV { complete: true, finalized_at: Some(now), ..s }),
                None => None,
            },
            forall|id: Seq<char>| id != job_id@ ==> #[trigger] final(self).state(id) == old(self).state(id),
            final(self).disk_backed() == old(self).disk_backed(),
            final(self).capacity() == old(self).capacity(),
    {
        match self.find(job_id) {
            Some(i) => {
                let ghost mid = *self;
                let mut st = self.take(i);
                st.complete = true;
                st.finalized_at = Some(now);
                self.put_back(i, st, Ghost(mid));
            },
            None => {},
        }
    }

    /// What a new subscriber from `from_offset` gets from the buffer: at most
    /// one chunk, from the clamped offset on; and whether the stream is
    /// complete. An unknown job gets a fresh stream so live chunks can follow.
    pub fn subscribe(&mut self, job_id: &str, from_offset: u64) -> (r: (Vec<LogChunkData>, bool))
        requires
            old(self).wf(),
        ensures
            final(self).wf(),
            ({
                let s = match old(self).state(job_id@) {
                    Some(s) => s,
                    None => fresh_log(),
                };
                &&& final(self).state(job_id@) == Some(s)
                &&& r.1 == s.complete
                &&& match buffered_from(s, from_offset) {
                    Some((o, bytes)) => r.0.len() == 1 && r.0@[0].offset == o && r.0@[0].data@
                        == bytes && r.0@[0].worker_id@.len() == 0 && r.0@[0].timestamp_unix == 0,
                    None => r.0.len() == 0,
                }
            }),
            forall|id: Seq<char>| id != job_id@ ==> #[trigger] final(self).state(id) == old(self).state(id),
            final(self).disk_backed() == old(self).disk_backed(),
            final(self).capacity() == old(self).capacity(),
    {
        let i = self.entry(job_id);
        let st = &self.jobs[i].1;
        let len = st.log_data.len();
        let actual: usize = if from_offset as u128 > len as u128 {
            len
        } else {
            from_offset as usize
        };
        let mut out: Vec<LogChunkData> = Vec::new();
        if actual < len {
            let mut bytes: Vec<u8> = Vec::new();
            let mut k = actual;
            while k < len
                invariant
                    actual <= k <= len,
                    len == st.log_data.len(),
                    bytes@ == st.log_data@.subrange(actual as int, k as int),
                decreases len - k,
            {
                bytes.push(st.log_data[k]);
                k += 1;
                assert(bytes@ =~= st.log_data@.subrange(actual as int, k as int));
            }
            assert(bytes@ =~= st.log_data@.skip(actual as int));
            out.push(
                LogChunkData {
                    worker_id: String::new(),
                    offset: actual as u64,
                    data: bytes,
                    timestamp_unix: 0,
                },
            );
        }
        let complete = st.complete;
        (out, complete)
    }

    /// Drops the buffers of streams finalized more than `max_age_secs` before
    /// `now`; returns the ids dropped.
    pub fn cleanup_old_logs(&mut self, now: i64, max_age_secs: i64) -> (removed: Vec<String>)
        requires
            old(self).wf(),
        ensures
            final(self).wf(),
            forall|id: Seq<char>| #[trigger] final(self).state(id) == match old(self).state(id) {
                Some(s) => if expired(s, now, max_age_secs) {
                    None
                } else {
                    Some(s)
                },
                None => None,
            },
            names_view(removed@).no_duplicates(),
            forall|id: Seq<char>|
                #[trigger] names_view(removed@).contains(id) <==> (old(self).state(id) matches Some(s) && expired(
                    s,
                    now,
                    max_age_secs,
                )),
            final(self).disk_backed() == old(self).disk_backed(),
            final(self).capacity() == old(self).capacity(),
    {
        let ghost before = self.jobs@;
        let mut old_jobs: Vec<(String, JobLogState)> = Vec::new();
        std::mem::swap(&mut old_jobs, &mut self.jobs);
        let mut kept: Vec<(String, JobLogState)> = Vec::new();
        let mut removed: Vec<String> = Vec::new();
        assert(before.skip(0) =~= before);
        while old_jobs.len() > 0
            invariant
                old_jobs.len() <= before.len(),
                ids_distinct(before),
                ids_distinct(kept@),
                old_jobs@ == before.skip(before.len() - old_jobs.len()),
                forall|k: int| 0 <= k < kept.len() ==> exists|a: int|
                    0 <= a < before.len() - old_jobs.len() && before[a] == #[trigger] kept@[k],
                forall|a: int|
                    0 <= a < before.len() - old_jobs.len() ==> (expired(before[a].1@, now, max_age_secs)
                        || exists|k: int| 0 <= k < kept.len() && kept@[k] == #[trigger] before[a]),
                forall|k: int| 0 <= k < kept.len() ==> !expired(#[trigger] kept@[k].1@, now, max_age_secs),
                names_view(removed@).no_duplicates(),
                forall|id: Seq<char>|
                    #[trigger] names_view(removed@).contains(id) <==> exists|a: int|
                        0 <= a < before.len() - old_jobs.len() && before[a].0@ == id && expired(
                            before[a].1@,
                            now,
                            max_age_secs,
                        ),
            decreases old_jobs.len(),
        {
            let ghost pos = before.len() - old_jobs.len();
            let ghost oj = old_jobs@;
            let entry = old_jobs.remove(0);
            assert(entry == oj[0]);
            assert(oj[0] == before[pos]);
            assert(old_jobs@ =~= before.skip(pos + 1));
            let st = &entry.1;
            let gone = st.complete && match st.finalized_at {
                Some(t) => (now as i128) - (t as i128) > max_age_secs as i128,
                None => false,
            };
            if gone {
                let ghost rb = names_view(removed@);
                proof {
                    assert(!rb.contains(entry.0@)) by {
                        if rb.contains(entry.0@) {
                            let a = choose|a: int|
                                0 <= a < pos && before[a].0@ == entry.0@ && expired(before[a].1@, now, max_age_secs);
                            assert(before[a].0@ != before[pos].0@);
                        }
                    }
                }
                removed.push(entry.0);
                proof {
                    let ra = names_view(removed@);
                    assert(ra =~= rb.push(before[pos].0@));
                    assert forall|a: int, b: int| 0 <= a < ra.len() && 0 <= b < ra.len() && a != b implies ra[a]
                        != ra[b] by {
                        if a < rb.len() && b < rb.len() {
                            assert(rb[a] != rb[b]);
                        } else if a < rb.len() {
                            assert(rb.contains(rb[a]));
                        } else {
                            assert(rb.contains(rb[b]));
                        }
                    }
                    assert forall|id: Seq<char>| #[trigger] ra.contains(id) <==> exists|a: int|
                        0 <= a < pos + 1 && before[a].0@ == id && expired(before[a].1@, now, max_age_secs) by {
                        if ra.contains(id) {
                            let k = choose|k: int| 0 <= k < ra.len() && ra[k] == id;
                            if k < rb.len() {
                                assert(rb[k] == id);
                                assert(rb.contains(id));
                            } else {
                                assert(before[pos].0@ == id);
                            }
                        }
                        if exists|a: int| 0 <= a < pos + 1 && before[a].0@ == id && expired(before[a].1@, now, max_age_secs) {
                            let a = choose|a: int|
                                0 <= a < pos + 1 && before[a].0@ == id && expired(before[a].1@, now, max_age_secs);
                            if a < pos {
                                assert(rb.contains(id));
                                let k = choose|k: int| 0 <= k < rb.len() && rb[k] == id;
                                assert(ra[k] == id);
                            } else {
                                assert(ra[rb.len() as int] == id);
                            }
                        }
                    }
                }
            } else {
                proof {
                    assert forall|k: int| 0 <= k < kept.len() implies kept@[k].0@ != entry.0@ by {
                        let a = choose|a: int| 0 <= a < pos && before[a] == kept@[k];
                        assert(before[a].0@ != before[pos].0@);
                    }
                }
                let ghost kb = kept@;
                kept.push(entry);
                proof {
                    assert forall|a: int, b: int| 0 <= a < b < kept.len() implies kept@[a].0@
                        != kept@[b].0@ by {
                        if b == kb.len() {
                            assert(kept@[a] == kb[a]);
                        } else {
                            assert(kept@[a] == kb[a]);
                            assert(kept@[b] == kb[b]);
                        }
                    }
                    assert forall|k: int| 0 <= k < kept.len() implies exists|a: int|
                        0 <= a < pos + 1 && before[a] == #[trigger] kept@[k] by {
                        if k < kb.len() {
                            assert(kept@[k] == kb[k]);
                        } else {
                            assert(before[pos] == kept@[k]);
                        }
                    }
                    assert forall|a: int| 0 <= a < pos + 1 implies (expired(before[a].1@, now, max_age_secs)
                        || exists|k: int| 0 <= k < kept.len() && kept@[k] == #[trigger] before[a]) by {
                        if a == pos {
                            assert(kept@[kb.len() as int] == before[a]);
                        } else if !expired(before[a].1@, now, max_age_secs) {
                            let k = choose|k: int| 0 <= k < kb.len() && kb[k] == before[a];
                            assert(kept@[k] == kb[k]);
                        }
                    }
                }
            }
        }
        proof {
            assert(before.len() - old_jobs.len() == before.len());
            assert forall|id: Seq<char>|
                #[trigger] names_view(removed@).contains(id) <==> (state_of(before, id) matches Some(s) && expired(
                    s,
                    now,
                    max_age_secs,
                )) by {
                if exists|a: int| 0 <= a < before.len() && before[a].0@ == id {
                    let a = choose|a: int| 0 <= a < before.len() && before[a].0@ == id;
                    lemma_state_at(before, a);
                    if names_view(removed@).contains(id) {
                        let b = choose|b: int|
                            0 <= b < before.len() && before[b].0@ == id && expired(before[b].1@, now, max_age_secs);
                        if b != a {
                            assert(before[b].0@ != before[a].0@);
                        }
                    }
                } else {
                    lemma_state_absent(before, id);
                }
            }
            assert forall|id: Seq<char>| #[trigger] state_of(kept@, id) == match state_of(before, id) {
                Some(s) => if expired(s, now, max_age_secs) {
                    None
                } else {
                    Some(s)
                },
                None => None,
            } by {
                if exists|a: int| 0 <= a < before.len() && before[a].0@ == id {
                    let a = choose|a: int| 0 <= a < before.len() && before[a].0@ == id;
                    lemma_state_at(before, a);
                    if !expired(before[a].1@, now, max_age_secs) {
                        let k = choose|k: int| 0 <= k < kept.len() && kept@[k] == before[a];
                        lemma_state_at(kept@, k);
                    } else {
                        assert forall|k: int| 0 <= k < kept.len() implies kept@[k].0@ != id by {
                            let b = choose|b: int| 0 <= b < before.len() && before[b] == kept@[k];
                            if b != a {
                                assert(before[b].0@ != before[a].0@);
                            }
                        }
                        lemma_state_absent(kept@, id);
                    }
                } else {
                    lemma_state_absent(before, id);
                    assert forall|k: int| 0 <= k < kept.len() implies kept@[k].0@ != id by {
                        let b = choose|b: int| 0 <= b < before.len() && before[b] == kept@[k];
                    }
                    lemma_state_absent(kept@, id);
                }
            }
        }
        self.jobs = kept;
        removed
    }
}

} // verus!
