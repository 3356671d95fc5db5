//! The job status store: a mapping from job identifier to lifecycle state,
//! read by arbitrarily many pollers and written by the single task driving
//! each job.
//!
//! All writes go through transition functions that keep the lifecycle
//! forward-only: a job that has reached `Completed` or `Failed` never
//! changes again, progress percentages are always derived from the frame
//! count, and the recorded frame count never decreases within a job.  A
//! write for one job never disturbs the entry of another.

use vstd::prelude::*;

use crate::models::{
    percent_spec, truncated_message, compute_percent, truncate_error, JobState, JobStatusType,
    ProcessingProgress, ProgressModel,
};
use crate::progress::frame_of_line;

verus! {

use vstd::string::StringSliceAdditionalSpecFns;

/// The state recorded for a job identifier, with an absent entry standing
/// for `Pending`.
pub open spec fn status_of(m: Map<Seq<char>, JobState>, k: Seq<char>) -> JobState {
    if m.dom().contains(k) {
        m[k]
    } else {
        JobState::Pending
    }
}

/// The frame count already recorded in a state, or zero where none is.
pub open spec fn frame_floor(s: JobState) -> u32 {
    match s {
        JobState::Processing(Some(p)) => p.current_frame,
        _ => 0,
    }
}

/// How a progress event changes a state: a terminal state is kept as it is;
/// any other state becomes a live snapshot whose frame count never falls
/// below the one already recorded and whose percentage is derived from that
/// clamped count.
pub open spec fn progress_transition(s: JobState, stage: Seq<char>, frame: u32, total: u32) -> JobState {
    if s.is_terminal() {
        s
    } else {
        let f = if frame >= frame_floor(s) {
            frame
        } else {
            frame_floor(s)
        };
        JobState::Processing(
            Some(
                ProgressModel {
                    stage: stage,
                    current_frame: f,
                    total_frames: total,
                    percent: percent_spec(f, total),
                },
            ),
        )
    }
}

/// How accepting a job changes a state: a terminal state is kept; any other
/// becomes `Processing(None)`, accepted but not yet measured.
pub open spec fn accept_transition(s: JobState) -> JobState {
    if s.is_terminal() {
        s
    } else {
        JobState::Processing(None)
    }
}

/// How successful completion changes a state: a terminal state is kept; any
/// other becomes `Completed`.
pub open spec fn complete_transition(s: JobState) -> JobState {
    if s.is_terminal() {
        s
    } else {
        JobState::Completed
    }
}

/// How a failure changes a state: a terminal state is kept; any other
/// becomes `Failed` with the message bounded to the store's limit.
pub open spec fn fail_transition(s: JobState, msg: Seq<char>) -> JobState {
    if s.is_terminal() {
        s
    } else {
        JobState::Failed(truncated_message(msg))
    }
}

/// A stored snapshot always carries the percentage derived from its own
/// frame counts; the percentage is never independently settable.
pub open spec fn snapshot_derived(s: JobState) -> bool {
    match s {
        JobState::Processing(Some(p)) => p.percent == percent_spec(
            p.current_frame,
            p.total_frames,
        ),
        _ => true,
    }
}

/// No two entries share a key.
spec fn keys_unique(s: Seq<(String, JobStatusType)>) -> bool {
    forall|i: int, j: int|
        0 <= i < j < s.len() ==> (#[trigger] s[i]).0@ != (#[trigger] s[j]).0@
}

/// The mapping described by a sequence of key/state entries, later entries
/// taking precedence.
spec fn entries_map(s: Seq<(String, JobStatusType)>) -> Map<Seq<char>, JobState>
    decreases s.len(),
{
    if s.len() == 0 {
        Map::empty()
    } else {
        entries_map(s.drop_last()).insert(s.last().0@, s.last().1@)
    }
}

/// Concurrent map from job identifier to lifecycle state.  The store itself
/// is a plain value; a caller that shares it between tasks wraps it in a
/// mutual-exclusion primitive and keeps each critical section to one call.
pub struct JobStore {
    entries: Vec<(String, JobStatusType)>,
}

impl View for JobStore {
    type V = Map<Seq<char>, JobState>;

    closed spec fn view(&self) -> Map<Seq<char>, JobState> {
        entries_map(self.entries@)
    }
}

proof fn lemma_entries_map_found(s: Seq<(String, JobStatusType)>, i: int)
    requires
        keys_unique(s),
        0 <= i < s.len(),
    ensures
        entries_map(s).dom().contains(s[i].0@),
        entries_map(s)[s[i].0@] == s[i].1@,
    decreases s.len(),
{
    if i < s.len() - 1 {
        assert(keys_unique(s.drop_last())) by {
            assert forall|x: int, y: int| 0 <= x < y < s.drop_last().len() implies (#[trigger] s
                .drop_last()[x]).0@ != (#[trigger] s.drop_last()[y]).0@ by {
                assert(s.drop_last()[x] == s[x]);
                assert(s.drop_last()[y] == s[y]);
            }
        }
        lemma_entries_map_found(s.drop_last(), i);
        assert(s.drop_last()[i] == s[i]);
        assert(s[i].0@ != s.last().0@);
    }
}

proof fn lemma_entries_map_absent(s: Seq<(String, JobStatusType)>, k: Seq<char>)
    requires
        forall|i: int| 0 <= i < s.len() ==> (#[trigger] s[i]).0@ != k,
    ensures
        !entries_map(s).dom().contains(k),
    decreases s.len(),
{
    if s.len() > 0 {
        assert(s.last() == s[s.len() - 1]);
        assert forall|i: int| 0 <= i < s.drop_last().len() implies (#[trigger] s.drop_last()[
            i]).0@ != k by {
            assert(s.drop_last()[i] == s[i]);
        }
        lemma_entries_map_absent(s.drop_last(), k);
    }
}

impl JobStore {
    /// Entries have pairwise distinct keys and every stored snapshot keeps
    /// its percentage derived from its frame counts.
    pub closed spec fn wf(&self) -> bool {
        &&& keys_unique(self.entries@)
        &&& forall|i: int|
            0 <= i < self.entries@.len() ==> snapshot_derived((#[trigger] self.entries@[i]).1@)
    }

    /// An empty store: every job identifier reads as `Pending`.
    pub fn new() -> (s: Self)
        ensures
            s.wf(),
            s@ == Map::<Seq<char>, JobState>::empty(),
    {
        JobStore { entries: Vec::new() }
    }

    /// The index of the entry for `job_id`, if one exists.
    fn find(&self, job_id: &str) -> (r: Option<usize>)
        ensures
            match r {
                Some(i) => i < self.entries@.len() && self.entries@[i as int].0@ == job_id@,
                None => forall|i: int|
                    0 <= i < self.entries@.len() ==> (#[trigger] self.entries@[i]).0@ != job_id@,
            },
    {
        let n = self.entries.len();
        let mut i: usize = 0;
        while i < n
            invariant
                n == self.entries@.len(),
                0 <= i <= n,
                forall|k: int| 0 <= k < i ==> (#[trigger] self.entries@[k]).0@ != job_id@,
            decreases n - i,
        {
            if str_eq(self.entries[i].0.as_str(), job_id) {
                return Some(i);
            }
            i = i + 1;
        }
        None
    }

    /// The state recorded for `job_id`, with `Pending` for an unknown job.
    pub fn get_status(&self, job_id: &str) -> (r: JobStatusType)
        requires
            self.wf(),
        ensures
            r@ == status_of(self@, job_id@),
            snapshot_derived(r@),
    {
        match self.find(job_id) {
            Some(i) => {
                proof {
                    lemma_entries_map_found(self.entries@, i as int);
                }
                self.entries[i].1.clone()
            },
            None => {
                proof {
                    lemma_entries_map_absent(self.entries@, job_id@);
                }
                JobStatusType::Pending
            },
        }
    }

    /// Records `st` for `job_id`, replacing any earlier entry.
    fn put(&mut self, job_id: &str, st: JobStatusType)
        requires
            old(self).wf(),
            snapshot_derived(st@),
        ensures
            final(self).wf(),
            final(self)@ == old(self)@.insert(job_id@, st@),
    {
        let ghost s0 = self.entries@;
        match self.find(job_id) {
            Some(i) => {
                let key = self.entries[i].0.clone();
                self.entries.set(i, (key, st));
                proof {
                    lemma_entries_map_update(s0, i as int, self.entries@[i as int]);
                    assert(keys_unique(self.entries@)) by {
                        assert forall|x: int, y: int|
                            0 <= x < y < self.entries@.len() implies (#[trigger] self.entries@[
                            x]).0@ != (#[trigger] self.entries@[y]).0@ by {
                            if x != i && y != i {
                                assert(self.entries@[x] == s0[x]);
                                assert(self.entries@[y] == s0[y]);
                            }
                        }
                    }
                }
            },
            None => {
                self.entries.push((job_id.to_owned(), st));
                proof {
                    assert(self.entries@.drop_last() =~= s0);
                    assert(entries_map(self.entries@) == entries_map(s0).insert(job_id@, st@));
                }
            },
        }
    }

    /// Marks a job accepted for processing.  A job already in a terminal
    /// state is left as it is.
    pub fn mark_processing(&mut self, job_id: &str)
        requires
            old(self).wf(),
        ensures
            final(self).wf(),
            final(self)@ == old(self)@.insert(
                job_id@,
                accept_transition(status_of(old(self)@, job_id@)),
            ),
    {
        let cur = self.get_status(job_id);
        let st = match cur {
            JobStatusType::Completed => JobStatusType::Completed,
            JobStatusType::Failed(message) => JobStatusType::Failed(message),
            _ => JobStatusType::Processing(None),
        };
        self.put(job_id, st);
    }

    /// Records a progress event for a job: the stage name, the frame count
    /// reported by the encoder (never regressing the one already recorded)
    /// and the total frame count, with the percentage derived from the two.
    /// A job already in a terminal state is left as it is.
    pub fn update_job_progress(&mut self, job_id: &str, stage: &str, current_frame: u32, total_frames: u32)
        requires
            old(self).wf(),
        ensures
            final(self).wf(),
            final(self)@ == old(self)@.insert(
                job_id@,
                progress_transition(
                    status_of(old(self)@, job_id@),
                    stage@,
                    current_frame,
                    total_frames,
                ),
            ),
    {
        let cur = self.get_status(job_id);
        let st = match cur {
            JobStatusType::Completed => JobStatusType::Completed,
            JobStatusType::Failed(message) => JobStatusType::Failed(message),
            JobStatusType::Processing(Some(p)) => {
                let f = if current_frame >= p.current_frame {
                    current_frame
                } else {
                    p.current_frame
                };
                JobStatusType::Processing(
                    Some(
                        ProcessingProgress {
                            stage: stage.to_owned(),
                            current_frame: f,
                            total_frames,
                            percent: compute_percent(f, total_frames),
                        },
                    ),
                )
            },
            _ => JobStatusType::Processing(
                Some(
                    ProcessingProgress {
                        stage: stage.to_owned(),
                        current_frame,
                        total_frames,
                        percent: compute_percent(current_frame, total_frames),
                    },
                ),
            ),
        };
        self.put(job_id, st);
    }

    /// Feeds one line of encoder diagnostic output to a job: a line carrying
    /// a `frame=<digits>` token becomes an `encoding` progress event, any
    /// other line changes nothing.
    pub fn apply_progress_line(&mut self, job_id: &str, line: &str, total_frames: u32)
        requires
            old(self).wf(),
        ensures
            final(self).wf(),
            match frame_of_line(line.spec_bytes()) {
                Some(f) => final(self)@ == old(self)@.insert(
                    job_id@,
                    progress_transition(
                        status_of(old(self)@, job_id@),
                        "encoding"@,
                        f,
                        total_frames,
                    ),
                ),
                None => final(self)@ == old(self)@,
            },
    {
        if let Some(f) = crate::progress::parse_frame_from_line(line) {
            self.update_job_progress(job_id, "encoding", f, total_frames);
        }
    }

    /// Marks a job completed.  A job already in a terminal state is left as
    /// it is.
    pub fn mark_completed(&mut self, job_id: &str)
        requires
            old(self).wf(),
        ensures
            final(self).wf(),
            final(self)@ == old(self)@.insert(
                job_id@,
                complete_transition(status_of(old(self)@, job_id@)),
            ),
    {
        let cur = self.get_status(job_id);
        let st = match cur {
            JobStatusType::Completed => JobStatusType::Completed,
            JobStatusType::Failed(message) => JobStatusType::Failed(message),
            _ => JobStatusType::Completed,
        };
        self.put(job_id, st);
    }

    /// Marks a job failed with the given message, bounded to the store's
    /// limit.  A job already in a terminal state is left as it is.
    pub fn mark_failed(&mut self, job_id: &str, message: &str)
        requires
            old(self).wf(),
        ensures
            final(self).wf(),
            final(self)@ == old(self)@.insert(
                job_id@,
                fail_transition(status_of(old(self)@, job_id@), message@),
            ),
    {
        let cur = self.get_status(job_id);
        let st = match cur {
            JobStatusType::Completed => JobStatusType::Completed,
            JobStatusType::Failed(recorded) => JobStatusType::Failed(recorded),
            _ => JobStatusType::Failed(truncate_error(message)),
        };
        self.put(job_id, st);
    }
}

proof fn lemma_entries_map_update(s: Seq<(String, JobStatusType)>, i: int, p: (String, JobStatusType))
    requires
        keys_unique(s),
        0 <= i < s.len(),
        p.0@ == s[i].0@,
    ensures
        entries_map(s.update(i, p)) == entries_map(s).insert(s[i].0@, p.1@),
    decreases s.len(),
{
    let t = s.update(i, p);
    if i == s.len() - 1 {
        assert(t.drop_last() =~= s.drop_last());
        assert(t.last() == p);
    } else {
        assert(keys_unique(s.drop_last())) by {
            assert forall|x: int, y: int| 0 <= x < y < s.drop_last().len() implies (#[trigger] s
                .drop_last()[x]).0@ != (#[trigger] s.drop_last()[y]).0@ by {
                assert(s.drop_last()[x] == s[x]);
                assert(s.drop_last()[y] == s[y]);
            }
        }
        assert(s.drop_last()[i] == s[i]);
        lemma_entries_map_update(s.drop_last(), i, p);
        assert(t.drop_last() =~= s.drop_last().update(i, p));
        assert(t.last() == s.last());
        assert(s[i].0@ != s.last().0@);
        assert(entries_map(t) == entries_map(s.drop_last().update(i, p)).insert(
            s.last().0@,
            s.last().1@,
        ));
        assert(entries_map(s.drop_last()).insert(s[i].0@, p.1@).insert(s.last().0@, s.last().1@)
            =~= entries_map(s.drop_last()).insert(s.last().0@, s.last().1@).insert(
            s[i].0@,
            p.1@,
        ));
    }
}

/// Whether two string slices hold the same characters.
fn str_eq(a: &str, b: &str) -> (r: bool)
    ensures
        r == (a@ == b@),
{
    let la = a.unicode_len();
    let lb = b.unicode_len();
    if la != lb {
        return false;
    }
    let mut i: usize = 0;
    while i < la
        invariant
            la == a@.len(),
            lb == b@.len(),
            la == lb,
            0 <= i <= la,
            forall|k: int| 0 <= k < i ==> a@[k] == b@[k],
        decreases la - i,
    {
        if a.get_char(i) != b.get_char(i) {
            return false;
        }
        i = i + 1;
    }
    proof {
        assert(a@ =~= b@);
    }
    true
}

/// Once a job's state is terminal, every transition leaves it unchanged:
/// late, duplicate or malformed events cannot alter a completed or failed
/// job.
pub proof fn lemma_terminal_immutable(s: JobState, stage: Seq<char>, frame: u32, total: u32, msg: Seq<char>)
    requires
        s.is_terminal(),
    ensures
        progress_transition(s, stage, frame, total) == s,
        accept_transition(s) == s,
        complete_transition(s) == s,
        fail_transition(s, msg) == s,
{
}

/// Once a job's recorded state is terminal, every store write for that job
/// leaves the whole store unchanged.
pub proof fn lemma_store_terminal_immutable(
    m: Map<Seq<char>, JobState>,
    k: Seq<char>,
    stage: Seq<char>,
    frame: u32,
    total: u32,
    msg: Seq<char>,
)
    requires
        status_of(m, k).is_terminal(),
    ensures
        m.insert(k, progress_transition(status_of(m, k), stage, frame, total)) == m,
        m.insert(k, accept_transition(status_of(m, k))) == m,
        m.insert(k, complete_transition(status_of(m, k))) == m,
        m.insert(k, fail_transition(status_of(m, k), msg)) == m,
{
    assert(m.dom().contains(k));
    assert(m.insert(k, m[k]) =~= m);
}

/// A write for one job never changes what is recorded for another: reads
/// for a job identifier are isolated from every other job's writes.
pub proof fn lemma_job_isolation(m: Map<Seq<char>, JobState>, k1: Seq<char>, k2: Seq<char>, v: JobState)
    requires
        k1 != k2,
    ensures
        status_of(m.insert(k1, v), k2) == status_of(m, k2),
{
}

/// Within one job, progress events never decrease the recorded frame count
/// or the derived percentage while the total stays fixed, and the
/// percentage never reaches 100 before the terminal completion write.
pub proof fn lemma_progress_monotonic(s: JobState, stage: Seq<char>, frame: u32, total: u32)
    requires
        snapshot_derived(s),
        s matches JobState::Processing(Some(p)) && p.total_frames == total,
    ensures
        progress_transition(s, stage, frame, total) matches JobState::Processing(Some(q))
            && q.current_frame >= frame_floor(s) && q.percent >= s->Processing_0->Some_0.percent
            && q.percent <= 99,
{
    let p = s->Processing_0->Some_0;
    let f = if frame >= frame_floor(s) {
        frame
    } else {
        frame_floor(s)
    };
    crate::models::lemma_percent_monotonic(p.current_frame, f, total);
}

} // verus!
