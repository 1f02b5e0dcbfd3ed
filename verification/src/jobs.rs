//! The persistent job queue: records describing an action to run once at
//! or after a scheduled time. A job is created pending, marked running
//! immediately before dispatch, and deleted on completion. Each job kind
//! carries a strongly typed payload, dispatched by exhaustive match.

use vstd::prelude::*;
use vstd::string::StringExecFns;

use crate::table::Table;
use crate::text::{dec_digits, u64_string};

verus! {

#[derive(Debug, Clone, Copy, PartialEq, Eq, Structural)]
pub enum JobType {
    RouletteFinish,
    SardinesFinish,
}

/// The persisted code of a job type.
pub open spec fn spec_job_code(t: JobType) -> Seq<char> {
    match t {
        JobType::RouletteFinish => "roulette:finish"@,
        JobType::SardinesFinish => "sardines:finish"@,
    }
}

impl JobType {
    pub fn code(&self) -> (r: String)
        ensures
            r@ == spec_job_code(*self),
    {
        match self {
            JobType::RouletteFinish => "roulette:finish".to_owned(),
            JobType::SardinesFinish => "sardines:finish".to_owned(),
        }
    }
}

#[derive(Debug, Clone, Copy, PartialEq, Eq, Structural)]
pub enum JobStatus {
    Pending,
    Running,
}

#[derive(Debug)]
pub struct RouletteJobPayload {
    pub id: String,
    pub interaction_token: String,
}

#[derive(Debug)]
pub struct SardinesJobPayload {
    pub id: String,
    pub channel_id: u64,
    pub message_id: u64,
}

#[derive(Debug)]
pub enum JobPayload {
    Roulette(RouletteJobPayload),
    Sardines(SardinesJobPayload),
}

impl JobPayload {
    /// The id of the game the payload points at.
    pub open spec fn spec_game_id(&self) -> Seq<char> {
        match self {
            JobPayload::Roulette(p) => p.id@,
            JobPayload::Sardines(p) => p.id@,
        }
    }

    pub fn game_id(&self) -> (r: &String)
        ensures
            r@ == self.spec_game_id(),
    {
        match self {
            JobPayload::Roulette(p) => &p.id,
            JobPayload::Sardines(p) => &p.id,
        }
    }
}

#[derive(Debug)]
pub struct Job {
    pub id: String,
    pub job_type: JobType,
    pub payload: JobPayload,
    /// When the job becomes due, in milliseconds since the epoch.
    pub execute_at: u64,
    pub status: JobStatus,
}

/// The id a job enqueued at `now_ms` receives: its type code, a dash, and
/// the enqueue instant.
pub open spec fn spec_job_id(t: JobType, now_ms: u64) -> Seq<char> {
    spec_job_code(t) + seq!['-'] + dec_digits(now_ms as int)
}

pub struct JobQueue {
    pub jobs: Table<Job>,
}

impl JobQueue {
    /// Well-formed: distinct keys, and each record is stored under its own
    /// id.
    pub open spec fn wf(&self) -> bool {
        &&& self.jobs.wf()
        &&& forall|k: Seq<char>| #[trigger] self.jobs@.contains_key(k) ==> self.jobs@[k].id@ == k
    }

    pub fn new() -> (r: JobQueue)
        ensures
            r.wf(),
            r.jobs@ == Map::<Seq<char>, Job>::empty(),
    {
        JobQueue { jobs: Table::new() }
    }

    /// Persist a job to run `delay_seconds` from `now_ms`, pending. Returns
    /// the id the record was stored under.
    pub fn enqueue(
        &mut self,
        job_type: JobType,
        payload: JobPayload,
        now_ms: u64,
        delay_seconds: u64,
    ) -> (id: String)
        requires
            old(self).wf(),
            delay_seconds <= 0xffff_ffff,
            now_ms + delay_seconds * 1000 <= u64::MAX,
        ensures
            final(self).wf(),
            id@ == spec_job_id(job_type, now_ms),
            final(self).jobs@ =~= old(self).jobs@.insert(
                id@,
                (Job {
                    id: id,
                    job_type: job_type,
                    payload: payload,
                    execute_at: (now_ms + delay_seconds * 1000) as u64,
                    status: JobStatus::Pending,
                }),
            ),
    {
        let mut id = job_type.code();
        proof {
            reveal_strlit("-");
            assert("-"@ =~= seq!['-']);
        }
        id.append("-");
        id.append(u64_string(now_ms).as_str());
        proof {
            assert(id@ =~= spec_job_id(job_type, now_ms));
        }
        let execute_at: u64 = now_ms + delay_seconds * 1000;
        let job = Job { id: id.clone(), job_type, payload, execute_at, status: JobStatus::Pending };
        let ghost idv = id@;
        self.jobs.insert(id.clone(), job);
        proof {
            assert forall|k: Seq<char>| #[trigger] self.jobs@.contains_key(k) implies self.jobs@[k].id@
                == k by {
                if k != idv {
                    assert(old(self).jobs@.contains_key(k));
                }
            }
        }
        id
    }

    /// A job record that a poll at `now_ms` dispatches.
    pub open spec fn spec_due(&self, k: Seq<char>, now_ms: u64) -> bool {
        &&& self.jobs@.contains_key(k)
        &&& self.jobs@[k].status == JobStatus::Pending
        &&& self.jobs@[k].execute_at <= now_ms
    }

    /// The ids of the records that are pending and due at `now_ms`:
    /// exactly the jobs a poll dispatches.
    pub fn due_pending_ids(&self, now_ms: u64) -> (r: Vec<String>)
        requires
            self.wf(),
        ensures
            forall|i: int| 0 <= i < r@.len() ==> self.spec_due(#[trigger] r@[i]@, now_ms),
            forall|k: Seq<char>|
                #[trigger] self.spec_due(k, now_ms) ==> exists|i: int|
                    0 <= i < r@.len() && r@[i]@ == k,
            forall|a: int, b: int| 0 <= a < b < r@.len() ==> (#[trigger] r@[a])@ != (#[trigger] r@[b])@,
    {
        let mut r: Vec<String> = Vec::new();
        let n = self.jobs.len();
        let mut j: usize = 0;
        while j < n
            invariant
                0 <= j <= n,
                n == self.jobs.entries@.len(),
                self.wf(),
                forall|i: int| 0 <= i < r@.len() ==> self.spec_due(#[trigger] r@[i]@, now_ms),
                forall|jj: int|
                    0 <= jj < j && (#[trigger] self.jobs.entries@[jj].1.status)
                        == JobStatus::Pending && self.jobs.entries@[jj].1.execute_at <= now_ms
                        ==> exists|i: int| 0 <= i < r@.len() && r@[i]@ == self.jobs.entries@[jj].0@,
                forall|i: int|
                    0 <= i < r@.len() ==> exists|jj: int|
                        0 <= jj < j && (#[trigger] r@[i])@ == self.jobs.entries@[jj].0@,
                forall|a: int, b: int|
                    0 <= a < b < r@.len() ==> (#[trigger] r@[a])@ != (#[trigger] r@[b])@,
            decreases n - j,
        {
            let entry = self.jobs.entry_at(j);
            let due = match entry.1.status {
                JobStatus::Pending => entry.1.execute_at <= now_ms,
                JobStatus::Running => false,
            };
            if due {
                proof {
                    crate::table::lemma_map_of_index(self.jobs.entries@, j as int);
                }
                let ghost pre = r@;
                r.push(entry.0.clone());
                proof {
                    assert(r@[r@.len() - 1]@ == self.jobs.entries@[j as int].0@);
                    assert forall|i: int|
                        0 <= i < r@.len() implies self.spec_due(#[trigger] r@[i]@, now_ms) by {
                        if i < pre.len() {
                            assert(r@[i] == pre[i]);
                            assert(self.spec_due(pre[i]@, now_ms));
                        } else {
                            assert(r@[i]@ == self.jobs.entries@[j as int].0@);
                        }
                    }
                    assert forall|i: int|
                        0 <= i < r@.len() implies exists|jj: int|
                        0 <= jj < j + 1 && (#[trigger] r@[i])@ == self.jobs.entries@[jj].0@ by {
                        if i < pre.len() {
                            assert(r@[i] == pre[i]);
                            let jj = choose|jj: int|
                                0 <= jj < j && pre[i]@ == self.jobs.entries@[jj].0@;
                            assert(r@[i]@ == self.jobs.entries@[jj].0@);
                        } else {
                            assert(r@[i]@ == self.jobs.entries@[j as int].0@);
                        }
                    }
                    assert forall|a: int, b: int|
                        0 <= a < b < r@.len() implies (#[trigger] r@[a])@ != (#[trigger] r@[b])@
                        by {
                        if b < pre.len() {
                            assert(r@[a] == pre[a] && r@[b] == pre[b]);
                        } else {
                            assert(r@[a] == pre[a]);
                            let jj = choose|jj: int|
                                0 <= jj < j && pre[a]@ == self.jobs.entries@[jj].0@;
                            assert(r@[b]@ == self.jobs.entries@[j as int].0@);
                            assert(self.jobs.entries@[jj].0@ != self.jobs.entries@[j as int].0@);
                        }
                    }
                    assert forall|jj: int|
                        0 <= jj < j + 1 && (#[trigger] self.jobs.entries@[jj].1.status)
                            == JobStatus::Pending && self.jobs.entries@[jj].1.execute_at <= now_ms
                        implies exists|i: int|
                        0 <= i < r@.len() && r@[i]@ == self.jobs.entries@[jj].0@ by {
                        if jj < j {
                            let i = choose|i: int|
                                0 <= i < pre.len() && pre[i]@ == self.jobs.entries@[jj].0@;
                            assert(r@[i]@ == self.jobs.entries@[jj].0@);
                        } else {
                            assert(r@[r@.len() - 1]@ == self.jobs.entries@[jj].0@);
                        }
                    }
                }
            } else {
                proof {
                    crate::table::lemma_map_of_index(self.jobs.entries@, j as int);
                }
            }
            j += 1;
        }
        proof {
            assert forall|k: Seq<char>| #[trigger] self.spec_due(k, now_ms) implies exists|i: int|
                0 <= i < r@.len() && r@[i]@ == k by {
                crate::table::lemma_map_of_contains(self.jobs.entries@, k);
                let jj = choose|jj: int|
                    0 <= jj < self.jobs.entries@.len() && self.jobs.entries@[jj].0@ == k;
                crate::table::lemma_map_of_index(self.jobs.entries@, jj);
                assert(self.jobs.entries@[jj].1.status == JobStatus::Pending);
            }
        }
        r
    }

    pub fn get(&self, id: &str) -> (r: Option<&Job>)
        requires
            self.wf(),
        ensures
            match r {
                Some(j) => self.jobs@.contains_key(id@) && *j == self.jobs@[id@],
                None => !self.jobs@.contains_key(id@),
            },
    {
        self.jobs.get(id)
    }

    /// Mark a record running, immediately before its handler is invoked.
    pub fn mark_running(&mut self, id: &str) -> (r: bool)
        requires
            old(self).wf(),
        ensures
            final(self).wf(),
            r == old(self).jobs@.contains_key(id@),
            r ==> final(self).jobs@ =~= old(self).jobs@.insert(
                id@,
                (Job { status: JobStatus::Running, ..old(self).jobs@[id@] }),
            ),
            !r ==> final(self).jobs@ == old(self).jobs@,
    {
        let ghost idv = id@;
        match self.jobs.remove(id) {
            Some(job) => {
                let mut job = job;
                job.status = JobStatus::Running;
                let key = job.id.clone();
                proof {
                    assert(key@ == idv);
                }
                self.jobs.insert(key, job);
                proof {
                    assert(self.jobs@ =~= old(self).jobs@.insert(
                        idv,
                        (Job { status: JobStatus::Running, ..old(self).jobs@[idv] }),
                    ));
                    assert forall|k: Seq<char>| #[trigger] self.jobs@.contains_key(k) implies self
                        .jobs@[k].id@ == k by {
                        if k != idv {
                            assert(old(self).jobs@.contains_key(k));
                        }
                    }
                }
                true
            },
            None => false,
        }
    }

    /// Delete a record; deleting an absent id changes nothing.
    pub fn delete(&mut self, id: &str)
        requires
            old(self).wf(),
        ensures
            final(self).wf(),
            final(self).jobs@ =~= old(self).jobs@.remove(id@),
    {
        let _ = self.jobs.remove(id);
        proof {
            assert forall|k: Seq<char>| #[trigger] self.jobs@.contains_key(k) implies self.jobs@[k].id@
                == k by {
                assert(old(self).jobs@.contains_key(k));
            }
        }
    }
}

} // verus!
