//! The job book of an agent: submitted jobs with their status, logs and
//! artifacts, identifier assignment, status transitions, listing, and merging
//! of job states gossiped by other peers (the newer update wins).
use vstd::prelude::*;
use vstd::string::*;


use crate::text::{decimal, i64_to_decimal, signed_decimal, str_eq, u64_to_decimal};

verus! {

/// Where a job is in its life.
#[derive(Debug, Clone, Copy, PartialEq, Eq, Structural)]
pub enum JobStatus {
    Pending,
    Running,
    Completed,
    Failed,
    Cancelled,
}

/// One log line of a job.
pub struct JobLog {
    pub timestamp: u64,
    pub level: String,
    pub message: String,
}

/// A file a job produced.
pub struct JobArtifact {
    pub name: String,
    pub stored_path: String,
    pub size_bytes: Option<u64>,
    pub sha256_hex: Option<String>,
}

/// What was asked of a job: its name and, for a recurring job, its cron
/// schedule.
pub struct JobSpec {
    pub name: String,
    pub recurring: bool,
    pub schedule: Option<String>,
}

/// A job and everything known of its execution.
pub struct JobInstance {
    pub id: String,
    pub origin_node_id: String,
    pub spec: JobSpec,
    pub status: JobStatus,
    pub submitted_at: u64,
    pub updated_at: u64,
    pub started_at: Option<u64>,
    pub completed_at: Option<u64>,
    pub assigned_node: Option<String>,
    pub exit_code: Option<i32>,
    pub error: Option<String>,
    pub logs: Vec<JobLog>,
    pub artifacts: Vec<JobArtifact>,
    pub last_scheduled_at: Option<u64>,
}

pub struct JobLogView {
    pub timestamp: u64,
    pub level: Seq<char>,
    pub message: Seq<char>,
}

pub struct JobArtifactView {
    pub name: Seq<char>,
    pub stored_path: Seq<char>,
    pub size_bytes: Option<u64>,
    pub sha256_hex: Option<Seq<char>>,
}

pub struct JobSpecView {
    pub name: Seq<char>,
    pub recurring: bool,
    pub schedule: Option<Seq<char>>,
}

pub struct JobView {
    pub id: Seq<char>,
    pub origin_node_id: Seq<char>,
    pub spec: JobSpecView,
    pub status: JobStatus,
    pub submitted_at: u64,
    pub updated_at: u64,
    pub started_at: Option<u64>,
    pub completed_at: Option<u64>,
    pub assigned_node: Option<Seq<char>>,
    pub exit_code: Option<i32>,
    pub error: Option<Seq<char>>,
    pub logs: Seq<JobLogView>,
    pub artifacts: Seq<JobArtifactView>,
    pub last_scheduled_at: Option<u64>,
}

pub open spec fn opt_string(o: Option<String>) -> Option<Seq<char>> {
    match o {
        Some(s) => Some(s@),
        None => None,
    }
}

impl View for JobLog {
    type V = JobLogView;

    open spec fn view(&self) -> JobLogView {
        JobLogView { timestamp: self.timestamp, level: self.level@, message: self.message@ }
    }
}

impl View for JobArtifact {
    type V = JobArtifactView;

    open spec fn view(&self) -> JobArtifactView {
        JobArtifactView {
            name: self.name@,
            stored_path: self.stored_path@,
            size_bytes: self.size_bytes,
            sha256_hex: opt_string(self.sha256_hex),
        }
    }
}

impl View for JobSpec {
    type V = JobSpecView;

    open spec fn view(&self) -> JobSpecView {
        JobSpecView { name: self.name@, recurring: self.recurring, schedule: opt_string(self.schedule) }
    }
}

impl View for JobInstance {
    type V = JobView;

    open spec fn view(&self) -> JobView {
        JobView {
            id: self.id@,
            origin_node_id: self.origin_node_id@,
            spec: self.spec@,
            status: self.status,
            submitted_at: self.submitted_at,
            updated_at: self.updated_at,
            started_at: self.started_at,
            completed_at: self.completed_at,
            assigned_node: opt_string(self.assigned_node),
            exit_code: self.exit_code,
            error: opt_string(self.error),
            logs: self.logs@.map_values(|l: JobLog| l@),
            artifacts: self.artifacts@.map_values(|a: JobArtifact| a@),
            last_scheduled_at: self.last_scheduled_at,
        }
    }
}

pub open spec fn log_line(now: u64, level: Seq<char>, message: Seq<char>) -> JobLogView {
    JobLogView { timestamp: now, level, message }
}

/// The job after one more log line.
pub open spec fn with_log(j: JobView, now: u64, level: Seq<char>, message: Seq<char>) -> JobView {
    JobView { logs: j.logs.push(log_line(now, level, message)), ..j }
}

impl JobInstance {
    /// A freshly submitted job: pending, submitted and updated at `now`, with
    /// the log line "Job submitted".
    pub fn new(id: String, origin_node_id: String, spec: JobSpec, now: u64) -> (r: JobInstance)
        ensures
            r@ == (JobView {
                id: id@,
                origin_node_id: origin_node_id@,
                spec: spec@,
                status: JobStatus::Pending,
                submitted_at: now,
                updated_at: now,
                started_at: None,
                completed_at: None,
                assigned_node: None,
                exit_code: None,
                error: None,
                logs: seq![log_line(now, "info"@, "Job submitted"@)],
                artifacts: Seq::empty(),
                last_scheduled_at: None,
            }),
    {
        let mut logs: Vec<JobLog> = Vec::new();
        logs.push(
            JobLog {
                timestamp: now,
                level: String::from_str("info"),
                message: String::from_str("Job submitted"),
            },
        );
        let r = JobInstance {
            id,
            origin_node_id,
            spec,
            status: JobStatus::Pending,
            submitted_at: now,
            updated_at: now,
            started_at: None,
            completed_at: None,
            assigned_node: None,
            exit_code: None,
            error: None,
            logs,
            artifacts: Vec::new(),
            last_scheduled_at: None,
        };
        assert(r@.logs =~= seq![log_line(now, "info"@, "Job submitted"@)]);
        assert(r@.artifacts =~= Seq::<JobArtifactView>::empty());
        r
    }

    /// Append a log line with `level` and `message` at `now`.
    pub fn add_log(&mut self, level: String, message: String, now: u64)
        ensures
            final(self)@ == with_log(old(self)@, now, level@, message@),
    {
        self.logs.push(JobLog { timestamp: now, level, message });
        assert(self@.logs =~= old(self)@.logs.push(log_line(now, level@, message@)));
    }
}

/// The jobs an agent knows of, and the counter for the next local job id.
pub struct JobStore {
    pub jobs: Vec<JobInstance>,
    pub next_id: u64,
}

pub open spec fn jobs_view(jobs: Seq<JobInstance>) -> Seq<JobView> {
    jobs.map_values(|j: JobInstance| j@)
}

/// No job id occurs twice.
pub open spec fn distinct_ids(s: Seq<JobView>) -> bool {
    forall|i: int, j: int| 0 <= i < j < s.len() ==> s[i].id != s[j].id
}

/// The position of the job with id `id`, if there is one.
pub open spec fn job_pos(s: Seq<JobView>, id: Seq<char>, i: int) -> bool {
    0 <= i < s.len() && s[i].id == id
}

pub open spec fn has_job(s: Seq<JobView>, id: Seq<char>) -> bool {
    exists|i: int| job_pos(s, id, i)
}

/// A job store after job `id` was changed by `f` (unchanged if there is no
/// such job).
pub open spec fn update_job(s: Seq<JobView>, id: Seq<char>, f: spec_fn(JobView) -> JobView) -> Seq<
    JobView,
> {
    Seq::new(s.len(), |i: int| if s[i].id == id { f(s[i]) } else { s[i] })
}

/// The id a locally generated job gets: the origin node, a dash and the
/// counter.
pub open spec fn generated_id(origin: Seq<char>, n: u64) -> Seq<char> {
    origin + "-"@ + decimal(n as nat)
}

/// Does a status filter name `status` (case-insensitively for ASCII)?
pub open spec fn status_name(status: JobStatus) -> Seq<char> {
    match status {
        JobStatus::Pending => "pending"@,
        JobStatus::Running => "running"@,
        JobStatus::Completed => "completed"@,
        JobStatus::Failed => "failed"@,
        JobStatus::Cancelled => "cancelled"@,
    }
}

pub open spec fn ascii_lower(c: char) -> char {
    if 'A' <= c && c <= 'Z' {
        ((c as u32) + 32) as char
    } else {
        c
    }
}

pub open spec fn eq_ignore_ascii_case(a: Seq<char>, b: Seq<char>) -> bool {
    a.len() == b.len() && forall|i: int| 0 <= i < a.len() ==> ascii_lower(a[i]) == ascii_lower(b[i])
}

/// The status a filter text selects, if it names one.
pub open spec fn filter_status(filter: Seq<char>) -> Option<JobStatus> {
    if eq_ignore_ascii_case(filter, "pending"@) {
        Some(JobStatus::Pending)
    } else if eq_ignore_ascii_case(filter, "running"@) {
        Some(JobStatus::Running)
    } else if eq_ignore_ascii_case(filter, "completed"@) {
        Some(JobStatus::Completed)
    } else if eq_ignore_ascii_case(filter, "failed"@) {
        Some(JobStatus::Failed)
    } else if eq_ignore_ascii_case(filter, "cancelled"@) {
        Some(JobStatus::Cancelled)
    } else {
        None
    }
}

/// Does job `j` pass the status filter `filter` (no filter, or a filter that
/// names no status, lets every job pass)?
pub open spec fn passes_filter(j: JobView, filter: Option<Seq<char>>) -> bool {
    match filter {
        None => true,
        Some(f) => match filter_status(f) {
            None => true,
            Some(st) => j.status == st,
        },
    }
}

fn ascii_lower_exec(c: char) -> (r: char)
    ensures
        r == ascii_lower(c),
{
    if 'A' <= c && c <= 'Z' {
        let b = c as u8;
        assert(b as u32 == c as u32);
        (b + 32) as char
    } else {
        c
    }
}

fn eq_ignore_case(a: &str, b: &str) -> (r: bool)
    ensures
        r == eq_ignore_ascii_case(a@, b@),
{
    let n = a.unicode_len();
    if n != b.unicode_len() {
        return false;
    }
    let mut i: usize = 0;
    while i < n
        invariant
            n == a@.len(),
            n == b@.len(),
            i <= n,
            forall|k: int| 0 <= k < i ==> ascii_lower(a@[k]) == ascii_lower(b@[k]),
        decreases n - i,
    {
        if ascii_lower_exec(a.get_char(i)) != ascii_lower_exec(b.get_char(i)) {
            return false;
        }
        i = i + 1;
    }
    true
}

/// The status that a filter text of the job list names, if any.
pub fn parse_status_filter(filter: &str) -> (r: Option<JobStatus>)
    ensures
        r == filter_status(filter@),
{
    if eq_ignore_case(filter, "pending") {
        Some(JobStatus::Pending)
    } else if eq_ignore_case(filter, "running") {
        Some(JobStatus::Running)
    } else if eq_ignore_case(filter, "completed") {
        Some(JobStatus::Completed)
    } else if eq_ignore_case(filter, "failed") {
        Some(JobStatus::Failed)
    } else if eq_ignore_case(filter, "cancelled") {
        Some(JobStatus::Cancelled)
    } else {
        None
    }
}

impl View for JobStore {
    type V = (Seq<JobView>, u64);

    open spec fn view(&self) -> (Seq<JobView>, u64) {
        (jobs_view(self.jobs@), self.next_id)
    }
}

impl JobStore {
    pub open spec fn wf(&self) -> bool {
        distinct_ids(self@.0)
    }

    /// An empty job book whose first generated id uses counter 1.
    pub fn new() -> (r: JobStore)
        ensures
            r@.0 == Seq::<JobView>::empty(),
            r@.1 == 1,
            r.wf(),
    {
        let r = JobStore { jobs: Vec::new(), next_id: 1 };
        assert(r@.0 =~= Seq::<JobView>::empty());
        r
    }

    fn find(&self, id: &str) -> (r: Option<usize>)
        ensures
            match r {
                Some(i) => job_pos(self@.0, id@, i as int),
                None => !has_job(self@.0, id@),
            },
    {
        let mut i: usize = 0;
        while i < self.jobs.len()
            invariant
                i <= self.jobs@.len(),
                forall|k: int| 0 <= k < i ==> self.jobs@[k].id@ != id@,
            decreases self.jobs.len() - i,
        {
            if str_eq(self.jobs[i].id.as_str(), id) {
                assert(self@.0[i as int] == self.jobs@[i as int]@);
                return Some(i);
            }
            i = i + 1;
        }
        assert forall|k: int| !job_pos(self@.0, id@, k) by {
            if 0 <= k < self.jobs@.len() {
                assert(self@.0[k] == self.jobs@[k]@);
            }
        }
        None
    }

    /// Submit a job at time `now` on node `node_id`. Its origin is
    /// `origin_node_id` or this node; its id is `job_id` when given, else the
    /// origin, a dash and the store's counter, which then moves on. A job with
    /// the same id is replaced.
    pub fn submit_job(
        &mut self,
        spec: JobSpec,
        origin_node_id: Option<String>,
        job_id: Option<String>,
        node_id: &str,
        now: u64,
    ) -> (r: String)
        requires
            old(self).wf(),
            job_id is None ==> old(self)@.1 < u64::MAX,
        ensures
            final(self).wf(),
            ({
                let origin = match origin_node_id {
                    Some(o) => o@,
                    None => node_id@,
                };
                &&& r@ == match job_id {
                    Some(id) => id@,
                    None => generated_id(origin, old(self)@.1),
                }
                &&& final(self)@.1 == if job_id is None { (old(self)@.1 + 1) as u64 } else { old(self)@.1 }
                &&& has_job(final(self)@.0, r@)
                &&& forall|i: int|
                    job_pos(final(self)@.0, r@, i) ==> final(self)@.0[i] == (JobView {
                        id: r@,
                        origin_node_id: origin,
                        spec: spec@,
                        status: JobStatus::Pending,
                        submitted_at: now,
                        updated_at: now,
                        started_at: None,
                        completed_at: None,
                        assigned_node: None,
                        exit_code: None,
                        error: None,
                        logs: seq![log_line(now, "info"@, "Job submitted"@)],
                        artifacts: Seq::empty(),
                        last_scheduled_at: None,
                    })
                &&& forall|k: int|
                    0 <= k < old(self)@.0.len() && old(self)@.0[k].id != r@
                        ==> #[trigger] final(self)@.0.contains(old(self)@.0[k])
                &&& forall|k: int|
                    0 <= k < final(self)@.0.len() && final(self)@.0[k].id != r@
                        ==> old(self)@.0.contains(#[trigger] final(self)@.0[k])
            }),
    {
        let origin = match origin_node_id {
            Some(o) => o,
            None => String::from_str(node_id),
        };
        let id = match job_id {
            Some(id) => id,
            None => {
                let id = origin.clone().concat("-").concat(u64_to_decimal(self.next_id).as_str());
                self.next_id = self.next_id + 1;
                id
            },
        };
        let ghost idv = id@;
        let ghost originv = origin@;
        let job = JobInstance::new(id.clone(), origin, spec, now);
        let ghost jv = job@;
        let ghost before = self@.0;
        match self.find(id.as_str()) {
            Some(i) => {
                self.jobs.set(i, job);
                proof {
                    assert(self@.0 =~= before.update(i as int, self.jobs@[i as int]@));
                    assert forall|a: int, b: int| 0 <= a < b < self@.0.len() implies self@.0[a].id
                        != self@.0[b].id by {}
                    assert(job_pos(self@.0, idv, i as int));
                    assert forall|k: int| job_pos(self@.0, idv, k) implies self@.0[k] == jv by {
                        if k != i {
                            assert(before[k].id == idv);
                            assert(before[i as int].id == idv);
                        }
                    }
                    assert forall|k: int| 0 <= k < before.len() && before[k].id != idv implies #[trigger] self@.0.contains(before[k]) by {
                        assert(self@.0[k] == before[k]);
                    }
                    assert forall|k: int| 0 <= k < self@.0.len() && self@.0[k].id != idv implies before.contains(#[trigger] self@.0[k]) by {
                        assert(self@.0[k] == before[k]);
                    }
                }
            },
            None => {
                self.jobs.push(job);
                proof {
                    assert(self@.0 =~= before.push(self.jobs@[before.len() as int]@));
                    assert(job_pos(self@.0, idv, before.len() as int));
                    assert forall|a: int, b: int| 0 <= a < b < self@.0.len() implies self@.0[a].id
                        != self@.0[b].id by {
                        if b == before.len() {
                            assert(!job_pos(before, idv, a));
                        }
                    }
                    assert forall|k: int| job_pos(self@.0, idv, k) implies self@.0[k] == jv by {
                        if k < before.len() {
                            assert(job_pos(before, idv, k));
                        }
                    }
                    assert forall|k: int| 0 <= k < before.len() && before[k].id != idv implies #[trigger] self@.0.contains(before[k]) by {
                        assert(self@.0[k] == before[k]);
                    }
                    assert forall|k: int| 0 <= k < self@.0.len() && self@.0[k].id != idv implies before.contains(#[trigger] self@.0[k]) by {
                        assert(self@.0[k] == before[k]);
                    }
                }
            },
        }
        id
    }
}


/// The job after `start` on `node` at `now`: running there since `now`.
pub open spec fn started(j: JobView, node: Seq<char>, now: u64) -> JobView {
    with_log(
        JobView {
            status: JobStatus::Running,
            started_at: Some(now),
            assigned_node: Some(node),
            updated_at: now,
            ..j
        },
        now,
        "info"@,
        "Job started"@,
    )
}

/// The job after it completed with `code` at `now`.
pub open spec fn completed(j: JobView, code: i32, now: u64) -> JobView {
    with_log(
        JobView {
            status: JobStatus::Completed,
            exit_code: Some(code),
            completed_at: Some(now),
            updated_at: now,
            ..j
        },
        now,
        "info"@,
        "Job completed with exit code "@ + signed_decimal(code as int),
    )
}

/// The job after it failed with `err` at `now`.
pub open spec fn failed(j: JobView, err: Seq<char>, now: u64) -> JobView {
    with_log(
        JobView {
            status: JobStatus::Failed,
            error: Some(err),
            completed_at: Some(now),
            updated_at: now,
            ..j
        },
        now,
        "error"@,
        "Job failed: "@ + err,
    )
}

/// The job after it was cancelled at `now`.
pub open spec fn cancelled(j: JobView, now: u64) -> JobView {
    with_log(
        JobView {
            status: JobStatus::Cancelled,
            completed_at: Some(now),
            updated_at: now,
            ..j
        },
        now,
        "warn"@,
        "Job cancelled"@,
    )
}

/// The job after it was assigned to `node` at `now`.
pub open spec fn assigned(j: JobView, node: Seq<char>, now: u64) -> JobView {
    with_log(
        JobView { assigned_node: Some(node), updated_at: now, ..j },
        now,
        "info"@,
        "Job assigned to node "@ + node,
    )
}

/// The job list with the job at `i` replaced by `v`.
pub open spec fn replace_at(s: Seq<JobView>, i: int, v: JobView) -> Seq<JobView> {
    s.update(i, v)
}

impl JobStore {
    proof fn lemma_update_keeps_wf(&self, i: int, v: JobView)
        requires
            self.wf(),
            0 <= i < self@.0.len(),
            v.id == self@.0[i].id,
        ensures
            distinct_ids(self@.0.update(i, v)),
    {
        let s = self@.0.update(i, v);
        assert forall|a: int, b: int| 0 <= a < b < s.len() implies s[a].id != s[b].id by {}
    }

    /// Assign job `id` to `node` at `now`; no effect when there is no such job.
    pub fn assign_job(&mut self, id: &str, node: &str, now: u64)
        requires
            old(self).wf(),
        ensures
            final(self).wf(),
            final(self)@.1 == old(self)@.1,
            match self_find(old(self)@.0, id@) {
                Some(i) => final(self)@.0 == replace_at(old(self)@.0, i, assigned(old(self)@.0[i], node@, now)),
                None => final(self)@.0 == old(self)@.0,
            },
    {
        match self.find(id) {
            Some(i) => {
                let ghost before = self@.0;
                proof {
                    lemma_self_find(before, id@, i as int);
                    self.lemma_update_keeps_wf(i as int, assigned(before[i as int], node@, now));
                }
                let job = &mut self.jobs[i];
                job.assigned_node = Some(String::from_str(node));
                job.updated_at = now;
                job.add_log(
                    String::from_str("info"),
                    String::from_str("Job assigned to node ").concat(node),
                    now,
                );
                assert(self@.0 =~= replace_at(before, i as int, assigned(before[i as int], node@, now)));
            },
            None => {
                proof {
                    lemma_self_find_none(self@.0, id@);
                }
            },
        }
    }

    /// Start job `id` at `now` on the node it is assigned to ("unknown" when
    /// it has none); no effect when there is no such job.
    pub fn start_job(&mut self, id: &str, now: u64)
        requires
            old(self).wf(),
        ensures
            final(self).wf(),
            final(self)@.1 == old(self)@.1,
            match self_find(old(self)@.0, id@) {
                Some(i) => final(self)@.0 == replace_at(
                    old(self)@.0,
                    i,
                    started(
                        old(self)@.0[i],
                        match old(self)@.0[i].assigned_node {
                            Some(n) => n,
                            None => "unknown"@,
                        },
                        now,
                    ),
                ),
                None => final(self)@.0 == old(self)@.0,
            },
    {
        match self.find(id) {
            Some(i) => {
                let ghost before = self@.0;
                let node = match &self.jobs[i].assigned_node {
                    Some(n) => n.clone(),
                    None => String::from_str("unknown"),
                };
                proof {
                    lemma_self_find(before, id@, i as int);
                    self.lemma_update_keeps_wf(i as int, started(before[i as int], node@, now));
                }
                let job = &mut self.jobs[i];
                job.status = JobStatus::Running;
                job.started_at = Some(now);
                job.assigned_node = Some(node);
                job.updated_at = now;
                job.add_log(String::from_str("info"), String::from_str("Job started"), now);
                assert(self@.0 =~= replace_at(before, i as int, started(before[i as int], node@, now)));
            },
            None => {
                proof {
                    lemma_self_find_none(self@.0, id@);
                }
            },
        }
    }

    /// Record that job `id` completed with `exit_code` at `now`.
    pub fn complete_job(&mut self, id: &str, exit_code: i32, now: u64)
        requires
            old(self).wf(),
        ensures
            final(self).wf(),
            final(self)@.1 == old(self)@.1,
            match self_find(old(self)@.0, id@) {
                Some(i) => final(self)@.0 == replace_at(old(self)@.0, i, completed(old(self)@.0[i], exit_code, now)),
                None => final(self)@.0 == old(self)@.0,
            },
    {
        match self.find(id) {
            Some(i) => {
                let ghost before = self@.0;
                proof {
                    lemma_self_find(before, id@, i as int);
                    self.lemma_update_keeps_wf(i as int, completed(before[i as int], exit_code, now));
                }
                let msg = String::from_str("Job completed with exit code ").concat(
                    i64_to_decimal(exit_code as i64).as_str(),
                );
                let job = &mut self.jobs[i];
                job.status = JobStatus::Completed;
                job.exit_code = Some(exit_code);
                job.completed_at = Some(now);
                job.updated_at = now;
                job.add_log(String::from_str("info"), msg, now);
                assert(self@.0 =~= replace_at(before, i as int, completed(before[i as int], exit_code, now)));
            },
            None => {
                proof {
                    lemma_self_find_none(self@.0, id@);
                }
            },
        }
    }

    /// Record that job `id` failed with `error` at `now`.
    pub fn fail_job(&mut self, id: &str, error: String, now: u64)
        requires
            old(self).wf(),
        ensures
            final(self).wf(),
            final(self)@.1 == old(self)@.1,
            match self_find(old(self)@.0, id@) {
                Some(i) => final(self)@.0 == replace_at(old(self)@.0, i, failed(old(self)@.0[i], error@, now)),
                None => final(self)@.0 == old(self)@.0,
            },
    {
        match self.find(id) {
            Some(i) => {
                let ghost before = self@.0;
                let ghost ev = error@;
                proof {
                    lemma_self_find(before, id@, i as int);
                    self.lemma_update_keeps_wf(i as int, failed(before[i as int], ev, now));
                }
                let msg = String::from_str("Job failed: ").concat(error.as_str());
                let job = &mut self.jobs[i];
                job.status = JobStatus::Failed;
                job.error = Some(error);
                job.completed_at = Some(now);
                job.updated_at = now;
                job.add_log(String::from_str("error"), msg, now);
                assert(self@.0 =~= replace_at(before, i as int, failed(before[i as int], ev, now)));
            },
            None => {
                proof {
                    lemma_self_find_none(self@.0, id@);
                }
            },
        }
    }

    /// Cancel job `id` at `now` if it is pending or running; true when it was
    /// cancelled. Finished jobs and unknown ids are left alone.
    pub fn cancel_job(&mut self, id: &str, now: u64) -> (r: bool)
        requires
            old(self).wf(),
        ensures
            final(self).wf(),
            final(self)@.1 == old(self)@.1,
            match self_find(old(self)@.0, id@) {
                Some(i) => {
                    let st = old(self)@.0[i].status;
                    &&& r == (st == JobStatus::Pending || st == JobStatus::Running)
                    &&& r ==> final(self)@.0 == replace_at(old(self)@.0, i, cancelled(old(self)@.0[i], now))
                    &&& !r ==> final(self)@.0 == old(self)@.0
                },
                None => !r && final(self)@.0 == old(self)@.0,
            },
    {
        match self.find(id) {
            Some(i) => {
                let ghost before = self@.0;
                proof {
                    lemma_self_find(before, id@, i as int);
                }
                let st = self.jobs[i].status;
                if st == JobStatus::Pending || st == JobStatus::Running {
                    proof {
                        self.lemma_update_keeps_wf(i as int, cancelled(before[i as int], now));
                    }
                    let job = &mut self.jobs[i];
                    job.status = JobStatus::Cancelled;
                    job.completed_at = Some(now);
                    job.updated_at = now;
                    job.add_log(String::from_str("warn"), String::from_str("Job cancelled"), now);
                    assert(self@.0 =~= replace_at(before, i as int, cancelled(before[i as int], now)));
                    true
                } else {
                    false
                }
            },
            None => {
                proof {
                    lemma_self_find_none(self@.0, id@);
                }
                false
            },
        }
    }

    /// Append a log line to job `id` at `now`.
    pub fn add_job_log(&mut self, id: &str, level: String, message: String, now: u64)
        requires
            old(self).wf(),
        ensures
            final(self).wf(),
            final(self)@.1 == old(self)@.1,
            match self_find(old(self)@.0, id@) {
                Some(i) => final(self)@.0 == replace_at(old(self)@.0, i, with_log(old(self)@.0[i], now, level@, message@)),
                None => final(self)@.0 == old(self)@.0,
            },
    {
        match self.find(id) {
            Some(i) => {
                let ghost before = self@.0;
                let ghost lv = level@;
                let ghost mv = message@;
                proof {
                    lemma_self_find(before, id@, i as int);
                    self.lemma_update_keeps_wf(i as int, with_log(before[i as int], now, lv, mv));
                }
                let job = &mut self.jobs[i];
                job.add_log(level, message, now);
                assert(self@.0 =~= replace_at(before, i as int, with_log(before[i as int], now, lv, mv)));
            },
            None => {
                proof {
                    lemma_self_find_none(self@.0, id@);
                }
            },
        }
    }

    /// Record an artifact of job `id` at `now`.
    pub fn add_job_artifact(&mut self, id: &str, artifact: JobArtifact, now: u64)
        requires
            old(self).wf(),
        ensures
            final(self).wf(),
            final(self)@.1 == old(self)@.1,
            match self_find(old(self)@.0, id@) {
                Some(i) => final(self)@.0 == replace_at(
                    old(self)@.0,
                    i,
                    JobView {
                        artifacts: old(self)@.0[i].artifacts.push(artifact@),
                        updated_at: now,
                        ..old(self)@.0[i]
                    },
                ),
                None => final(self)@.0 == old(self)@.0,
            },
    {
        match self.find(id) {
            Some(i) => {
                let ghost before = self@.0;
                let ghost av = artifact@;
                let ghost nv = JobView {
                    artifacts: before[i as int].artifacts.push(av),
                    updated_at: now,
                    ..before[i as int]
                };
                proof {
                    lemma_self_find(before, id@, i as int);
                    self.lemma_update_keeps_wf(i as int, nv);
                }
                let job = &mut self.jobs[i];
                job.artifacts.push(artifact);
                job.updated_at = now;
                assert(self@.0[i as int].artifacts =~= nv.artifacts);
                assert(self@.0 =~= replace_at(before, i as int, nv));
            },
            None => {
                proof {
                    lemma_self_find_none(self@.0, id@);
                }
            },
        }
    }

    /// The job with id `id`, if there is one.
    pub fn get_job(&self, id: &str) -> (r: Option<&JobInstance>)
        requires
            self.wf(),
        ensures
            match self_find(self@.0, id@) {
                Some(i) => r matches Some(j) && j@ == self@.0[i],
                None => r is None,
            },
    {
        match self.find(id) {
            Some(i) => {
                proof {
                    lemma_self_find(self@.0, id@, i as int);
                }
                assert(self@.0[i as int] == self.jobs@[i as int]@);
                Some(&self.jobs[i])
            },
            None => {
                proof {
                    lemma_self_find_none(self@.0, id@);
                }
                None
            },
        }
    }

    /// Merge the state of a job learnt from another peer: an unknown job is
    /// added; a known one is replaced only by a strictly newer update.
    pub fn sync_job(&mut self, job: JobInstance)
        requires
            old(self).wf(),
        ensures
            final(self).wf(),
            final(self)@.1 == old(self)@.1,
            match self_find(old(self)@.0, job@.id) {
                Some(i) => if job@.updated_at > old(self)@.0[i].updated_at {
                    final(self)@.0 == replace_at(old(self)@.0, i, job@)
                } else {
                    final(self)@.0 == old(self)@.0
                },
                None => final(self)@.0 == old(self)@.0.push(job@),
            },
    {
        let ghost jv = job@;
        let ghost before = self@.0;
        match self.find(job.id.as_str()) {
            Some(i) => {
                proof {
                    lemma_self_find(before, jv.id, i as int);
                }
                if job.updated_at > self.jobs[i].updated_at {
                    proof {
                        self.lemma_update_keeps_wf(i as int, jv);
                    }
                    self.jobs.set(i, job);
                    assert(self@.0 =~= replace_at(before, i as int, jv));
                }
            },
            None => {
                proof {
                    lemma_self_find_none(before, jv.id);
                }
                self.jobs.push(job);
                assert(self@.0 =~= before.push(jv));
                assert forall|a: int, b: int| 0 <= a < b < self@.0.len() implies self@.0[a].id
                    != self@.0[b].id by {
                    if b == before.len() {
                        assert(!job_pos(before, jv.id, a));
                    }
                }
            },
        }
    }
}

/// The position of the job with id `id` in a job list without repeated ids.
pub open spec fn self_find(s: Seq<JobView>, id: Seq<char>) -> Option<int> {
    if has_job(s, id) {
        Some(choose|i: int| job_pos(s, id, i))
    } else {
        None
    }
}

pub proof fn lemma_self_find(s: Seq<JobView>, id: Seq<char>, i: int)
    requires
        distinct_ids(s),
        job_pos(s, id, i),
    ensures
        self_find(s, id) == Some(i),
{
    let k = choose|k: int| job_pos(s, id, k);
    assert(job_pos(s, id, k));
    if k < i {
        assert(s[k].id != s[i].id);
    }
    if i < k {
        assert(s[i].id != s[k].id);
    }
}

pub proof fn lemma_self_find_none(s: Seq<JobView>, id: Seq<char>)
    requires
        !has_job(s, id),
    ensures
        self_find(s, id) is None,
{
}

pub open spec fn opt_str(o: Option<&str>) -> Option<Seq<char>> {
    match o {
        Some(s) => Some(s@),
        None => None,
    }
}

impl JobStore {
    /// The jobs passing `status_filter` (see `passes_filter`), newest
    /// submission first, at most `limit` of them: when fewer than `limit` are
    /// returned every passing job is among them, and no passing job left out
    /// was submitted later than the last one returned.
    pub fn list_jobs(&self, status_filter: Option<&str>, limit: usize) -> (r: Vec<&JobInstance>)
        requires
            self.wf(),
        ensures
            r@.len() <= limit,
            forall|k: int|
                0 <= k < r@.len() ==> passes_filter(r@[k]@, opt_str(status_filter))
                    && self@.0.contains(#[trigger] r@[k]@),
            forall|k1: int, k2: int|
                0 <= k1 < k2 < r@.len() ==> (#[trigger] r@[k1])@.id != (#[trigger] r@[k2])@.id
                    && r@[k1]@.submitted_at >= r@[k2]@.submitted_at,
            r@.len() < limit ==> forall|i: int|
                0 <= i < self@.0.len() && passes_filter(#[trigger] self@.0[i], opt_str(status_filter))
                    ==> exists|k: int| 0 <= k < r@.len() && r@[k]@ == self@.0[i],
            forall|i: int|
                0 <= i < self@.0.len() && passes_filter(#[trigger] self@.0[i], opt_str(status_filter))
                    && (forall|k: int| 0 <= k < r@.len() ==> r@[k]@.id != self@.0[i].id)
                    && r@.len() > 0 ==> self@.0[i].submitted_at <= r@[r@.len() - 1]@.submitted_at,
    {
        let wanted: Option<JobStatus> = match status_filter {
            Some(f) => parse_status_filter(f),
            None => None,
        };
        let ghost fv = opt_str(status_filter);
        let ghost s = self@.0;
        let n = self.jobs.len();
        let mut picked: Vec<bool> = Vec::new();
        let mut z: usize = 0;
        while z < n
            invariant
                z <= n,
                n == self.jobs@.len(),
                picked@.len() == z,
                forall|i: int| 0 <= i < z ==> !picked@[i],
            decreases n - z,
        {
            picked.push(false);
            z = z + 1;
        }
        let mut out: Vec<&JobInstance> = Vec::new();
        let ghost mut idx: Seq<int> = Seq::empty();
        let mut done = false;
        while !done && out.len() < limit
            invariant
                n == self.jobs@.len(),
                s == self@.0,
                distinct_ids(s),
                picked@.len() == n,
                out@.len() <= limit,
                idx.len() == out@.len(),
                forall|k: int| 0 <= k < idx.len() ==> 0 <= #[trigger] idx[k] < n && picked@[idx[k]]
                    && out@[k]@ == s[idx[k]] && passes_filter(s[idx[k]], fv),
                forall|i: int| 0 <= i < n && #[trigger] picked@[i] ==> exists|k: int| 0 <= k < idx.len() && idx[k] == i,
                forall|k1: int, k2: int| 0 <= k1 < k2 < idx.len() ==> #[trigger] idx[k1] != #[trigger] idx[k2],
                forall|k1: int, k2: int|
                    0 <= k1 < k2 < idx.len() ==> s[#[trigger] idx[k1]].submitted_at >= s[#[trigger] idx[k2]].submitted_at,
                idx.len() > 0 ==> forall|i: int|
                    0 <= i < n && !picked@[i] && passes_filter(#[trigger] s[i], fv) ==> s[i].submitted_at
                        <= s[idx[idx.len() - 1]].submitted_at,
                done ==> forall|i: int| 0 <= i < n && passes_filter(#[trigger] s[i], fv) ==> picked@[i],
                wanted == match fv {
                    Some(f) => filter_status(f),
                    None => None,
                },
            decreases limit - out@.len() + (if done { 0int } else { 1int }),
        {
            let mut best: Option<usize> = None;
            let mut i: usize = 0;
            while i < n
                invariant
                    i <= n,
                    n == self.jobs@.len(),
                    s == self@.0,
                    picked@.len() == n,
                    wanted == match fv {
                        Some(f) => filter_status(f),
                        None => None,
                    },
                    match best {
                        Some(b) => b < i && !picked@[b as int] && passes_filter(s[b as int], fv)
                            && forall|j: int|
                            0 <= j < i && !picked@[j] && passes_filter(#[trigger] s[j], fv) ==> s[j].submitted_at
                                <= s[b as int].submitted_at,
                        None => forall|j: int| 0 <= j < i && !picked@[j] ==> !passes_filter(#[trigger] s[j], fv),
                    },
                decreases n - i,
            {
                let ok = match wanted {
                    Some(st) => self.jobs[i].status == st,
                    None => true,
                };
                proof {
                    assert(s[i as int] == self.jobs@[i as int]@);
                }
                if ok && !picked[i] {
                    match best {
                        Some(b) => {
                            if self.jobs[i].submitted_at > self.jobs[b].submitted_at {
                                best = Some(i);
                            }
                            proof {
                                assert(s[b as int] == self.jobs@[b as int]@);
                            }
                        },
                        None => {
                            best = Some(i);
                        },
                    }
                }
                i = i + 1;
            }
            match best {
                None => {
                    done = true;
                },
                Some(b) => {
                    let ghost old_picked = picked@;
                    let ghost old_idx = idx;
                    picked.set(b, true);
                    out.push(&self.jobs[b]);
                    proof {
                        assert(s[b as int] == self.jobs@[b as int]@);
                        idx = idx.push(b as int);
                        assert forall|i: int| 0 <= i < n && #[trigger] picked@[i] implies exists|k: int|
                            0 <= k < idx.len() && idx[k] == i by {
                            if i == b {
                                assert(idx[idx.len() - 1] == i);
                            } else {
                                assert(old_picked[i]);
                                let k = choose|k: int| 0 <= k < old_idx.len() && old_idx[k] == i;
                                assert(idx[k] == i);
                            }
                        }
                        assert forall|k1: int, k2: int| 0 <= k1 < k2 < idx.len() implies #[trigger] idx[k1]
                            != #[trigger] idx[k2] by {
                            if k2 == idx.len() - 1 {
                                assert(old_picked[old_idx[k1]]);
                            }
                        }
                    }
                },
            }
        }
        proof {
            assert forall|k: int| 0 <= k < out@.len() implies passes_filter(out@[k]@, fv) && s.contains(
                #[trigger] out@[k]@,
            ) by {
                assert(s[idx[k]] == out@[k]@);
            }
            assert forall|k1: int, k2: int| 0 <= k1 < k2 < out@.len() implies (#[trigger] out@[k1])@.id
                != (#[trigger] out@[k2])@.id && out@[k1]@.submitted_at >= out@[k2]@.submitted_at by {
                assert(idx[k1] != idx[k2]);
                assert(s[idx[k1]].submitted_at >= s[idx[k2]].submitted_at);
            }
            assert forall|i: int|
                0 <= i < s.len() && passes_filter(#[trigger] s[i], fv) && (forall|k: int|
                    0 <= k < out@.len() ==> out@[k]@.id != s[i].id) && out@.len() > 0 implies s[i].submitted_at
                <= out@[out@.len() - 1]@.submitted_at by {
                if picked@[i] {
                    let k = choose|k: int| 0 <= k < idx.len() && idx[k] == i;
                    assert(out@[k]@.id == s[i].id);
                }
            }
            if out@.len() < limit {
                assert forall|i: int| 0 <= i < s.len() && passes_filter(#[trigger] s[i], fv) implies exists|k: int|
                    0 <= k < out@.len() && out@[k]@ == s[i] by {
                    assert(picked@[i]);
                    let k = choose|k: int| 0 <= k < idx.len() && idx[k] == i;
                    assert(out@[k]@ == s[i]);
                }
            }
        }
        out
    }
}

/// Whether `cron::Schedule::from_str` accepts `expr`.
pub uninterp spec fn cron_expression_valid(expr: Seq<char>) -> bool;

/// Whether `chrono::DateTime::from_timestamp(secs, 0)` gives a date: the
/// seconds lie between the first second of chrono's earliest date
/// (-262143-01-01) and the last second of its latest (+262142-12-31).
pub open spec fn chrono_timestamp_in_range(secs: i64) -> bool {
    -8334601228800 <= secs && secs <= 8210266876799
}

/// `cron::Schedule::from_str(expr)`, then `upcoming(Utc).next()`: the next
/// time after the present (in Unix seconds) at which the schedule fires, or
/// the parse error's text. Which time comes back depends on the clock, so the
/// contract says only when parsing succeeds.
#[verifier::external_body]
fn cron_next_upcoming(expr: &str) -> (r: Result<Option<i64>, String>)
    ensures
        r is Ok <==> cron_expression_valid(expr@),
{
    match <cron::Schedule as std::str::FromStr>::from_str(expr) {
        Ok(schedule) => Ok(schedule.upcoming(chrono::Utc).next().map(|t| t.timestamp())),
        Err(e) => Err(e.to_string()),
    }
}

/// `chrono::DateTime::from_timestamp(secs, 0)` read back as seconds: the same
/// number when it is in chrono's range (`chrono_timestamp_in_range`; the
/// day `secs` falls on must be a `NaiveDate`, whose years run from
/// -262143 to 262142), otherwise `None`.
#[verifier::external_body]
fn chrono_from_timestamp(secs: i64) -> (r: Option<i64>)
    ensures
        r == (if chrono_timestamp_in_range(secs) { Some(secs) } else { None::<i64> }),
{
    chrono::DateTime::from_timestamp(secs, 0).map(|t| t.timestamp())
}

/// Whether a recurring job whose schedule next fires at `next_run` is due at
/// `now`, given when it last ran (`last_run`): the next firing must be
/// reached and lie after the last run.
pub open spec fn spec_schedule_due(next_run: i64, last_run: Option<i64>, now: i64) -> bool {
    match last_run {
        Some(last) => next_run > last && next_run <= now,
        None => next_run <= now,
    }
}

/// Decide whether a recurring job is due (see `spec_schedule_due`).
pub fn schedule_is_due(next_run: i64, last_run: Option<i64>, now: i64) -> (r: bool)
    ensures
        r == spec_schedule_due(next_run, last_run, now),
{
    match last_run {
        Some(last) => next_run > last && next_run <= now,
        None => next_run <= now,
    }
}

/// When a job last ran, as the scheduler reads it: its recorded time when
/// chrono can represent it, otherwise `now`.
pub open spec fn spec_last_run(last_scheduled_at: Option<u64>, now: i64) -> Option<i64> {
    match last_scheduled_at {
        Some(ts) => if chrono_timestamp_in_range(ts as i64) {
            Some(ts as i64)
        } else {
            Some(now)
        },
        None => None,
    }
}

/// The specs of a list of jobs.
pub open spec fn specs_view(v: Seq<JobSpec>) -> Seq<JobSpecView> {
    v.map_values(|j: JobSpec| j@)
}

/// The specs of the jobs of `s` whose flag in `marked` is set, in order.
pub open spec fn marked_specs(s: Seq<JobView>, marked: Seq<bool>) -> Seq<JobSpecView>
    decreases s.len(),
{
    if s.len() == 0 || marked.len() == 0 {
        Seq::empty()
    } else {
        let rest = marked_specs(s.drop_last(), marked.drop_last());
        if marked.last() {
            rest.push(s.last().spec)
        } else {
            rest
        }
    }
}

/// One job through the scheduler: when marked, it is a recurring job whose
/// schedule parses and it was scheduled at `now`; otherwise it is unchanged.
pub open spec fn marked_ok(o: JobView, n: JobView, marked: bool, now: i64) -> bool {
    if marked {
        &&& o.spec.recurring
        &&& o.spec.schedule matches Some(e)
        &&& cron_expression_valid(e)
        &&& exists|next: i64| #[trigger] spec_schedule_due(next, spec_last_run(o.last_scheduled_at, now), now)
        &&& (o.last_scheduled_at matches Some(t) ==> chrono_timestamp_in_range(t as i64) && (t as i64) < now)
        &&& n == scheduled(o, now)
    } else {
        n == o
    }
}

/// The whole job list through the scheduler, with `marked` saying which jobs
/// were due.
pub open spec fn schedule_outcome(before: Seq<JobView>, after: Seq<JobView>, marked: Seq<bool>, now: i64) -> bool {
    &&& marked.len() == before.len()
    &&& after.len() == before.len()
    &&& forall|k: int| 0 <= k < before.len() ==> #[trigger] marked_ok(before[k], after[k], marked[k], now)
}

impl JobSpec {
    pub fn clone_spec(&self) -> (r: JobSpec)
        ensures
            r@ == self@,
    {
        JobSpec {
            name: self.name.clone(),
            recurring: self.recurring,
            schedule: match &self.schedule {
                Some(s) => Some(s.clone()),
                None => None,
            },
        }
    }
}

/// The job after the scheduler started an instance of it at `now`.
pub open spec fn scheduled(j: JobView, now: i64) -> JobView {
    JobView { last_scheduled_at: Some(now as u64), updated_at: now as u64, ..j }
}

impl JobStore {
    /// For each recurring job with a schedule, ask the schedule for its next
    /// firing and, when it is due at `now` (Unix seconds), mark the job as
    /// scheduled at `now` and hand back its spec for a new instance. Jobs
    /// whose schedule does not parse are skipped. The next firing comes from
    /// the clock, so the contract says which jobs may change and how: the due
    /// ones are exactly those marked, in order, each with a next firing that
    /// is due after its last run (see `marked_ok`), so a job is never fired
    /// twice for the same time.
    pub fn evaluate_schedules(&mut self, now: i64) -> (due: Vec<JobSpec>)
        requires
            old(self).wf(),
        ensures
            final(self).wf(),
            final(self)@.1 == old(self)@.1,
            exists|marked: Seq<bool>|
                {
                    &&& #[trigger] schedule_outcome(old(self)@.0, final(self)@.0, marked, now)
                    &&& specs_view(due@) == marked_specs(old(self)@.0, marked)
                },
    {
        let ghost before = self@.0;
        let ghost mut marked: Seq<bool> = Seq::empty();
        let mut due: Vec<JobSpec> = Vec::new();
        let mut i: usize = 0;
        while i < self.jobs.len()
            invariant
                i <= self.jobs@.len(),
                self@.0.len() == before.len(),
                self@.1 == old(self)@.1,
                distinct_ids(before),
                marked.len() == i,
                forall|k: int| 0 <= k < before.len() ==> (#[trigger] self@.0[k]).id == before[k].id,
                forall|k: int|
                    i <= k < before.len() ==> #[trigger] self@.0[k] == before[k],
                forall|k: int| 0 <= k < i ==> #[trigger] marked_ok(before[k], self@.0[k], marked[k], now),
                specs_view(due@) == marked_specs(before.take(i as int), marked),
            decreases self.jobs.len() - i,
        {
            proof {
                assert(self@.0[i as int] == self.jobs@[i as int]@);
            }
            let mut hit = false;
            if self.jobs[i].spec.recurring {
                let next = match &self.jobs[i].spec.schedule {
                    Some(expr) => match cron_next_upcoming(expr.as_str()) {
                        Ok(n) => n,
                        Err(_) => None,
                    },
                    None => None,
                };
                match next {
                    Some(next_run) => {
                        let last = match self.jobs[i].last_scheduled_at {
                            Some(ts) => match chrono_from_timestamp(ts as i64) {
                                Some(t) => Some(t),
                                None => Some(now),
                            },
                            None => None,
                        };
                        if schedule_is_due(next_run, last, now) {
                            proof {
                                assert(last == spec_last_run(before[i as int].last_scheduled_at, now));
                                assert(spec_schedule_due(next_run, spec_last_run(before[i as int].last_scheduled_at, now), now));
                            }
                            let ghost cur = self@.0;
                            let job = &mut self.jobs[i];
                            job.last_scheduled_at = Some(now as u64);
                            job.updated_at = now as u64;
                            let spec = job.spec.clone_spec();
                            due.push(spec);
                            hit = true;
                            assert(self@.0 =~= cur.update(i as int, scheduled(before[i as int], now)));
                        }
                    },
                    None => {},
                }
            }
            proof {
                let ghost old_marked = marked;
                marked = marked.push(hit);
                assert(before.take(i + 1).drop_last() =~= before.take(i as int));
                assert(marked.drop_last() =~= old_marked);
                assert(marked_ok(before[i as int], self@.0[i as int], marked[i as int], now));
                assert(specs_view(due@) =~= marked_specs(before.take(i + 1), marked));
            }
            i = i + 1;
        }
        proof {
            assert(before.take(before.len() as int) =~= before);
            assert(schedule_outcome(before, self@.0, marked, now));
            assert forall|a: int, b: int| 0 <= a < b < self@.0.len() implies self@.0[a].id
                != self@.0[b].id by {
                assert(self@.0[a].id == before[a].id);
                assert(self@.0[b].id == before[b].id);
            }
        }
        due
    }

    /// Record the digest of artifact `name` of job `id` at `now` (the first
    /// artifact of that name); no effect when there is no such job or
    /// artifact.
    pub fn set_artifact_digest(&mut self, id: &str, name: &str, digest: String, now: u64)
        requires
            old(self).wf(),
        ensures
            final(self).wf(),
            final(self)@.1 == old(self)@.1,
            final(self)@.0.len() == old(self)@.0.len(),
            forall|i: int|
                0 <= i < old(self)@.0.len() && old(self)@.0[i].id != id@ ==> #[trigger] final(self)@.0[i]
                    == old(self)@.0[i],
            forall|i: int|
                0 <= i < old(self)@.0.len() && old(self)@.0[i].id == id@ ==> digest_recorded(
                    old(self)@.0[i],
                    #[trigger] final(self)@.0[i],
                    name@,
                    digest@,
                    now,
                ),
    {
        let ghost before = self@.0;
        let ghost dv = digest@;
        match self.find(id) {
            Some(i) => {
                proof {
                    assert(before[i as int] == self.jobs@[i as int]@);
                }
                let mut k: usize = 0;
                let mut hit = false;
                let n = self.jobs[i].artifacts.len();
                while k < n && !hit
                    invariant
                        i < self.jobs@.len(),
                        self@.0 == before,
                        n == self.jobs@[i as int].artifacts@.len(),
                        k <= n,
                        hit ==> k < n && self.jobs@[i as int].artifacts@[k as int].name@ == name@,
                        forall|m: int| 0 <= m < k ==> self.jobs@[i as int].artifacts@[m].name@ != name@,
                    decreases n - k + (if hit { 0int } else { 1int }),
                {
                    if str_eq(self.jobs[i].artifacts[k].name.as_str(), name) {
                        hit = true;
                    } else {
                        k = k + 1;
                    }
                }
                let found: Option<usize> = if hit { Some(k) } else { None };
                proof {
                    assert forall|m: int| 0 <= m < k implies before[i as int].artifacts[m].name != name@ by {
                        assert(before[i as int].artifacts[m] == self.jobs@[i as int].artifacts@[m]@);
                    }
                    if hit {
                        assert(before[i as int].artifacts[k as int] == self.jobs@[i as int].artifacts@[k as int]@);
                    }
                }
                match found {
                    Some(k) => {
                        let ghost o = before[i as int];
                        let ghost nv = JobView {
                            artifacts: o.artifacts.update(
                                k as int,
                                JobArtifactView { sha256_hex: Some(dv), ..o.artifacts[k as int] },
                            ),
                            updated_at: now,
                            ..o
                        };
                        proof {
                            self.lemma_update_keeps_wf(i as int, nv);
                            assert(o.artifacts[k as int] == self.jobs@[i as int].artifacts@[k as int]@);
                        }
                        let job = &mut self.jobs[i];
                        job.artifacts[k].sha256_hex = Some(digest);
                        job.updated_at = now;
                        assert(self@.0[i as int].artifacts =~= nv.artifacts);
                        assert(self@.0 =~= before.update(i as int, nv));
                        assert forall|j: int| 0 <= j < before.len() && before[j].id == id@ implies j == i by {
                            if j != i {
                                assert(before[j].id != before[i as int].id);
                            }
                        }
                        assert(forall|m: int| 0 <= m < k ==> o.artifacts[m].name != name@);
                        assert(o.artifacts[k as int].name == name@);
                        assert(digest_recorded(o, self@.0[i as int], name@, dv, now));
                        assert forall|j: int| 0 <= j < before.len() && before[j].id == id@ implies digest_recorded(
                            before[j],
                            self@.0[j],
                            name@,
                            dv,
                            now,
                        ) by {
                            if j != i {
                                assert(before[j].id != before[i as int].id);
                            }
                        }
                        assert(exists|kk: int|
                            0 <= kk < o.artifacts.len() && #[trigger] o.artifacts[kk].name == name@ && (forall|m: int|
                                0 <= m < kk ==> o.artifacts[m].name != name@) && self@.0[i as int] == (JobView {
                                artifacts: o.artifacts.update(
                                    kk,
                                    JobArtifactView { sha256_hex: Some(dv), ..o.artifacts[kk] },
                                ),
                                updated_at: now,
                                ..o
                            }));
                    },
                    None => {
                        assert forall|j: int| 0 <= j < before.len() && before[j].id == id@ implies j == i by {
                            if j != i {
                                assert(before[j].id != before[i as int].id);
                            }
                        }
                        assert(forall|m: int|
                            0 <= m < before[i as int].artifacts.len() ==> before[i as int].artifacts[m].name
                                != name@);
                        assert(digest_recorded(before[i as int], self@.0[i as int], name@, dv, now));
                        assert forall|j: int| 0 <= j < before.len() && before[j].id == id@ implies digest_recorded(
                            before[j],
                            self@.0[j],
                            name@,
                            dv,
                            now,
                        ) by {
                            if j != i {
                                assert(before[j].id != before[i as int].id);
                            }
                        }
                    },
                }
            },
            None => {
                assert forall|j: int| 0 <= j < before.len() && before[j].id == id@ implies digest_recorded(
                    before[j],
                    self@.0[j],
                    name@,
                    dv,
                    now,
                ) by {
                    assert(job_pos(before, id@, j));
                }
            },
        }
    }

    /// Merge a batch of job states learnt from other peers, one after another.
    pub fn sync_jobs(&mut self, jobs: Vec<JobInstance>)
        requires
            old(self).wf(),
        ensures
            final(self).wf(),
            final(self)@.1 == old(self)@.1,
            final(self)@.0 == sync_all(old(self)@.0, jobs_view(jobs@)),
    {
        let mut jobs = jobs;
        let ghost incoming = jobs_view(jobs@);
        let ghost start = self@.0;
        assert(incoming.subrange(0, incoming.len() as int) =~= incoming);
        while jobs.len() > 0
            invariant
                self.wf(),
                self@.1 == old(self)@.1,
                jobs@.len() <= incoming.len(),
                jobs_view(jobs@) == incoming.subrange(incoming.len() - jobs@.len(), incoming.len() as int),
                sync_all(start, incoming) == sync_all(self@.0, jobs_view(jobs@)),
            decreases jobs.len(),
        {
            let ghost remaining = jobs_view(jobs@);
            let job = jobs.remove(0);
            proof {
                assert(job@ == remaining[0]);
                assert(jobs_view(jobs@) =~= remaining.drop_first());
            }
            self.sync_job(job);
        }
    }
}

/// The job `n` is `o` after the digest of its first artifact called `name`
/// was set to `digest` at `now`, or `o` itself when it has no such artifact.
pub open spec fn digest_recorded(o: JobView, n: JobView, name: Seq<char>, digest: Seq<char>, now: u64) -> bool {
    ||| (forall|k: int| 0 <= k < o.artifacts.len() ==> o.artifacts[k].name != name) && n == o
    ||| exists|k: int|
        0 <= k < o.artifacts.len() && #[trigger] o.artifacts[k].name == name && (forall|m: int|
            0 <= m < k ==> o.artifacts[m].name != name) && n == (JobView {
            artifacts: o.artifacts.update(
                k,
                JobArtifactView { sha256_hex: Some(digest), ..o.artifacts[k] },
            ),
            updated_at: now,
            ..o
        })
}

/// The effect of merging one job state (see `JobStore::sync_job`).
pub open spec fn sync_one(s: Seq<JobView>, j: JobView) -> Seq<JobView> {
    match self_find(s, j.id) {
        Some(i) => if j.updated_at > s[i].updated_at {
            s.update(i, j)
        } else {
            s
        },
        None => s.push(j),
    }
}

/// The effect of merging job states in order.
pub open spec fn sync_all(s: Seq<JobView>, js: Seq<JobView>) -> Seq<JobView>
    decreases js.len(),
{
    if js.len() == 0 {
        s
    } else {
        sync_all(sync_one(s, js[0]), js.drop_first())
    }
}

/// Where artifact `name` of job `id` is staged: under the agent data
/// directory, in `artifacts/jobs/<id>/<name>`.
pub fn get_artifact_path(data_dir: &str, job_id: &str, artifact_name: &str) -> (r: String)
    ensures
        r@ == data_dir@ + "/artifacts/jobs/"@ + job_id@ + "/"@ + artifact_name@,
{
    String::from_str(data_dir).concat("/artifacts/jobs/").concat(job_id).concat("/").concat(
        artifact_name,
    )
}


/// How a job ended on this node, as it is broadcast.
pub enum JobEnd {
    Completed { exit_code: i32 },
    Failed { error: String },
}

impl JobStore {
    /// Record the end of job `id` from the outcome of its run at `now`: a
    /// success completes it with exit code 0, a failure fails it with the
    /// message; the result says what to broadcast.
    pub fn finish_job(&mut self, id: &str, outcome: Result<String, String>, now: u64) -> (r: JobEnd)
        requires
            old(self).wf(),
        ensures
            final(self).wf(),
            final(self)@.1 == old(self)@.1,
            match outcome {
                Ok(_) => r matches JobEnd::Completed { exit_code } && exit_code == 0 && match self_find(
                    old(self)@.0,
                    id@,
                ) {
                    Some(i) => final(self)@.0 == replace_at(old(self)@.0, i, completed(old(self)@.0[i], 0, now)),
                    None => final(self)@.0 == old(self)@.0,
                },
                Err(e) => r matches JobEnd::Failed { error } && error@ == e@ && match self_find(old(self)@.0, id@) {
                    Some(i) => final(self)@.0 == replace_at(old(self)@.0, i, failed(old(self)@.0[i], e@, now)),
                    None => final(self)@.0 == old(self)@.0,
                },
            },
    {
        match outcome {
            Ok(_) => {
                self.complete_job(id, 0, now);
                JobEnd::Completed { exit_code: 0 }
            },
            Err(e) => {
                let copy = e.clone();
                self.fail_job(id, e, now);
                JobEnd::Failed { error: copy }
            },
        }
    }
}

/// The name of `mime_guess::from_path(path).first_or_octet_stream()` as
/// text: the MIME type the path's extension suggests.
pub uninterp spec fn mime_of_path(path: Seq<char>) -> Seq<char>;

/// `mime_guess::from_path(path).first_or_octet_stream()`, written out: the
/// guess from the extension, `application/octet-stream` when there is none.
/// It reads the path alone, never the disk; a path without any `.` has no
/// extension.
#[verifier::external_body]
fn guess_content_type(path: &str) -> (r: String)
    ensures
        r@ == mime_of_path(path@),
        !path@.contains('.') ==> r@ == "application/octet-stream"@,
{
    mime_guess::from_path(path).first_or_octet_stream().to_string()
}

/// How a job artifact is sent for download: the staged file, its content
/// type and the attachment header.
pub struct ArtifactDownload {
    pub path: String,
    pub content_type: String,
    pub disposition: String,
}

/// Does job `j` list an artifact called `name`?
pub open spec fn lists_artifact(j: JobView, name: Seq<char>) -> bool {
    exists|k: int| 0 <= k < j.artifacts.len() && #[trigger] j.artifacts[k].name == name
}

impl JobStore {
    /// The download of artifact `name` of job `job_id`, staged under the
    /// agent data directory `data_dir`: refused with 404 when there is no
    /// such job or it lists no such artifact.
    pub fn artifact_download(&self, data_dir: &str, job_id: &str, name: &str) -> (r: Result<
        ArtifactDownload,
        (u16, String),
    >)
        requires
            self.wf(),
        ensures
            match self_find(self@.0, job_id@) {
                None => r matches Err((code, msg)) && code == 404 && msg@ == "Job '"@ + job_id@
                    + "' not found"@,
                Some(i) => if lists_artifact(self@.0[i], name@) {
                    r matches Ok(d) && d.path@ == data_dir@ + "/artifacts/jobs/"@ + job_id@ + "/"@ + name@
                        && d.content_type@ == mime_of_path(d.path@) && d.disposition@
                        == "attachment; filename=\""@ + name@ + "\""@
                } else {
                    r matches Err((code, msg)) && code == 404 && msg@ == "artifact not found in job metadata"@
                },
            },
    {
        match self.get_job(job_id) {
            None => Err((404, String::from_str("Job '").concat(job_id).concat("' not found"))),
            Some(job) => {
                let ghost jv = job@;
                let mut found = false;
                let mut k: usize = 0;
                while k < job.artifacts.len()
                    invariant
                        jv == job@,
                        k <= job.artifacts@.len(),
                        found == exists|m: int| 0 <= m < k && #[trigger] jv.artifacts[m].name == name@,
                    decreases job.artifacts.len() - k,
                {
                    proof {
                        assert(jv.artifacts[k as int] == job.artifacts@[k as int]@);
                    }
                    let hit = str_eq(job.artifacts[k].name.as_str(), name);
                    proof {
                        if hit {
                            assert(jv.artifacts[k as int].name == name@);
                        }
                        if !found && !hit {
                            assert forall|m: int| 0 <= m < k + 1 implies #[trigger] jv.artifacts[m].name != name@ by {
                                if m < k {
                                    assert(!(0 <= m < k && jv.artifacts[m].name == name@));
                                }
                            }
                        }
                    }
                    found = found || hit;
                    k = k + 1;
                }
                if found {
                    let path = get_artifact_path(data_dir, job_id, name);
                    let content_type = guess_content_type(path.as_str());
                    let disposition = String::from_str("attachment; filename=\"").concat(name).concat("\"");
                    Ok(ArtifactDownload { path, content_type, disposition })
                } else {
                    Err((404, String::from_str("artifact not found in job metadata")))
                }
            },
        }
    }
}

/// The answer to a request for a job the book does not know.
pub fn job_not_found(job_id: &str) -> (r: (u16, String))
    ensures
        r.0 == 404,
        r.1@ == "Job '"@ + job_id@ + "' not found"@,
{
    (404, String::from_str("Job '").concat(job_id).concat("' not found"))
}

/// The answer to a cancel request from the web API: cancelled (with the
/// system log line), not cancellable any more, or the failure.
pub fn cancel_reply(job_id: &str, outcome: Result<bool, String>) -> (r: (u16, String, Option<String>))
    ensures
        match outcome {
            Ok(true) => r.0 == 200 && r.1@ == "Job '"@ + job_id@ + "' cancelled successfully"@ && (r.2 matches Some(
                l,
            ) && l@ == "Job '"@ + job_id@ + "' cancelled via web interface"@),
            Ok(false) => r.0 == 400 && r.1@ == "Job '"@ + job_id@ + "' cannot be cancelled (already completed)"@
                && r.2 is None,
            Err(e) => r.0 == 500 && r.1@ == "Failed to cancel job: "@ + e@ && r.2 is None,
        },
{
    match outcome {
        Ok(true) => (
            200,
            String::from_str("Job '").concat(job_id).concat("' cancelled successfully"),
            Some(String::from_str("Job '").concat(job_id).concat("' cancelled via web interface")),
        ),
        Ok(false) => (
            400,
            String::from_str("Job '").concat(job_id).concat("' cannot be cancelled (already completed)"),
            None,
        ),
        Err(e) => (500, String::from_str("Failed to cancel job: ").concat(e.as_str()), None),
    }
}

} // verus!
