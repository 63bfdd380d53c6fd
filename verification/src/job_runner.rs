//! Background jobs: the job table and what a job reports when it ends.
//! Timing (the delay, the wall-clock timestamps) is the server's part.
use vstd::prelude::*;
use crate::text::{chars_of, str_eq};

verus! {

/// A background job. Its start and end times, being floating-point
/// seconds, are kept beside it by the server.
#[derive(Debug)]
pub struct Job {
    pub job_id: String,
    pub job_type: String,
    pub status: String,
    pub result: Option<String>,
    pub error: Option<String>,
}

fn clone_opt(o: &Option<String>) -> (r: Option<String>)
    ensures
        r == *o,
{
    match o {
        Some(s) => Some(s.clone()),
        None => None,
    }
}

impl Job {
    pub fn copy(&self) -> (r: Job)
        ensures
            r == *self,
    {
        Job {
            job_id: self.job_id.clone(),
            job_type: self.job_type.clone(),
            status: self.status.clone(),
            result: clone_opt(&self.result),
            error: clone_opt(&self.error),
        }
    }
}

/// A job id: the first eight characters of a UUID's text.
pub fn job_id_from_uuid(uuid: &str) -> (r: String)
    requires
        vstd::utf8::is_ascii_chars(uuid@),
        uuid@.len() >= 8,
    ensures
        r@ == uuid@.take(8),
{
    let v = chars_of(uuid);
    let head = crate::text::slice_chars(&v, 0, 8);
    crate::text::string_from_chars(&head)
}

/// What a finished job of type `job_type` reports.
pub open spec fn spec_job_result(job_type: Seq<char>) -> Seq<char> {
    if job_type == "test"@ {
        "test completed"@
    } else {
        "unknown type: "@ + job_type
    }
}

pub fn job_result(job_type: &str) -> (r: String)
    ensures
        r@ == spec_job_result(job_type@),
{
    if str_eq(job_type, "test") {
        String::from_str("test completed")
    } else {
        let mut r = String::from_str("unknown type: ");
        r.append(job_type);
        r
    }
}

spec fn has_id(v: Seq<Job>, k: Seq<char>) -> bool {
    exists|i: int| 0 <= i < v.len() && v[i].job_id@ == k
}

spec fn jobs_map(v: Seq<Job>) -> Map<Seq<char>, Job> {
    Map::new(
        |k: Seq<char>| has_id(v, k),
        |k: Seq<char>| v[choose|i: int| 0 <= i < v.len() && v[i].job_id@ == k],
    )
}

spec fn distinct_ids(v: Seq<Job>) -> bool {
    forall|i: int, j: int| 0 <= i < j < v.len() ==> v[i].job_id@ != v[j].job_id@
}

proof fn lemma_job_at(v: Seq<Job>, i: int)
    requires
        distinct_ids(v),
        0 <= i < v.len(),
    ensures
        jobs_map(v).contains_key(v[i].job_id@),
        jobs_map(v)[v[i].job_id@] == v[i],
{
    let k = v[i].job_id@;
    assert(has_id(v, k));
    let j = choose|j: int| 0 <= j < v.len() && v[j].job_id@ == k;
    if j < i {
        assert(v[j].job_id@ != v[i].job_id@);
    } else if j > i {
        assert(v[i].job_id@ != v[j].job_id@);
    }
}

proof fn lemma_jobs_update(v: Seq<Job>, p: int, e: Job)
    requires
        distinct_ids(v),
        0 <= p < v.len(),
        v[p].job_id@ == e.job_id@,
    ensures
        distinct_ids(v.update(p, e)),
        jobs_map(v.update(p, e)) == jobs_map(v).insert(e.job_id@, e),
{
    let w = v.update(p, e);
    assert(distinct_ids(w)) by {
        assert forall|i: int, j: int| 0 <= i < j < w.len() implies w[i].job_id@ != w[j].job_id@ by {
            assert(v[i].job_id@ != v[j].job_id@);
        }
    }
    let m = jobs_map(v).insert(e.job_id@, e);
    assert forall|k: Seq<char>| #[trigger] jobs_map(w).contains_key(k) <==> m.contains_key(k) by {
        if jobs_map(w).contains_key(k) {
            let i = choose|i: int| 0 <= i < w.len() && w[i].job_id@ == k;
            if i != p {
                assert(has_id(v, k));
            }
        }
        if m.contains_key(k) && k != e.job_id@ {
            let i = choose|i: int| 0 <= i < v.len() && v[i].job_id@ == k;
            assert(w[i].job_id@ == k);
        }
        if k == e.job_id@ {
            assert(w[p].job_id@ == k);
        }
    }
    assert forall|k: Seq<char>| #[trigger] jobs_map(w).contains_key(k) implies jobs_map(w)[k]
        == m[k] by {
        let i = choose|i: int| 0 <= i < w.len() && w[i].job_id@ == k;
        lemma_job_at(w, i);
        if i != p {
            lemma_job_at(v, i);
        }
    }
    assert(jobs_map(w) =~= m);
}

proof fn lemma_jobs_push(v: Seq<Job>, e: Job)
    requires
        distinct_ids(v),
        !has_id(v, e.job_id@),
    ensures
        distinct_ids(v.push(e)),
        jobs_map(v.push(e)) == jobs_map(v).insert(e.job_id@, e),
{
    let w = v.push(e);
    let p = v.len() as int;
    assert(distinct_ids(w)) by {
        assert forall|i: int, j: int| 0 <= i < j < w.len() implies w[i].job_id@ != w[j].job_id@ by {
            if j == p {
                assert(v[i].job_id@ != e.job_id@);
            } else {
                assert(v[i].job_id@ != v[j].job_id@);
            }
        }
    }
    let m = jobs_map(v).insert(e.job_id@, e);
    assert forall|k: Seq<char>| #[trigger] jobs_map(w).contains_key(k) <==> m.contains_key(k) by {
        if jobs_map(w).contains_key(k) {
            let i = choose|i: int| 0 <= i < w.len() && w[i].job_id@ == k;
            if i != p {
                assert(has_id(v, k));
            }
        }
        if m.contains_key(k) && k != e.job_id@ {
            let i = choose|i: int| 0 <= i < v.len() && v[i].job_id@ == k;
            assert(w[i].job_id@ == k);
        }
        if k == e.job_id@ {
            assert(w[p].job_id@ == k);
        }
    }
    assert forall|k: Seq<char>| #[trigger] jobs_map(w).contains_key(k) implies jobs_map(w)[k]
        == m[k] by {
        let i = choose|i: int| 0 <= i < w.len() && w[i].job_id@ == k;
        lemma_job_at(w, i);
        if i != p {
            lemma_job_at(v, i);
        }
    }
    assert(jobs_map(w) =~= m);
}

/// The job table.
pub struct JobState {
    jobs: Vec<Job>,
}

impl View for JobState {
    type V = Map<Seq<char>, Job>;

    closed spec fn view(&self) -> Map<Seq<char>, Job> {
        jobs_map(self.jobs@)
    }
}

/// `j` is a job just started: running, no result or error yet.
pub open spec fn is_started(j: Job, id: Seq<char>, job_type: Seq<char>) -> bool {
    &&& j.job_id@ == id
    &&& j.job_type@ == job_type
    &&& j.status@ == "running"@
    &&& j.result is None
    &&& j.error is None
}

/// `j` is `before` finished: completed, with the result its type reports.
pub open spec fn is_finished(j: Job, before: Job) -> bool {
    &&& j.job_id == before.job_id
    &&& j.job_type == before.job_type
    &&& j.error == before.error
    &&& j.status@ == "completed"@
    &&& j.result matches Some(r) && r@ == spec_job_result(before.job_type@)
}

/// A job that is started and then completed is completed, with the result
/// its type reports, and keeps its id and type.
pub proof fn law_job_lifecycle(started: Job, finished: Job, id: Seq<char>, job_type: Seq<char>)
    requires
        is_started(started, id, job_type),
        is_finished(finished, started),
    ensures
        finished.job_id@ == id,
        finished.job_type@ == job_type,
        finished.status@ == "completed"@,
        finished.result matches Some(r) && r@ == spec_job_result(job_type),
        finished.error is None,
{
}

impl JobState {
    #[verifier::type_invariant]
    closed spec fn inv(self) -> bool {
        distinct_ids(self.jobs@)
    }

    pub fn new() -> (r: JobState)
        ensures
            r@ == Map::<Seq<char>, Job>::empty(),
    {
        let r = JobState { jobs: Vec::new() };
        assert(jobs_map(r.jobs@) =~= Map::empty());
        r
    }

    fn find(&self, id: &str) -> (r: Option<usize>)
        ensures
            match r {
                Some(i) => i < self.jobs@.len() && self.jobs@[i as int].job_id@ == id@,
                None => !has_id(self.jobs@, id@),
            },
    {
        let mut i: usize = 0;
        while i < self.jobs.len()
            invariant
                i <= self.jobs@.len(),
                forall|j: int| 0 <= j < i ==> self.jobs@[j].job_id@ != id@,
            decreases self.jobs@.len() - i,
        {
            if str_eq(self.jobs[i].job_id.as_str(), id) {
                return Some(i);
            }
            i = i + 1;
        }
        None
    }

    fn put(&mut self, j: Job)
        ensures
            final(self)@ == old(self)@.insert(j.job_id@, j),
    {
        proof {
            use_type_invariant(&*self);
        }
        let ghost v = self.jobs@;
        let ghost jv = j;
        let found = self.find(j.job_id.as_str());
        let mut js: Vec<Job> = Vec::new();
        std::mem::swap(&mut js, &mut self.jobs);
        match found {
            Some(p) => {
                js.set(p, j);
                proof {
                    lemma_jobs_update(v, p as int, jv);
                }
            },
            None => {
                js.push(j);
                proof {
                    lemma_jobs_push(v, jv);
                }
            },
        }
        self.jobs = js;
    }

    /// Starts a job of `job_type` under `job_id`: it is recorded as running
    /// and a copy is returned.
    pub fn start_job(&mut self, job_id: String, job_type: &str) -> (r: Job)
        ensures
            is_started(r, job_id@, job_type@),
            final(self)@ == old(self)@.insert(job_id@, r),
    {
        let j = Job {
            job_id,
            job_type: String::from_str(job_type),
            status: String::from_str("running"),
            result: None,
            error: None,
        };
        let r = j.copy();
        self.put(j);
        r
    }

    /// Finishes job `job_id` where it is in the table.
    pub fn complete_job(&mut self, job_id: &str)
        ensures
            old(self)@.contains_key(job_id@) ==> final(self)@.contains_key(job_id@) && is_finished(
                final(self)@[job_id@],
                old(self)@[job_id@],
            ) && final(self)@ == old(self)@.insert(job_id@, final(self)@[job_id@]),
            !old(self)@.contains_key(job_id@) ==> final(self)@ == old(self)@,
    {
        proof {
            use_type_invariant(&*self);
        }
        match self.find(job_id) {
            Some(i) => {
                proof {
                    lemma_job_at(self.jobs@, i as int);
                }
                let old_job = self.jobs[i].copy();
                let j = Job {
                    job_id: old_job.job_id,
                    job_type: old_job.job_type.clone(),
                    status: String::from_str("completed"),
                    result: Some(job_result(old_job.job_type.as_str())),
                    error: old_job.error,
                };
                self.put(j);
            },
            None => {},
        }
    }

    /// Job `job_id`, where there is one.
    pub fn get_job(&self, job_id: &str) -> (r: Option<Job>)
        ensures
            r == (if self@.contains_key(job_id@) {
                Some(self@[job_id@])
            } else {
                None
            }),
    {
        proof {
            use_type_invariant(&*self);
        }
        match self.find(job_id) {
            Some(i) => {
                proof {
                    lemma_job_at(self.jobs@, i as int);
                }
                Some(self.jobs[i].copy())
            },
            None => None,
        }
    }

    /// All jobs, each once.
    pub fn list_jobs(&self) -> (r: Vec<Job>)
        ensures
            r@.len() == self@.len(),
            forall|i: int| 0 <= i < r@.len() ==> self@.contains_key(#[trigger] r@[i].job_id@)
                && self@[r@[i].job_id@] == r@[i],
            forall|k: Seq<char>| #[trigger] self@.contains_key(k) ==> exists|i: int|
                0 <= i < r@.len() && r@[i].job_id@ == k,
    {
        proof {
            use_type_invariant(&*self);
        }
        let mut r: Vec<Job> = Vec::new();
        let mut i: usize = 0;
        while i < self.jobs.len()
            invariant
                i <= self.jobs@.len(),
                distinct_ids(self.jobs@),
                r@ == self.jobs@.take(i as int),
            decreases self.jobs@.len() - i,
        {
            r.push(self.jobs[i].copy());
            assert(r@ =~= self.jobs@.take(i + 1));
            i = i + 1;
        }
        assert(r@ =~= self.jobs@);
        proof {
            let v = self.jobs@;
            assert forall|k: int| 0 <= k < r@.len() implies self@.contains_key(#[trigger] r@[k].job_id@)
                && self@[r@[k].job_id@] == r@[k] by {
                lemma_job_at(v, k);
            }
            assert forall|k: Seq<char>| #[trigger] self@.contains_key(k) implies exists|i: int|
                0 <= i < r@.len() && r@[i].job_id@ == k by {
                let i = choose|i: int| 0 <= i < v.len() && v[i].job_id@ == k;
                assert(r@[i].job_id@ == k);
            }
            // the ids of v are distinct, so v has as many entries as keys
            lemma_distinct_len(v);
        }
        r
    }
}

proof fn lemma_distinct_len(v: Seq<Job>)
    requires
        distinct_ids(v),
    ensures
        jobs_map(v).len() == v.len(),
        jobs_map(v).dom().finite(),
    decreases v.len(),
{
    if v.len() == 0 {
        assert(jobs_map(v).dom() =~= Set::<Seq<char>>::empty());
    } else {
        let w = v.drop_last();
        let e = v.last();
        assert(distinct_ids(w));
        lemma_distinct_len(w);
        assert(!has_id(w, e.job_id@)) by {
            if has_id(w, e.job_id@) {
                let i = choose|i: int| 0 <= i < w.len() && w[i].job_id@ == e.job_id@;
                assert(v[i].job_id@ != v[v.len() - 1].job_id@);
            }
        }
        lemma_jobs_push(w, e);
        assert(w.push(e) =~= v);
        assert(jobs_map(v).dom() =~= jobs_map(w).dom().insert(e.job_id@));
    }
}

} // verus!
