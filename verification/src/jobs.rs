use vstd::prelude::*;
use crate::admission::{admission_decision, validate};
use crate::error::{ErrorKind, Reject};
use crate::ids::Ids;
use crate::model::{Catalog, Job, JobOutcome, JobsFilter, JobsFilterV, JobState, JobV, UserV};
use crate::store::{
    consistent, has_job, has_user_name, job_with_id, user_with_name, Store,
};
use crate::timestamp::{is_valid_timestamp, lex_le, str_eq, str_le, valid_timestamp};

verus! {

/// The job lifecycle manager: creation, lookup, filtered listing, reset.
/// A job moves `Queued -> Running -> Finished`; a rejudge forces it back to
/// `Queued` and discards its result.

/// Whether a job passes every given filter predicate (they are conjunctive).
/// A `user_name` filter resolves through the user table: if nobody carries
/// the name, nothing matches.
pub open spec fn matches_filter(j: JobV, f: JobsFilterV, users: Seq<UserV>) -> bool {
    &&& match f.user_id {
        Some(u) => j.user_id == u,
        None => true,
    }
    &&& match f.user_name {
        Some(n) => has_user_name(users, n) && j.user_id == user_with_name(users, n).id,
        None => true,
    }
    &&& match f.contest_id {
        Some(c) => j.contest_id == c,
        None => true,
    }
    &&& match f.problem_id {
        Some(p) => j.problem_id == p,
        None => true,
    }
    &&& match f.language {
        Some(l) => j.language == l,
        None => true,
    }
    &&& match f.from {
        Some(t) => lex_le(t, j.submission_time),
        None => true,
    }
    &&& match f.to {
        Some(t) => lex_le(j.submission_time, t),
        None => true,
    }
    &&& match f.state {
        Some(s) => j.state == s,
        None => true,
    }
    &&& match f.result {
        Some(v) => match j.result {
            Some(o) => o.verdict == v,
            None => false,
        },
        None => true,
    }
}

/// The subsequence of jobs passing the filter, in stored (id) order.
pub open spec fn filter_jobs(jobs: Seq<JobV>, f: JobsFilterV, users: Seq<UserV>) -> Seq<JobV>
    decreases jobs.len(),
{
    if jobs.len() == 0 {
        Seq::empty()
    } else {
        let rest = filter_jobs(jobs.drop_last(), f, users);
        if matches_filter(jobs.last(), f, users) {
            rest.push(jobs.last())
        } else {
            rest
        }
    }
}

/// LAW: filtering keeps the stored order. On a job table strictly ascending
/// by id, the filtered listing is strictly ascending by id as well, and every
/// listed job is one of the stored jobs.
pub proof fn lemma_filter_jobs_ascending(jobs: Seq<JobV>, f: JobsFilterV, users: Seq<UserV>)
    requires
        forall|i: int, j: int| #![trigger jobs[i], jobs[j]]
            0 <= i < j < jobs.len() ==> jobs[i].id < jobs[j].id,
    ensures
        ({
            let r = filter_jobs(jobs, f, users);
            &&& forall|i: int, j: int| #![trigger r[i], r[j]]
                0 <= i < j < r.len() ==> r[i].id < r[j].id
            &&& forall|i: int| #![trigger r[i]]
                0 <= i < r.len() ==> exists|k: int|
                    0 <= k < jobs.len() && r[i] == #[trigger] jobs[k]
        }),
    decreases jobs.len(),
{
    if jobs.len() > 0 {
        let head = jobs.drop_last();
        assert(forall|k: int| 0 <= k < head.len() ==> head[k] == jobs[k]);
        lemma_filter_jobs_ascending(head, f, users);
        let rest = filter_jobs(head, f, users);
        let r = filter_jobs(jobs, f, users);
        if matches_filter(jobs.last(), f, users) {
            assert(r == rest.push(jobs.last()));
            assert forall|i: int, j: int| #![trigger r[i], r[j]]
                0 <= i < j < r.len() implies r[i].id < r[j].id by {
                if j < r.len() - 1 {
                    assert(r[i] == rest[i] && r[j] == rest[j]);
                } else {
                    assert(r[i] == rest[i] && r[j] == jobs.last());
                    let k = choose|k: int| 0 <= k < head.len() && rest[i] == #[trigger] head[k];
                    assert(jobs[k].id < jobs[jobs.len() - 1].id);
                }
            }
            assert forall|i: int| #![trigger r[i]]
                0 <= i < r.len() implies exists|k: int|
                0 <= k < jobs.len() && r[i] == #[trigger] jobs[k] by {
                if i < r.len() - 1 {
                    let k = choose|k: int| 0 <= k < head.len() && rest[i] == #[trigger] head[k];
                    assert(r[i] == jobs[k]);
                } else {
                    assert(r[i] == jobs[jobs.len() - 1]);
                }
            }
        } else {
            assert forall|i: int| #![trigger r[i]]
                0 <= i < r.len() implies exists|k: int|
                0 <= k < jobs.len() && r[i] == #[trigger] jobs[k] by {
                let k = choose|k: int| 0 <= k < head.len() && rest[i] == #[trigger] head[k];
                assert(r[i] == jobs[k]);
            }
        }
    }
}

/// A filter whose `user_name` names nobody matches nothing.
pub proof fn lemma_filter_unknown_name(jobs: Seq<JobV>, f: JobsFilterV, users: Seq<UserV>)
    requires
        f.user_name is Some,
        !has_user_name(users, f.user_name->0),
    ensures
        filter_jobs(jobs, f, users) == Seq::<JobV>::empty(),
    decreases jobs.len(),
{
    if jobs.len() > 0 {
        lemma_filter_unknown_name(jobs.drop_last(), f, users);
    }
}

/// Whether the bounds of a filter are valid timestamps (absent bounds are).
pub open spec fn bounds_valid(f: JobsFilterV) -> bool {
    &&& match f.from {
        Some(t) => valid_timestamp(t),
        None => true,
    }
    &&& match f.to {
        Some(t) => valid_timestamp(t),
        None => true,
    }
}

/// A job as it is reset by a rejudge: back to `Queued`, result discarded.
pub open spec fn reset_of(j: JobV) -> JobV {
    JobV { state: JobState::Queued, result: None, ..j }
}

/// Persist an admitted submission: allocate the job id, record the job with
/// the given submission time, take it to `Running` and return the snapshot
/// handed back to the caller; dispatching the work is the boundary's task.
pub fn submit(store: &mut Store, ids: &mut Ids, req: crate::model::PostJob, now: String) -> (job:
    Job)
    requires
        old(store).wf(),
        consistent(old(store)@, *old(ids)),
        old(ids).jobsid < u32::MAX,
    ensures
        final(store).wf(),
        consistent(final(store)@, *final(ids)),
        final(ids).jobsid == old(ids).jobsid + 1,
        final(ids).usersid == old(ids).usersid,
        final(ids).contestsid == old(ids).contestsid,
        final(store)@.users == old(store)@.users,
        final(store)@.contests == old(store)@.contests,
        job@.id == old(ids).jobsid,
        job@.user_id == req@.user_id,
        job@.contest_id == req@.contest_id,
        job@.problem_id == req@.problem_id,
        job@.language == req@.language,
        job@.source_code == req@.source_code,
        job@.submission_time == now@,
        job@.state == JobState::Running,
        job@.result is None,
        final(store)@.jobs == old(store)@.jobs.push(job@),
{
    let id = ids.next_job_id();
    let mut job = Job {
        id,
        user_id: req.user_id,
        contest_id: req.contest_id,
        problem_id: req.problem_id,
        language: req.language,
        source_code: req.source_code,
        submission_time: now,
        state: JobState::Queued,
        result: None,
    };
    // the freshly queued record immediately enters `Running`; execution is
    // dispatched by the caller after this returns
    job.state = JobState::Running;
    let snapshot = job.clone();
    store.jobs.push(job);
    proof {
        let jobs0 = old(store)@.jobs;
        let jobs1 = store@.jobs;
        assert forall|k: int| 0 <= k < jobs1.len() implies jobs1[k] == store.jobs[k]@ by {}
        assert(jobs1 =~= jobs0.push(snapshot@));
    }
    snapshot
}

/// Relies on chrono's `Utc::now`, formatted with the fixed-width pattern the
/// service uses everywhere. The value depends on the clock, so nothing is
/// promised of it; every caller is verified for every value it could take.
#[verifier::external_body]
fn now_timestamp() -> (r: String) {
    chrono::Utc::now().format("%Y-%m-%dT%H:%M:%S%.3fZ").to_string()
}

/// Handle a submission request: admit or reject it against the current
/// clock, and on admission persist the new job. On rejection the state is
/// untouched except that no job id is consumed either.
pub fn post_job(store: &mut Store, ids: &mut Ids, cat: &Catalog, req: crate::model::PostJob) -> (r:
    Result<Job, Reject>)
    requires
        old(store).wf(),
        consistent(old(store)@, *old(ids)),
        old(ids).jobsid < u32::MAX,
    ensures
        final(store).wf(),
        consistent(final(store)@, *final(ids)),
        final(store)@.users == old(store)@.users,
        final(store)@.contests == old(store)@.contests,
        final(ids).usersid == old(ids).usersid,
        final(ids).contestsid == old(ids).contestsid,
        match r {
            Ok(job) => {
                &&& admission_decision(cat@, old(store)@, req@, job@.submission_time)
                    == Ok::<(), Reject>(())
                &&& job@.id == old(ids).jobsid
                &&& final(ids).jobsid == old(ids).jobsid + 1
                &&& job@.user_id == req@.user_id
                &&& job@.contest_id == req@.contest_id
                &&& job@.problem_id == req@.problem_id
                &&& job@.language == req@.language
                &&& job@.source_code == req@.source_code
                &&& job@.state == JobState::Running
                &&& job@.result is None
                &&& final(store)@.jobs == old(store)@.jobs.push(job@)
            },
            Err(rej) => {
                &&& exists|now: Seq<char>|
                    admission_decision(cat@, old(store)@, req@, now) == Err::<(), Reject>(rej)
                &&& final(store)@.jobs == old(store)@.jobs
                &&& final(ids).jobsid == old(ids).jobsid
            },
        },
{
    let now = now_timestamp();
    match validate(store, cat, &req, now.as_str()) {
        Ok(_) => Ok(submit(store, ids, req, now)),
        Err(rej) => {
            proof {
                assert(admission_decision(cat@, store@, req@, now@) == Err::<(), Reject>(rej));
            }
            Err(rej)
        },
    }
}

/// Look a job up by id.
pub fn get_job_by_id(store: &Store, job_id: u32) -> (r: Option<Job>)
    requires
        store.wf(),
    ensures
        match r {
            Some(j) => has_job(store@.jobs, job_id) && j@ == job_with_id(store@.jobs, job_id),
            None => !has_job(store@.jobs, job_id),
        },
{
    let n = store.jobs.len();
    let mut i: usize = 0;
    while i < n
        invariant
            store.wf(),
            i <= n,
            n == store@.jobs.len(),
            forall|j: int| 0 <= j < i ==> (#[trigger] store@.jobs[j]).id != job_id,
        decreases n - i,
    {
        proof {
            assert(store@.jobs[i as int] == store.jobs[i as int]@);
        }
        if store.jobs[i].id == job_id {
            proof {
                let k = choose|k: int|
                    0 <= k < store@.jobs.len() && (#[trigger] store@.jobs[k]).id == job_id;
                assert(k == i);
            }
            return Some(store.jobs[i].clone());
        }
        i = i + 1;
    }
    None
}

/// List the jobs passing a filter, ascending by id. A `from` or `to` bound
/// that is not a valid timestamp makes the result empty — by policy this is
/// never an error.
pub fn get_jobs(store: &Store, filter: &JobsFilter) -> (r: Vec<Job>)
    requires
        store.wf(),
    ensures
        bounds_valid(filter@) ==> r@.map_values(|j: Job| j@) == filter_jobs(
            store@.jobs,
            filter@,
            store@.users,
        ),
        !bounds_valid(filter@) ==> r@.len() == 0,
        forall|a: int, b: int| #![trigger r@[a], r@[b]]
            0 <= a < b < r@.len() ==> r@[a]@.id < r@[b]@.id,
{
    proof {
        lemma_filter_jobs_ascending(store@.jobs, filter@, store@.users);
    }
    match &filter.from {
        Some(t) => {
            if !is_valid_timestamp(t.as_str()) {
                return Vec::new();
            }
        },
        None => {},
    }
    match &filter.to {
        Some(t) => {
            if !is_valid_timestamp(t.as_str()) {
                return Vec::new();
            }
        },
        None => {},
    }
    // resolve a user-name filter once; an unknown name matches nothing
    let mut name_id: Option<u32> = None;
    match &filter.user_name {
        Some(n) => {
            match store.get_user_id(n.as_str()) {
                Some(id) => {
                    name_id = Some(id);
                },
                None => {
                    proof {
                        lemma_filter_unknown_name(store@.jobs, filter@, store@.users);
                    }
                    return Vec::new();
                },
            }
        },
        None => {},
    }
    let ghost jv = store@.jobs;
    let n = store.jobs.len();
    let mut r: Vec<Job> = Vec::new();
    let mut i: usize = 0;
    while i < n
        invariant
            store.wf(),
            i <= n,
            n == jv.len(),
            jv == store@.jobs,
            match filter@.user_name {
                Some(nm) => has_user_name(store@.users, nm) && name_id == Some(
                    user_with_name(store@.users, nm).id,
                ),
                None => name_id is None,
            },
            r@.map_values(|j: Job| j@) == filter_jobs(jv.take(i as int), filter@, store@.users),
        decreases n - i,
    {
        proof {
            assert(jv[i as int] == store.jobs[i as int]@);
            assert(jv.take(i + 1).drop_last() =~= jv.take(i as int));
            assert(jv.take(i + 1).last() == jv[i as int]);
        }
        let j = &store.jobs[i];
        let mut ok: bool = true;
        match &filter.user_id {
            Some(u) => {
                if j.user_id != *u {
                    ok = false;
                }
            },
            None => {},
        }
        match &name_id {
            Some(u) => {
                if j.user_id != *u {
                    ok = false;
                }
            },
            None => {},
        }
        match &filter.contest_id {
            Some(c) => {
                if j.contest_id != *c {
                    ok = false;
                }
            },
            None => {},
        }
        match &filter.problem_id {
            Some(p) => {
                if j.problem_id != *p {
                    ok = false;
                }
            },
            None => {},
        }
        match &filter.language {
            Some(l) => {
                if !str_eq(j.language.as_str(), l.as_str()) {
                    ok = false;
                }
            },
            None => {},
        }
        match &filter.from {
            Some(t) => {
                if !str_le(t.as_str(), j.submission_time.as_str()) {
                    ok = false;
                }
            },
            None => {},
        }
        match &filter.to {
            Some(t) => {
                if !str_le(j.submission_time.as_str(), t.as_str()) {
                    ok = false;
                }
            },
            None => {},
        }
        match &filter.state {
            Some(s) => {
                if j.state != *s {
                    ok = false;
                }
            },
            None => {},
        }
        match &filter.result {
            Some(v) => {
                match &j.result {
                    Some(o) => {
                        if !str_eq(o.verdict.as_str(), v.as_str()) {
                            ok = false;
                        }
                    },
                    None => {
                        ok = false;
                    },
                }
            },
            None => {},
        }
        proof {
            assert(ok == matches_filter(jv[i as int], filter@, store@.users));
        }
        if ok {
            r.push(store.jobs[i].clone());
        }
        proof {
            assert(r@.map_values(|j2: Job| j2@) =~= filter_jobs(
                jv.take(i + 1),
                filter@,
                store@.users,
            ));
        }
        i = i + 1;
    }
    proof {
        assert(jv.take(n as int) =~= jv);
        let fr = filter_jobs(store@.jobs, filter@, store@.users);
        assert forall|a: int, b: int| #![trigger r@[a], r@[b]]
            0 <= a < b < r@.len() implies r@[a]@.id < r@[b]@.id by {
            assert(r@.map_values(|j2: Job| j2@)[a] == fr[a]);
            assert(r@.map_values(|j2: Job| j2@)[b] == fr[b]);
            assert(fr[a].id < fr[b].id);
        }
    }
    r
}

/// Rejudge a job: reset it to `Queued`, discarding any result. Valid only
/// for ids below the highest job id ever issued; the caller redispatches
/// execution afterwards.
pub fn rejudge_job_by_id(store: &mut Store, ids: &Ids, job_id: u32) -> (r: Result<Job, ErrorKind>)
    requires
        old(store).wf(),
        consistent(old(store)@, *ids),
    ensures
        final(store).wf(),
        consistent(final(store)@, *ids),
        final(store)@.users == old(store)@.users,
        final(store)@.contests == old(store)@.contests,
        match r {
            Ok(j) => {
                &&& job_id < ids.jobsid
                &&& has_job(old(store)@.jobs, job_id)
                &&& j@ == reset_of(job_with_id(old(store)@.jobs, job_id))
                &&& exists|k: int|
                    0 <= k < old(store)@.jobs.len() && (#[trigger] old(store)@.jobs[k]).id == job_id
                        && final(store)@.jobs == old(store)@.jobs.update(k, j@)
            },
            Err(k) => {
                &&& k == ErrorKind::NotFound
                &&& job_id >= ids.jobsid || !has_job(old(store)@.jobs, job_id)
                &&& final(store)@.jobs == old(store)@.jobs
            },
        },
{
    if job_id >= ids.jobsid {
        return Err(ErrorKind::NotFound);
    }
    let n = store.jobs.len();
    let mut i: usize = 0;
    while i < n
        invariant
            store.wf(),
            store@ == old(store)@,
            consistent(store@, *ids),
            job_id < ids.jobsid,
            i <= n,
            n == store@.jobs.len(),
            forall|j: int| 0 <= j < i ==> (#[trigger] store@.jobs[j]).id != job_id,
        decreases n - i,
    {
        proof {
            assert(store@.jobs[i as int] == store.jobs[i as int]@);
        }
        if store.jobs[i].id == job_id {
            let old_job = &store.jobs[i];
            let job = Job {
                id: old_job.id,
                user_id: old_job.user_id,
                contest_id: old_job.contest_id,
                problem_id: old_job.problem_id,
                language: old_job.language.clone(),
                source_code: old_job.source_code.clone(),
                submission_time: old_job.submission_time.clone(),
                state: JobState::Queued,
                result: None,
            };
            let snapshot = job.clone();
            vstd::pervasive::VecAdditionalExecFns::set(&mut store.jobs, i, job);
            proof {
                let jobs0 = old(store)@.jobs;
                let jobs1 = store@.jobs;
                assert forall|k: int| 0 <= k < jobs1.len() implies jobs1[k] == store.jobs[k]@ by {}
                assert(jobs1 =~= jobs0.update(i as int, snapshot@));
                let k = choose|k: int|
                    0 <= k < jobs0.len() && (#[trigger] jobs0[k]).id == job_id;
                assert(k == i);
            }
            return Ok(snapshot);
        }
        i = i + 1;
    }
    Err(ErrorKind::NotFound)
}

/// Take a queued job to `Running`. Returns whether anything changed; a job
/// that is absent or not queued is left alone.
pub fn start_running(store: &mut Store, job_id: u32) -> (r: bool)
    requires
        old(store).wf(),
    ensures
        final(store).wf(),
        final(store)@.users == old(store)@.users,
        final(store)@.contests == old(store)@.contests,
        if r {
            exists|k: int|
                0 <= k < old(store)@.jobs.len() && (#[trigger] old(store)@.jobs[k]).id == job_id
                    && old(store)@.jobs[k].state == JobState::Queued && final(store)@.jobs == old(
                    store,
                )@.jobs.update(
                    k,
                    JobV { state: JobState::Running, ..old(store)@.jobs[k] },
                )
        } else {
            (!has_job(old(store)@.jobs, job_id) || job_with_id(old(store)@.jobs, job_id).state
                != JobState::Queued) && final(store)@.jobs == old(store)@.jobs
        },
{
    let n = store.jobs.len();
    let mut i: usize = 0;
    while i < n
        invariant
            store.wf(),
            store@ == old(store)@,
            i <= n,
            n == store@.jobs.len(),
            forall|j: int| 0 <= j < i ==> (#[trigger] store@.jobs[j]).id != job_id,
        decreases n - i,
    {
        proof {
            assert(store@.jobs[i as int] == store.jobs[i as int]@);
        }
        if store.jobs[i].id == job_id {
            proof {
                let k = choose|k: int|
                    0 <= k < store@.jobs.len() && (#[trigger] store@.jobs[k]).id == job_id;
                assert(k == i);
            }
            if !matches!(store.jobs[i].state, JobState::Queued) {
                return false;
            }
            let old_job = &store.jobs[i];
            let job = Job {
                id: old_job.id,
                user_id: old_job.user_id,
                contest_id: old_job.contest_id,
                problem_id: old_job.problem_id,
                language: old_job.language.clone(),
                source_code: old_job.source_code.clone(),
                submission_time: old_job.submission_time.clone(),
                state: JobState::Running,
                result: None,
            };
            proof {
                assert(job@ == JobV { state: JobState::Running, ..old(store)@.jobs[i as int] });
            }
            vstd::pervasive::VecAdditionalExecFns::set(&mut store.jobs, i, job);
            proof {
                let jobs1 = store@.jobs;
                assert forall|k: int| 0 <= k < jobs1.len() implies jobs1[k] == store.jobs[k]@ by {}
                assert(jobs1 =~= old(store)@.jobs.update(
                    i as int,
                    JobV { state: JobState::Running, ..old(store)@.jobs[i as int] },
                ));
            }
            return true;
        }
        i = i + 1;
    }
    false
}

/// Record the execution engine's outcome on a running job, taking it to
/// `Finished`. A job that is absent or not running is left alone, so a stale
/// completion arriving after a rejudge reset cannot clobber the reset.
pub fn finish_job(store: &mut Store, job_id: u32, outcome: JobOutcome) -> (r: bool)
    requires
        old(store).wf(),
    ensures
        final(store).wf(),
        final(store)@.users == old(store)@.users,
        final(store)@.contests == old(store)@.contests,
        if r {
            exists|k: int|
                0 <= k < old(store)@.jobs.len() && (#[trigger] old(store)@.jobs[k]).id == job_id
                    && old(store)@.jobs[k].state == JobState::Running && final(store)@.jobs == old(
                    store,
                )@.jobs.update(
                    k,
                    JobV {
                        state: JobState::Finished,
                        result: Some(outcome@),
                        ..old(store)@.jobs[k]
                    },
                )
        } else {
            (!has_job(old(store)@.jobs, job_id) || job_with_id(old(store)@.jobs, job_id).state
                != JobState::Running) && final(store)@.jobs == old(store)@.jobs
        },
{
    let n = store.jobs.len();
    let mut i: usize = 0;
    while i < n
        invariant
            store.wf(),
            store@ == old(store)@,
            i <= n,
            n == store@.jobs.len(),
            forall|j: int| 0 <= j < i ==> (#[trigger] store@.jobs[j]).id != job_id,
        decreases n - i,
    {
        proof {
            assert(store@.jobs[i as int] == store.jobs[i as int]@);
        }
        if store.jobs[i].id == job_id {
            proof {
                let k = choose|k: int|
                    0 <= k < store@.jobs.len() && (#[trigger] store@.jobs[k]).id == job_id;
                assert(k == i);
            }
            if !matches!(store.jobs[i].state, JobState::Running) {
                return false;
            }
            let old_job = &store.jobs[i];
            let job = Job {
                id: old_job.id,
                user_id: old_job.user_id,
                contest_id: old_job.contest_id,
                problem_id: old_job.problem_id,
                language: old_job.language.clone(),
                source_code: old_job.source_code.clone(),
                submission_time: old_job.submission_time.clone(),
                state: JobState::Finished,
                result: Some(outcome),
            };
            proof {
                assert(job@ == JobV {
                    state: JobState::Finished,
                    result: Some(job@.result->0),
                    ..old(store)@.jobs[i as int]
                });
            }
            vstd::pervasive::VecAdditionalExecFns::set(&mut store.jobs, i, job);
            proof {
                let jobs1 = store@.jobs;
                assert forall|k: int| 0 <= k < jobs1.len() implies jobs1[k] == store.jobs[k]@ by {}
                assert(jobs1 =~= old(store)@.jobs.update(
                    i as int,
                    JobV {
                        state: JobState::Finished,
                        result: Some(outcome@),
                        ..old(store)@.jobs[i as int]
                    },
                ));
            }
            return true;
        }
        i = i + 1;
    }
    false
}

} // verus!
