use vstd::prelude::*;
use crate::error::Reject;
use crate::model::{Catalog, CatalogV, Job, JobV, PostJob, PostJobV};
use crate::store::{
    contest_with_id, has_contest, has_user_id, Store, StoreV,
};
use crate::timestamp::{lex_lt, str_lt};

verus! {

/// The admission controller: decides whether a submission request may be
/// queued. The checks run in a fixed order and the first failing check wins;
/// that order is part of the observable contract.

/// The job has this user/problem/contest triple.
pub open spec fn is_triple(j: JobV, u: u32, p: u32, c: u32) -> bool {
    j.user_id == u && j.problem_id == p && j.contest_id == c
}

/// How many stored jobs carry this user/problem/contest triple.
pub open spec fn submission_count(jobs: Seq<JobV>, u: u32, p: u32, c: u32) -> int
    decreases jobs.len(),
{
    if jobs.len() == 0 {
        0
    } else {
        submission_count(jobs.drop_last(), u, p, c) + if is_triple(jobs.last(), u, p, c) {
            1int
        } else {
            0int
        }
    }
}

pub proof fn lemma_submission_count_bounds(jobs: Seq<JobV>, u: u32, p: u32, c: u32)
    ensures
        0 <= submission_count(jobs, u, p, c) <= jobs.len(),
    decreases jobs.len(),
{
    if jobs.len() > 0 {
        lemma_submission_count_bounds(jobs.drop_last(), u, p, c);
    }
}

/// The admission decision, checks in order: language in catalog, problem in
/// catalog, user exists, contest exists (unless practice mode), user enrolled,
/// problem in contest, and — only for contests with a submission limit — the
/// rate limit and then the time window. A contest whose `submission_limit` is
/// 0 skips both the rate limit and the window, as the observed policy couples
/// the two.
pub open spec fn admission_decision(
    cat: CatalogV,
    s: StoreV,
    req: PostJobV,
    now: Seq<char>,
) -> Result<(), Reject> {
    if !cat.languages.contains(req.language) {
        Err(Reject::LanguageNotFound)
    } else if !cat.problem_ids.contains(req.problem_id) {
        Err(Reject::ProblemNotFound)
    } else if !has_user_id(s.users, req.user_id) {
        Err(Reject::UserNotFound)
    } else if req.contest_id != 0 && !has_contest(s.contests, req.contest_id) {
        Err(Reject::ContestNotFound)
    } else if req.contest_id != 0 {
        let c = contest_with_id(s.contests, req.contest_id);
        if !c.user_ids.contains(req.user_id) {
            Err(Reject::UserNotInContest)
        } else if !c.problem_ids.contains(req.problem_id) {
            Err(Reject::ProblemNotInContest)
        } else if c.submission_limit != 0 {
            if submission_count(s.jobs, req.user_id, req.problem_id, req.contest_id)
                >= c.submission_limit {
                Err(Reject::TooManySubmissions)
            } else if lex_lt(now, c.from) {
                Err(Reject::ContestNotStarted)
            } else if lex_lt(c.to, now) {
                Err(Reject::ContestEnded)
            } else {
                Ok(())
            }
        } else {
            Ok(())
        }
    } else {
        Ok(())
    }
}

impl Catalog {
    /// Whether the language catalog holds this language.
    pub fn has_language(&self, lang: &String) -> (r: bool)
        ensures
            r == self@.languages.contains(lang@),
    {
        let n = self.languages.len();
        let mut i: usize = 0;
        while i < n
            invariant
                i <= n,
                n == self@.languages.len(),
                forall|j: int| 0 <= j < i ==> self@.languages[j] != lang@,
            decreases n - i,
        {
            proof {
                assert(self@.languages[i as int] == self.languages[i as int]@);
            }
            if crate::timestamp::str_eq(self.languages[i].as_str(), lang.as_str()) {
                return true;
            }
            i = i + 1;
        }
        false
    }

    /// Whether the problem catalog holds this problem id.
    pub fn has_problem(&self, p: u32) -> (r: bool)
        ensures
            r == self@.problem_ids.contains(p),
    {
        vec_u32_contains(&self.problem_ids, p)
    }
}

/// Whether a vector of ids holds `x`.
pub fn vec_u32_contains(v: &Vec<u32>, x: u32) -> (r: bool)
    ensures
        r == v@.contains(x),
{
    let n = v.len();
    let mut i: usize = 0;
    while i < n
        invariant
            i <= n,
            n == v@.len(),
            forall|j: int| 0 <= j < i ==> v@[j] != x,
        decreases n - i,
    {
        if v[i] == x {
            return true;
        }
        i = i + 1;
    }
    false
}

/// Count the stored jobs with this user/problem/contest triple.
pub fn count_submissions(jobs: &Vec<Job>, u: u32, p: u32, c: u32) -> (r: u64)
    ensures
        r == submission_count(jobs@.map_values(|j: Job| j@), u, p, c),
{
    let ghost jv = jobs@.map_values(|j: Job| j@);
    let n = jobs.len();
    let mut cnt: u64 = 0;
    let mut i: usize = 0;
    while i < n
        invariant
            i <= n,
            n == jv.len(),
            jv == jobs@.map_values(|j: Job| j@),
            cnt == submission_count(jv.take(i as int), u, p, c),
            cnt <= i,
        decreases n - i,
    {
        proof {
            assert(jv[i as int] == jobs[i as int]@);
            assert(jv.take(i + 1).drop_last() =~= jv.take(i as int));
            assert(jv.take(i + 1).last() == jv[i as int]);
            lemma_submission_count_bounds(jv.take(i as int), u, p, c);
        }
        let j = &jobs[i];
        if j.user_id == u && j.problem_id == p && j.contest_id == c {
            cnt = cnt + 1;
        }
        i = i + 1;
    }
    proof {
        assert(jv.take(n as int) =~= jv);
    }
    cnt
}

/// Validate a submission request against the catalog and the stored state,
/// deciding admission from the given current time. The controller itself has
/// no side effects.
pub fn validate(store: &Store, cat: &Catalog, req: &PostJob, now: &str) -> (r: Result<(), Reject>)
    requires
        store.wf(),
    ensures
        r == admission_decision(cat@, store@, req@, now@),
{
    if !cat.has_language(&req.language) {
        return Err(Reject::LanguageNotFound);
    }
    if !cat.has_problem(req.problem_id) {
        return Err(Reject::ProblemNotFound);
    }
    match store.get_user(req.user_id) {
        None => {
            return Err(Reject::UserNotFound);
        },
        Some(_) => {},
    }
    if req.contest_id != 0 {
        match store.get_contest_by_id(req.contest_id) {
            None => {
                return Err(Reject::ContestNotFound);
            },
            Some(contest) => {
                if !vec_u32_contains(&contest.user_ids, req.user_id) {
                    return Err(Reject::UserNotInContest);
                }
                if !vec_u32_contains(&contest.problem_ids, req.problem_id) {
                    return Err(Reject::ProblemNotInContest);
                }
                if contest.submission_limit != 0 {
                    let cnt = count_submissions(
                        &store.jobs,
                        req.user_id,
                        req.problem_id,
                        req.contest_id,
                    );
                    if cnt >= contest.submission_limit as u64 {
                        return Err(Reject::TooManySubmissions);
                    }
                    if str_lt(now, contest.from.as_str()) {
                        return Err(Reject::ContestNotStarted);
                    }
                    if str_lt(contest.to.as_str(), now) {
                        return Err(Reject::ContestEnded);
                    }
                }
            },
        }
    }
    Ok(())
}

/// LAW: rule precedence. A request whose language is not in the catalog is
/// rejected for the language, whatever else is wrong with it — in particular
/// a request that also names an unknown user still yields the language error,
/// never the user error.
pub proof fn lemma_language_error_first(cat: CatalogV, s: StoreV, req: PostJobV, now: Seq<char>)
    requires
        !cat.languages.contains(req.language),
    ensures
        admission_decision(cat, s, req, now) == Err::<(), Reject>(Reject::LanguageNotFound),
{
}

/// LAW: practice mode. A submission to contest 0 bypasses every
/// contest-specific check — membership, window and rate limit — and is
/// admitted exactly when its language, problem and user exist.
pub proof fn lemma_practice_mode_bypass(cat: CatalogV, s: StoreV, req: PostJobV, now: Seq<char>)
    requires
        req.contest_id == 0,
        cat.languages.contains(req.language),
        cat.problem_ids.contains(req.problem_id),
        has_user_id(s.users, req.user_id),
    ensures
        admission_decision(cat, s, req, now) == Ok::<(), Reject>(()),
{
}

} // verus!
