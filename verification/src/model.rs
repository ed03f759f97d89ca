use vstd::prelude::*;

verus! {

/// The data model: users, contests, jobs and the request shapes of the
/// boundary, each with a mathematical view used by the contracts.

/// The lifecycle state of a job.
#[derive(Clone, Copy, Debug, PartialEq, Eq, Structural)]
pub enum JobState {
    Queued,
    Running,
    Finished,
}

/// The outcome the execution engine attaches to a finished job: a score and
/// an outcome category; both are opaque to this core.
#[derive(Debug)]
pub struct JobOutcome {
    pub score: u32,
    pub verdict: String,
}

pub struct JobOutcomeV {
    pub score: u32,
    pub verdict: Seq<char>,
}

impl View for JobOutcome {
    type V = JobOutcomeV;

    open spec fn view(&self) -> JobOutcomeV {
        JobOutcomeV { score: self.score, verdict: self.verdict@ }
    }
}

impl Clone for JobOutcome {
    fn clone(&self) -> (res: Self)
        ensures
            res@ == self@,
    {
        JobOutcome { score: self.score, verdict: self.verdict.clone() }
    }
}

/// A user record, as it is stored and served.
#[derive(Debug)]
pub struct SerdeUser {
    pub id: u32,
    pub name: String,
}

pub struct UserV {
    pub id: u32,
    pub name: Seq<char>,
}

impl View for SerdeUser {
    type V = UserV;

    open spec fn view(&self) -> UserV {
        UserV { id: self.id, name: self.name@ }
    }
}

impl Clone for SerdeUser {
    fn clone(&self) -> (res: Self)
        ensures
            res@ == self@,
    {
        SerdeUser { id: self.id, name: self.name.clone() }
    }
}

/// A contest. Id 0 is reserved to mean "practice mode" and never names a
/// stored contest.
#[derive(Debug)]
pub struct Contest {
    pub id: u32,
    pub name: String,
    pub from: String,
    pub to: String,
    pub problem_ids: Vec<u32>,
    pub user_ids: Vec<u32>,
    pub submission_limit: u32,
}

pub struct ContestV {
    pub id: u32,
    pub name: Seq<char>,
    pub from: Seq<char>,
    pub to: Seq<char>,
    pub problem_ids: Seq<u32>,
    pub user_ids: Seq<u32>,
    pub submission_limit: u32,
}

impl View for Contest {
    type V = ContestV;

    open spec fn view(&self) -> ContestV {
        ContestV {
            id: self.id,
            name: self.name@,
            from: self.from@,
            to: self.to@,
            problem_ids: self.problem_ids@,
            user_ids: self.user_ids@,
            submission_limit: self.submission_limit,
        }
    }
}

impl Clone for Contest {
    fn clone(&self) -> (res: Self)
        ensures
            res@ == self@,
    {
        let res = Contest {
            id: self.id,
            name: self.name.clone(),
            from: self.from.clone(),
            to: self.to.clone(),
            problem_ids: self.problem_ids.clone(),
            user_ids: self.user_ids.clone(),
            submission_limit: self.submission_limit,
        };
        proof {
            assert(res.problem_ids@ =~= self.problem_ids@);
            assert(res.user_ids@ =~= self.user_ids@);
        }
        res
    }
}

/// One submission and its lifecycle.
#[derive(Debug)]
pub struct Job {
    pub id: u32,
    pub user_id: u32,
    pub contest_id: u32,
    pub problem_id: u32,
    pub language: String,
    pub source_code: String,
    pub submission_time: String,
    pub state: JobState,
    pub result: Option<JobOutcome>,
}

pub struct JobV {
    pub id: u32,
    pub user_id: u32,
    pub contest_id: u32,
    pub problem_id: u32,
    pub language: Seq<char>,
    pub source_code: Seq<char>,
    pub submission_time: Seq<char>,
    pub state: JobState,
    pub result: Option<JobOutcomeV>,
}

impl View for Job {
    type V = JobV;

    open spec fn view(&self) -> JobV {
        JobV {
            id: self.id,
            user_id: self.user_id,
            contest_id: self.contest_id,
            problem_id: self.problem_id,
            language: self.language@,
            source_code: self.source_code@,
            submission_time: self.submission_time@,
            state: self.state,
            result: match self.result {
                Some(o) => Some(o@),
                None => None,
            },
        }
    }
}

impl Clone for Job {
    fn clone(&self) -> (res: Self)
        ensures
            res@ == self@,
    {
        Job {
            id: self.id,
            user_id: self.user_id,
            contest_id: self.contest_id,
            problem_id: self.problem_id,
            language: self.language.clone(),
            source_code: self.source_code.clone(),
            submission_time: self.submission_time.clone(),
            state: self.state,
            result: match &self.result {
                Some(o) => Some(o.clone()),
                None => None,
            },
        }
    }
}

/// The body of a submission request.
pub struct PostJob {
    pub source_code: String,
    pub language: String,
    pub user_id: u32,
    pub contest_id: u32,
    pub problem_id: u32,
}

pub struct PostJobV {
    pub source_code: Seq<char>,
    pub language: Seq<char>,
    pub user_id: u32,
    pub contest_id: u32,
    pub problem_id: u32,
}

impl View for PostJob {
    type V = PostJobV;

    open spec fn view(&self) -> PostJobV {
        PostJobV {
            source_code: self.source_code@,
            language: self.language@,
            user_id: self.user_id,
            contest_id: self.contest_id,
            problem_id: self.problem_id,
        }
    }
}

/// The body of a user creation or rename request: `id` absent creates,
/// `id` present renames.
pub struct PostUser {
    pub id: Option<u32>,
    pub name: String,
}

/// The body of a contest creation or update request: `id` absent creates,
/// `id` present updates.
pub struct PostContest {
    pub id: Option<u32>,
    pub name: String,
    pub from: String,
    pub to: String,
    pub problem_ids: Vec<u32>,
    pub user_ids: Vec<u32>,
    pub submission_limit: u32,
}

pub struct PostContestV {
    pub id: Option<u32>,
    pub name: Seq<char>,
    pub from: Seq<char>,
    pub to: Seq<char>,
    pub problem_ids: Seq<u32>,
    pub user_ids: Seq<u32>,
    pub submission_limit: u32,
}

impl View for PostContest {
    type V = PostContestV;

    open spec fn view(&self) -> PostContestV {
        PostContestV {
            id: self.id,
            name: self.name@,
            from: self.from@,
            to: self.to@,
            problem_ids: self.problem_ids@,
            user_ids: self.user_ids@,
            submission_limit: self.submission_limit,
        }
    }
}

/// The optional, conjunctive filter predicates of a job listing request.
pub struct JobsFilter {
    pub user_id: Option<u32>,
    pub user_name: Option<String>,
    pub contest_id: Option<u32>,
    pub problem_id: Option<u32>,
    pub language: Option<String>,
    pub from: Option<String>,
    pub to: Option<String>,
    pub state: Option<JobState>,
    pub result: Option<String>,
}

pub struct JobsFilterV {
    pub user_id: Option<u32>,
    pub user_name: Option<Seq<char>>,
    pub contest_id: Option<u32>,
    pub problem_id: Option<u32>,
    pub language: Option<Seq<char>>,
    pub from: Option<Seq<char>>,
    pub to: Option<Seq<char>>,
    pub state: Option<JobState>,
    pub result: Option<Seq<char>>,
}

impl View for JobsFilter {
    type V = JobsFilterV;

    open spec fn view(&self) -> JobsFilterV {
        JobsFilterV {
            user_id: self.user_id,
            user_name: match self.user_name {
                Some(ref s) => Some(s@),
                None => None,
            },
            contest_id: self.contest_id,
            problem_id: self.problem_id,
            language: match self.language {
                Some(ref s) => Some(s@),
                None => None,
            },
            from: match self.from {
                Some(ref s) => Some(s@),
                None => None,
            },
            to: match self.to {
                Some(ref s) => Some(s@),
                None => None,
            },
            state: self.state,
            result: match self.result {
                Some(ref s) => Some(s@),
                None => None,
            },
        }
    }
}

/// How the representative score of a user/problem pair is chosen.
#[allow(non_camel_case_types)]
#[derive(Clone, Copy, Debug, PartialEq, Eq, Structural)]
pub enum ScoringRule {
    latest,
    highest,
}

/// The secondary ordering applied among ranklist entries with equal totals.
#[allow(non_camel_case_types)]
#[derive(Clone, Copy, Debug, PartialEq, Eq, Structural)]
pub enum TieBreaker {
    submission_time,
    submission_count,
    user_id,
    none,
}

/// A fully defaulted ranklist request.
#[derive(Clone, Copy, Debug, PartialEq, Eq, Structural)]
pub struct RankFilter {
    pub scoring_rule: ScoringRule,
    pub tie_breaker: TieBreaker,
}

/// A ranklist request as it arrives, with both options still optional.
#[derive(Clone, Copy, Debug, PartialEq, Eq, Structural)]
pub struct SerdeRankFilter {
    pub scoring_rule: Option<ScoringRule>,
    pub tie_breaker: Option<TieBreaker>,
}

impl RankFilter {
    /// Fill in the documented defaults: `highest` scoring, no tie-breaker.
    pub fn from_options(raw: SerdeRankFilter) -> (r: RankFilter)
        ensures
            r.scoring_rule == match raw.scoring_rule {
                Some(s) => s,
                None => ScoringRule::highest,
            },
            r.tie_breaker == match raw.tie_breaker {
                Some(t) => t,
                None => TieBreaker::none,
            },
    {
        RankFilter {
            scoring_rule: match raw.scoring_rule {
                Some(s) => s,
                None => ScoringRule::highest,
            },
            tie_breaker: match raw.tie_breaker {
                Some(t) => t,
                None => TieBreaker::none,
            },
        }
    }
}

/// One row of a computed ranklist.
#[derive(Debug)]
pub struct RankEntry {
    pub user_id: u32,
    pub user_name: String,
    pub scores: Vec<u32>,
    pub total_score: u64,
}

pub struct RankEntryV {
    pub user_id: u32,
    pub user_name: Seq<char>,
    pub scores: Seq<u32>,
    pub total_score: u64,
}

impl View for RankEntry {
    type V = RankEntryV;

    open spec fn view(&self) -> RankEntryV {
        RankEntryV {
            user_id: self.user_id,
            user_name: self.user_name@,
            scores: self.scores@,
            total_score: self.total_score,
        }
    }
}

impl Clone for RankEntry {
    fn clone(&self) -> (res: Self)
        ensures
            res@ == self@,
    {
        let res = RankEntry {
            user_id: self.user_id,
            user_name: self.user_name.clone(),
            scores: self.scores.clone(),
            total_score: self.total_score,
        };
        proof {
            assert(res.scores@ =~= self.scores@);
        }
        res
    }
}

/// The read-only configuration catalog: the languages a submission may use
/// and the ids of the problems that exist.
pub struct Catalog {
    pub languages: Vec<String>,
    pub problem_ids: Vec<u32>,
}

pub struct CatalogV {
    pub languages: Seq<Seq<char>>,
    pub problem_ids: Seq<u32>,
}

impl View for Catalog {
    type V = CatalogV;

    open spec fn view(&self) -> CatalogV {
        CatalogV {
            languages: self.languages@.map_values(|s: String| s@),
            problem_ids: self.problem_ids@,
        }
    }
}

} // verus!
