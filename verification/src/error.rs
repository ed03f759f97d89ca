use vstd::prelude::*;

verus! {

/// Error taxonomy of the service. Each kind maps to a distinct HTTP status
/// at the boundary; this core only decides the kind.
#[derive(Clone, Copy, Debug, PartialEq, Eq, Structural)]
pub enum ErrorKind {
    /// A referenced entity (language, problem, user, contest, job) is absent.
    NotFound,
    /// The request violates a business rule.
    InvalidArgument,
    /// The submission limit of a contest is exceeded.
    RateLimit,
    /// A data-store or other infrastructure fault.
    External,
}

/// The precise reason a submission was rejected, one variant per admission
/// rule, in the order the rules are checked.
#[derive(Clone, Copy, Debug, PartialEq, Eq, Structural)]
pub enum Reject {
    /// The language is not in the configured language catalog.
    LanguageNotFound,
    /// The problem is not in the configured problem catalog.
    ProblemNotFound,
    /// The submitting user does not exist.
    UserNotFound,
    /// A nonzero contest id references no contest.
    ContestNotFound,
    /// The user is not registered in the contest.
    UserNotInContest,
    /// The problem is not part of the contest.
    ProblemNotInContest,
    /// The user has already used up the contest's submission limit
    /// for this problem.
    TooManySubmissions,
    /// The contest has not started yet.
    ContestNotStarted,
    /// The contest has already finished.
    ContestEnded,
}

impl Reject {
    /// The error kind a rejection maps to.
    pub open spec fn kind_spec(self) -> ErrorKind {
        match self {
            Reject::LanguageNotFound => ErrorKind::NotFound,
            Reject::ProblemNotFound => ErrorKind::NotFound,
            Reject::UserNotFound => ErrorKind::NotFound,
            Reject::ContestNotFound => ErrorKind::NotFound,
            Reject::UserNotInContest => ErrorKind::InvalidArgument,
            Reject::ProblemNotInContest => ErrorKind::InvalidArgument,
            Reject::TooManySubmissions => ErrorKind::RateLimit,
            Reject::ContestNotStarted => ErrorKind::InvalidArgument,
            Reject::ContestEnded => ErrorKind::InvalidArgument,
        }
    }

    pub fn kind(self) -> (k: ErrorKind)
        ensures
            k == self.kind_spec(),
    {
        match self {
            Reject::LanguageNotFound => ErrorKind::NotFound,
            Reject::ProblemNotFound => ErrorKind::NotFound,
            Reject::UserNotFound => ErrorKind::NotFound,
            Reject::ContestNotFound => ErrorKind::NotFound,
            Reject::UserNotInContest => ErrorKind::InvalidArgument,
            Reject::ProblemNotInContest => ErrorKind::InvalidArgument,
            Reject::TooManySubmissions => ErrorKind::RateLimit,
            Reject::ContestNotStarted => ErrorKind::InvalidArgument,
            Reject::ContestEnded => ErrorKind::InvalidArgument,
        }
    }
}

} // verus!
