use judge_core::error::ErrorKind;
use judge_core::ids::Ids;
use judge_core::jobs::{finish_job, get_job_by_id, get_jobs, rejudge_job_by_id, start_running, submit};
use judge_core::model::{
    Catalog, JobOutcome, JobsFilter, JobState, PostContest, PostJob, RankFilter, ScoringRule,
    TieBreaker,
};
use judge_core::ranklist::{get_ranklist, representative_index};
use judge_core::store::Store;

const T1: &str = "2022-06-15T10:00:00.000Z";
const T2: &str = "2022-06-15T11:00:00.000Z";
const T3: &str = "2022-06-15T12:00:00.000Z";

fn catalog() -> Catalog {
    Catalog { languages: vec![String::from("Rust")], problem_ids: vec![0, 1] }
}

fn request(user: u32, contest: u32, problem: u32) -> PostJob {
    PostJob {
        source_code: String::from("fn main() {}"),
        language: String::from("Rust"),
        user_id: user,
        contest_id: contest,
        problem_id: problem,
    }
}

fn empty_filter() -> JobsFilter {
    JobsFilter {
        user_id: None,
        user_name: None,
        contest_id: None,
        problem_id: None,
        language: None,
        from: None,
        to: None,
        state: None,
        result: None,
    }
}

/// Users alice (0) and bob (1); contest 1 enrolls both on problems 0 and 1.
fn setup() -> (Store, Ids, Catalog) {
    let mut store = Store::new();
    let mut ids = Ids::new();
    let cat = catalog();
    store.create_user(&mut ids, "alice").unwrap();
    store.create_user(&mut ids, "bob").unwrap();
    let body = PostContest {
        id: None,
        name: String::from("weekly"),
        from: String::from("2022-01-01T00:00:00.000Z"),
        to: String::from("2022-12-31T23:59:59.000Z"),
        problem_ids: vec![0, 1],
        user_ids: vec![0, 1],
        submission_limit: 0,
    };
    store.post_contest(&mut ids, &cat, body).unwrap();
    (store, ids, cat)
}

/// Submit a job for the user/problem in contest 1 and finish it with the
/// given score at the given time.
fn finished_submission(store: &mut Store, ids: &mut Ids, user: u32, problem: u32, score: u32, time: &str) -> u32 {
    let job = submit(store, ids, request(user, 1, problem), String::from(time));
    assert_eq!(job.state, JobState::Running);
    let done = finish_job(store, job.id, JobOutcome { score, verdict: String::from("Accepted") });
    assert!(done);
    job.id
}

#[test]
fn post_job_in_practice_mode_is_admitted() {
    let (mut store, mut ids, cat) = setup();
    // contest 0 ignores the clock entirely, so admission is deterministic
    // even though the submission time comes from the real clock
    let job = judge_core::jobs::post_job(&mut store, &mut ids, &cat, request(0, 0, 0)).unwrap();
    assert_eq!(job.id, 0);
    assert_eq!(job.state, JobState::Running);
    assert!(job.result.is_none());
    let got = get_job_by_id(&store, 0).unwrap();
    assert_eq!(got.submission_time, job.submission_time);
}

#[test]
fn post_job_rejects_before_consuming_state() {
    let (mut store, mut ids, cat) = setup();
    let bad = PostJob {
        source_code: String::from("fn main() {}"),
        language: String::from("Cobol"),
        user_id: 0,
        contest_id: 0,
        problem_id: 0,
    };
    let err = judge_core::jobs::post_job(&mut store, &mut ids, &cat, bad).unwrap_err();
    assert_eq!(err, judge_core::error::Reject::LanguageNotFound);
    assert_eq!(ids.jobsid, 0);
    assert!(get_job_by_id(&store, 0).is_none());
}

#[test]
fn submit_then_get_reflects_the_job() {
    let (mut store, mut ids, _cat) = setup();
    let job = submit(&mut store, &mut ids, request(0, 1, 0), String::from(T1));
    assert_eq!(job.id, 0);
    assert_eq!(job.state, JobState::Running);
    assert!(job.result.is_none());
    let got = get_job_by_id(&store, 0).unwrap();
    assert_eq!(got.id, 0);
    assert_eq!(got.user_id, 0);
    assert_eq!(got.contest_id, 1);
    assert_eq!(got.problem_id, 0);
    assert_eq!(got.submission_time, T1);
    assert!(get_job_by_id(&store, 7).is_none());
}

#[test]
fn finish_records_result_and_stale_completions_are_dropped() {
    let (mut store, mut ids, _cat) = setup();
    let id = finished_submission(&mut store, &mut ids, 0, 0, 80, T1);
    let got = get_job_by_id(&store, id).unwrap();
    assert_eq!(got.state, JobState::Finished);
    assert_eq!(got.result.as_ref().unwrap().score, 80);
    // a second completion finds the job no longer running and changes nothing
    let again = finish_job(&mut store, id, JobOutcome { score: 10, verdict: String::from("Accepted") });
    assert!(!again);
    assert_eq!(get_job_by_id(&store, id).unwrap().result.unwrap().score, 80);
}

#[test]
fn reset_clears_result_and_returns_to_queued() {
    let (mut store, mut ids, _cat) = setup();
    for k in 0..6 {
        finished_submission(&mut store, &mut ids, 0, 0, 10 * k, T1);
    }
    let snapshot = rejudge_job_by_id(&mut store, &ids, 5).unwrap();
    assert_eq!(snapshot.id, 5);
    assert_eq!(snapshot.state, JobState::Queued);
    assert!(snapshot.result.is_none());
    // before redispatch completes, a read sees Queued (or Running once the
    // engine picked it up), never the old result
    let got = get_job_by_id(&store, 5).unwrap();
    assert_eq!(got.state, JobState::Queued);
    assert!(got.result.is_none());
    let picked = start_running(&mut store, 5);
    assert!(picked);
    let got = get_job_by_id(&store, 5).unwrap();
    assert_eq!(got.state, JobState::Running);
    assert!(got.result.is_none());
}

#[test]
fn reset_rejects_ids_never_issued() {
    let (mut store, mut ids, _cat) = setup();
    finished_submission(&mut store, &mut ids, 0, 0, 10, T1);
    assert_eq!(rejudge_job_by_id(&mut store, &ids, 7).unwrap_err(), ErrorKind::NotFound);
}

#[test]
fn malformed_time_bound_matches_nothing_instead_of_failing() {
    let (mut store, mut ids, _cat) = setup();
    finished_submission(&mut store, &mut ids, 0, 0, 10, T1);
    let mut filter = empty_filter();
    filter.from = Some(String::from("not-a-date"));
    assert_eq!(get_jobs(&store, &filter).len(), 0);
    let mut filter = empty_filter();
    filter.to = Some(String::from("2022-99-99T00:00:00.000Z"));
    assert_eq!(get_jobs(&store, &filter).len(), 0);
    // with well-formed bounds the same job is found, bounds inclusive
    let mut filter = empty_filter();
    filter.from = Some(String::from(T1));
    filter.to = Some(String::from(T1));
    assert_eq!(get_jobs(&store, &filter).len(), 1);
}

#[test]
fn filters_are_conjunctive_and_ordered_by_id() {
    let (mut store, mut ids, _cat) = setup();
    finished_submission(&mut store, &mut ids, 0, 0, 10, T1);
    finished_submission(&mut store, &mut ids, 1, 0, 20, T2);
    let running = submit(&mut store, &mut ids, request(0, 1, 1), String::from(T3));
    assert_eq!(running.id, 2);

    let all = get_jobs(&store, &empty_filter());
    assert_eq!(all.len(), 3);
    assert!(all[0].id < all[1].id && all[1].id < all[2].id);

    let mut by_user = empty_filter();
    by_user.user_id = Some(0);
    assert_eq!(get_jobs(&store, &by_user).len(), 2);

    let mut by_name = empty_filter();
    by_name.user_name = Some(String::from("bob"));
    let bobs = get_jobs(&store, &by_name);
    assert_eq!(bobs.len(), 1);
    assert_eq!(bobs[0].user_id, 1);

    let mut unknown_name = empty_filter();
    unknown_name.user_name = Some(String::from("carol"));
    assert_eq!(get_jobs(&store, &unknown_name).len(), 0);

    let mut by_state = empty_filter();
    by_state.state = Some(JobState::Running);
    let rs = get_jobs(&store, &by_state);
    assert_eq!(rs.len(), 1);
    assert_eq!(rs[0].id, 2);

    let mut by_verdict = empty_filter();
    by_verdict.result = Some(String::from("Accepted"));
    assert_eq!(get_jobs(&store, &by_verdict).len(), 2);

    let mut narrow = empty_filter();
    narrow.user_id = Some(0);
    narrow.problem_id = Some(0);
    narrow.language = Some(String::from("Rust"));
    assert_eq!(get_jobs(&store, &narrow).len(), 1);
}

#[test]
fn highest_rule_attributes_the_maximum() {
    let (mut store, mut ids, _cat) = setup();
    finished_submission(&mut store, &mut ids, 0, 0, 40, T1);
    finished_submission(&mut store, &mut ids, 0, 0, 90, T2);
    finished_submission(&mut store, &mut ids, 0, 0, 60, T3);
    let filter = RankFilter { scoring_rule: ScoringRule::highest, tie_breaker: TieBreaker::none };
    let ranks = get_ranklist(&store, 1, filter).unwrap();
    assert_eq!(ranks.len(), 2);
    assert_eq!(ranks[0].user_id, 0);
    assert_eq!(ranks[0].total_score, 90);
    assert_eq!(ranks[0].scores, vec![90, 0]);
    assert_eq!(ranks[1].total_score, 0);
}

#[test]
fn ties_at_the_maximum_resolve_to_the_earliest() {
    let (mut store, mut ids, _cat) = setup();
    finished_submission(&mut store, &mut ids, 0, 0, 40, T1);
    let first_90 = finished_submission(&mut store, &mut ids, 0, 0, 90, T2);
    finished_submission(&mut store, &mut ids, 0, 0, 90, T3);
    let rep = representative_index(&store.jobs, ScoringRule::highest, 0, 0, 1).unwrap();
    assert_eq!(store.jobs[rep].id, first_90);
    assert_eq!(store.jobs[rep].submission_time, T2);
}

#[test]
fn latest_rule_attributes_the_chronologically_last() {
    let (mut store, mut ids, _cat) = setup();
    // submitted out of chronological order on purpose: the latest time wins,
    // not the largest score and not the latest id
    finished_submission(&mut store, &mut ids, 0, 0, 40, T2);
    finished_submission(&mut store, &mut ids, 0, 0, 90, T1);
    finished_submission(&mut store, &mut ids, 0, 0, 60, T3);
    let filter = RankFilter { scoring_rule: ScoringRule::latest, tie_breaker: TieBreaker::none };
    let ranks = get_ranklist(&store, 1, filter).unwrap();
    assert_eq!(ranks[0].user_id, 0);
    assert_eq!(ranks[0].total_score, 60);
}

#[test]
fn tie_breaker_none_preserves_declaration_order() {
    let mut store = Store::new();
    let mut ids = Ids::new();
    let cat = catalog();
    store.create_user(&mut ids, "alice").unwrap(); // id 0
    store.create_user(&mut ids, "bob").unwrap(); // id 1
    store.create_user(&mut ids, "carol").unwrap(); // id 2
    let body = PostContest {
        id: None,
        name: String::from("weekly"),
        from: String::from("2022-01-01T00:00:00.000Z"),
        to: String::from("2022-12-31T23:59:59.000Z"),
        problem_ids: vec![0],
        user_ids: vec![2, 0, 1], // declaration order is not id order
        submission_limit: 0,
    };
    store.post_contest(&mut ids, &cat, body).unwrap();
    // all three tie at total 0 (no submissions)
    let filter = RankFilter { scoring_rule: ScoringRule::highest, tie_breaker: TieBreaker::none };
    let ranks = get_ranklist(&store, 1, filter).unwrap();
    let order: Vec<u32> = ranks.iter().map(|e| e.user_id).collect();
    assert_eq!(order, vec![2, 0, 1]);
    assert_eq!(ranks[0].user_name, "carol");
    // users with no submissions still appear, with total 0
    assert!(ranks.iter().all(|e| e.total_score == 0));
}

#[test]
fn tie_breakers_order_equal_totals() {
    let (mut store, mut ids, _cat) = setup();
    // alice and bob both total 50; alice's representative is earlier, but
    // alice made more submissions to the contest
    finished_submission(&mut store, &mut ids, 0, 0, 50, T1);
    finished_submission(&mut store, &mut ids, 0, 1, 0, T2);
    finished_submission(&mut store, &mut ids, 1, 0, 50, T3);

    let by_time = RankFilter {
        scoring_rule: ScoringRule::highest,
        tie_breaker: TieBreaker::submission_time,
    };
    let ranks = get_ranklist(&store, 1, by_time).unwrap();
    assert_eq!(ranks[0].user_id, 0);
    assert_eq!(ranks[1].user_id, 1);

    let by_count = RankFilter {
        scoring_rule: ScoringRule::highest,
        tie_breaker: TieBreaker::submission_count,
    };
    let ranks = get_ranklist(&store, 1, by_count).unwrap();
    // bob has fewer submissions to the contest, so bob comes first
    assert_eq!(ranks[0].user_id, 1);
    assert_eq!(ranks[1].user_id, 0);

    let by_id = RankFilter { scoring_rule: ScoringRule::highest, tie_breaker: TieBreaker::user_id };
    let ranks = get_ranklist(&store, 1, by_id).unwrap();
    assert_eq!(ranks[0].user_id, 0);
    assert_eq!(ranks[1].user_id, 1);
}

#[test]
fn ranklist_sorts_totals_descending() {
    let (mut store, mut ids, _cat) = setup();
    finished_submission(&mut store, &mut ids, 0, 0, 30, T1);
    finished_submission(&mut store, &mut ids, 1, 0, 70, T2);
    finished_submission(&mut store, &mut ids, 1, 1, 10, T3);
    let filter = RankFilter { scoring_rule: ScoringRule::highest, tie_breaker: TieBreaker::none };
    let ranks = get_ranklist(&store, 1, filter).unwrap();
    assert_eq!(ranks[0].user_id, 1);
    assert_eq!(ranks[0].total_score, 80);
    assert_eq!(ranks[0].scores, vec![70, 10]);
    assert_eq!(ranks[1].user_id, 0);
    assert_eq!(ranks[1].total_score, 30);
}

#[test]
fn ranklist_of_missing_contest_is_not_found() {
    let (store, _ids, _cat) = setup();
    let filter = RankFilter { scoring_rule: ScoringRule::highest, tie_breaker: TieBreaker::none };
    assert_eq!(get_ranklist(&store, 9, filter).unwrap_err(), ErrorKind::NotFound);
    // contest 0 is practice mode, never a stored contest
    assert_eq!(get_ranklist(&store, 0, filter).unwrap_err(), ErrorKind::NotFound);
}

#[test]
fn unfinished_jobs_do_not_score() {
    let (mut store, mut ids, _cat) = setup();
    // a running job has no result yet and contributes nothing
    submit(&mut store, &mut ids, request(0, 1, 0), String::from(T1));
    let filter = RankFilter { scoring_rule: ScoringRule::highest, tie_breaker: TieBreaker::none };
    let ranks = get_ranklist(&store, 1, filter).unwrap();
    assert_eq!(ranks[0].total_score, 0);
    assert_eq!(ranks[1].total_score, 0);
}
