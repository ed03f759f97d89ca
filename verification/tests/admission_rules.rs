use judge_core::admission::validate;
use judge_core::error::Reject;
use judge_core::ids::Ids;
use judge_core::model::{Catalog, PostContest, PostJob};
use judge_core::store::Store;

const IN_WINDOW: &str = "2022-06-15T12:00:00.000Z";
const BEFORE_WINDOW: &str = "2021-06-15T12:00:00.000Z";
const AFTER_WINDOW: &str = "2023-06-15T12:00:00.000Z";

fn catalog() -> Catalog {
    Catalog { languages: vec![String::from("Rust")], problem_ids: vec![0, 1] }
}

fn request(lang: &str, user: u32, contest: u32, problem: u32) -> PostJob {
    PostJob {
        source_code: String::from("fn main() {}"),
        language: String::from(lang),
        user_id: user,
        contest_id: contest,
        problem_id: problem,
    }
}

/// A store with users alice (0) and bob (1), and contest 1 enrolling only
/// alice on problem 0, with the given submission limit.
fn setup(limit: u32) -> (Store, Ids, Catalog) {
    let mut store = Store::new();
    let mut ids = Ids::new();
    let cat = catalog();
    store.create_user(&mut ids, "alice").unwrap();
    store.create_user(&mut ids, "bob").unwrap();
    let body = PostContest {
        id: None,
        name: String::from("weekly"),
        from: String::from("2022-01-01T00:00:00.000Z"),
        to: String::from("2022-12-31T23:59:59.000Z"),
        problem_ids: vec![0],
        user_ids: vec![0],
        submission_limit: limit,
    };
    store.post_contest(&mut ids, &cat, body).unwrap();
    (store, ids, cat)
}

#[test]
fn language_error_takes_precedence_over_user_error() {
    let (store, _ids, cat) = setup(0);
    // user 99 does not exist either, yet the language error wins
    let req = request("Cobol", 99, 0, 0);
    assert_eq!(validate(&store, &cat, &req, IN_WINDOW), Err(Reject::LanguageNotFound));
}

#[test]
fn each_rule_rejects_in_order() {
    let (store, _ids, cat) = setup(2);
    assert_eq!(
        validate(&store, &cat, &request("Cobol", 0, 1, 0), IN_WINDOW),
        Err(Reject::LanguageNotFound)
    );
    assert_eq!(
        validate(&store, &cat, &request("Rust", 0, 1, 9), IN_WINDOW),
        Err(Reject::ProblemNotFound)
    );
    assert_eq!(
        validate(&store, &cat, &request("Rust", 99, 1, 0), IN_WINDOW),
        Err(Reject::UserNotFound)
    );
    assert_eq!(
        validate(&store, &cat, &request("Rust", 0, 9, 0), IN_WINDOW),
        Err(Reject::ContestNotFound)
    );
    // bob exists but is not enrolled
    assert_eq!(
        validate(&store, &cat, &request("Rust", 1, 1, 0), IN_WINDOW),
        Err(Reject::UserNotInContest)
    );
    // problem 1 is in the catalog but not in the contest
    assert_eq!(
        validate(&store, &cat, &request("Rust", 0, 1, 1), IN_WINDOW),
        Err(Reject::ProblemNotInContest)
    );
    // window enforced when a limit is set
    assert_eq!(
        validate(&store, &cat, &request("Rust", 0, 1, 0), BEFORE_WINDOW),
        Err(Reject::ContestNotStarted)
    );
    assert_eq!(
        validate(&store, &cat, &request("Rust", 0, 1, 0), AFTER_WINDOW),
        Err(Reject::ContestEnded)
    );
    assert_eq!(validate(&store, &cat, &request("Rust", 0, 1, 0), IN_WINDOW), Ok(()));
}

#[test]
fn contest_zero_bypasses_contest_checks() {
    let (store, _ids, cat) = setup(1);
    // no membership, window or rate limit applies in practice mode: even a
    // time far outside every window is admitted
    let req = request("Rust", 1, 0, 1);
    assert_eq!(validate(&store, &cat, &req, BEFORE_WINDOW), Ok(()));
}

#[test]
fn zero_limit_skips_rate_limit_and_window() {
    let (store, _ids, cat) = setup(0);
    // the observed policy couples the window check to the limit check
    assert_eq!(validate(&store, &cat, &request("Rust", 0, 1, 0), BEFORE_WINDOW), Ok(()));
    assert_eq!(validate(&store, &cat, &request("Rust", 0, 1, 0), AFTER_WINDOW), Ok(()));
}

#[test]
fn third_submission_hits_rate_limit() {
    let (mut store, mut ids, cat) = setup(2);
    let now = String::from(IN_WINDOW);
    for _ in 0..2 {
        let req = request("Rust", 0, 1, 0);
        assert_eq!(validate(&store, &cat, &req, now.as_str()), Ok(()));
        judge_core::jobs::submit(&mut store, &mut ids, req, now.clone());
    }
    let req = request("Rust", 0, 1, 0);
    assert_eq!(validate(&store, &cat, &req, now.as_str()), Err(Reject::TooManySubmissions));
}

#[test]
fn window_bounds_are_inclusive() {
    let (store, _ids, cat) = setup(1);
    assert_eq!(
        validate(&store, &cat, &request("Rust", 0, 1, 0), "2022-01-01T00:00:00.000Z"),
        Ok(())
    );
    assert_eq!(
        validate(&store, &cat, &request("Rust", 0, 1, 0), "2022-12-31T23:59:59.000Z"),
        Ok(())
    );
}
