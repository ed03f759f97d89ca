use judge_core::error::{ErrorKind, Reject};
use judge_core::ids::Ids;
use judge_core::model::{PostContest, PostUser, RankFilter, ScoringRule, SerdeRankFilter, TieBreaker};
use judge_core::store::Store;
use judge_core::timestamp::{is_valid_timestamp, str_eq, str_le, str_lt};

#[test]
fn job_ids_strictly_increase() {
    let mut ids = Ids::new();
    let a = ids.next_job_id();
    let b = ids.next_job_id();
    let c = ids.next_job_id();
    assert!(a < b && b < c);
    assert_eq!(a, 0);
    assert_eq!(c, 2);
}

#[test]
fn user_id_consumed_even_when_creation_fails() {
    let mut store = Store::new();
    let mut ids = Ids::new();
    let u = store.create_user(&mut ids, "alice").unwrap();
    assert_eq!(u.id, 0);
    // the duplicate name is rejected, but the id is gone
    let err = store.create_user(&mut ids, "alice").unwrap_err();
    assert_eq!(err, ErrorKind::InvalidArgument);
    let v = store.create_user(&mut ids, "bob").unwrap();
    assert_eq!(v.id, 2);
}

#[test]
fn contest_ids_start_at_one() {
    let ids = Ids::new();
    assert_eq!(ids.contestsid, 1);
    assert_eq!(ids.usersid, 0);
    assert_eq!(ids.jobsid, 0);
}

#[test]
fn timestamp_validity() {
    assert!(is_valid_timestamp("2022-08-27T02:05:29.000Z"));
    assert!(is_valid_timestamp("1970-01-01T00:00:00.000Z"));
    assert!(!is_valid_timestamp("not-a-date"));
    assert!(!is_valid_timestamp(""));
    assert!(!is_valid_timestamp("2022-08-27T02:05:29.000"));
    assert!(!is_valid_timestamp("2022-13-27T02:05:29.000Z")); // month 13
    assert!(!is_valid_timestamp("2022-00-27T02:05:29.000Z")); // month 0
    assert!(!is_valid_timestamp("2022-08-32T02:05:29.000Z")); // day 32
    assert!(!is_valid_timestamp("2022-08-27T24:05:29.000Z")); // hour 24
    assert!(!is_valid_timestamp("2022-08-27T02:60:29.000Z")); // minute 60
    assert!(!is_valid_timestamp("2022-08-27T02:05:60.000Z")); // second 60
    assert!(!is_valid_timestamp("2022-08-27 02:05:29.000Z")); // wrong separator
    assert!(!is_valid_timestamp("2022-08-27T02:05:2x.000Z")); // non-digit
}

#[test]
fn lexical_order_is_chronological_on_timestamps() {
    let a = "2022-08-27T02:05:29.000Z";
    let b = "2022-08-27T02:05:29.001Z";
    let c = "2023-01-01T00:00:00.000Z";
    assert!(str_lt(a, b));
    assert!(str_lt(b, c));
    assert!(str_le(a, a));
    assert!(!str_lt(a, a));
    assert!(!str_le(c, a));
    assert!(str_eq(a, a));
    assert!(!str_eq(a, b));
}

#[test]
fn create_and_list_users() {
    let mut store = Store::new();
    let mut ids = Ids::new();
    store.create_user(&mut ids, "alice").unwrap();
    store.create_user(&mut ids, "bob").unwrap();
    let users = store.get_users();
    assert_eq!(users.len(), 2);
    assert_eq!(users[0].id, 0);
    assert_eq!(users[0].name, "alice");
    assert_eq!(users[1].id, 1);
    assert_eq!(users[1].name, "bob");
    assert_eq!(store.get_user_id("bob"), Some(1));
    assert_eq!(store.get_user_id("carol"), None);
    assert!(store.user_exists("alice"));
    assert!(!store.user_exists("carol"));
}

#[test]
fn rename_user_rules() {
    let mut store = Store::new();
    let mut ids = Ids::new();
    store.create_user(&mut ids, "alice").unwrap();
    store.create_user(&mut ids, "bob").unwrap();
    // renaming to a taken name is rejected
    assert_eq!(store.update_user(1, "alice").unwrap_err(), ErrorKind::InvalidArgument);
    // renaming a missing user is not found
    assert_eq!(store.update_user(7, "carol").unwrap_err(), ErrorKind::NotFound);
    // renaming to one's own name succeeds and changes nothing
    let same = store.update_user(0, "alice").unwrap();
    assert_eq!(same.name, "alice");
    // a proper rename sticks
    let renamed = store.update_user(1, "bobby").unwrap();
    assert_eq!(renamed.id, 1);
    assert_eq!(renamed.name, "bobby");
    assert_eq!(store.get_user(1).unwrap().name, "bobby");
}

#[test]
fn post_user_dispatches_on_id() {
    let mut store = Store::new();
    let mut ids = Ids::new();
    let created = store
        .post_user(&mut ids, PostUser { id: None, name: String::from("alice") })
        .unwrap();
    assert_eq!(created.id, 0);
    let renamed = store
        .post_user(&mut ids, PostUser { id: Some(0), name: String::from("alicia") })
        .unwrap();
    assert_eq!(renamed.name, "alicia");
}

fn catalog() -> judge_core::model::Catalog {
    judge_core::model::Catalog {
        languages: vec![String::from("Rust")],
        problem_ids: vec![0, 1],
    }
}

fn contest_body(id: Option<u32>, users: Vec<u32>, limit: u32) -> PostContest {
    PostContest {
        id,
        name: String::from("weekly"),
        from: String::from("2022-01-01T00:00:00.000Z"),
        to: String::from("2022-12-31T23:59:59.000Z"),
        problem_ids: vec![0, 1],
        user_ids: users,
        submission_limit: limit,
    }
}

#[test]
fn contest_creation_checks_references() {
    let mut store = Store::new();
    let mut ids = Ids::new();
    let cat = catalog();
    store.create_user(&mut ids, "alice").unwrap();
    // unknown problem
    let mut bad = contest_body(None, vec![0], 0);
    bad.problem_ids = vec![9];
    assert_eq!(store.post_contest(&mut ids, &cat, bad).unwrap_err(), ErrorKind::NotFound);
    // unknown user
    let bad2 = contest_body(None, vec![9], 0);
    assert_eq!(store.post_contest(&mut ids, &cat, bad2).unwrap_err(), ErrorKind::NotFound);
    // contest 0 is immutable
    let bad3 = contest_body(Some(0), vec![0], 0);
    assert_eq!(store.post_contest(&mut ids, &cat, bad3).unwrap_err(), ErrorKind::InvalidArgument);
    // updating a missing contest is not found
    let bad4 = contest_body(Some(5), vec![0], 0);
    assert_eq!(store.post_contest(&mut ids, &cat, bad4).unwrap_err(), ErrorKind::NotFound);
    // creating consumes contest ids starting at 1
    let c = store.post_contest(&mut ids, &cat, contest_body(None, vec![0], 0)).unwrap();
    assert_eq!(c.id, 1);
    assert!(store.contest_exists(1));
    assert!(!store.contest_exists(2));
    // update replaces the mutable fields wholesale
    let mut upd = contest_body(Some(1), vec![0], 3);
    upd.name = String::from("renamed");
    let c2 = store.post_contest(&mut ids, &cat, upd).unwrap();
    assert_eq!(c2.id, 1);
    assert_eq!(c2.name, "renamed");
    assert_eq!(c2.submission_limit, 3);
    let got = store.get_contest_by_id(1).unwrap();
    assert_eq!(got.name, "renamed");
    assert_eq!(store.get_contests().len(), 1);
}

#[test]
fn rank_filter_defaults() {
    let f = RankFilter::from_options(SerdeRankFilter { scoring_rule: None, tie_breaker: None });
    assert_eq!(f.scoring_rule, ScoringRule::highest);
    assert_eq!(f.tie_breaker, TieBreaker::none);
    let g = RankFilter::from_options(SerdeRankFilter {
        scoring_rule: Some(ScoringRule::latest),
        tie_breaker: Some(TieBreaker::user_id),
    });
    assert_eq!(g.scoring_rule, ScoringRule::latest);
    assert_eq!(g.tie_breaker, TieBreaker::user_id);
}

#[test]
fn reject_kinds_map_to_error_taxonomy() {
    assert_eq!(Reject::LanguageNotFound.kind(), ErrorKind::NotFound);
    assert_eq!(Reject::ProblemNotFound.kind(), ErrorKind::NotFound);
    assert_eq!(Reject::UserNotFound.kind(), ErrorKind::NotFound);
    assert_eq!(Reject::ContestNotFound.kind(), ErrorKind::NotFound);
    assert_eq!(Reject::UserNotInContest.kind(), ErrorKind::InvalidArgument);
    assert_eq!(Reject::ProblemNotInContest.kind(), ErrorKind::InvalidArgument);
    assert_eq!(Reject::TooManySubmissions.kind(), ErrorKind::RateLimit);
    assert_eq!(Reject::ContestNotStarted.kind(), ErrorKind::InvalidArgument);
    assert_eq!(Reject::ContestEnded.kind(), ErrorKind::InvalidArgument);
}
