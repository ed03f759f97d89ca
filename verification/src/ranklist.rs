use vstd::prelude::*;
use vstd::pervasive::unreached;
use crate::error::ErrorKind;
use crate::model::{
    Contest, ContestV, Job, JobState, JobV, RankEntry, RankEntryV, RankFilter, ScoringRule,
    TieBreaker, UserV,
};
use crate::store::{
    contest_refs_ok, contest_with_id, has_contest, has_user_id, user_with_id, Store,
};
use crate::timestamp::{lemma_lex_le_refl, lemma_lex_le_total, lemma_lex_le_trans, lex_le, lex_lt, str_le, str_lt};

verus! {

broadcast use vstd::seq_lib::group_to_multiset_ensures;

/// The ranklist engine: aggregates the finished jobs of a contest into one
/// ordered ranking under a scoring rule and a tie-breaker.

/// A finished job of this user, problem and contest.
pub open spec fn finished_match(j: JobV, u: u32, p: u32, c: u32) -> bool {
    j.user_id == u && j.problem_id == p && j.contest_id == c && j.state == JobState::Finished
}

/// The score a job carries (0 while unfinished).
pub open spec fn score_of(j: JobV) -> u32 {
    match j.result {
        Some(o) => o.score,
        None => 0,
    }
}

/// Whether a candidate displaces the best job seen so far (jobs are scanned
/// ascending by id): under `highest` a strictly better score wins, and an
/// equal score wins only if strictly earlier; under `latest` any submission
/// at the same time or later wins.
pub open spec fn replaces(rule: ScoringRule, cand: JobV, best: JobV) -> bool {
    match rule {
        ScoringRule::highest => score_of(cand) > score_of(best) || (score_of(cand) == score_of(
            best,
        ) && lex_lt(cand.submission_time, best.submission_time)),
        ScoringRule::latest => lex_le(best.submission_time, cand.submission_time),
    }
}

/// The representative submission of a user/problem pair under a scoring
/// rule: the fold of `replaces` over the finished matching jobs in id order.
pub open spec fn representative(
    rule: ScoringRule,
    jobs: Seq<JobV>,
    u: u32,
    p: u32,
    c: u32,
) -> Option<JobV>
    decreases jobs.len(),
{
    if jobs.len() == 0 {
        None
    } else {
        let prev = representative(rule, jobs.drop_last(), u, p, c);
        let j = jobs.last();
        if !finished_match(j, u, p, c) {
            prev
        } else {
            match prev {
                None => Some(j),
                Some(b) => if replaces(rule, j, b) {
                    Some(j)
                } else {
                    Some(b)
                },
            }
        }
    }
}

/// LAW: under `highest`, the representative of a user/problem pair is one of
/// its finished matching jobs, no matching job scores more, and among the
/// jobs that reach its score it is the chronologically earliest. If the pair
/// has no finished job there is no representative.
pub proof fn lemma_highest_representative(jobs: Seq<JobV>, u: u32, p: u32, c: u32)
    ensures
        match representative(ScoringRule::highest, jobs, u, p, c) {
            Some(r) => {
                &&& exists|k: int| 0 <= k < jobs.len() && #[trigger] jobs[k] == r
                &&& finished_match(r, u, p, c)
                &&& forall|k: int|
                    0 <= k < jobs.len() && finished_match(#[trigger] jobs[k], u, p, c)
                        ==> score_of(jobs[k]) <= score_of(r)
                &&& forall|k: int|
                    0 <= k < jobs.len() && finished_match(#[trigger] jobs[k], u, p, c) && score_of(
                        jobs[k],
                    ) == score_of(r) ==> lex_le(r.submission_time, jobs[k].submission_time)
            },
            None => forall|k: int|
                0 <= k < jobs.len() ==> !finished_match(#[trigger] jobs[k], u, p, c),
        },
    decreases jobs.len(),
{
    if jobs.len() > 0 {
        lemma_highest_representative(jobs.drop_last(), u, p, c);
        let j = jobs.last();
        let prev = representative(ScoringRule::highest, jobs.drop_last(), u, p, c);
        assert(forall|k: int| 0 <= k < jobs.len() - 1 ==> jobs[k] == jobs.drop_last()[k]);
        match representative(ScoringRule::highest, jobs, u, p, c) {
            Some(r) => {
                lemma_lex_le_refl(r.submission_time);
                if finished_match(j, u, p, c) {
                    match prev {
                        None => {
                            assert(jobs[jobs.len() - 1] == r);
                        },
                        Some(b) => {
                            if replaces(ScoringRule::highest, j, b) {
                                assert(jobs[jobs.len() - 1] == r);
                                if score_of(j) == score_of(b) {
                                    lemma_lex_le_total(j.submission_time, b.submission_time);
                                    assert forall|k: int|
                                        0 <= k < jobs.len() && finished_match(
                                            #[trigger] jobs[k],
                                            u,
                                            p,
                                            c,
                                        ) && score_of(jobs[k]) == score_of(r) implies lex_le(
                                        r.submission_time,
                                        jobs[k].submission_time,
                                    ) by {
                                        if k < jobs.len() - 1 {
                                            lemma_lex_le_trans(
                                                r.submission_time,
                                                b.submission_time,
                                                jobs[k].submission_time,
                                            );
                                        }
                                    }
                                }
                            } else {
                                let ghost bk = choose|k: int|
                                    0 <= k < jobs.drop_last().len() && #[trigger] jobs.drop_last()[k]
                                        == b;
                                assert(jobs[bk] == b);
                                if score_of(j) == score_of(b) {
                                    // not strictly earlier, so the kept best is no later
                                    assert(lex_le(b.submission_time, j.submission_time));
                                }
                            }
                        },
                    }
                } else {
                    let ghost bk = choose|k: int|
                        0 <= k < jobs.drop_last().len() && #[trigger] jobs.drop_last()[k] == r;
                    assert(jobs[bk] == r);
                }
            },
            None => {},
        }
    }
}

/// LAW: under `latest`, the representative of a user/problem pair is one of
/// its finished matching jobs and no matching job was submitted later —
/// whatever the scores are. If the pair has no finished job there is no
/// representative.
pub proof fn lemma_latest_representative(jobs: Seq<JobV>, u: u32, p: u32, c: u32)
    ensures
        match representative(ScoringRule::latest, jobs, u, p, c) {
            Some(r) => {
                &&& exists|k: int| 0 <= k < jobs.len() && #[trigger] jobs[k] == r
                &&& finished_match(r, u, p, c)
                &&& forall|k: int|
                    0 <= k < jobs.len() && finished_match(#[trigger] jobs[k], u, p, c) ==> lex_le(
                        jobs[k].submission_time,
                        r.submission_time,
                    )
            },
            None => forall|k: int|
                0 <= k < jobs.len() ==> !finished_match(#[trigger] jobs[k], u, p, c),
        },
    decreases jobs.len(),
{
    if jobs.len() > 0 {
        lemma_latest_representative(jobs.drop_last(), u, p, c);
        let j = jobs.last();
        let prev = representative(ScoringRule::latest, jobs.drop_last(), u, p, c);
        assert(forall|k: int| 0 <= k < jobs.len() - 1 ==> jobs[k] == jobs.drop_last()[k]);
        match representative(ScoringRule::latest, jobs, u, p, c) {
            Some(r) => {
                lemma_lex_le_refl(r.submission_time);
                if finished_match(j, u, p, c) {
                    match prev {
                        None => {
                            assert(jobs[jobs.len() - 1] == r);
                        },
                        Some(b) => {
                            if replaces(ScoringRule::latest, j, b) {
                                assert(jobs[jobs.len() - 1] == r);
                                assert forall|k: int|
                                    0 <= k < jobs.len() && finished_match(
                                        #[trigger] jobs[k],
                                        u,
                                        p,
                                        c,
                                    ) implies lex_le(jobs[k].submission_time, r.submission_time) by {
                                    if k < jobs.len() - 1 {
                                        lemma_lex_le_trans(
                                            jobs[k].submission_time,
                                            b.submission_time,
                                            r.submission_time,
                                        );
                                    }
                                }
                            } else {
                                let ghost bk = choose|k: int|
                                    0 <= k < jobs.drop_last().len() && #[trigger] jobs.drop_last()[k]
                                        == b;
                                assert(jobs[bk] == b);
                                lemma_lex_le_total(b.submission_time, j.submission_time);
                            }
                        },
                    }
                } else {
                    let ghost bk = choose|k: int|
                        0 <= k < jobs.drop_last().len() && #[trigger] jobs.drop_last()[k] == r;
                    assert(jobs[bk] == r);
                }
            },
            None => {},
        }
    }
}

/// The score attributed to a user/problem pair: the representative's score,
/// or 0 when the pair has no finished submission.
pub open spec fn rep_score(rule: ScoringRule, jobs: Seq<JobV>, u: u32, p: u32, c: u32) -> u32 {
    match representative(rule, jobs, u, p, c) {
        Some(r) => score_of(r),
        None => 0,
    }
}

/// The submission time of the representative, if any.
pub open spec fn rep_time(rule: ScoringRule, jobs: Seq<JobV>, u: u32, p: u32, c: u32) -> Option<
    Seq<char>,
> {
    match representative(rule, jobs, u, p, c) {
        Some(r) => Some(r.submission_time),
        None => None,
    }
}

/// A user's per-problem scores, in the contest's problem order.
pub open spec fn scores_row(
    rule: ScoringRule,
    jobs: Seq<JobV>,
    problems: Seq<u32>,
    u: u32,
    c: u32,
) -> Seq<u32> {
    Seq::new(problems.len(), |i: int| rep_score(rule, jobs, u, problems[i], c))
}

pub open spec fn sum_of(s: Seq<u32>) -> int
    decreases s.len(),
{
    if s.len() == 0 {
        0
    } else {
        sum_of(s.drop_last()) + s.last()
    }
}

pub proof fn lemma_sum_bounds(s: Seq<u32>)
    ensures
        0 <= sum_of(s) <= s.len() * (u32::MAX as int),
    decreases s.len(),
{
    if s.len() > 0 {
        lemma_sum_bounds(s.drop_last());
    }
}

/// The lexically earlier of two optional timestamps (an absent one loses).
pub open spec fn min_time(a: Option<Seq<char>>, b: Option<Seq<char>>) -> Option<Seq<char>> {
    match a {
        None => b,
        Some(x) => match b {
            None => Some(x),
            Some(y) => if lex_lt(y, x) {
                Some(y)
            } else {
                Some(x)
            },
        },
    }
}

/// The earliest representative time among a user's problems: the time of the
/// submission that achieved the user's total.
pub open spec fn earliest_rep_time(
    rule: ScoringRule,
    jobs: Seq<JobV>,
    problems: Seq<u32>,
    u: u32,
    c: u32,
) -> Option<Seq<char>>
    decreases problems.len(),
{
    if problems.len() == 0 {
        None
    } else {
        min_time(
            earliest_rep_time(rule, jobs, problems.drop_last(), u, c),
            rep_time(rule, jobs, u, problems.last(), c),
        )
    }
}

/// How many submissions (in any state) a user made to a contest.
pub open spec fn count_user_contest(jobs: Seq<JobV>, u: u32, c: u32) -> int
    decreases jobs.len(),
{
    if jobs.len() == 0 {
        0
    } else {
        count_user_contest(jobs.drop_last(), u, c) + if jobs.last().user_id == u
            && jobs.last().contest_id == c {
            1int
        } else {
            0int
        }
    }
}

pub proof fn lemma_count_user_contest_bounds(jobs: Seq<JobV>, u: u32, c: u32)
    ensures
        0 <= count_user_contest(jobs, u, c) <= jobs.len(),
    decreases jobs.len(),
{
    if jobs.len() > 0 {
        lemma_count_user_contest_bounds(jobs.drop_last(), u, c);
    }
}

/// One ranklist row while it is being ordered: the published entry plus the
/// keys the tie-breakers read and the user's declaration index in
/// `contest.user_ids`.
pub struct RankRow {
    pub entry: RankEntry,
    pub rep_time: Option<String>,
    pub sub_count: u64,
    pub position: usize,
}

pub struct RankRowV {
    pub entry: RankEntryV,
    pub rep_time: Option<Seq<char>>,
    pub sub_count: u64,
    pub position: int,
}

impl View for RankRow {
    type V = RankRowV;

    open spec fn view(&self) -> RankRowV {
        RankRowV {
            entry: self.entry@,
            rep_time: match self.rep_time {
                Some(ref t) => Some(t@),
                None => None,
            },
            sub_count: self.sub_count,
            position: self.position as int,
        }
    }
}

/// The row the ranklist owes the user declared at index `k` of the contest.
pub open spec fn spec_row(
    rule: ScoringRule,
    jobs: Seq<JobV>,
    users: Seq<UserV>,
    c: ContestV,
    k: int,
) -> RankRowV {
    let u = c.user_ids[k];
    RankRowV {
        entry: RankEntryV {
            user_id: u,
            user_name: user_with_id(users, u).name,
            scores: scores_row(rule, jobs, c.problem_ids, u, c.id),
            total_score: sum_of(scores_row(rule, jobs, c.problem_ids, u, c.id)) as u64,
        },
        rep_time: earliest_rep_time(rule, jobs, c.problem_ids, u, c.id),
        sub_count: count_user_contest(jobs, u, c.id) as u64,
        position: k,
    }
}

/// Order on optional representative times at equal totals: earlier time
/// first, a user without one last, declaration order among exact ties.
pub open spec fn time_key_le(
    a: Option<Seq<char>>,
    b: Option<Seq<char>>,
    pa: int,
    pb: int,
) -> bool {
    match a {
        Some(x) => match b {
            Some(y) => lex_lt(x, y) || (lex_le(x, y) && pa <= pb),
            None => true,
        },
        None => match b {
            Some(_) => false,
            None => pa <= pb,
        },
    }
}

/// The total order the ranklist is sorted by: total score descending, then
/// the chosen tie-breaker ascending, with the declaration index as the last
/// resort — which makes the order total and ties stable by construction.
pub open spec fn row_le(tb: TieBreaker, a: RankRowV, b: RankRowV) -> bool {
    if a.entry.total_score != b.entry.total_score {
        a.entry.total_score > b.entry.total_score
    } else {
        match tb {
            TieBreaker::submission_time => time_key_le(
                a.rep_time,
                b.rep_time,
                a.position,
                b.position,
            ),
            TieBreaker::submission_count => a.sub_count < b.sub_count || (a.sub_count
                == b.sub_count && a.position <= b.position),
            TieBreaker::user_id => a.entry.user_id < b.entry.user_id || (a.entry.user_id
                == b.entry.user_id && a.position <= b.position),
            TieBreaker::none => a.position <= b.position,
        }
    }
}

/// LAW: the row order is total.
pub proof fn lemma_row_le_total(tb: TieBreaker, a: RankRowV, b: RankRowV)
    ensures
        row_le(tb, a, b) || row_le(tb, b, a),
{
    match a.rep_time {
        Some(x) => match b.rep_time {
            Some(y) => {
                lemma_lex_le_total(x, y);
            },
            None => {},
        },
        None => {},
    }
}

/// LAW: the row order is transitive.
pub proof fn lemma_row_le_trans(tb: TieBreaker, a: RankRowV, b: RankRowV, c: RankRowV)
    requires
        row_le(tb, a, b),
        row_le(tb, b, c),
    ensures
        row_le(tb, a, c),
{
    if a.entry.total_score == b.entry.total_score && b.entry.total_score == c.entry.total_score {
        match (a.rep_time, b.rep_time, c.rep_time) {
            (Some(x), Some(y), Some(z)) => {
                lemma_lex_le_total(x, y);
                lemma_lex_le_total(y, z);
                lemma_lex_le_total(x, z);
                if lex_le(x, y) && lex_le(y, z) {
                    lemma_lex_le_trans(x, y, z);
                }
                if lex_le(y, z) && lex_le(z, x) {
                    lemma_lex_le_trans(y, z, x);
                }
                if lex_le(z, x) && lex_le(x, y) {
                    lemma_lex_le_trans(z, x, y);
                }
            },
            _ => {},
        }
    }
}

/// Sortedness of a row sequence under the row order.
pub open spec fn sorted_rows(tb: TieBreaker, s: Seq<RankRowV>) -> bool {
    forall|i: int, j: int| 0 <= i < j < s.len() ==> row_le(tb, #[trigger] s[i], #[trigger] s[j])
}

/// LAW: with tie-breaker `none`, users tied at the same total keep the
/// contest's declaration order: in a sorted row sequence, of two rows with
/// equal totals the one with the lower declaration index comes first.
pub proof fn lemma_none_preserves_declaration_order(s: Seq<RankRowV>, i: int, j: int)
    requires
        sorted_rows(TieBreaker::none, s),
        0 <= i < j < s.len(),
        s[i].entry.total_score == s[j].entry.total_score,
    ensures
        s[i].position <= s[j].position,
{
}

fn score_exec(j: &Job) -> (s: u32)
    ensures
        s == score_of(j@),
{
    match &j.result {
        Some(o) => o.score,
        None => 0,
    }
}

fn replaces_exec(rule: ScoringRule, cand: &Job, best: &Job) -> (r: bool)
    ensures
        r == replaces(rule, cand@, best@),
{
    match rule {
        ScoringRule::highest => {
            let sc = score_exec(cand);
            let sb = score_exec(best);
            sc > sb || (sc == sb && str_lt(
                cand.submission_time.as_str(),
                best.submission_time.as_str(),
            ))
        },
        ScoringRule::latest => str_le(
            best.submission_time.as_str(),
            cand.submission_time.as_str(),
        ),
    }
}

/// Scan the jobs for the representative of a user/problem pair; returns its
/// index in the job table.
pub fn representative_index(jobs: &Vec<Job>, rule: ScoringRule, u: u32, p: u32, c: u32) -> (r:
    Option<usize>)
    ensures
        ({
            let jv = jobs@.map_values(|j: Job| j@);
            match r {
                Some(ix) => ix < jobs@.len() && representative(rule, jv, u, p, c) == Some(
                    jv[ix as int],
                ),
                None => representative(rule, jv, u, p, c) is None,
            }
        }),
{
    let ghost jv = jobs@.map_values(|j: Job| j@);
    let n = jobs.len();
    let mut best: Option<usize> = None;
    let mut i: usize = 0;
    while i < n
        invariant
            i <= n,
            n == jv.len(),
            jv == jobs@.map_values(|j: Job| j@),
            match best {
                Some(b) => b < i && representative(rule, jv.take(i as int), u, p, c) == Some(
                    jv[b as int],
                ),
                None => representative(rule, jv.take(i as int), u, p, c) is None,
            },
        decreases n - i,
    {
        proof {
            assert(jv[i as int] == jobs[i as int]@);
            assert(jv.take(i + 1).drop_last() =~= jv.take(i as int));
            assert(jv.take(i + 1).last() == jv[i as int]);
        }
        let j = &jobs[i];
        let is_match = j.user_id == u && j.problem_id == p && j.contest_id == c && j.state
            == JobState::Finished;
        if is_match {
            match best {
                None => {
                    best = Some(i);
                },
                Some(b) => {
                    if replaces_exec(rule, &jobs[i], &jobs[b]) {
                        best = Some(i);
                    }
                },
            }
        }
        i = i + 1;
    }
    proof {
        assert(jv.take(n as int) =~= jv);
    }
    best
}

/// Count every submission a user made to a contest, in any state.
pub fn count_user_jobs(jobs: &Vec<Job>, u: u32, c: u32) -> (r: u64)
    ensures
        r == count_user_contest(jobs@.map_values(|j: Job| j@), u, c),
{
    let ghost jv = jobs@.map_values(|j: Job| j@);
    let n = jobs.len();
    let mut cnt: u64 = 0;
    let mut i: usize = 0;
    while i < n
        invariant
            i <= n,
            n == jv.len(),
            jv == jobs@.map_values(|j: Job| j@),
            cnt == count_user_contest(jv.take(i as int), u, c),
            cnt <= i,
        decreases n - i,
    {
        proof {
            assert(jv[i as int] == jobs[i as int]@);
            assert(jv.take(i + 1).drop_last() =~= jv.take(i as int));
            assert(jv.take(i + 1).last() == jv[i as int]);
            lemma_count_user_contest_bounds(jv.take(i as int), u, c);
        }
        let j = &jobs[i];
        if j.user_id == u && j.contest_id == c {
            cnt = cnt + 1;
        }
        i = i + 1;
    }
    proof {
        assert(jv.take(n as int) =~= jv);
    }
    cnt
}

fn row_le_exec(tb: TieBreaker, a: &RankRow, b: &RankRow) -> (r: bool)
    ensures
        r == row_le(tb, a@, b@),
{
    if a.entry.total_score != b.entry.total_score {
        return a.entry.total_score > b.entry.total_score;
    }
    match tb {
        TieBreaker::submission_time => {
            match (&a.rep_time, &b.rep_time) {
                (Some(x), Some(y)) => str_lt(x.as_str(), y.as_str()) || (str_le(
                    x.as_str(),
                    y.as_str(),
                ) && a.position <= b.position),
                (Some(_), None) => true,
                (None, Some(_)) => false,
                (None, None) => a.position <= b.position,
            }
        },
        TieBreaker::submission_count => a.sub_count < b.sub_count || (a.sub_count == b.sub_count
            && a.position <= b.position),
        TieBreaker::user_id => a.entry.user_id < b.entry.user_id || (a.entry.user_id
            == b.entry.user_id && a.position <= b.position),
        TieBreaker::none => a.position <= b.position,
    }
}

/// Sort the rows by the row order: insertion sort, stable by construction
/// since the order is total on the rows' distinct declaration indexes.
fn sort_rows(tb: TieBreaker, v: &mut Vec<RankRow>)
    ensures
        final(v)@.len() == old(v)@.len(),
        sorted_rows(tb, final(v)@.map_values(|r: RankRow| r@)),
        final(v)@.map_values(|r: RankRow| r@).to_multiset() == old(v)@.map_values(
            |r: RankRow| r@,
        ).to_multiset(),
{
    let ghost m0 = old(v)@.map_values(|r: RankRow| r@);
    let n = v.len();
    if n < 2 {
        return ;
    }
    let mut i: usize = 1;
    while i < n
        invariant
            1 <= i <= n,
            n == v@.len(),
            m0 == old(v)@.map_values(|r: RankRow| r@),
            v@.map_values(|r: RankRow| r@).to_multiset() == m0.to_multiset(),
            forall|k: int, l: int|
                0 <= k < l < i ==> row_le(tb, #[trigger] v@[k]@, #[trigger] v@[l]@),
        decreases n - i,
    {
        let mut j: usize = i;
        while j > 0 && !row_le_exec(tb, &v[j - 1], &v[j])
            invariant
                0 <= j <= i < n,
                n == v@.len(),
                m0 == old(v)@.map_values(|r: RankRow| r@),
                v@.map_values(|r: RankRow| r@).to_multiset() == m0.to_multiset(),
                forall|k: int, l: int|
                    0 <= k < l <= i && l != j ==> row_le(tb, #[trigger] v@[k]@, #[trigger] v@[l]@),
            decreases j,
        {
            let ghost s0 = v@;
            proof {
                lemma_row_le_total(tb, s0[j - 1]@, s0[j as int]@);
            }
            let x = v.remove(j);
            v.insert(j - 1, x);
            proof {
                let s1 = v@;
                assert(s1 =~= s0.update(j - 1, s0[j as int]).update(j as int, s0[j - 1]));
                let f = |r: RankRow| r@;
                assert(s1.map_values(f) =~= s0.map_values(f).remove(j as int).insert(
                    j - 1,
                    s0.map_values(f)[j as int],
                ));
                assert(s0.map_values(f).remove(j as int).to_multiset() == s0.map_values(
                    f,
                ).to_multiset().remove(s0.map_values(f)[j as int]));
                assert(s0.map_values(f).to_multiset().count(s0.map_values(f)[j as int]) >= 1);
                assert(s1.map_values(f).to_multiset() =~= s0.map_values(f).to_multiset());
                assert forall|k: int, l: int|
                    0 <= k < l <= i && l != j - 1 implies row_le(
                    tb,
                    #[trigger] s1[k]@,
                    #[trigger] s1[l]@,
                ) by {}
            }
            j = j - 1;
        }
        proof {
            assert forall|k: int, l: int| 0 <= k < l <= i implies row_le(
                tb,
                #[trigger] v@[k]@,
                #[trigger] v@[l]@,
            ) by {
                if l == j && k < l {
                    if k < j - 1 {
                        lemma_row_le_trans(tb, v@[k]@, v@[j - 1]@, v@[j as int]@);
                    }
                }
            }
        }
        i = i + 1;
    }
    proof {
        let f = |r: RankRow| r@;
        assert forall|k: int, l: int|
            0 <= k < l < v@.map_values(f).len() implies row_le(
            tb,
            #[trigger] v@.map_values(f)[k],
            #[trigger] v@.map_values(f)[l],
        ) by {
            assert(row_le(tb, v@[k]@, v@[l]@));
        }
    }
}

/// Build the ranklist row owed to the user declared at index `k` of the
/// contest.
fn build_row(store: &Store, rule: ScoringRule, contest: &Contest, k: usize) -> (row: RankRow)
    requires
        store.wf(),
        contest_refs_ok(contest@, store@.users),
        k < contest@.user_ids.len(),
    ensures
        row@ == spec_row(rule, store@.jobs, store@.users, contest@, k as int),
{
    let u = contest.user_ids[k];
    proof {
        assert(has_user_id(store@.users, contest@.user_ids[k as int]));
    }
    let name = match store.get_user(u) {
        Some(us) => us.name,
        None => unreached(),
    };
    let cid = contest.id;
    let pn = contest.problem_ids.len();
    let mut scores: Vec<u32> = Vec::new();
    let mut total: u64 = 0;
    let mut earliest: Option<String> = None;
    let mut i: usize = 0;
    while i < pn
        invariant
            store.wf(),
            pn == contest@.problem_ids.len(),
            pn <= u32::MAX,
            cid == contest@.id,
            i <= pn,
            scores@.len() == i,
            forall|t: int|
                0 <= t < i ==> scores@[t] == rep_score(
                    rule,
                    store@.jobs,
                    u,
                    #[trigger] contest@.problem_ids[t],
                    cid,
                ),
            total == sum_of(scores@),
            total <= i * (u32::MAX as int),
            (match earliest {
                Some(ref e) => Some(e@),
                None => None::<Seq<char>>,
            }) == earliest_rep_time(rule, store@.jobs, contest@.problem_ids.take(i as int), u, cid),
        decreases pn - i,
    {
        proof {
            assert(contest@.problem_ids.take(i + 1).drop_last() =~= contest@.problem_ids.take(
                i as int,
            ));
            assert(contest@.problem_ids.take(i + 1).last() == contest@.problem_ids[i as int]);
        }
        let p = contest.problem_ids[i];
        let rep = representative_index(&store.jobs, rule, u, p, cid);
        let sc: u32 = match rep {
            Some(ix) => score_exec(&store.jobs[ix]),
            None => 0,
        };
        proof {
            assert(sc == rep_score(rule, store@.jobs, u, p, cid));
            assert(scores@.push(sc).drop_last() =~= scores@);
        }
        scores.push(sc);
        total = total + sc as u64;
        match rep {
            Some(ix) => {
                let t = &store.jobs[ix].submission_time;
                let take_new = match &earliest {
                    None => true,
                    Some(e) => str_lt(t.as_str(), e.as_str()),
                };
                if take_new {
                    let t2 = t.clone();
                    earliest = Some(t2);
                }
            },
            None => {},
        }
        i = i + 1;
    }
    let cnt = count_user_jobs(&store.jobs, u, cid);
    proof {
        assert(contest@.problem_ids.take(pn as int) =~= contest@.problem_ids);
        assert(scores@ =~= scores_row(rule, store@.jobs, contest@.problem_ids, u, cid));
        lemma_sum_bounds(scores@);
        lemma_count_user_contest_bounds(store@.jobs, u, cid);
    }
    RankRow {
        entry: RankEntry { user_id: u, user_name: name, scores, total_score: total },
        rep_time: earliest,
        sub_count: cnt,
        position: k,
    }
}

/// Compute the ranklist of a contest: one row per declared user, ordered by
/// total score descending with the chosen tie-breaker, the contest's
/// declaration order deciding what remains tied. The result is a sorted
/// rearrangement of exactly the rows owed to the declared users.
pub fn get_ranklist(store: &Store, contest_id: u32, filter: RankFilter) -> (r: Result<
    Vec<RankEntry>,
    ErrorKind,
>)
    requires
        store.wf(),
    ensures
        match r {
            Err(k) => k == ErrorKind::NotFound && !has_contest(store@.contests, contest_id),
            Ok(entries) => has_contest(store@.contests, contest_id) && ({
                let c = contest_with_id(store@.contests, contest_id);
                let base = Seq::new(
                    c.user_ids.len(),
                    |k: int| spec_row(filter.scoring_rule, store@.jobs, store@.users, c, k),
                );
                exists|rows: Seq<RankRowV>|
                    {
                        &&& #[trigger] rows.to_multiset() == base.to_multiset()
                        &&& sorted_rows(filter.tie_breaker, rows)
                        &&& entries@.map_values(|e: RankEntry| e@) == rows.map_values(
                            |row: RankRowV| row.entry,
                        )
                    }
            }),
        },
{
    let contest = match store.get_contest_by_id(contest_id) {
        None => {
            return Err(ErrorKind::NotFound);
        },
        Some(c) => c,
    };
    proof {
        let k = choose|k: int|
            0 <= k < store@.contests.len() && (#[trigger] store@.contests[k]).id == contest_id;
        assert(contest_refs_ok(store@.contests[k], store@.users));
    }
    let ghost base = Seq::new(
        contest@.user_ids.len(),
        |k: int| spec_row(filter.scoring_rule, store@.jobs, store@.users, contest@, k),
    );
    let m = contest.user_ids.len();
    let mut rows: Vec<RankRow> = Vec::new();
    let mut k: usize = 0;
    while k < m
        invariant
            store.wf(),
            contest_refs_ok(contest@, store@.users),
            m == contest@.user_ids.len(),
            base == Seq::new(
                contest@.user_ids.len(),
                |t: int| spec_row(filter.scoring_rule, store@.jobs, store@.users, contest@, t),
            ),
            k <= m,
            rows@.len() == k,
            forall|t: int| 0 <= t < k ==> (#[trigger] rows@[t])@ == base[t],
        decreases m - k,
    {
        let row = build_row(store, filter.scoring_rule, &contest, k);
        rows.push(row);
        k = k + 1;
    }
    proof {
        assert(rows@.map_values(|r2: RankRow| r2@) =~= base);
    }
    sort_rows(filter.tie_breaker, &mut rows);
    let ghost sorted = rows@.map_values(|r2: RankRow| r2@);
    let n = rows.len();
    let mut entries: Vec<RankEntry> = Vec::new();
    let mut t: usize = 0;
    while t < n
        invariant
            t <= n,
            n == rows@.len(),
            sorted == rows@.map_values(|r2: RankRow| r2@),
            entries@.len() == t,
            forall|s: int| 0 <= s < t ==> (#[trigger] entries@[s])@ == sorted[s].entry,
        decreases n - t,
    {
        proof {
            assert(sorted[t as int] == rows@[t as int]@);
        }
        entries.push(rows[t].entry.clone());
        t = t + 1;
    }
    proof {
        assert(entries@.map_values(|e: RankEntry| e@) =~= sorted.map_values(
            |row: RankRowV| row.entry,
        ));
    }
    Ok(entries)
}

} // verus!
