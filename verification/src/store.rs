use vstd::prelude::*;
use vstd::pervasive::VecAdditionalExecFns;
use vstd::string::StringExecFns;
use crate::error::ErrorKind;
use crate::ids::Ids;
use crate::model::{Catalog, CatalogV, Contest, ContestV, Job, JobState, JobV, PostContest, PostUser, SerdeUser, UserV};
use crate::timestamp::str_eq;

verus! {

/// The in-memory model of the persisted state: the users, contests and jobs
/// tables, each ordered ascending by their allocator-issued id. The data
/// store proper is an external collaborator; this model is what the rules of
/// the service are verified against.
pub struct Store {
    pub users: Vec<SerdeUser>,
    pub contests: Vec<Contest>,
    pub jobs: Vec<Job>,
}

pub struct StoreV {
    pub users: Seq<UserV>,
    pub contests: Seq<ContestV>,
    pub jobs: Seq<JobV>,
}

impl View for Store {
    type V = StoreV;

    open spec fn view(&self) -> StoreV {
        StoreV {
            users: self.users@.map_values(|u: SerdeUser| u@),
            contests: self.contests@.map_values(|c: Contest| c@),
            jobs: self.jobs@.map_values(|j: Job| j@),
        }
    }
}

/// There is a user with this id.
pub open spec fn has_user_id(users: Seq<UserV>, id: u32) -> bool {
    exists|k: int| 0 <= k < users.len() && (#[trigger] users[k]).id == id
}

/// The user with this id (meaningful only under `has_user_id`).
pub open spec fn user_with_id(users: Seq<UserV>, id: u32) -> UserV {
    users[choose|k: int| 0 <= k < users.len() && (#[trigger] users[k]).id == id]
}

/// There is a user with this name.
pub open spec fn has_user_name(users: Seq<UserV>, name: Seq<char>) -> bool {
    exists|k: int| 0 <= k < users.len() && (#[trigger] users[k]).name == name
}

/// The user with this name (meaningful only under `has_user_name`).
pub open spec fn user_with_name(users: Seq<UserV>, name: Seq<char>) -> UserV {
    users[choose|k: int| 0 <= k < users.len() && (#[trigger] users[k]).name == name]
}

/// There is a contest with this id.
pub open spec fn has_contest(contests: Seq<ContestV>, id: u32) -> bool {
    exists|k: int| 0 <= k < contests.len() && (#[trigger] contests[k]).id == id
}

/// The contest with this id (meaningful only under `has_contest`).
pub open spec fn contest_with_id(contests: Seq<ContestV>, id: u32) -> ContestV {
    contests[choose|k: int| 0 <= k < contests.len() && (#[trigger] contests[k]).id == id]
}

/// There is a job with this id.
pub open spec fn has_job(jobs: Seq<JobV>, id: u32) -> bool {
    exists|k: int| 0 <= k < jobs.len() && (#[trigger] jobs[k]).id == id
}

/// The job with this id (meaningful only under `has_job`).
pub open spec fn job_with_id(jobs: Seq<JobV>, id: u32) -> JobV {
    jobs[choose|k: int| 0 <= k < jobs.len() && (#[trigger] jobs[k]).id == id]
}

/// Users are strictly ordered by id (so ids are unique) and names are unique.
pub open spec fn users_wf(users: Seq<UserV>) -> bool {
    forall|i: int, j: int| #![trigger users[i], users[j]]
        0 <= i < j < users.len() ==> users[i].id < users[j].id && users[i].name != users[j].name
}

/// Every user the contest enrolls exists, and the member lists are small
/// enough that a sum of scores over them fits the machine.
pub open spec fn contest_refs_ok(c: ContestV, users: Seq<UserV>) -> bool {
    &&& c.problem_ids.len() <= u32::MAX
    &&& c.user_ids.len() <= u32::MAX
    &&& forall|k: int| 0 <= k < c.user_ids.len() ==> has_user_id(users, #[trigger] c.user_ids[k])
}

/// Contests are strictly ordered by id and never use the reserved id 0.
pub open spec fn contests_wf(contests: Seq<ContestV>, users: Seq<UserV>) -> bool {
    &&& forall|i: int, j: int| #![trigger contests[i], contests[j]]
        0 <= i < j < contests.len() ==> contests[i].id < contests[j].id
    &&& forall|i: int| 0 <= i < contests.len() ==> (#[trigger] contests[i]).id != 0
    &&& forall|i: int| 0 <= i < contests.len() ==> contest_refs_ok(#[trigger] contests[i], users)
}

/// Jobs are strictly ordered by id, and a job carries a result exactly when
/// it is finished.
pub open spec fn jobs_wf(jobs: Seq<JobV>) -> bool {
    &&& forall|i: int, j: int| #![trigger jobs[i], jobs[j]]
        0 <= i < j < jobs.len() ==> jobs[i].id < jobs[j].id
    &&& forall|i: int| 0 <= i < jobs.len() ==> ((#[trigger] jobs[i]).state == JobState::Finished
        <==> jobs[i].result is Some)
}

/// Ids the allocator has not issued yet name no stored resource.
pub open spec fn consistent(s: StoreV, ids: Ids) -> bool {
    &&& forall|i: int| 0 <= i < s.users.len() ==> (#[trigger] s.users[i]).id < ids.usersid
    &&& forall|i: int| 0 <= i < s.contests.len() ==> (#[trigger] s.contests[i]).id < ids.contestsid
    &&& forall|i: int| 0 <= i < s.jobs.len() ==> (#[trigger] s.jobs[i]).id < ids.jobsid
}


/// Every named problem exists in the catalog.
pub open spec fn all_problems_known(cat: CatalogV, pids: Seq<u32>) -> bool {
    forall|k: int| 0 <= k < pids.len() ==> cat.problem_ids.contains(#[trigger] pids[k])
}

/// Every named user exists.
pub open spec fn all_users_known(users: Seq<UserV>, uids: Seq<u32>) -> bool {
    forall|k: int| 0 <= k < uids.len() ==> has_user_id(users, #[trigger] uids[k])
}

/// Whoever exists in a user table still exists after a user is appended.
pub proof fn lemma_has_user_id_push(users: Seq<UserV>, u: UserV, id: u32)
    requires
        has_user_id(users, id),
    ensures
        has_user_id(users.push(u), id),
{
    let k = choose|k: int| 0 <= k < users.len() && (#[trigger] users[k]).id == id;
    assert(users.push(u)[k] == users[k]);
}

/// Replacing a user with one of the same id keeps every id lookup alive.
pub proof fn lemma_has_user_id_update(users: Seq<UserV>, at: int, u: UserV, id: u32)
    requires
        has_user_id(users, id),
        0 <= at < users.len(),
        u.id == users[at].id,
    ensures
        has_user_id(users.update(at, u), id),
{
    let k = choose|k: int| 0 <= k < users.len() && (#[trigger] users[k]).id == id;
    if k == at {
        assert(users.update(at, u)[at] == u);
    } else {
        assert(users.update(at, u)[k] == users[k]);
    }
}

impl Store {
    /// The structural invariant of the whole model.
    pub open spec fn wf(self) -> bool {
        &&& users_wf(self@.users)
        &&& contests_wf(self@.contests, self@.users)
        &&& jobs_wf(self@.jobs)
    }

    pub fn new() -> (s: Store)
        ensures
            s@.users.len() == 0,
            s@.contests.len() == 0,
            s@.jobs.len() == 0,
            s.wf(),
    {
        Store { users: Vec::new(), contests: Vec::new(), jobs: Vec::new() }
    }

    /// Whether a user with this name exists.
    pub fn user_exists(&self, name: &str) -> (r: bool)
        ensures
            r == has_user_name(self@.users, name@),
    {
        let n = self.users.len();
        let mut i: usize = 0;
        while i < n
            invariant
                i <= n,
                n == self@.users.len(),
                forall|j: int| 0 <= j < i ==> (#[trigger] self@.users[j]).name != name@,
            decreases n - i,
        {
            proof {
                assert(self@.users[i as int] == self.users[i as int]@);
            }
            if str_eq(self.users[i].name.as_str(), name) {
                return true;
            }
            i = i + 1;
        }
        false
    }

    /// Resolve a user name to the user's id.
    pub fn get_user_id(&self, name: &str) -> (r: Option<u32>)
        requires
            self.wf(),
        ensures
            match r {
                Some(id) => has_user_name(self@.users, name@) && user_with_name(
                    self@.users,
                    name@,
                ).id == id,
                None => !has_user_name(self@.users, name@),
            },
    {
        let n = self.users.len();
        let mut i: usize = 0;
        while i < n
            invariant
                self.wf(),
                i <= n,
                n == self@.users.len(),
                forall|j: int| 0 <= j < i ==> (#[trigger] self@.users[j]).name != name@,
            decreases n - i,
        {
            proof {
                assert(self@.users[i as int] == self.users[i as int]@);
            }
            if str_eq(self.users[i].name.as_str(), name) {
                proof {
                    let k = choose|k: int|
                        0 <= k < self@.users.len() && (#[trigger] self@.users[k]).name == name@;
                    assert(k == i);
                }
                return Some(self.users[i].id);
            }
            i = i + 1;
        }
        None
    }

    /// Look a user up by id.
    pub fn get_user(&self, user_id: u32) -> (r: Option<SerdeUser>)
        requires
            self.wf(),
        ensures
            match r {
                Some(u) => has_user_id(self@.users, user_id) && u@ == user_with_id(
                    self@.users,
                    user_id,
                ),
                None => !has_user_id(self@.users, user_id),
            },
    {
        let n = self.users.len();
        let mut i: usize = 0;
        while i < n
            invariant
                self.wf(),
                i <= n,
                n == self@.users.len(),
                forall|j: int| 0 <= j < i ==> (#[trigger] self@.users[j]).id != user_id,
            decreases n - i,
        {
            proof {
                assert(self@.users[i as int] == self.users[i as int]@);
            }
            if self.users[i].id == user_id {
                proof {
                    let k = choose|k: int|
                        0 <= k < self@.users.len() && (#[trigger] self@.users[k]).id == user_id;
                    assert(k == i);
                }
                return Some(self.users[i].clone());
            }
            i = i + 1;
        }
        None
    }

    /// All users, ascending by id (the stored order).
    pub fn get_users(&self) -> (r: Vec<SerdeUser>)
        ensures
            r@.map_values(|u: SerdeUser| u@) == self@.users,
            self.wf() ==> forall|a: int, b: int| #![trigger r@[a], r@[b]]
                0 <= a < b < r@.len() ==> r@[a]@.id < r@[b]@.id,
    {
        let n = self.users.len();
        let mut r: Vec<SerdeUser> = Vec::new();
        let mut i: usize = 0;
        while i < n
            invariant
                i <= n,
                n == self@.users.len(),
                r@.len() == i,
                forall|j: int| 0 <= j < i ==> (#[trigger] r@[j])@ == self@.users[j],
            decreases n - i,
        {
            proof {
                assert(self@.users[i as int] == self.users[i as int]@);
            }
            r.push(self.users[i].clone());
            i = i + 1;
        }
        proof {
            assert(r@.map_values(|u: SerdeUser| u@) =~= self@.users);
            if self.wf() {
                assert forall|a: int, b: int| #![trigger r@[a], r@[b]]
                    0 <= a < b < r@.len() implies r@[a]@.id < r@[b]@.id by {
                    assert(r@.map_values(|u: SerdeUser| u@)[a] == self@.users[a]);
                    assert(r@.map_values(|u: SerdeUser| u@)[b] == self@.users[b]);
                }
            }
        }
        r
    }

    /// Register a new user. The id is consumed from the allocator before the
    /// name check, so a rejected registration still consumes an id.
    pub fn create_user(&mut self, ids: &mut Ids, name: &str) -> (r: Result<SerdeUser, ErrorKind>)
        requires
            old(self).wf(),
            consistent(old(self)@, *old(ids)),
            old(ids).usersid < u32::MAX,
        ensures
            final(self).wf(),
            consistent(final(self)@, *final(ids)),
            final(ids).usersid == old(ids).usersid + 1,
            final(ids).contestsid == old(ids).contestsid,
            final(ids).jobsid == old(ids).jobsid,
            final(self)@.contests == old(self)@.contests,
            final(self)@.jobs == old(self)@.jobs,
            match r {
                Ok(u) => !has_user_name(old(self)@.users, name@) && u.id == old(ids).usersid
                    && u.name@ == name@ && final(self)@.users == old(self)@.users.push(u@),
                Err(k) => k == ErrorKind::InvalidArgument && has_user_name(
                    old(self)@.users,
                    name@,
                ) && final(self)@.users == old(self)@.users,
            },
    {
        let user_id = ids.next_user_id();
        if self.user_exists(name) {
            return Err(ErrorKind::InvalidArgument);
        }
        let u = SerdeUser { id: user_id, name: String::from_str(name) };
        let snapshot = u.clone();
        self.users.push(u);
        proof {
            let users0 = old(self)@.users;
            let users1 = self@.users;
            assert forall|j: int| 0 <= j < users1.len() implies users1[j] == self.users[j]@ by {}
            assert(users1 =~= users0.push(snapshot@));
            assert forall|i: int| 0 <= i < self@.contests.len() implies contest_refs_ok(
                #[trigger] self@.contests[i],
                users1,
            ) by {
                assert(contest_refs_ok(old(self)@.contests[i], users0));
                assert forall|k: int|
                    0 <= k < self@.contests[i].user_ids.len() implies has_user_id(
                    users1,
                    #[trigger] self@.contests[i].user_ids[k],
                ) by {
                    lemma_has_user_id_push(users0, snapshot@, self@.contests[i].user_ids[k]);
                }
            }
        }
        Ok(snapshot)
    }

    /// Rename a user. The new name must not be taken by anyone else; renaming
    /// a user to their current name succeeds and changes nothing.
    pub fn update_user(&mut self, user_id: u32, name: &str) -> (r: Result<SerdeUser, ErrorKind>)
        requires
            old(self).wf(),
        ensures
            final(self).wf(),
            final(self)@.contests == old(self)@.contests,
            final(self)@.jobs == old(self)@.jobs,
            forall|ids: Ids| consistent(old(self)@, ids) ==> consistent(final(self)@, ids),
            match r {
                Ok(u) => {
                    &&& has_user_id(old(self)@.users, user_id)
                    &&& u.id == user_id
                    &&& u.name@ == name@
                    &&& (user_with_id(old(self)@.users, user_id).name == name@ || !has_user_name(
                        old(self)@.users,
                        name@,
                    ))
                    &&& exists|k: int|
                        0 <= k < old(self)@.users.len() && (#[trigger] old(self)@.users[k]).id
                            == user_id && final(self)@.users == old(self)@.users.update(k, u@)
                },
                Err(ErrorKind::NotFound) => !has_user_id(old(self)@.users, user_id)
                    && final(self)@.users == old(self)@.users,
                Err(ErrorKind::InvalidArgument) => {
                    &&& has_user_id(old(self)@.users, user_id)
                    &&& user_with_id(old(self)@.users, user_id).name != name@
                    &&& has_user_name(old(self)@.users, name@)
                    &&& final(self)@.users == old(self)@.users
                },
                Err(_) => false,
            },
    {
        let n = self.users.len();
        let mut i: usize = 0;
        while i < n
            invariant
                self.wf(),
                self@ == old(self)@,
                i <= n,
                n == self@.users.len(),
                forall|j: int| 0 <= j < i ==> (#[trigger] self@.users[j]).id != user_id,
            decreases n - i,
        {
            proof {
                assert(self@.users[i as int] == self.users[i as int]@);
            }
            if self.users[i].id == user_id {
                proof {
                    let k = choose|k: int|
                        0 <= k < self@.users.len() && (#[trigger] self@.users[k]).id == user_id;
                    assert(k == i);
                }
                if str_eq(self.users[i].name.as_str(), name) {
                    let u = SerdeUser { id: user_id, name: String::from_str(name) };
                    let snapshot = u.clone();
                    proof {
                        assert(self@.users.update(i as int, snapshot@) =~= self@.users);
                    }
                    return Ok(snapshot);
                }
                if self.user_exists(name) {
                    return Err(ErrorKind::InvalidArgument);
                }
                let u = SerdeUser { id: user_id, name: String::from_str(name) };
                let snapshot = u.clone();
                self.users.set(i, u);
                proof {
                    let users0 = old(self)@.users;
                    let users1 = self@.users;
                    assert forall|j: int| 0 <= j < users1.len() implies users1[j] == self.users[j]@ by {}
                    assert(users1 =~= users0.update(i as int, snapshot@));
                    assert forall|p: int, q: int|
                        0 <= p < q < users1.len() implies (#[trigger] users1[p]).id < (
                    #[trigger] users1[q]).id && users1[p].name != users1[q].name by {
                        assert(users0[p].id < users0[q].id && users0[p].name != users0[q].name);
                    }
                    assert forall|ci: int| 0 <= ci < self@.contests.len() implies contest_refs_ok(
                        #[trigger] self@.contests[ci],
                        users1,
                    ) by {
                        assert(contest_refs_ok(old(self)@.contests[ci], users0));
                        assert forall|k: int|
                            0 <= k < self@.contests[ci].user_ids.len() implies has_user_id(
                            users1,
                            #[trigger] self@.contests[ci].user_ids[k],
                        ) by {
                            lemma_has_user_id_update(
                                users0,
                                i as int,
                                snapshot@,
                                self@.contests[ci].user_ids[k],
                            );
                        }
                    }
                }
                return Ok(snapshot);
            }
            i = i + 1;
        }
        Err(ErrorKind::NotFound)
    }


    /// Whether a user with this id exists.
    pub fn user_id_exists(&self, user_id: u32) -> (r: bool)
        ensures
            r == has_user_id(self@.users, user_id),
    {
        let n = self.users.len();
        let mut i: usize = 0;
        while i < n
            invariant
                i <= n,
                n == self@.users.len(),
                forall|j: int| 0 <= j < i ==> (#[trigger] self@.users[j]).id != user_id,
            decreases n - i,
        {
            proof {
                assert(self@.users[i as int] == self.users[i as int]@);
            }
            if self.users[i].id == user_id {
                return true;
            }
            i = i + 1;
        }
        false
    }

    fn all_users_known_exec(&self, uids: &Vec<u32>) -> (r: bool)
        ensures
            r == all_users_known(self@.users, uids@),
    {
        let n = uids.len();
        let mut i: usize = 0;
        while i < n
            invariant
                i <= n,
                n == uids@.len(),
                forall|j: int| 0 <= j < i ==> has_user_id(self@.users, #[trigger] uids@[j]),
            decreases n - i,
        {
            if !self.user_id_exists(uids[i]) {
                return false;
            }
            i = i + 1;
        }
        true
    }

    /// Register or rename a user: a body without an id creates, one with an
    /// id renames.
    pub fn post_user(&mut self, ids: &mut Ids, body: PostUser) -> (r: Result<SerdeUser, ErrorKind>)
        requires
            old(self).wf(),
            consistent(old(self)@, *old(ids)),
            old(ids).usersid < u32::MAX,
        ensures
            final(self).wf(),
            consistent(final(self)@, *final(ids)),
            final(self)@.contests == old(self)@.contests,
            final(self)@.jobs == old(self)@.jobs,
            final(ids).contestsid == old(ids).contestsid,
            final(ids).jobsid == old(ids).jobsid,
            match body.id {
                Some(uid) => final(ids).usersid == old(ids).usersid && (match r {
                    Ok(u) => {
                        &&& has_user_id(old(self)@.users, uid)
                        &&& u.id == uid
                        &&& u.name@ == body.name@
                        &&& (user_with_id(old(self)@.users, uid).name == body.name@
                            || !has_user_name(old(self)@.users, body.name@))
                        &&& exists|k: int|
                            0 <= k < old(self)@.users.len() && (#[trigger] old(self)@.users[k]).id
                                == uid && final(self)@.users == old(self)@.users.update(k, u@)
                    },
                    Err(ErrorKind::NotFound) => !has_user_id(old(self)@.users, uid)
                        && final(self)@.users == old(self)@.users,
                    Err(ErrorKind::InvalidArgument) => {
                        &&& has_user_id(old(self)@.users, uid)
                        &&& user_with_id(old(self)@.users, uid).name != body.name@
                        &&& has_user_name(old(self)@.users, body.name@)
                        &&& final(self)@.users == old(self)@.users
                    },
                    Err(_) => false,
                }),
                None => final(ids).usersid == old(ids).usersid + 1 && (match r {
                    Ok(u) => !has_user_name(old(self)@.users, body.name@) && u.id == old(
                        ids,
                    ).usersid && u.name@ == body.name@ && final(self)@.users == old(
                        self,
                    )@.users.push(u@),
                    Err(k) => k == ErrorKind::InvalidArgument && has_user_name(
                        old(self)@.users,
                        body.name@,
                    ) && final(self)@.users == old(self)@.users,
                }),
            },
    {
        match body.id {
            Some(uid) => self.update_user(uid, body.name.as_str()),
            None => self.create_user(ids, body.name.as_str()),
        }
    }

    /// Create or update a contest: every named problem must be in the
    /// catalog and every named user must exist; contest 0 is immutable.
    /// A body without an id creates (consuming a contest id), one with an
    /// id replaces the named contest's mutable fields wholesale.
    pub fn post_contest(&mut self, ids: &mut Ids, cat: &Catalog, body: PostContest) -> (r: Result<
        Contest,
        ErrorKind,
    >)
        requires
            old(self).wf(),
            consistent(old(self)@, *old(ids)),
            1 <= old(ids).contestsid < u32::MAX,
            body.problem_ids@.len() <= u32::MAX,
            body.user_ids@.len() <= u32::MAX,
        ensures
            final(self).wf(),
            consistent(final(self)@, *final(ids)),
            final(self)@.users == old(self)@.users,
            final(self)@.jobs == old(self)@.jobs,
            final(ids).usersid == old(ids).usersid,
            final(ids).jobsid == old(ids).jobsid,
            match r {
                Ok(c) => {
                    &&& all_problems_known(cat@, body@.problem_ids)
                    &&& all_users_known(old(self)@.users, body@.user_ids)
                    &&& c@.name == body@.name
                    &&& c@.from == body@.from
                    &&& c@.to == body@.to
                    &&& c@.problem_ids == body@.problem_ids
                    &&& c@.user_ids == body@.user_ids
                    &&& c@.submission_limit == body.submission_limit
                    &&& match body.id {
                        Some(cid) => {
                            &&& cid != 0
                            &&& has_contest(old(self)@.contests, cid)
                            &&& c@.id == cid
                            &&& exists|k: int|
                                0 <= k < old(self)@.contests.len() && (
                                #[trigger] old(self)@.contests[k]).id == cid
                                    && final(self)@.contests == old(self)@.contests.update(k, c@)
                            &&& final(ids).contestsid == old(ids).contestsid
                        },
                        None => {
                            &&& c@.id == old(ids).contestsid
                            &&& final(self)@.contests == old(self)@.contests.push(c@)
                            &&& final(ids).contestsid == old(ids).contestsid + 1
                        },
                    }
                },
                Err(ErrorKind::NotFound) => {
                    &&& (!all_problems_known(cat@, body@.problem_ids) || !all_users_known(
                        old(self)@.users,
                        body@.user_ids,
                    ) || (match body.id {
                        Some(cid) => cid != 0 && !has_contest(old(self)@.contests, cid),
                        None => false,
                    }))
                    &&& final(self)@.contests == old(self)@.contests
                    &&& final(ids).contestsid == old(ids).contestsid
                },
                Err(ErrorKind::InvalidArgument) => {
                    &&& all_problems_known(cat@, body@.problem_ids)
                    &&& all_users_known(old(self)@.users, body@.user_ids)
                    &&& body.id == Some(0u32)
                    &&& final(self)@.contests == old(self)@.contests
                    &&& final(ids).contestsid == old(ids).contestsid
                },
                Err(_) => false,
            },
    {
        let np = body.problem_ids.len();
        let mut i: usize = 0;
        while i < np
            invariant
                self.wf(),
                self@ == old(self)@,
                *ids == *old(ids),
                consistent(self@, *ids),
                i <= np,
                np == body.problem_ids@.len(),
                forall|j: int|
                    0 <= j < i ==> cat@.problem_ids.contains(#[trigger] body.problem_ids@[j]),
            decreases np - i,
        {
            if !cat.has_problem(body.problem_ids[i]) {
                return Err(ErrorKind::NotFound);
            }
            i = i + 1;
        }
        if !self.all_users_known_exec(&body.user_ids) {
            return Err(ErrorKind::NotFound);
        }
        match body.id {
            Some(cid) => {
                if cid == 0 {
                    return Err(ErrorKind::InvalidArgument);
                }
                let n = self.contests.len();
                let mut k: usize = 0;
                while k < n
                    invariant
                        self.wf(),
                        self@ == old(self)@,
                        *ids == *old(ids),
                        consistent(self@, *ids),
                        body.id == Some(cid),
                        cid != 0,
                        all_problems_known(cat@, body.problem_ids@),
                        all_users_known(self@.users, body.user_ids@),
                        k <= n,
                        n == self@.contests.len(),
                        body.problem_ids@.len() <= u32::MAX,
                        body.user_ids@.len() <= u32::MAX,
                        forall|j: int| 0 <= j < k ==> (#[trigger] self@.contests[j]).id != cid,
                    decreases n - k,
                {
                    proof {
                        assert(self@.contests[k as int] == self.contests[k as int]@);
                    }
                    if self.contests[k].id == cid {
                        let c = Contest {
                            id: cid,
                            name: body.name,
                            from: body.from,
                            to: body.to,
                            problem_ids: body.problem_ids,
                            user_ids: body.user_ids,
                            submission_limit: body.submission_limit,
                        };
                        let snapshot = c.clone();
                        self.contests.set(k, c);
                        proof {
                            let contests0 = old(self)@.contests;
                            let contests1 = self@.contests;
                            assert forall|t: int|
                                0 <= t < contests1.len() implies contests1[t]
                                == self.contests[t]@ by {}
                            assert(contests1 =~= contests0.update(k as int, snapshot@));
                            let w = choose|w: int|
                                0 <= w < contests0.len() && (#[trigger] contests0[w]).id == cid;
                            assert(w == k);
                            assert forall|ci: int|
                                0 <= ci < contests1.len() implies contest_refs_ok(
                                #[trigger] contests1[ci],
                                self@.users,
                            ) by {
                                if ci != k {
                                    assert(contests1[ci] == contests0[ci]);
                                    assert(contest_refs_ok(contests0[ci], self@.users));
                                }
                            }
                        }
                        return Ok(snapshot);
                    }
                    k = k + 1;
                }
                Err(ErrorKind::NotFound)
            },
            None => {
                let cid = ids.next_contest_id();
                let c = Contest {
                    id: cid,
                    name: body.name,
                    from: body.from,
                    to: body.to,
                    problem_ids: body.problem_ids,
                    user_ids: body.user_ids,
                    submission_limit: body.submission_limit,
                };
                let snapshot = c.clone();
                self.contests.push(c);
                proof {
                    let contests0 = old(self)@.contests;
                    let contests1 = self@.contests;
                    assert forall|t: int|
                        0 <= t < contests1.len() implies contests1[t] == self.contests[t]@ by {}
                    assert(contests1 =~= contests0.push(snapshot@));
                    assert forall|ci: int|
                        0 <= ci < contests1.len() implies contest_refs_ok(
                        #[trigger] contests1[ci],
                        self@.users,
                    ) by {
                        if ci < contests0.len() {
                            assert(contests1[ci] == contests0[ci]);
                            assert(contest_refs_ok(contests0[ci], self@.users));
                        }
                    }
                }
                Ok(snapshot)
            },
        }
    }

    /// Whether a contest with this id exists.
    pub fn contest_exists(&self, contest_id: u32) -> (r: bool)
        ensures
            r == has_contest(self@.contests, contest_id),
    {
        let n = self.contests.len();
        let mut i: usize = 0;
        while i < n
            invariant
                i <= n,
                n == self@.contests.len(),
                forall|j: int| 0 <= j < i ==> (#[trigger] self@.contests[j]).id != contest_id,
            decreases n - i,
        {
            proof {
                assert(self@.contests[i as int] == self.contests[i as int]@);
            }
            if self.contests[i].id == contest_id {
                return true;
            }
            i = i + 1;
        }
        false
    }

    /// Look a contest up by id.
    pub fn get_contest_by_id(&self, contest_id: u32) -> (r: Option<Contest>)
        requires
            self.wf(),
        ensures
            match r {
                Some(c) => has_contest(self@.contests, contest_id) && c@ == contest_with_id(
                    self@.contests,
                    contest_id,
                ),
                None => !has_contest(self@.contests, contest_id),
            },
    {
        let n = self.contests.len();
        let mut i: usize = 0;
        while i < n
            invariant
                self.wf(),
                i <= n,
                n == self@.contests.len(),
                forall|j: int| 0 <= j < i ==> (#[trigger] self@.contests[j]).id != contest_id,
            decreases n - i,
        {
            proof {
                assert(self@.contests[i as int] == self.contests[i as int]@);
            }
            if self.contests[i].id == contest_id {
                proof {
                    let k = choose|k: int|
                        0 <= k < self@.contests.len() && (#[trigger] self@.contests[k]).id
                            == contest_id;
                    assert(k == i);
                }
                return Some(self.contests[i].clone());
            }
            i = i + 1;
        }
        None
    }

    /// All contests, ascending by id (the stored order).
    pub fn get_contests(&self) -> (r: Vec<Contest>)
        ensures
            r@.map_values(|c: Contest| c@) == self@.contests,
            self.wf() ==> forall|a: int, b: int| #![trigger r@[a], r@[b]]
                0 <= a < b < r@.len() ==> r@[a]@.id < r@[b]@.id,
    {
        let n = self.contests.len();
        let mut r: Vec<Contest> = Vec::new();
        let mut i: usize = 0;
        while i < n
            invariant
                i <= n,
                n == self@.contests.len(),
                r@.len() == i,
                forall|j: int| 0 <= j < i ==> (#[trigger] r@[j])@ == self@.contests[j],
            decreases n - i,
        {
            proof {
                assert(self@.contests[i as int] == self.contests[i as int]@);
            }
            r.push(self.contests[i].clone());
            i = i + 1;
        }
        proof {
            assert(r@.map_values(|c: Contest| c@) =~= self@.contests);
            if self.wf() {
                assert forall|a: int, b: int| #![trigger r@[a], r@[b]]
                    0 <= a < b < r@.len() implies r@[a]@.id < r@[b]@.id by {
                    assert(r@.map_values(|c: Contest| c@)[a] == self@.contests[a]);
                    assert(r@.map_values(|c: Contest| c@)[b] == self@.contests[b]);
                }
            }
        }
        r
    }
}

} // verus!
