use vstd::prelude::*;

verus! {

/// The per-kind monotonic identifier counters. Each field holds the next id
/// that will be issued for its resource kind. The whole struct lives behind
/// exclusive access (a `&mut` borrow here; a mutex at the boundary), so each
/// increment is atomic with respect to other allocations of the same kind.
///
/// Contest id 0 is reserved to mean "practice mode", so the contest counter
/// starts at 1; ids of the other kinds start at 0.
#[derive(Clone, Copy, Debug, PartialEq, Eq, Structural)]
pub struct Ids {
    pub usersid: u32,
    pub contestsid: u32,
    pub jobsid: u32,
}

impl Ids {
    pub fn new() -> (ids: Ids)
        ensures
            ids.usersid == 0,
            ids.contestsid == 1,
            ids.jobsid == 0,
    {
        Ids { usersid: 0, contestsid: 1, jobsid: 0 }
    }

    /// Issue the next user id. The id is reserved whether or not the caller
    /// manages to persist the user, so a failed creation leaves a benign gap.
    pub fn next_user_id(&mut self) -> (id: u32)
        requires
            old(self).usersid < u32::MAX,
        ensures
            id == old(self).usersid,
            final(self).usersid == old(self).usersid + 1,
            final(self).contestsid == old(self).contestsid,
            final(self).jobsid == old(self).jobsid,
    {
        let id = self.usersid;
        self.usersid = self.usersid + 1;
        id
    }

    /// Issue the next contest id.
    pub fn next_contest_id(&mut self) -> (id: u32)
        requires
            old(self).contestsid < u32::MAX,
        ensures
            id == old(self).contestsid,
            final(self).contestsid == old(self).contestsid + 1,
            final(self).usersid == old(self).usersid,
            final(self).jobsid == old(self).jobsid,
    {
        let id = self.contestsid;
        self.contestsid = self.contestsid + 1;
        id
    }

    /// Issue the next job id.
    pub fn next_job_id(&mut self) -> (id: u32)
        requires
            old(self).jobsid < u32::MAX,
        ensures
            id == old(self).jobsid,
            final(self).jobsid == old(self).jobsid + 1,
            final(self).usersid == old(self).usersid,
            final(self).contestsid == old(self).contestsid,
    {
        let id = self.jobsid;
        self.jobsid = self.jobsid + 1;
        id
    }
}

/// LAW: identifiers issued by the allocator are strictly increasing and never
/// repeat. Two job allocations performed one after the other (the counter is
/// held under exclusive access, so every interleaving is some such order)
/// issue ids with `first < second`; in particular the ids differ, and this
/// holds whether or not the resource of the first id was ever persisted,
/// since the counter only ever moves forward.
pub proof fn lemma_job_ids_strictly_increase(s0: Ids, s1: Ids, s2: Ids, id1: u32, id2: u32)
    requires
        // the contract of `next_job_id` taking s0 to s1 issuing id1,
        id1 == s0.jobsid,
        s1.jobsid == s0.jobsid + 1,
        // and then s1 to s2 issuing id2
        id2 == s1.jobsid,
        s2.jobsid == s1.jobsid + 1,
    ensures
        id1 < id2,
        id1 != id2,
{
}

/// LAW: the same strict increase holds for the user and contest counters.
pub proof fn lemma_user_ids_strictly_increase(s0: Ids, s1: Ids, s2: Ids, id1: u32, id2: u32)
    requires
        id1 == s0.usersid,
        s1.usersid == s0.usersid + 1,
        id2 == s1.usersid,
        s2.usersid == s1.usersid + 1,
    ensures
        id1 < id2,
        id1 != id2,
{
}

} // verus!
