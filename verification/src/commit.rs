//! One harvested commit, and the reading of a pack as a sequence of commits.

use crate::time::{month_key, Instant, Timestamp};
use vstd::prelude::*;

verus! {

/// One commit as the remote source reported it.
///
/// The harvester reads the object id and the commit date. Whatever else the
/// source reported travels in `payload` and is stored as it came.
#[derive(Debug, PartialEq, Eq)]
pub struct CommitStats {
    pub oid: String,
    pub committed_date: Timestamp,
    pub payload: String,
}

/// Mathematical value of a [`CommitStats`].
pub struct CommitView {
    pub oid: Seq<char>,
    pub committed_date: Instant,
    pub payload: Seq<char>,
}

impl CommitView {
    /// The key of the pack that this commit belongs to: the month of its
    /// commit date.
    pub open spec fn pack_date(self) -> Seq<char> {
        month_key(self.committed_date.secs, self.committed_date.nanos)
    }
}

impl View for CommitStats {
    type V = CommitView;

    open spec fn view(&self) -> CommitView {
        CommitView {
            oid: self.oid@,
            committed_date: self.committed_date@,
            payload: self.payload@,
        }
    }
}

impl Clone for CommitStats {
    fn clone(&self) -> (res: Self)
        ensures
            res == *self,
    {
        CommitStats {
            oid: self.oid.clone(),
            committed_date: self.committed_date,
            payload: self.payload.clone(),
        }
    }
}

/// The values of a sequence of commits, in the same order.
pub open spec fn views(commits: Seq<CommitStats>) -> Seq<CommitView> {
    Seq::new(commits.len(), |i: int| commits[i]@)
}

/// Whether some commit of `pack` has the object id `oid`.
pub open spec fn has_oid(pack: Seq<CommitView>, oid: Seq<char>) -> bool {
    exists|i: int| 0 <= i < pack.len() && (#[trigger] pack[i]).oid == oid
}

/// The object ids that occur in `pack`.
pub open spec fn oids(pack: Seq<CommitView>) -> Set<Seq<char>> {
    Set::new(|oid: Seq<char>| has_oid(pack, oid))
}

/// Whether no object id occurs twice in `pack`.
pub open spec fn distinct(pack: Seq<CommitView>) -> bool {
    forall|i: int, j: int|
        0 <= i < pack.len() && 0 <= j < pack.len() && (#[trigger] pack[i]).oid == (
        #[trigger] pack[j]).oid ==> i == j
}

/// `pack` with `commit` at its end, unless a commit of `pack` has the same
/// object id already: then `pack` as it is.
pub open spec fn with_commit(pack: Seq<CommitView>, commit: CommitView) -> Seq<CommitView> {
    if has_oid(pack, commit.oid) {
        pack
    } else {
        pack.push(commit)
    }
}

/// The object ids of a pack with one more commit are those of the pack and
/// that of the commit.
pub proof fn lemma_oids_push(pack: Seq<CommitView>, commit: CommitView)
    ensures
        oids(pack.push(commit)) =~= oids(pack).insert(commit.oid),
{
    let longer = pack.push(commit);
    assert forall|oid: Seq<char>| oids(longer).contains(oid) <==> oids(pack).insert(
        commit.oid,
    ).contains(oid) by {
        if has_oid(longer, oid) {
            let i = choose|i: int| 0 <= i < longer.len() && (#[trigger] longer[i]).oid == oid;
            if i < pack.len() {
                assert(pack[i].oid == oid);
            }
        }
        if has_oid(pack, oid) {
            let i = choose|i: int| 0 <= i < pack.len() && (#[trigger] pack[i]).oid == oid;
            assert(longer[i].oid == oid);
        }
        if oid == commit.oid {
            assert(longer[pack.len() as int].oid == oid);
        }
    }
}

/// A copy of `commits`.
pub fn clone_commits(commits: &Vec<CommitStats>) -> (res: Vec<CommitStats>)
    ensures
        res@ == commits@,
{
    let mut res: Vec<CommitStats> = Vec::with_capacity(commits.len());
    let mut i: usize = 0;
    while i < commits.len()
        invariant
            i <= commits.len(),
            res@ == commits@.take(i as int),
        decreases commits.len() - i,
    {
        res.push(commits[i].clone());
        proof {
            assert(commits@.take(i + 1) =~= commits@.take(i as int).push(commits@[i as int]));
        }
        i += 1;
    }
    proof {
        assert(commits@.take(commits.len() as int) =~= commits@);
    }
    res
}

} // verus!
