//! What a harvest leaves in storage over all of its runs, from the first
//! one on.

use crate::archive::{lemma_flush_holds, lemma_ingest_all_held, Archive, Run};
use crate::commit::{distinct, has_oid, CommitView};
use crate::extent::lemma_saved_extent_stays_exact;
use crate::packs::{
    lemma_commits_stay_in_their_month, lemma_held_oid_origin, lemma_no_pack_holds_an_oid_twice,
    lemma_one_copy_of_each_commit, one_month_each, same_month_if_same_oid,
};
use crate::restart::lemma_stopped_run_loses_nothing;
use vstd::prelude::*;

verus! {

/// Whether one of the commits that the runs were served has the object id
/// `oid` and lies in the month `date`.
pub open spec fn served(runs: Seq<Seq<CommitView>>, oid: Seq<char>, date: Seq<char>) -> bool {
    exists|r: int, k: int|
        0 <= r < runs.len() && 0 <= k < runs[r].len() && (#[trigger] runs[r][k]).oid == oid
            && runs[r][k].pack_date() == date
}

/// Whether no object id is dated in two months by the commits that the runs
/// were served.
pub open spec fn one_month_each_run(runs: Seq<Seq<CommitView>>) -> bool {
    forall|r1: int, k1: int, r2: int, k2: int|
        0 <= r1 < runs.len() && 0 <= k1 < runs[r1].len() && 0 <= r2 < runs.len() && 0 <= k2
            < runs[r2].len() ==> same_month_if_same_oid(
            #[trigger] runs[r1][k1],
            #[trigger] runs[r2][k2],
        )
}

impl Archive {
    /// Storage that no run has written to: it has no pack, and its state
    /// document has no data.
    pub open spec fn is_blank(self) -> bool {
        self.state.has_no_data && forall|date: Seq<char>| !self.packs.contains_key(date)
    }

    /// Storage after one run after the other, each served the commits that
    /// `runs` has for it.
    pub open spec fn after_runs(self, runs: Seq<Seq<CommitView>>) -> Archive
        decreases runs.len(),
    {
        if runs.len() == 0 {
            self
        } else {
            self.after_runs(runs.drop_last()).after_run(runs.last())
        }
    }

    /// Every stored commit has the object id and the month of a commit that
    /// the runs were served.
    pub open spec fn drawn_from(self, runs: Seq<Seq<CommitView>>) -> bool {
        forall|date: Seq<char>, i: int|
            0 <= i < self.pack(date).len() ==> served(
                runs,
                (#[trigger] self.pack(date)[i]).oid,
                date,
            )
    }
}

/// Whatever a harvest was served in its runs, storage that was blank before
/// the first one is in order after the last one: every stored commit lies in
/// the pack of the month of its date, no pack holds an object id twice, and
/// the saved extent is exact.
pub proof fn lemma_harvest_leaves_storage_in_order(archive: Archive, runs: Seq<Seq<CommitView>>)
    requires
        archive.is_blank(),
    ensures
        archive.after_runs(runs).routed(),
        archive.after_runs(runs).distinct(),
        archive.after_runs(runs).extent_exact(),
    decreases runs.len(),
{
    if runs.len() == 0 {
        assert forall|date: Seq<char>| distinct(#[trigger] archive.pack(date)) by {
            assert(archive.pack(date).len() == 0);
        }
    } else {
        let before = archive.after_runs(runs.drop_last());
        lemma_harvest_leaves_storage_in_order(archive, runs.drop_last());
        lemma_commits_stay_in_their_month(before, runs.last());
        lemma_no_pack_holds_an_oid_twice(before, runs.last());
        lemma_saved_extent_stays_exact(before, runs.last());
    }
}

/// A commit that a harvest was served is stored by its object id in the pack
/// of its month after every later run.
pub proof fn lemma_harvest_keeps_what_it_was_served(
    archive: Archive,
    runs: Seq<Seq<CommitView>>,
    r: int,
    k: int,
)
    requires
        0 <= r < runs.len(),
        0 <= k < runs[r].len(),
    ensures
        has_oid(archive.after_runs(runs).pack(runs[r][k].pack_date()), runs[r][k].oid),
    decreases runs.len(),
{
    let before = archive.after_runs(runs.drop_last());
    let after = archive.after_runs(runs);
    let commit = runs[r][k];
    let month = commit.pack_date();
    if r == runs.len() - 1 {
        let run = Run::start(before);
        lemma_ingest_all_held(run, runs.last());
        lemma_flush_holds(run.ingest_all(runs.last()), month);
    } else {
        assert(runs.drop_last()[r] == runs[r]);
        lemma_harvest_keeps_what_it_was_served(archive, runs.drop_last(), r, k);
        lemma_stopped_run_loses_nothing(before, runs.last(), month);
        let i = choose|i: int|
            0 <= i < before.pack(month).len() && (#[trigger] before.pack(month)[i]).oid
                == commit.oid;
        assert(after.pack(month)[i] == before.pack(month)[i]);
    }
}

/// Where no object id is dated in two months by the commits that a harvest
/// was served, storage that was blank before the first run holds no object
/// id twice after the last one, be it in one pack or in two.
pub proof fn lemma_harvest_stores_each_commit_once(archive: Archive, runs: Seq<Seq<CommitView>>)
    requires
        archive.is_blank(),
        one_month_each_run(runs),
    ensures
        archive.after_runs(runs).unique(),
        archive.after_runs(runs).drawn_from(runs),
    decreases runs.len(),
{
    if runs.len() > 0 {
        let rest = runs.drop_last();
        let last = runs.last();
        let before = archive.after_runs(rest);
        let after = archive.after_runs(runs);
        let n = runs.len() - 1;
        assert(one_month_each_run(rest)) by {
            assert forall|r1: int, k1: int, r2: int, k2: int|
                0 <= r1 < rest.len() && 0 <= k1 < rest[r1].len() && 0 <= r2 < rest.len() && 0
                    <= k2 < rest[r2].len() implies same_month_if_same_oid(
                #[trigger] rest[r1][k1],
                #[trigger] rest[r2][k2],
            ) by {
                assert(rest[r1] == runs[r1] && rest[r2] == runs[r2]);
                assert(same_month_if_same_oid(runs[r1][k1], runs[r2][k2]));
            }
        }
        lemma_harvest_stores_each_commit_once(archive, rest);
        assert(one_month_each(last)) by {
            assert forall|i: int, j: int|
                0 <= i < last.len() && 0 <= j < last.len() implies same_month_if_same_oid(
                #[trigger] last[i],
                #[trigger] last[j],
            ) by {
                assert(same_month_if_same_oid(runs[n][i], runs[n][j]));
            }
        }
        assert forall|i: int| 0 <= i < last.len() implies before.agrees_with(
            #[trigger] last[i],
        ) by {
            assert forall|date: Seq<char>| #[trigger]
                has_oid(before.pack(date), last[i].oid) implies date == last[i].pack_date() by {
                let j = choose|j: int|
                    0 <= j < before.pack(date).len() && (#[trigger] before.pack(date)[j]).oid
                        == last[i].oid;
                assert(served(rest, before.pack(date)[j].oid, date));
                let (r, k) = choose|r: int, k: int|
                    0 <= r < rest.len() && 0 <= k < rest[r].len() && (#[trigger] rest[r][k]).oid
                        == last[i].oid && rest[r][k].pack_date() == date;
                assert(rest[r] == runs[r]);
                assert(same_month_if_same_oid(runs[r][k], runs[n][i]));
            }
        }
        lemma_one_copy_of_each_commit(before, last);
        let run = Run::start(before);
        let end = run.ingest_all(last);
        lemma_ingest_all_held(run, last);
        assert forall|date: Seq<char>, i: int| 0 <= i < after.pack(date).len() implies served(
            runs,
            (#[trigger] after.pack(date)[i]).oid,
            date,
        ) by {
            let oid = after.pack(date)[i].oid;
            lemma_flush_holds(end, date);
            assert(end.holds(date)[i].oid == oid);
            lemma_held_oid_origin(run, last, date, oid);
            if has_oid(run.holds(date), oid) {
                let j = choose|j: int|
                    0 <= j < before.pack(date).len() && (#[trigger] before.pack(date)[j]).oid
                        == oid;
                assert(served(rest, before.pack(date)[j].oid, date));
                let (r, k) = choose|r: int, k: int|
                    0 <= r < rest.len() && 0 <= k < rest[r].len() && (#[trigger] rest[r][k]).oid
                        == oid && rest[r][k].pack_date() == date;
                assert(rest[r] == runs[r]);
                assert(runs[r][k].oid == oid && runs[r][k].pack_date() == date);
            } else {
                let k = choose|k: int|
                    0 <= k < last.len() && (#[trigger] last[k]).oid == oid && last[k].pack_date()
                        == date;
                assert(runs[n][k].oid == oid && runs[n][k].pack_date() == date);
            }
        }
    }
}

} // verus!
