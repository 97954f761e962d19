//! Which pack a commit is stored in, and how often.

use crate::archive::{
    lemma_flush_holds, lemma_ingest_all_held, lemma_ingest_holds, lemma_with_commit_keeps, Archive,
    Run,
};
use crate::commit::{distinct, has_oid, CommitView};
use crate::data_state::in_order;
use vstd::prelude::*;

verus! {

impl Archive {
    /// Every stored commit lies in the pack of the month of its date.
    pub open spec fn routed(self) -> bool {
        forall|date: Seq<char>, i: int|
            0 <= i < self.pack(date).len() ==> (#[trigger] self.pack(date)[i]).pack_date() == date
    }

    /// No pack holds two commits with one object id.
    pub open spec fn distinct(self) -> bool {
        forall|date: Seq<char>| distinct(#[trigger] self.pack(date))
    }

    /// No object id occurs twice in storage, be it in one pack or in two.
    pub open spec fn unique(self) -> bool {
        forall|d1: Seq<char>, d2: Seq<char>, i: int, j: int|
            0 <= i < self.pack(d1).len() && 0 <= j < self.pack(d2).len() && (
            #[trigger] self.pack(d1)[i]).oid == (#[trigger] self.pack(d2)[j]).oid ==> d1 == d2 && i
                == j
    }

    /// Whether a commit with the object id of `commit` is stored in no pack
    /// but that of the month of `commit`.
    pub open spec fn agrees_with(self, commit: CommitView) -> bool {
        forall|date: Seq<char>| #[trigger]
            has_oid(self.pack(date), commit.oid) ==> date == commit.pack_date()
    }
}

impl Run {
    /// Every commit that the run holds lies in the pack of the month of its
    /// date.
    pub open spec fn routed(self) -> bool {
        forall|date: Seq<char>, i: int|
            0 <= i < self.holds(date).len() ==> (#[trigger] self.holds(date)[i]).pack_date()
                == date
    }

    /// No pack that the run holds has two commits with one object id.
    pub open spec fn distinct(self) -> bool {
        forall|date: Seq<char>| distinct(#[trigger] self.holds(date))
    }

    /// No object id occurs twice in what the run holds.
    pub open spec fn unique(self) -> bool {
        forall|d1: Seq<char>, d2: Seq<char>, i: int, j: int|
            0 <= i < self.holds(d1).len() && 0 <= j < self.holds(d2).len() && (
            #[trigger] self.holds(d1)[i]).oid == (#[trigger] self.holds(d2)[j]).oid ==> d1 == d2
                && i == j
    }

    /// Whether the run holds a commit with the object id of `commit` in no
    /// pack but that of the month of `commit`.
    pub open spec fn agrees_with(self, commit: CommitView) -> bool {
        forall|date: Seq<char>| #[trigger]
            has_oid(self.holds(date), commit.oid) ==> date == commit.pack_date()
    }
}

/// Whether two commits with one object id are of one month.
pub open spec fn same_month_if_same_oid(a: CommitView, b: CommitView) -> bool {
    a.oid == b.oid ==> a.pack_date() == b.pack_date()
}

/// Whether any two of the commits with one object id are of one month.
pub open spec fn one_month_each(commits: Seq<CommitView>) -> bool {
    forall|i: int, j: int|
        0 <= i < commits.len() && 0 <= j < commits.len() ==> same_month_if_same_oid(
            #[trigger] commits[i],
            #[trigger] commits[j],
        )
}

/// On storage in which every commit lies in the pack of its month and no
/// pack holds an object id twice, every pack is in order, so that none is
/// refused when it is loaded.
pub proof fn lemma_stored_packs_in_order(archive: Archive, date: Seq<char>)
    requires
        archive.routed(),
        archive.distinct(),
    ensures
        in_order(archive.pack(date), date),
{
    assert(distinct(archive.pack(date)));
    assert forall|i: int| 0 <= i < archive.pack(date).len() implies (#[trigger] archive.pack(
        date,
    )[i]).pack_date() == date by {}
}

/// Taking in a commit twice in a row leaves what taking it in once leaves.
pub proof fn lemma_ingest_twice(run: Run, commit: CommitView)
    ensures
        run.ingest(commit).ingest(commit) == run.ingest(commit),
{
    let once = run.ingest(commit);
    let at = run.switch_to(commit.pack_date());
    assert(at.state.pack_date() == Some(commit.pack_date()));
    lemma_with_commit_keeps(at.state.pack(), commit, commit.oid);
    assert(has_oid(once.state.pack(), commit.oid));
}

/// Taking in commits keeps every held commit in the pack of its month.
pub proof fn lemma_ingest_all_routed(run: Run, commits: Seq<CommitView>)
    requires
        run.coherent(),
        run.routed(),
    ensures
        run.ingest_all(commits).coherent(),
        run.ingest_all(commits).routed(),
    decreases commits.len(),
{
    if commits.len() > 0 {
        let before = run.ingest_all(commits.drop_last());
        let last = commits.last();
        let after = before.ingest(last);
        lemma_ingest_all_routed(run, commits.drop_last());
        lemma_ingest_holds(before, last, last.pack_date());
        assert forall|date: Seq<char>, i: int| 0 <= i < after.holds(date).len() implies (
        #[trigger] after.holds(date)[i]).pack_date() == date by {
            lemma_ingest_holds(before, last, date);
            if i < before.holds(date).len() {
                assert(after.holds(date)[i] == before.holds(date)[i]);
            }
        }
    }
}

/// Commits stay in the pack of their month. Where every stored commit lies
/// in the pack of the month of its date, it is so again after a run has
/// taken in any commits in any order and has flushed, whichever packs were
/// open in between. Each commit that was taken in, or one with its object
/// id, is then stored in the pack of its month.
pub proof fn lemma_commits_stay_in_their_month(archive: Archive, commits: Seq<CommitView>)
    requires
        archive.routed(),
    ensures
        archive.after_run(commits).routed(),
        forall|i: int|
            0 <= i < commits.len() ==> has_oid(
                archive.after_run(commits).pack(
                    (#[trigger] commits[i]).pack_date(),
                ),
                commits[i].oid,
            ),
{
    let run = Run::start(archive);
    let end = run.ingest_all(commits);
    let after = end.flush().archive;
    lemma_ingest_all_routed(run, commits);
    lemma_ingest_all_held(run, commits);
    assert forall|date: Seq<char>, i: int| 0 <= i < after.pack(date).len() implies (
    #[trigger] after.pack(date)[i]).pack_date() == date by {
        lemma_flush_holds(end, date);
        assert(end.holds(date)[i].pack_date() == date);
    }
    assert forall|i: int| 0 <= i < commits.len() implies has_oid(
        after.pack((#[trigger] commits[i]).pack_date()),
        commits[i].oid,
    ) by {
        lemma_flush_holds(end, commits[i].pack_date());
    }
}

/// Taking in commits keeps every pack free of a second commit with one
/// object id.
pub proof fn lemma_ingest_all_distinct(run: Run, commits: Seq<CommitView>)
    requires
        run.coherent(),
        run.distinct(),
    ensures
        run.ingest_all(commits).coherent(),
        run.ingest_all(commits).distinct(),
    decreases commits.len(),
{
    if commits.len() > 0 {
        let before = run.ingest_all(commits.drop_last());
        let last = commits.last();
        let after = before.ingest(last);
        lemma_ingest_all_distinct(run, commits.drop_last());
        lemma_ingest_holds(before, last, last.pack_date());
        assert forall|date: Seq<char>| distinct(#[trigger] after.holds(date)) by {
            lemma_ingest_holds(before, last, date);
            let old_pack = before.holds(date);
            let new_pack = after.holds(date);
            assert(distinct(old_pack));
            assert forall|i: int, j: int|
                0 <= i < new_pack.len() && 0 <= j < new_pack.len() && (#[trigger] new_pack[i]).oid
                    == (#[trigger] new_pack[j]).oid implies i == j by {
                if i < old_pack.len() {
                    assert(old_pack[i].oid == new_pack[i].oid);
                }
                if j < old_pack.len() {
                    assert(old_pack[j].oid == new_pack[j].oid);
                }
            }
        }
    }
}

/// A commit that the run holds after it has taken in commits was held
/// before, or has the object id and the month of one of them.
pub proof fn lemma_held_oid_origin(
    run: Run,
    commits: Seq<CommitView>,
    date: Seq<char>,
    oid: Seq<char>,
)
    requires
        run.coherent(),
        has_oid(run.ingest_all(commits).holds(date), oid),
    ensures
        has_oid(run.holds(date), oid) || exists|k: int|
            0 <= k < commits.len() && (#[trigger] commits[k]).oid == oid && commits[k].pack_date()
                == date,
    decreases commits.len(),
{
    if commits.len() > 0 {
        let rest = commits.drop_last();
        let before = run.ingest_all(rest);
        let last = commits.last();
        let after = before.ingest(last);
        lemma_ingest_all_held(run, rest);
        lemma_ingest_holds(before, last, date);
        let i = choose|i: int| 0 <= i < after.holds(date).len() && (#[trigger] after.holds(
            date,
        )[i]).oid == oid;
        if i < before.holds(date).len() {
            assert(before.holds(date)[i].oid == oid);
            lemma_held_oid_origin(run, rest, date, oid);
            if !has_oid(run.holds(date), oid) {
                let k = choose|k: int|
                    0 <= k < rest.len() && (#[trigger] rest[k]).oid == oid && rest[k].pack_date()
                        == date;
                assert(commits[k] == rest[k]);
            }
        } else {
            assert(commits[commits.len() - 1] == last);
        }
    }
}

/// Taking in commits keeps every object id single in what the run holds,
/// where no object id is dated in two months.
pub proof fn lemma_ingest_all_unique(run: Run, commits: Seq<CommitView>)
    requires
        run.coherent(),
        run.unique(),
        one_month_each(commits),
        forall|i: int| 0 <= i < commits.len() ==> run.agrees_with(#[trigger] commits[i]),
    ensures
        run.ingest_all(commits).coherent(),
        run.ingest_all(commits).unique(),
    decreases commits.len(),
{
    if commits.len() > 0 {
        let rest = commits.drop_last();
        let before = run.ingest_all(rest);
        let last = commits.last();
        let after = before.ingest(last);
        let month = last.pack_date();
        assert forall|i: int| 0 <= i < rest.len() implies run.agrees_with(#[trigger] rest[i]) by {
            assert(rest[i] == commits[i]);
        }
        assert(one_month_each(rest)) by {
            assert forall|i: int, j: int|
                0 <= i < rest.len() && 0 <= j < rest.len() implies same_month_if_same_oid(
                #[trigger] rest[i],
                #[trigger] rest[j],
            ) by {
                assert(rest[i] == commits[i] && rest[j] == commits[j]);
            }
        }
        lemma_ingest_all_unique(run, rest);
        lemma_ingest_holds(before, last, month);
        assert(before.agrees_with(last)) by {
            assert forall|date: Seq<char>| #[trigger]
                has_oid(before.holds(date), last.oid) implies date == month by {
                lemma_held_oid_origin(run, rest, date, last.oid);
                if has_oid(run.holds(date), last.oid) {
                    assert(run.agrees_with(commits[commits.len() - 1]));
                } else {
                    let k = choose|k: int|
                        0 <= k < rest.len() && (#[trigger] rest[k]).oid == last.oid
                            && rest[k].pack_date() == date;
                    assert(same_month_if_same_oid(commits[k], commits[commits.len() - 1]));
                }
            }
        }
        assert forall|d1: Seq<char>, d2: Seq<char>, i: int, j: int|
            0 <= i < after.holds(d1).len() && 0 <= j < after.holds(d2).len() && (
            #[trigger] after.holds(d1)[i]).oid == (#[trigger] after.holds(d2)[j]).oid implies d1
            == d2 && i == j by {
            lemma_ingest_holds(before, last, d1);
            lemma_ingest_holds(before, last, d2);
            let old_i = i < before.holds(d1).len();
            let old_j = j < before.holds(d2).len();
            if old_i {
                assert(before.holds(d1)[i].oid == after.holds(d1)[i].oid);
            }
            if old_j {
                assert(before.holds(d2)[j].oid == after.holds(d2)[j].oid);
            }
            if old_i && !old_j {
                assert(has_oid(before.holds(d1), last.oid));
            }
            if !old_i && old_j {
                assert(has_oid(before.holds(d2), last.oid));
            }
        }
    }
}

/// A pack holds no object id twice. Where that is so of every stored pack,
/// it is so again after a run has taken in any commits and has flushed,
/// however often one of them came and whichever pack was open when it came.
pub proof fn lemma_no_pack_holds_an_oid_twice(archive: Archive, commits: Seq<CommitView>)
    requires
        archive.distinct(),
    ensures
        archive.after_run(commits).distinct(),
{
    let run = Run::start(archive);
    let end = run.ingest_all(commits);
    let after = end.flush().archive;
    assert forall|date: Seq<char>| distinct(#[trigger] run.holds(date)) by {
        assert(distinct(archive.pack(date)));
    }
    lemma_ingest_all_distinct(run, commits);
    assert forall|date: Seq<char>| distinct(#[trigger] after.pack(date)) by {
        lemma_flush_holds(end, date);
        assert(distinct(end.holds(date)));
    }
}

/// A commit is stored once. Where no object id is stored twice, and none is
/// dated in two months by the commits that come or by one that comes and
/// one that is stored, each commit that a run has taken in is stored once
/// after the flush, however often it came: its object id occurs in the pack
/// of its month, and no object id occurs twice in storage, be it in one
/// pack or in two.
pub proof fn lemma_one_copy_of_each_commit(archive: Archive, commits: Seq<CommitView>)
    requires
        archive.unique(),
        one_month_each(commits),
        forall|i: int| 0 <= i < commits.len() ==> archive.agrees_with(#[trigger] commits[i]),
    ensures
        archive.after_run(commits).unique(),
        forall|i: int|
            0 <= i < commits.len() ==> has_oid(
                archive.after_run(commits).pack(
                    (#[trigger] commits[i]).pack_date(),
                ),
                commits[i].oid,
            ),
{
    let run = Run::start(archive);
    let end = run.ingest_all(commits);
    let after = end.flush().archive;
    assert(run.unique()) by {
        assert forall|d1: Seq<char>, d2: Seq<char>, i: int, j: int|
            0 <= i < run.holds(d1).len() && 0 <= j < run.holds(d2).len() && (#[trigger] run.holds(
                d1,
            )[i]).oid == (#[trigger] run.holds(d2)[j]).oid implies d1 == d2 && i == j by {
            assert(archive.pack(d1)[i].oid == archive.pack(d2)[j].oid);
        }
    }
    assert forall|i: int| 0 <= i < commits.len() implies run.agrees_with(#[trigger] commits[i]) by {
        assert(archive.agrees_with(commits[i]));
        assert forall|date: Seq<char>| #[trigger]
            has_oid(run.holds(date), commits[i].oid) implies date == commits[i].pack_date() by {
            assert(has_oid(archive.pack(date), commits[i].oid));
        }
    }
    lemma_ingest_all_unique(run, commits);
    assert forall|d1: Seq<char>, d2: Seq<char>, i: int, j: int|
        0 <= i < after.pack(d1).len() && 0 <= j < after.pack(d2).len() && (#[trigger] after.pack(
            d1,
        )[i]).oid == (#[trigger] after.pack(d2)[j]).oid implies d1 == d2 && i == j by {
        lemma_flush_holds(end, d1);
        lemma_flush_holds(end, d2);
        assert(end.holds(d1)[i].oid == end.holds(d2)[j].oid);
    }
    lemma_ingest_all_held(run, commits);
    assert forall|i: int| 0 <= i < commits.len() implies has_oid(
        after.pack((#[trigger] commits[i]).pack_date()),
        commits[i].oid,
    ) by {
        lemma_flush_holds(end, commits[i].pack_date());
    }
}

} // verus!
