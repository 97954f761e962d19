//! The harvested extent: the earliest and the latest commit that are stored.

use crate::archive::{
    lemma_flush_holds, lemma_ingest_all_held, lemma_switch_holds, Archive, Run,
};
use crate::commit::CommitView;
use crate::data_state::{marks, spans};
use vstd::prelude::*;

verus! {

impl Archive {
    /// The saved extent is exact: while the state document has no data no
    /// commit is stored; after that its earliest mark is a stored commit of
    /// the least date, and its latest mark one of the greatest date.
    pub open spec fn extent_exact(self) -> bool {
        if self.state.has_no_data {
            forall|date: Seq<char>| (#[trigger] self.pack(date)).len() == 0
        } else {
            &&& forall|date: Seq<char>, i: int|
                0 <= i < self.pack(date).len() ==> spans(
                    self.state.earliest,
                    self.state.latest,
                    #[trigger] self.pack(date)[i],
                )
            &&& exists|date: Seq<char>, i: int|
                0 <= i < self.pack(date).len() && marks(
                    self.state.earliest,
                    #[trigger] self.pack(date)[i],
                )
            &&& exists|date: Seq<char>, i: int|
                0 <= i < self.pack(date).len() && marks(
                    self.state.latest,
                    #[trigger] self.pack(date)[i],
                )
        }
    }

    /// Storage without what the pack `date` holds beyond its first `n`
    /// commits.
    pub open spec fn upto(self, date: Seq<char>, n: nat) -> Archive {
        Archive {
            state: self.state,
            packs: Map::new(
                |d: Seq<char>| true,
                |d: Seq<char>|
                    if d == date && n < self.pack(d).len() {
                        self.pack(d).take(n as int)
                    } else {
                        self.pack(d)
                    },
            ),
        }
    }
}

impl Run {
    /// What storage would be if all that the run holds were written now,
    /// with the working extent for its state document.
    pub open spec fn held(self) -> Archive {
        Archive {
            state: self.state.working(),
            packs: Map::new(|d: Seq<char>| true, |d: Seq<char>| self.holds(d)),
        }
    }

    /// The working extent is exact: while nothing is noted the run holds no
    /// commit; after that the earliest working mark is a held commit of the
    /// least date, and the latest one a held commit of the greatest date.
    pub open spec fn working_extent_exact(self) -> bool {
        self.held().extent_exact()
    }

    /// The open pack continues the stored one, the state in memory has the
    /// saved extent of the state document, the working extent is exact, and
    /// the saved extent is exact for storage without what the open pack
    /// holds there beyond its first `n` commits.
    pub open spec fn settling(self, n: nat) -> bool {
        &&& self.coherent()
        &&& self.state.saved == self.archive.state
        &&& self.working_extent_exact()
        &&& (!self.state.saved.has_no_data ==> self.state.noted)
        &&& match self.state.open {
            Some(pack) => self.archive.upto(pack.date, n).extent_exact(),
            None => self.archive.extent_exact(),
        }
    }

    /// Memory and storage are in step: the open pack continues the stored
    /// one, the state in memory has the saved extent of the state document,
    /// and both extents are exact.
    pub open spec fn in_step(self) -> bool {
        &&& self.coherent()
        &&& self.state.saved == self.archive.state
        &&& self.archive.extent_exact()
        &&& self.working_extent_exact()
        &&& (!self.state.saved.has_no_data ==> self.state.noted)
    }

    /// The run on storage without what the pack `date` holds beyond its
    /// first `n` commits.
    pub open spec fn cut(self, date: Seq<char>, n: nat) -> Run {
        Run { archive: self.archive.upto(date, n), state: self.state }
    }

    /// The pack `date` is ahead of the state document and has not been
    /// opened: apart from what it holds beyond its first `n` commits, memory
    /// and storage are in step.
    pub open spec fn behind(self, date: Seq<char>, n: nat) -> bool {
        self.state.pack_date() != Some(date) && self.cut(date, n).in_step()
    }

    /// The pack `date` was ahead of the state document and is open, or all
    /// is in step.
    pub open spec fn caught_up(self, date: Seq<char>, n: nat) -> bool {
        (self.state.pack_date() == Some(date) && self.settling(n)) || self.in_step()
    }
}

/// An exact extent is exact for any storage with the same state document and
/// the same commits in each pack.
pub proof fn lemma_same_extent(a: Archive, b: Archive)
    requires
        a.extent_exact(),
        a.state == b.state,
        forall|date: Seq<char>| #[trigger] a.pack(date) == b.pack(date),
    ensures
        b.extent_exact(),
{
    if a.state.has_no_data {
        assert forall|date: Seq<char>| (#[trigger] b.pack(date)).len() == 0 by {
            assert(a.pack(date).len() == 0);
        }
    } else {
        assert forall|date: Seq<char>, i: int| 0 <= i < b.pack(date).len() implies spans(
            b.state.earliest,
            b.state.latest,
            #[trigger] b.pack(date)[i],
        ) by {
            assert(a.pack(date) == b.pack(date));
            assert(spans(a.state.earliest, a.state.latest, a.pack(date)[i]));
        }
        let (d1, i1) = choose|date: Seq<char>, i: int|
            0 <= i < a.pack(date).len() && marks(a.state.earliest, #[trigger] a.pack(date)[i]);
        assert(a.pack(d1) == b.pack(d1));
        assert(marks(b.state.earliest, b.pack(d1)[i1]));
        let (d2, i2) = choose|date: Seq<char>, i: int|
            0 <= i < a.pack(date).len() && marks(a.state.latest, #[trigger] a.pack(date)[i]);
        assert(a.pack(d2) == b.pack(d2));
        assert(marks(b.state.latest, b.pack(d2)[i2]));
    }
}

/// An exact extent that is widened by a commit is exact for storage with
/// that commit at the end of one pack.
pub proof fn lemma_widen_exact(a: Archive, b: Archive, date: Seq<char>, commit: CommitView)
    requires
        a.extent_exact(),
        b.state == a.state.widen(commit.oid, commit.committed_date),
        b.pack(date) == a.pack(date).push(commit),
        forall|d: Seq<char>| d != date ==> #[trigger] b.pack(d) == a.pack(d),
    ensures
        b.extent_exact(),
{
    let end = a.pack(date).len() as int;
    assert(b.pack(date)[end] == commit);
    assert forall|d: Seq<char>, i: int| 0 <= i < b.pack(d).len() implies spans(
        b.state.earliest,
        b.state.latest,
        #[trigger] b.pack(d)[i],
    ) by {
        if d == date && i == end {
        } else {
            if d != date {
                assert(b.pack(d) == a.pack(d));
            }
            assert(b.pack(d)[i] == a.pack(d)[i]);
            assert(a.pack(d).len() > 0);
            assert(spans(a.state.earliest, a.state.latest, a.pack(d)[i]));
        }
    }
    if marks(b.state.earliest, commit) {
        assert(marks(b.state.earliest, b.pack(date)[end]));
    } else {
        assert(!a.state.has_no_data);
        let (d1, i1) = choose|d: Seq<char>, i: int|
            0 <= i < a.pack(d).len() && marks(a.state.earliest, #[trigger] a.pack(d)[i]);
        if d1 != date {
            assert(b.pack(d1) == a.pack(d1));
        }
        assert(b.pack(d1)[i1] == a.pack(d1)[i1]);
        assert(marks(b.state.earliest, b.pack(d1)[i1]));
    }
    if marks(b.state.latest, commit) {
        assert(marks(b.state.latest, b.pack(date)[end]));
    } else {
        assert(!a.state.has_no_data);
        let (d2, i2) = choose|d: Seq<char>, i: int|
            0 <= i < a.pack(d).len() && marks(a.state.latest, #[trigger] a.pack(d)[i]);
        if d2 != date {
            assert(b.pack(d2) == a.pack(d2));
        }
        assert(b.pack(d2)[i2] == a.pack(d2)[i2]);
        assert(marks(b.state.latest, b.pack(d2)[i2]));
    }
}

/// An exact extent stays as it is when it is widened by commits that are
/// stored.
pub proof fn lemma_widen_all_stored(a: Archive, date: Seq<char>, m: nat)
    requires
        a.extent_exact(),
        m <= a.pack(date).len(),
    ensures
        a.state.widen_all(a.pack(date).take(m as int)) == a.state,
    decreases m,
{
    if m > 0 {
        let some = a.pack(date).take(m as int);
        lemma_widen_all_stored(a, date, (m - 1) as nat);
        assert(some.drop_last() =~= a.pack(date).take(m - 1));
        assert(some.last() == a.pack(date)[m - 1]);
        assert(spans(a.state.earliest, a.state.latest, a.pack(date)[m - 1]));
    }
}

/// An exact extent that is widened by all the commits of a pack is exact for
/// storage in which that pack has grown to these commits.
pub proof fn lemma_widen_all_exact(a: Archive, b: Archive, date: Seq<char>)
    requires
        a.extent_exact(),
        a.pack(date).is_prefix_of(b.pack(date)),
        forall|d: Seq<char>| d != date ==> #[trigger] b.pack(d) == a.pack(d),
        b.state == a.state.widen_all(b.pack(date)),
    ensures
        b.extent_exact(),
    decreases b.pack(date).len(),
{
    let grown = b.pack(date);
    if grown.len() == a.pack(date).len() {
        assert(grown =~= a.pack(date));
        lemma_widen_all_stored(a, date, a.pack(date).len());
        assert(a.pack(date).take(a.pack(date).len() as int) =~= a.pack(date));
        assert forall|d: Seq<char>| #[trigger] a.pack(d) == b.pack(d) by {
            if d != date {
                assert(b.pack(d) == a.pack(d));
            }
        }
        lemma_same_extent(a, b);
    } else {
        let shorter = grown.drop_last();
        let mid = Archive {
            state: a.state.widen_all(shorter),
            packs: Map::new(
                |d: Seq<char>| true,
                |d: Seq<char>|
                    if d == date {
                        shorter
                    } else {
                        a.pack(d)
                    },
            ),
        };
        assert(mid.pack(date) == shorter);
        assert forall|d: Seq<char>| d != date implies #[trigger] mid.pack(d) == a.pack(d) by {}
        lemma_widen_all_exact(a, mid, date);
        assert(grown =~= shorter.push(grown.last()));
        assert forall|d: Seq<char>| d != date implies #[trigger] b.pack(d) == mid.pack(d) by {
            assert(b.pack(d) == a.pack(d));
            assert(mid.pack(d) == a.pack(d));
        }
        lemma_widen_exact(mid, b, date, grown.last());
    }
}

/// A flush of a run whose open pack is ahead of the state document puts all
/// in step.
pub proof fn lemma_flush_settles(run: Run, n: nat)
    requires
        run.settling(n),
    ensures
        run.flush().in_step(),
{
    let after = run.flush();
    let held = run.held();
    if run.state.pack().len() > 0 {
        let open = run.state.open->0;
        assert(held.pack(open.date).len() > 0);
        assert(run.state.noted);
        assert forall|date: Seq<char>| #[trigger] held.pack(date) == after.archive.pack(date) by {
            lemma_flush_holds(run, date);
        }
        lemma_same_extent(held, after.archive);
        assert forall|date: Seq<char>| #[trigger] held.pack(date) == after.held().pack(date) by {
            lemma_flush_holds(run, date);
        }
        lemma_same_extent(held, after.held());
        lemma_flush_holds(run, open.date);
    } else {
        match run.state.open {
            Some(open) => {
                let cut = run.archive.upto(open.date, n);
                assert(run.archive.pack(open.date) =~= Seq::empty());
                assert forall|date: Seq<char>| #[trigger] cut.pack(date) == run.archive.pack(
                    date,
                ) by {}
                lemma_same_extent(cut, run.archive);
            },
            None => {},
        }
    }
}

/// A flush keeps memory and storage in step.
pub proof fn lemma_flush_in_step(run: Run)
    requires
        run.in_step(),
    ensures
        run.flush().in_step(),
{
    match run.state.open {
        Some(open) => {
            let n = run.archive.pack(open.date).len();
            let cut = run.archive.upto(open.date, n);
            assert forall|date: Seq<char>| #[trigger] run.archive.pack(date) == cut.pack(date) by {}
            lemma_same_extent(run.archive, cut);
            lemma_flush_settles(run, n);
        },
        None => {
            lemma_flush_settles(run, 0);
        },
    }
}

/// Making another pack the open one keeps memory and storage in step.
pub proof fn lemma_switch_in_step(run: Run, to: Seq<char>)
    requires
        run.in_step(),
    ensures
        run.switch_to(to).in_step(),
        run.switch_to(to).state.pack_date() == Some(to),
{
    let flushed = run.flush();
    let after = run.switch_to(to);
    lemma_flush_in_step(run);
    lemma_switch_holds(run, to, to);
    if run.state.pack_date() != Some(to) {
        let held = flushed.held();
        let stored = flushed.archive.pack(to);
        lemma_flush_holds(run, to);
        assert(held.pack(to) == stored);
        lemma_widen_all_stored(held, to, stored.len());
        assert(stored.take(stored.len() as int) =~= stored);
        assert(after.state.working() == flushed.state.working());
        assert forall|date: Seq<char>| #[trigger] held.pack(date) == after.held().pack(date) by {
            lemma_flush_holds(run, date);
            lemma_switch_holds(run, to, date);
        }
        lemma_same_extent(held, after.held());
    }
}

/// Offering a commit to the open pack keeps the working extent exact.
pub proof fn lemma_offer_exact(at: Run, commit: CommitView)
    requires
        at.coherent(),
        at.working_extent_exact(),
        at.state.pack_date() == Some(commit.pack_date()),
    ensures
        (Run { archive: at.archive, state: at.state.offer(commit) }).working_extent_exact(),
        (Run { archive: at.archive, state: at.state.offer(commit) }).coherent(),
{
    let month = commit.pack_date();
    let after = Run { archive: at.archive, state: at.state.offer(commit) };
    if at.state.takes(month, commit) {
        assert(after.held().pack(month) == at.held().pack(month).push(commit));
        assert forall|d: Seq<char>| d != month implies #[trigger] after.held().pack(d)
            == at.held().pack(d) by {}
        lemma_widen_exact(at.held(), after.held(), month, commit);
    } else {
        assert(after == at);
    }
}

/// Taking in a commit keeps memory and storage in step.
pub proof fn lemma_ingest_in_step(run: Run, commit: CommitView)
    requires
        run.in_step(),
    ensures
        run.ingest(commit).in_step(),
{
    let month = commit.pack_date();
    let at = run.switch_to(month);
    lemma_switch_in_step(run, month);
    lemma_offer_exact(at, commit);
}

/// Taking in commits keeps memory and storage in step.
pub proof fn lemma_ingest_all_in_step(run: Run, commits: Seq<CommitView>)
    requires
        run.in_step(),
    ensures
        run.ingest_all(commits).in_step(),
    decreases commits.len(),
{
    if commits.len() > 0 {
        lemma_ingest_all_in_step(run, commits.drop_last());
        lemma_ingest_in_step(run.ingest_all(commits.drop_last()), commits.last());
    }
}

/// A run that begins on storage with an exact extent is in step.
pub proof fn lemma_start_in_step(archive: Archive)
    requires
        archive.extent_exact(),
    ensures
        Run::start(archive).in_step(),
{
    let run = Run::start(archive);
    assert forall|date: Seq<char>| #[trigger] archive.pack(date) == run.held().pack(date) by {}
    lemma_same_extent(archive, run.held());
}

/// The saved extent spans what is stored, and no more. Where the saved
/// extent is exact, it is exact again after a run has taken in any commits
/// and has flushed: its earliest mark is a stored commit of the least date
/// among all stored commits, and its latest mark one of the greatest date.
/// Once a commit has been taken in, the state document has data.
pub proof fn lemma_saved_extent_stays_exact(archive: Archive, commits: Seq<CommitView>)
    requires
        archive.extent_exact(),
    ensures
        archive.after_run(commits).extent_exact(),
        commits.len() > 0 ==> !archive.after_run(commits).state.has_no_data,
{
    let run = Run::start(archive);
    let end = run.ingest_all(commits);
    lemma_start_in_step(archive);
    lemma_ingest_all_in_step(run, commits);
    lemma_flush_in_step(end);
    if commits.len() > 0 {
        let month = commits[0].pack_date();
        lemma_ingest_all_held(run, commits);
        lemma_flush_holds(end, month);
        assert(end.flush().archive.pack(month).len() > 0);
    }
}

} // verus!
