//! What a harvest leaves in storage.
//!
//! Storage is a state document and one pack document for each month. A run
//! reads the state document once, holds one pack in memory at a time, and
//! writes a pack back together with the state document. This module states
//! that way of working over the values of [`crate::data_state`]: what the
//! caller of [`crate::data_state::DataState`] does to storage with what the
//! state hands out, and what it hands back. It follows a run whose packs
//! are in order when they are loaded, as they are on storage that runs have
//! written; the state refuses any other pack. The modules [`crate::packs`],
//! [`crate::extent`] and [`crate::restart`] prove what a run keeps of the
//! stored commits and of the harvested extent.

use crate::commit::{has_oid, views, with_commit, CommitStats, CommitView};
use crate::data_state::{flushes, DocumentView, PackFlush, StateView};
use vstd::prelude::*;

verus! {

/// What is stored: the state document, and the pack documents by their keys.
pub struct Archive {
    pub state: DocumentView,
    pub packs: Map<Seq<char>, Seq<CommitView>>,
}

impl Archive {
    /// The commits stored under the key `date`, none where no such pack
    /// exists.
    pub open spec fn pack(self, date: Seq<char>) -> Seq<CommitView> {
        if self.packs.contains_key(date) {
            self.packs[date]
        } else {
            Seq::empty()
        }
    }

    /// What reading the pack `date` gives: its commits, or `None` where no
    /// such pack exists.
    pub open spec fn read(self, date: Seq<char>) -> Option<Seq<CommitView>> {
        if self.packs.contains_key(date) {
            Some(self.packs[date])
        } else {
            None
        }
    }
}

/// A run in progress: what is stored, and the state in memory.
pub struct Run {
    pub archive: Archive,
    pub state: StateView,
}

impl Run {
    /// The beginning of a run on what is stored.
    pub open spec fn start(archive: Archive) -> Run {
        Run { archive, state: StateView::from_document(archive.state) }
    }

    /// The run after the open pack has been written and the state document
    /// has not: the first half of a flush. An empty pack is not written.
    pub open spec fn write_pack(self) -> Run {
        match self.state.open {
            Some(pack) => if pack.commits.len() == 0 {
                self
            } else {
                Run {
                    archive: Archive {
                        packs: self.archive.packs.insert(pack.date, pack.commits),
                        ..self.archive
                    },
                    ..self
                }
            },
            None => self,
        }
    }

    /// The run after a flush: the open pack is written in place of what was
    /// stored under its key, and then the state document with the working
    /// extent. Nothing happens where the open pack is empty.
    pub open spec fn flush(self) -> Run {
        if self.state.pack().len() == 0 {
            self
        } else {
            let state = self.state.save_pack();
            Run {
                archive: Archive { state: state.saved, packs: self.write_pack().archive.packs },
                state,
            }
        }
    }

    /// The run after the pack `date` has been made the open one: nothing
    /// happens where it is open already, else the open pack is flushed and
    /// the other one read.
    pub open spec fn switch_to(self, date: Seq<char>) -> Run {
        if self.state.pack_date() == Some(date) {
            self
        } else {
            let flushed = self.flush();
            Run {
                archive: flushed.archive,
                state: flushed.state.load(date, flushed.archive.read(date)),
            }
        }
    }

    /// The run after one commit has been taken in: its pack is made the open
    /// one and the commit is offered to it.
    pub open spec fn ingest(self, commit: CommitView) -> Run {
        let at = self.switch_to(commit.pack_date());
        Run { archive: at.archive, state: at.state.offer(commit) }
    }

    /// The run after the commits have been taken in, in their order.
    pub open spec fn ingest_all(self, commits: Seq<CommitView>) -> Run
        decreases commits.len(),
    {
        if commits.len() == 0 {
            self
        } else {
            self.ingest_all(commits.drop_last()).ingest(commits.last())
        }
    }

    /// The commits that the run holds for the month `date`: those of the
    /// open pack where that is the one, else those that are stored.
    pub open spec fn holds(self, date: Seq<char>) -> Seq<CommitView> {
        if self.state.pack_date() == Some(date) {
            self.state.pack()
        } else {
            self.archive.pack(date)
        }
    }

    /// The open pack begins with what is stored under its key.
    pub open spec fn coherent(self) -> bool {
        match self.state.open {
            Some(pack) => self.archive.pack(pack.date).is_prefix_of(pack.commits),
            None => true,
        }
    }
}

impl Archive {
    /// Storage after a whole run that was served `commits`: from the reading
    /// of the state document to the last flush.
    pub open spec fn after_run(self, commits: Seq<CommitView>) -> Archive {
        Run::start(self).ingest_all(commits).flush().archive
    }
}

/// Storage after what a save has handed out has been written: the pack in
/// place of what was stored under its key, and the state document. Nothing
/// is written where nothing was handed out.
pub open spec fn written(archive: Archive, flush: Option<PackFlush<CommitStats>>) -> Archive {
    match flush {
        Some(flush) => Archive {
            state: flush.state@,
            packs: archive.packs.insert(flush.pack_date@, views(flush.commits@)),
        },
        None => archive,
    }
}

/// Writing what the state hands out when its open pack is saved is a flush.
pub proof fn lemma_flush_is_written(run: Run, flush: Option<PackFlush<CommitStats>>)
    requires
        flushes(flush, run.state),
    ensures
        written(run.archive, flush) == run.flush().archive,
        run.flush().state == run.state.save_pack(),
{
}

/// Taking in a commit is offering it to the state and, where it comes back,
/// writing what came with it, loading what is stored for its month, and
/// offering it again.
pub proof fn lemma_ingest_by_offers(run: Run, commit: CommitView)
    ensures
        run.ingest(commit) == if run.state.pack_date() == Some(commit.pack_date()) {
            Run { archive: run.archive, state: run.state.offer(commit) }
        } else {
            let archive = run.flush().archive;
            let month = commit.pack_date();
            Run {
                archive,
                state: run.state.offer(commit).load(month, archive.read(month)).offer(commit),
            }
        },
{
}

/// A flush changes nothing of what the run holds for any month, and leaves
/// all of it stored.
pub proof fn lemma_flush_holds(run: Run, date: Seq<char>)
    requires
        run.coherent(),
    ensures
        run.flush().coherent(),
        run.flush().holds(date) == run.holds(date),
        run.flush().archive.pack(date) == run.holds(date),
        run.flush().state.open == run.state.open,
{
    if run.state.pack_date() == Some(date) && run.state.pack().len() == 0 {
        assert(run.archive.pack(date) =~= Seq::empty());
    }
}

/// Making another pack the open one changes nothing of what the run holds
/// for any month.
pub proof fn lemma_switch_holds(run: Run, to: Seq<char>, date: Seq<char>)
    requires
        run.coherent(),
    ensures
        run.switch_to(to).coherent(),
        run.switch_to(to).holds(date) == run.holds(date),
        run.switch_to(to).state.pack_date() == Some(to),
{
    if run.state.pack_date() != Some(to) {
        lemma_flush_holds(run, date);
        lemma_flush_holds(run, to);
    }
}

/// Taking in a commit adds it to what the run holds for its month, unless a
/// commit with its object id is held there already, and changes nothing of
/// what the run holds for any other month.
pub proof fn lemma_ingest_holds(run: Run, commit: CommitView, date: Seq<char>)
    requires
        run.coherent(),
    ensures
        run.ingest(commit).coherent(),
        run.ingest(commit).holds(date) == if date == commit.pack_date() {
            with_commit(run.holds(date), commit)
        } else {
            run.holds(date)
        },
        run.ingest(commit).state.pack_date() == Some(commit.pack_date()),
{
    let to = commit.pack_date();
    lemma_switch_holds(run, to, date);
    lemma_switch_holds(run, to, to);
}

/// A commit with the object id `oid` is still in a pack after another
/// commit has been offered to the pack.
pub proof fn lemma_with_commit_keeps(pack: Seq<CommitView>, commit: CommitView, oid: Seq<char>)
    requires
        has_oid(pack, oid) || oid == commit.oid,
    ensures
        has_oid(with_commit(pack, commit), oid),
{
    let after = with_commit(pack, commit);
    if has_oid(pack, oid) {
        let i = choose|i: int| 0 <= i < pack.len() && (#[trigger] pack[i]).oid == oid;
        assert(after[i].oid == oid);
    } else {
        assert(after[pack.len() as int].oid == oid);
    }
}

/// After a run has taken in commits it holds each of them, or a commit with
/// its object id, in the pack of its month.
pub proof fn lemma_ingest_all_held(run: Run, commits: Seq<CommitView>)
    requires
        run.coherent(),
    ensures
        run.ingest_all(commits).coherent(),
        forall|i: int|
            0 <= i < commits.len() ==> has_oid(
                run.ingest_all(commits).holds((#[trigger] commits[i]).pack_date()),
                commits[i].oid,
            ),
    decreases commits.len(),
{
    if commits.len() > 0 {
        let before = run.ingest_all(commits.drop_last());
        let last = commits.last();
        let after = before.ingest(last);
        lemma_ingest_all_held(run, commits.drop_last());
        lemma_ingest_holds(before, last, last.pack_date());
        assert forall|i: int| 0 <= i < commits.len() implies has_oid(
            after.holds((#[trigger] commits[i]).pack_date()),
            commits[i].oid,
        ) by {
            let date = commits[i].pack_date();
            lemma_ingest_holds(before, last, date);
            if i < commits.len() - 1 {
                assert(commits.drop_last()[i] == commits[i]);
                lemma_with_commit_keeps(before.holds(date), last, commits[i].oid);
            } else {
                lemma_with_commit_keeps(before.holds(date), last, last.oid);
            }
        }
    }
}

} // verus!
