//! What a run finds that begins where another one ended or stopped.

use crate::archive::{lemma_flush_holds, lemma_ingest_all_held, lemma_ingest_holds, Archive, Run};
use crate::commit::{has_oid, CommitView};
use crate::extent::{
    lemma_flush_in_step, lemma_flush_settles, lemma_ingest_in_step, lemma_offer_exact,
    lemma_same_extent, lemma_saved_extent_stays_exact, lemma_start_in_step,
    lemma_widen_all_exact, lemma_widen_all_stored,
};
use vstd::prelude::*;

verus! {

impl Run {
    /// The run has added nothing to what `archive` stores: storage is
    /// `archive` still, the open pack is the stored one, and the working
    /// extent is the saved one.
    pub open spec fn settled_on(self, archive: Archive) -> bool {
        &&& self.archive == archive
        &&& self.state.saved == archive.state
        &&& self.state.unsaved_earliest == archive.state.earliest
        &&& self.state.unsaved_latest == archive.state.latest
        &&& self.state.noted == !archive.state.has_no_data
        &&& match self.state.open {
            Some(pack) => pack.commits == archive.pack(pack.date),
            None => true,
        }
    }
}

/// Taking in a commit that is stored already, by its object id in the pack
/// of its month, adds nothing to what is stored.
pub proof fn lemma_ingest_stored_commit(run: Run, archive: Archive, commit: CommitView)
    requires
        archive.extent_exact(),
        run.settled_on(archive),
        has_oid(archive.pack(commit.pack_date()), commit.oid),
    ensures
        run.ingest(commit).settled_on(archive),
{
    let month = commit.pack_date();
    let flushed = run.flush();
    if run.state.pack().len() > 0 {
        let open = run.state.open->0;
        assert(archive.pack(open.date).len() > 0);
        assert(archive.packs.insert(open.date, open.commits) =~= archive.packs);
        assert(flushed.state == run.state);
    }
    assert(flushed == run);
    let stored = archive.pack(month);
    lemma_widen_all_stored(archive, month, stored.len());
    assert(stored.take(stored.len() as int) =~= stored);
    assert(run.state.working() == archive.state);
}

/// Taking in commits that are all stored already adds nothing to what is
/// stored.
pub proof fn lemma_ingest_all_stored_commits(run: Run, archive: Archive, commits: Seq<CommitView>)
    requires
        archive.extent_exact(),
        run.settled_on(archive),
        forall|i: int|
            0 <= i < commits.len() ==> has_oid(
                archive.pack((#[trigger] commits[i]).pack_date()),
                commits[i].oid,
            ),
    ensures
        run.ingest_all(commits).settled_on(archive),
    decreases commits.len(),
{
    if commits.len() > 0 {
        let rest = commits.drop_last();
        assert forall|i: int| 0 <= i < rest.len() implies has_oid(
            archive.pack((#[trigger] rest[i]).pack_date()),
            rest[i].oid,
        ) by {
            assert(rest[i] == commits[i]);
        }
        lemma_ingest_all_stored_commits(run, archive, rest);
        assert(commits[commits.len() - 1] == commits.last());
        lemma_ingest_stored_commit(run.ingest_all(rest), archive, commits.last());
    }
}

/// A run that is offered nothing but commits that are stored already, each
/// by its object id in the pack of its month, leaves the packs and the state
/// document as they were.
pub proof fn lemma_run_on_stored_commits_changes_nothing(
    archive: Archive,
    commits: Seq<CommitView>,
)
    requires
        archive.extent_exact(),
        forall|i: int|
            0 <= i < commits.len() ==> has_oid(
                archive.pack((#[trigger] commits[i]).pack_date()),
                commits[i].oid,
            ),
    ensures
        archive.after_run(commits) == archive,
{
    let run = Run::start(archive);
    let end = run.ingest_all(commits);
    lemma_ingest_all_stored_commits(run, archive, commits);
    if end.state.pack().len() > 0 {
        let open = end.state.open->0;
        assert(archive.pack(open.date).len() > 0);
        assert(archive.packs.insert(open.date, open.commits) =~= archive.packs);
    }
}

/// A run that finds nothing new changes nothing. A second run that is
/// served the commits of the first one again leaves the packs and the state
/// document as the first run left them.
pub proof fn lemma_second_run_changes_nothing(archive: Archive, commits: Seq<CommitView>)
    requires
        archive.extent_exact(),
    ensures
        archive.after_run(commits).after_run(commits) == archive.after_run(commits),
{
    let first = Run::start(archive).ingest_all(commits);
    let left = first.flush().archive;
    lemma_saved_extent_stays_exact(archive, commits);
    lemma_ingest_all_held(Run::start(archive), commits);
    assert forall|i: int| 0 <= i < commits.len() implies has_oid(
        left.pack((#[trigger] commits[i]).pack_date()),
        commits[i].oid,
    ) by {
        lemma_flush_holds(first, commits[i].pack_date());
    }
    lemma_run_on_stored_commits_changes_nothing(left, commits);
}

/// Whatever a run does, each pack in storage goes on from what it held.
pub proof fn lemma_ingest_all_keeps_stored(run: Run, commits: Seq<CommitView>, date: Seq<char>)
    requires
        run.coherent(),
    ensures
        run.ingest_all(commits).coherent(),
        run.archive.pack(date).is_prefix_of(run.ingest_all(commits).archive.pack(date)),
        run.archive.pack(date).is_prefix_of(
            run.ingest_all(commits).write_pack().archive.pack(date),
        ),
        run.archive.pack(date).is_prefix_of(run.ingest_all(commits).flush().archive.pack(date)),
    decreases commits.len(),
{
    if commits.len() > 0 {
        let before = run.ingest_all(commits.drop_last());
        let last = commits.last();
        lemma_ingest_all_keeps_stored(run, commits.drop_last(), date);
        lemma_ingest_holds(before, last, last.pack_date());
        lemma_flush_holds(before, date);
    }
    let end = run.ingest_all(commits);
    lemma_flush_holds(end, date);
}

/// A run that stops loses nothing. Wherever a run stops, be it between two
/// commits, between the two writes of a flush or after its last flush, no
/// commit that was stored when it began is lost: each pack in storage
/// begins with what it held then. The state document is not written before
/// the pack that it belongs to.
pub proof fn lemma_stopped_run_loses_nothing(
    archive: Archive,
    commits: Seq<CommitView>,
    date: Seq<char>,
)
    ensures
        archive.pack(date).is_prefix_of(Run::start(archive).ingest_all(commits).archive.pack(date)),
        archive.pack(date).is_prefix_of(
            Run::start(archive).ingest_all(commits).write_pack().archive.pack(date),
        ),
        archive.pack(date).is_prefix_of(
            archive.after_run(commits).pack(date),
        ),
        Run::start(archive).ingest_all(commits).write_pack().archive.state == Run::start(
            archive,
        ).ingest_all(commits).archive.state,
{
    lemma_ingest_all_keeps_stored(Run::start(archive), commits, date);
}

/// A run that begins on what a stopped run has left takes in a commit that
/// is stored already without any change to a pack.
pub proof fn lemma_stored_commit_is_dropped(archive: Archive, commit: CommitView, date: Seq<char>)
    requires
        has_oid(archive.pack(commit.pack_date()), commit.oid),
    ensures
        Run::start(archive).ingest(commit).holds(date) == archive.pack(date),
{
    lemma_ingest_holds(Run::start(archive), commit, date);
}

/// A run that stops between the two writes of a flush leaves one pack ahead
/// of the state document: the saved extent is exact for storage without
/// what that pack holds beyond the commits that it held before the write.
pub proof fn lemma_stopped_run_leaves_one_pack_ahead(run: Run)
    requires
        run.in_step(),
        run.state.open is Some,
    ensures
        run.write_pack().archive.upto(
            run.state.open->0.date,
            run.archive.pack(run.state.open->0.date).len(),
        ).extent_exact(),
{
    let open = run.state.open->0;
    let n = run.archive.pack(open.date).len();
    let left = run.write_pack().archive.upto(open.date, n);
    assert forall|date: Seq<char>| #[trigger] run.archive.pack(date) == left.pack(date) by {
        if date == open.date {
            assert(left.pack(date) =~= run.archive.pack(date));
        }
    }
    lemma_same_extent(run.archive, left);
}

/// A flush commutes with leaving out the end of a pack that is not open.
pub proof fn lemma_cut_flush(run: Run, date: Seq<char>, n: nat)
    requires
        run.state.pack_date() != Some(date),
    ensures
        run.flush().cut(date, n) == run.cut(date, n).flush(),
{
    let a = run.flush().cut(date, n);
    let b = run.cut(date, n).flush();
    assert(a.archive.packs =~= b.archive.packs);
}

/// Taking in a commit of another month commutes with leaving out the end of
/// a pack that is not open.
pub proof fn lemma_cut_ingest(run: Run, date: Seq<char>, n: nat, commit: CommitView)
    requires
        run.state.pack_date() != Some(date),
        commit.pack_date() != date,
    ensures
        run.ingest(commit).cut(date, n) == run.cut(date, n).ingest(commit),
        run.ingest(commit).state.pack_date() != Some(date),
{
    let month = commit.pack_date();
    lemma_cut_flush(run, date, n);
    let a = run.ingest(commit).cut(date, n);
    let b = run.cut(date, n).ingest(commit);
    if run.state.pack_date() != Some(month) {
        let flushed = run.flush();
        let cut = run.cut(date, n).flush();
        assert(cut.archive == flushed.archive.upto(date, n));
        assert(cut.archive.pack(month) == flushed.archive.pack(month));
        assert(a.state == b.state);
    }
    assert(a.archive.packs =~= b.archive.packs);
}

/// A second flush changes nothing.
pub proof fn lemma_flush_twice(run: Run)
    ensures
        run.flush().flush() == run.flush(),
{
    let once = run.flush();
    assert(once.flush().archive.packs =~= once.archive.packs);
}

/// A run behind which one pack is ahead of the state document catches up
/// when it takes in a commit of that pack: the pack is loaded, and each of
/// its commits is noted.
pub proof fn lemma_ingest_catches_up(run: Run, date: Seq<char>, n: nat, commit: CommitView)
    requires
        run.behind(date, n),
        commit.pack_date() == date,
    ensures
        run.ingest(commit).caught_up(date, n),
{
    let cut = run.cut(date, n);
    let flushed = run.flush();
    let loaded = run.switch_to(date);
    lemma_cut_flush(run, date, n);
    lemma_flush_in_step(cut);
    let base = flushed.cut(date, n).held();
    let grown = loaded.held();
    assert(run.coherent());
    lemma_flush_holds(run, date);
    assert(base.pack(date).is_prefix_of(grown.pack(date))) by {
        assert(grown.pack(date) == flushed.archive.pack(date));
        if n < flushed.archive.pack(date).len() {
            assert(base.pack(date) == flushed.archive.pack(date).take(n as int));
        }
    }
    assert forall|d: Seq<char>| d != date implies #[trigger] grown.pack(d) == base.pack(d) by {
        lemma_flush_holds(run, d);
        lemma_flush_holds(cut, d);
    }
    lemma_widen_all_exact(base, grown, date);
    assert(loaded.settling(n));
    lemma_offer_exact(loaded, commit);
}

/// A run that has caught up stays so with every commit that it takes in.
pub proof fn lemma_ingest_stays_caught_up(run: Run, date: Seq<char>, n: nat, commit: CommitView)
    requires
        run.caught_up(date, n),
    ensures
        run.ingest(commit).caught_up(date, n),
{
    if run.in_step() {
        lemma_ingest_in_step(run, commit);
    } else if commit.pack_date() == date {
        lemma_offer_exact(run, commit);
    } else {
        lemma_flush_settles(run, n);
        lemma_flush_twice(run);
        assert(run.ingest(commit) == run.flush().ingest(commit));
        lemma_ingest_in_step(run.flush(), commit);
    }
}

/// A run behind which one pack is ahead of the state document stays behind
/// it or catches up with every commit that it takes in, and has caught up
/// once it has taken in a commit of that pack.
pub proof fn lemma_ingest_all_catches_up(
    run: Run,
    date: Seq<char>,
    n: nat,
    commits: Seq<CommitView>,
)
    requires
        run.behind(date, n) || run.caught_up(date, n),
    ensures
        run.ingest_all(commits).behind(date, n) || run.ingest_all(commits).caught_up(date, n),
        run.caught_up(date, n) ==> run.ingest_all(commits).caught_up(date, n),
        (exists|i: int| 0 <= i < commits.len() && (#[trigger] commits[i]).pack_date() == date)
            ==> run.ingest_all(commits).caught_up(date, n),
    decreases commits.len(),
{
    if commits.len() > 0 {
        let rest = commits.drop_last();
        let last = commits.last();
        let before = run.ingest_all(rest);
        lemma_ingest_all_catches_up(run, date, n, rest);
        if before.caught_up(date, n) {
            lemma_ingest_stays_caught_up(before, date, n, last);
        } else if last.pack_date() == date {
            lemma_ingest_catches_up(before, date, n, last);
        } else {
            lemma_cut_ingest(before, date, n, last);
            lemma_ingest_in_step(before.cut(date, n), last);
            assert forall|i: int| 0 <= i < commits.len() implies (#[trigger] commits[i]).pack_date()
                != date by {
                if i < rest.len() {
                    assert(rest[i] == commits[i]);
                }
            }
        }
    }
}

/// The saved extent catches up with storage that a stopped run has left.
/// Where one pack is ahead of the state document, so that the saved extent
/// is exact only for storage without what that pack holds beyond its first
/// `n` commits, the saved extent is exact for all of storage after a run
/// that was served a commit of that pack and has flushed.
pub proof fn lemma_extent_catches_up(
    archive: Archive,
    date: Seq<char>,
    n: nat,
    commits: Seq<CommitView>,
)
    requires
        archive.upto(date, n).extent_exact(),
        exists|i: int| 0 <= i < commits.len() && (#[trigger] commits[i]).pack_date() == date,
    ensures
        archive.after_run(commits).extent_exact(),
        !archive.after_run(commits).state.has_no_data,
{
    let run = Run::start(archive);
    let end = run.ingest_all(commits);
    lemma_start_in_step(archive.upto(date, n));
    assert(run.cut(date, n) == Run::start(archive.upto(date, n)));
    lemma_ingest_all_catches_up(run, date, n, commits);
    if end.in_step() {
        lemma_flush_in_step(end);
    } else {
        lemma_flush_settles(end, n);
    }
    let month = commits[0].pack_date();
    lemma_ingest_all_held(run, commits);
    lemma_flush_holds(end, month);
    assert(end.flush().archive.pack(month).len() > 0);
}

/// A second run after a stopped one changes nothing. Where one pack is
/// ahead of the state document, a run that is served a commit of that pack
/// leaves storage such that a further run that is served the same commits
/// leaves the packs and the state document as they are.
pub proof fn lemma_second_run_after_a_stop_changes_nothing(
    archive: Archive,
    date: Seq<char>,
    n: nat,
    commits: Seq<CommitView>,
)
    requires
        archive.upto(date, n).extent_exact(),
        exists|i: int| 0 <= i < commits.len() && (#[trigger] commits[i]).pack_date() == date,
    ensures
        archive.after_run(commits).after_run(commits) == archive.after_run(commits),
{
    let first = Run::start(archive).ingest_all(commits);
    let left = first.flush().archive;
    lemma_extent_catches_up(archive, date, n, commits);
    lemma_ingest_all_held(Run::start(archive), commits);
    assert forall|i: int| 0 <= i < commits.len() implies has_oid(
        left.pack((#[trigger] commits[i]).pack_date()),
        commits[i].oid,
    ) by {
        lemma_flush_holds(first, commits[i].pack_date());
    }
    lemma_run_on_stored_commits_changes_nothing(left, commits);
}

} // verus!
