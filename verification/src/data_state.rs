//! The state of a harvest: the extent that has been harvested so far and the
//! pack that is open.
//!
//! Nothing here reads or writes a file. A function that has something to be
//! written hands it out, and one that needs what a file holds takes it as an
//! argument. A run goes like this:
//!
//! - [`DataState::from_file`] takes what the state file holds.
//! - [`CommitPack::add_commit`] takes each commit. Where it answers
//!   [`Ingest::Switch`], the caller writes the [`PackFlush`] that came with
//!   it, if one did, reads the pack whose key came with it, hands that to
//!   [`CommitPack::load_pack`], and offers the commit again. A stored pack
//!   that holds an object id twice or a commit of another month is refused:
//!   storage is out of order, and the run ends.
//! - [`CommitPack::save_curr_pack`] hands out the last pack to be written
//!   when the run ends.
//!
//! The module [`crate::archive`] states what this does to storage.

use crate::commit::{
    clone_commits, distinct, has_oid, lemma_oids_push, oids, views, CommitStats, CommitView,
};
use crate::time::{rfc3339_text, Instant, Timestamp};
use vstd::hash_set::StringHashSet;
use vstd::prelude::*;
use vstd::string::StringExecFns;

verus! {

/// The state document: what a run leaves behind for the next one.
#[derive(Debug, PartialEq, Eq)]
pub struct StateDocument {
    /// True until a pack has been written for the first time. While it is
    /// true the four fields below mean nothing.
    pub has_no_data: bool,
    pub latest_commit_oid: String,
    pub latest_commit_time: Timestamp,
    pub earliest_commit_oid: String,
    pub earliest_commit_time: Timestamp,
}

/// A commit that bounds the harvested extent: its object id and its date.
pub struct Mark {
    pub oid: Seq<char>,
    pub time: Instant,
}

/// Mathematical value of a [`StateDocument`].
pub struct DocumentView {
    pub has_no_data: bool,
    pub latest: Mark,
    pub earliest: Mark,
}

impl DocumentView {
    /// The date of the earliest commit in RFC 3339 form, none while there is
    /// no data.
    pub open spec fn earliest_text(self) -> Option<Seq<char>> {
        if self.has_no_data {
            None
        } else {
            Some(rfc3339_text(self.earliest.time.secs, self.earliest.time.nanos))
        }
    }

    /// The date of the latest commit in RFC 3339 form, none while there is
    /// no data.
    pub open spec fn latest_text(self) -> Option<Seq<char>> {
        if self.has_no_data {
            None
        } else {
            Some(rfc3339_text(self.latest.time.secs, self.latest.time.nanos))
        }
    }
}

/// Whether the date of `commit` lies between the dates of the two marks,
/// both included.
pub open spec fn spans(earliest: Mark, latest: Mark, commit: CommitView) -> bool {
    !commit.committed_date.before(earliest.time) && !latest.time.before(commit.committed_date)
}

/// Whether `mark` is the object id and the date of `commit`.
pub open spec fn marks(mark: Mark, commit: CommitView) -> bool {
    mark.oid == commit.oid && mark.time == commit.committed_date
}

/// Whether `mark` is the mark `was`, where the extent was known, or that of
/// one of the first `n` commits of `pack`.
pub open spec fn drawn_from(
    mark: Mark,
    known: bool,
    was: Mark,
    pack: Seq<CommitView>,
    n: int,
) -> bool {
    (known && mark == was) || exists|i: int| 0 <= i < n && marks(mark, #[trigger] pack[i])
}

/// Whether every commit of `pack` lies in the month `date`.
pub open spec fn of_month(pack: Seq<CommitView>, date: Seq<char>) -> bool {
    forall|i: int| 0 <= i < pack.len() ==> (#[trigger] pack[i]).pack_date() == date
}

/// Whether `pack` is in order as the pack `date`: it holds no object id
/// twice, and every commit of it lies in the month `date`.
pub open spec fn in_order(pack: Seq<CommitView>, date: Seq<char>) -> bool {
    distinct(pack) && of_month(pack, date)
}

impl DocumentView {
    /// The extent widened by a commit with this object id and date. The
    /// first commit ever becomes both marks. After that a commit becomes a
    /// mark only where it lies strictly beyond it, so that of two commits of
    /// one date the one that came first stays.
    pub open spec fn widen(self, oid: Seq<char>, time: Instant) -> DocumentView {
        let mark = Mark { oid, time };
        if self.has_no_data {
            DocumentView { has_no_data: false, latest: mark, earliest: mark }
        } else {
            DocumentView {
                has_no_data: false,
                earliest: if time.before(self.earliest.time) {
                    mark
                } else {
                    self.earliest
                },
                latest: if self.latest.time.before(time) {
                    mark
                } else {
                    self.latest
                },
            }
        }
    }

    /// The extent widened by each of the commits, in their order.
    pub open spec fn widen_all(self, commits: Seq<CommitView>) -> DocumentView
        decreases commits.len(),
    {
        if commits.len() == 0 {
            self
        } else {
            self.widen_all(commits.drop_last()).widen(
                commits.last().oid,
                commits.last().committed_date,
            )
        }
    }
}

/// The text of an optional string.
pub open spec fn text_of(s: Option<String>) -> Option<Seq<char>> {
    match s {
        Some(s) => Some(s@),
        None => None,
    }
}

impl View for StateDocument {
    type V = DocumentView;

    open spec fn view(&self) -> DocumentView {
        DocumentView {
            has_no_data: self.has_no_data,
            latest: Mark { oid: self.latest_commit_oid@, time: self.latest_commit_time@ },
            earliest: Mark { oid: self.earliest_commit_oid@, time: self.earliest_commit_time@ },
        }
    }
}

/// A pack that is held in memory: its key, and its commits in the order in
/// which they came.
pub struct OpenPack {
    pub date: Seq<char>,
    pub commits: Seq<CommitView>,
    /// The commits that were stored under the key when the pack was loaded.
    pub loaded: Seq<CommitView>,
}

/// Mathematical value of a [`DataState`].
pub struct StateView {
    /// The extent as the state document has it.
    pub saved: DocumentView,
    /// Whether the working extent means anything: the document had data, or
    /// a commit has been noted since, be it one that was stored or one of a
    /// pack that was loaded.
    pub noted: bool,
    /// The working extent: the saved one, widened by each commit that was
    /// stored and by each commit of a pack that was loaded since.
    pub unsaved_latest: Mark,
    pub unsaved_earliest: Mark,
    /// The pack that is open. There is none until the first one is loaded.
    pub open: Option<OpenPack>,
}

impl StateView {
    /// The state that a run starts in, given the state document.
    pub open spec fn from_document(doc: DocumentView) -> StateView {
        StateView {
            saved: doc,
            noted: !doc.has_no_data,
            unsaved_latest: doc.latest,
            unsaved_earliest: doc.earliest,
            open: None,
        }
    }

    /// The commits of the open pack, none where no pack is open.
    pub open spec fn pack(self) -> Seq<CommitView> {
        match self.open {
            Some(pack) => pack.commits,
            None => Seq::empty(),
        }
    }

    /// The commits that were stored under the key of the open pack when it
    /// was loaded, none where no pack is open.
    pub open spec fn loaded(self) -> Seq<CommitView> {
        match self.open {
            Some(pack) => pack.loaded,
            None => Seq::empty(),
        }
    }

    /// The key of the open pack.
    pub open spec fn pack_date(self) -> Option<Seq<char>> {
        match self.open {
            Some(pack) => Some(pack.date),
            None => None,
        }
    }

    /// The working extent, in the form of a state document: without data
    /// while nothing is noted.
    pub open spec fn working(self) -> DocumentView {
        DocumentView {
            has_no_data: !self.noted,
            latest: self.unsaved_latest,
            earliest: self.unsaved_earliest,
        }
    }

    /// The state with `extent` for its working extent.
    pub open spec fn with_working(self, extent: DocumentView) -> StateView {
        StateView {
            noted: !extent.has_no_data,
            unsaved_latest: extent.latest,
            unsaved_earliest: extent.earliest,
            ..self
        }
    }

    /// The state after a commit with this object id and date has been
    /// noted: its working extent is widened by the commit.
    pub open spec fn note(self, oid: Seq<char>, time: Instant) -> StateView {
        self.with_working(self.working().widen(oid, time))
    }

    /// The state after each of the commits has been noted, in their order.
    pub open spec fn note_all(self, commits: Seq<CommitView>) -> StateView {
        self.with_working(self.working().widen_all(commits))
    }

    /// What holds of every state between two calls: a state with data has a
    /// working extent, the open pack begins with what was stored when it was
    /// loaded and holds no object id twice, and the working extent spans
    /// every commit of the open pack.
    pub open spec fn sound(self) -> bool {
        &&& !self.saved.has_no_data ==> self.noted
        &&& self.loaded().is_prefix_of(self.pack())
        &&& self.pack().len() > 0 ==> self.noted
        &&& distinct(self.pack())
        &&& forall|i: int|
            0 <= i < self.pack().len() ==> spans(
                self.unsaved_earliest,
                self.unsaved_latest,
                #[trigger] self.pack()[i],
            )
    }

    /// Every commit of the open pack lies in the month that is the key of
    /// the pack. It is so of every state that has come about by loading
    /// packs and by offering commits to the pack of their month.
    pub open spec fn routed(self) -> bool {
        of_month(self.pack(), self.pack_date().unwrap_or(Seq::empty()))
    }

    /// Whether the open pack is the pack `date` and holds no commit with the
    /// object id of `commit` yet.
    pub open spec fn takes(self, date: Seq<char>, commit: CommitView) -> bool {
        self.pack_date() == Some(date) && !has_oid(self.pack(), commit.oid)
    }

    /// The state after `commit` has been offered as a commit of the pack
    /// `date`. Where that pack is open and holds no commit with its object
    /// id, the commit is stored at the end of the pack and noted. Where that
    /// pack is open and holds one, nothing changes. Where another pack is
    /// open, or none, the open pack is handed out to be written.
    pub open spec fn offer_to(self, date: Seq<char>, commit: CommitView) -> StateView {
        if self.takes(date, commit) {
            StateView {
                open: Some(
                    OpenPack { date, commits: self.pack().push(commit), loaded: self.loaded() },
                ),
                ..self.note(commit.oid, commit.committed_date)
            }
        } else if self.pack_date() == Some(date) {
            self
        } else {
            self.save_pack()
        }
    }

    /// The state after `commit` has been offered as a commit of the pack of
    /// its month.
    pub open spec fn offer(self, commit: CommitView) -> StateView {
        self.offer_to(commit.pack_date(), commit)
    }

    /// The state after the working extent has been made the saved one.
    pub open spec fn save(self) -> StateView {
        StateView {
            saved: DocumentView {
                has_no_data: self.saved.has_no_data,
                latest: self.unsaved_latest,
                earliest: self.unsaved_earliest,
            },
            ..self
        }
    }

    /// The state after the open pack has been handed out to be written:
    /// unchanged where the pack is empty, else with data and with the working
    /// extent saved.
    pub open spec fn save_pack(self) -> StateView {
        if self.pack().len() == 0 {
            self
        } else {
            StateView {
                saved: DocumentView {
                    has_no_data: false,
                    latest: self.unsaved_latest,
                    earliest: self.unsaved_earliest,
                },
                ..self
            }
        }
    }

    /// The state after the pack `pack_date` has been opened, with the commits
    /// that were stored under that key, if any were. Each of them is noted,
    /// in their order: whatever is stored in the pack lies within the
    /// working extent from then on, also where the state document knew
    /// nothing of it.
    pub open spec fn load(
        self,
        pack_date: Seq<char>,
        stored: Option<Seq<CommitView>>,
    ) -> StateView {
        let commits = match stored {
            Some(pack) => pack,
            None => Seq::empty(),
        };
        StateView {
            open: Some(OpenPack { date: pack_date, commits, loaded: commits }),
            ..self.note_all(commits)
        }
    }
}

/// A sound state is sound again after its working extent has been made the
/// saved one.
pub proof fn lemma_save_sound(state: StateView)
    requires
        state.sound(),
    ensures
        state.save().sound(),
{
    let after = state.save();
    assert(after.pack() == state.pack());
    assert forall|i: int| 0 <= i < after.pack().len() implies spans(
        after.unsaved_earliest,
        after.unsaved_latest,
        #[trigger] after.pack()[i],
    ) by {
        lemma_sound_spans(state, i);
    }
    assert(distinct(after.pack()));
}

/// The working extent of a sound state spans each commit of the open pack.
pub proof fn lemma_sound_spans(state: StateView, i: int)
    requires
        state.sound(),
        0 <= i < state.pack().len(),
    ensures
        state.noted,
        spans(state.unsaved_earliest, state.unsaved_latest, state.pack()[i]),
{
}

/// A pack that is due to be written, with the state document that belongs
/// to it. The pack document is written first, in place of what was stored
/// under its key, and the state document after it.
#[derive(Debug, PartialEq, Eq)]
pub struct PackFlush<C> {
    pub pack_date: String,
    pub commits: Vec<C>,
    pub state: StateDocument,
}

/// The refusal of a stored pack that is not in order: it holds an object id
/// twice, or a commit of another month than that of its key.
#[derive(Clone, Copy, Debug, PartialEq, Eq)]
pub struct PackOutOfOrder;

/// What became of a commit that was offered to the store.
#[derive(Debug, PartialEq, Eq)]
pub enum Ingest<C> {
    /// The commit is new to its pack and stands at its end now.
    Stored,
    /// The pack holds a commit with this object id already. Nothing changed.
    Duplicate,
    /// The commit belongs to the pack `pack_date`, which is not the open
    /// one, and comes back. The open pack has been saved: `flush` is to be
    /// written where it is there. Then the pack `pack_date` is to be read
    /// and loaded, and the commit offered again.
    Switch { flush: Option<PackFlush<C>>, pack_date: String, commit: C },
}

/// A store of commits in packs, one of which is open at a time.
pub trait CommitPack {
    type Commit;

    /// What has to hold of the store between two calls.
    spec fn indexed(&self) -> bool;

    /// Offers a commit to the store.
    fn add_commit(&mut self, commit: Self::Commit) -> (res: Ingest<Self::Commit>)
        requires
            old(self).indexed(),
        ensures
            final(self).indexed(),
    ;

    /// Hands out the open pack to be written, unless it is empty.
    fn save_curr_pack(&mut self) -> (res: Option<PackFlush<Self::Commit>>)
        requires
            old(self).indexed(),
        ensures
            final(self).indexed(),
    ;

    /// Opens the pack `pack_date` with what is stored under that key, and
    /// empty where nothing is.
    fn load_pack(&mut self, pack_date: String, stored: Option<Vec<Self::Commit>>) -> (res: Result<
        (),
        PackOutOfOrder,
    >)
        requires
            old(self).indexed(),
        ensures
            final(self).indexed(),
    ;
}

/// The state of a harvest.
pub struct DataState {
    has_no_data: bool,
    latest_commit_oid: String,
    latest_commit_time: Timestamp,
    earliest_commit_oid: String,
    earliest_commit_time: Timestamp,
    unsaved_noted: bool,
    unsaved_latest_commit_oid: String,
    unsaved_latest_commit_time: Timestamp,
    unsaved_earliest_commit_oid: String,
    unsaved_earliest_commit_time: Timestamp,
    curr_raw_data_pack_date: Option<String>,
    curr_raw_data_pack: Vec<CommitStats>,
    curr_raw_data_pack_index: StringHashSet,
    curr_raw_data_pack_loaded: Ghost<Seq<CommitView>>,
}

impl View for DataState {
    type V = StateView;

    closed spec fn view(&self) -> StateView {
        StateView {
            saved: DocumentView {
                has_no_data: self.has_no_data,
                latest: Mark { oid: self.latest_commit_oid@, time: self.latest_commit_time@ },
                earliest: Mark { oid: self.earliest_commit_oid@, time: self.earliest_commit_time@ },
            },
            noted: self.unsaved_noted,
            unsaved_latest: Mark {
                oid: self.unsaved_latest_commit_oid@,
                time: self.unsaved_latest_commit_time@,
            },
            unsaved_earliest: Mark {
                oid: self.unsaved_earliest_commit_oid@,
                time: self.unsaved_earliest_commit_time@,
            },
            open: match self.curr_raw_data_pack_date {
                Some(date) => Some(
                    OpenPack {
                        date: date@,
                        commits: views(self.curr_raw_data_pack@),
                        loaded: self.curr_raw_data_pack_loaded@,
                    },
                ),
                None => None,
            },
        }
    }
}

/// Whether `flush` is what saving the open pack of `state` hands out:
/// nothing where the pack is empty, else the key of the pack, all of its
/// commits, and the state document with data and with the working extent.
pub open spec fn flushes(flush: Option<PackFlush<CommitStats>>, state: StateView) -> bool {
    match flush {
        None => state.pack().len() == 0,
        Some(flush) => {
            &&& state.pack().len() > 0
            &&& Some(flush.pack_date@) == state.pack_date()
            &&& views(flush.commits@) == state.pack()
            &&& flush.state@ == state.save_pack().saved
        },
    }
}

/// Whether `res` is what offering `commit` to the pack `date` of `state`
/// gives back: that it was stored where the pack is open and holds no commit
/// with its object id, that it is a duplicate where the pack is open and
/// holds one, and else the commit itself with the key and with what saving
/// the open pack hands out.
pub open spec fn ingested(
    res: Ingest<CommitStats>,
    state: StateView,
    date: Seq<char>,
    commit: CommitStats,
) -> bool {
    match res {
        Ingest::Stored => state.takes(date, commit@),
        Ingest::Duplicate => state.pack_date() == Some(date) && has_oid(state.pack(), commit@.oid),
        Ingest::Switch { flush, pack_date, commit: back } => {
            &&& state.pack_date() != Some(date)
            &&& pack_date@ == date
            &&& back == commit
            &&& flushes(flush, state)
        },
    }
}

/// What making a pack the open one has come to.
enum Switch {
    /// The pack is the open one already.
    Open,
    /// The open pack has been saved, and the other one is to be loaded.
    Load { flush: Option<PackFlush<CommitStats>> },
}

impl DataState {
    /// The index of the open pack holds the object ids of its commits and no
    /// others, and no commit is held while no pack is open.
    pub closed spec fn index_in_step(&self) -> bool {
        &&& self.curr_raw_data_pack_index@ =~= oids(self@.pack())
        &&& self.curr_raw_data_pack_date is None ==> self.curr_raw_data_pack@.len() == 0
    }

    fn reset_unsaved_state(&mut self)
        ensures
            final(self)@ == (StateView {
                noted: !old(self)@.saved.has_no_data,
                unsaved_latest: old(self)@.saved.latest,
                unsaved_earliest: old(self)@.saved.earliest,
                ..old(self)@
            }),
            final(self).index_in_step() == old(self).index_in_step(),
    {
        self.unsaved_noted = !self.has_no_data;
        self.unsaved_latest_commit_oid = self.latest_commit_oid.clone();
        self.unsaved_latest_commit_time = self.latest_commit_time;
        self.unsaved_earliest_commit_oid = self.earliest_commit_oid.clone();
        self.unsaved_earliest_commit_time = self.earliest_commit_time;
    }

    /// The state that a run starts in, given what the state file holds. No
    /// pack is open.
    pub fn from_file(doc: StateDocument) -> (state: DataState)
        ensures
            state@ == StateView::from_document(doc@),
            state.indexed(),
    {
        let mut state = DataState {
            has_no_data: doc.has_no_data,
            latest_commit_oid: doc.latest_commit_oid,
            latest_commit_time: doc.latest_commit_time,
            earliest_commit_oid: doc.earliest_commit_oid,
            earliest_commit_time: doc.earliest_commit_time,
            unsaved_noted: false,
            unsaved_latest_commit_oid: String::new(),
            unsaved_latest_commit_time: doc.latest_commit_time,
            unsaved_earliest_commit_oid: String::new(),
            unsaved_earliest_commit_time: doc.earliest_commit_time,
            curr_raw_data_pack_date: None,
            curr_raw_data_pack: Vec::new(),
            curr_raw_data_pack_index: StringHashSet::new(),
            curr_raw_data_pack_loaded: Ghost(Seq::empty()),
        };
        state.reset_unsaved_state();
        state
    }

    /// The date of the newest commit harvested so far, in RFC 3339 form, or
    /// `None` while there is no data.
    pub fn latest_commit_time(&self) -> (res: Option<String>)
        ensures
            text_of(res) == self@.saved.latest_text(),
    {
        if self.has_no_data {
            None
        } else {
            Some(self.latest_commit_time.to_rfc3339())
        }
    }

    /// The date of the oldest commit harvested so far, in RFC 3339 form, or
    /// `None` while there is no data. A run that fills in older history asks
    /// for the commits before this date.
    pub fn earliest_commit_time(&self) -> (res: Option<String>)
        ensures
            text_of(res) == self@.saved.earliest_text(),
    {
        if self.has_no_data {
            None
        } else {
            Some(self.earliest_commit_time.to_rfc3339())
        }
    }

    /// The key of the pack that is open, and the empty text while none is.
    pub fn curr_pack_date(&self) -> (res: String)
        ensures
            res@ == match self@.pack_date() {
                Some(date) => date,
                None => Seq::empty(),
            },
    {
        match &self.curr_raw_data_pack_date {
            Some(date) => date.clone(),
            None => String::new(),
        }
    }

    /// Moves the working extent for a commit that has been stored.
    pub fn note_commit(&mut self, oid: &String, time: Timestamp)
        ensures
            final(self)@ == old(self)@.note(oid@, time@),
            final(self).index_in_step() == old(self).index_in_step(),
            old(self).indexed() ==> final(self).indexed(),
    {
        if !self.unsaved_noted {
            self.unsaved_noted = true;
            self.unsaved_earliest_commit_time = time;
            self.unsaved_earliest_commit_oid = oid.clone();
            self.unsaved_latest_commit_time = time;
            self.unsaved_latest_commit_oid = oid.clone();
        } else {
            if time.is_before(&self.unsaved_earliest_commit_time) {
                self.unsaved_earliest_commit_time = time;
                self.unsaved_earliest_commit_oid = oid.clone();
            }
            if self.unsaved_latest_commit_time.is_before(&time) {
                self.unsaved_latest_commit_time = time;
                self.unsaved_latest_commit_oid = oid.clone();
            }
        }
    }

    /// Makes the working extent the saved one and hands out the state
    /// document to be written.
    pub fn save(&mut self) -> (doc: StateDocument)
        ensures
            final(self)@ == old(self)@.save(),
            doc@ == final(self)@.saved,
            final(self).index_in_step() == old(self).index_in_step(),
            old(self).indexed() ==> final(self).indexed(),
    {
        self.latest_commit_oid = self.unsaved_latest_commit_oid.clone();
        self.latest_commit_time = self.unsaved_latest_commit_time;
        self.earliest_commit_oid = self.unsaved_earliest_commit_oid.clone();
        self.earliest_commit_time = self.unsaved_earliest_commit_time;
        proof {
            if old(self)@.sound() {
                lemma_save_sound(old(self)@);
            }
        }
        StateDocument {
            has_no_data: self.has_no_data,
            latest_commit_oid: self.latest_commit_oid.clone(),
            latest_commit_time: self.latest_commit_time,
            earliest_commit_oid: self.earliest_commit_oid.clone(),
            earliest_commit_time: self.earliest_commit_time,
        }
    }

    /// The name of the document that holds the pack `pack_date`, within the
    /// data directory.
    pub fn pack_path(&self, pack_date: &String) -> (name: String)
        ensures
            name@ == "raw_"@ + pack_date@ + ".json"@,
    {
        String::from_str("raw_").concat(pack_date.as_str()).concat(".json")
    }

    /// Begins to make the pack `pack_date` the open one. Nothing happens
    /// where it is open already. Else the open pack is saved, and the other
    /// one is left to be loaded.
    fn switch_to_pack(&mut self, pack_date: &String) -> (res: Switch)
        requires
            old(self).indexed(),
        ensures
            final(self).indexed(),
            match res {
                Switch::Open => {
                    &&& old(self)@.pack_date() == Some(pack_date@)
                    &&& *final(self) == *old(self)
                },
                Switch::Load { flush } => {
                    &&& old(self)@.pack_date() != Some(pack_date@)
                    &&& final(self)@ == old(self)@.save_pack()
                    &&& flushes(flush, old(self)@)
                },
            },
    {
        let is_open = match &self.curr_raw_data_pack_date {
            Some(open) => *pack_date == *open,
            None => false,
        };
        if is_open {
            return Switch::Open;
        }
        Switch::Load { flush: self.save_curr_pack() }
    }

    /// Offers a commit to the pack `pack_date`.
    ///
    /// Where that pack is not the open one, the open pack is saved as
    /// [`CommitPack::save_curr_pack`] does it, and the commit comes back with
    /// the key and with what is to be written. Where the open pack holds a
    /// commit with this object id already, the commit is dropped. Any other
    /// commit is put at the end of the open pack and moves the working
    /// extent.
    pub fn add_commit_to(&mut self, pack_date: String, commit: CommitStats) -> (res: Ingest<
        CommitStats,
    >)
        requires
            old(self).indexed(),
        ensures
            final(self).indexed(),
            final(self)@ == old(self)@.offer_to(pack_date@, commit@),
            ingested(res, old(self)@, pack_date@, commit),
            !(res is Switch) ==> has_oid(final(self)@.pack(), commit@.oid),
            old(self)@.pack().is_prefix_of(final(self)@.pack()),
            old(self)@.routed() && pack_date@ == commit@.pack_date() ==> final(self)@.routed(),
    {
        match self.switch_to_pack(&pack_date) {
            Switch::Open => {},
            Switch::Load { flush } => {
                return Ingest::Switch { flush, pack_date, commit };
            },
        }
        if self.curr_raw_data_pack_index.insert(commit.oid.clone()) {
            let oid = commit.oid.clone();
            let time = commit.committed_date;
            proof {
                lemma_oids_push(old(self)@.pack(), commit@);
                assert(views(self.curr_raw_data_pack@.push(commit)) =~= views(
                    self.curr_raw_data_pack@,
                ).push(commit@));
            }
            self.curr_raw_data_pack.push(commit);
            proof {
                let before = old(self)@.pack();
                let after = self@.pack();
                assert(after == before.push(commit@));
                assert forall|i: int, j: int|
                    0 <= i < after.len() && 0 <= j < after.len() && (#[trigger] after[i]).oid == (
                    #[trigger] after[j]).oid implies i == j by {
                    if i < before.len() {
                        assert(before[i].oid == after[i].oid);
                    }
                    if j < before.len() {
                        assert(before[j].oid == after[j].oid);
                    }
                }
            }
            self.note_commit(&oid, time);
            proof {
                let before = old(self)@.pack();
                assert(self@.pack()[before.len() as int].oid == oid@);
                assert forall|i: int| 0 <= i < self@.pack().len() implies spans(
                    self@.unsaved_earliest,
                    self@.unsaved_latest,
                    #[trigger] self@.pack()[i],
                ) by {
                    if i < before.len() {
                        assert(self@.pack()[i] == before[i]);
                    }
                }
            }
            Ingest::Stored
        } else {
            Ingest::Duplicate
        }
    }

    /// The name of the document that holds the open pack.
    pub fn curr_pack_path(&self) -> (name: String)
        ensures
            name@ == "raw_"@ + match self@.pack_date() {
                Some(date) => date,
                None => Seq::empty(),
            } + ".json"@,
    {
        let pack_date = self.curr_pack_date();
        self.pack_path(&pack_date)
    }
}

impl CommitPack for DataState {
    type Commit = CommitStats;

    /// The index is that of the open pack, and the state is sound.
    open spec fn indexed(&self) -> bool {
        self.index_in_step() && self@.sound()
    }

    /// Offers a commit to the pack of the month of its commit date.
    ///
    /// Where that pack is not the open one, the open pack is saved as
    /// [`CommitPack::save_curr_pack`] does it, and the commit comes back with
    /// the key of its pack and with what is to be written. Where the open
    /// pack holds a commit with this object id already, the commit is
    /// dropped. Any other commit is put at the end of the open pack and moves
    /// the working extent.
    fn add_commit(&mut self, commit: CommitStats) -> (res: Ingest<CommitStats>)
        ensures
            final(self)@ == old(self)@.offer(commit@),
            ingested(res, old(self)@, commit@.pack_date(), commit),
            !(res is Switch) ==> has_oid(final(self)@.pack(), commit@.oid),
            old(self)@.pack().is_prefix_of(final(self)@.pack()),
            old(self)@.routed() ==> final(self)@.routed(),
    {
        let commit_pack_date = commit.committed_date.pack_date();
        self.add_commit_to(commit_pack_date, commit)
    }

    /// Hands out the open pack to be written, with the state document that
    /// belongs to it.
    ///
    /// An empty pack gives `None` and changes nothing. Otherwise the state
    /// has data from now on, the working extent becomes the saved one, and
    /// the whole pack comes back with the state document.
    fn save_curr_pack(&mut self) -> (res: Option<PackFlush<CommitStats>>)
        ensures
            final(self)@ == old(self)@.save_pack(),
            flushes(res, old(self)@),
            res matches Some(flush) ==> {
                &&& old(self)@.loaded().is_prefix_of(views(flush.commits@))
                &&& distinct(views(flush.commits@))
                &&& !flush.state.has_no_data
                &&& forall|i: int|
                    0 <= i < flush.commits@.len() ==> spans(
                        flush.state@.earliest,
                        flush.state@.latest,
                        #[trigger] views(flush.commits@)[i],
                    )
            },
    {
        let pack_date = match &self.curr_raw_data_pack_date {
            Some(date) => date.clone(),
            None => {
                return None;
            },
        };
        if self.curr_raw_data_pack.len() == 0 {
            return None;
        }
        self.has_no_data = false;
        proof {
            assert(self@.pack() == old(self)@.pack());
        }
        let state = self.save();
        Some(PackFlush { pack_date, commits: clone_commits(&self.curr_raw_data_pack), state })
    }

    /// Opens the pack `pack_date` with the commits that are stored under
    /// that key, and empty where none are. The pack that was open is let go.
    ///
    /// A stored pack that is not in order is refused, and nothing changes.
    /// Else each stored commit is noted, in their order, so that the working
    /// extent spans all of the pack, also where the state document knew
    /// nothing of it.
    fn load_pack(&mut self, pack_date: String, stored: Option<Vec<CommitStats>>) -> (res: Result<
        (),
        PackOutOfOrder,
    >)
        ensures
            res is Ok <==> in_order(
                match stored {
                    Some(pack) => views(pack@),
                    None => Seq::empty(),
                },
                pack_date@,
            ),
            res is Ok ==> final(self)@ == old(self)@.load(
                pack_date@,
                match stored {
                    Some(pack) => Some(views(pack@)),
                    None => None,
                },
            ) && final(self)@.routed(),
            res is Ok ==> {
                let pack = final(self)@.pack();
                let was = old(self)@;
                let now = final(self)@;
                &&& now.noted == (was.noted || pack.len() > 0)
                &&& now.noted ==> drawn_from(
                    now.unsaved_earliest,
                    was.noted,
                    was.unsaved_earliest,
                    pack,
                    pack.len() as int,
                )
                &&& now.noted ==> drawn_from(
                    now.unsaved_latest,
                    was.noted,
                    was.unsaved_latest,
                    pack,
                    pack.len() as int,
                )
            },
            res is Err ==> *final(self) == *old(self),
    {
        let ghost before = self@;
        let pack = match stored {
            Some(pack) => pack,
            None => Vec::new(),
        };
        let ghost all = views(pack@);
        proof {
            if stored is None {
                assert(all =~= Seq::empty());
            }
        }
        let mut index = StringHashSet::with_capacity(pack.len());
        let mut i: usize = 0;
        while i < pack.len()
            invariant
                i <= pack.len(),
                all == views(pack@),
                all == match stored {
                    Some(pack) => views(pack@),
                    None => Seq::empty(),
                },
                index@ =~= oids(all.take(i as int)),
                in_order(all.take(i as int), pack_date@),
                *self == *old(self),
                old(self).indexed(),
            decreases pack.len() - i,
        {
            let month = pack[i].committed_date.pack_date();
            if !(month == pack_date) {
                assert(all[i as int].pack_date() != pack_date@);
                return Err(PackOutOfOrder);
            }
            let is_new = index.insert(pack[i].oid.clone());
            proof {
                let upto = all.take(i as int);
                lemma_oids_push(upto, all[i as int]);
                assert(all.take(i + 1) =~= upto.push(all[i as int]));
            }
            if !is_new {
                proof {
                    let upto = all.take(i as int);
                    let k = choose|k: int| 0 <= k < upto.len() && (#[trigger] upto[k]).oid == all[i
                        as int].oid;
                    assert(all[k].oid == all[i as int].oid);
                }
                return Err(PackOutOfOrder);
            }
            proof {
                let upto = all.take(i as int);
                let next = all.take(i + 1);
                assert forall|a: int, b: int|
                    0 <= a < next.len() && 0 <= b < next.len() && (#[trigger] next[a]).oid == (
                    #[trigger] next[b]).oid implies a == b by {
                    if a < i {
                        assert(upto[a].oid == next[a].oid);
                    }
                    if b < i {
                        assert(upto[b].oid == next[b].oid);
                    }
                }
            }
            i += 1;
        }
        proof {
            assert(all.take(pack.len() as int) =~= all);
        }
        let mut j: usize = 0;
        while j < pack.len()
            invariant
                j <= pack.len(),
                all == views(pack@),
                all == match stored {
                    Some(pack) => views(pack@),
                    None => Seq::empty(),
                },
                index@ =~= oids(all),
                in_order(all, pack_date@),
                before == old(self)@,
                before.sound(),
                old(self).indexed(),
                self@ == before.note_all(all.take(j as int)),
                self@.noted == (before.noted || j > 0),
                self@.noted ==> drawn_from(
                    self@.unsaved_earliest,
                    before.noted,
                    before.unsaved_earliest,
                    all,
                    j as int,
                ),
                self@.noted ==> drawn_from(
                    self@.unsaved_latest,
                    before.noted,
                    before.unsaved_latest,
                    all,
                    j as int,
                ),
                forall|k: int|
                    0 <= k < j ==> spans(
                        self@.unsaved_earliest,
                        self@.unsaved_latest,
                        #[trigger] all[k],
                    ),
            decreases pack.len() - j,
        {
            let ghost prior = self@;
            self.note_commit(&pack[j].oid, pack[j].committed_date);
            proof {
                let upto = all.take(j as int);
                let next = all.take(j + 1);
                assert(next =~= upto.push(all[j as int]));
                assert(next.drop_last() =~= upto);
                let now = self@;
                assert(now.unsaved_earliest == prior.unsaved_earliest || marks(
                    now.unsaved_earliest,
                    all[j as int],
                ));
                assert(now.unsaved_latest == prior.unsaved_latest || marks(
                    now.unsaved_latest,
                    all[j as int],
                ));
                if prior.noted && now.unsaved_earliest == prior.unsaved_earliest {
                    if !(before.noted && prior.unsaved_earliest == before.unsaved_earliest) {
                        let k = choose|k: int|
                            0 <= k < j && marks(prior.unsaved_earliest, #[trigger] all[k]);
                        assert(marks(now.unsaved_earliest, all[k]));
                    }
                } else {
                    assert(marks(now.unsaved_earliest, all[j as int]));
                }
                if prior.noted && now.unsaved_latest == prior.unsaved_latest {
                    if !(before.noted && prior.unsaved_latest == before.unsaved_latest) {
                        let k = choose|k: int|
                            0 <= k < j && marks(prior.unsaved_latest, #[trigger] all[k]);
                        assert(marks(now.unsaved_latest, all[k]));
                    }
                } else {
                    assert(marks(now.unsaved_latest, all[j as int]));
                }
            }
            j += 1;
        }
        proof {
            assert(all.take(pack.len() as int) =~= all);
        }
        self.curr_raw_data_pack = pack;
        self.curr_raw_data_pack_date = Some(pack_date);
        self.curr_raw_data_pack_index = index;
        self.curr_raw_data_pack_loaded = Ghost(all);
        proof {
            assert(self@.pack() == all);
            assert(self@.pack_date() == Some(pack_date@));
        }
        Ok(())
    }
}

} // verus!
