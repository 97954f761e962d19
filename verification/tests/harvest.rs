use nixpkgs_stats::commit::CommitStats;
use nixpkgs_stats::data_state::{CommitPack, DataState, Ingest, PackFlush, StateDocument};
use nixpkgs_stats::time::Timestamp;
use std::collections::HashMap;

/// Storage as a harvest sees it, held in memory.
struct Disk {
    state: StateDocument,
    packs: HashMap<String, Vec<CommitStats>>,
    pack_writes: usize,
    state_writes: usize,
}

fn noon(year: i32, month: u32, day: u32) -> Timestamp {
    let secs = chrono::NaiveDate::from_ymd_opt(year, month, day)
        .unwrap()
        .and_hms_opt(12, 0, 0)
        .unwrap()
        .and_utc()
        .timestamp();
    Timestamp::new(secs, 0).unwrap()
}

fn commit(oid: &str, date: Timestamp) -> CommitStats {
    CommitStats {
        oid: oid.to_string(),
        committed_date: date,
        payload: format!("{{\"oid\":\"{}\"}}", oid),
    }
}

fn blank_document() -> StateDocument {
    StateDocument {
        has_no_data: true,
        latest_commit_oid: String::new(),
        latest_commit_time: Timestamp::new(0, 0).unwrap(),
        earliest_commit_oid: String::new(),
        earliest_commit_time: Timestamp::new(0, 0).unwrap(),
    }
}

fn copy_document(doc: &StateDocument) -> StateDocument {
    StateDocument {
        has_no_data: doc.has_no_data,
        latest_commit_oid: doc.latest_commit_oid.clone(),
        latest_commit_time: doc.latest_commit_time,
        earliest_commit_oid: doc.earliest_commit_oid.clone(),
        earliest_commit_time: doc.earliest_commit_time,
    }
}

fn empty_disk() -> Disk {
    Disk { state: blank_document(), packs: HashMap::new(), pack_writes: 0, state_writes: 0 }
}

fn write(disk: &mut Disk, flush: Option<PackFlush<CommitStats>>) {
    if let Some(flush) = flush {
        disk.packs.insert(flush.pack_date, flush.commits);
        disk.pack_writes += 1;
        disk.state = flush.state;
        disk.state_writes += 1;
    }
}

fn ingest(state: &mut DataState, disk: &mut Disk, commit: CommitStats) -> Ingest<CommitStats> {
    match state.add_commit(commit) {
        Ingest::Switch { flush, pack_date, commit } => {
            write(disk, flush);
            let stored = disk.packs.get(&pack_date).cloned();
            state.load_pack(pack_date, stored).unwrap();
            match state.add_commit(commit) {
                Ingest::Switch { .. } => panic!("the pack of the commit was just opened"),
                done => done,
            }
        }
        done => done,
    }
}

fn run(disk: &mut Disk, commits: Vec<CommitStats>) -> DataState {
    let mut state = DataState::from_file(copy_document(&disk.state));
    for commit in commits {
        ingest(&mut state, disk, commit);
    }
    write(disk, state.save_curr_pack());
    state
}

fn oids(pack: &[CommitStats]) -> Vec<&str> {
    pack.iter().map(|c| c.oid.as_str()).collect()
}

fn copies(disk: &Disk, oid: &str) -> usize {
    disk.packs.values().map(|pack| pack.iter().filter(|c| c.oid == oid).count()).sum()
}

fn first_page() -> Vec<CommitStats> {
    vec![
        commit("c3", noon(2023, 7, 10)),
        commit("c2", noon(2023, 7, 2)),
        commit("c1", noon(2023, 6, 30)),
    ]
}

#[test]
fn first_page_fills_two_packs_and_sets_the_extent() {
    let mut disk = empty_disk();
    run(&mut disk, first_page());

    assert_eq!(disk.packs.len(), 2);
    assert_eq!(oids(&disk.packs["2023-07"]), vec!["c3", "c2"]);
    assert_eq!(oids(&disk.packs["2023-06"]), vec!["c1"]);
    assert_eq!(disk.packs["2023-07"][0], commit("c3", noon(2023, 7, 10)));
    assert_eq!(disk.packs["2023-07"][1], commit("c2", noon(2023, 7, 2)));
    assert_eq!(disk.packs["2023-06"][0], commit("c1", noon(2023, 6, 30)));
    assert!(!disk.state.has_no_data);
    assert_eq!(disk.state.earliest_commit_oid, "c1");
    assert_eq!(disk.state.earliest_commit_time, noon(2023, 6, 30));
    assert_eq!(disk.state.latest_commit_oid, "c3");
    assert_eq!(disk.state.latest_commit_time, noon(2023, 7, 10));
}

#[test]
fn the_extent_does_not_depend_on_what_the_blank_document_holds() {
    let mut disk = empty_disk();
    disk.state.earliest_commit_time = noon(1999, 1, 1);
    disk.state.latest_commit_time = noon(2099, 1, 1);
    run(&mut disk, first_page());
    assert_eq!(disk.state.earliest_commit_time, noon(2023, 6, 30));
    assert_eq!(disk.state.latest_commit_time, noon(2023, 7, 10));
}

#[test]
fn a_commit_that_comes_twice_in_a_row_is_stored_once() {
    let mut disk = empty_disk();
    let mut state = DataState::from_file(blank_document());
    assert_eq!(ingest(&mut state, &mut disk, commit("a", noon(2023, 7, 1))), Ingest::Stored);
    assert_eq!(ingest(&mut state, &mut disk, commit("a", noon(2023, 7, 1))), Ingest::Duplicate);
    write(&mut disk, state.save_curr_pack());
    assert_eq!(oids(&disk.packs["2023-07"]), vec!["a"]);
    assert_eq!(copies(&disk, "a"), 1);
}

#[test]
fn a_commit_that_comes_again_after_a_pack_switch_is_stored_once() {
    let mut disk = empty_disk();
    let mut state = DataState::from_file(blank_document());
    assert_eq!(ingest(&mut state, &mut disk, commit("a", noon(2023, 7, 1))), Ingest::Stored);
    assert_eq!(ingest(&mut state, &mut disk, commit("b", noon(2023, 6, 1))), Ingest::Stored);
    assert_eq!(ingest(&mut state, &mut disk, commit("a", noon(2023, 7, 1))), Ingest::Duplicate);
    assert_eq!(ingest(&mut state, &mut disk, commit("b", noon(2023, 6, 1))), Ingest::Duplicate);
    write(&mut disk, state.save_curr_pack());
    assert_eq!(copies(&disk, "a"), 1);
    assert_eq!(copies(&disk, "b"), 1);
    assert_eq!(oids(&disk.packs["2023-07"]), vec!["a"]);
    assert_eq!(oids(&disk.packs["2023-06"]), vec!["b"]);
}

#[test]
fn a_commit_that_comes_again_in_a_later_run_is_stored_once() {
    let mut disk = empty_disk();
    run(&mut disk, vec![commit("a", noon(2023, 7, 1)), commit("b", noon(2023, 7, 2))]);
    run(&mut disk, vec![commit("b", noon(2023, 7, 2)), commit("c", noon(2023, 7, 3))]);
    assert_eq!(oids(&disk.packs["2023-07"]), vec!["a", "b", "c"]);
    assert_eq!(copies(&disk, "b"), 1);
}

#[test]
fn an_oid_dated_in_two_months_is_stored_in_both() {
    let mut disk = empty_disk();
    run(&mut disk, vec![commit("a", noon(2023, 6, 30)), commit("a", noon(2023, 7, 2))]);
    assert_eq!(copies(&disk, "a"), 2);
    assert_eq!(oids(&disk.packs["2023-06"]), vec!["a"]);
    assert_eq!(oids(&disk.packs["2023-07"]), vec!["a"]);
}

#[test]
fn commits_go_to_the_pack_of_their_month_in_any_order() {
    let mut disk = empty_disk();
    run(
        &mut disk,
        vec![
            commit("jul-1", noon(2023, 7, 31)),
            commit("jun-1", noon(2023, 6, 1)),
            commit("jul-2", noon(2023, 7, 1)),
            commit("dec-1", noon(2022, 12, 31)),
            commit("jun-2", noon(2023, 6, 30)),
            commit("jan-1", noon(2023, 1, 1)),
            commit("jul-3", noon(2023, 7, 15)),
        ],
    );
    assert_eq!(disk.packs.len(), 4);
    assert_eq!(oids(&disk.packs["2023-07"]), vec!["jul-1", "jul-2", "jul-3"]);
    assert_eq!(oids(&disk.packs["2023-06"]), vec!["jun-1", "jun-2"]);
    assert_eq!(oids(&disk.packs["2022-12"]), vec!["dec-1"]);
    assert_eq!(oids(&disk.packs["2023-01"]), vec!["jan-1"]);
    for (key, pack) in &disk.packs {
        for stored in pack {
            assert_eq!(&stored.committed_date.pack_date(), key);
        }
    }
}

#[test]
fn the_extent_is_the_least_and_the_greatest_date_of_what_is_stored() {
    let mut disk = empty_disk();
    let commits = vec![
        commit("d", noon(2023, 3, 4)),
        commit("a", noon(2021, 1, 1)),
        commit("f", noon(2024, 2, 29)),
        commit("b", noon(2022, 5, 5)),
        commit("e", noon(2023, 3, 5)),
    ];
    run(&mut disk, commits);
    let stored: Vec<&CommitStats> = disk.packs.values().flatten().collect();
    assert_eq!(stored.len(), 5);
    for c in &stored {
        assert!(!c.committed_date.is_before(&disk.state.earliest_commit_time));
        assert!(!disk.state.latest_commit_time.is_before(&c.committed_date));
    }
    assert_eq!(disk.state.earliest_commit_oid, "a");
    assert_eq!(disk.state.earliest_commit_time, noon(2021, 1, 1));
    assert_eq!(disk.state.latest_commit_oid, "f");
    assert_eq!(disk.state.latest_commit_time, noon(2024, 2, 29));
}

#[test]
fn a_later_run_widens_the_extent_on_either_side() {
    let mut disk = empty_disk();
    run(&mut disk, first_page());
    run(&mut disk, vec![commit("c0", noon(2023, 5, 1)), commit("c4", noon(2023, 8, 1))]);
    assert_eq!(disk.state.earliest_commit_oid, "c0");
    assert_eq!(disk.state.earliest_commit_time, noon(2023, 5, 1));
    assert_eq!(disk.state.latest_commit_oid, "c4");
    assert_eq!(disk.state.latest_commit_time, noon(2023, 8, 1));
    run(&mut disk, vec![commit("mid", noon(2023, 7, 5))]);
    assert_eq!(disk.state.earliest_commit_oid, "c0");
    assert_eq!(disk.state.latest_commit_oid, "c4");
}

#[test]
fn a_commit_of_the_same_date_as_a_bound_leaves_the_bound() {
    let mut disk = empty_disk();
    run(
        &mut disk,
        vec![
            commit("first", noon(2023, 7, 10)),
            commit("second", noon(2023, 7, 10)),
        ],
    );
    assert_eq!(disk.state.earliest_commit_oid, "first");
    assert_eq!(disk.state.latest_commit_oid, "first");
}

#[test]
fn a_second_run_on_the_same_commits_changes_nothing() {
    let mut disk = empty_disk();
    run(&mut disk, first_page());
    let packs = disk.packs.clone();
    let state = copy_document(&disk.state);
    run(&mut disk, first_page());
    assert_eq!(disk.packs, packs);
    assert_eq!(disk.state, state);
}

#[test]
fn a_run_without_commits_writes_nothing() {
    let mut disk = empty_disk();
    let state = run(&mut disk, Vec::new());
    assert_eq!(disk.pack_writes, 0);
    assert_eq!(disk.state_writes, 0);
    assert!(disk.packs.is_empty());
    assert!(disk.state.has_no_data);
    assert_eq!(state.earliest_commit_time(), None);
}

#[test]
fn a_run_that_stopped_between_the_two_writes_loses_nothing() {
    let mut disk = empty_disk();
    run(&mut disk, vec![commit("a", noon(2023, 7, 1))]);
    let state_before = copy_document(&disk.state);

    // The next run writes its pack and stops before the state document.
    let mut state = DataState::from_file(copy_document(&disk.state));
    ingest(&mut state, &mut disk, commit("b", noon(2023, 7, 2)));
    let flush = state.save_curr_pack().unwrap();
    disk.packs.insert(flush.pack_date, flush.commits);
    assert_eq!(disk.state, state_before);
    assert_eq!(oids(&disk.packs["2023-07"]), vec!["a", "b"]);

    // The run after it is served the same page again.
    let mut state = DataState::from_file(copy_document(&disk.state));
    assert_eq!(ingest(&mut state, &mut disk, commit("b", noon(2023, 7, 2))), Ingest::Duplicate);
    assert_eq!(ingest(&mut state, &mut disk, commit("c", noon(2023, 7, 3))), Ingest::Stored);
    write(&mut disk, state.save_curr_pack());
    assert_eq!(oids(&disk.packs["2023-07"]), vec!["a", "b", "c"]);
    assert_eq!(disk.state.earliest_commit_oid, "a");
    assert_eq!(disk.state.earliest_commit_time, noon(2023, 7, 1));
    assert_eq!(disk.state.latest_commit_oid, "c");
    assert_eq!(disk.state.latest_commit_time, noon(2023, 7, 3));
}

#[test]
fn the_extent_catches_up_with_a_pack_that_a_stopped_first_run_wrote() {
    // The first run ever wrote its pack and stopped before the state document.
    let mut disk = empty_disk();
    disk.packs.insert("2023-07".to_string(), vec![commit("a", noon(2023, 7, 10))]);
    assert!(disk.state.has_no_data);

    // The next run is served the same commit again.
    let mut state = DataState::from_file(copy_document(&disk.state));
    assert_eq!(ingest(&mut state, &mut disk, commit("a", noon(2023, 7, 10))), Ingest::Duplicate);
    write(&mut disk, state.save_curr_pack());

    assert_eq!(oids(&disk.packs["2023-07"]), vec!["a"]);
    assert!(!disk.state.has_no_data);
    assert_eq!(disk.state.earliest_commit_oid, "a");
    assert_eq!(disk.state.earliest_commit_time, noon(2023, 7, 10));
    assert_eq!(disk.state.latest_commit_oid, "a");
    assert_eq!(disk.state.latest_commit_time, noon(2023, 7, 10));
    assert_eq!(state.earliest_commit_time(), Some("2023-07-10T12:00:00+00:00".to_string()));
}

#[test]
fn the_extent_catches_up_with_a_pack_that_is_ahead_of_a_document_with_data() {
    let mut disk = empty_disk();
    run(&mut disk, vec![commit("a", noon(2023, 7, 2))]);
    assert_eq!(disk.state.latest_commit_oid, "a");

    // A run stores b, writes the pack and stops before the state document.
    let mut stopped = DataState::from_file(copy_document(&disk.state));
    ingest(&mut stopped, &mut disk, commit("b", noon(2023, 7, 10)));
    let flush = stopped.save_curr_pack().unwrap();
    disk.packs.insert(flush.pack_date, flush.commits);
    assert_eq!(disk.state.latest_commit_time, noon(2023, 7, 2));

    // The next run is served b again.
    let mut state = DataState::from_file(copy_document(&disk.state));
    assert_eq!(ingest(&mut state, &mut disk, commit("b", noon(2023, 7, 10))), Ingest::Duplicate);
    write(&mut disk, state.save_curr_pack());

    assert_eq!(oids(&disk.packs["2023-07"]), vec!["a", "b"]);
    assert_eq!(disk.state.earliest_commit_oid, "a");
    assert_eq!(disk.state.earliest_commit_time, noon(2023, 7, 2));
    assert_eq!(disk.state.latest_commit_oid, "b");
    assert_eq!(disk.state.latest_commit_time, noon(2023, 7, 10));
    for stored in disk.packs.values().flatten() {
        assert!(!stored.committed_date.is_before(&disk.state.earliest_commit_time));
        assert!(!disk.state.latest_commit_time.is_before(&stored.committed_date));
    }

    // A further run on the same commits changes nothing.
    let packs = disk.packs.clone();
    let document = copy_document(&disk.state);
    run(&mut disk, vec![commit("b", noon(2023, 7, 10)), commit("a", noon(2023, 7, 2))]);
    assert_eq!(disk.packs, packs);
    assert_eq!(disk.state, document);
}

#[test]
fn a_run_that_stopped_before_its_flush_leaves_storage_as_it_was() {
    let mut disk = empty_disk();
    run(&mut disk, first_page());
    let packs = disk.packs.clone();
    let state = copy_document(&disk.state);

    let mut stopped = DataState::from_file(copy_document(&disk.state));
    ingest(&mut stopped, &mut disk, commit("c4", noon(2023, 6, 1)));
    assert_eq!(disk.packs, packs);
    assert_eq!(disk.state, state);
}

#[test]
fn a_switch_writes_the_open_pack_and_the_state_document() {
    let mut disk = empty_disk();
    let mut state = DataState::from_file(blank_document());
    ingest(&mut state, &mut disk, commit("c3", noon(2023, 7, 10)));
    ingest(&mut state, &mut disk, commit("c2", noon(2023, 7, 2)));
    assert_eq!(disk.pack_writes, 0);
    ingest(&mut state, &mut disk, commit("c1", noon(2023, 6, 30)));
    assert_eq!(disk.pack_writes, 1);
    assert_eq!(disk.state_writes, 1);
    assert_eq!(oids(&disk.packs["2023-07"]), vec!["c3", "c2"]);
    assert!(!disk.packs.contains_key("2023-06"));
    assert!(!disk.state.has_no_data);
    assert_eq!(disk.state.earliest_commit_oid, "c2");
    assert_eq!(disk.state.latest_commit_oid, "c3");
    assert_eq!(state.curr_pack_date(), "2023-06");
}
