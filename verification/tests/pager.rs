use nixpkgs_stats::commit::CommitStats;
use nixpkgs_stats::data_state::{CommitPack, DataState, StateDocument};
use nixpkgs_stats::pager::{
    pace_wait, reset_wait, Advance, Fatal, Fetched, PageRequest, Pager, Received, Signal,
    PACE_NANOS, PAGE_SIZE, RESET_MARGIN_SECS, RETRY_SECS,
};
use nixpkgs_stats::response::{
    History, PageInfo, RateLimit, Ref, Repository, Response, ResponseData, Target, TargetOn,
};
use nixpkgs_stats::time::{Timestamp, Wait, MAX_SECS, MIN_SECS};

const T: i64 = 1_700_000_000;

fn at(secs: i64, nanos: u32) -> Timestamp {
    Timestamp::new(secs, nanos).unwrap()
}

fn limit(remaining: i64, cost: i64, reset_at: Timestamp) -> RateLimit {
    RateLimit { remaining, cost, reset_at }
}

fn blank_state() -> DataState {
    DataState::from_file(StateDocument {
        has_no_data: true,
        latest_commit_oid: String::new(),
        latest_commit_time: at(0, 0),
        earliest_commit_oid: String::new(),
        earliest_commit_time: at(0, 0),
    })
}

fn state_with_data() -> DataState {
    DataState::from_file(StateDocument {
        has_no_data: false,
        latest_commit_oid: "new".to_string(),
        latest_commit_time: at(1_688_990_400, 0),
        earliest_commit_oid: "old".to_string(),
        earliest_commit_time: at(1_688_126_400, 0),
    })
}

fn commit(oid: &str, secs: i64) -> CommitStats {
    CommitStats { oid: oid.to_string(), committed_date: at(secs, 0), payload: String::new() }
}

fn answer(nodes: Vec<Option<CommitStats>>, has_next_page: bool, end_cursor: Option<&str>) -> Response {
    Response {
        data: Some(ResponseData {
            rate_limit: Some(limit(4990, 1, at(T, 0))),
            repository: Some(Repository {
                ref_: Some(Ref {
                    target: Some(Target {
                        on: TargetOn::Commit(History {
                            nodes: Some(nodes),
                            page_info: PageInfo {
                                has_next_page,
                                end_cursor: end_cursor.map(|c| c.to_string()),
                            },
                        }),
                    }),
                }),
            }),
        }),
    }
}

#[test]
fn the_policy_is_forty_commits_five_seconds_thirty_seconds_and_a_quarter() {
    assert_eq!(PAGE_SIZE, 40);
    assert_eq!(RETRY_SECS, 5);
    assert_eq!(RESET_MARGIN_SECS, 30);
    assert_eq!(PACE_NANOS, 250_000_000);
}

#[test]
fn an_exhausted_rate_limit_waits_until_thirty_seconds_after_the_reset() {
    let wait = pace_wait(&limit(5, 10, at(T, 0)), at(T - 100, 0));
    assert_eq!(wait, Wait { secs: 130, nanos: 0 });
}

#[test]
fn the_wait_for_the_reset_counts_nanoseconds() {
    let wait = pace_wait(&limit(5, 10, at(T, 0)), at(T - 100, 250_000_000));
    assert_eq!(wait, Wait { secs: 129, nanos: 750_000_000 });
    let wait = pace_wait(&limit(0, 1, at(T, 500_000_000)), at(T, 0));
    assert_eq!(wait, Wait { secs: 30, nanos: 500_000_000 });
}

#[test]
fn a_reset_at_this_instant_waits_the_margin() {
    let wait = pace_wait(&limit(-1, 0, at(T, 0)), at(T, 0));
    assert_eq!(wait, Wait { secs: 30, nanos: 0 });
}

#[test]
fn a_reset_in_the_past_waits_what_is_left_of_the_margin() {
    assert_eq!(pace_wait(&limit(5, 10, at(T, 0)), at(T + 10, 0)), Wait { secs: 20, nanos: 0 });
    assert_eq!(
        pace_wait(&limit(5, 10, at(T, 0)), at(T + 10, 250_000_000)),
        Wait { secs: 19, nanos: 750_000_000 }
    );
    assert_eq!(
        pace_wait(&limit(5, 10, at(T, 0)), at(T + 29, 999_999_999)),
        Wait { secs: 0, nanos: 1 }
    );
    assert_eq!(pace_wait(&limit(5, 10, at(T, 0)), at(T + 30, 0)), Wait { secs: 0, nanos: 0 });
    assert_eq!(pace_wait(&limit(5, 10, at(T, 0)), at(T + 45, 5)), Wait { secs: 0, nanos: 0 });
}

#[test]
fn the_wait_past_a_reset_ahead_is_the_time_until_then_and_the_margin() {
    assert_eq!(reset_wait(Some(Wait { secs: 100, nanos: 0 }), None), Wait { secs: 130, nanos: 0 });
    assert_eq!(reset_wait(Some(Wait { secs: 0, nanos: 0 }), None), Wait { secs: 30, nanos: 0 });
    assert_eq!(
        reset_wait(Some(Wait { secs: 7, nanos: 999_999_999 }), Some(Wait { secs: 1, nanos: 1 })),
        Wait { secs: 37, nanos: 999_999_999 }
    );
    assert_eq!(
        reset_wait(Some(Wait { secs: u64::MAX - 30, nanos: 5 }), None),
        Wait { secs: u64::MAX, nanos: 5 }
    );
    assert_eq!(
        reset_wait(Some(Wait { secs: u64::MAX - 29, nanos: 5 }), None),
        Wait { secs: u64::MAX, nanos: 5 }
    );
    assert_eq!(
        reset_wait(Some(Wait { secs: u64::MAX, nanos: 0 }), None),
        Wait { secs: u64::MAX, nanos: 0 }
    );
}

#[test]
fn the_wait_past_a_reset_behind_is_what_is_left_of_the_margin() {
    let none = Wait { secs: 0, nanos: 0 };
    assert_eq!(reset_wait(None, Some(Wait { secs: 10, nanos: 0 })), Wait { secs: 20, nanos: 0 });
    assert_eq!(
        reset_wait(None, Some(Wait { secs: 10, nanos: 250_000_000 })),
        Wait { secs: 19, nanos: 750_000_000 }
    );
    assert_eq!(reset_wait(None, Some(Wait { secs: 0, nanos: 1 })), Wait { secs: 29, nanos: 999_999_999 });
    assert_eq!(reset_wait(None, Some(Wait { secs: 29, nanos: 999_999_999 })), Wait { secs: 0, nanos: 1 });
    assert_eq!(reset_wait(None, Some(Wait { secs: 30, nanos: 0 })), none);
    assert_eq!(reset_wait(None, Some(Wait { secs: 31, nanos: 7 })), none);
    assert_eq!(reset_wait(None, Some(Wait { secs: u64::MAX, nanos: u32::MAX })), none);
    assert_eq!(reset_wait(None, Some(Wait { secs: 29, nanos: 1_000_000_000 })), none);
    assert_eq!(reset_wait(None, Some(Wait { secs: 28, nanos: 1_500_000_000 })), Wait { secs: 0, nanos: 500_000_000 });
}

#[test]
fn the_wait_past_a_reset_that_is_not_told_is_the_margin() {
    assert_eq!(reset_wait(None, None), Wait { secs: 30, nanos: 0 });
}

#[test]
fn a_rate_limit_that_covers_the_cost_waits_a_quarter_of_a_second() {
    let quarter = Wait { secs: 0, nanos: 250_000_000 };
    assert_eq!(pace_wait(&limit(4990, 1, at(T, 0)), at(T - 100, 0)), quarter);
    assert_eq!(pace_wait(&limit(10, 10, at(T, 0)), at(T - 100, 0)), quarter);
    assert_eq!(pace_wait(&limit(0, 0, at(T, 0)), at(T + 100, 0)), quarter);
    assert_eq!(pace_wait(&limit(i64::MAX, i64::MIN, at(T, 0)), at(T, 0)), quarter);
}

#[test]
fn the_wait_spans_the_whole_range_of_the_calendar() {
    let wait = pace_wait(&limit(0, 1, at(MAX_SECS, 999_999_999)), at(MIN_SECS, 0));
    assert_eq!(wait, Wait { secs: 16_544_868_105_629, nanos: 999_999_999 });
    let wait = pace_wait(&limit(0, 1, at(MIN_SECS, 0)), at(MAX_SECS, 999_999_999));
    assert_eq!(wait, Wait { secs: 0, nanos: 0 });
}

#[test]
fn the_wait_for_a_reset_in_a_leap_second_counts_that_second() {
    let wait = pace_wait(&limit(0, 1, at(T + 39, 1_000_000_000)), at(T + 39, 0));
    assert_eq!(wait, Wait { secs: 31, nanos: 0 });
    let wait = pace_wait(&limit(0, 1, at(T + 39, 1_250_000_000)), at(T + 38, 500_000_000));
    assert_eq!(wait, Wait { secs: 31, nanos: 750_000_000 });
}

#[test]
fn a_rate_limit_at_the_ends_of_the_counter_is_exhausted() {
    let wait = pace_wait(&limit(i64::MIN, i64::MAX, at(T, 0)), at(T - 1, 0));
    assert_eq!(wait, Wait { secs: 31, nanos: 0 });
}

#[test]
fn the_first_request_of_a_run_without_data_has_no_cursor_and_no_bound() {
    let pager = Pager::new(blank_state().earliest_commit_time(), true);
    assert_eq!(pager.request(), PageRequest { cursor: None, until: None, page_size: 40 });
    let pager = Pager::new(blank_state().earliest_commit_time(), false);
    assert_eq!(pager.request(), PageRequest { cursor: None, until: None, page_size: 40 });
}

#[test]
fn a_backfill_asks_for_the_commits_before_the_saved_extent() {
    let pager = Pager::new(state_with_data().earliest_commit_time(), true);
    assert_eq!(
        pager.request(),
        PageRequest {
            cursor: None,
            until: Some("2023-06-30T12:00:00+00:00".to_string()),
            page_size: 40,
        }
    );
}

#[test]
fn a_run_that_is_no_backfill_ignores_the_saved_extent() {
    let pager = Pager::new(state_with_data().earliest_commit_time(), false);
    assert_eq!(pager.request(), PageRequest { cursor: None, until: None, page_size: 40 });
}

#[test]
fn a_decode_error_retries_the_same_request_after_five_seconds() {
    let mut pager = Pager::new(state_with_data().earliest_commit_time(), true);
    let advance = pager.advance(true, Some("cursor-1".to_string()), &limit(10, 1, at(T, 0)), Signal::Empty, at(T, 0));
    assert_eq!(advance, Advance::Continue { wait: Wait { secs: 0, nanos: 250_000_000 } });
    let before = pager.request();
    assert_eq!(before.cursor, Some("cursor-1".to_string()));
    assert_eq!(pager.received(Fetched::Decode), Received::Retry { wait: Wait { secs: 5, nanos: 0 } });
    assert_eq!(pager.request(), before);
    assert_eq!(pager.received(Fetched::Decode), Received::Retry { wait: Wait { secs: 5, nanos: 0 } });
    assert_eq!(pager.request(), before);
}

#[test]
fn a_timeout_retries_the_same_request_after_five_seconds() {
    let pager = Pager::new(blank_state().earliest_commit_time(), false);
    let before = pager.request();
    assert_eq!(pager.received(Fetched::Timeout), Received::Retry { wait: Wait { secs: 5, nanos: 0 } });
    assert_eq!(pager.request(), before);
}

#[test]
fn an_answer_without_a_payload_retries_the_same_request_after_five_seconds() {
    let pager = Pager::new(blank_state().earliest_commit_time(), false);
    let before = pager.request();
    assert_eq!(
        pager.received(Fetched::Answer(Response { data: None })),
        Received::Retry { wait: Wait { secs: 5, nanos: 0 } }
    );
    assert_eq!(pager.request(), before);
}

#[test]
fn another_failure_ends_the_run() {
    let pager = Pager::new(blank_state().earliest_commit_time(), false);
    assert_eq!(pager.received(Fetched::Failed), Received::Abort { reason: Fatal::Transport });
}

#[test]
fn an_answer_without_a_rate_limit_ends_the_run() {
    let pager = Pager::new(blank_state().earliest_commit_time(), false);
    let response = Response { data: Some(ResponseData { rate_limit: None, repository: None }) };
    assert_eq!(
        pager.received(Fetched::Answer(response)),
        Received::Abort { reason: Fatal::NoRateLimit }
    );
}

#[test]
fn an_answer_with_commits_is_a_page() {
    let pager = Pager::new(blank_state().earliest_commit_time(), false);
    let response = answer(vec![Some(commit("a", 10)), None, Some(commit("b", 20))], true, Some("next"));
    assert_eq!(
        pager.received(Fetched::Answer(response)),
        Received::Page {
            rate_limit: limit(4990, 1, at(T, 0)),
            has_next_page: true,
            next_page_cursor: Some("next".to_string()),
            commits: vec![commit("a", 10), commit("b", 20)],
        }
    );
}

#[test]
fn the_last_page_stops_the_run() {
    let mut pager = Pager::new(blank_state().earliest_commit_time(), false);
    let advance = pager.advance(false, Some("next".to_string()), &limit(10, 1, at(T, 0)), Signal::Empty, at(T, 0));
    assert_eq!(advance, Advance::Stop);
    assert_eq!(pager.request().cursor, None);
}

#[test]
fn a_shutdown_stops_the_run_though_pages_are_left() {
    let mut pager = Pager::new(blank_state().earliest_commit_time(), false);
    let advance = pager.advance(true, Some("next".to_string()), &limit(10, 1, at(T, 0)), Signal::Raised, at(T, 0));
    assert_eq!(advance, Advance::Stop);
    assert_eq!(pager.request().cursor, None);
}

#[test]
fn a_closed_signal_stops_the_run_though_pages_are_left() {
    let mut pager = Pager::new(blank_state().earliest_commit_time(), false);
    let advance = pager.advance(true, Some("next".to_string()), &limit(10, 1, at(T, 0)), Signal::Closed, at(T, 0));
    assert_eq!(advance, Advance::Stop);
    let advance = pager.advance(false, None, &limit(10, 1, at(T, 0)), Signal::Closed, at(T, 0));
    assert_eq!(advance, Advance::Stop);
}

#[test]
fn a_further_page_moves_the_cursor_and_keeps_the_bound() {
    let mut pager = Pager::new(state_with_data().earliest_commit_time(), true);
    let advance = pager.advance(true, Some("c1".to_string()), &limit(10, 1, at(T, 0)), Signal::Empty, at(T, 0));
    assert_eq!(advance, Advance::Continue { wait: Wait { secs: 0, nanos: 250_000_000 } });
    assert_eq!(
        pager.request(),
        PageRequest {
            cursor: Some("c1".to_string()),
            until: Some("2023-06-30T12:00:00+00:00".to_string()),
            page_size: 40,
        }
    );
    let advance = pager.advance(true, Some("c2".to_string()), &limit(5, 10, at(T, 0)), Signal::Empty, at(T - 100, 0));
    assert_eq!(advance, Advance::Continue { wait: Wait { secs: 130, nanos: 0 } });
    assert_eq!(pager.request().cursor, Some("c2".to_string()));
    let advance = pager.advance(true, None, &limit(10, 1, at(T, 0)), Signal::Empty, at(T, 0));
    assert_eq!(advance, Advance::Continue { wait: Wait { secs: 0, nanos: 250_000_000 } });
    assert_eq!(pager.request().cursor, None);
}

#[test]
fn the_bound_of_a_run_stays_while_the_extent_moves() {
    let mut state = blank_state();
    let pager = Pager::new(state.earliest_commit_time(), true);
    state.load_pack("1970-01".to_string(), None).unwrap();
    state.add_commit(commit("a", 10));
    assert!(state.save_curr_pack().is_some());
    assert_eq!(state.earliest_commit_time(), Some("1970-01-01T00:00:10+00:00".to_string()));
    assert_eq!(pager.request().until, None);
}
