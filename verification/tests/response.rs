use nixpkgs_stats::commit::{clone_commits, CommitStats};
use nixpkgs_stats::response::{
    present_nodes, unpack_response, History, PageInfo, RateLimit, Ref, Repository, Response,
    ResponseData, Target, TargetOn, UnpackError,
};
use nixpkgs_stats::time::Timestamp;

fn at(secs: i64) -> Timestamp {
    Timestamp::new(secs, 0).unwrap()
}

fn commit(oid: &str, secs: i64) -> CommitStats {
    CommitStats { oid: oid.to_string(), committed_date: at(secs), payload: format!("stats of {}", oid) }
}

fn limit() -> RateLimit {
    RateLimit { remaining: 4999, cost: 1, reset_at: at(1_700_000_000) }
}

fn history(nodes: Option<Vec<Option<CommitStats>>>, has_next_page: bool, end_cursor: Option<&str>) -> History {
    History {
        nodes,
        page_info: PageInfo { has_next_page, end_cursor: end_cursor.map(|c| c.to_string()) },
    }
}

fn with_target(on: TargetOn) -> Response {
    Response {
        data: Some(ResponseData {
            rate_limit: Some(limit()),
            repository: Some(Repository { ref_: Some(Ref { target: Some(Target { on }) }) }),
        }),
    }
}

#[test]
fn an_answer_without_a_payload_is_no_data() {
    assert_eq!(unpack_response(Response { data: None }), Err(UnpackError::NoData));
}

#[test]
fn a_payload_without_a_rate_limit_is_refused() {
    let response = Response {
        data: Some(ResponseData {
            rate_limit: None,
            repository: Some(Repository {
                ref_: Some(Ref {
                    target: Some(Target {
                        on: TargetOn::Commit(history(Some(vec![Some(commit("a", 1))]), true, Some("x"))),
                    }),
                }),
            }),
        }),
    };
    assert_eq!(unpack_response(response), Err(UnpackError::NoRateLimit));
}

#[test]
fn a_page_gives_its_commits_in_their_order() {
    let nodes = vec![Some(commit("c", 30)), Some(commit("a", 10)), Some(commit("b", 20))];
    let page = unpack_response(with_target(TargetOn::Commit(history(Some(nodes), true, Some("cursor-9")))));
    assert_eq!(
        page,
        Ok((
            limit(),
            true,
            Some("cursor-9".to_string()),
            vec![commit("c", 30), commit("a", 10), commit("b", 20)],
        ))
    );
}

#[test]
fn blank_nodes_are_left_out() {
    let nodes = vec![None, Some(commit("a", 10)), None, None, Some(commit("b", 20)), None];
    let page = unpack_response(with_target(TargetOn::Commit(history(Some(nodes), false, None))));
    assert_eq!(page, Ok((limit(), false, None, vec![commit("a", 10), commit("b", 20)])));
}

#[test]
fn a_page_without_a_list_of_nodes_has_no_commits() {
    let page = unpack_response(with_target(TargetOn::Commit(history(None, true, Some("next")))));
    assert_eq!(page, Ok((limit(), true, Some("next".to_string()), Vec::new())));
}

#[test]
fn a_target_that_is_no_commit_gives_an_empty_last_page() {
    assert_eq!(unpack_response(with_target(TargetOn::Other)), Ok((limit(), false, None, Vec::new())));
}

#[test]
fn a_payload_that_leads_to_no_target_gives_an_empty_last_page() {
    let empty = Ok((limit(), false, None, Vec::new()));
    let no_repository =
        Response { data: Some(ResponseData { rate_limit: Some(limit()), repository: None }) };
    assert_eq!(unpack_response(no_repository), empty);
    let no_ref = Response {
        data: Some(ResponseData {
            rate_limit: Some(limit()),
            repository: Some(Repository { ref_: None }),
        }),
    };
    assert_eq!(unpack_response(no_ref), empty);
    let no_target = Response {
        data: Some(ResponseData {
            rate_limit: Some(limit()),
            repository: Some(Repository { ref_: Some(Ref { target: None }) }),
        }),
    };
    assert_eq!(unpack_response(no_target), empty);
}

#[test]
fn present_nodes_keeps_the_nodes_that_are_there() {
    assert_eq!(present_nodes(Vec::new()), Vec::new());
    assert_eq!(present_nodes(vec![None, None]), Vec::new());
    assert_eq!(
        present_nodes(vec![Some(commit("x", 5)), None, Some(commit("y", 4)), Some(commit("x", 5))]),
        vec![commit("x", 5), commit("y", 4), commit("x", 5)]
    );
}

#[test]
fn a_copy_of_commits_is_equal_to_them() {
    let commits = vec![commit("a", 1), commit("b", 2), commit("c", 3)];
    assert_eq!(clone_commits(&commits), commits);
    assert_eq!(clone_commits(&Vec::new()), Vec::new());
    assert_eq!(commit("a", 1).clone(), commit("a", 1));
}
