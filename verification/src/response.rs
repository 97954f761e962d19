//! One answer of the remote source to a request for a page of commits.

use crate::commit::CommitStats;
use crate::time::Timestamp;
use vstd::prelude::*;

verus! {

/// What the remote source still allows this client, and what the request
/// that was just answered has cost.
#[derive(Clone, Copy, Debug, PartialEq, Eq)]
pub struct RateLimit {
    pub remaining: i64,
    pub cost: i64,
    pub reset_at: Timestamp,
}

/// Where a page of the history ends.
#[derive(Debug, PartialEq, Eq)]
pub struct PageInfo {
    pub has_next_page: bool,
    pub end_cursor: Option<String>,
}

/// One page of a commit's history. A node that the source left blank is
/// `None`.
#[derive(Debug, PartialEq, Eq)]
pub struct History {
    pub nodes: Option<Vec<Option<CommitStats>>>,
    pub page_info: PageInfo,
}

/// The kind of object that a reference points to.
#[derive(Debug, PartialEq, Eq)]
pub enum TargetOn {
    /// A commit, with a page of its history.
    Commit(History),
    /// A blob, a tag or a tree.
    Other,
}

/// The object that a reference points to.
#[derive(Debug, PartialEq, Eq)]
pub struct Target {
    pub on: TargetOn,
}

/// A reference of the repository.
#[derive(Debug, PartialEq, Eq)]
pub struct Ref {
    pub target: Option<Target>,
}

/// The repository that was asked about.
#[derive(Debug, PartialEq, Eq)]
pub struct Repository {
    pub ref_: Option<Ref>,
}

/// The payload of an answer.
#[derive(Debug, PartialEq, Eq)]
pub struct ResponseData {
    pub rate_limit: Option<RateLimit>,
    pub repository: Option<Repository>,
}

/// An answer of the remote source. It may carry no payload at all.
#[derive(Debug, PartialEq, Eq)]
pub struct Response {
    pub data: Option<ResponseData>,
}

/// Why an answer could not be read as a page.
#[derive(Clone, Copy, Debug, PartialEq, Eq)]
pub enum UnpackError {
    /// The answer carries no payload. The request is worth repeating.
    NoData,
    /// The payload does not tell the rate limit.
    NoRateLimit,
}

/// The page of history that a payload leads to: that of the commit which the
/// reference of the repository points to, if each of them is there.
pub open spec fn history_of(data: ResponseData) -> Option<History> {
    match data.repository {
        Some(Repository { ref_: Some(Ref { target: Some(Target { on: TargetOn::Commit(h) }) }) }) => {
            Some(h)
        },
        _ => None,
    }
}

/// The nodes that are not blank, in their order.
pub open spec fn present(nodes: Seq<Option<CommitStats>>) -> Seq<CommitStats>
    decreases nodes.len(),
{
    if nodes.len() == 0 {
        Seq::empty()
    } else {
        match nodes.last() {
            Some(commit) => present(nodes.drop_last()).push(commit),
            None => present(nodes.drop_last()),
        }
    }
}

/// The commits of a page of history: its nodes that are not blank, none where
/// the page has no list of nodes.
pub open spec fn commits_of(history: History) -> Seq<CommitStats> {
    match history.nodes {
        Some(nodes) => present(nodes@),
        None => Seq::empty(),
    }
}

/// What an answer unpacks to: the rate limit, whether a further page exists,
/// the cursor to ask for it with, and the commits of this page.
///
/// A payload that leads to no commit history gives an empty last page.
pub open spec fn unpacked(res: Response) -> Result<
    (RateLimit, bool, Option<String>, Seq<CommitStats>),
    UnpackError,
> {
    match res.data {
        None => Err(UnpackError::NoData),
        Some(data) => match data.rate_limit {
            None => Err(UnpackError::NoRateLimit),
            Some(rate_limit) => match history_of(data) {
                Some(history) => Ok(
                    (
                        rate_limit,
                        history.page_info.has_next_page,
                        history.page_info.end_cursor,
                        commits_of(history),
                    ),
                ),
                None => Ok((rate_limit, false, None, Seq::empty())),
            },
        },
    }
}

/// The nodes of a page that are not blank, in their order.
pub fn present_nodes(nodes: Vec<Option<CommitStats>>) -> (commits: Vec<CommitStats>)
    ensures
        commits@ == present(nodes@),
{
    let mut commits: Vec<CommitStats> = Vec::new();
    let ghost all = nodes@;
    for node in it: nodes
        invariant
            it.seq() == all,
            commits@ == present(all.take(it.index())),
    {
        proof {
            let upto = all.take(it.index() + 1);
            assert(upto.drop_last() =~= all.take(it.index()));
            assert(upto.last() == node);
        }
        if let Some(commit) = node {
            commits.push(commit);
        }
    }
    proof {
        assert(all.take(all.len() as int) =~= all);
    }
    commits
}

/// Reads an answer of the remote source as a page.
///
/// Fails with [`UnpackError::NoData`] where the answer has no payload and
/// with [`UnpackError::NoRateLimit`] where the payload does not tell the rate
/// limit. Every other answer gives a page.
pub fn unpack_response(res: Response) -> (page: Result<
    (RateLimit, bool, Option<String>, Vec<CommitStats>),
    UnpackError,
>)
    ensures
        match unpacked(res) {
            Ok((rate_limit, has_next_page, next_page_cursor, commits)) => {
                &&& page matches Ok(p)
                &&& p.0 == rate_limit
                &&& p.1 == has_next_page
                &&& p.2 == next_page_cursor
                &&& p.3@ == commits
            },
            Err(e) => page matches Err(error) && error == e,
        },
{
    let data = match res.data {
        Some(data) => data,
        None => {
            return Err(UnpackError::NoData);
        },
    };
    let rate_limit = match data.rate_limit {
        Some(rate_limit) => rate_limit,
        None => {
            return Err(UnpackError::NoRateLimit);
        },
    };
    let top_level_ref = match data.repository {
        Some(Repository { ref_: Some(Ref { target: Some(target) }) }) => Some(target.on),
        _ => None,
    };
    match top_level_ref {
        Some(TargetOn::Commit(history)) => {
            let commits = match history.nodes {
                Some(nodes) => present_nodes(nodes),
                None => Vec::new(),
            };
            Ok((rate_limit, history.page_info.has_next_page, history.page_info.end_cursor, commits))
        },
        _ => Ok((rate_limit, false, None, Vec::new())),
    }
}

} // verus!
