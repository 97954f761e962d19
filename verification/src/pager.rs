//! The pager: which page a run asks for, what it does with the answer, and
//! how long it waits before it asks again.
//!
//! The pager sends nothing and never sleeps. It says what to ask for and how
//! long to wait, and is told what came back, what time it is and whether a
//! shutdown was asked for.

use crate::commit::CommitStats;
use crate::data_state::text_of;
use crate::response::{unpack_response, unpacked, RateLimit, Response, UnpackError};
use crate::time::{between, Instant, Timestamp, Wait, NANOS_PER_SEC};
use vstd::prelude::*;

verus! {

/// Commits asked for in one page.
pub const PAGE_SIZE: i64 = 40;

/// Seconds to wait before a request that failed for the moment is sent again.
pub const RETRY_SECS: u64 = 5;

/// Seconds to wait beyond the instant at which the rate limit is reset.
pub const RESET_MARGIN_SECS: u64 = 30;

/// Nanoseconds to wait between two pages while the rate limit allows more.
pub const PACE_NANOS: u32 = 250_000_000;

/// What to ask the remote source for.
#[derive(Debug, PartialEq, Eq)]
pub struct PageRequest {
    /// Where the page begins: the cursor that the page before it ended
    /// with, and `None` for the first page.
    pub cursor: Option<String>,
    /// Only commits up to this date are asked for, in RFC 3339 form.
    pub until: Option<String>,
    pub page_size: i64,
}

/// What came of a request.
#[derive(Debug, PartialEq, Eq)]
pub enum Fetched {
    /// The body of the answer could not be decoded.
    Decode,
    /// The request timed out.
    Timeout,
    /// The request failed in another way.
    Failed,
    /// An answer arrived.
    Answer(Response),
}

/// Why a run gives up.
#[derive(Clone, Copy, Debug, PartialEq, Eq)]
pub enum Fatal {
    /// The request failed, and not for the moment only.
    Transport,
    /// The answer does not tell the rate limit.
    NoRateLimit,
}

/// What to do once a request has come back.
#[derive(Debug, PartialEq, Eq)]
pub enum Received {
    /// Wait, then send the same request again.
    Retry { wait: Wait },
    /// Give up.
    Abort { reason: Fatal },
    /// Take in the commits in their order, then let the pager advance.
    Page {
        rate_limit: RateLimit,
        has_next_page: bool,
        next_page_cursor: Option<String>,
        commits: Vec<CommitStats>,
    },
}

/// What a look at the shutdown signal shows.
#[derive(Clone, Copy, Debug, PartialEq, Eq)]
pub enum Signal {
    /// No shutdown was asked for.
    Empty,
    /// A shutdown was asked for.
    Raised,
    /// Nobody is left who could ask for one.
    Closed,
}

/// What to do once a page has been taken in.
#[derive(Clone, Copy, Debug, PartialEq, Eq)]
pub enum Advance {
    /// Flush and end the run.
    Stop,
    /// Wait, then ask for the next page.
    Continue { wait: Wait },
}

/// Mathematical value of a [`Pager`].
pub struct PagerView {
    pub cursor: Option<Seq<char>>,
    pub until: Option<Seq<char>>,
}

/// The wait before a request is sent again.
pub open spec fn retry_wait() -> Wait {
    Wait { secs: RETRY_SECS, nanos: 0 }
}

/// Whether the rate limit does not cover one more request of this cost.
pub open spec fn exhausted(rate_limit: RateLimit) -> bool {
    rate_limit.remaining - rate_limit.cost < 0
}

/// The margin, in nanoseconds.
pub open spec fn margin_nanos() -> int {
    RESET_MARGIN_SECS * NANOS_PER_SEC
}

/// The wait until the margin after the reset of the rate limit has passed,
/// given the time until the reset (`ahead`) where the reset lies ahead, and
/// else the time since the reset (`behind`). Where the reset lies ahead it is
/// the time until then and the margin, as far as the counter of seconds
/// goes. Where it lies behind it is what is left of the margin. Where
/// neither time is known it is the margin.
pub open spec fn wait_past_reset(ahead: Option<Wait>, behind: Option<Wait>) -> Wait {
    match ahead {
        Some(ahead) => Wait {
            secs: if ahead.secs + RESET_MARGIN_SECS <= u64::MAX {
                (ahead.secs + RESET_MARGIN_SECS) as u64
            } else {
                u64::MAX
            },
            nanos: ahead.nanos,
        },
        None => match behind {
            Some(behind) => {
                let left = margin_nanos() - (behind.secs * NANOS_PER_SEC + behind.nanos);
                if left <= 0 {
                    Wait { secs: 0, nanos: 0 }
                } else {
                    Wait {
                        secs: (left / (NANOS_PER_SEC as int)) as u64,
                        nanos: (left % (NANOS_PER_SEC as int)) as u32,
                    }
                }
            },
            None => Wait { secs: RESET_MARGIN_SECS, nanos: 0 },
        },
    }
}

/// The wait before the next page: past the reset of the rate limit where
/// that is exhausted, else a quarter of a second.
pub open spec fn pace(rate_limit: RateLimit, now: Instant) -> Wait {
    if exhausted(rate_limit) {
        wait_past_reset(between(now, rate_limit.reset_at@), between(rate_limit.reset_at@, now))
    } else {
        Wait { secs: 0, nanos: PACE_NANOS }
    }
}

/// The wait until the margin after the reset of the rate limit has passed,
/// given the time until the reset where the reset lies ahead, and else the
/// time since the reset.
pub fn reset_wait(ahead: Option<Wait>, behind: Option<Wait>) -> (wait: Wait)
    ensures
        wait == wait_past_reset(ahead, behind),
{
    match ahead {
        Some(ahead) => {
            let secs: u64 = if ahead.secs <= u64::MAX - RESET_MARGIN_SECS {
                ahead.secs + RESET_MARGIN_SECS
            } else {
                u64::MAX
            };
            Wait { secs, nanos: ahead.nanos }
        },
        None => match behind {
            Some(behind) => {
                if behind.secs >= RESET_MARGIN_SECS {
                    Wait { secs: 0, nanos: 0 }
                } else {
                    let margin: u64 = RESET_MARGIN_SECS * 1_000_000_000;
                    let passed: u64 = behind.secs * 1_000_000_000 + behind.nanos as u64;
                    if passed >= margin {
                        Wait { secs: 0, nanos: 0 }
                    } else {
                        let left: u64 = margin - passed;
                        Wait { secs: left / 1_000_000_000, nanos: (left % 1_000_000_000) as u32 }
                    }
                }
            },
            None => Wait { secs: RESET_MARGIN_SECS, nanos: 0 },
        },
    }
}

/// The wait before the next page.
pub fn pace_wait(rate_limit: &RateLimit, now: Timestamp) -> (wait: Wait)
    ensures
        wait == pace(*rate_limit, now@),
{
    if rate_limit.remaining < rate_limit.cost {
        let ahead = now.time_until(&rate_limit.reset_at);
        let behind = match ahead {
            Some(_) => None,
            None => rate_limit.reset_at.time_until(&now),
        };
        reset_wait(ahead, behind)
    } else {
        Wait { secs: 0, nanos: PACE_NANOS }
    }
}

/// What to do once a request has come back.
///
/// A request whose answer could not be decoded or that timed out is sent
/// again after [`RETRY_SECS`], and so is one whose answer has no payload.
/// Any other failure ends the run, and so does an answer that does not tell
/// the rate limit. Every other answer is a page.
pub open spec fn received(fetched: Fetched) -> Result<
    Result<(RateLimit, bool, Option<String>, Seq<CommitStats>), Wait>,
    Fatal,
> {
    match fetched {
        Fetched::Decode | Fetched::Timeout => Ok(Err(retry_wait())),
        Fetched::Failed => Err(Fatal::Transport),
        Fetched::Answer(response) => match unpacked(response) {
            Ok(page) => Ok(Ok(page)),
            Err(UnpackError::NoData) => Ok(Err(retry_wait())),
            Err(UnpackError::NoRateLimit) => Err(Fatal::NoRateLimit),
        },
    }
}

/// Whether a look at the shutdown signal ends the run: it does unless the
/// signal is still empty.
pub open spec fn stops(signal: Signal) -> bool {
    signal != Signal::Empty
}

/// A copy of an optional string.
fn clone_text(text: &Option<String>) -> (res: Option<String>)
    ensures
        res == *text,
{
    match text {
        Some(text) => Some(text.clone()),
        None => None,
    }
}

/// Where a run stands in the pages of the history.
pub struct Pager {
    cursor: Option<String>,
    until: Option<String>,
}

impl View for Pager {
    type V = PagerView;

    closed spec fn view(&self) -> PagerView {
        PagerView { cursor: text_of(self.cursor), until: text_of(self.until) }
    }
}

impl Pager {
    /// The pager at the beginning of a run: before the first page.
    ///
    /// `earliest` is the date of the earliest commit harvested so far, as
    /// [`crate::data_state::DataState::earliest_commit_time`] tells it. A run that fills in
    /// older history asks for the commits up to that date, every other run
    /// for all of them. The bound stays as it is for the whole run.
    pub fn new(earliest: Option<String>, backfill: bool) -> (pager: Pager)
        ensures
            pager@ == (PagerView {
                cursor: None,
                until: if backfill {
                    text_of(earliest)
                } else {
                    None
                },
            }),
    {
        let until = if backfill {
            earliest
        } else {
            None
        };
        Pager { cursor: None, until }
    }

    /// The request for the page that is due.
    pub fn request(&self) -> (req: PageRequest)
        ensures
            text_of(req.cursor) == self@.cursor,
            text_of(req.until) == self@.until,
            req.page_size == PAGE_SIZE,
    {
        PageRequest {
            cursor: clone_text(&self.cursor),
            until: clone_text(&self.until),
            page_size: PAGE_SIZE,
        }
    }

    /// What to do once the request for the page that is due has come back.
    /// The pager stays where it is: after a wait the same request is due
    /// again.
    pub fn received(&self, fetched: Fetched) -> (res: Received)
        ensures
            match received(fetched) {
                Ok(Ok((rate_limit, has_next_page, next_page_cursor, commits))) => {
                    &&& res matches Received::Page {
                        rate_limit: r,
                        has_next_page: h,
                        next_page_cursor: n,
                        commits: c,
                    }
                    &&& r == rate_limit
                    &&& h == has_next_page
                    &&& n == next_page_cursor
                    &&& c@ == commits
                },
                Ok(Err(wait)) => res == (Received::Retry { wait }),
                Err(reason) => res == (Received::Abort { reason }),
            },
    {
        match fetched {
            Fetched::Decode => Received::Retry { wait: Wait { secs: RETRY_SECS, nanos: 0 } },
            Fetched::Timeout => Received::Retry { wait: Wait { secs: RETRY_SECS, nanos: 0 } },
            Fetched::Failed => Received::Abort { reason: Fatal::Transport },
            Fetched::Answer(response) => match unpack_response(response) {
                Ok((rate_limit, has_next_page, next_page_cursor, commits)) => Received::Page {
                    rate_limit,
                    has_next_page,
                    next_page_cursor,
                    commits,
                },
                Err(UnpackError::NoData) => Received::Retry {
                    wait: Wait { secs: RETRY_SECS, nanos: 0 },
                },
                Err(UnpackError::NoRateLimit) => Received::Abort { reason: Fatal::NoRateLimit },
            },
        }
    }

    /// What to do once a page has been taken in.
    ///
    /// The run stops where the page was the last one or the shutdown signal
    /// is not empty. The pager then stays where it is. Otherwise the pager
    /// moves on to the cursor that the page ended with, and the next request
    /// is due after the wait that the rate limit asks for.
    pub fn advance(
        &mut self,
        has_next_page: bool,
        next_page_cursor: Option<String>,
        rate_limit: &RateLimit,
        signal: Signal,
        now: Timestamp,
    ) -> (res: Advance)
        ensures
            if !has_next_page || stops(signal) {
                res == Advance::Stop && final(self)@ == old(self)@
            } else {
                &&& res == (Advance::Continue { wait: pace(*rate_limit, now@) })
                &&& final(self)@ == (PagerView {
                    cursor: text_of(next_page_cursor),
                    until: old(self)@.until,
                })
            },
    {
        let stop = match signal {
            Signal::Empty => !has_next_page,
            Signal::Raised => true,
            Signal::Closed => true,
        };
        if stop {
            Advance::Stop
        } else {
            self.cursor = next_page_cursor;
            Advance::Continue { wait: pace_wait(rate_limit, now) }
        }
    }
}

} // verus!
