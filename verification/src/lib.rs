//! Incremental harvesting of a repository's commit history into monthly packs.
//!
//! The crate holds the decisions of a harvest run and none of its input or
//! output: what a page of commits does to the pack that is open, when a pack
//! has to be written and which one has to be read next, how the harvested
//! extent moves, and how the pager retries, paces itself and stops. The
//! caller performs the requests that these functions hand out and gives back
//! what came of them.
//!
//! - [`time`]: instants, and what the calendar says of them.
//! - [`commit`]: one commit, and packs as sequences of commits.
//! - [`response`]: an answer of the remote source, read as a page.
//! - [`data_state`]: the state of a harvest, with the pack that is open.
//! - [`pager`]: which page to ask for, and when.
//! - [`archive`]: what a run does to storage.
//! - [`packs`], [`extent`], [`restart`], [`history`]: what holds of storage
//!   after a run, and after all the runs of a harvest.

pub mod archive;
pub mod commit;
pub mod data_state;
pub mod extent;
pub mod history;
pub mod packs;
pub mod pager;
pub mod response;
pub mod restart;
pub mod time;

pub use crate::commit::CommitStats;
pub use crate::data_state::{CommitPack, DataState};
