//! Permission auditing for a Bitbucket Cloud workspace: the data model of grants, the
//! normalisation of fetched grant lists, the decisions of a Run and of a Refresh, the
//! routing of staged permission edits, the stored row form of a Snapshot, the
//! per-grant-source diff between two Snapshots, and the Roster tree computed for a Run
//! pair.

pub mod text;
pub mod model;
pub mod diff;
pub mod roster;
pub mod normalize;
pub mod storage;
pub mod client;
pub mod collect;
pub mod apply;
pub mod refresh;
pub mod credentials;
