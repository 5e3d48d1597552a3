//! Change detection for Distance leaderboards: the framing and worker
//! decisions of the service connection, the fetch scheduler, the merge of a
//! fresh snapshot with the previous one, and the changelist diff.

pub mod mode;
pub mod text;
pub mod domain;
pub mod order;
pub mod merge;
pub mod changelist;
pub mod framing;
pub mod transport;
pub mod catalog;
pub mod fetch;
pub mod persistence;
pub mod cycle;
pub mod supervisor;
