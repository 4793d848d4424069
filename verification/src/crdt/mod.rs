//! Plain-value models of the sync layer: connection settings, update and
//! attachment records, and the workspace checks run after a sync.

pub mod transport;
pub mod types;
pub mod reading;
pub mod sanity;
pub mod materialize;
pub mod sync;
pub mod git;
