//! Track reconciliation and persistence engine for a streaming-service
//! wrapper: verified in-memory relational store, catalog lookup decision
//! logic, retrying lookup protocol, DJ-library import reconciliation, and
//! media-session bookkeeping.

pub mod text;
pub mod records;
pub mod table;
pub mod sorting;
pub mod store;
pub mod status;
pub mod legacy;
pub mod lookup;
pub mod worker;
pub mod ratelimit;
pub mod importer;
pub mod media;
pub mod watcher;
pub mod laws;
