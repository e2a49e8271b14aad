//! Analytics-and-integrity core of an event monitoring service: a Merkle
//! integrity index, admission control, role-based authorization, the event
//! store with its indexes, and time bucketing.

pub mod aggregations;
pub mod api;
pub mod digest;
pub mod encoding;
pub mod error;
pub mod ids;
pub mod keyed;
pub mod merkle;
pub mod operations;
pub mod query;
pub mod rate_limit;
pub mod rbac;
pub mod state;
pub mod store;
