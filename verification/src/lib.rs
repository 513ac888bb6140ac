//! Ledger of job runs reported by unattended hosts, and the client-side
//! pipeline that produces the reports.

pub mod common;
pub mod exec;
pub mod keys;
pub mod ledger;
pub mod listing;
pub mod names;
pub mod openapi;
pub mod overview;
pub mod prometheus;
pub mod server;
pub mod store;
pub mod summary;
pub mod submit;
pub mod text;
pub mod time;
pub mod wire;
pub mod xtask;
