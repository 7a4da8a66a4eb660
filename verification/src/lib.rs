//! A content-addressed, chunked file store with Merkle commitments,
//! certified reads and registry-backed access control.

pub mod analytics;
pub mod auth;
pub mod billing;
pub mod bytes;
pub mod hash;
pub mod http;
pub mod keys;
pub mod ledger;
pub mod principal;
pub mod records;
pub mod registry;
pub mod router;
pub mod storage;
pub mod text;
pub mod vecmap;
