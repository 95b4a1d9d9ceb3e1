//! Helm's voyage lifecycle engine: content-addressed artifacts, the slate of
//! pending observations, the append-only logbook and the seal that joins them.

pub mod actions;
pub mod artifacts;
pub mod codec;
pub mod columns;
pub mod error;
pub mod identity;
pub mod laws;
pub mod ledger;
pub mod model;
pub mod observe;
pub mod payload;
pub mod resolve;
pub mod steer;
pub mod storage;
pub mod text;
