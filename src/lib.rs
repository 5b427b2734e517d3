//! Incremental snapshot ingestion: the identity, deduplication, ledger and
//! per-commit decision rules of a declaration-history ingester.
pub mod cache;
pub mod constant;
pub mod ledger;
pub mod numstat;
pub mod paths;
pub mod snapshot;
pub mod text;
pub mod walker;
