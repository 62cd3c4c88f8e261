//! Verified core of a bulk loader for CSV market-data files: filename
//! parsing, futures-symbol decomposition, row transformation, an idempotent
//! insertion model, and the per-worker bookkeeping of an ingestion run.
pub mod filename;
pub mod row;
pub mod symbol;
pub mod table;
pub mod worker;
pub mod text;
