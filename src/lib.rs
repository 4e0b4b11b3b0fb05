//! Single-producer, multiple-consumer latest-value slot with deferred
//! reclamation of superseded values.
//!
//! The library holds the read-side epoch protocol (`epoch`), the registry of
//! live readers' epoch counters (`registry`) and the writer's retirement list
//! with its reclamation scan (`retire`).
pub mod epoch;
pub mod registry;
pub mod retire;
