//! Substitution advice from football match events: per-player activity decay,
//! tactical problem detection and bench candidate ranking.

pub mod text;
pub mod ingest;
pub mod ranking;
pub mod decay;
pub mod matcher;
pub mod dashboard;
pub mod laws;
