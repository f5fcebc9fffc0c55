//! Smart-meter readings: parsing telegrams, content-addressed ingestion and
//! usage reports over monotonic energy counters.

pub mod decimal;
pub mod digest;
pub mod history;
pub mod ingest;
pub mod joule;
pub mod lexer;
pub mod rate;
pub mod report;
pub mod state;
pub mod state_list;
pub mod telegram;
pub mod usage;
