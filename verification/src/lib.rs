//! Supervisor and audit pipeline for a long-lived line-oriented worker
//! process: a durable, queryable audit trail of curated worker events,
//! the decision logic of the process supervisor and its bounded restart
//! cycle, and the gateway warmup state machine.

pub mod audit;
pub mod clock;
pub mod cost;
pub mod gateway;
pub mod json_text;
pub mod jsonval;
pub mod memory;
pub mod shape;
pub mod supervisor;
pub mod text;
