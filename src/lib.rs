//! Authorization and state-consistency engine for multi-party legal case collaboration:
//! case membership, document access lists, consent revocation and per-recipient message
//! delivery, each operation with a contract over a mathematical model of the state.
//!
//! - `types`: the records and their views.
//! - `ids`: identifier lists used as ordered sets.
//! - `table`: insertion-ordered tables under unique string keys.
//! - `model`: the state as mathematics and the outcome of each operation.
//! - `state`: the engine that carries the operations out.
//! - `laws`: properties proved across operations.
pub mod ids;
pub mod laws;
pub mod model;
pub mod state;
pub mod table;
pub mod types;
