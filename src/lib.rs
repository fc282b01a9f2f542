//! A small feedback-guided fuzzing engine: a signal map written by the harness,
//! historical maxima that decide novelty, a volatile corpus with a round-robin
//! scheduler, havoc-style byte mutations, and a crash record.
pub mod signal;
pub mod feedback;
pub mod mutation;
pub mod corpus;
mod rng;
pub mod engine;
pub mod baseline;
