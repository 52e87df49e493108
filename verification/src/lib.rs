//! A photo classification library: a fixed eight-category taxonomy, fixed-
//! point score distributions, the decision logic of a local embedding
//! engine with backend negotiation and session pooling, a remote chat-model
//! strategy with its protocol retry ladder and answer parsing, a bounded-
//! concurrency batch orchestrator with cooperative cancellation, and
//! collision-safe export planning.
//!
//! Everything here is a function of plain values: transport, inference and
//! the file system stay outside, behind the thinnest possible boundary.

pub mod category;
pub mod classifier;
pub mod engine;
pub mod export;
pub mod json;
pub mod model;
pub mod ollama;
pub mod pipeline;
pub mod prompts;
pub mod scores;
pub mod settings;
pub mod textmatch;
