//! Audiora: an ordered text-to-speech pipeline.
//!
//! The library splits a document into sentences, subdivides each sentence
//! into bounded-size chunks carrying a global sequence index, and models the
//! bounded delivery queue, the reorder buffer and the pipeline state machine
//! that carry synthesized audio to playback in original reading order.

pub mod chunk;
pub mod errors;
pub mod extract;
pub mod order;
pub mod pipeline;
pub mod queue;
pub mod text;
