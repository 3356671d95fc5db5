//! Job orchestration core for turning an ordered set of still images into a
//! single video file through an external command-line encoder.
//!
//! The library covers the decision logic of the pipeline: ordering frame
//! files naturally, assigning per-frame display durations, resolving rotation
//! filters, rendering the encoder's concat manifest, building the encoder
//! argument list, parsing frame progress out of the encoder's diagnostic
//! stream, and tracking job lifecycle state in a status store with
//! forward-only transitions.  Process spawning and filesystem work stay with
//! the caller, which feeds results back in as plain values.

pub mod encoder;
pub mod manifest;
pub mod media;
pub mod models;
pub mod natord;
pub mod numfmt;
pub mod progress;
pub mod rotation;
pub mod store;
