//! Streaming cross-correlation of a reference and a captured audio stream.
//!
//! The library holds the decisions of the engine: how tagged sample blocks
//! are buffered, when a buffered window is handed out for correlation or for
//! spectral analysis, how the two signals are aligned before a transform, and
//! how the lag of the strongest match is read off a correlation sequence.
//! The numeric transforms themselves run on floating-point samples outside
//! the verified code.
pub mod correlation;
pub mod engine;
pub mod spectrum;
