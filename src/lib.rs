//! Streaming core of a real-time speech-enhancement pipeline: bounded sample
//! channels, capture and render block handling, frame scheduling, device
//! selection and the bypass and voice-gate routing of each frame.
//!
//! Samples travel as the bit patterns of their 32-bit floating-point values,
//! so the channels and the routing carry them without reading them.

pub mod channel;
pub mod stream;
pub mod engine;
