//! A minimal real-time 2D application shell: a fixed-size RGBA frame buffer
//! with software rasterization primitives (clear, rectangle, line, circle,
//! sprite blit), an input-state record, and a poll-driven frame-loop state
//! machine that dispatches events to user callbacks and drives the per-frame
//! update / draw / present cycle.
//!
//! Window creation, surface presentation and OS event sourcing are external
//! collaborators: the loop's decisions live here as a verified state machine,
//! and an unverified shell performs the actions it returns.

pub mod engine;
pub mod graphics;
pub mod math;
