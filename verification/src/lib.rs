//! An interactive multiple-choice quiz engine: a question store with random
//! selection, a per-question session state machine with an escalating
//! answer/feedback protocol, an adaptive terminal-layout planner, and a
//! keyboard input dispatcher.

pub mod bank;
pub mod codec;
pub mod grouping;
pub mod input;
pub mod markdown;
pub mod render;
pub mod rng;
pub mod session;
pub mod store;
pub mod text;
