//! The verified core of hexbait: windows over an input, bigram and byte statistics,
//! statistics caching decisions, a small binary-format description language and the
//! state machines behind the hex view.

pub mod window;
pub mod data;
pub mod statistics;
pub mod parsing;
pub mod gui;
