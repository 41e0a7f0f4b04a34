//! Terminal session recording toolkit: a virtual terminal that interprets
//! ANSI escape output, and extraction of btop metrics from recorded sessions.
pub mod color;
pub mod ansi;
pub mod text;
pub mod vterm;
pub mod pattern;
pub mod metrics;
pub mod cast;
pub mod extract;
pub mod chart;
pub mod replay;
pub mod session;
