//! A disk space browser: scans directory trees into trees of sizes and keeps
//! the state of a keyboard-driven view over the mounted file systems.
pub mod model;
pub mod model_props;
pub mod navigation;
pub mod paths;
pub mod scanner;
pub mod screen;
pub mod state;
pub mod units;
