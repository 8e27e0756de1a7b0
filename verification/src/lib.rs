//! The companion window: one overlay per user that lists the running agent sessions.
//!
//! - [`state`]: what the state file holds.
//! - [`config`]: which configuration counts, and what it sets.
//! - [`rows`]: which sessions are listed, and in what order.
//! - [`drawing`]: what a row shows.
//! - [`liveness`]: which sessions still run.
//! - [`geometry`]: how large the window is, and where it stands.
//! - [`picker`]: the menu in which the user picks a size.
//! - [`app`]: the window's state from one frame to the next.
//! - [`singleton`]: the lock file that keeps one window per user.
//! - [`text`]: comparing, reading, writing and shortening text.

pub mod app;
pub mod config;
pub mod drawing;
pub mod geometry;
pub mod liveness;
pub mod picker;
pub mod rows;
pub mod singleton;
pub mod state;
pub mod text;
