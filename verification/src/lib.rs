//! Meeting-join trigger scheduling.
//!
//! The crate decides, from a list of upcoming meetings and the user's timing
//! preferences, which single meeting should trigger an automatic join and
//! exactly when, and tracks which meetings have already been joined or were
//! suppressed by the user.

pub mod daemon;
pub mod kvlist;
pub mod logging;
pub mod nav;
pub mod scheduler;
pub mod settings;
pub mod text;
pub mod tray;
