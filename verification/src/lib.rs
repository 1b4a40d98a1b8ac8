//! Process/window lifecycle coordination for a single-webpage desktop shell.
//!
//! The library decides whether a freshly launched copy of the application may
//! run next to already-running copies (instance policy), which existing window
//! should be brought to the front instead of opening a duplicate, and how the
//! window's geometry is persisted and restored across launches, including
//! cascading placement for concurrently running copies and careful handling of
//! minimized/maximized states.
//!
//! All operating-system work (process snapshots, window enumeration, file
//! access) happens outside this crate; callers hand the observed facts in as
//! plain values and perform the returned decisions.

pub mod activate;
pub mod config;
pub mod instance;
pub mod lifecycle;
pub mod store;
