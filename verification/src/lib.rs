//! State-management core of a terminal dashboard for a remote torrent daemon.
//!
//! The crate models the application state (navigation stack, modal overlays,
//! column layout, the published snapshot of jobs) and the pure decision logic
//! that reacts to key events, sorts snapshots, renders row text and reconciles
//! a job's file tree against a directory listing.  All I/O — the RPC round
//! trips, the terminal, the filesystem walk — lives outside, feeding plain
//! values in and carrying commands out.

pub mod app;
pub mod conversion;
pub mod key_handlers;
pub mod sort;
pub mod store;
pub mod tree;
