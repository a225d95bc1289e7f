//! Reconciles a local collection of film files with a remote list: resolves
//! candidate names to canonical film ids (through a cache and a bounded number
//! of remote lookups), gathers the remote list page by page, and computes the
//! additions and removals that make the remote list match the local files.
pub mod ids;
pub mod reconcile;
pub mod cache;
pub mod resolve;
pub mod pagination;
pub mod text;
pub mod metadata;
pub mod files;
pub mod sync;
