//! Incremental scan-and-cache engine of a wallpaper daemon: the catalog of
//! image files under a watched root, the change detection that keeps it
//! fresh, the in-memory snapshot with stable identities, and the filter
//! chain that picks wallpapers from it.

pub mod arena;
pub mod catalog;
pub mod control;
pub mod daemon;
pub mod data;
pub mod filter;
pub mod index;
pub mod monitor;
pub mod scan;
pub mod storage;
