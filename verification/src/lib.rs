//! Debounced directory watching for image files.
//!
//! Raw filesystem events are buffered per path by a [`debouncer::Debouncer`],
//! flushed as coalesced events once a path has been quiet for the debounce
//! window, filtered down to image files and turned into change notifications.
//! The library itself performs no I/O: the caller supplies timestamps and
//! events, and delivers what comes out.

pub mod debouncer;
pub mod event;
pub mod file_manager;
pub mod filter;
pub mod notifier;
pub mod startup;
pub mod trace;
pub mod watcher;
