//! Per-guild sequential playback coordination: queues, active-file tracking,
//! reaping of stale downloads, and a one-shot shutdown protocol.
pub mod command;
pub mod directory;
pub mod laws;
pub mod paths;
pub mod playback;
pub mod queue;
pub mod registry;
pub mod shutdown;
pub mod source;
