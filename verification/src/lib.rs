//! A filesystem capability layer for a CPU frequency-scaling control service:
//! a small interface over the handful of file operations the service needs,
//! an in-memory double of it that derives directory structure from a flat set
//! of absolute paths, and the protocol types exchanged between client and
//! server.

pub mod fs;
pub mod memfs;
pub mod path;
pub mod protocol;
