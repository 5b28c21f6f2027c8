//! Discovery and cleanup of disk space held by well-known junk locations.
//!
//! The library holds the rule registry, the platform lookup, path resolution,
//! size accounting, the clean decision and the interactive session state
//! machine. Filesystem walks, terminal drawing and key decoding live in the
//! application around it.
pub mod item;
pub mod discovery;
pub mod registry;
pub mod scanner;
pub mod cleaner;
pub mod session;
pub mod grouping;
pub mod pass;
