//! Core library of NAILS (NixOS Anti-forensics Isolation & Layering System).
//!
//! The library holds the logic that decides what the system does: the path
//! model, the in-memory filesystem used for testing, mount preconditions,
//! submount discovery, log-path validation and rotation, and the
//! deactivation phases.  Everything here is verified with Verus; the parts
//! that touch the real machine live in the companion application crate.
pub mod path;

pub mod keymap;

pub mod error;

pub mod clock;

pub mod filesystem;

pub mod text;

pub mod logging;

pub mod deactivation;

pub use deactivation::{DeactivationMode, DeactivationReport, PostUnmountCleanupReport};
pub use error::{IoError, IoErrorKind, NailsError, Result};
pub use filesystem::{Filesystem, MockFilesystem, MountInfo};
pub use logging::{LoggingConfig, LoggingManager};
