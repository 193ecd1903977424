//! The lock engine of a Python virtualenv manager: it reads, bumps and
//! reconciles a lock file that pins one version (or one git reference) per
//! dependency, and writes it back.
pub mod bump;
pub mod dependencies;
pub mod dump;
pub mod error;
pub mod laws;
pub mod locate;
pub mod lock;
pub mod parse;
pub mod paths;
pub mod python_version;
pub mod setup_cfg;
pub mod text;
pub mod update;

pub use bump::BumpType;
pub use dependencies::{FrozenDependency, GitDependency, LockedDependency, SimpleDependency, VersionSpec};
pub use error::{new_error, Error};
pub use lock::{Lock, Metadata};
pub use paths::{PathsResolver, Settings};
pub use update::{UpdateOptions, Updater};
