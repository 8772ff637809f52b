//! Git concepts of a prospective commit, as plain values.

pub mod change;
pub mod delta;
pub mod hunk;
pub mod repo;
pub mod staged;
pub mod visible;
pub mod walk;

pub use change::{
    CommitChange, CommitChangeKind, CommitStats, FileMode, FileVersion, ObjectId, ProspectiveCommit,
};
pub use hunk::{DiffHunk, LineRange};
pub use repo::CommitMode;
pub use staged::{StagedChange, StagedChangeKind};
