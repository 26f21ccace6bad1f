//! CodexFS: a small filesystem that commits whole snapshots of its tree.
//!
//! Two superblocks and at least two record slots alternate, so that a commit
//! never touches the snapshot that the filesystem would fall back to.

pub mod entry;
pub mod format;
pub mod laws;
pub mod path;
pub mod record;
pub mod snapshot;
pub mod superblock;
pub mod tree;
pub mod volume;

pub use entry::{
    EntryKind, FileEntry, FsError, DEFAULT_DIRECTORY_PERMISSIONS, DEFAULT_FILE_PERMISSIONS,
};
pub use record::{align_up_usize, decode_record, encode_record, required_record_bytes};
pub use superblock::{decode_superblock, encode_superblock, Superblock};
pub use tree::{materialize_missing_parent_directories, validate_path};
pub use volume::{CodexFs, DirectoryEntry, FilesystemInfo, Metadata, MountError, MountState};
