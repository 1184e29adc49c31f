//! Consistent, checksummed snapshots of one user's workspace data.
pub mod names;
pub mod text;
pub mod digest;
pub mod error;
pub mod manifest;
pub mod io;
pub mod tree;
pub mod world;
pub mod checksum;
pub mod checksum_laws;
pub mod copy;
pub mod copy_laws;
pub mod uuids;
pub mod sql;
pub mod paths;
pub mod snapshot;
pub mod restore;
pub mod workspace;
pub mod workspace_laws;
pub mod events;
pub mod assembly;
pub mod snapshot_laws;
pub mod restore_laws;
pub mod failure_laws;
pub mod progress_laws;
pub mod reply_laws;
pub mod overlay_laws;
pub mod confinement_laws;
