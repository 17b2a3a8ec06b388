//! Content synchronisation and safe deployment for a served documentation
//! tree.
//!
//! A documentation tree is mirrored from an object store onto local disk and
//! can be replaced by an uploaded archive. This crate holds the decisions of
//! both operations and the codec between archives and trees; touching the
//! disk and the network is left to the caller.
//!
//! - [`tree`]: the content tree and its mathematical model.
//! - [`archive`]: unpacking tar, gzip and zip archives into entries, packing
//!   entries into a backup.
//! - [`sync`]: clearing a directory and filling it from a bucket.
//! - [`deploy`]: replacing the tree by an upload, with backup and rollback.
//! - [`auth`]: the administrator's credentials in a request header.
//! - [`format`]: archive formats, media types and file names.
//! - [`path`]: which relative paths stay below the directory they are
//!   joined to, and the plain form under which a tree keeps a path.
//! - [`signal`]: what the caller of an operation is told about its end.
//! - [`settings`], [`state`]: the records the service is started with.
//! - [`text`]: comparisons of texts and bytes.

pub mod archive;
pub mod auth;
pub mod deploy;
pub mod format;
pub mod path;
pub mod settings;
pub mod signal;
pub mod state;
pub mod sync;
pub mod text;
pub mod tree;
