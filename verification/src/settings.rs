//! The settings record that the service is started with. Where the values
//! come from is not this crate's concern.

use vstd::prelude::*;

verus! {

/// Where the service listens.
#[derive(Debug)]
pub struct Server {
    /// Listening address; `0.0.0.0` to accept connections from anywhere.
    pub host: String,
    /// Listening port.
    pub port: i32,
}

/// The administrator's credentials.
#[derive(Debug)]
pub struct Auth {
    pub username: String,
    pub password: String,
}

/// How much the service logs.
#[derive(Debug)]
pub struct Logging {
    pub log_level: String,
}

/// The object store that is mirrored.
#[derive(Debug)]
pub struct S3 {
    /// URL of the store's endpoint.
    pub endpoint: String,
    /// Name of the bucket.
    pub bucket: String,
    /// Whether requests address the bucket in the path.
    pub force_path_style: bool,
    /// Whether the documentation is loaded on start.
    pub load_on_start: bool,
}

/// The directories the service works in.
#[derive(Debug)]
pub struct FS {
    /// Local directory where the documentation is stored.
    pub local_dir: String,
    /// Directory for uploads and backups while a deployment runs.
    pub temp_dir: String,
    /// Directory below `local_dir` that is served.
    pub statics: String,
}

/// All settings of the service.
#[derive(Debug)]
pub struct Settings {
    pub server: Server,
    pub logging: Logging,
    pub auth: Auth,
    pub s3: S3,
    pub fs: FS,
}

} // verus!
