//! The directories a running service works on.

use vstd::prelude::*;

verus! {

/// The pair of directories every deployment needs: the one that holds the
/// served tree and the one for transient files.
#[derive(Debug)]
pub struct AppState {
    pub local_dir: String,
    pub temp_dir: String,
}

impl AppState {
    /// The state for the given directories.
    pub fn new(local_dir: &str, temp_dir: &str) -> (state: AppState)
        ensures
            state.local_dir@ == local_dir@,
            state.temp_dir@ == temp_dir@,
    {
        AppState { local_dir: local_dir.to_owned(), temp_dir: temp_dir.to_owned() }
    }

    /// The state for directories that are handed over.
    pub fn managed(local_dir: String, temp_dir: String) -> (state: AppState)
        ensures
            state.local_dir@ == local_dir@,
            state.temp_dir@ == temp_dir@,
    {
        AppState::new(local_dir.as_str(), temp_dir.as_str())
    }
}

} // verus!
