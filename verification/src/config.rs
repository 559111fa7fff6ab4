//! Process-wide configuration: sync interval and state-file location.

use vstd::prelude::*;
use vstd::string::StringExecFns;

verus! {

/// The default number of seconds between two sync cycles.
pub const DEFAULT_SYNC_INTERVAL_SECS: u64 = 60;

/// Configuration read once per sync-loop start, never hot-reloaded.
#[derive(Debug, Clone)]
pub struct Config {
    /// Interval for checking file changes (in seconds).
    pub sync_interval_secs: u64,
    /// Path of the file that persists the tracker state.
    pub state_file_path: String,
}

impl Config {
    /// Creates the configuration whose state file lives under the given
    /// application data directory.
    pub fn new(app_data_dir: &str) -> (r: Config)
        ensures
            r.sync_interval_secs == DEFAULT_SYNC_INTERVAL_SECS,
            r.state_file_path@ == app_data_dir@ + "/state.json"@,
    {
        let mut state_file_path = app_data_dir.to_owned();
        state_file_path.append("/state.json");
        Config { sync_interval_secs: DEFAULT_SYNC_INTERVAL_SECS, state_file_path }
    }
}

impl Default for Config {
    /// The fallback configuration, used when no application data directory
    /// is available: the state file lives in the current working directory.
    fn default() -> (r: Config)
        ensures
            r.sync_interval_secs == DEFAULT_SYNC_INTERVAL_SECS,
            r.state_file_path@ == "./state.json"@,
    {
        Config {
            sync_interval_secs: DEFAULT_SYNC_INTERVAL_SECS,
            state_file_path: "./state.json".to_owned(),
        }
    }
}

} // verus!
