//! Application configuration as plain values.
//!
//! Reading and writing the configuration file is I/O and happens outside the
//! library; the library only carries the settings that the scheduler and the
//! layout computations depend on.

use vstd::prelude::*;

verus! {

/// The user-facing settings. `download_dir` and `export_dir` are absolute
/// paths kept as strings; all path computation in this library is pure string
/// concatenation on top of them.
pub struct Config {
    /// Root directory that downloaded chapters are placed under.
    pub download_dir: String,
    /// Root directory that exported archives are placed under.
    pub export_dir: String,
    /// Session cookie used by the HTTP client.
    pub cookie: String,
    /// Whether log records are also written to a file.
    pub enable_file_logger: bool,
    /// Seconds to wait between two chapter downloads.
    pub download_interval_sec: u64,
}

impl Clone for Config {
    fn clone(&self) -> (r: Config)
        ensures
            r.download_dir@ == self.download_dir@,
            r.export_dir@ == self.export_dir@,
            r.cookie@ == self.cookie@,
            r.enable_file_logger == self.enable_file_logger,
            r.download_interval_sec == self.download_interval_sec,
    {
        Config {
            download_dir: self.download_dir.clone(),
            export_dir: self.export_dir.clone(),
            cookie: self.cookie.clone(),
            enable_file_logger: self.enable_file_logger,
            download_interval_sec: self.download_interval_sec,
        }
    }
}

} // verus!
