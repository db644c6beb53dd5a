//! Client-facing configuration, the web-app manifest data, and the sink for
//! log entries pushed by clients.

use vstd::prelude::*;

verus! {

/// Server configuration handed to the client.
#[derive(Debug)]
pub struct Config {
    pub space_folder_path: String,
    pub index_page: String,
    pub read_only: bool,
    pub log_push: bool,
    pub enable_client_encryption: bool,
}

/// The web-app manifest served to clients.
#[derive(Debug)]
pub struct Manifest {
    pub short_name: String,
    pub name: String,
    pub icons: Vec<ManifestIcon>,
    pub capture_links: String,
    pub start_url: String,
    pub display: String,
    pub display_override: Vec<String>,
    pub scope: String,
    pub theme_color: String,
    pub description: String,
}

/// One icon entry of the web-app manifest.
#[derive(Debug)]
pub struct ManifestIcon {
    pub src: String,
    pub type_: String,
    pub sizes: String,
}

/// One log line pushed from a client.
#[derive(Debug)]
pub struct LogEntry {
    pub level: String,
    pub message: String,
    pub timestamp: u64,
}

/// A sink for client log entries; delivery is an application concern and
/// nothing is promised of it.
pub trait Logger: Sized {
    /// Accepts a batch of entries from the given client address.
    fn log(&self, client_ip: String, entries: Vec<LogEntry>);
}

/// Identifies the process-wide trace subscriber as the log sink; the
/// embedding application wires the actual delivery.
#[derive(Debug)]
pub struct TracingLogger;

impl TracingLogger {
    /// The trace-subscriber sink.
    pub fn new() -> TracingLogger {
        TracingLogger
    }
}

impl Default for TracingLogger {
    fn default() -> (r: TracingLogger)
        ensures
            r == (TracingLogger),
    {
        TracingLogger::new()
    }
}

} // verus!
