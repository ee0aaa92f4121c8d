//! The liveness report of the server.

use vstd::prelude::*;

verus! {

/// What the health endpoint answers.
pub struct HealthResponse {
    /// `OK`, or `ERROR` where no extension is cached.
    pub status: String,
    /// Why the status is what it is.
    pub reason: String,
    /// The version of the service.
    pub version: String,
    /// Seconds since the epoch when the report was made.
    pub timestamp: u64,
    /// Seconds since the server started.
    pub uptime: u64,
    /// How many entries the extension cache holds.
    pub extensions_loaded: u64,
}

impl HealthResponse {
    /// The report at time `now` of a server started at `started_at` whose
    /// cache holds `extensions_loaded` entries.
    pub fn report(now: u64, started_at: u64, extensions_loaded: u64, version: String) -> (r:
        HealthResponse)
        ensures
            r.timestamp == now,
            r.uptime == (if now >= started_at {
                (now - started_at) as u64
            } else {
                0
            }),
            r.extensions_loaded == extensions_loaded,
            r.version@ == version@,
            extensions_loaded > 0 ==> r.status@ == "OK"@ && r.reason@ == "Service is running"@,
            extensions_loaded == 0 ==> r.status@ == "ERROR"@ && r.reason@ == "No extensions found"@,
    {
        let uptime = if now >= started_at {
            now - started_at
        } else {
            0
        };
        let (status, reason) = if extensions_loaded == 0 {
            (String::from_str("ERROR"), String::from_str("No extensions found"))
        } else {
            (String::from_str("OK"), String::from_str("Service is running"))
        };
        HealthResponse { status, reason, version, timestamp: now, uptime, extensions_loaded }
    }

    /// Whether the service reports itself healthy.
    pub fn is_healthy(&self) -> (r: bool)
        ensures
            r == (self.extensions_loaded > 0),
    {
        self.extensions_loaded > 0
    }
}

} // verus!
