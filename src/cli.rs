//! The commands of the mirror tool, and what their options resolve to.

use vstd::prelude::*;
use crate::extension::opt_view;
use crate::server::ServerConfig;
use crate::text::str_eq;

verus! {

/// The whole command line.
pub struct Cli {
    /// Root directory of every cache file.
    pub root_dir: String,
    /// One of trace, debug, info, warn, error.
    pub log_level: String,
    /// Whether log lines carry a timestamp.
    pub log_timestamp: bool,
    pub command: Commands,
}

pub enum Commands {
    /// Fetch catalog data or archives.
    Get { target: GetTarget },
    /// Fetch releases.
    Release { target: ReleaseTarget },
    /// Run the mirror server.
    Serve {
        port: u16,
        host: String,
        extensions_dir: Option<String>,
        proxy_mode: bool,
        domain: Option<String>,
    },
}

pub enum GetTarget {
    /// Fetch the catalog, optionally only for some capability tags.
    ExtensionIndex { provides: Vec<String> },
    /// Fetch the latest archive of each named extension.
    Extension { ids: Vec<String>, output_dir: Option<String> },
    /// Fetch the archives of every catalog extension.
    AllExtensions {
        output_dir: Option<String>,
        async_mode: bool,
        all_versions: bool,
        rate_limit: u64,
    },
}

pub enum ReleaseTarget {
    Latest,
    RemoteServerLatest,
    Download { output_dir: Option<String> },
    DownloadRemoteServer { output_dir: Option<String> },
}

/// The options of the `serve` command.
pub struct ServeOptions {
    pub port: u16,
    pub host: String,
    pub extensions_dir: Option<String>,
    pub proxy_mode: bool,
    pub domain: Option<String>,
}

/// The directory given, or `fallback` where none is.
pub fn resolve_output_dir(option: Option<String>, fallback: &str) -> (r: String)
    ensures
        r@ == (match option {
            Some(d) => d@,
            None => fallback@,
        }),
{
    match option {
        Some(d) => d,
        None => String::from_str(fallback),
    }
}

/// The server configuration of a `serve` command: the extension cache is the
/// directory given or the root directory, and releases are served from its
/// `releases` directory.
pub fn server_config_for(options: ServeOptions, root_dir: String) -> (r: ServerConfig)
    ensures
        r.port == options.port,
        r.host@ == options.host@,
        r.proxy_mode == options.proxy_mode,
        opt_view(r.domain) == opt_view(options.domain),
        r.extensions_dir@ == (match options.extensions_dir {
            Some(d) => d@,
            None => root_dir@,
        }),
        opt_view(r.releases_dir) == Some(r.extensions_dir@ + "/releases"@),
{
    let dir = resolve_output_dir(options.extensions_dir, root_dir.as_str());
    let mut releases = dir.clone();
    releases.append("/releases");
    ServerConfig {
        port: options.port,
        host: options.host,
        extensions_dir: dir,
        releases_dir: Some(releases),
        proxy_mode: options.proxy_mode,
        domain: options.domain,
    }
}

/// How much the tool logs.
#[derive(PartialEq, Eq, Structural, Debug, Clone, Copy)]
pub enum LogLevel {
    Trace,
    Debug,
    Info,
    Warn,
    Error,
}

/// The level a `--log-level` value names; anything unknown is `Info`.
pub fn log_level_from(name: &str) -> (r: LogLevel)
    ensures
        r == (if name@ == "trace"@ {
            LogLevel::Trace
        } else if name@ == "debug"@ {
            LogLevel::Debug
        } else if name@ == "warn"@ {
            LogLevel::Warn
        } else if name@ == "error"@ {
            LogLevel::Error
        } else {
            LogLevel::Info
        }),
{
    if str_eq(name, "trace") {
        LogLevel::Trace
    } else if str_eq(name, "debug") {
        LogLevel::Debug
    } else if str_eq(name, "warn") {
        LogLevel::Warn
    } else if str_eq(name, "error") {
        LogLevel::Error
    } else {
        LogLevel::Info
    }
}

} // verus!
