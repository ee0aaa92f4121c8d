use zedex::cache::{
    best_available, is_servable, latest_archive_path, legacy_archive_path, resolve_archive, resolve_versioned_archive,
    versioned_archive_path, versions_listing_path, ArchiveProbe, CachedVersion, Resolution,
};
use zedex::cli::{log_level_from, resolve_output_dir, server_config_for, LogLevel, ServeOptions};
use zedex::downloader::{
    finish_version, reconcile, record_outcome, should_download_latest, worker_tracker, DownloadOptions, Outcome,
};
use zedex::extension::{Extension, ExtensionVersionTracker, WrappedExtensions};
use zedex::health::HealthResponse;
use zedex::proxy::{
    api_local_candidates, has_prefix, trim_start, upstream_api_url, upstream_download_url, upstream_release_url,
    upstream_updates_url, upstream_version_download_url, upstream_versions_url,
};
use zedex::releases::{
    content_type_for, extension_of, release_archive_name, release_file_path, release_manifest_name, release_platform, resolve_release,
    rewrite_manifest, ReleaseAnswer,
};
use zedex::server::{filter_extensions_with_params, query_i32, select_updates, LocalServer, ServerConfig, ServerState};
use zedex::version::Version;

fn ext(id: &str, version: &str) -> Extension {
    Extension {
        id: id.to_string(),
        name: id.to_string(),
        version: version.to_string(),
        description: String::new(),
        authors: Vec::new(),
        repository: None,
        schema_version: 1,
        wasm_api_version: None,
        published_at: None,
        download_count: 0,
        provides: Vec::new(),
    }
}

fn cached(v: &str, present: bool) -> CachedVersion {
    CachedVersion { version: v.to_string(), archive_present: present }
}

fn served(r: &Resolution) -> Option<String> {
    match r {
        Resolution::Serve(p) => Some(p.clone()),
        _ => None,
    }
}

fn ids(v: &[Extension]) -> Vec<String> {
    v.iter().map(|e| e.id.clone()).collect()
}

#[test]
fn cache_paths() {
    assert_eq!(latest_archive_path("foo"), "foo/foo.tgz");
    assert_eq!(versioned_archive_path("acme", "1.2.0"), "acme/acme-1.2.0.tgz");
    assert_eq!(versions_listing_path("acme"), "acme/versions.json");
    assert_eq!(legacy_archive_path("acme"), "acme.tar.gz");
}

#[test]
fn best_available_compares_numerically() {
    let listed = vec![cached("1.2.0", true), cached("1.10.0", true)];
    assert_eq!(best_available(&listed), Some(1));
    let probe = ArchiveProbe { latest_present: false, listed, legacy_present: false };
    let r = resolve_archive("acme", &probe, false);
    assert_eq!(served(&r), Some("acme/acme-1.10.0.tgz".to_string()));
}

#[test]
fn best_available_skips_missing_and_unparsable() {
    let listed = vec![cached("2.0.0", false), cached("not-a-version", true), cached("0.3.1", true)];
    assert_eq!(best_available(&listed), Some(2));
    assert_eq!(best_available(&vec![cached("x", true), cached("9.9.9", false)]), None);
    assert_eq!(best_available(&Vec::new()), None);
}

#[test]
fn latest_archive_wins_over_every_other_tier() {
    let probe = ArchiveProbe { latest_present: true, listed: vec![cached("9.0.0", true)], legacy_present: true };
    assert_eq!(served(&resolve_archive("foo", &probe, true)), Some("foo/foo.tgz".to_string()));
}

#[test]
fn legacy_archive_after_listing() {
    let probe = ArchiveProbe { latest_present: false, listed: vec![cached("1.0.0", false)], legacy_present: true };
    assert_eq!(served(&resolve_archive("old", &probe, false)), Some("old.tar.gz".to_string()));
}

#[test]
fn uncached_extension_is_not_found_or_proxied() {
    let probe = || ArchiveProbe { latest_present: false, listed: Vec::new(), legacy_present: false };
    assert!(matches!(resolve_archive("ghost", &probe(), false), Resolution::NotFound));
    assert!(matches!(resolve_archive("ghost", &probe(), true), Resolution::Proxy));
}

#[test]
fn explicit_version_tries_only_its_archive() {
    let r = resolve_versioned_archive("acme", "1.2.0", true, false);
    assert_eq!(served(&r), Some("acme/acme-1.2.0.tgz".to_string()));
    assert!(matches!(resolve_versioned_archive("acme", "1.3.0", false, false), Resolution::NotFound));
    assert!(matches!(resolve_versioned_archive("acme", "1.3.0", false, true), Resolution::Proxy));
}

#[test]
fn release_names_and_defaults() {
    assert_eq!(release_manifest_name("zed", "linux", "aarch64"), "zed-linux-aarch64.json");
    assert_eq!(release_file_path("0.187.8", "zed.dmg"), "0.187.8/zed.dmg");
    assert_eq!(release_archive_name("zed", "linux", "x86_64"), "zed-linux-x86_64.tar.gz");
    let (asset, os, arch) = release_platform(None, None, None);
    assert_eq!((asset.as_str(), os.as_str(), arch.as_str()), ("zed", "macos", "x86_64"));
    let (asset, os, arch) = release_platform(Some("zed-remote-server"), Some("linux"), Some("aarch64"));
    assert_eq!((asset.as_str(), os.as_str(), arch.as_str()), ("zed-remote-server", "linux", "aarch64"));
}

#[test]
fn release_request_decisions() {
    assert_eq!(resolve_release(false, true, true), ReleaseAnswer::NotConfigured);
    assert_eq!(resolve_release(true, true, true), ReleaseAnswer::ReadManifest);
    assert_eq!(resolve_release(true, false, true), ReleaseAnswer::Proxy);
    assert_eq!(resolve_release(true, false, false), ReleaseAnswer::NotFound);
}

#[test]
fn manifest_points_at_mirror_domain() {
    let m = Version {
        version: "0.187.8".to_string(),
        url: "https://zed.dev/api/releases/stable/0.187.8/zed-linux-x86_64.tar.gz?update=1".to_string(),
        api_url: None,
    };
    let r = rewrite_manifest(m, Some("http://localhost:2654"));
    assert_eq!(r.url, "http://localhost:2654/api/releases/stable/0.187.8/zed-linux-x86_64.tar.gz?update=1");
    assert_eq!(r.version, "0.187.8");
    let kept = rewrite_manifest(
        Version { version: "1".to_string(), url: "https://zed.dev/x".to_string(), api_url: None },
        None,
    );
    assert_eq!(kept.url, "https://zed.dev/x");
}

#[test]
fn release_content_types() {
    assert_eq!(content_type_for("Zed.dmg"), "application/x-apple-diskimage");
    assert_eq!(content_type_for("zed-linux-x86_64.tar.gz"), "application/gzip");
    assert_eq!(content_type_for("a.zip"), "application/zip");
    assert_eq!(content_type_for("setup.exe"), "application/vnd.microsoft.portable-executable");
    assert_eq!(content_type_for("Zed.AppImage"), "application/x-executable");
    assert_eq!(content_type_for("m.json"), "application/json");
    assert_eq!(content_type_for("b.tar"), "application/x-tar");
    assert_eq!(content_type_for(".json"), "application/octet-stream");
    assert_eq!(content_type_for("README"), "application/octet-stream");
    assert_eq!(extension_of("a.b.c"), Some("c".to_string()));
    assert_eq!(extension_of("trailing."), Some(String::new()));
    assert_eq!(extension_of(".hidden"), None);
}

fn catalog() -> WrappedExtensions {
    let mut a = ext("a", "1");
    a.schema_version = 0;
    a.wasm_api_version = Some("0.1.0".to_string());
    let mut b = ext("b", "1");
    b.schema_version = 1;
    b.wasm_api_version = Some("0.10.0".to_string());
    let mut c = ext("c", "1");
    c.schema_version = 2;
    WrappedExtensions { data: vec![a, b, c] }
}

#[test]
fn update_check_with_empty_ids_is_empty() {
    let cat = catalog();
    assert!(select_updates(&cat, "", None, None, None, None).is_empty());
    assert!(select_updates(&cat, "", Some(0), Some(5), Some("0.0.0"), Some("9.9.9")).is_empty());
}

#[test]
fn update_check_applies_ids_and_bounds() {
    let cat = catalog();
    assert_eq!(ids(&select_updates(&cat, "a,c", None, None, None, None)), vec!["a", "c"]);
    assert_eq!(ids(&select_updates(&cat, "a,b,c", Some(1), None, None, None)), vec!["b", "c"]);
    assert_eq!(ids(&select_updates(&cat, "a,b,c", None, Some(1), None, None)), vec!["a", "b"]);
    // "0.10.0" sorts below "0.2.0" as a string.
    assert_eq!(ids(&select_updates(&cat, "a,b,c", None, None, None, Some("0.2.0"))), vec!["a", "b", "c"]);
    assert_eq!(ids(&select_updates(&cat, "a,b,c", None, None, Some("0.2.0"), None)), vec!["c"]);
    assert!(select_updates(&cat, "zzz", None, None, None, None).is_empty());
}

#[test]
fn listing_filters_combine() {
    let cat = catalog();
    let r = filter_extensions_with_params(&cat, Some("B"), None, None, None, None, None, None);
    assert_eq!(ids(&r), vec!["b"]);
    let empty_ids: Vec<String> = Vec::new();
    let r = filter_extensions_with_params(&cat, None, Some(1), Some(1), None, None, None, Some(&empty_ids));
    assert_eq!(ids(&r), vec!["b"]);
}

#[test]
fn query_integers() {
    assert_eq!(query_i32(Some("12")), Some(12));
    assert_eq!(query_i32(Some("twelve")), None);
    assert_eq!(query_i32(None), None);
}

#[test]
fn server_configuration() {
    let d = ServerConfig::default();
    assert_eq!(d.port, 2654);
    assert_eq!(d.host, "127.0.0.1");
    assert_eq!(d.extensions_dir, ".zedex-cache");
    assert_eq!(d.releases_dir.as_deref(), Some(".zedex-cache/releases"));
    assert!(!d.proxy_mode);
    let state = ServerState::new(d.clone());
    assert_eq!(state.config().port, 2654);
    let server = LocalServer::new(d);
    assert_eq!(server.config().host, "127.0.0.1");
}

#[test]
fn serve_options_resolve_directories() {
    let opts = ServeOptions {
        port: 8080,
        host: "0.0.0.0".to_string(),
        extensions_dir: None,
        proxy_mode: true,
        domain: Some("http://m".to_string()),
    };
    let c = server_config_for(opts, "/data".to_string());
    assert_eq!(c.extensions_dir, "/data");
    assert_eq!(c.releases_dir.as_deref(), Some("/data/releases"));
    assert!(c.proxy_mode);
    assert_eq!(resolve_output_dir(Some("out".to_string()), "root"), "out");
    assert_eq!(resolve_output_dir(None, "root"), "root");
}

#[test]
fn log_levels() {
    assert_eq!(log_level_from("trace"), LogLevel::Trace);
    assert_eq!(log_level_from("debug"), LogLevel::Debug);
    assert_eq!(log_level_from("info"), LogLevel::Info);
    assert_eq!(log_level_from("warn"), LogLevel::Warn);
    assert_eq!(log_level_from("error"), LogLevel::Error);
    assert_eq!(log_level_from("loud"), LogLevel::Info);
}

#[test]
fn latest_download_decision() {
    let mut t = ExtensionVersionTracker::new();
    let e = ext("x", "1.0.0");
    assert!(should_download_latest(false, &t, &e));
    assert!(should_download_latest(true, &t, &e));
    t.update_extension(&e);
    assert!(!should_download_latest(true, &t, &e));
    assert!(should_download_latest(false, &t, &e));
    assert!(should_download_latest(true, &t, &ext("x", "1.0.1")));
}

#[test]
fn outcomes_update_tracker() {
    let mut t = ExtensionVersionTracker::new();
    record_outcome(&mut t, &ext("a", "1"), Outcome::Failed);
    assert_eq!(t.get("a"), None);
    record_outcome(&mut t, &ext("a", "1"), Outcome::AlreadyPresent);
    assert_eq!(t.get("a"), Some("1".to_string()));
    record_outcome(&mut t, &ext("a", "2"), Outcome::Written);
    assert_eq!(t.get("a"), Some("2".to_string()));
}

#[test]
fn worker_trackers_reconcile_in_order() {
    let mut base = ExtensionVersionTracker::new();
    base.update_extension(&ext("keep", "0"));
    let mut w1 = ExtensionVersionTracker::new();
    w1.update_extension(&ext("a", "1"));
    let mut w2 = ExtensionVersionTracker::new();
    w2.update_extension(&ext("a", "2"));
    w2.update_extension(&ext("b", "1"));
    let r = reconcile(base, vec![Some(w1), None, Some(w2)]);
    assert_eq!(r.get("keep"), Some("0".to_string()));
    assert_eq!(r.get("a"), Some("2".to_string()));
    assert_eq!(r.get("b"), Some("1".to_string()));
}

#[test]
fn pause_only_between_versions_of_one_extension() {
    let mut t = worker_tracker();
    assert_eq!(finish_version(&mut t, &ext("a", "1"), Outcome::Written, true, 10), Some(10));
    assert_eq!(finish_version(&mut t, &ext("a", "2"), Outcome::Failed, true, 10), Some(10));
    assert_eq!(finish_version(&mut t, &ext("a", "3"), Outcome::Written, false, 10), None);
    assert_eq!(finish_version(&mut t, &ext("a", "4"), Outcome::AlreadyPresent, true, 10), None);
    assert_eq!(finish_version(&mut t, &ext("a", "5"), Outcome::Written, true, 0), None);
    assert_eq!(t.get("a"), Some("5".to_string()));
}

#[test]
fn worker_updates_survive_other_workers() {
    let mut prior = ExtensionVersionTracker::new();
    prior.update_extension(&ext("e", "1"));
    prior.update_extension(&ext("f", "1"));
    let mut e_worker = worker_tracker();
    record_outcome(&mut e_worker, &ext("e", "2"), Outcome::Written);
    let f_worker = worker_tracker();
    let r = reconcile(prior, vec![Some(e_worker), Some(f_worker)]);
    assert_eq!(r.get("e"), Some("2".to_string()));
    assert_eq!(r.get("f"), Some("1".to_string()));
}

#[test]
fn servable_versions() {
    assert!(is_servable(&cached("1.10.0", true)));
    assert!(!is_servable(&cached("1.10.0", false)));
    assert!(!is_servable(&cached("1.10", true)));
}

#[test]
fn download_options() {
    let d = DownloadOptions::default();
    assert!(!d.async_mode && !d.all_versions);
    assert_eq!(d.rate_limit, 0);
    assert_eq!(d.concurrency_bound(), Some(1));
    let o = DownloadOptions { async_mode: true, all_versions: true, rate_limit: 10, max_concurrent: 4 };
    assert_eq!(o.concurrency_bound(), None);
    let b = DownloadOptions { async_mode: false, all_versions: false, rate_limit: 0, max_concurrent: 3 };
    assert_eq!(b.concurrency_bound(), Some(3));
    let z = DownloadOptions { async_mode: false, all_versions: false, rate_limit: 0, max_concurrent: 0 };
    assert_eq!(z.concurrency_bound(), Some(1));
}

#[test]
fn upstream_addresses() {
    assert_eq!(
        upstream_download_url("foo"),
        "https://api.zed.dev/extensions/foo/download?min_schema_version=0&max_schema_version=100&min_wasm_api_version=0.0.0&max_wasm_api_version=100.0.0"
    );
    assert_eq!(upstream_version_download_url("foo", "1.0.0"), "https://api.zed.dev/extensions/foo/1.0.0/download");
    assert_eq!(upstream_versions_url("foo"), "https://api.zed.dev/extensions/foo");
    assert_eq!(
        upstream_release_url("zed", "linux", "x86_64"),
        "https://zed.dev/api/releases/latest?asset=zed&os=linux&arch=x86_64"
    );
    let q = vec![("ids".to_string(), "a,b".to_string()), ("max_schema_version".to_string(), "1".to_string())];
    assert_eq!(upstream_updates_url(&q), "https://api.zed.dev/extensions/updates?ids=a,b&max_schema_version=1");
    assert_eq!(upstream_api_url("releases/x", &Vec::new()), "https://zed.dev/api/releases/x");
}

#[test]
fn prefixes_and_trimming() {
    assert!(has_prefix("releases/stable/x", "releases/"));
    assert!(!has_prefix("rel", "releases/"));
    assert_eq!(trim_start("api/api/releases", "api/"), "releases");
    assert_eq!(trim_start("releases", "api/"), "releases");
}

#[test]
fn api_passthrough_candidates() {
    assert_eq!(
        api_local_candidates("api/releases/stable/0.187.8/zed-linux-x86_64.tar.gz", true),
        vec![
            "zed/zed-0.187.8-zed-linux-x86_64.gz",
            "zed-remote-server/zed-remote-server-0.187.8-zed-linux-x86_64.gz",
        ]
    );
    assert_eq!(
        api_local_candidates("releases/stable/0.1.0/Zed.dmg", true),
        vec!["zed/zed-0.1.0-Zed.dmg.gz", "zed-remote-server/zed-remote-server-0.1.0-Zed.dmg.gz", "stable/0.1.0/Zed.dmg"]
    );
    assert_eq!(api_local_candidates("releases/foo/bar?x=1", true), vec!["foo/bar"]);
    assert!(api_local_candidates("releases/latest", true).is_empty());
    assert!(api_local_candidates("releases/foo/bar", false).is_empty());
    assert!(api_local_candidates("extensions/x", true).is_empty());
}

#[test]
fn health_reports() {
    let ok = HealthResponse::report(100, 40, 3, "0.1.0".to_string());
    assert_eq!(ok.status, "OK");
    assert_eq!(ok.reason, "Service is running");
    assert_eq!(ok.uptime, 60);
    assert!(ok.is_healthy());
    let bad = HealthResponse::report(10, 40, 0, "0.1.0".to_string());
    assert_eq!(bad.status, "ERROR");
    assert_eq!(bad.reason, "No extensions found");
    assert_eq!(bad.uptime, 0);
    assert!(!bad.is_healthy());
}
