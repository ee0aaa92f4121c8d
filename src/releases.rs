//! Release manifests and files: where they are cached, how a request for one
//! is answered, and how a cached manifest is pointed at the mirror.

use vstd::prelude::*;
use crate::text::{replace_all, replace_spec, str_eq};
use crate::version::Version;
use crate::extension::{copy_string_option, opt_view};

verus! {

/// The upstream origin that cached manifests point at.
pub const UPSTREAM_ORIGIN: &'static str = "https://zed.dev";

/// `<asset>-<os>-<arch>.json`: the cached manifest of one asset and platform.
pub fn release_manifest_name(asset: &str, os: &str, arch: &str) -> (r: String)
    ensures
        r@ == asset@ + "-"@ + os@ + "-"@ + arch@ + ".json"@,
{
    let mut r = String::from_str(asset);
    r.append("-");
    r.append(os);
    r.append("-");
    r.append(arch);
    r.append(".json");
    r
}

/// `<asset>-<os>-<arch>.tar.gz`: a downloaded release archive, kept under its
/// version's directory.
pub fn release_archive_name(asset: &str, os: &str, arch: &str) -> (r: String)
    ensures
        r@ == asset@ + "-"@ + os@ + "-"@ + arch@ + ".tar.gz"@,
{
    let mut r = String::from_str(asset);
    r.append("-");
    r.append(os);
    r.append("-");
    r.append(arch);
    r.append(".tar.gz");
    r
}

/// `<version>/<filename>`: a release file under the releases directory.
pub fn release_file_path(version: &str, filename: &str) -> (r: String)
    ensures
        r@ == version@ + "/"@ + filename@,
{
    let mut r = String::from_str(version);
    r.append("/");
    r.append(filename);
    r
}

/// A query value, or `default` where it is absent.
pub fn value_or(value: Option<&str>, default: &str) -> (r: String)
    ensures
        r@ == (match value {
            Some(v) => v@,
            None => default@,
        }),
{
    match value {
        Some(v) => String::from_str(v),
        None => String::from_str(default),
    }
}

/// The asset, operating system and architecture of a release request, each
/// defaulting (`zed`, `macos`, `x86_64`) where absent.
pub fn release_platform(asset: Option<&str>, os: Option<&str>, arch: Option<&str>) -> (r: (
    String,
    String,
    String,
))
    ensures
        r.0@ == (match asset {
            Some(v) => v@,
            None => "zed"@,
        }),
        r.1@ == (match os {
            Some(v) => v@,
            None => "macos"@,
        }),
        r.2@ == (match arch {
            Some(v) => v@,
            None => "x86_64"@,
        }),
{
    (value_or(asset, "zed"), value_or(os, "macos"), value_or(arch, "x86_64"))
}

/// How a request for a release manifest is answered.
#[derive(PartialEq, Eq, Structural, Debug, Clone, Copy)]
pub enum ReleaseAnswer {
    /// Read the cached manifest and return it, rewritten.
    ReadManifest,
    /// Forward the lookup upstream unchanged.
    Proxy,
    /// No manifest is cached for the platform.
    NotFound,
    /// No releases directory is configured.
    NotConfigured,
}

/// Decides how a release manifest request is answered.
pub fn resolve_release(releases_configured: bool, manifest_present: bool, proxy_mode: bool) -> (r:
    ReleaseAnswer)
    ensures
        r == (if !releases_configured {
            ReleaseAnswer::NotConfigured
        } else if manifest_present {
            ReleaseAnswer::ReadManifest
        } else if proxy_mode {
            ReleaseAnswer::Proxy
        } else {
            ReleaseAnswer::NotFound
        }),
{
    if !releases_configured {
        ReleaseAnswer::NotConfigured
    } else if manifest_present {
        ReleaseAnswer::ReadManifest
    } else if proxy_mode {
        ReleaseAnswer::Proxy
    } else {
        ReleaseAnswer::NotFound
    }
}

/// A cached manifest as served: where a mirror domain is configured, every
/// occurrence of the upstream origin in its download URL becomes that domain.
pub fn rewrite_manifest(manifest: Version, domain: Option<&str>) -> (r: Version)
    ensures
        r.version@ == manifest.version@,
        opt_view(r.api_url) == opt_view(manifest.api_url),
        r.url@ == (match domain {
            Some(d) => replace_spec(manifest.url@, UPSTREAM_ORIGIN@, d@),
            None => manifest.url@,
        }),
{
    match domain {
        Some(d) => {
            proof {
                reveal_strlit("https://zed.dev");
            }
            let url = replace_all(manifest.url.as_str(), UPSTREAM_ORIGIN, d);
            Version { version: manifest.version, url, api_url: manifest.api_url }
        },
        None => manifest,
    }
}

/// The index of the last `.` in `s`, or -1.
pub open spec fn last_dot(s: Seq<char>) -> int
    decreases s.len(),
{
    if s.len() == 0 {
        -1
    } else if s.last() == '.' {
        s.len() - 1
    } else {
        last_dot(s.drop_last())
    }
}

/// The extension of a file name as `Path::extension` gives it: what follows
/// the last `.`, where that `.` is not the first character.
pub open spec fn file_extension(name: Seq<char>) -> Option<Seq<char>> {
    let k = last_dot(name);
    if k <= 0 {
        None
    } else {
        Some(name.subrange(k + 1, name.len() as int))
    }
}

/// The extension of a file name, if it has one.
pub fn extension_of(name: &str) -> (r: Option<String>)
    ensures
        opt_view(r) == file_extension(name@),
{
    let n = name.unicode_len();
    let mut i: usize = n;
    assert(name@.subrange(0, n as int) =~= name@);
    while i > 0
        invariant
            n == name@.len(),
            i <= n,
            last_dot(name@) == last_dot(name@.subrange(0, i as int)),
        decreases i,
    {
        if name.get_char(i - 1) == '.' {
            assert(name@.subrange(0, i as int).last() == '.');
            if i - 1 == 0 {
                return None;
            }
            return Some(String::from_str(name.substring_char(i, n)));
        }
        assert(name@.subrange(0, i as int).drop_last() =~= name@.subrange(0, i - 1));
        i = i - 1;
    }
    None
}

/// The content type that a release file is served with, by its extension.
pub open spec fn content_type_spec(name: Seq<char>) -> Seq<char> {
    match file_extension(name) {
        Some(e) => if e == "dmg"@ {
            "application/x-apple-diskimage"@
        } else if e == "zip"@ {
            "application/zip"@
        } else if e == "exe"@ {
            "application/vnd.microsoft.portable-executable"@
        } else if e == "AppImage"@ {
            "application/x-executable"@
        } else if e == "json"@ {
            "application/json"@
        } else if e == "gz"@ {
            "application/gzip"@
        } else if e == "tar"@ {
            "application/x-tar"@
        } else {
            "application/octet-stream"@
        },
        None => "application/octet-stream"@,
    }
}

/// The content type of a release file.
pub fn content_type_for(name: &str) -> (r: String)
    ensures
        r@ == content_type_spec(name@),
{
    let t = match extension_of(name) {
        Some(e) => {
            let e = e.as_str();
            if str_eq(e, "dmg") {
                "application/x-apple-diskimage"
            } else if str_eq(e, "zip") {
                "application/zip"
            } else if str_eq(e, "exe") {
                "application/vnd.microsoft.portable-executable"
            } else if str_eq(e, "AppImage") {
                "application/x-executable"
            } else if str_eq(e, "json") {
                "application/json"
            } else if str_eq(e, "gz") {
                "application/gzip"
            } else if str_eq(e, "tar") {
                "application/x-tar"
            } else {
                "application/octet-stream"
            }
        },
        None => "application/octet-stream",
    };
    String::from_str(t)
}

} // verus!
