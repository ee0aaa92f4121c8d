//! Where the cache keeps each artifact, and which cached artifact answers an
//! archive request: the latest archive, else the highest cached version that
//! the version listing names, else the legacy flat archive, else the upstream
//! (in proxy mode) or nothing.

use vstd::prelude::*;
use core::cmp::Ordering;

verus! {

/// `<id>/<id>.tgz`: the latest archive of an extension.
pub fn latest_archive_path(id: &str) -> (r: String)
    ensures
        r@ == id@ + "/"@ + id@ + ".tgz"@,
{
    let mut r = String::from_str(id);
    r.append("/");
    r.append(id);
    r.append(".tgz");
    r
}

/// `<id>/<id>-<version>.tgz`: one version's archive.
pub fn versioned_archive_path(id: &str, version: &str) -> (r: String)
    ensures
        r@ == id@ + "/"@ + id@ + "-"@ + version@ + ".tgz"@,
{
    let mut r = String::from_str(id);
    r.append("/");
    r.append(id);
    r.append("-");
    r.append(version);
    r.append(".tgz");
    r
}

/// `<id>/versions.json`: the listing of every version of an extension.
pub fn versions_listing_path(id: &str) -> (r: String)
    ensures
        r@ == id@ + "/versions.json"@,
{
    let mut r = String::from_str(id);
    r.append("/versions.json");
    r
}

/// `<id>.tar.gz`: the flat archive of the legacy layout.
pub fn legacy_archive_path(id: &str) -> (r: String)
    ensures
        r@ == id@ + ".tar.gz"@,
{
    let mut r = String::from_str(id);
    r.append(".tar.gz");
    r
}

/// Whether a version string parses as a semantic version, as
/// `semver::Version::parse` decides it.
pub uninterp spec fn semver_valid(s: Seq<char>) -> bool;

/// The order of two semantic versions, as `semver::Version`'s `Ord` gives it.
pub uninterp spec fn semver_order(a: Seq<char>, b: Seq<char>) -> Ordering;

/// Relies on `semver::Version::parse`: whether it accepts the string.
#[verifier::external_body]
fn is_semver(s: &str) -> (r: bool)
    ensures
        r == semver_valid(s@),
{
    semver::Version::parse(s).is_ok()
}

/// Relies on `semver::Version::parse` and `Ord::cmp` of `semver::Version`:
/// the order of two versions that both parse.
#[verifier::external_body]
fn semver_compare(a: &str, b: &str) -> (r: Option<Ordering>)
    ensures
        r == (if semver_valid(a@) && semver_valid(b@) {
            Some(semver_order(a@, b@))
        } else {
            None::<Ordering>
        }),
{
    match (semver::Version::parse(a), semver::Version::parse(b)) {
        (Ok(x), Ok(y)) => Some(x.cmp(&y)),
        _ => None,
    }
}

/// One version named by an extension's version listing, and whether its
/// archive is in the cache.
pub struct CachedVersion {
    pub version: String,
    pub archive_present: bool,
}

/// Whether a listed version can be served: its archive is cached and it
/// parses as a semantic version.
pub fn is_servable(c: &CachedVersion) -> (r: bool)
    ensures
        r == servable(*c),
{
    c.archive_present && is_semver(c.version.as_str())
}

/// A listed version that can be served: its archive is cached and it parses
/// as a semantic version.
pub open spec fn servable(c: CachedVersion) -> bool {
    c.archive_present && semver_valid(c.version@)
}

/// The highest servable version among the first `n` listed, by semantic
/// version order; of equal ones the later wins.
pub open spec fn best_among(s: Seq<CachedVersion>, n: int) -> Option<int>
    decreases n,
{
    if n <= 0 {
        None
    } else {
        let prev = best_among(s, n - 1);
        if !servable(s[n - 1]) {
            prev
        } else {
            match prev {
                None => Some(n - 1),
                Some(j) => if semver_order(s[j].version@, s[n - 1].version@) == Ordering::Greater {
                    prev
                } else {
                    Some(n - 1)
                },
            }
        }
    }
}

proof fn lemma_best_among_servable(s: Seq<CachedVersion>, n: int)
    requires
        0 <= n <= s.len(),
    ensures
        match best_among(s, n) {
            Some(j) => 0 <= j < n && servable(s[j]),
            None => forall|k: int| 0 <= k < n ==> !servable(#[trigger] s[k]),
        },
    decreases n,
{
    if n > 0 {
        lemma_best_among_servable(s, n - 1);
    }
}

pub open spec fn opt_index(o: Option<usize>) -> Option<int> {
    match o {
        Some(j) => Some(j as int),
        None => None,
    }
}

/// The index of the highest servable version of the listing, if any.
pub fn best_available(listed: &Vec<CachedVersion>) -> (r: Option<usize>)
    ensures
        opt_index(r) == best_among(listed@, listed@.len() as int),
        r matches Some(j) ==> j < listed@.len() && servable(listed@[j as int]),
{
    let mut best: Option<usize> = None;
    let mut i: usize = 0;
    while i < listed.len()
        invariant
            i <= listed@.len(),
            opt_index(best) == best_among(listed@, i as int),
            best matches Some(j) ==> j < i && servable(listed@[j as int]),
        decreases listed@.len() - i,
    {
        let c = &listed[i];
        if c.archive_present && is_semver(c.version.as_str()) {
            match best {
                None => {
                    best = Some(i);
                },
                Some(j) => {
                    let ord = semver_compare(listed[j].version.as_str(), c.version.as_str());
                    match ord {
                        Some(Ordering::Greater) => {},
                        _ => {
                            best = Some(i);
                        },
                    }
                },
            }
        }
        proof {
            lemma_best_among_servable(listed@, i + 1);
        }
        i = i + 1;
    }
    best
}

/// How an archive request is answered.
pub enum Resolution {
    /// Serve the cached file at this path, relative to the extensions directory.
    Serve(String),
    /// Forward the request to the upstream service.
    Proxy,
    /// Answer that nothing was found.
    NotFound,
}

/// What the cache holds for one extension id.
pub struct ArchiveProbe {
    /// `<id>/<id>.tgz` is cached.
    pub latest_present: bool,
    /// The versions that `<id>/versions.json` lists, where it could be read.
    pub listed: Vec<CachedVersion>,
    /// `<id>.tar.gz` is cached.
    pub legacy_present: bool,
}

/// The mathematical content of a [`Resolution`].
pub enum Answer {
    Serve(Seq<char>),
    Proxy,
    NotFound,
}

impl View for Resolution {
    type V = Answer;

    open spec fn view(&self) -> Answer {
        match self {
            Resolution::Serve(p) => Answer::Serve(p@),
            Resolution::Proxy => Answer::Proxy,
            Resolution::NotFound => Answer::NotFound,
        }
    }
}

/// A miss: forwarded upstream in proxy mode, else not found.
pub open spec fn miss(proxy_mode: bool) -> Answer {
    if proxy_mode {
        Answer::Proxy
    } else {
        Answer::NotFound
    }
}

/// The answer to a request for an extension's archive with no version named:
/// the latest archive, else the highest servable listed version, else the
/// legacy archive, else a miss.
pub open spec fn archive_answer(
    id: Seq<char>,
    latest_present: bool,
    listed: Seq<CachedVersion>,
    legacy_present: bool,
    proxy_mode: bool,
) -> Answer {
    if latest_present {
        Answer::Serve(id + "/"@ + id + ".tgz"@)
    } else {
        match best_among(listed, listed.len() as int) {
            Some(j) => Answer::Serve(id + "/"@ + id + "-"@ + listed[j].version@ + ".tgz"@),
            None => if legacy_present {
                Answer::Serve(id + ".tar.gz"@)
            } else {
                miss(proxy_mode)
            },
        }
    }
}

/// An extension with nothing cached in any layout is forwarded upstream in
/// proxy mode and is not found otherwise.
pub proof fn lemma_uncached_is_miss(id: Seq<char>, listed: Seq<CachedVersion>, proxy_mode: bool)
    requires
        forall|i: int| 0 <= i < listed.len() ==> !(#[trigger] listed[i]).archive_present,
    ensures
        archive_answer(id, false, listed, false, proxy_mode) == miss(proxy_mode),
{
    lemma_best_among_servable(listed, listed.len() as int);
    if best_among(listed, listed.len() as int) is Some {
        let j = best_among(listed, listed.len() as int)->Some_0;
        assert(servable(listed[j]));
    }
}

/// With the latest archive missing and two cached, parsing versions listed,
/// the one that semantic version order puts higher is served, whatever the
/// string order of the two.
pub proof fn lemma_higher_listed_version_served(
    id: Seq<char>,
    lower: CachedVersion,
    higher: CachedVersion,
    legacy_present: bool,
    proxy_mode: bool,
)
    requires
        lower.archive_present,
        higher.archive_present,
        semver_valid(lower.version@),
        semver_valid(higher.version@),
        semver_order(lower.version@, higher.version@) == Ordering::Less,
    ensures
        archive_answer(id, false, seq![lower, higher], legacy_present, proxy_mode) == Answer::Serve(
            id + "/"@ + id + "-"@ + higher.version@ + ".tgz"@,
        ),
{
    let s = seq![lower, higher];
    assert(best_among(s, 0) is None);
    assert(best_among(s, 1) == Some(0int));
    assert(best_among(s, 2) == Some(1int));
}

fn miss_resolution(proxy_mode: bool) -> (r: Resolution)
    ensures
        r@ == miss(proxy_mode),
{
    if proxy_mode {
        Resolution::Proxy
    } else {
        Resolution::NotFound
    }
}

/// Resolves a request for an extension's archive with no version named.
pub fn resolve_archive(id: &str, probe: &ArchiveProbe, proxy_mode: bool) -> (r: Resolution)
    ensures
        r@ == archive_answer(id@, probe.latest_present, probe.listed@, probe.legacy_present, proxy_mode),
{
    if probe.latest_present {
        return Resolution::Serve(latest_archive_path(id));
    }
    match best_available(&probe.listed) {
        Some(j) => Resolution::Serve(versioned_archive_path(id, probe.listed[j].version.as_str())),
        None => {
            if probe.legacy_present {
                Resolution::Serve(legacy_archive_path(id))
            } else {
                miss_resolution(proxy_mode)
            }
        },
    }
}

/// Resolves a request for one named version of an extension's archive: only
/// that version's archive is tried before the miss.
pub fn resolve_versioned_archive(id: &str, version: &str, present: bool, proxy_mode: bool) -> (r:
    Resolution)
    ensures
        r@ == (if present {
            Answer::Serve(id@ + "/"@ + id@ + "-"@ + version@ + ".tgz"@)
        } else {
            miss(proxy_mode)
        }),
{
    if present {
        Resolution::Serve(versioned_archive_path(id, version))
    } else {
        miss_resolution(proxy_mode)
    }
}

} // verus!
