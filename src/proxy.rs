//! Where misses are forwarded upstream, and which cached release files the
//! generic `/api/**` passthrough tries before it forwards.

use vstd::prelude::*;
use crate::text::{replace_all, replace_spec, split_spec, split_str, string_views, str_eq};

verus! {

/// `k=v` pairs joined by `&`.
pub open spec fn query_string(pairs: Seq<(Seq<char>, Seq<char>)>) -> Seq<char>
    decreases pairs.len(),
{
    if pairs.len() == 0 {
        Seq::empty()
    } else if pairs.len() == 1 {
        pairs[0].0 + "="@ + pairs[0].1
    } else {
        query_string(pairs.drop_last()) + "&"@ + pairs.last().0 + "="@ + pairs.last().1
    }
}

pub open spec fn pair_views(pairs: Seq<(String, String)>) -> Seq<(Seq<char>, Seq<char>)> {
    pairs.map_values(|p: (String, String)| (p.0@, p.1@))
}

/// `?` and the query string, or nothing for no parameters.
pub open spec fn query_suffix(pairs: Seq<(Seq<char>, Seq<char>)>) -> Seq<char> {
    if pairs.len() == 0 {
        Seq::empty()
    } else {
        "?"@ + query_string(pairs)
    }
}

/// Appends `?k=v&k=v...` for the parameters given, nothing for none.
pub fn append_query(url: &mut String, pairs: &Vec<(String, String)>)
    ensures
        final(url)@ == old(url)@ + query_suffix(pair_views(pairs@)),
{
    let ghost start = url@;
    let ghost pv = pair_views(pairs@);
    if pairs.len() == 0 {
        assert(url@ =~= start + query_suffix(pv));
        return;
    }
    url.append("?");
    let mut i: usize = 0;
    while i < pairs.len()
        invariant
            i <= pairs@.len(),
            pairs@.len() > 0,
            pv == pair_views(pairs@),
            i == 0 ==> url@ == start + "?"@,
            i > 0 ==> url@ == start + "?"@ + query_string(pv.subrange(0, i as int)),
        decreases pairs@.len() - i,
    {
        let ghost before = url@;
        if i > 0 {
            url.append("&");
        }
        url.append(pairs[i].0.as_str());
        url.append("=");
        url.append(pairs[i].1.as_str());
        let ghost sub = pv.subrange(0, i + 1);
        assert(sub.drop_last() =~= pv.subrange(0, i as int));
        assert(sub.last() == (pairs@[i as int].0@, pairs@[i as int].1@));
        if i == 0 {
            assert(url@ =~= start + "?"@ + query_string(sub));
        } else {
            assert(url@ =~= start + "?"@ + query_string(sub));
        }
        i = i + 1;
    }
    assert(pv.subrange(0, i as int) =~= pv);
    assert(url@ =~= start + query_suffix(pv));
}

/// The upstream address of an extension's latest archive, across every
/// schema and API version.
pub fn upstream_download_url(id: &str) -> (r: String)
    ensures
        r@ == "https://api.zed.dev/extensions/"@ + id@
            + "/download?min_schema_version=0&max_schema_version=100&min_wasm_api_version=0.0.0&max_wasm_api_version=100.0.0"@,
{
    let mut r = String::from_str("https://api.zed.dev/extensions/");
    r.append(id);
    r.append(
        "/download?min_schema_version=0&max_schema_version=100&min_wasm_api_version=0.0.0&max_wasm_api_version=100.0.0",
    );
    r
}

/// The upstream address of one version's archive.
pub fn upstream_version_download_url(id: &str, version: &str) -> (r: String)
    ensures
        r@ == "https://api.zed.dev/extensions/"@ + id@ + "/"@ + version@ + "/download"@,
{
    let mut r = String::from_str("https://api.zed.dev/extensions/");
    r.append(id);
    r.append("/");
    r.append(version);
    r.append("/download");
    r
}

/// The upstream address of an extension's version listing.
pub fn upstream_versions_url(id: &str) -> (r: String)
    ensures
        r@ == "https://api.zed.dev/extensions/"@ + id@,
{
    let mut r = String::from_str("https://api.zed.dev/extensions/");
    r.append(id);
    r
}

/// The upstream address of an update check with the given parameters.
pub fn upstream_updates_url(query: &Vec<(String, String)>) -> (r: String)
    ensures
        r@ == "https://api.zed.dev/extensions/updates"@ + query_suffix(pair_views(query@)),
{
    let mut r = String::from_str("https://api.zed.dev/extensions/updates");
    append_query(&mut r, query);
    r
}

/// The upstream address of the latest release manifest of a platform.
pub fn upstream_release_url(asset: &str, os: &str, arch: &str) -> (r: String)
    ensures
        r@ == "https://zed.dev/api/releases/latest?asset="@ + asset@ + "&os="@ + os@ + "&arch="@
            + arch@,
{
    let mut r = String::from_str("https://zed.dev/api/releases/latest?asset=");
    r.append(asset);
    r.append("&os=");
    r.append(os);
    r.append("&arch=");
    r.append(arch);
    r
}

/// The upstream address of an `/api/**` request.
pub fn upstream_api_url(path: &str, query: &Vec<(String, String)>) -> (r: String)
    ensures
        r@ == "https://zed.dev/api/"@ + path@ + query_suffix(pair_views(query@)),
{
    let mut r = String::from_str("https://zed.dev/api/");
    r.append(path);
    append_query(&mut r, query);
    r
}

/// `s` begins with `p`.
pub open spec fn starts_with(s: Seq<char>, p: Seq<char>) -> bool {
    p.len() <= s.len() && s.subrange(0, p.len() as int) == p
}

/// `s` without every leading repetition of the non-empty `p`, as
/// `str::trim_start_matches` gives it.
pub open spec fn trim_start_spec(s: Seq<char>, p: Seq<char>) -> Seq<char>
    decreases s.len(),
{
    if p.len() > 0 && starts_with(s, p) {
        trim_start_spec(s.subrange(p.len() as int, s.len() as int), p)
    } else {
        s
    }
}

/// Whether `s` begins with `p`.
pub fn has_prefix(s: &str, p: &str) -> (r: bool)
    ensures
        r == starts_with(s@, p@),
{
    let n = s.unicode_len();
    let m = p.unicode_len();
    if m > n {
        return false;
    }
    let head = s.substring_char(0, m);
    str_eq(head, p)
}

/// Removes every leading repetition of the non-empty `p` from `s`.
pub fn trim_start(s: &str, p: &str) -> (r: String)
    requires
        p@.len() > 0,
    ensures
        r@ == trim_start_spec(s@, p@),
{
    let n = s.unicode_len();
    let m = p.unicode_len();
    let mut i: usize = 0;
    assert(s@.subrange(0, n as int) =~= s@);
    while m <= n - i && str_eq(s.substring_char(i, i + m), p)
        invariant
            n == s@.len(),
            m == p@.len(),
            m > 0,
            i <= n,
            trim_start_spec(s@, p@) == trim_start_spec(s@.subrange(i as int, n as int), p@),
        decreases n - i,
    {
        let ghost rest = s@.subrange(i as int, n as int);
        assert(rest.subrange(0, m as int) =~= s@.subrange(i as int, i + m));
        assert(rest.subrange(m as int, rest.len() as int) =~= s@.subrange(i + m, n as int));
        i = i + m;
    }
    let ghost rest = s@.subrange(i as int, n as int);
    assert(!starts_with(rest, p@)) by {
        if starts_with(rest, p@) {
            assert(rest.subrange(0, m as int) =~= s@.subrange(i as int, i + m));
        }
    }
    String::from_str(s.substring_char(i, n))
}

/// The packed archives that a stable-channel download path
/// `.../stable/<version>/<file>` names, one per asset.
pub open spec fn stable_candidates(path: Seq<char>, releases_configured: bool) -> Seq<Seq<char>> {
    if releases_configured && (starts_with(path, "api/releases/stable/"@) || starts_with(
        path,
        "releases/stable/"@,
    )) {
        let parts = split_spec(trim_start_spec(path, "api/"@), '/');
        if parts.len() >= 4 {
            let stem = replace_spec(parts[3], ".tar.gz"@, ""@);
            seq![
                "zed/zed-"@ + parts[2] + "-"@ + stem + ".gz"@,
                "zed-remote-server/zed-remote-server-"@ + parts[2] + "-"@ + stem + ".gz"@,
            ]
        } else {
            Seq::empty()
        }
    } else {
        Seq::empty()
    }
}

/// The file that a `releases/...` path other than `releases/latest` names,
/// without its query.
pub open spec fn plain_candidates(path: Seq<char>, releases_configured: bool) -> Seq<Seq<char>> {
    if releases_configured && starts_with(path, "releases/"@) && path != "releases/latest"@ {
        seq![trim_start_spec(split_spec(path, '?')[0], "releases/"@)]
    } else {
        Seq::empty()
    }
}

/// The cached release files, relative to the releases directory, that an
/// `/api/**` request for `path` is answered from, in the order they are
/// tried.
pub open spec fn api_candidates(path: Seq<char>, releases_configured: bool) -> Seq<Seq<char>> {
    stable_candidates(path, releases_configured) + plain_candidates(path, releases_configured)
}

/// The cached release files an `/api/**` request is answered from, in order.
pub fn api_local_candidates(path: &str, releases_configured: bool) -> (r: Vec<String>)
    ensures
        string_views(r@) == api_candidates(path@, releases_configured),
{
    proof {
        reveal_strlit("api/");
        reveal_strlit("releases/");
        reveal_strlit(".tar.gz");
    }
    let mut r: Vec<String> = Vec::new();
    if releases_configured && (has_prefix(path, "api/releases/stable/") || has_prefix(path, "releases/stable/")) {
        let clean = trim_start(path, "api/");
        let parts = split_str(clean.as_str(), '/');
        if parts.len() >= 4 {
            assert(string_views(parts@)[2] == parts@[2]@);
            assert(string_views(parts@)[3] == parts@[3]@);
            let stem = replace_all(parts[3].as_str(), ".tar.gz", "");
            let version = parts[2].as_str();
            let mut zed = String::from_str("zed/zed-");
            zed.append(version);
            zed.append("-");
            zed.append(stem.as_str());
            zed.append(".gz");
            let mut remote = String::from_str("zed-remote-server/zed-remote-server-");
            remote.append(version);
            remote.append("-");
            remote.append(stem.as_str());
            remote.append(".gz");
            r.push(zed);
            r.push(remote);
        }
    }
    assert(string_views(r@) =~= stable_candidates(path@, releases_configured));
    let ghost stable = string_views(r@);
    if releases_configured && has_prefix(path, "releases/") && !str_eq(path, "releases/latest") {
        let pieces = split_str(path, '?');
        proof {
            crate::text::lemma_split_nonempty(path@, '?');
        }
        assert(string_views(pieces@)[0] == pieces@[0]@);
        let file = trim_start(pieces[0].as_str(), "releases/");
        r.push(file);
        assert(string_views(r@) =~= stable.push(file@));
    }
    assert(string_views(r@) =~= api_candidates(path@, releases_configured));
    r
}

} // verus!
