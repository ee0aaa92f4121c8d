//! The mirror server's configuration and state, and the filters behind its
//! catalog listing and update-check endpoints.

use vstd::prelude::*;
use std::sync::Arc;
use core::cmp::Ordering;
use crate::extension::{Extension, ExtensionView, WrappedExtensions, extension_views, opt_view, strings_view};
use crate::extensions_utils::{filter_extensions, filtered, opt_str_view};
use crate::text::{chars_of, compare_chars, lex_cmp, parse_i32, parse_i32_spec, split_spec, split_str, str_eq, string_views};

verus! {

/// How the mirror server is set up.
#[derive(Clone)]
pub struct ServerConfig {
    pub port: u16,
    pub host: String,
    /// Root of the extension cache.
    pub extensions_dir: String,
    /// Root of the release cache, if releases are served.
    pub releases_dir: Option<String>,
    /// Whether misses are forwarded upstream.
    pub proxy_mode: bool,
    /// The domain that cached release manifests are pointed at.
    pub domain: Option<String>,
}

impl Default for ServerConfig {
    /// Port 2654 on 127.0.0.1, serving `.zedex-cache` and its `releases`
    /// directory, with no proxying and no domain rewriting.
    fn default() -> (r: ServerConfig)
        ensures
            r.port == 2654,
            r.host@ == "127.0.0.1"@,
            r.extensions_dir@ == ".zedex-cache"@,
            opt_view(r.releases_dir) == Some(".zedex-cache/releases"@),
            !r.proxy_mode,
            r.domain is None,
    {
        let root = String::from_str(".zedex-cache");
        let releases = String::from_str(".zedex-cache/releases");
        ServerConfig {
            port: 2654,
            host: String::from_str("127.0.0.1"),
            extensions_dir: root,
            releases_dir: Some(releases),
            proxy_mode: false,
            domain: None,
        }
    }
}

/// Relies on `Arc::clone`: a second handle on the same value.
#[verifier::external_body]
fn share<T>(a: &Arc<T>) -> (r: Arc<T>)
    ensures
        r == *a,
{
    Arc::clone(a)
}

/// What every request handler of the server sees.
#[derive(Clone)]
pub struct ServerState {
    pub config: Arc<ServerConfig>,
}

impl ServerState {
    pub fn new(config: ServerConfig) -> (r: ServerState)
        ensures
            *r.config == config,
    {
        ServerState { config: Arc::new(config) }
    }

    /// A handle on the configuration.
    pub fn config(&self) -> (r: Arc<ServerConfig>)
        ensures
            r == self.config,
    {
        share(&self.config)
    }
}

/// The mirror server, before it is started.
pub struct LocalServer {
    config: ServerConfig,
}

impl LocalServer {
    pub closed spec fn spec_config(&self) -> ServerConfig {
        self.config
    }

    pub fn new(config: ServerConfig) -> (r: LocalServer)
        ensures
            r.spec_config() == config,
    {
        LocalServer { config }
    }

    /// The configuration the server runs with.
    pub fn config(&self) -> (r: &ServerConfig)
        ensures
            *r == self.spec_config(),
    {
        &self.config
    }
}

/// The filters that the update check adds to those of the listing: a least
/// schema version, a set of ids (none or empty: any id), and bounds on the
/// WebAssembly API version compared as strings (an extension without one
/// passes).
pub open spec fn passes_update_bounds(
    e: ExtensionView,
    min_schema_version: Option<i32>,
    min_wasm_api_version: Option<Seq<char>>,
    max_wasm_api_version: Option<Seq<char>>,
    ids: Option<Seq<Seq<char>>>,
) -> bool {
    &&& match min_schema_version {
        Some(m) => e.schema_version >= m,
        None => true,
    }
    &&& match ids {
        Some(l) => l.len() == 0 || l.contains(e.id),
        None => true,
    }
    &&& match e.wasm_api_version {
        None => true,
        Some(w) => {
            &&& match min_wasm_api_version {
                Some(m) => lex_cmp(w, m) != Ordering::Less,
                None => true,
            }
            &&& match max_wasm_api_version {
                Some(m) => lex_cmp(w, m) != Ordering::Greater,
                None => true,
            }
        },
    }
}

pub open spec fn opt_strings_view(o: Option<&Vec<String>>) -> Option<Seq<Seq<char>>> {
    match o {
        Some(l) => Some(string_views(l@)),
        None => None,
    }
}

fn holds_id(ids: &Vec<String>, id: &str) -> (r: bool)
    ensures
        r == string_views(ids@).contains(id@),
{
    let mut i: usize = 0;
    while i < ids.len()
        invariant
            i <= ids@.len(),
            forall|j: int| 0 <= j < i ==> ids@[j]@ != id@,
        decreases ids@.len() - i,
    {
        if str_eq(ids[i].as_str(), id) {
            assert(string_views(ids@)[i as int] == id@);
            return true;
        }
        i = i + 1;
    }
    assert(!string_views(ids@).contains(id@)) by {
        if string_views(ids@).contains(id@) {
            let j = choose|j: int| 0 <= j < string_views(ids@).len() && string_views(ids@)[j] == id@;
            assert(ids@[j]@ == id@);
        }
    }
    false
}

fn wasm_within(
    w: &Option<String>,
    min_wasm_api_version: Option<&str>,
    max_wasm_api_version: Option<&str>,
) -> (r: bool)
    ensures
        r == (match opt_view(*w) {
            None => true,
            Some(v) => (match opt_str_view(min_wasm_api_version) {
                Some(m) => lex_cmp(v, m) != Ordering::Less,
                None => true,
            }) && (match opt_str_view(max_wasm_api_version) {
                Some(m) => lex_cmp(v, m) != Ordering::Greater,
                None => true,
            }),
        }),
{
    match w {
        None => true,
        Some(v) => {
            let vc = chars_of(v.as_str());
            let min_ok = match min_wasm_api_version {
                Some(m) => {
                    let mc = chars_of(m);
                    match compare_chars(&vc, &mc) {
                        Ordering::Less => false,
                        _ => true,
                    }
                },
                None => true,
            };
            let max_ok = match max_wasm_api_version {
                Some(m) => {
                    let mc = chars_of(m);
                    match compare_chars(&vc, &mc) {
                        Ordering::Greater => false,
                        _ => true,
                    }
                },
                None => true,
            };
            min_ok && max_ok
        },
    }
}

/// The extensions of the catalog that pass the listing's filters (text,
/// most schema version, capability) and then the update check's bounds, in
/// catalog order.
pub fn filter_extensions_with_params(
    extensions: &WrappedExtensions,
    filter: Option<&str>,
    min_schema_version: Option<i32>,
    max_schema_version: Option<i32>,
    min_wasm_api_version: Option<&str>,
    max_wasm_api_version: Option<&str>,
    provides: Option<&str>,
    extension_ids: Option<&Vec<String>>,
) -> (r: Vec<Extension>)
    ensures
        extension_views(r@) == filtered(
            extension_views(extensions.data@),
            opt_str_view(filter),
            max_schema_version,
            opt_str_view(provides),
        ).filter(
            |e: ExtensionView|
                passes_update_bounds(
                    e,
                    min_schema_version,
                    opt_str_view(min_wasm_api_version),
                    opt_str_view(max_wasm_api_version),
                    opt_strings_view(extension_ids),
                ),
        ),
{
    let standard = filter_extensions(&extensions.data, filter, max_schema_version, provides);
    let ghost pred = |e: ExtensionView|
        passes_update_bounds(
            e,
            min_schema_version,
            opt_str_view(min_wasm_api_version),
            opt_str_view(max_wasm_api_version),
            opt_strings_view(extension_ids),
        );
    let mut r: Vec<Extension> = Vec::new();
    let mut i: usize = 0;
    while i < standard.len()
        invariant
            i <= standard@.len(),
            pred == (|e: ExtensionView|
                passes_update_bounds(
                    e,
                    min_schema_version,
                    opt_str_view(min_wasm_api_version),
                    opt_str_view(max_wasm_api_version),
                    opt_strings_view(extension_ids),
                )),
            extension_views(r@) == extension_views(standard@.subrange(0, i as int)).filter(pred),
        decreases standard@.len() - i,
    {
        let e = &standard[i];
        let schema_ok = match min_schema_version {
            Some(m) => e.schema_version >= m,
            None => true,
        };
        let ids_ok = match extension_ids {
            Some(l) => l.len() == 0 || holds_id(l, e.id.as_str()),
            None => true,
        };
        let wasm_ok = wasm_within(&e.wasm_api_version, min_wasm_api_version, max_wasm_api_version);
        let keep = schema_ok && ids_ok && wasm_ok;
        assert(keep == pred(e@));
        let ghost prefix = extension_views(standard@.subrange(0, i as int));
        assert(extension_views(standard@.subrange(0, i + 1)) =~= prefix.push(e@));
        proof {
            prefix.lemma_filter_push(e@, pred);
        }
        if keep {
            let c = e.duplicate();
            r.push(c);
            assert(extension_views(r@) =~= prefix.filter(pred).push(e@));
        }
        i = i + 1;
    }
    assert(standard@.subrange(0, i as int) =~= standard@);
    r
}

/// The answer to an update check: nothing where the id list is empty; else
/// the catalog's extensions whose id is among the comma-separated `ids` and
/// that meet every bound given.
pub fn select_updates(
    catalog: &WrappedExtensions,
    ids: &str,
    min_schema_version: Option<i32>,
    max_schema_version: Option<i32>,
    min_wasm_api_version: Option<&str>,
    max_wasm_api_version: Option<&str>,
) -> (r: Vec<Extension>)
    ensures
        ids@.len() == 0 ==> r@.len() == 0,
        ids@.len() > 0 ==> extension_views(r@) == filtered(
            extension_views(catalog.data@),
            None,
            max_schema_version,
            None,
        ).filter(
            |e: ExtensionView|
                passes_update_bounds(
                    e,
                    min_schema_version,
                    opt_str_view(min_wasm_api_version),
                    opt_str_view(max_wasm_api_version),
                    Some(split_spec(ids@, ',')),
                ),
        ),
{
    if ids.unicode_len() == 0 {
        return Vec::new();
    }
    let list = split_str(ids, ',');
    filter_extensions_with_params(
        catalog,
        None,
        min_schema_version,
        max_schema_version,
        min_wasm_api_version,
        max_wasm_api_version,
        None,
        Some(&list),
    )
}

/// A query parameter read as an `i32`; absent or malformed gives none.
pub fn query_i32(value: Option<&str>) -> (r: Option<i32>)
    ensures
        r == (match value {
            Some(v) => parse_i32_spec(v@),
            None => None,
        }),
{
    match value {
        Some(v) => {
            let cs = chars_of(v);
            parse_i32(&cs)
        },
        None => None,
    }
}

} // verus!
