//! Extensions as the marketplace describes them, and the ledger of the
//! version last downloaded for each.

use vstd::prelude::*;
use crate::text::str_eq;

verus! {

/// One extension of the catalog. A later fetch replaces it whole.
#[derive(Debug, Clone)]
pub struct Extension {
    pub id: String,
    pub name: String,
    pub version: String,
    pub description: String,
    pub authors: Vec<String>,
    pub repository: Option<String>,
    pub schema_version: i32,
    pub wasm_api_version: Option<String>,
    pub published_at: Option<String>,
    pub download_count: i32,
    pub provides: Vec<String>,
}

/// The mathematical content of an [`Extension`].
pub struct ExtensionView {
    pub id: Seq<char>,
    pub name: Seq<char>,
    pub version: Seq<char>,
    pub description: Seq<char>,
    pub authors: Seq<Seq<char>>,
    pub repository: Option<Seq<char>>,
    pub schema_version: i32,
    pub wasm_api_version: Option<Seq<char>>,
    pub published_at: Option<Seq<char>>,
    pub download_count: i32,
    pub provides: Seq<Seq<char>>,
}

pub open spec fn opt_view(o: Option<String>) -> Option<Seq<char>> {
    match o {
        Some(s) => Some(s@),
        None => None,
    }
}

pub open spec fn strings_view(v: Seq<String>) -> Seq<Seq<char>> {
    v.map_values(|s: String| s@)
}

impl View for Extension {
    type V = ExtensionView;

    open spec fn view(&self) -> ExtensionView {
        ExtensionView {
            id: self.id@,
            name: self.name@,
            version: self.version@,
            description: self.description@,
            authors: strings_view(self.authors@),
            repository: opt_view(self.repository),
            schema_version: self.schema_version,
            wasm_api_version: opt_view(self.wasm_api_version),
            published_at: opt_view(self.published_at),
            download_count: self.download_count,
            provides: strings_view(self.provides@),
        }
    }
}

/// The views of a sequence of extensions.
pub open spec fn extension_views(s: Seq<Extension>) -> Seq<ExtensionView> {
    s.map_values(|e: Extension| e@)
}

pub fn copy_string_option(o: &Option<String>) -> (r: Option<String>)
    ensures
        opt_view(r) == opt_view(*o),
{
    match o {
        Some(s) => Some(s.clone()),
        None => None,
    }
}

pub fn copy_strings(v: &Vec<String>) -> (r: Vec<String>)
    ensures
        strings_view(r@) == strings_view(v@),
{
    let mut r: Vec<String> = Vec::new();
    let mut i: usize = 0;
    while i < v.len()
        invariant
            i <= v@.len(),
            r@.len() == i,
            forall|j: int| 0 <= j < i ==> (#[trigger] r@[j])@ == v@[j]@,
        decreases v@.len() - i,
    {
        let s = v[i].clone();
        let ghost before = r@;
        r.push(s);
        assert(r@ == before.push(s));
        assert(s@ == v@[i as int]@);
        i = i + 1;
    }
    assert(strings_view(r@) =~= strings_view(v@));
    r
}

impl Extension {
    /// A copy with the same content.
    pub fn duplicate(&self) -> (r: Extension)
        ensures
            r@ == self@,
    {
        Extension {
            id: self.id.clone(),
            name: self.name.clone(),
            version: self.version.clone(),
            description: self.description.clone(),
            authors: copy_strings(&self.authors),
            repository: copy_string_option(&self.repository),
            schema_version: self.schema_version,
            wasm_api_version: copy_string_option(&self.wasm_api_version),
            published_at: copy_string_option(&self.published_at),
            download_count: self.download_count,
            provides: copy_strings(&self.provides),
        }
    }

    /// Whether `capability` is one of the tags this extension provides.
    pub fn provides_capability(&self, capability: &str) -> (r: bool)
        ensures
            r == strings_view(self.provides@).contains(capability@),
    {
        let mut i: usize = 0;
        while i < self.provides.len()
            invariant
                i <= self.provides@.len(),
                forall|j: int| 0 <= j < i ==> self.provides@[j]@ != capability@,
            decreases self.provides@.len() - i,
        {
            if str_eq(self.provides[i].as_str(), capability) {
                assert(strings_view(self.provides@)[i as int] == capability@);
                return true;
            }
            i = i + 1;
        }
        assert(!strings_view(self.provides@).contains(capability@)) by {
            if strings_view(self.provides@).contains(capability@) {
                let j = choose|j: int|
                    0 <= j < strings_view(self.provides@).len() && strings_view(self.provides@)[j]
                        == capability@;
                assert(self.provides@[j]@ == capability@);
            }
        }
        false
    }
}

/// The index of the first extension of `extensions` with id `id`, if any.
pub fn position_of(extensions: &Vec<Extension>, id: &str) -> (r: Option<usize>)
    ensures
        match r {
            Some(i) => i < extensions@.len() && extensions@[i as int].id@ == id@ && forall|j: int|
                0 <= j < i ==> (#[trigger] extensions@[j]).id@ != id@,
            None => forall|j: int| 0 <= j < extensions@.len() ==> (#[trigger] extensions@[j]).id@ != id@,
        },
{
    let mut i: usize = 0;
    while i < extensions.len()
        invariant
            i <= extensions@.len(),
            forall|j: int| 0 <= j < i ==> (#[trigger] extensions@[j]).id@ != id@,
        decreases extensions@.len() - i,
    {
        if str_eq(extensions[i].id.as_str(), id) {
            return Some(i);
        }
        i = i + 1;
    }
    None
}

/// Every version of one extension.
#[derive(Debug, Clone)]
pub struct ExtensionVersions {
    pub versions: Vec<Extension>,
}

/// A list of extensions as the catalog files and API responses wrap it.
#[derive(Debug, Clone)]
pub struct WrappedExtensions {
    pub data: Vec<Extension>,
}


/// The map that a list of `(id, version)` pairs denotes, later pairs winning.
pub open spec fn pairs_map(s: Seq<(String, String)>) -> Map<Seq<char>, Seq<char>>
    decreases s.len(),
{
    if s.len() == 0 {
        Map::empty()
    } else {
        pairs_map(s.drop_last()).insert(s.last().0@, s.last().1@)
    }
}

/// No id occurs twice.
pub open spec fn keys_unique(s: Seq<(String, String)>) -> bool {
    forall|i: int, j: int| 0 <= i < j < s.len() ==> (#[trigger] s[i]).0@ != (#[trigger] s[j]).0@
}

proof fn lemma_pairs_map_keys(s: Seq<(String, String)>, k: Seq<char>)
    ensures
        pairs_map(s).contains_key(k) <==> exists|i: int| 0 <= i < s.len() && (#[trigger] s[i]).0@ == k,
    decreases s.len(),
{
    if s.len() > 0 {
        lemma_pairs_map_keys(s.drop_last(), k);
        if pairs_map(s.drop_last()).contains_key(k) {
            let i = choose|i: int| 0 <= i < s.drop_last().len() && (#[trigger] s.drop_last()[i]).0@ == k;
            assert(s[i].0@ == k);
        }
        if exists|i: int| 0 <= i < s.len() && (#[trigger] s[i]).0@ == k {
            let i = choose|i: int| 0 <= i < s.len() && (#[trigger] s[i]).0@ == k;
            if i < s.len() - 1 {
                assert(s.drop_last()[i].0@ == k);
            }
        }
    }
}

proof fn lemma_pairs_map_value(s: Seq<(String, String)>, i: int)
    requires
        keys_unique(s),
        0 <= i < s.len(),
    ensures
        pairs_map(s).contains_key(s[i].0@),
        pairs_map(s)[s[i].0@] == s[i].1@,
    decreases s.len(),
{
    if i < s.len() - 1 {
        assert(keys_unique(s.drop_last()));
        lemma_pairs_map_value(s.drop_last(), i);
        assert(s.drop_last()[i] == s[i]);
    }
}

proof fn lemma_pairs_map_update(s: Seq<(String, String)>, i: int, p: (String, String))
    requires
        keys_unique(s),
        0 <= i < s.len(),
        p.0@ == s[i].0@,
    ensures
        keys_unique(s.update(i, p)),
        pairs_map(s.update(i, p)) == pairs_map(s).insert(p.0@, p.1@),
    decreases s.len(),
{
    let t = s.update(i, p);
    assert(keys_unique(t)) by {
        assert forall|a: int, b: int| 0 <= a < b < t.len() implies (#[trigger] t[a]).0@ != (#[trigger] t[b]).0@ by {
            assert(s[a].0@ != s[b].0@);
        }
    }
    if i == s.len() - 1 {
        assert(t.drop_last() =~= s.drop_last());
        assert(pairs_map(t) =~= pairs_map(s).insert(p.0@, p.1@));
    } else {
        assert(keys_unique(s.drop_last()));
        lemma_pairs_map_update(s.drop_last(), i, p);
        assert(t.drop_last() =~= s.drop_last().update(i, p));
        assert(s[i].0@ != s.last().0@);
        assert(pairs_map(t) =~= pairs_map(s).insert(p.0@, p.1@));
    }
}

/// The version last downloaded for each extension id.
pub struct ExtensionVersionTracker {
    extensions: Vec<(String, String)>,
}

impl View for ExtensionVersionTracker {
    type V = Map<Seq<char>, Seq<char>>;

    closed spec fn view(&self) -> Map<Seq<char>, Seq<char>> {
        pairs_map(self.extensions@)
    }
}

impl ExtensionVersionTracker {
    /// Each id is held once.
    pub closed spec fn wf(&self) -> bool {
        keys_unique(self.extensions@)
    }

    /// An empty tracker.
    pub fn new() -> (r: Self)
        ensures
            r.wf(),
            r@ == Map::<Seq<char>, Seq<char>>::empty(),
    {
        ExtensionVersionTracker { extensions: Vec::new() }
    }

    /// Where `id` is held, if it is.
    fn position(&self, id: &str) -> (r: Option<usize>)
        requires
            self.wf(),
        ensures
            match r {
                Some(i) => i < self.extensions@.len() && self.extensions@[i as int].0@ == id@,
                None => !self@.contains_key(id@),
            },
    {
        let mut i: usize = 0;
        while i < self.extensions.len()
            invariant
                i <= self.extensions@.len(),
                forall|j: int| 0 <= j < i ==> (#[trigger] self.extensions@[j]).0@ != id@,
            decreases self.extensions@.len() - i,
        {
            if str_eq(self.extensions[i].0.as_str(), id) {
                return Some(i);
            }
            i = i + 1;
        }
        proof {
            lemma_pairs_map_keys(self.extensions@, id@);
        }
        None
    }

    /// The version recorded for `id`, if any.
    pub fn get(&self, id: &str) -> (r: Option<String>)
        requires
            self.wf(),
        ensures
            opt_view(r) == (if self@.contains_key(id@) { Some(self@[id@]) } else { None::<Seq<char>> }),
    {
        match self.position(id) {
            Some(i) => {
                proof {
                    lemma_pairs_map_value(self.extensions@, i as int);
                }
                Some(self.extensions[i].1.clone())
            },
            None => None,
        }
    }

    /// Records `version` for `id`, replacing what was recorded before.
    pub fn record(&mut self, id: String, version: String)
        requires
            old(self).wf(),
        ensures
            final(self).wf(),
            final(self)@ == old(self)@.insert(id@, version@),
    {
        match self.position(id.as_str()) {
            Some(i) => {
                let ghost before = self.extensions@;
                let p = (id, version);
                proof {
                    lemma_pairs_map_update(before, i as int, p);
                }
                self.extensions.set(i, p);
            },
            None => {
                let ghost before = self.extensions@;
                proof {
                    lemma_pairs_map_keys(before, id@);
                }
                self.extensions.push((id, version));
                assert(self.extensions@.drop_last() =~= before);
                assert(keys_unique(self.extensions@)) by {
                    assert forall|a: int, b: int| 0 <= a < b < self.extensions@.len() implies
                        (#[trigger] self.extensions@[a]).0@ != (#[trigger] self.extensions@[b]).0@ by {
                        if b == self.extensions@.len() - 1 {
                            assert(before[a].0@ != id@);
                        } else {
                            assert(before[a].0@ != before[b].0@);
                        }
                    }
                }
            },
        }
    }

    /// Records the extension's version under its id.
    pub fn update_extension(&mut self, extension: &Extension)
        requires
            old(self).wf(),
        ensures
            final(self).wf(),
            final(self)@ == old(self)@.insert(extension.id@, extension.version@),
    {
        self.record(extension.id.clone(), extension.version.clone());
    }

    /// Folds `other` into this tracker; for an id held by both, `other`'s
    /// version wins.
    pub fn merge(&mut self, other: ExtensionVersionTracker)
        requires
            old(self).wf(),
            other.wf(),
        ensures
            final(self).wf(),
            final(self)@ == old(self)@.union_prefer_right(other@),
    {
        let mut rest = other.extensions;
        let ghost src = rest@;
        let total = rest.len();
        let ghost start = self@;
        let mut i: usize = 0;
        while rest.len() > 0
            invariant
                self.wf(),
                keys_unique(src),
                total == src.len(),
                i + rest@.len() == src.len(),
                rest@ == src.subrange(i as int, src.len() as int),
                self@ == start.union_prefer_right(pairs_map(src.subrange(0, i as int))),
            decreases rest@.len(),
        {
            let (id, version) = rest.remove(0);
            assert(src[i as int] == (id, version));
            assert(src.subrange(0, i + 1).drop_last() =~= src.subrange(0, i as int));
            self.record(id, version);
            assert(self@ =~= start.union_prefer_right(pairs_map(src.subrange(0, i + 1))));
            assert(rest@ =~= src.subrange(i + 1, src.len() as int));
            i = i + 1;
        }
        assert(src.subrange(0, i as int) =~= src);
    }

    /// Whether the extension's version differs from the one recorded for its
    /// id; true where none is recorded.
    pub fn has_newer_version(&self, extension: &Extension) -> (r: bool)
        requires
            self.wf(),
        ensures
            r == !(self@.contains_key(extension.id@) && self@[extension.id@] == extension.version@),
    {
        match self.position(extension.id.as_str()) {
            Some(i) => {
                proof {
                    lemma_pairs_map_value(self.extensions@, i as int);
                }
                !str_eq(self.extensions[i].1.as_str(), extension.version.as_str())
            },
            None => true,
        }
    }

    /// The `(id, version)` pairs held, each id once.
    pub fn entries(&self) -> (r: Vec<(String, String)>)
        requires
            self.wf(),
        ensures
            keys_unique(r@),
            pairs_map(r@) == self@,
    {
        let mut r: Vec<(String, String)> = Vec::new();
        let mut i: usize = 0;
        while i < self.extensions.len()
            invariant
                i <= self.extensions@.len(),
                keys_unique(self.extensions@),
                r@.len() == i,
                forall|j: int| 0 <= j < i ==> (#[trigger] r@[j]).0@ == self.extensions@[j].0@
                    && r@[j].1@ == self.extensions@[j].1@,
            decreases self.extensions@.len() - i,
        {
            let p = (self.extensions[i].0.clone(), self.extensions[i].1.clone());
            r.push(p);
            i = i + 1;
        }
        proof {
            lemma_pairs_map_same(r@, self.extensions@);
        }
        r
    }
}

/// Merging `first` and then `second` into `base` leaves, for each id that
/// `second` holds, `second`'s version; for an id that only `first` holds,
/// `first`'s; the reverse order of merging gives the reverse preference.
pub proof fn lemma_merge_last_write_wins(
    base: ExtensionVersionTracker,
    first: ExtensionVersionTracker,
    second: ExtensionVersionTracker,
    id: Seq<char>,
)
    ensures
        second@.contains_key(id) ==> base@.union_prefer_right(first@).union_prefer_right(second@)[id]
            == second@[id],
        !second@.contains_key(id) && first@.contains_key(id) ==> base@.union_prefer_right(
            first@,
        ).union_prefer_right(second@)[id] == first@[id],
        first@.contains_key(id) ==> base@.union_prefer_right(second@).union_prefer_right(first@)[id]
            == first@[id],
{
}

proof fn lemma_pairs_map_same(a: Seq<(String, String)>, b: Seq<(String, String)>)
    requires
        keys_unique(b),
        a.len() == b.len(),
        forall|j: int| 0 <= j < a.len() ==> (#[trigger] a[j]).0@ == b[j].0@ && a[j].1@ == b[j].1@,
    ensures
        keys_unique(a),
        pairs_map(a) == pairs_map(b),
    decreases a.len(),
{
    assert(keys_unique(a)) by {
        assert forall|x: int, y: int| 0 <= x < y < a.len() implies (#[trigger] a[x]).0@ != (#[trigger] a[y]).0@ by {
            assert(b[x].0@ != b[y].0@);
        }
    }
    if a.len() > 0 {
        assert(keys_unique(b.drop_last()));
        lemma_pairs_map_same(a.drop_last(), b.drop_last());
    }
}

} // verus!
