//! The catalog: capability-filtered fetches merged by id, later fetches
//! winning, and ordered by download count, highest first.

use vstd::prelude::*;
use crate::extension::{Extension, ExtensionView, copy_strings, extension_views, strings_view};
use crate::text::str_eq;

verus! {

broadcast use vstd::seq_lib::group_to_multiset_ensures;

/// No id occurs twice.
pub open spec fn ids_unique(s: Seq<ExtensionView>) -> bool {
    forall|i: int, j: int| 0 <= i < j < s.len() ==> (#[trigger] s[i]).id != (#[trigger] s[j]).id
}

/// The extensions of `s` keyed by id; where an id occurs more than once the
/// last occurrence wins.
pub open spec fn by_id(s: Seq<ExtensionView>) -> Map<Seq<char>, ExtensionView>
    decreases s.len(),
{
    if s.len() == 0 {
        Map::empty()
    } else {
        by_id(s.drop_last()).insert(s.last().id, s.last())
    }
}

/// Download counts never rise from one entry to the next.
pub open spec fn sorted_by_downloads(s: Seq<ExtensionView>) -> bool {
    forall|i: int, j: int| 0 <= i < j < s.len() ==> (#[trigger] s[i]).download_count >= (#[trigger] s[j]).download_count
}

/// Holds for extensions downloaded exactly `c` times.
pub open spec fn count_is(c: i32) -> spec_fn(ExtensionView) -> bool {
    |e: ExtensionView| e.download_count == c
}

/// The entries of `s` downloaded exactly `c` times, in their order.
pub open spec fn with_count(s: Seq<ExtensionView>, c: i32) -> Seq<ExtensionView> {
    s.filter(count_is(c))
}

proof fn lemma_filter_none(b: Seq<ExtensionView>, c: i32)
    requires
        forall|k: int| 0 <= k < b.len() ==> (#[trigger] b[k]).download_count != c,
    ensures
        with_count(b, c) == Seq::<ExtensionView>::empty(),
    decreases b.len(),
{
    reveal(Seq::filter);
    if b.len() > 0 {
        lemma_filter_none(b.drop_last(), c);
        assert(!count_is(c)(b.last()));
    } else {
        assert(b =~= Seq::<ExtensionView>::empty());
    }
}

proof fn lemma_insert_with_count(s: Seq<ExtensionView>, p: int, e: ExtensionView, c: i32)
    requires
        0 <= p <= s.len(),
        forall|k: int| p <= k < s.len() ==> (#[trigger] s[k]).download_count < e.download_count,
    ensures
        with_count(s.insert(p, e), c) == (if c == e.download_count {
            with_count(s, c).push(e)
        } else {
            with_count(s, c)
        }),
{
    let a = s.subrange(0, p);
    let b = s.subrange(p, s.len() as int);
    assert(s =~= a + b);
    assert(s.insert(p, e) =~= a.push(e) + b);
    Seq::filter_distributes_over_add(a, b, count_is(c));
    Seq::filter_distributes_over_add(a.push(e), b, count_is(c));
    a.lemma_filter_push(e, count_is(c));
    if c == e.download_count {
        lemma_filter_none(b, c);
        assert(with_count(s.insert(p, e), c) =~= with_count(s, c).push(e));
    }
}

/// A catalog that starts as `base` after the fetch results `fetches` are
/// merged into it in order.
pub open spec fn merge_all(
    base: Map<Seq<char>, ExtensionView>,
    fetches: Seq<Seq<ExtensionView>>,
) -> Map<Seq<char>, ExtensionView>
    decreases fetches.len(),
{
    if fetches.len() == 0 {
        base
    } else {
        merge_all(base, fetches.drop_last()).union_prefer_right(by_id(fetches.last()))
    }
}

pub proof fn lemma_by_id_keys(s: Seq<ExtensionView>, k: Seq<char>)
    ensures
        by_id(s).contains_key(k) <==> exists|i: int| 0 <= i < s.len() && (#[trigger] s[i]).id == k,
    decreases s.len(),
{
    if s.len() > 0 {
        lemma_by_id_keys(s.drop_last(), k);
        if by_id(s.drop_last()).contains_key(k) {
            let i = choose|i: int| 0 <= i < s.drop_last().len() && (#[trigger] s.drop_last()[i]).id == k;
            assert(s[i].id == k);
        }
        if exists|i: int| 0 <= i < s.len() && (#[trigger] s[i]).id == k {
            let i = choose|i: int| 0 <= i < s.len() && (#[trigger] s[i]).id == k;
            if i < s.len() - 1 {
                assert(s.drop_last()[i].id == k);
            }
        }
    }
}

pub proof fn lemma_by_id_value(s: Seq<ExtensionView>, i: int)
    requires
        ids_unique(s),
        0 <= i < s.len(),
    ensures
        by_id(s).contains_key(s[i].id),
        by_id(s)[s[i].id] == s[i],
    decreases s.len(),
{
    if i < s.len() - 1 {
        assert(ids_unique(s.drop_last()));
        lemma_by_id_value(s.drop_last(), i);
        assert(s.drop_last()[i] == s[i]);
    }
}

proof fn lemma_by_id_update(s: Seq<ExtensionView>, i: int, e: ExtensionView)
    requires
        ids_unique(s),
        0 <= i < s.len(),
        e.id == s[i].id,
    ensures
        ids_unique(s.update(i, e)),
        by_id(s.update(i, e)) == by_id(s).insert(e.id, e),
    decreases s.len(),
{
    let t = s.update(i, e);
    assert(ids_unique(t)) by {
        assert forall|a: int, b: int| 0 <= a < b < t.len() implies (#[trigger] t[a]).id != (#[trigger] t[b]).id by {
            assert(s[a].id != s[b].id);
        }
    }
    if i == s.len() - 1 {
        assert(t.drop_last() =~= s.drop_last());
        assert(by_id(t) =~= by_id(s).insert(e.id, e));
    } else {
        assert(ids_unique(s.drop_last()));
        lemma_by_id_update(s.drop_last(), i, e);
        assert(t.drop_last() =~= s.drop_last().update(i, e));
        assert(s[i].id != s.last().id);
        assert(by_id(t) =~= by_id(s).insert(e.id, e));
    }
}

/// Two arrangements of the same extensions, each id once, key the same map.
pub proof fn lemma_by_id_permutation(a: Seq<ExtensionView>, b: Seq<ExtensionView>)
    requires
        ids_unique(a),
        ids_unique(b),
        a.to_multiset() == b.to_multiset(),
    ensures
        by_id(a) == by_id(b),
{
    assert forall|k: Seq<char>| #[trigger] by_id(a).contains_key(k) implies by_id(b).contains_key(k)
        && by_id(b)[k] == by_id(a)[k] by {
        lemma_by_id_keys(a, k);
        let i = choose|i: int| 0 <= i < a.len() && (#[trigger] a[i]).id == k;
        assert(a.contains(a[i]));
        assert(a.to_multiset().count(a[i]) > 0);
        assert(b.to_multiset().count(a[i]) > 0);
        assert(b.contains(a[i]));
        let j = choose|j: int| 0 <= j < b.len() && b[j] == a[i];
        lemma_by_id_value(a, i);
        lemma_by_id_value(b, j);
    }
    assert forall|k: Seq<char>| #[trigger] by_id(b).contains_key(k) implies by_id(a).contains_key(k) by {
        lemma_by_id_keys(b, k);
        let j = choose|j: int| 0 <= j < b.len() && (#[trigger] b[j]).id == k;
        assert(b.contains(b[j]));
        assert(b.to_multiset().count(b[j]) > 0);
        assert(a.to_multiset().count(b[j]) > 0);
        assert(a.contains(b[j]));
        let i = choose|i: int| 0 <= i < a.len() && a[i] == b[j];
        lemma_by_id_keys(a, k);
    }
    assert(by_id(a) =~= by_id(b));
}

/// Index of the first entry of `out` whose download count is below `count`.
fn insertion_point(out: &Vec<Extension>, count: i32) -> (p: usize)
    requires
        sorted_by_downloads(extension_views(out@)),
    ensures
        p <= out@.len(),
        forall|k: int| 0 <= k < p ==> out@[k].download_count >= count,
        forall|k: int| p <= k < out@.len() ==> out@[k].download_count < count,
{
    let mut p: usize = 0;
    while p < out.len() && out[p].download_count >= count
        invariant
            p <= out@.len(),
            forall|k: int| 0 <= k < p ==> out@[k].download_count >= count,
        decreases out@.len() - p,
    {
        p = p + 1;
    }
    assert forall|k: int| p <= k < out@.len() implies out@[k].download_count < count by {
        if p < k {
            assert(extension_views(out@)[p as int].download_count >= extension_views(out@)[k].download_count);
        }
    }
    p
}

/// Orders extensions by download count, highest first; entries with equal
/// counts keep their relative order.
pub fn sort_by_downloads(v: Vec<Extension>) -> (r: Vec<Extension>)
    ensures
        sorted_by_downloads(extension_views(r@)),
        extension_views(r@).to_multiset() == extension_views(v@).to_multiset(),
        forall|c: i32| #[trigger] with_count(extension_views(r@), c) == with_count(extension_views(v@), c),
{
    let ghost src = extension_views(v@);
    let total = v.len();
    let mut rest = v;
    let mut out: Vec<Extension> = Vec::new();
    let mut i: usize = 0;
    while rest.len() > 0
        invariant
            total == src.len(),
            i + rest@.len() == total,
            extension_views(rest@) == src.subrange(i as int, total as int),
            sorted_by_downloads(extension_views(out@)),
            extension_views(out@).to_multiset() == src.subrange(0, i as int).to_multiset(),
            forall|c: i32| #[trigger] with_count(extension_views(out@), c) == with_count(src.subrange(0, i as int), c),
        decreases rest@.len(),
    {
        let ghost before_rest = rest@;
        let e = rest.remove(0);
        assert(extension_views(before_rest)[0] == e@);
        assert(extension_views(rest@) =~= extension_views(before_rest).drop_first());
        assert(extension_views(rest@) =~= src.subrange(i + 1, total as int));
        assert(src[i as int] == e@);
        let p = insertion_point(&out, e.download_count);
        let ghost before = extension_views(out@);
        out.insert(p, e);
        assert(extension_views(out@) =~= before.insert(p as int, e@));
        assert(src.subrange(0, i + 1) =~= src.subrange(0, i as int).push(e@));
        assert forall|c: i32| #[trigger] with_count(extension_views(out@), c) == with_count(src.subrange(0, i + 1), c) by {
            assert forall|k: int| p <= k < before.len() implies (#[trigger] before[k]).download_count
                < e@.download_count by {}
            lemma_insert_with_count(before, p as int, e@, c);
            src.subrange(0, i as int).lemma_filter_push(e@, count_is(c));
        }
        assert(sorted_by_downloads(extension_views(out@))) by {
            let nv = extension_views(out@);
            assert forall|a: int, b: int| 0 <= a < b < nv.len() implies
                (#[trigger] nv[a]).download_count >= (#[trigger] nv[b]).download_count by {
                let ea = if a < p { before[a] } else if a == p { e@ } else { before[a - 1] };
                let eb = if b < p { before[b] } else if b == p { e@ } else { before[b - 1] };
                assert(nv[a] == ea);
                assert(nv[b] == eb);
                if a < p && b > p {
                    assert(before[a].download_count >= before[b - 1].download_count);
                } else if a > p {
                    assert(before[a - 1].download_count >= before[b - 1].download_count);
                }
            }
        }
        i = i + 1;
    }
    assert(src.subrange(0, i as int) =~= src);
    out
}

/// A catalog being assembled: each id once.
pub struct Catalog {
    entries: Vec<Extension>,
}

impl View for Catalog {
    type V = Map<Seq<char>, ExtensionView>;

    closed spec fn view(&self) -> Map<Seq<char>, ExtensionView> {
        by_id(extension_views(self.entries@))
    }
}

impl Catalog {
    pub closed spec fn wf(&self) -> bool {
        ids_unique(extension_views(self.entries@))
    }

    /// An empty catalog.
    pub fn new() -> (r: Catalog)
        ensures
            r.wf(),
            r@ == Map::<Seq<char>, ExtensionView>::empty(),
    {
        Catalog { entries: Vec::new() }
    }

    fn position(&self, id: &str) -> (r: Option<usize>)
        requires
            self.wf(),
        ensures
            match r {
                Some(i) => i < self.entries@.len() && self.entries@[i as int].id@ == id@,
                None => forall|j: int| 0 <= j < self.entries@.len() ==> (#[trigger] self.entries@[j]).id@ != id@,
            },
    {
        let mut i: usize = 0;
        while i < self.entries.len()
            invariant
                i <= self.entries@.len(),
                forall|j: int| 0 <= j < i ==> (#[trigger] self.entries@[j]).id@ != id@,
            decreases self.entries@.len() - i,
        {
            if str_eq(self.entries[i].id.as_str(), id) {
                return Some(i);
            }
            i = i + 1;
        }
        None
    }

    /// Adds one extension, replacing the entry with the same id.
    pub fn insert(&mut self, e: Extension)
        requires
            old(self).wf(),
        ensures
            final(self).wf(),
            final(self)@ == old(self)@.insert(e.id@, e@),
    {
        let ghost before = extension_views(self.entries@);
        match self.position(e.id.as_str()) {
            Some(i) => {
                proof {
                    lemma_by_id_update(before, i as int, e@);
                }
                self.entries.set(i, e);
                assert(extension_views(self.entries@) =~= before.update(i as int, e@));
            },
            None => {
                self.entries.push(e);
                assert(extension_views(self.entries@) =~= before.push(e@));
                assert(extension_views(self.entries@).drop_last() =~= before);
                assert(ids_unique(extension_views(self.entries@))) by {
                    assert forall|a: int, b: int| 0 <= a < b < self.entries@.len() implies
                        (#[trigger] extension_views(self.entries@)[a]).id != (#[trigger] extension_views(self.entries@)[b]).id by {
                        assert(old(self).entries@[a].id@ == before[a].id);
                    }
                }
            },
        }
    }

    /// Merges one fetch result: each of its extensions replaces the entry
    /// with the same id, later ones winning.
    pub fn merge_fetch(&mut self, fetch: Vec<Extension>)
        requires
            old(self).wf(),
        ensures
            final(self).wf(),
            final(self)@ == old(self)@.union_prefer_right(by_id(extension_views(fetch@))),
    {
        let ghost src = extension_views(fetch@);
        let ghost start = self@;
        let total = fetch.len();
        let mut rest = fetch;
        let mut i: usize = 0;
        while rest.len() > 0
            invariant
                self.wf(),
                total == src.len(),
                i + rest@.len() == total,
                extension_views(rest@) == src.subrange(i as int, total as int),
                self@ == start.union_prefer_right(by_id(src.subrange(0, i as int))),
            decreases rest@.len(),
        {
            let ghost before_rest = rest@;
            let e = rest.remove(0);
            assert(extension_views(before_rest)[0] == e@);
            assert(extension_views(rest@) =~= extension_views(before_rest).drop_first());
            assert(extension_views(rest@) =~= src.subrange(i + 1, total as int));
            assert(src[i as int] == e@);
            assert(src.subrange(0, i + 1).drop_last() =~= src.subrange(0, i as int));
            self.insert(e);
            assert(self@ =~= start.union_prefer_right(by_id(src.subrange(0, i + 1))));
            i = i + 1;
        }
        assert(src.subrange(0, i as int) =~= src);
    }

    /// The entries ordered by download count, highest first.
    pub fn into_sorted(self) -> (r: Vec<Extension>)
        requires
            self.wf(),
        ensures
            sorted_by_downloads(extension_views(r@)),
            ids_unique(extension_views(r@)),
            by_id(extension_views(r@)) == self@,
    {
        let ghost items = extension_views(self.entries@);
        let r = sort_by_downloads(self.entries);
        proof {
            let rv = extension_views(r@);
            assert(ids_unique(rv)) by {
                assert forall|a: int, b: int| 0 <= a < b < rv.len() implies (#[trigger] rv[a]).id != (#[trigger] rv[b]).id by {
                    assert(rv.contains(rv[a]));
                    assert(rv.contains(rv[b]));
                    assert(rv.to_multiset().count(rv[a]) > 0);
                    assert(rv.to_multiset().count(rv[b]) > 0);
                    assert(items.to_multiset().count(rv[a]) > 0);
                    assert(items.to_multiset().count(rv[b]) > 0);
                    assert(items.contains(rv[a]));
                    assert(items.contains(rv[b]));
                    let x = choose|x: int| 0 <= x < items.len() && items[x] == rv[a];
                    let y = choose|y: int| 0 <= y < items.len() && items[y] == rv[b];
                    if rv[a].id == rv[b].id {
                        assert(x == y);
                        lemma_two_indices_count(rv, a, b);
                        items.lemma_multiset_has_no_duplicates();
                    }
                }
            }
            lemma_by_id_permutation(rv, items);
        }
        r
    }
}

/// The views of a list of fetch results.
pub open spec fn fetch_views(fetches: Seq<Vec<Extension>>) -> Seq<Seq<ExtensionView>> {
    fetches.map_values(|f: Vec<Extension>| extension_views(f@))
}

/// Merges the fetch results in order, later ones winning for an id, and
/// orders the result by download count, highest first.
pub fn build_catalog(fetches: Vec<Vec<Extension>>) -> (r: Vec<Extension>)
    ensures
        sorted_by_downloads(extension_views(r@)),
        ids_unique(extension_views(r@)),
        by_id(extension_views(r@)) == merge_all(Map::empty(), fetch_views(fetches@)),
{
    let ghost all = fetch_views(fetches@);
    let total = fetches.len();
    let mut rest = fetches;
    let mut catalog = Catalog::new();
    let mut i: usize = 0;
    while rest.len() > 0
        invariant
            catalog.wf(),
            total == all.len(),
            i + rest@.len() == total,
            fetch_views(rest@) == all.subrange(i as int, total as int),
            catalog@ == merge_all(Map::empty(), all.subrange(0, i as int)),
        decreases rest@.len(),
    {
        let ghost before_rest = rest@;
        let f = rest.remove(0);
        assert(fetch_views(before_rest)[0] == extension_views(f@));
        assert(fetch_views(rest@) =~= fetch_views(before_rest).drop_first());
        assert(fetch_views(rest@) =~= all.subrange(i + 1, total as int));
        assert(all[i as int] == extension_views(f@));
        assert(all.subrange(0, i + 1).drop_last() =~= all.subrange(0, i as int));
        catalog.merge_fetch(f);
        i = i + 1;
    }
    assert(all.subrange(0, i as int) =~= all);
    catalog.into_sorted()
}

/// Merging the same fetch result a second time changes nothing.
pub proof fn lemma_merge_idempotent(
    catalog: Map<Seq<char>, ExtensionView>,
    fetch: Seq<ExtensionView>,
)
    ensures
        catalog.union_prefer_right(by_id(fetch)).union_prefer_right(by_id(fetch))
            == catalog.union_prefer_right(by_id(fetch)),
{
    assert(catalog.union_prefer_right(by_id(fetch)).union_prefer_right(by_id(fetch))
        =~= catalog.union_prefer_right(by_id(fetch)));
}

/// Whether a tag occurs among the `provides` of some extension of `s`.
pub open spec fn tag_seen(s: Seq<ExtensionView>, tag: Seq<char>) -> bool {
    exists|i: int| 0 <= i < s.len() && (#[trigger] s[i]).provides.contains(tag)
}

fn holds_string(v: &Vec<String>, t: &str) -> (r: bool)
    ensures
        r == strings_view(v@).contains(t@),
{
    let mut i: usize = 0;
    while i < v.len()
        invariant
            i <= v@.len(),
            forall|j: int| 0 <= j < i ==> v@[j]@ != t@,
        decreases v@.len() - i,
    {
        if str_eq(v[i].as_str(), t) {
            assert(strings_view(v@)[i as int] == t@);
            return true;
        }
        i = i + 1;
    }
    assert(!strings_view(v@).contains(t@)) by {
        if strings_view(v@).contains(t@) {
            let j = choose|j: int| 0 <= j < strings_view(v@).len() && strings_view(v@)[j] == t@;
            assert(v@[j]@ == t@);
        }
    }
    false
}

/// Every capability tag that the extensions provide, each once.
pub fn discover_capabilities(extensions: &Vec<Extension>) -> (r: Vec<String>)
    ensures
        strings_view(r@).no_duplicates(),
        forall|t: Seq<char>| strings_view(r@).contains(t) <==> tag_seen(extension_views(extensions@), t),
{
    let ghost all = extension_views(extensions@);
    let mut r: Vec<String> = Vec::new();
    let mut i: usize = 0;
    while i < extensions.len()
        invariant
            i <= extensions@.len(),
            all == extension_views(extensions@),
            strings_view(r@).no_duplicates(),
            forall|t: Seq<char>| strings_view(r@).contains(t) <==> tag_seen(all.subrange(0, i as int), t),
        decreases extensions@.len() - i,
    {
        let tags = &extensions[i].provides;
        let mut k: usize = 0;
        while k < tags.len()
            invariant
                i < extensions@.len(),
                k <= tags@.len(),
                tags == &extensions@[i as int].provides,
                all == extension_views(extensions@),
                strings_view(r@).no_duplicates(),
                forall|t: Seq<char>| strings_view(r@).contains(t) <==> (tag_seen(all.subrange(0, i as int), t)
                    || strings_view(tags@.subrange(0, k as int)).contains(t)),
            decreases tags@.len() - k,
        {
            let ghost before = strings_view(r@);
            let ghost t0 = tags@[k as int]@;
            assert(strings_view(tags@.subrange(0, k + 1)) =~= strings_view(tags@.subrange(0, k as int)).push(t0));
            proof {
                lemma_push_contains(strings_view(tags@.subrange(0, k as int)), t0);
                lemma_push_contains(before, t0);
            }
            if !holds_string(&r, tags[k].as_str()) {
                r.push(tags[k].clone());
                assert(strings_view(r@) =~= before.push(t0));
                assert(strings_view(r@).no_duplicates());
            }
            k = k + 1;
        }
        proof {
            assert(tags@.subrange(0, k as int) =~= tags@);
            assert forall|t: Seq<char>| #[trigger] tag_seen(all.subrange(0, i + 1), t) == (tag_seen(all.subrange(0, i as int), t)
                || strings_view(tags@).contains(t)) by {
                let p = all.subrange(0, i as int);
                let q = all.subrange(0, i + 1);
                assert(q[i as int] == all[i as int]);
                assert(all[i as int].provides == strings_view(tags@));
                if tag_seen(p, t) {
                    let j = choose|j: int| 0 <= j < p.len() && (#[trigger] p[j]).provides.contains(t);
                    assert(q[j] == p[j]);
                }
                if tag_seen(q, t) {
                    let j = choose|j: int| 0 <= j < q.len() && (#[trigger] q[j]).provides.contains(t);
                    if j < i {
                        assert(p[j] == q[j]);
                    }
                }
            }
        }
        i = i + 1;
    }
    assert(all.subrange(0, i as int) =~= all);
    r
}

/// The capability filters that a catalog refresh fetches with: those
/// requested, or, where none is, every tag that the unfiltered fetch shows.
pub fn capability_queries(requested: &Vec<String>, unfiltered: &Vec<Extension>) -> (r: Vec<String>)
    ensures
        requested@.len() > 0 ==> strings_view(r@) == strings_view(requested@),
        requested@.len() == 0 ==> strings_view(r@).no_duplicates() && forall|t: Seq<char>|
            strings_view(r@).contains(t) <==> tag_seen(extension_views(unfiltered@), t),
{
    if requested.len() > 0 {
        copy_strings(requested)
    } else {
        discover_capabilities(unfiltered)
    }
}

proof fn lemma_push_contains(s: Seq<Seq<char>>, x: Seq<char>)
    ensures
        forall|t: Seq<char>| #[trigger] s.push(x).contains(t) == (s.contains(t) || t == x),
{
    assert forall|t: Seq<char>| #[trigger] s.push(x).contains(t) == (s.contains(t) || t == x) by {
        if s.contains(t) {
            let j = choose|j: int| 0 <= j < s.len() && s[j] == t;
            assert(s.push(x)[j] == t);
        }
        if t == x {
            assert(s.push(x)[s.len() as int] == t);
        }
        if s.push(x).contains(t) {
            let j = choose|j: int| 0 <= j < s.push(x).len() && s.push(x)[j] == t;
            if j < s.len() {
                assert(s[j] == t);
            }
        }
    }
}

proof fn lemma_two_indices_count(s: Seq<ExtensionView>, a: int, b: int)
    requires
        0 <= a < b < s.len(),
        s[a] == s[b],
    ensures
        s.to_multiset().count(s[a]) >= 2,
{
    let x = s[a];
    let t = s.remove(b);
    assert(t[a] == x);
    assert(t.contains(x));
    assert(s.remove(b).to_multiset() == s.to_multiset().remove(s[b]));
    assert(t.to_multiset().count(x) > 0);
}

} // verus!
