//! Filtering a list of extensions by text, schema version and capability.

use vstd::prelude::*;
use crate::extension::{Extension, ExtensionView, extension_views, strings_view};
use crate::text::{chars_of, contains_chars, has_infix, lower_of, lowercase};

verus! {

pub open spec fn opt_str_view(o: Option<&str>) -> Option<Seq<char>> {
    match o {
        Some(s) => Some(s@),
        None => None,
    }
}

/// The search text is empty, or occurs, ignoring case, in the extension's
/// name, id or description.
pub open spec fn text_matches(e: ExtensionView, text: Seq<char>) -> bool {
    text.len() == 0 || has_infix(lower_of(e.name), lower_of(text)) || has_infix(
        lower_of(e.id),
        lower_of(text),
    ) || has_infix(lower_of(e.description), lower_of(text))
}

/// An extension passes every filter that is given.
pub open spec fn passes_filters(
    e: ExtensionView,
    filter: Option<Seq<char>>,
    max_schema_version: Option<i32>,
    provides: Option<Seq<char>>,
) -> bool {
    &&& match max_schema_version {
        Some(m) => e.schema_version <= m,
        None => true,
    }
    &&& match filter {
        Some(t) => text_matches(e, t),
        None => true,
    }
    &&& match provides {
        Some(c) => c.len() == 0 || e.provides.contains(c),
        None => true,
    }
}

/// The extensions of `s` that pass the filters, in their order.
pub open spec fn filtered(
    s: Seq<ExtensionView>,
    filter: Option<Seq<char>>,
    max_schema_version: Option<i32>,
    provides: Option<Seq<char>>,
) -> Seq<ExtensionView> {
    s.filter(|e: ExtensionView| passes_filters(e, filter, max_schema_version, provides))
}

/// Whether the lower-cased `field` holds `needle`.
fn lower_contains(field: &String, needle: &Vec<char>) -> (r: bool)
    ensures
        r == has_infix(lower_of(field@), needle@),
{
    let lower = lowercase(field.as_str());
    let hay = chars_of(lower.as_str());
    contains_chars(&hay, needle)
}

fn text_passes(e: &Extension, text: &str, needle: &Vec<char>) -> (r: bool)
    requires
        needle@ == lower_of(text@),
    ensures
        r == text_matches(e@, text@),
{
    if text.unicode_len() == 0 {
        return true;
    }
    lower_contains(&e.name, needle) || lower_contains(&e.id, needle) || lower_contains(
        &e.description,
        needle,
    )
}

/// The extensions that pass every filter given: at most `max_schema_version`,
/// holding `filter` in name, id or description ignoring case (an empty text
/// passes all), and providing `provides` (an empty tag passes all).
pub fn filter_extensions(
    extensions: &Vec<Extension>,
    filter: Option<&str>,
    max_schema_version: Option<i32>,
    provides: Option<&str>,
) -> (r: Vec<Extension>)
    ensures
        extension_views(r@) == filtered(
            extension_views(extensions@),
            opt_str_view(filter),
            max_schema_version,
            opt_str_view(provides),
        ),
{
    let ghost fv = opt_str_view(filter);
    let ghost pv = opt_str_view(provides);
    let ghost pred = |e: ExtensionView| passes_filters(e, fv, max_schema_version, pv);
    let needle: Vec<char> = match filter {
        Some(t) => chars_of(lowercase(t).as_str()),
        None => Vec::new(),
    };
    let mut r: Vec<Extension> = Vec::new();
    let mut i: usize = 0;
    while i < extensions.len()
        invariant
            i <= extensions@.len(),
            fv == opt_str_view(filter),
            pv == opt_str_view(provides),
            pred == (|e: ExtensionView| passes_filters(e, fv, max_schema_version, pv)),
            match filter {
                Some(t) => needle@ == lower_of(t@),
                None => true,
            },
            extension_views(r@) == extension_views(extensions@.subrange(0, i as int)).filter(pred),
        decreases extensions@.len() - i,
    {
        let e = &extensions[i];
        let schema_ok = match max_schema_version {
            Some(m) => e.schema_version <= m,
            None => true,
        };
        let text_ok = match filter {
            Some(t) => text_passes(e, t, &needle),
            None => true,
        };
        let provides_ok = match provides {
            Some(c) => c.unicode_len() == 0 || e.provides_capability(c),
            None => true,
        };
        let keep = schema_ok && text_ok && provides_ok;
        assert(keep == pred(e@));
        let ghost prefix = extension_views(extensions@.subrange(0, i as int));
        assert(extension_views(extensions@.subrange(0, i + 1)) =~= prefix.push(e@));
        proof {
            prefix.lemma_filter_push(e@, pred);
        }
        if keep {
            let c = e.duplicate();
            r.push(c);
            assert(extension_views(r@) =~= prefix.filter(pred).push(e@));
        }
        i = i + 1;
    }
    assert(extensions@.subrange(0, i as int) =~= extensions@);
    r
}

} // verus!
