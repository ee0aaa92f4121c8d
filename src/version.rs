//! Release manifests and their version order.

use vstd::prelude::*;
use core::cmp::Ordering;
use crate::text::{chars_of, parse_u32, parse_u32_spec, split_chars, split_spec, compare_chars, lex_cmp};

verus! {

/// A release manifest: a version string, where to download it, and an
/// optional secondary API address.
pub struct Version {
    pub version: String,
    pub url: String,
    pub api_url: Option<String>,
}

/// The `(major, minor, patch)` numbers of a version string: its first three
/// dot-separated pieces, each a decimal `u32`; pieces after the third are not
/// read.
pub open spec fn semver_triple(s: Seq<char>) -> Option<(u32, u32, u32)> {
    let parts = split_spec(s, '.');
    if parts.len() < 3 {
        None
    } else {
        match (parse_u32_spec(parts[0]), parse_u32_spec(parts[1]), parse_u32_spec(parts[2])) {
            (Some(a), Some(b), Some(c)) => Some((a, b, c)),
            _ => None,
        }
    }
}

pub open spec fn cmp_u32(a: u32, b: u32) -> Ordering {
    if a < b {
        Ordering::Less
    } else if a > b {
        Ordering::Greater
    } else {
        Ordering::Equal
    }
}

/// Numeric order of `(major, minor, patch)` triples, most significant first.
pub open spec fn triple_cmp(a: (u32, u32, u32), b: (u32, u32, u32)) -> Ordering {
    if a.0 != b.0 {
        cmp_u32(a.0, b.0)
    } else if a.1 != b.1 {
        cmp_u32(a.1, b.1)
    } else {
        cmp_u32(a.2, b.2)
    }
}

/// The order of release versions: numeric on `(major, minor, patch)` when
/// both sides parse, lexicographic on the strings otherwise.
pub open spec fn version_cmp(a: Seq<char>, b: Seq<char>) -> Ordering {
    match (semver_triple(a), semver_triple(b)) {
        (Some(x), Some(y)) => triple_cmp(x, y),
        _ => lex_cmp(a, b),
    }
}

fn cmp_u32_exec(a: u32, b: u32) -> (r: Ordering)
    ensures
        r == cmp_u32(a, b),
{
    if a < b {
        Ordering::Less
    } else if a > b {
        Ordering::Greater
    } else {
        Ordering::Equal
    }
}

impl Version {
    /// The `(major, minor, patch)` numbers of this version, if it has them.
    pub fn parse_semver(&self) -> (r: Option<(u32, u32, u32)>)
        ensures
            r == semver_triple(self.version@),
    {
        let cs = chars_of(self.version.as_str());
        let parts = split_chars(&cs, '.');
        assert(parts@.len() == split_spec(cs@, '.').len());
        if parts.len() < 3 {
            return None;
        }
        assert(parts@[0]@ == split_spec(cs@, '.')[0]);
        assert(parts@[1]@ == split_spec(cs@, '.')[1]);
        assert(parts@[2]@ == split_spec(cs@, '.')[2]);
        let major = parse_u32(&parts[0]);
        let minor = parse_u32(&parts[1]);
        let patch = parse_u32(&parts[2]);
        match (major, minor, patch) {
            (Some(a), Some(b), Some(c)) => Some((a, b, c)),
            _ => None,
        }
    }

    /// Compares two versions: numerically where both parse as
    /// `major.minor.patch`, else as strings.
    pub fn compare(&self, other: &Version) -> (r: Ordering)
        ensures
            r == version_cmp(self.version@, other.version@),
    {
        match (self.parse_semver(), other.parse_semver()) {
            (Some(x), Some(y)) => {
                if x.0 != y.0 {
                    cmp_u32_exec(x.0, y.0)
                } else if x.1 != y.1 {
                    cmp_u32_exec(x.1, y.1)
                } else {
                    cmp_u32_exec(x.2, y.2)
                }
            },
            _ => {
                let a = chars_of(self.version.as_str());
                let b = chars_of(other.version.as_str());
                compare_chars(&a, &b)
            },
        }
    }
}

impl PartialEq for Version {
    fn eq(&self, other: &Version) -> (r: bool) {
        self.version == other.version
    }
}

impl vstd::std_specs::cmp::PartialEqSpecImpl for Version {
    open spec fn obeys_eq_spec() -> bool {
        true
    }

    open spec fn eq_spec(&self, other: &Version) -> bool {
        self.version@ == other.version@
    }
}

impl Eq for Version {
}

impl PartialOrd for Version {
    fn partial_cmp(&self, other: &Version) -> (r: Option<Ordering>) {
        Some(self.compare(other))
    }
}

impl vstd::std_specs::cmp::PartialOrdSpecImpl for Version {
    open spec fn obeys_partial_cmp_spec() -> bool {
        true
    }

    open spec fn partial_cmp_spec(&self, other: &Version) -> Option<Ordering> {
        Some(version_cmp(self.version@, other.version@))
    }
}

} // verus!
