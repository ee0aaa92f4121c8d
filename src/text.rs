//! Character-level helpers on strings: decimal parsing, searching, splitting,
//! ordering and replacing, each stated over `Seq<char>`.

use vstd::prelude::*;

verus! {

pub open spec fn is_digit(c: char) -> bool {
    '0' <= c && c <= '9'
}

pub open spec fn all_digits(s: Seq<char>) -> bool {
    forall|i: int| 0 <= i < s.len() ==> is_digit(#[trigger] s[i])
}

pub open spec fn digit_value(c: char) -> nat {
    (c as u32 - '0' as u32) as nat
}

/// The number that a string of decimal digits denotes.
pub open spec fn digits_value(s: Seq<char>) -> nat
    decreases s.len(),
{
    if s.len() == 0 {
        0
    } else {
        digits_value(s.drop_last()) * 10 + digit_value(s.last())
    }
}

/// The digits after an optional leading `+`.
pub open spec fn unsigned_body(s: Seq<char>) -> Seq<char> {
    if s.len() > 0 && s[0] == '+' {
        s.drop_first()
    } else {
        s
    }
}

/// What `str::parse::<u32>` yields: an optional `+`, one or more digits, and a
/// value that fits in 32 bits.
pub open spec fn parse_u32_spec(s: Seq<char>) -> Option<u32> {
    let d = unsigned_body(s);
    if d.len() > 0 && all_digits(d) && digits_value(d) <= u32::MAX {
        Some(digits_value(d) as u32)
    } else {
        None
    }
}

proof fn lemma_digits_value_grows(s: Seq<char>, i: int, j: int)
    requires
        0 <= i <= j <= s.len(),
    ensures
        digits_value(s.subrange(0, i)) <= digits_value(s.subrange(0, j)),
    decreases j - i,
{
    if i < j {
        lemma_digits_value_grows(s, i, j - 1);
        assert(s.subrange(0, j).drop_last() =~= s.subrange(0, j - 1));
    }
}

/// The characters of `s`, in order.
pub fn chars_of(s: &str) -> (r: Vec<char>)
    ensures
        r@ == s@,
{
    let n = s.unicode_len();
    let mut r: Vec<char> = Vec::new();
    let mut i: usize = 0;
    while i < n
        invariant
            n == s@.len(),
            i <= n,
            r@ == s@.subrange(0, i as int),
        decreases n - i,
    {
        r.push(s.get_char(i));
        i = i + 1;
    }
    assert(r@ =~= s@);
    r
}

/// Whether two strings hold the same characters.
pub fn str_eq(a: &str, b: &str) -> (r: bool)
    ensures
        r == (a@ == b@),
{
    let n = a.unicode_len();
    if n != b.unicode_len() {
        return false;
    }
    let mut i: usize = 0;
    while i < n
        invariant
            n == a@.len(),
            n == b@.len(),
            i <= n,
            forall|j: int| 0 <= j < i ==> a@[j] == b@[j],
        decreases n - i,
    {
        if a.get_char(i) != b.get_char(i) {
            return false;
        }
        i = i + 1;
    }
    assert(a@ =~= b@);
    true
}

/// Parses `d[start..]` as decimal digits whose value is at most `limit`.
fn parse_digits(d: &Vec<char>, start: usize, limit: u64) -> (r: Option<u64>)
    requires
        start <= d@.len(),
        limit <= u32::MAX as u64 + 1,
    ensures
        ({
            let t = d@.subrange(start as int, d@.len() as int);
            r == (if t.len() > 0 && all_digits(t) && digits_value(t) <= limit {
                Some(digits_value(t) as u64)
            } else {
                None
            })
        }),
{
    let ghost t = d@.subrange(start as int, d@.len() as int);
    if start == d.len() {
        return None;
    }
    let mut value: u64 = 0;
    let mut i: usize = start;
    while i < d.len()
        invariant
            start <= i <= d@.len(),
            limit <= u32::MAX as u64 + 1,
            t == d@.subrange(start as int, d@.len() as int),
            all_digits(t.subrange(0, i - start)),
            value == digits_value(t.subrange(0, i - start)),
            value <= limit,
        decreases d@.len() - i,
    {
        let c = d[i];
        if !('0' <= c && c <= '9') {
            assert(!is_digit(t[i - start]));
            return None;
        }
        assert(t.subrange(0, i + 1 - start).drop_last() =~= t.subrange(0, i - start));
        let next: u64 = value * 10 + (c as u64 - '0' as u64);
        if next > limit {
            proof {
                lemma_digits_value_grows(t, i + 1 - start, t.len() as int);
                assert(t.subrange(0, t.len() as int) =~= t);
            }
            return None;
        }
        value = next;
        i = i + 1;
    }
    assert(t.subrange(0, i - start) =~= t);
    Some(value)
}

/// Parses a decimal `u32` as `str::parse::<u32>` does.
pub fn parse_u32(s: &Vec<char>) -> (r: Option<u32>)
    ensures
        r == parse_u32_spec(s@),
{
    if s.len() > 0 && s[0] == '+' {
        let r = parse_digits(s, 1, u32::MAX as u64);
        assert(s@.subrange(1, s@.len() as int) =~= s@.drop_first());
        match r {
            Some(v) => Some(v as u32),
            None => None,
        }
    } else {
        let r = parse_digits(s, 0, u32::MAX as u64);
        assert(s@.subrange(0, s@.len() as int) =~= s@);
        match r {
            Some(v) => Some(v as u32),
            None => None,
        }
    }
}


/// What `str::parse::<i32>` yields: an optional sign, one or more digits, and
/// a value in the range of `i32`.
pub open spec fn parse_i32_spec(s: Seq<char>) -> Option<i32> {
    if s.len() > 0 && s[0] == '-' {
        let d = s.drop_first();
        if d.len() > 0 && all_digits(d) && digits_value(d) <= 0x8000_0000 {
            Some((0 - digits_value(d)) as i32)
        } else {
            None
        }
    } else {
        let d = unsigned_body(s);
        if d.len() > 0 && all_digits(d) && digits_value(d) <= i32::MAX {
            Some(digits_value(d) as i32)
        } else {
            None
        }
    }
}

/// Parses a decimal `i32` as `str::parse::<i32>` does.
pub fn parse_i32(s: &Vec<char>) -> (r: Option<i32>)
    ensures
        r == parse_i32_spec(s@),
{
    if s.len() > 0 && s[0] == '-' {
        let r = parse_digits(s, 1, 0x8000_0000);
        assert(s@.subrange(1, s@.len() as int) =~= s@.drop_first());
        match r {
            Some(v) => Some((0 - v as i64) as i32),
            None => None,
        }
    } else if s.len() > 0 && s[0] == '+' {
        let r = parse_digits(s, 1, i32::MAX as u64);
        assert(s@.subrange(1, s@.len() as int) =~= s@.drop_first());
        match r {
            Some(v) => Some(v as i32),
            None => None,
        }
    } else {
        let r = parse_digits(s, 0, i32::MAX as u64);
        assert(s@.subrange(0, s@.len() as int) =~= s@);
        match r {
            Some(v) => Some(v as i32),
            None => None,
        }
    }
}

/// The pieces of `s` between occurrences of `sep`, as `str::split` gives them:
/// always at least one piece, empty ones included.
pub open spec fn split_spec(s: Seq<char>, sep: char) -> Seq<Seq<char>>
    decreases s.len(),
{
    if s.len() == 0 {
        seq![Seq::<char>::empty()]
    } else {
        let rest = split_spec(s.drop_first(), sep);
        if s[0] == sep {
            seq![Seq::<char>::empty()] + rest
        } else {
            rest.update(0, seq![s[0]] + rest[0])
        }
    }
}

pub proof fn lemma_split_nonempty(s: Seq<char>, sep: char)
    ensures
        split_spec(s, sep).len() >= 1,
    decreases s.len(),
{
    if s.len() > 0 {
        lemma_split_nonempty(s.drop_first(), sep);
    }
}

pub open spec fn views_of(v: Seq<Vec<char>>) -> Seq<Seq<char>> {
    v.map_values(|p: Vec<char>| p@)
}

/// Splits `s` at every `sep`.
pub fn split_chars(s: &Vec<char>, sep: char) -> (r: Vec<Vec<char>>)
    ensures
        views_of(r@) == split_spec(s@, sep),
{
    let n = s.len();
    let mut parts: Vec<Vec<char>> = Vec::new();
    parts.push(Vec::new());
    assert(s@.subrange(n as int, n as int) =~= Seq::<char>::empty());
    assert(views_of(parts@) =~= seq![Seq::<char>::empty()]);
    let mut i: usize = n;
    while i > 0
        invariant
            n == s@.len(),
            i <= n,
            views_of(parts@) == split_spec(s@.subrange(i as int, n as int), sep),
        decreases i,
    {
        let c = s[i - 1];
        let ghost tail = s@.subrange(i as int, n as int);
        let ghost longer = s@.subrange(i - 1, n as int);
        assert(longer.drop_first() =~= tail);
        proof {
            lemma_split_nonempty(tail, sep);
        }
        if c == sep {
            parts.insert(0, Vec::new());
            assert(views_of(parts@) =~= seq![Seq::<char>::empty()] + split_spec(tail, sep));
        } else {
            let ghost old_parts = parts@;
            let mut first = parts.remove(0);
            let ghost old_first = first@;
            first.insert(0, c);
            assert(first@ =~= seq![c] + old_first);
            parts.insert(0, first);
            assert(parts@ =~= old_parts.update(0, first));
            assert(views_of(parts@) =~= split_spec(tail, sep).update(
                0,
                seq![c] + split_spec(tail, sep)[0],
            ));
        }
        i = i - 1;
    }
    assert(s@.subrange(0, n as int) =~= s@);
    parts
}

/// The views of a list of strings.
pub open spec fn string_views(v: Seq<String>) -> Seq<Seq<char>> {
    v.map_values(|p: String| p@)
}

/// Splits `s` at every `sep`, as `str::split` does.
pub fn split_str(s: &str, sep: char) -> (r: Vec<String>)
    ensures
        string_views(r@) == split_spec(s@, sep),
{
    let n = s.unicode_len();
    let mut parts: Vec<String> = Vec::new();
    let mut end: usize = n;
    let mut i: usize = n;
    assert(s@.subrange(n as int, n as int) =~= Seq::<char>::empty());
    while i > 0
        invariant
            n == s@.len(),
            i <= end <= n,
            split_spec(s@.subrange(i as int, n as int), sep) == seq![s@.subrange(i as int, end as int)]
                + string_views(parts@),
        decreases i,
    {
        let c = s.get_char(i - 1);
        let ghost tail = s@.subrange(i as int, n as int);
        let ghost longer = s@.subrange(i - 1, n as int);
        assert(longer.drop_first() =~= tail);
        assert(longer[0] == c);
        if c == sep {
            let piece = String::from_str(s.substring_char(i, end));
            let ghost before = parts@;
            parts.insert(0, piece);
            assert(string_views(parts@) =~= seq![s@.subrange(i as int, end as int)] + string_views(before));
            assert(s@.subrange(i - 1, i - 1) =~= Seq::<char>::empty());
            assert(split_spec(longer, sep) =~= seq![s@.subrange(i - 1, i - 1)] + string_views(parts@));
            end = i - 1;
        } else {
            assert(seq![c] + s@.subrange(i as int, end as int) =~= s@.subrange(i - 1, end as int));
            assert(split_spec(longer, sep) =~= seq![s@.subrange(i - 1, end as int)] + string_views(parts@));
        }
        i = i - 1;
    }
    let first = String::from_str(s.substring_char(0, end));
    let ghost before = parts@;
    parts.insert(0, first);
    assert(string_views(parts@) =~= seq![s@.subrange(0, end as int)] + string_views(before));
    assert(s@.subrange(0, n as int) =~= s@);
    parts
}

/// `h[i..]` begins with `n`.
pub open spec fn occurs_at(h: Seq<char>, n: Seq<char>, i: int) -> bool {
    0 <= i && i + n.len() <= h.len() && h.subrange(i, i + n.len()) == n
}

/// `n` occurs somewhere in `h`.
pub open spec fn has_infix(h: Seq<char>, n: Seq<char>) -> bool {
    exists|i: int| occurs_at(h, n, i)
}

/// Whether `h[i..]` begins with `n`.
pub fn matches_at(h: &Vec<char>, n: &Vec<char>, i: usize) -> (r: bool)
    ensures
        r == occurs_at(h@, n@, i as int),
{
    if i > h.len() || n.len() > h.len() - i {
        return false;
    }
    let mut k: usize = 0;
    while k < n.len()
        invariant
            i + n@.len() <= h@.len(),
            h@.len() <= usize::MAX,
            k <= n@.len(),
            h@.subrange(i as int, i + k) == n@.subrange(0, k as int),
        decreases n@.len() - k,
    {
        if h[i + k] != n[k] {
            assert(h@.subrange(i as int, i + n@.len())[k as int] != n@[k as int]);
            return false;
        }
        assert(h@.subrange(i as int, i + k + 1) =~= h@.subrange(i as int, i + k).push(h@[i + k]));
        assert(n@.subrange(0, k + 1) =~= n@.subrange(0, k as int).push(n@[k as int]));
        k = k + 1;
    }
    assert(n@.subrange(0, k as int) =~= n@);
    true
}

/// Whether `n` occurs in `h`.
pub fn contains_chars(h: &Vec<char>, n: &Vec<char>) -> (r: bool)
    ensures
        r == has_infix(h@, n@),
{
    if n.len() > h.len() {
        return false;
    }
    let last = h.len() - n.len();
    let mut i: usize = 0;
    while i <= last
        invariant
            last == h@.len() - n@.len(),
            n@.len() <= h@.len(),
            i <= last + 1,
            forall|j: int| 0 <= j < i ==> !occurs_at(h@, n@, j),
        decreases last + 1 - i,
    {
        if matches_at(h, n, i) {
            return true;
        }
        if i == last {
            return false;
        }
        i = i + 1;
    }
    false
}

/// Lexicographic order of character sequences, as `str::cmp` orders strings.
pub open spec fn lex_cmp(a: Seq<char>, b: Seq<char>) -> core::cmp::Ordering
    decreases a.len(),
{
    if a.len() == 0 {
        if b.len() == 0 {
            core::cmp::Ordering::Equal
        } else {
            core::cmp::Ordering::Less
        }
    } else if b.len() == 0 {
        core::cmp::Ordering::Greater
    } else if (a[0] as u32) < (b[0] as u32) {
        core::cmp::Ordering::Less
    } else if (a[0] as u32) > (b[0] as u32) {
        core::cmp::Ordering::Greater
    } else {
        lex_cmp(a.drop_first(), b.drop_first())
    }
}

/// Compares two character sequences lexicographically.
pub fn compare_chars(a: &Vec<char>, b: &Vec<char>) -> (r: core::cmp::Ordering)
    ensures
        r == lex_cmp(a@, b@),
{
    let mut i: usize = 0;
    assert(a@.subrange(0, a@.len() as int) =~= a@);
    assert(b@.subrange(0, b@.len() as int) =~= b@);
    while i < a.len() && i < b.len()
        invariant
            i <= a@.len(),
            i <= b@.len(),
            lex_cmp(a@, b@) == lex_cmp(
                a@.subrange(i as int, a@.len() as int),
                b@.subrange(i as int, b@.len() as int),
            ),
        decreases a@.len() - i,
    {
        let x = a[i];
        let y = b[i];
        let ghost sa = a@.subrange(i as int, a@.len() as int);
        let ghost sb = b@.subrange(i as int, b@.len() as int);
        assert(sa[0] == x && sb[0] == y);
        if (x as u32) < (y as u32) {
            return core::cmp::Ordering::Less;
        }
        if (x as u32) > (y as u32) {
            return core::cmp::Ordering::Greater;
        }
        assert(sa.drop_first() =~= a@.subrange(i + 1, a@.len() as int));
        assert(sb.drop_first() =~= b@.subrange(i + 1, b@.len() as int));
        i = i + 1;
    }
    if i < a.len() {
        core::cmp::Ordering::Greater
    } else if i < b.len() {
        core::cmp::Ordering::Less
    } else {
        core::cmp::Ordering::Equal
    }
}

/// `s` with every non-overlapping occurrence of `p`, taken from the left,
/// replaced by `r`, as `str::replace` does for a non-empty pattern.
pub open spec fn replace_spec(s: Seq<char>, p: Seq<char>, r: Seq<char>) -> Seq<char>
    decreases s.len(),
{
    if s.len() == 0 {
        s
    } else if p.len() > 0 && occurs_at(s, p, 0) {
        r + replace_spec(s.subrange(p.len() as int, s.len() as int), p, r)
    } else {
        seq![s[0]] + replace_spec(s.drop_first(), p, r)
    }
}

/// Replaces every occurrence of the non-empty pattern `p` in `s` by `r`.
pub fn replace_all(s: &str, p: &str, r: &str) -> (out: String)
    requires
        p@.len() > 0,
    ensures
        out@ == replace_spec(s@, p@, r@),
{
    let sc = chars_of(s);
    let pc = chars_of(p);
    let n = sc.len();
    let mut out = String::new();
    let mut i: usize = 0;
    assert(s@.subrange(0, n as int) =~= s@);
    while i < n
        invariant
            n == s@.len(),
            sc@ == s@,
            pc@ == p@,
            p@.len() > 0,
            i <= n,
            out@ + replace_spec(s@.subrange(i as int, n as int), p@, r@) == replace_spec(s@, p@, r@),
        decreases n - i,
    {
        let ghost rest = s@.subrange(i as int, n as int);
        if matches_at(&sc, &pc, i) {
            assert(rest.subrange(0, p@.len() as int) =~= s@.subrange(i as int, i + p@.len()));
            assert(occurs_at(rest, p@, 0));
            assert(rest.subrange(p@.len() as int, rest.len() as int) =~= s@.subrange(i + p@.len(), n as int));
            let ghost before = out@;
            out.append(r);
            assert(out@ + replace_spec(s@.subrange(i + p@.len(), n as int), p@, r@) =~= before + (r@
                + replace_spec(s@.subrange(i + p@.len(), n as int), p@, r@)));
            i = i + pc.len();
        } else {
            assert(!occurs_at(rest, p@, 0)) by {
                if occurs_at(rest, p@, 0) {
                    assert(rest.subrange(0, p@.len() as int) =~= s@.subrange(i as int, i + p@.len()));
                }
            }
            assert(rest.drop_first() =~= s@.subrange(i + 1, n as int));
            let piece = s.substring_char(i, i + 1);
            let ghost before = out@;
            out.append(piece);
            assert(piece@ =~= seq![rest[0]]);
            assert(out@ + replace_spec(s@.subrange(i + 1, n as int), p@, r@) =~= before + (seq![rest[0]]
                + replace_spec(rest.drop_first(), p@, r@)));
            i = i + 1;
        }
    }
    assert(s@.subrange(n as int, n as int) =~= Seq::<char>::empty());
    assert(out@ + Seq::<char>::empty() =~= out@);
    out
}

/// The lower-case form of a string, as `str::to_lowercase` gives it.
pub uninterp spec fn lower_of(s: Seq<char>) -> Seq<char>;

/// Relies on `str::to_lowercase`: the result depends on the characters alone,
/// and an empty string stays empty.
#[verifier::external_body]
pub(crate) fn lowercase(s: &str) -> (r: String)
    ensures
        r@ == lower_of(s@),
        s@.len() == 0 ==> r@.len() == 0,
{
    s.to_lowercase()
}

} // verus!
