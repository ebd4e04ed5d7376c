use vstd::prelude::*;
use crate::pattern::{Pattern, regex_finds};
use crate::text::{chars_of, slice_string};
use crate::version::{classify_version, version_class};

verus! {

/// Unicode white space, as `char::is_whitespace` and the regex class `\s`
/// define it.
pub open spec fn is_space(c: char) -> bool {
    ||| '\u{9}' <= c && c <= '\u{d}'
    ||| c == ' '
    ||| c == '\u{85}'
    ||| c == '\u{a0}'
    ||| c == '\u{1680}'
    ||| '\u{2000}' <= c && c <= '\u{200a}'
    ||| c == '\u{2028}'
    ||| c == '\u{2029}'
    ||| c == '\u{202f}'
    ||| c == '\u{205f}'
    ||| c == '\u{3000}'
}

pub fn is_space_char(c: char) -> (r: bool)
    ensures
        r == is_space(c),
{
    ('\u{9}' <= c && c <= '\u{d}') || c == ' ' || c == '\u{85}' || c == '\u{a0}' || c
        == '\u{1680}' || ('\u{2000}' <= c && c <= '\u{200a}') || c == '\u{2028}' || c
        == '\u{2029}' || c == '\u{202f}' || c == '\u{205f}' || c == '\u{3000}'
}

/// `line` is a name `line[..a]`, a run of white space `line[a..b]` and a
/// path `line[b..]`, neither of which holds white space.
pub open spec fn split_at(line: Seq<char>, a: int, b: int) -> bool {
    &&& 0 < a < b < line.len()
    &&& forall|k: int| 0 <= k < a ==> !is_space(#[trigger] line[k])
    &&& forall|k: int| a <= k < b ==> is_space(#[trigger] line[k])
    &&& forall|k: int| b <= k < line.len() ==> !is_space(#[trigger] line[k])
}

/// The name and the path of a redirect-table line, if it has that shape.
pub open spec fn redirect_fields(line: Seq<char>) -> Option<(Seq<char>, Seq<char>)> {
    if exists|a: int, b: int| split_at(line, a, b) {
        let (a, b) = choose|a: int, b: int| split_at(line, a, b);
        Some((line.subrange(0, a), line.subrange(b, line.len() as int)))
    } else {
        None
    }
}

/// The name and path that `line` contributes under query `q`: those of a
/// well-formed line whose name the query matches.
pub open spec fn selected(line: Seq<char>, q: Seq<char>) -> Option<(Seq<char>, Seq<char>)> {
    match redirect_fields(line) {
        Some((n, p)) => if regex_finds(q, n) {
            Some((n, p))
        } else {
            None
        },
        None => None,
    }
}

/// Name to path, over the lines in order; a later line for a name replaces
/// an earlier one.
pub open spec fn redirect_map(lines: Seq<Seq<char>>, q: Seq<char>) -> Map<Seq<char>, Seq<char>>
    decreases lines.len(),
{
    if lines.len() == 0 {
        Map::empty()
    } else {
        let m = redirect_map(lines.drop_last(), q);
        match selected(lines.last(), q) {
            Some((n, p)) => m.insert(n, p),
            None => m,
        }
    }
}

pub open spec fn views(lines: Seq<String>) -> Seq<Seq<char>> {
    lines.map_values(|l: String| l@)
}

proof fn lemma_split_unique(line: Seq<char>, a1: int, b1: int, a2: int, b2: int)
    requires
        split_at(line, a1, b1),
        split_at(line, a2, b2),
    ensures
        a1 == a2 && b1 == b2,
{
    if a1 < a2 {
        assert(is_space(line[a1]));
    }
    if a2 < a1 {
        assert(is_space(line[a2]));
    }
    if b1 < b2 {
        assert(!is_space(line[b1]));
    }
    if b2 < b1 {
        assert(!is_space(line[b2]));
    }
}

/// Splits a redirect-table line into its name and its path.
pub fn split_redirect_line(line: &str) -> (r: Option<(String, String)>)
    ensures
        match r {
            Some((n, p)) => redirect_fields(line@) == Some((n@, p@)),
            None => redirect_fields(line@) is None,
        },
{
    let c = chars_of(line);
    let len = c.len();
    let mut a: usize = 0;
    while a < len && !is_space_char(c[a])
        invariant
            c@ == line@,
            len == c@.len(),
            a <= len,
            forall|k: int| 0 <= k < a ==> !is_space(#[trigger] c@[k]),
        decreases len - a,
    {
        a += 1;
    }
    if a == 0 || a == len {
        assert forall|a2: int, b2: int| !split_at(line@, a2, b2) by {
            if split_at(line@, a2, b2) {
                if a == 0 {
                    assert(!is_space(line@[0]));
                } else {
                    assert(is_space(line@[a2]));
                }
            }
        }
        return None;
    }
    let mut b: usize = a;
    while b < len && is_space_char(c[b])
        invariant
            c@ == line@,
            len == c@.len(),
            0 < a <= b <= len,
            is_space(c@[a as int]),
            forall|k: int| 0 <= k < a ==> !is_space(#[trigger] c@[k]),
            forall|k: int| a <= k < b ==> is_space(#[trigger] c@[k]),
        decreases len - b,
    {
        b += 1;
    }
    if b == len {
        assert forall|a2: int, b2: int| !split_at(line@, a2, b2) by {
            if split_at(line@, a2, b2) {
                assert(c@[a2] == line@[a2] && c@[a as int] == line@[a as int] && c@[b2]
                    == line@[b2]);
            }
        }
        return None;
    }
    let mut k: usize = b;
    while k < len
        invariant
            c@ == line@,
            len == c@.len(),
            0 < a < b <= k <= len,
            forall|m: int| 0 <= m < a ==> !is_space(#[trigger] c@[m]),
            forall|m: int| a <= m < b ==> is_space(#[trigger] c@[m]),
            forall|m: int| b <= m < k ==> !is_space(#[trigger] c@[m]),
            !is_space(c@[b as int]),
        decreases len - k,
    {
        if is_space_char(c[k]) {
            assert forall|a2: int, b2: int| !split_at(line@, a2, b2) by {
                if split_at(line@, a2, b2) {
                    lemma_split_unique_prefix(line@, a as int, b as int, a2, b2);
                    assert(!is_space(line@[k as int]));
                }
            }
            return None;
        }
        k += 1;
    }
    assert(split_at(line@, a as int, b as int));
    proof {
        let (a2, b2) = choose|a2: int, b2: int| split_at(line@, a2, b2);
        lemma_split_unique(line@, a as int, b as int, a2, b2);
    }
    Some((slice_string(line, 0, a), slice_string(line, b, len)))
}

proof fn lemma_split_unique_prefix(line: Seq<char>, a: int, b: int, a2: int, b2: int)
    requires
        0 < a < b < line.len(),
        forall|m: int| 0 <= m < a ==> !is_space(#[trigger] line[m]),
        forall|m: int| a <= m < b ==> is_space(#[trigger] line[m]),
        !is_space(line[b]),
        split_at(line, a2, b2),
    ensures
        a == a2 && b == b2,
{
    if a < a2 {
        assert(is_space(line[a]));
    }
    if a2 < a {
        assert(is_space(line[a2]));
    }
    if b < b2 {
        assert(!is_space(line[b]));
    }
    if b2 < b {
        assert(!is_space(line[b2]));
    }
}

/// Whether `line` is selected under query `q` and names IOC `n`.
pub open spec fn names_ioc(line: Seq<char>, q: Seq<char>, n: Seq<char>) -> bool {
    selected(line, q) matches Some((m, _)) && m == n
}

/// Every table line that the query selects yields a record for its name, and
/// for each name the path of the last line naming it; lines that are not
/// selected yield none.
pub proof fn lemma_redirect_records(lines: Seq<Seq<char>>, q: Seq<char>)
    ensures
        forall|n: Seq<char>|
            redirect_map(lines, q).contains_key(n) <==> exists|i: int|
                0 <= i < lines.len() && names_ioc(#[trigger] lines[i], q, n),
        forall|i: int|
            0 <= i < lines.len() && (#[trigger] selected(lines[i], q)) is Some && (forall|j: int|
                i < j < lines.len() ==> !names_ioc(
                    #[trigger] lines[j],
                    q,
                    (selected(lines[i], q)->0).0,
                )) ==> redirect_map(lines, q)[(selected(lines[i], q)->0).0] == (selected(
                lines[i],
                q,
            )->0).1,
    decreases lines.len(),
{
    if lines.len() > 0 {
        let prev = lines.drop_last();
        let last = (lines.len() - 1) as int;
        lemma_redirect_records(prev, q);
        assert forall|i: int| 0 <= i < prev.len() implies prev[i] == lines[i] by {}
        assert(lines.last() == lines[last]);
        let m = redirect_map(lines, q);
        let pm = redirect_map(prev, q);
        assert(m == match selected(lines[last], q) {
            Some((a, b)) => pm.insert(a, b),
            None => pm,
        });
        assert forall|n: Seq<char>|
            m.contains_key(n) <==> exists|i: int| 0 <= i < lines.len() && names_ioc(#[trigger] lines[i], q, n) by {
            if m.contains_key(n) && !names_ioc(lines[last], q, n) {
                assert(pm.contains_key(n));
                let i = choose|i: int| 0 <= i < prev.len() && names_ioc(#[trigger] prev[i], q, n);
                assert(names_ioc(lines[i], q, n));
            }
            if exists|i: int| 0 <= i < lines.len() && names_ioc(#[trigger] lines[i], q, n) {
                let i = choose|i: int| 0 <= i < lines.len() && names_ioc(#[trigger] lines[i], q, n);
                if i < last {
                    assert(names_ioc(prev[i], q, n));
                }
            }
        }
        assert forall|i: int|
            0 <= i < lines.len() && (#[trigger] selected(lines[i], q)) is Some && (forall|j: int|
                i < j < lines.len() ==> !names_ioc(
                    #[trigger] lines[j],
                    q,
                    (selected(lines[i], q)->0).0,
                )) implies m[(selected(lines[i], q)->0).0] == (selected(lines[i], q)->0).1 by {
            let n = (selected(lines[i], q)->0).0;
            if i < last {
                assert(!names_ioc(lines[last], q, n));
                assert(selected(prev[i], q) == selected(lines[i], q));
                assert forall|j: int| i < j < prev.len() implies !names_ioc(#[trigger] prev[j], q, n) by {
                    assert(!names_ioc(lines[j], q, n));
                }
            }
        }
    }
}

/// A line of the redirect table that a query selected: the IOC's name, the
/// path it is deployed from, and the version read off that path.
#[derive(Debug)]
pub struct RedirectEntry {
    pub name: String,
    pub path: String,
    pub version: String,
}

pub open spec fn distinct_names(r: Seq<RedirectEntry>) -> bool {
    forall|i: int, j: int| 0 <= i < j < r.len() ==> r[i].name@ != r[j].name@
}

/// `r` holds one entry per name of `m`, with that name's path and the
/// version of that path.
pub open spec fn entries_match(r: Seq<RedirectEntry>, m: Map<Seq<char>, Seq<char>>) -> bool {
    &&& distinct_names(r)
    &&& forall|i: int|
        0 <= i < r.len() ==> {
            &&& m.contains_key(#[trigger] r[i].name@)
            &&& m[r[i].name@] == r[i].path@
            &&& r[i].version@ == version_class(r[i].path@)
        }
    &&& forall|n: Seq<char>| m.contains_key(n) ==> exists|i: int| 0 <= i < r.len() && r[i].name@ == n
}

/// The entries that the redirect table `lines` holds for IOCs whose names
/// `query` matches; where several lines name one IOC, the last one counts.
pub fn find_configured_iocs(lines: &Vec<String>, query: &Pattern) -> (r: Vec<RedirectEntry>)
    ensures
        entries_match(r@, redirect_map(views(lines@), query@)),
{
    let mut r: Vec<RedirectEntry> = Vec::new();
    let mut k: usize = 0;
    while k < lines.len()
        invariant
            k <= lines@.len(),
            entries_match(r@, redirect_map(views(lines@).subrange(0, k as int), query@)),
        decreases lines@.len() - k,
    {
        let ghost before = views(lines@).subrange(0, k as int);
        let ghost m = redirect_map(before, query@);
        let ghost after = views(lines@).subrange(0, k + 1);
        assert(after.drop_last() =~= before);
        assert(after.last() == lines@[k as int]@);
        let line = lines[k].as_str();
        if let Some((name, path)) = split_redirect_line(line) {
            if query.finds(name.as_str()) {
                let version = classify_version(path.as_str());
                let ghost m2 = m.insert(name@, path@);
                assert(redirect_map(after, query@) == m2);
                let mut i: usize = 0;
                while i < r.len() && r[i].name != name
                    invariant
                        i <= r@.len(),
                        forall|j: int| 0 <= j < i ==> r@[j].name@ != name@,
                    decreases r@.len() - i,
                {
                    i += 1;
                }
                let ghost r0 = r@;
                let ghost key = name@;
                let entry = RedirectEntry { name, path, version };
                if i < r.len() {
                    r.set(i, entry);
                } else {
                    r.push(entry);
                }
                assert(r@[i as int].name@ == key);
                assert forall|n: Seq<char>| m2.contains_key(n) implies exists|j: int|
                    0 <= j < r@.len() && r@[j].name@ == n by {
                    if n != key {
                        let j = choose|j: int| 0 <= j < r0.len() && r0[j].name@ == n;
                        assert(r@[j].name@ == n);
                    }
                }
            }
        }
        k += 1;
    }
    assert(views(lines@).subrange(0, lines@.len() as int) =~= views(lines@));
    r
}

} // verus!
