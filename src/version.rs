use vstd::prelude::*;
use crate::text::{chars_of, slice_string};

verus! {

/// The root under which work-in-progress software is deployed.
pub const WORK_ROOT: &'static str = "/dls_sw/work";

pub open spec fn is_digit(c: char) -> bool {
    '0' <= c && c <= '9'
}

/// `s` is a release number: runs of digits joined by single dashes, with at
/// least one dash (`3-14-12-7`).
pub open spec fn is_release_number(s: Seq<char>) -> bool {
    &&& s.len() > 0
    &&& is_digit(s[0])
    &&& is_digit(s.last())
    &&& exists|k: int| 0 <= k < s.len() && s[k] == '-'
    &&& forall|k: int| 0 <= k < s.len() ==> is_digit(s[k]) || s[k] == '-'
    &&& forall|k: int| 0 <= k < s.len() - 1 ==> !(#[trigger] s[k] == '-' && s[k + 1] == '-')
}

/// Between the slash at `i` and the slash at `j` of `p` stands a release number.
pub open spec fn release_segment(p: Seq<char>, i: int, j: int) -> bool {
    &&& 0 <= i < j < p.len()
    &&& p[i] == '/'
    &&& p[j] == '/'
    &&& is_release_number(p.subrange(i + 1, j))
}

/// The release segment of `p` that starts furthest to the left, if any.
pub open spec fn release_of(p: Seq<char>) -> Option<Seq<char>> {
    if exists|i: int, j: int| release_segment(p, i, j) {
        let (i, j) = choose|i: int, j: int|
            release_segment(p, i, j) && forall|i2: int, j2: int|
                release_segment(p, i2, j2) ==> i <= i2;
        Some(p.subrange(i + 1, j))
    } else {
        None
    }
}

pub open spec fn starts_with(s: Seq<char>, prefix: Seq<char>) -> bool {
    prefix.len() <= s.len() && s.subrange(0, prefix.len() as int) == prefix
}

pub open spec fn work_version() -> Seq<char> {
    seq!['W', 'O', 'R', 'K']
}

pub open spec fn unknown_version() -> Seq<char> {
    seq!['?']
}

/// The version reported for a deployment path: its leftmost release segment;
/// failing that `WORK` under the work root; failing that `?`.
pub open spec fn version_class(p: Seq<char>) -> Seq<char> {
    match release_of(p) {
        Some(v) => v,
        None => if starts_with(p, WORK_ROOT@) {
            work_version()
        } else {
            unknown_version()
        },
    }
}

/// Whether `p[from..to]` is a release number.
fn release_number_at(p: &Vec<char>, from: usize, to: usize) -> (r: bool)
    requires
        from <= to <= p@.len(),
    ensures
        r == is_release_number(p@.subrange(from as int, to as int)),
{
    let ghost s = p@.subrange(from as int, to as int);
    if from == to {
        return false;
    }
    let mut k: usize = from;
    let mut prev_dash = false;
    let mut seen_dash = false;
    while k < to
        invariant
            from < to <= p@.len(),
            from <= k <= to,
            s == p@.subrange(from as int, to as int),
            k > from ==> is_digit(s[0]),
            prev_dash == (k > from && s[k - from - 1] == '-'),
            seen_dash == exists|m: int| 0 <= m < k - from && s[m] == '-',
            forall|m: int| 0 <= m < k - from ==> is_digit(s[m]) || s[m] == '-',
            forall|m: int| 0 <= m < k - from - 1 ==> !(#[trigger] s[m] == '-' && s[m + 1] == '-'),
        decreases to - k,
    {
        let c = p[k];
        assert(c == s[k - from]);
        if '0' <= c && c <= '9' {
            prev_dash = false;
        } else if c == '-' {
            if k == from || prev_dash {
                return false;
            }
            prev_dash = true;
            seen_dash = true;
        } else {
            return false;
        }
        k += 1;
    }
    seen_dash && !prev_dash
}

/// Index of the first slash of `p` at or after `from`, or the length of `p`.
fn next_slash(p: &Vec<char>, from: usize) -> (r: usize)
    requires
        from <= p@.len(),
    ensures
        from <= r <= p@.len(),
        r < p@.len() ==> p@[r as int] == '/',
        forall|m: int| from <= m < r ==> p@[m] != '/',
{
    let mut k = from;
    while k < p.len() && p[k] != '/'
        invariant
            from <= k <= p@.len(),
            forall|m: int| from <= m < k ==> p@[m] != '/',
        decreases p@.len() - k,
    {
        k += 1;
    }
    k
}

proof fn lemma_release_has_no_slash(p: Seq<char>, i: int, j: int, m: int)
    requires
        release_segment(p, i, j),
        i < m < j,
    ensures
        p[m] != '/',
{
    let s = p.subrange(i + 1, j);
    assert(s[m - i - 1] == p[m]);
}

proof fn lemma_release_of_leftmost(p: Seq<char>, i: int, j: int)
    requires
        release_segment(p, i, j),
        forall|i2: int, j2: int| release_segment(p, i2, j2) ==> i <= i2,
    ensures
        release_of(p) == Some(p.subrange(i + 1, j)),
{
    let (a, b) = choose|a: int, b: int|
        release_segment(p, a, b) && forall|i2: int, j2: int|
            release_segment(p, i2, j2) ==> a <= i2;
    assert(a == i);
    if b < j {
        lemma_release_has_no_slash(p, i, j, b);
    }
    if j < b {
        lemma_release_has_no_slash(p, a, b, j);
    }
}

proof fn lemma_leftmost_exists(p: Seq<char>, i: int, j: int)
    requires
        release_segment(p, i, j),
    ensures
        exists|a: int, b: int|
            release_segment(p, a, b) && forall|i2: int, j2: int|
                release_segment(p, i2, j2) ==> a <= i2,
    decreases i,
{
    if exists|i2: int, j2: int| release_segment(p, i2, j2) && i2 < i {
        let (i2, j2) = choose|i2: int, j2: int| release_segment(p, i2, j2) && i2 < i;
        lemma_leftmost_exists(p, i2, j2);
    } else {
        assert(forall|i2: int, j2: int| release_segment(p, i2, j2) ==> i <= i2);
    }
}

/// The version of a path is decided by the path alone: its leftmost release
/// segment where it has one (and one it has, if any segment is a release
/// number); else `WORK` under the work root; else `?`.
pub proof fn lemma_version_classification(p: Seq<char>)
    ensures
        forall|i: int, j: int|
            release_segment(p, i, j) && (forall|i2: int, j2: int|
                release_segment(p, i2, j2) ==> i <= i2) ==> version_class(p) == p.subrange(
                i + 1,
                j,
            ),
        (exists|i: int, j: int| release_segment(p, i, j)) ==> exists|i: int, j: int|
            release_segment(p, i, j) && version_class(p) == p.subrange(i + 1, j),
        (forall|i: int, j: int| !release_segment(p, i, j)) && starts_with(p, WORK_ROOT@)
            ==> version_class(p) == work_version(),
        (forall|i: int, j: int| !release_segment(p, i, j)) && !starts_with(p, WORK_ROOT@)
            ==> version_class(p) == unknown_version(),
{
    assert forall|i: int, j: int|
        release_segment(p, i, j) && (forall|i2: int, j2: int|
            release_segment(p, i2, j2) ==> i <= i2) implies version_class(p) == p.subrange(
        i + 1,
        j,
    ) by {
        lemma_release_of_leftmost(p, i, j);
    }
    if exists|i: int, j: int| release_segment(p, i, j) {
        let (i, j) = choose|i: int, j: int| release_segment(p, i, j);
        lemma_leftmost_exists(p, i, j);
        let (a, b) = choose|a: int, b: int|
            release_segment(p, a, b) && forall|i2: int, j2: int|
                release_segment(p, i2, j2) ==> a <= i2;
        lemma_release_of_leftmost(p, a, b);
    }
}

/// The leftmost release segment of `path`, if it has one.
pub fn find_release(path: &str) -> (r: Option<String>)
    ensures
        match r {
            Some(v) => release_of(path@) == Some(v@),
            None => release_of(path@) is None,
        },
{
    let p = chars_of(path);
    let n = p.len();
    let mut i = next_slash(&p, 0);
    while i < n
        invariant
            n == p@.len(),
            p@ == path@,
            i <= n,
            i < n ==> p@[i as int] == '/',
            forall|i2: int, j2: int| release_segment(p@, i2, j2) ==> i <= i2,
        decreases n - i,
    {
        let j = next_slash(&p, i + 1);
        if j < n && release_number_at(&p, i + 1, j) {
            proof {
                assert(release_segment(p@, i as int, j as int));
                lemma_release_of_leftmost(p@, i as int, j as int);
            }
            return Some(slice_string(path, i + 1, j));
        }
        assert forall|i2: int, j2: int| release_segment(p@, i2, j2) implies j <= i2 by {
            if i2 == i {
                if j2 < j {
                    assert(p@[j2] == '/');
                } else if j < j2 {
                    lemma_release_has_no_slash(p@, i2, j2, j as int);
                }
            } else if i2 < j {
                assert(p@[i2] == '/');
            }
        }
        i = j;
    }
    None
}

/// Whether `s` begins with `prefix`.
pub fn has_prefix(s: &str, prefix: &str) -> (r: bool)
    ensures
        r == starts_with(s@, prefix@),
{
    let a = chars_of(s);
    let b = chars_of(prefix);
    if b.len() > a.len() {
        return false;
    }
    let mut k: usize = 0;
    while k < b.len()
        invariant
            a@ == s@,
            b@ == prefix@,
            b@.len() <= a@.len(),
            k <= b@.len(),
            forall|m: int| 0 <= m < k ==> a@[m] == b@[m],
        decreases b@.len() - k,
    {
        if a[k] != b[k] {
            assert(s@.subrange(0, prefix@.len() as int)[k as int] != prefix@[k as int]);
            return false;
        }
        k += 1;
    }
    assert(s@.subrange(0, prefix@.len() as int) =~= prefix@);
    true
}

/// The version reported for a deployment path.
pub fn classify_version(path: &str) -> (r: String)
    ensures
        r@ == version_class(path@),
{
    match find_release(path) {
        Some(v) => v,
        None => {
            if has_prefix(path, WORK_ROOT) {
                proof {
                    reveal_strlit("WORK");
                }
                String::from_str("WORK")
            } else {
                proof {
                    reveal_strlit("?");
                }
                String::from_str("?")
            }
        },
    }
}

} // verus!
