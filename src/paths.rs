use vstd::prelude::*;
use crate::text::{chars_of, slice_string};

verus! {

/// The directory that holds a beamline's builder descriptors, below the
/// beamline's name.
pub const BUILDER_ROOT: &'static str = "/dls_sw/work/R3.14.12.7/support/";

/// What follows the beamline's name in its builder-descriptor directory.
pub const BUILDER_TAIL: &'static str = "-BUILDER/etc/makeIocs";

pub open spec fn occurs_at(s: Seq<char>, w: Seq<char>, k: int) -> bool {
    0 <= k && k + w.len() <= s.len() && s.subrange(k, k + w.len()) == w
}

/// The part of `s` before the first occurrence of `w`; all of `s` where `w`
/// does not occur.
pub open spec fn before_first(s: Seq<char>, w: Seq<char>) -> Seq<char> {
    if exists|k: int| occurs_at(s, w, k) {
        let k = choose|k: int| occurs_at(s, w, k) && forall|k2: int| occurs_at(s, w, k2) ==> k <= k2;
        s.subrange(0, k)
    } else {
        s
    }
}

pub open spec fn ends_with(s: Seq<char>, w: Seq<char>) -> bool {
    w.len() <= s.len() && s.subrange(s.len() - w.len(), s.len() as int) == w
}

/// The name of the IOC that a descriptor file describes: the text of a
/// `.xml` file's name before its first dot.
pub open spec fn descriptor_stem(file_name: Seq<char>) -> Option<Seq<char>> {
    if ends_with(file_name, ".xml"@) {
        Some(before_first(file_name, "."@))
    } else {
        None
    }
}

/// The README of an IOC deployed at `path`: beside the directory above its
/// first `/bin/`.
pub open spec fn configured_readme(path: Seq<char>) -> Seq<char> {
    before_first(path, "/bin/"@) + "/README"@
}

/// Whether `w` occurs in `s` at `k`.
fn occurs_at_exec(s: &Vec<char>, w: &Vec<char>, k: usize) -> (r: bool)
    ensures
        r == occurs_at(s@, w@, k as int),
{
    let sl = s.len();
    if k > sl || w.len() > sl - k {
        return false;
    }
    let mut m: usize = 0;
    while m < w.len()
        invariant
            sl == s@.len(),
            k + w@.len() <= s@.len(),
            m <= w@.len(),
            forall|t: int| 0 <= t < m ==> s@[k + t] == w@[t],
        decreases w@.len() - m,
    {
        if s[k + m] != w[m] {
            assert(s@.subrange(k as int, k + w@.len())[m as int] != w@[m as int]);
            return false;
        }
        m += 1;
    }
    assert(s@.subrange(k as int, k + w@.len()) =~= w@);
    true
}

/// The part of `s` before the first occurrence of `w`.
pub fn prefix_before(s: &str, w: &str) -> (r: String)
    ensures
        r@ == before_first(s@, w@),
{
    let c = chars_of(s);
    let p = chars_of(w);
    let n = c.len();
    if p.len() == 0 {
        assert(s@.subrange(0, 0) =~= w@);
        assert(occurs_at(s@, w@, 0));
        return slice_string(s, 0, 0);
    }
    let mut k: usize = 0;
    while k < n
        invariant
            p@.len() > 0,
            c@ == s@,
            p@ == w@,
            n == c@.len(),
            forall|k2: int| 0 <= k2 < k ==> !occurs_at(s@, w@, k2),
        decreases n - k,
    {
        if occurs_at_exec(&c, &p, k) {
            return slice_string(s, 0, k);
        }
        k += 1;
    }
    slice_string(s, 0, n)
}

/// Whether `s` ends with `w`.
pub fn has_suffix(s: &str, w: &str) -> (r: bool)
    ensures
        r == ends_with(s@, w@),
{
    let c = chars_of(s);
    let p = chars_of(w);
    if p.len() > c.len() {
        return false;
    }
    let r = occurs_at_exec(&c, &p, c.len() - p.len());
    r
}

/// The name of the IOC that the descriptor file `file_name` describes, if it
/// is a descriptor.
pub fn descriptor_name(file_name: &str) -> (r: Option<String>)
    ensures
        match r {
            Some(n) => descriptor_stem(file_name@) == Some(n@),
            None => descriptor_stem(file_name@) is None,
        },
{
    if has_suffix(file_name, ".xml") {
        Some(prefix_before(file_name, "."))
    } else {
        None
    }
}

/// The directory of `beamline`'s builder descriptors.
pub fn builder_dir(beamline: &str) -> (r: String)
    ensures
        r@ == BUILDER_ROOT@ + beamline@ + BUILDER_TAIL@,
{
    String::from_str(BUILDER_ROOT).concat(beamline).concat(BUILDER_TAIL)
}

/// The README beside descriptor `name` in `builder_path`.
pub fn builder_readme_path(builder_path: &str, name: &str) -> (r: String)
    ensures
        r@ == builder_path@ + "/"@ + name@ + "_README"@,
{
    String::from_str(builder_path).concat("/").concat(name).concat("_README")
}

/// The README of an IOC deployed at `path`.
pub fn configured_readme_path(path: &str) -> (r: String)
    ensures
        r@ == configured_readme(path@),
{
    prefix_before(path, "/bin/").concat("/README")
}

} // verus!
