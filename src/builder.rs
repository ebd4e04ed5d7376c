use vstd::prelude::*;
use crate::paths::{descriptor_name, descriptor_stem};
use crate::pattern::{Pattern, regex_finds};

verus! {

/// File `file_name` is the descriptor of IOC `n`, and the pattern `q`
/// matches that name.
pub open spec fn descriptor_selected(file_name: Seq<char>, q: Seq<char>, n: Seq<char>) -> bool {
    descriptor_stem(file_name) == Some(n) && regex_finds(q, n)
}

/// Some file of `file_names` is the descriptor of IOC `n`, selected by `q`.
pub open spec fn describes_one(file_names: Seq<String>, q: Seq<char>, n: Seq<char>) -> bool {
    exists|k: int| 0 <= k < file_names.len() && descriptor_selected(file_names[k]@, q, n)
}

/// The names of the IOCs whose descriptors stand among `file_names` and
/// whose names `pattern` matches, each once.
pub fn find_builder_iocs(file_names: &Vec<String>, pattern: &Pattern) -> (r: Vec<String>)
    ensures
        forall|i: int, j: int| 0 <= i < j < r@.len() ==> r@[i]@ != r@[j]@,
        forall|i: int| 0 <= i < r@.len() ==> describes_one(file_names@, pattern@, #[trigger] r@[i]@),
        forall|k: int, n: Seq<char>|
            0 <= k < file_names@.len() && #[trigger] descriptor_selected(file_names@[k]@, pattern@, n)
                ==> exists|i: int| 0 <= i < r@.len() && r@[i]@ == n,
{
    let mut r: Vec<String> = Vec::new();
    let ghost mut src: Seq<int> = Seq::empty();
    let mut k: usize = 0;
    while k < file_names.len()
        invariant
            k <= file_names@.len(),
            src.len() == r@.len(),
            forall|i: int, j: int| 0 <= i < j < r@.len() ==> r@[i]@ != r@[j]@,
            forall|i: int|
                0 <= i < r@.len() ==> 0 <= #[trigger] src[i] < k && descriptor_selected(
                    file_names@[src[i]]@,
                    pattern@,
                    r@[i]@,
                ),
            forall|k2: int, n: Seq<char>|
                0 <= k2 < k && #[trigger] descriptor_selected(file_names@[k2]@, pattern@, n)
                    ==> exists|i: int| 0 <= i < r@.len() && r@[i]@ == n,
        decreases file_names@.len() - k,
    {
        let ghost f = file_names@[k as int]@;
        let ghost r0 = r@;
        let ghost mut sel: Option<Seq<char>> = None;
        if let Some(name) = descriptor_name(file_names[k].as_str()) {
            if pattern.finds(name.as_str()) {
                proof {
                    sel = Some(name@);
                }
                let mut i: usize = 0;
                while i < r.len() && r[i] != name
                    invariant
                        i <= r@.len(),
                        forall|j: int| 0 <= j < i ==> r@[j]@ != name@,
                    decreases r@.len() - i,
                {
                    i += 1;
                }
                if i == r.len() {
                    r.push(name);
                    proof {
                        src = src.push(k as int);
                    }
                }
                assert(r@[i as int]@ == sel->0);
            }
        }
        assert(forall|n: Seq<char>| descriptor_selected(f, pattern@, n) <==> sel == Some(n));
        assert forall|k2: int, n: Seq<char>|
            0 <= k2 < k + 1 && #[trigger] descriptor_selected(file_names@[k2]@, pattern@, n)
                implies exists|i: int| 0 <= i < r@.len() && r@[i]@ == n by {
            if k2 < k {
                let i = choose|i: int| 0 <= i < r0.len() && r0[i]@ == n;
                assert(r@[i] == r0[i]);
            }
        }
        k += 1;
    }
    assert forall|i: int| 0 <= i < r@.len() implies describes_one(
        file_names@,
        pattern@,
        #[trigger] r@[i]@,
    ) by {
        assert(descriptor_selected(file_names@[src[i]]@, pattern@, r@[i]@));
    }
    r
}

} // verus!
