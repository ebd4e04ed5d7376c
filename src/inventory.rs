use vstd::prelude::*;
use crate::ioc::{IocView, PartialIOC, absorb};
use crate::order::{lemma_name_lt_irreflexive, lemma_name_lt_total, lemma_name_lt_transitive, name_lt};

verus! {

pub open spec fn ioc_views(s: Seq<PartialIOC>) -> Seq<IocView> {
    s.map_values(|x: PartialIOC| x@)
}

/// The records of `s` by name; a later record replaces an earlier one.
pub open spec fn keyed(s: Seq<IocView>) -> Map<Seq<char>, IocView>
    decreases s.len(),
{
    if s.len() == 0 {
        Map::empty()
    } else {
        keyed(s.drop_last()).insert(s.last().name, s.last())
    }
}

/// `m` with `x` taken in: a new name is added; for a known one only the
/// builder flag is taken, or-ed into the record already there.
pub open spec fn merge_in(m: Map<Seq<char>, IocView>, x: IocView) -> Map<Seq<char>, IocView> {
    if m.contains_key(x.name) {
        m.insert(x.name, absorb(m[x.name], x))
    } else {
        m.insert(x.name, x)
    }
}

/// `m` with the records of `s` taken in, in order.
pub open spec fn merge_all(m: Map<Seq<char>, IocView>, s: Seq<IocView>) -> Map<
    Seq<char>,
    IocView,
>
    decreases s.len(),
{
    if s.len() == 0 {
        m
    } else {
        merge_in(merge_all(m, s.drop_last()), s.last())
    }
}

/// The inventory: the configured records by name, with the builder records
/// taken in.
pub open spec fn merged(configured: Seq<IocView>, builder: Seq<IocView>) -> Map<
    Seq<char>,
    IocView,
> {
    merge_all(keyed(configured), builder)
}

/// Names strictly ascending.
pub open spec fn sorted_by_name(s: Seq<IocView>) -> bool {
    forall|i: int, j: int| 0 <= i < j < s.len() ==> name_lt(s[i].name, s[j].name)
}

/// `s` lists the records of `m`: each once, each as `m` holds it.
pub open spec fn lists(s: Seq<IocView>, m: Map<Seq<char>, IocView>) -> bool {
    &&& forall|i: int|
        0 <= i < s.len() ==> m.contains_key(#[trigger] s[i].name) && m[s[i].name] == s[i]
    &&& forall|n: Seq<char>| m.contains_key(n) ==> exists|i: int| 0 <= i < s.len() && s[i].name == n
}

proof fn lemma_sorted_distinct(s: Seq<IocView>, i: int, j: int)
    requires
        sorted_by_name(s),
        0 <= i < s.len(),
        0 <= j < s.len(),
        i != j,
    ensures
        s[i].name != s[j].name,
{
    if i < j {
        lemma_name_lt_irreflexive(s[i].name);
    } else {
        lemma_name_lt_irreflexive(s[j].name);
    }
}

proof fn lemma_agree_at(s1: Seq<IocView>, s2: Seq<IocView>, m: Map<Seq<char>, IocView>, k: int)
    requires
        sorted_by_name(s1),
        sorted_by_name(s2),
        lists(s1, m),
        lists(s2, m),
        0 <= k < s1.len(),
        k <= s2.len(),
        forall|j: int| 0 <= j < k ==> s1[j] == s2[j],
    ensures
        k < s2.len() && s1[k] == s2[k],
{
    let n = s1[k].name;
    assert(m.contains_key(n));
    let a = choose|a: int| 0 <= a < s2.len() && s2[a].name == n;
    if a < k {
        assert(s1[a] == s2[a]);
        lemma_name_lt_irreflexive(n);
    }
    let n2 = s2[k].name;
    assert(m.contains_key(n2));
    let b = choose|b: int| 0 <= b < s1.len() && s1[b].name == n2;
    if b < k {
        assert(s1[b] == s2[b]);
        lemma_name_lt_irreflexive(n2);
    }
    if b > k {
        if a > k {
            lemma_name_lt_transitive(n, n2, n);
        }
        lemma_name_lt_irreflexive(n);
    }
    assert(m[n] == s1[k]);
    assert(m[n2] == s2[k]);
}

proof fn lemma_agree_upto(s1: Seq<IocView>, s2: Seq<IocView>, m: Map<Seq<char>, IocView>, k: int)
    requires
        sorted_by_name(s1),
        sorted_by_name(s2),
        lists(s1, m),
        lists(s2, m),
        0 <= k <= s1.len(),
    ensures
        k <= s2.len(),
        forall|j: int| 0 <= j < k ==> s1[j] == s2[j],
    decreases k,
{
    if k > 0 {
        lemma_agree_upto(s1, s2, m, k - 1);
        lemma_agree_at(s1, s2, m, k - 1);
    }
}

/// Two name-sorted lists of the same records are one list: the order of the
/// inventory depends on its records alone, never on the order in which
/// they were found.
pub proof fn lemma_listing_unique(s1: Seq<IocView>, s2: Seq<IocView>, m: Map<Seq<char>, IocView>)
    requires
        sorted_by_name(s1),
        sorted_by_name(s2),
        lists(s1, m),
        lists(s2, m),
    ensures
        s1 == s2,
{
    lemma_agree_upto(s1, s2, m, s1.len() as int);
    lemma_agree_upto(s2, s1, m, s2.len() as int);
    assert(s1.len() == s2.len());
    assert forall|j: int| 0 <= j < s1.len() implies s1[j] == s2[j] by {}
    assert(s1 =~= s2);
}

/// No two records of `s` share a name.
pub open spec fn distinct_names(s: Seq<IocView>) -> bool {
    forall|i: int, j: int| 0 <= i < j < s.len() ==> s[i].name != s[j].name
}

/// `s1` and `s2` hold the same records.
pub open spec fn same_records(s1: Seq<IocView>, s2: Seq<IocView>) -> bool {
    forall|x: IocView| s1.contains(x) <==> s2.contains(x)
}

proof fn lemma_keyed_distinct(s: Seq<IocView>)
    requires
        distinct_names(s),
    ensures
        forall|n: Seq<char>|
            keyed(s).contains_key(n) <==> exists|j: int| 0 <= j < s.len() && s[j].name == n,
        forall|j: int| 0 <= j < s.len() ==> keyed(s)[#[trigger] s[j].name] == s[j],
    decreases s.len(),
{
    if s.len() > 0 {
        let p = s.drop_last();
        lemma_keyed_distinct(p);
        assert(keyed(s) == keyed(p).insert(s.last().name, s.last()));
        assert(s.last() == s[s.len() - 1]);
        assert forall|n: Seq<char>|
            keyed(s).contains_key(n) implies exists|j: int| 0 <= j < s.len() && s[j].name == n by {
            if n != s.last().name {
                assert(keyed(p).contains_key(n));
                let j = choose|j: int| 0 <= j < p.len() && p[j].name == n;
                assert(p[j] == s[j]);
                assert(s[j].name == n);
            } else {
                assert(s[s.len() - 1].name == n);
            }
        }
        assert forall|j: int| 0 <= j < s.len() implies keyed(s)[#[trigger] s[j].name] == s[j] by {
            if j < s.len() - 1 {
                assert(p[j] == s[j]);
                assert(s[j].name != s[s.len() - 1].name);
            }
        }
        assert forall|n: Seq<char>|
            (exists|j: int| 0 <= j < s.len() && s[j].name == n) implies keyed(s).contains_key(n) by {
            let j = choose|j: int| 0 <= j < s.len() && s[j].name == n;
            if j < s.len() - 1 {
                assert(p[j] == s[j]);
            }
        }
    }
}

proof fn lemma_merge_all_distinct(m: Map<Seq<char>, IocView>, s: Seq<IocView>)
    requires
        distinct_names(s),
    ensures
        forall|n: Seq<char>|
            merge_all(m, s).contains_key(n) <==> m.contains_key(n) || exists|j: int|
                0 <= j < s.len() && s[j].name == n,
        forall|n: Seq<char>|
            (forall|j: int| 0 <= j < s.len() ==> s[j].name != n) && m.contains_key(n) ==> merge_all(
                m,
                s,
            )[n] == m[n],
        forall|j: int|
            0 <= j < s.len() ==> merge_all(m, s)[#[trigger] s[j].name] == if m.contains_key(
                s[j].name,
            ) {
                absorb(m[s[j].name], s[j])
            } else {
                s[j]
            },
    decreases s.len(),
{
    if s.len() > 0 {
        let p = s.drop_last();
        lemma_merge_all_distinct(m, p);
        let last = s.last();
        assert forall|n: Seq<char>|
            merge_all(m, s).contains_key(n) implies m.contains_key(n) || exists|j: int|
                0 <= j < s.len() && s[j].name == n by {
            if n != last.name && !m.contains_key(n) {
                let j = choose|j: int| 0 <= j < p.len() && p[j].name == n;
                assert(s[j].name == n);
            } else if n == last.name {
                assert(s[s.len() - 1].name == n);
            }
        }
        assert forall|n: Seq<char>|
            m.contains_key(n) || (exists|j: int| 0 <= j < s.len() && s[j].name == n) implies merge_all(
            m,
            s,
        ).contains_key(n) by {
            if !m.contains_key(n) {
                let j = choose|j: int| 0 <= j < s.len() && s[j].name == n;
                if j < s.len() - 1 {
                    assert(p[j] == s[j]);
                }
            }
        }
        assert forall|n: Seq<char>|
            (forall|j: int| 0 <= j < s.len() ==> s[j].name != n) && m.contains_key(n) implies merge_all(
            m,
            s,
        )[n] == m[n] by {
            assert(s[s.len() - 1].name != n);
            assert forall|j: int| 0 <= j < p.len() implies p[j].name != n by {
                assert(p[j] == s[j]);
            }
        }
        assert forall|j: int| 0 <= j < s.len() implies merge_all(m, s)[#[trigger] s[j].name] == if m.contains_key(
            s[j].name,
        ) {
            absorb(m[s[j].name], s[j])
        } else {
            s[j]
        } by {
            if j < s.len() - 1 {
                assert(p[j] == s[j]);
                assert(s[j].name != last.name);
            } else {
                assert forall|i: int| 0 <= i < p.len() implies p[i].name != last.name by {
                    assert(p[i] == s[i]);
                }
            }
        }
    }
}

/// The inventory does not depend on the order in which the records come:
/// the same configured records and the same builder records, each with
/// distinct names, listed in any order, give one and the same sorted list.
pub proof fn lemma_output_order_free(
    c1: Seq<IocView>,
    b1: Seq<IocView>,
    c2: Seq<IocView>,
    b2: Seq<IocView>,
    r1: Seq<IocView>,
    r2: Seq<IocView>,
)
    requires
        distinct_names(c1),
        distinct_names(c2),
        distinct_names(b1),
        distinct_names(b2),
        same_records(c1, c2),
        same_records(b1, b2),
        sorted_by_name(r1),
        lists(r1, merged(c1, b1)),
        sorted_by_name(r2),
        lists(r2, merged(c2, b2)),
    ensures
        r1 == r2,
{
    lemma_keyed_distinct(c1);
    lemma_keyed_distinct(c2);
    let k1 = keyed(c1);
    let k2 = keyed(c2);
    assert forall|n: Seq<char>| k1.contains_key(n) implies k2.contains_key(n) && k2[n] == k1[n] by {
        let j = choose|j: int| 0 <= j < c1.len() && c1[j].name == n;
        assert(c1.contains(c1[j]));
        let j2 = choose|j2: int| 0 <= j2 < c2.len() && c2[j2] == c1[j];
        assert(k2[c2[j2].name] == c2[j2]);
    }
    assert forall|n: Seq<char>| k2.contains_key(n) implies k1.contains_key(n) by {
        let j = choose|j: int| 0 <= j < c2.len() && c2[j].name == n;
        assert(c2.contains(c2[j]));
        let j1 = choose|j1: int| 0 <= j1 < c1.len() && c1[j1] == c2[j];
        assert(c1[j1].name == n);
    }
    assert(k1 =~= k2);
    lemma_merge_all_distinct(k1, b1);
    lemma_merge_all_distinct(k1, b2);
    let m1 = merge_all(k1, b1);
    let m2 = merge_all(k1, b2);
    assert forall|n: Seq<char>| m1.contains_key(n) <==> m2.contains_key(n) by {
        if exists|j: int| 0 <= j < b1.len() && b1[j].name == n {
            let j = choose|j: int| 0 <= j < b1.len() && b1[j].name == n;
            assert(b1.contains(b1[j]));
            let j2 = choose|j2: int| 0 <= j2 < b2.len() && b2[j2] == b1[j];
            assert(b2[j2].name == n);
            assert(m1.contains_key(n) && m2.contains_key(n));
        }
        if exists|j: int| 0 <= j < b2.len() && b2[j].name == n {
            let j = choose|j: int| 0 <= j < b2.len() && b2[j].name == n;
            assert(b2.contains(b2[j]));
            let j1 = choose|j1: int| 0 <= j1 < b1.len() && b1[j1] == b2[j];
            assert(b1[j1].name == n);
            assert(m1.contains_key(n) && m2.contains_key(n));
        }
        if !(exists|j: int| 0 <= j < b1.len() && b1[j].name == n) && !(exists|j: int|
            0 <= j < b2.len() && b2[j].name == n) {
            assert(m1.contains_key(n) == k1.contains_key(n));
            assert(m2.contains_key(n) == k1.contains_key(n));
        }
    }
    assert forall|n: Seq<char>| m1.contains_key(n) implies m1[n] == m2[n] by {
        if exists|j: int| 0 <= j < b1.len() && b1[j].name == n {
            let j = choose|j: int| 0 <= j < b1.len() && b1[j].name == n;
            assert(b1.contains(b1[j]));
            let j2 = choose|j2: int| 0 <= j2 < b2.len() && b2[j2] == b1[j];
            assert(m1[b1[j].name] == m2[b2[j2].name]);
        } else {
            assert forall|j: int| 0 <= j < b2.len() implies b2[j].name != n by {
                assert(b2.contains(b2[j]));
                let j1 = choose|j1: int| 0 <= j1 < b1.len() && b1[j1] == b2[j];
                assert(b1[j1].name == b2[j].name);
            }
            assert(k1.contains_key(n));
            assert(m1[n] == k1[n]);
            assert(m2[n] == k1[n]);
        }
    }
    assert(m1 =~= m2);
    lemma_listing_unique(r1, r2, m1);
}

/// A configured record and a builder record of one IOC merge to the same
/// builder flag, the or of both, whichever of them is the configured one.
pub proof fn lemma_merge_flag_commutes(a: IocView, b: IocView)
    requires
        a.name == b.name,
    ensures
        merged(seq![a], seq![b])[a.name].builder == (a.builder || b.builder),
        merged(seq![b], seq![a])[a.name].builder == (a.builder || b.builder),
{
    assert(seq![a].drop_last() =~= Seq::<IocView>::empty());
    assert(seq![b].drop_last() =~= Seq::<IocView>::empty());
    assert(keyed(Seq::<IocView>::empty()) == Map::<Seq<char>, IocView>::empty());
    assert(merge_all(keyed(seq![a]), Seq::<IocView>::empty()) == keyed(seq![a]));
    assert(merge_all(keyed(seq![b]), Seq::<IocView>::empty()) == keyed(seq![b]));
    assert(keyed(seq![a]) == Map::<Seq<char>, IocView>::empty().insert(a.name, a));
    assert(keyed(seq![b]) == Map::<Seq<char>, IocView>::empty().insert(b.name, b));
    assert(merge_all(keyed(seq![a]), seq![b]) == merge_in(keyed(seq![a]), b));
    assert(merge_all(keyed(seq![b]), seq![a]) == merge_in(keyed(seq![b]), a));
}

/// Puts `x` into the sorted list `r` of the records of `m`: replacing the
/// record of its name, or, where `combine`, or-ing its builder flag into it.
fn put(r: &mut Vec<PartialIOC>, x: PartialIOC, combine: bool, m: Ghost<Map<Seq<char>, IocView>>)
    requires
        sorted_by_name(ioc_views(old(r)@)),
        lists(ioc_views(old(r)@), m@),
    ensures
        sorted_by_name(ioc_views(final(r)@)),
        lists(
            ioc_views(final(r)@),
            if combine {
                merge_in(m@, x@)
            } else {
                m@.insert(x@.name, x@)
            },
        ),
{
    let ghost s = ioc_views(r@);
    let ghost xv = x@;
    let ghost m2 = if combine {
        merge_in(m@, x@)
    } else {
        m@.insert(x@.name, x@)
    };
    let mut i: usize = 0;
    while i < r.len() && r[i].precedes(&x)
        invariant
            s == ioc_views(r@),
            xv == x@,
            sorted_by_name(s),
            lists(s, m@),
            i <= r@.len(),
            forall|a: int| 0 <= a < i ==> name_lt(#[trigger] s[a].name, xv.name),
        decreases r@.len() - i,
    {
        assert(s[i as int] == r@[i as int]@);
        i += 1;
    }
    if i < r.len() && r[i].same_name(&x) {
        let ghost n = xv.name;
        assert(s[i as int] == r@[i as int]@);
        assert(s[i as int].name == n);
        assert(m@.contains_key(n) && m@[n] == s[i as int]);
        let v = if combine {
            let mut y = r[i].duplicate();
            y.add_assign(x);
            y
        } else {
            x
        };
        assert(v@ == m2[n]);
        r.set(i, v);
        assert(ioc_views(r@) =~= s.update(i as int, m2[n]));
        let ghost t = ioc_views(r@);
        assert forall|a: int| 0 <= a < t.len() && a != i implies t[a].name != n by {
            lemma_sorted_distinct(s, a, i as int);
        }
        assert forall|k: Seq<char>| m2.contains_key(k) implies exists|a: int|
            0 <= a < t.len() && t[a].name == k by {
            if k != n {
                let a = choose|a: int| 0 <= a < s.len() && s[a].name == k;
                assert(t[a].name == k);
            } else {
                assert(t[i as int].name == k);
            }
        }
    } else {
        let ghost n = xv.name;
        if i < r.len() {
            assert(s[i as int] == r@[i as int]@);
            proof {
                lemma_name_lt_total(s[i as int].name, n);
            }
        }
        assert forall|a: int| 0 <= a < s.len() implies #[trigger] s[a].name != n by {
            if a < i {
                lemma_name_lt_irreflexive(n);
            } else {
                if a > i {
                    lemma_name_lt_transitive(n, s[i as int].name, s[a].name);
                }
                lemma_name_lt_irreflexive(n);
            }
        }
        assert(!m@.contains_key(n));
        assert(m2 == m@.insert(n, xv));
        r.insert(i, x);
        assert(ioc_views(r@) =~= s.insert(i as int, xv));
        let ghost t = ioc_views(r@);
        assert forall|a: int, b: int| 0 <= a < b < t.len() implies name_lt(t[a].name, t[b].name) by {
            if b == i {
            } else if a == i {
                if b > i + 1 {
                    lemma_name_lt_transitive(n, s[i as int].name, s[b - 1].name);
                }
            } else if a < i && b > i {
                if b > i + 1 {
                    lemma_name_lt_transitive(n, s[i as int].name, s[b - 1].name);
                }
                lemma_name_lt_transitive(s[a].name, n, s[b - 1].name);
            }
        }
        assert forall|k: Seq<char>| m2.contains_key(k) implies exists|a: int|
            0 <= a < t.len() && t[a].name == k by {
            if k != n {
                let a = choose|a: int| 0 <= a < s.len() && s[a].name == k;
                if a < i {
                    assert(t[a].name == k);
                } else {
                    assert(t[a + 1].name == k);
                }
            } else {
                assert(t[i as int].name == k);
            }
        }
    }
}

/// The inventory as a list sorted by name: the configured records, with
/// the builder records taken in (a name known to both keeps the configured
/// record and gets the builder flag of either).
pub fn merge_iocs(configured: &Vec<PartialIOC>, builder: &Vec<PartialIOC>) -> (r: Vec<PartialIOC>)
    ensures
        sorted_by_name(ioc_views(r@)),
        lists(ioc_views(r@), merged(ioc_views(configured@), ioc_views(builder@))),
{
    let ghost cv = ioc_views(configured@);
    let ghost bv = ioc_views(builder@);
    let mut r: Vec<PartialIOC> = Vec::new();
    assert(lists(ioc_views(r@), keyed(cv.subrange(0, 0))));
    let mut k: usize = 0;
    while k < configured.len()
        invariant
            cv == ioc_views(configured@),
            k <= configured@.len(),
            sorted_by_name(ioc_views(r@)),
            lists(ioc_views(r@), keyed(cv.subrange(0, k as int))),
        decreases configured@.len() - k,
    {
        assert(cv.subrange(0, k + 1).drop_last() =~= cv.subrange(0, k as int));
        assert(cv.subrange(0, k + 1).last() == configured@[k as int]@);
        put(&mut r, configured[k].duplicate(), false, Ghost(keyed(cv.subrange(0, k as int))));
        k += 1;
    }
    assert(cv.subrange(0, configured@.len() as int) =~= cv);
    assert(merge_all(keyed(cv), bv.subrange(0, 0)) == keyed(cv));
    let mut k: usize = 0;
    while k < builder.len()
        invariant
            cv == ioc_views(configured@),
            bv == ioc_views(builder@),
            k <= builder@.len(),
            sorted_by_name(ioc_views(r@)),
            lists(ioc_views(r@), merge_all(keyed(cv), bv.subrange(0, k as int))),
        decreases builder@.len() - k,
    {
        assert(bv.subrange(0, k + 1).drop_last() =~= bv.subrange(0, k as int));
        assert(bv.subrange(0, k + 1).last() == builder@[k as int]@);
        put(
            &mut r,
            builder[k].duplicate(),
            true,
            Ghost(merge_all(keyed(cv), bv.subrange(0, k as int))),
        );
        k += 1;
    }
    assert(bv.subrange(0, builder@.len() as int) =~= bv);
    r
}

} // verus!
