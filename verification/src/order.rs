//! Ranking things by size.

use crate::by_name::ByName;
use crate::text::Side;
use vstd::prelude::*;
use vstd::string::*;

verus! {

/// The place in `order` of a thing of size `size`: behind everything that is at
/// least as large.
pub open spec fn rank_in(sizes: Seq<u64>, order: Seq<int>, size: u64, p: int) -> int
    decreases order.len() - p,
{
    if p >= order.len() || sizes[order[p]] < size {
        p
    } else {
        rank_in(sizes, order, size, p + 1)
    }
}

/// The first `n` things, largest first; of two of one size the earlier first.
pub open spec fn ranked(sizes: Seq<u64>, n: int) -> Seq<int>
    decreases n,
{
    if n <= 0 {
        Seq::empty()
    } else {
        let before = ranked(sizes, n - 1);
        before.insert(rank_in(sizes, before, sizes[n - 1], 0), n - 1)
    }
}

/// All the things, largest first.
pub open spec fn largest_first(sizes: Seq<u64>) -> Seq<int> {
    ranked(sizes, sizes.len() as int)
}

/// Indices as mathematical integers.
pub open spec fn places(v: Seq<usize>) -> Seq<int> {
    v.map_values(|i: usize| i as int)
}

proof fn lemma_rank_in(sizes: Seq<u64>, order: Seq<int>, size: u64, p: int)
    requires
        0 <= p <= order.len(),
    ensures
        p <= rank_in(sizes, order, size, p) <= order.len(),
        forall|k: int|
            p <= k < rank_in(sizes, order, size, p) ==> sizes[#[trigger] order[k]] >= size,
        rank_in(sizes, order, size, p) < order.len() ==> sizes[order[rank_in(sizes, order, size, p)]]
            < size,
    decreases order.len() - p,
{
    if p < order.len() && sizes[order[p]] >= size {
        lemma_rank_in(sizes, order, size, p + 1);
    }
}

/// Every index below `n` stands in the ranking once, and nothing else.
proof fn lemma_ranked(sizes: Seq<u64>, n: int)
    requires
        0 <= n <= sizes.len(),
    ensures
        ranked(sizes, n).len() == n,
        ranked(sizes, n).no_duplicates(),
        forall|k: int| 0 <= k < n ==> 0 <= #[trigger] ranked(sizes, n)[k] < n,
        forall|i: int| 0 <= i < n ==> ranked(sizes, n).contains(i),
        forall|a: int, b: int|
            0 <= a < b < n ==> {
                let x = #[trigger] ranked(sizes, n)[a];
                let y = #[trigger] ranked(sizes, n)[b];
                sizes[x] > sizes[y] || (sizes[x] == sizes[y] && x < y)
            },
    decreases n,
{
    if n > 0 {
        lemma_ranked(sizes, n - 1);
        let before = ranked(sizes, n - 1);
        let p = rank_in(sizes, before, sizes[n - 1], 0);
        lemma_rank_in(sizes, before, sizes[n - 1], 0);
        let after = ranked(sizes, n);
        assert(after == before.insert(p, n - 1));
        assert forall|k: int| 0 <= k < n implies 0 <= #[trigger] after[k] < n by {
            if k < p {
                assert(after[k] == before[k]);
            } else if k > p {
                assert(after[k] == before[k - 1]);
            }
        }
        assert forall|i: int| 0 <= i < n implies after.contains(i) by {
            if i == n - 1 {
                assert(after[p] == i);
            } else {
                assert(before.contains(i));
                let k = choose|k: int| 0 <= k < before.len() && before[k] == i;
                if k < p {
                    assert(after[k] == i);
                } else {
                    assert(after[k + 1] == i);
                }
            }
        }
        assert forall|a: int, b: int| 0 <= a < b < n implies ({
            let x = #[trigger] after[a];
            let y = #[trigger] after[b];
            sizes[x] > sizes[y] || (sizes[x] == sizes[y] && x < y)
        }) by {
            let a0 = if a < p { a } else { a - 1 };
            let b0 = if b < p { b } else { b - 1 };
            if a != p {
                assert(after[a] == before[a0]);
            }
            if b != p {
                assert(after[b] == before[b0]);
            }
            if b == p {
                assert(sizes[before[a0]] >= sizes[n - 1]);
            } else if a == p {
                assert(sizes[before[p]] < sizes[n - 1]);
                if b0 > p {
                    let x = before[p];
                    let y = before[b0];
                    assert(sizes[x] >= sizes[y]);
                }
            } else {
                let x = before[a0];
                let y = before[b0];
                assert(sizes[x] > sizes[y] || (sizes[x] == sizes[y] && x < y));
            }
        }
        assert(after.no_duplicates()) by {
            assert forall|a: int, b: int|
                0 <= a < after.len() && 0 <= b < after.len() && a != b implies after[a]
                != after[b] by {
                let (lo, hi) = if a < b {
                    (a, b)
                } else {
                    (b, a)
                };
                let x = after[lo];
                let y = after[hi];
                assert(sizes[x] > sizes[y] || (sizes[x] == sizes[y] && x < y));
            }
        }
    }
}

/// The ranking holds every index once, and sizes never grow along it.
pub proof fn law_the_ranking_descends(sizes: Seq<u64>)
    ensures
        largest_first(sizes).len() == sizes.len(),
        largest_first(sizes).no_duplicates(),
        forall|i: int| 0 <= i < sizes.len() ==> largest_first(sizes).contains(i),
        forall|k: int| 0 <= k < sizes.len() ==> 0 <= #[trigger] largest_first(sizes)[k] < sizes.len(),
        forall|a: int, b: int|
            0 <= a < b < sizes.len() ==> {
                let x = #[trigger] largest_first(sizes)[a];
                let y = #[trigger] largest_first(sizes)[b];
                sizes[x] > sizes[y] || (sizes[x] == sizes[y] && x < y)
            },
{
    lemma_ranked(sizes, sizes.len() as int);
}

/// The indices of `sizes`, largest first.
pub fn by_size(sizes: &Vec<u64>) -> (r: Vec<usize>)
    ensures
        places(r@) == largest_first(sizes@),
        r@.len() == sizes@.len(),
        forall|k: int| 0 <= k < r@.len() ==> #[trigger] r@[k] < sizes@.len(),
{
    let mut out: Vec<usize> = Vec::new();
    let mut n: usize = 0;
    assert(places(out@) =~= ranked(sizes@, 0));
    while n < sizes.len()
        invariant
            n <= sizes@.len(),
            out@.len() == n,
            places(out@) == ranked(sizes@, n as int),
            forall|k: int| 0 <= k < out@.len() ==> #[trigger] out@[k] < n,
        decreases sizes@.len() - n,
    {
        let mut p: usize = 0;
        let ghost before = places(out@);
        while p < out.len() && sizes[out[p]] >= sizes[n]
            invariant
                n < sizes@.len(),
                p <= out@.len(),
                before == places(out@),
                forall|k: int| 0 <= k < out@.len() ==> #[trigger] out@[k] < n,
                rank_in(sizes@, before, sizes@[n as int], 0) == rank_in(
                    sizes@,
                    before,
                    sizes@[n as int],
                    p as int,
                ),
            decreases out@.len() - p,
        {
            assert(before[p as int] == out@[p as int]);
            p = p + 1;
        }
        if p < out.len() {
            assert(before[p as int] == out@[p as int]);
        }
        let ghost held = out@;
        out.insert(p, n);
        assert(places(out@) =~= before.insert(p as int, n as int));
        assert forall|k: int| 0 <= k < out@.len() implies #[trigger] out@[k] < n + 1 by {
            if k < p {
                assert(out@[k] == held[k]);
            } else if k > p {
                assert(out@[k] == held[k - 1]);
            }
        }
        n = n + 1;
    }
    out
}

/// The place in `order` of a thing called `name`: before the first whose name
/// comes later.
pub open spec fn name_rank(names: Seq<Seq<char>>, order: Seq<int>, name: Seq<char>, p: int) -> int
    decreases order.len() - p,
{
    if p >= order.len() || crate::text::precedes(name, names[order[p]]) {
        p
    } else {
        name_rank(names, order, name, p + 1)
    }
}

/// The first `n` things by name; of two of one name the earlier first.
pub open spec fn named_order(names: Seq<Seq<char>>, n: int) -> Seq<int>
    decreases n,
{
    if n <= 0 {
        Seq::empty()
    } else {
        let before = named_order(names, n - 1);
        before.insert(name_rank(names, before, names[n - 1], 0), n - 1)
    }
}

/// The indices of `names`, by name.
pub fn by_text(names: &Vec<String>) -> (r: Vec<usize>)
    ensures
        places(r@) == named_order(crate::text::texts(names@), names@.len() as int),
        r@.len() == names@.len(),
        forall|k: int| 0 <= k < r@.len() ==> #[trigger] r@[k] < names@.len(),
{
    let ghost t = crate::text::texts(names@);
    let mut out: Vec<usize> = Vec::new();
    let mut n: usize = 0;
    assert(places(out@) =~= named_order(t, 0));
    while n < names.len()
        invariant
            n <= names@.len(),
            t == crate::text::texts(names@),
            out@.len() == n,
            places(out@) == named_order(t, n as int),
            forall|k: int| 0 <= k < out@.len() ==> #[trigger] out@[k] < n,
        decreases names@.len() - n,
    {
        let mut p: usize = 0;
        let ghost before = places(out@);
        assert(t[n as int] == names@[n as int]@);
        loop
            invariant
                n < names@.len(),
                t == crate::text::texts(names@),
                t[n as int] == names@[n as int]@,
                p <= out@.len(),
                before == places(out@),
                forall|k: int| 0 <= k < out@.len() ==> #[trigger] out@[k] < n,
                name_rank(t, before, t[n as int], 0) == name_rank(t, before, t[n as int], p as int),
            ensures
                p <= out@.len(),
                p == name_rank(t, before, t[n as int], 0),
            decreases out@.len() - p,
        {
            if p >= out.len() {
                break;
            }
            assert(before[p as int] == out@[p as int]);
            assert(t[before[p as int]] == names@[out@[p as int] as int]@);
            proof {
                crate::text::lemma_precedes_total(t[n as int], t[before[p as int]]);
            }
            match crate::text::side(names[n].as_str(), names[out[p]].as_str()) {
                Side::Before => {
                    break;
                },
                _ => {},
            }
            p = p + 1;
        }
        let ghost held = out@;
        out.insert(p, n);
        assert(places(out@) =~= before.insert(p as int, n as int));
        assert forall|k: int| 0 <= k < out@.len() implies #[trigger] out@[k] < n + 1 by {
            if k < p {
                assert(out@[k] == held[k]);
            } else if k > p {
                assert(out@[k] == held[k - 1]);
            }
        }
        n = n + 1;
    }
    out
}

/// The texts ascend, so none occurs twice.
pub open spec fn ascending(v: Seq<Seq<char>>) -> bool {
    forall|i: int, j: int|
        0 <= i < j < v.len() ==> crate::text::precedes(#[trigger] v[i], #[trigger] v[j])
}

/// The texts of `v`, each once, in order.
pub fn sorted_set(v: &Vec<String>) -> (r: Vec<String>)
    ensures
        ascending(crate::text::texts(r@)),
        forall|x: Seq<char>|
            crate::text::texts(r@).contains(x) <==> crate::text::texts(v@).contains(x),
{
    let mut held: ByName<u8> = ByName::new();
    let ghost t = crate::text::texts(v@);
    let mut i: usize = 0;
    proof {
        assert forall|x: Seq<char>| !#[trigger] held.map().contains_key(x) by {
            if held.map().contains_key(x) {
                let k = choose|k: int| crate::by_name::named(held@, x, k);
                assert(crate::by_name::named(held@, x, k));
            }
        }
    }
    while i < v.len()
        invariant
            i <= v@.len(),
            t == crate::text::texts(v@),
            held.wf(),
            forall|x: Seq<char>|
                #[trigger] held.map().contains_key(x) <==> t.take(i as int).contains(x),
        decreases v@.len() - i,
    {
        let ghost before = held.map();
        held.insert(v[i].as_str(), 0);
        assert(t[i as int] == v@[i as int]@);
        assert forall|x: Seq<char>| #[trigger] held.map().contains_key(x) <==> t.take(
            i + 1,
        ).contains(x) by {
            assert(t.take(i + 1) =~= t.take(i as int).push(t[i as int]));
            if held.map().contains_key(x) {
                if x == t[i as int] {
                    assert(t.take(i + 1)[i as int] == x);
                } else {
                    assert(before.contains_key(x));
                    let seen = t.take(i as int);
                    let k = choose|k: int| 0 <= k < seen.len() && seen[k] == x;
                    assert(t.take(i + 1)[k] == x);
                }
            }
            if t.take(i + 1).contains(x) {
                let seen = t.take(i + 1);
                let k = choose|k: int| 0 <= k < seen.len() && seen[k] == x;
                if k < i {
                    assert(t.take(i as int)[k] == x);
                    assert(t.take(i as int).contains(x));
                    assert(before.contains_key(x));
                }
            }
        }
        i = i + 1;
    }
    assert(t.take(i as int) =~= t);
    let mut out: Vec<String> = Vec::new();
    let mut k: usize = 0;
    while k < held.len()
        invariant
            k <= held@.len(),
            out@.len() == k,
            forall|j: int| 0 <= j < k ==> (#[trigger] out@[j])@ == held@[j].0@,
        decreases held@.len() - k,
    {
        out.push(held.at(k).0.clone());
        k = k + 1;
    }
    proof {
        let o = crate::text::texts(out@);
        assert forall|a: int, b: int| 0 <= a < b < o.len() implies crate::text::precedes(
            #[trigger] o[a],
            #[trigger] o[b],
        ) by {
            assert(o[a] == out@[a]@ && o[b] == out@[b]@);
            assert(crate::text::precedes(held@[a].0@, held@[b].0@));
        }
        assert forall|x: Seq<char>| o.contains(x) <==> t.contains(x) by {
            if o.contains(x) {
                let a = choose|a: int| 0 <= a < o.len() && o[a] == x;
                assert(out@[a]@ == held@[a].0@);
                assert(crate::by_name::named(held@, x, a));
                assert(held.map().contains_key(x));
            }
            if t.contains(x) {
                assert(held.map().contains_key(x));
                let a = choose|a: int| crate::by_name::named(held@, x, a);
                assert(crate::by_name::named(held@, x, a));
                assert(out@[a]@ == held@[a].0@);
                assert(o[a] == x);
            }
        }
    }
    out
}

/// Two ascending lists of the same texts are the same list.
pub proof fn law_a_sorted_set_is_unique(a: Seq<Seq<char>>, b: Seq<Seq<char>>)
    requires
        ascending(a),
        ascending(b),
        forall|x: Seq<char>| a.contains(x) <==> b.contains(x),
    ensures
        a == b,
    decreases a.len(),
{
    if a.len() == 0 {
        if b.len() > 0 {
            assert(b.contains(b[0]));
            assert(a.contains(b[0]));
        }
        assert(a =~= b);
    } else if b.len() == 0 {
        assert(a.contains(a[0]));
        assert(b.contains(a[0]));
    } else {
        let x = a.last();
        let y = b.last();
        lemma_last_is_largest(a);
        lemma_last_is_largest(b);
        assert(a.contains(x) && b.contains(y));
        crate::text::lemma_precedes_total(x, y);
        assert(x == y) by {
            assert(b.contains(x) && a.contains(y));
            let i = choose|i: int| 0 <= i < b.len() && b[i] == x;
            let j = choose|j: int| 0 <= j < a.len() && a[j] == y;
            if x != y {
                assert(i < b.len() - 1);
                assert(j < a.len() - 1);
                assert(crate::text::precedes(b[i], b[b.len() - 1]));
                assert(crate::text::precedes(a[j], a[a.len() - 1]));
            }
        }
        let c = a.drop_last();
        let d = b.drop_last();
        assert forall|i: int, j: int| 0 <= i < j < c.len() implies crate::text::precedes(
            #[trigger] c[i],
            #[trigger] c[j],
        ) by {
            assert(crate::text::precedes(a[i], a[j]));
        }
        assert forall|i: int, j: int| 0 <= i < j < d.len() implies crate::text::precedes(
            #[trigger] d[i],
            #[trigger] d[j],
        ) by {
            assert(crate::text::precedes(b[i], b[j]));
        }
        assert forall|z: Seq<char>| c.contains(z) <==> d.contains(z) by {
            lemma_without_last(a, b, z);
            lemma_without_last(b, a, z);
        }
        law_a_sorted_set_is_unique(c, d);
        assert(a =~= c.push(x));
        assert(b =~= d.push(x));
    }
}

proof fn lemma_last_is_largest(a: Seq<Seq<char>>)
    requires
        ascending(a),
        a.len() > 0,
    ensures
        forall|i: int| 0 <= i < a.len() - 1 ==> #[trigger] a[i] != a.last(),
{
    assert forall|i: int| 0 <= i < a.len() - 1 implies #[trigger] a[i] != a.last() by {
        assert(crate::text::precedes(a[i], a[a.len() - 1]));
        crate::text::lemma_precedes_total(a[i], a[i]);
    }
}

proof fn lemma_without_last(a: Seq<Seq<char>>, b: Seq<Seq<char>>, z: Seq<char>)
    requires
        ascending(a),
        ascending(b),
        a.len() > 0,
        b.len() > 0,
        a.last() == b.last(),
        forall|x: Seq<char>| a.contains(x) <==> b.contains(x),
    ensures
        a.drop_last().contains(z) ==> b.drop_last().contains(z),
{
    if a.drop_last().contains(z) {
        let k = choose|k: int| 0 <= k < a.drop_last().len() && a.drop_last()[k] == z;
        lemma_last_is_largest(a);
        assert(a[k] == z);
        assert(a.contains(z));
        assert(b.contains(z));
        let j = choose|j: int| 0 <= j < b.len() && b[j] == z;
        assert(b.drop_last()[j] == z);
    }
}

proof fn lemma_name_rank(names: Seq<Seq<char>>, order: Seq<int>, name: Seq<char>, p: int)
    requires
        0 <= p <= order.len(),
    ensures
        p <= name_rank(names, order, name, p) <= order.len(),
        forall|k: int|
            p <= k < name_rank(names, order, name, p) ==> !crate::text::precedes(
                name,
                names[#[trigger] order[k]],
            ),
        name_rank(names, order, name, p) < order.len() ==> crate::text::precedes(
            name,
            names[order[name_rank(names, order, name, p)]],
        ),
    decreases order.len() - p,
{
    if p < order.len() && !crate::text::precedes(name, names[order[p]]) {
        lemma_name_rank(names, order, name, p + 1);
    }
}

/// `x` stands before `y`: its name comes first, or they share it and `x` came first.
pub open spec fn stands_before(names: Seq<Seq<char>>, x: int, y: int) -> bool {
    crate::text::precedes(names[x], names[y]) || (names[x] == names[y] && x < y)
}

proof fn lemma_named(names: Seq<Seq<char>>, n: int)
    requires
        0 <= n <= names.len(),
    ensures
        named_order(names, n).len() == n,
        forall|k: int| 0 <= k < n ==> 0 <= #[trigger] named_order(names, n)[k] < n,
        forall|i: int| 0 <= i < n ==> named_order(names, n).contains(i),
        forall|a: int, b: int|
            0 <= a < b < n ==> stands_before(
                names,
                #[trigger] named_order(names, n)[a],
                #[trigger] named_order(names, n)[b],
            ),
    decreases n,
{
    if n > 0 {
        lemma_named(names, n - 1);
        let before = named_order(names, n - 1);
        let name = names[n - 1];
        let p = name_rank(names, before, name, 0);
        lemma_name_rank(names, before, name, 0);
        let after = named_order(names, n);
        assert(after == before.insert(p, n - 1));
        assert forall|k: int| 0 <= k < n implies 0 <= #[trigger] after[k] < n by {
            if k < p {
                assert(after[k] == before[k]);
            } else if k > p {
                assert(after[k] == before[k - 1]);
            }
        }
        assert forall|i: int| 0 <= i < n implies after.contains(i) by {
            if i == n - 1 {
                assert(after[p] == i);
            } else {
                assert(before.contains(i));
                let k = choose|k: int| 0 <= k < before.len() && before[k] == i;
                if k < p {
                    assert(after[k] == i);
                } else {
                    assert(after[k + 1] == i);
                }
            }
        }
        assert forall|a: int, b: int| 0 <= a < b < n implies stands_before(
            names,
            #[trigger] after[a],
            #[trigger] after[b],
        ) by {
            let a0 = if a < p { a } else { a - 1 };
            let b0 = if b < p { b } else { b - 1 };
            if a != p {
                assert(after[a] == before[a0]);
            }
            if b != p {
                assert(after[b] == before[b0]);
            }
            if b == p {
                crate::text::lemma_precedes_total(name, names[before[a0]]);
            } else if a == p {
                if b0 > p {
                    assert(stands_before(names, before[p], before[b0]));
                    if crate::text::precedes(names[before[p]], names[before[b0]]) {
                        crate::text::lemma_precedes_chain(
                            name,
                            names[before[p]],
                            names[before[b0]],
                        );
                    }
                }
            } else {
                assert(stands_before(names, before[a0], before[b0]));
            }
        }
    }
}

/// Ordering by name keeps every index, each once; names never go back along it, and of
/// two of one name the one that came first stays first.
pub proof fn law_the_names_ascend(names: Seq<Seq<char>>)
    ensures
        named_order(names, names.len() as int).len() == names.len(),
        named_order(names, names.len() as int).no_duplicates(),
        forall|i: int| 0 <= i < names.len() ==> named_order(names, names.len() as int).contains(i),
        forall|k: int|
            0 <= k < names.len() ==> 0 <= #[trigger] named_order(names, names.len() as int)[k]
                < names.len(),
        forall|a: int, b: int|
            0 <= a < b < names.len() ==> {
                let x = #[trigger] named_order(names, names.len() as int)[a];
                let y = #[trigger] named_order(names, names.len() as int)[b];
                crate::text::precedes(names[x], names[y]) || (names[x] == names[y] && x < y)
            },
{
    let n = names.len() as int;
    lemma_named(names, n);
    let o = named_order(names, n);
    assert forall|a: int, b: int| 0 <= a < b < n implies ({
        let x = #[trigger] o[a];
        let y = #[trigger] o[b];
        crate::text::precedes(names[x], names[y]) || (names[x] == names[y] && x < y)
    }) by {
        assert(stands_before(names, o[a], o[b]));
    }
    assert forall|a: int, b: int| 0 <= a < o.len() && 0 <= b < o.len() && a != b implies o[a]
        != o[b] by {
        let (lo, hi) = if a < b {
            (a, b)
        } else {
            (b, a)
        };
        assert(stands_before(names, o[lo], o[hi]));
        crate::text::lemma_precedes_total(names[o[lo]], names[o[hi]]);
    }
}

} // verus!
