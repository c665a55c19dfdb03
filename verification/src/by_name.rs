//! A small ordered map from names to values.

use crate::text::Side;
use vstd::prelude::*;
use vstd::string::*;

verus! {

/// Values by name, kept in name order. Names do not repeat.
#[derive(Debug)]
pub struct ByName<V> {
    items: Vec<(String, V)>,
}

impl<V> View for ByName<V> {
    type V = Seq<(String, V)>;

    closed spec fn view(&self) -> Seq<(String, V)> {
        self.items@
    }
}

/// No name occurs twice and the names ascend.
pub open spec fn sorted_names<V>(s: Seq<(String, V)>) -> bool {
    forall|i: int, j: int|
        0 <= i < j < s.len() ==> crate::text::precedes(
            (#[trigger] s[i]).0@,
            (#[trigger] s[j]).0@,
        )
}

/// The index of `name`.
pub open spec fn named<V>(s: Seq<(String, V)>, name: Seq<char>, i: int) -> bool {
    0 <= i < s.len() && s[i].0@ == name
}

/// In a sorted list a name stands in one place only.
pub proof fn lemma_named_once<V>(s: Seq<(String, V)>, name: Seq<char>, i: int, j: int)
    requires
        sorted_names(s),
        named(s, name, i),
        named(s, name, j),
    ensures
        i == j,
{
    crate::text::lemma_precedes_total(name, name);
    if i < j {
        assert(crate::text::precedes(s[i].0@, s[j].0@));
    } else if j < i {
        assert(crate::text::precedes(s[j].0@, s[i].0@));
    }
}

/// What each name stands for.
pub open spec fn map_of<V>(s: Seq<(String, V)>) -> Map<Seq<char>, V> {
    Map::new(
        |n: Seq<char>| exists|i: int| named(s, n, i),
        |n: Seq<char>| s[choose|i: int| named(s, n, i)].1,
    )
}

/// In a sorted list the entry at `i` is what its name stands for.
pub proof fn lemma_map_entry<V>(s: Seq<(String, V)>, i: int)
    requires
        sorted_names(s),
        0 <= i < s.len(),
    ensures
        map_of(s).contains_key(s[i].0@),
        map_of(s)[s[i].0@] == s[i].1,
{
    let n = s[i].0@;
    assert(named(s, n, i));
    let j = choose|j: int| named(s, n, j);
    lemma_named_once(s, n, i, j);
}

/// Two sorted lists that differ in one entry at `i`, which the second has.
proof fn lemma_map_insert<V>(
    before: Seq<(String, V)>,
    after: Seq<(String, V)>,
    i: int,
    replaced: bool,
)
    requires
        sorted_names(before),
        sorted_names(after),
        0 <= i < after.len(),
        replaced ==> named(before, after[i].0@, i) && after.remove(i) == before.remove(i)
            && before.len() == after.len(),
        !replaced ==> after.remove(i) == before && forall|k: int| !named(before, after[i].0@, k),
    ensures
        map_of(after) == map_of(before).insert(after[i].0@, after[i].1),
{
    let name = after[i].0@;
    let m = map_of(before).insert(name, after[i].1);
    lemma_map_entry(after, i);
    assert forall|n: Seq<char>| #[trigger] map_of(after).contains_key(n) == m.contains_key(n) by {
        if n != name {
            if map_of(after).contains_key(n) {
                let k = choose|k: int| named(after, n, k);
                assert(named(after, n, k));
                let kb = if k < i || replaced {
                    k
                } else {
                    k - 1
                };
                if replaced {
                    lemma_same_elsewhere(before, after, i, k);
                } else {
                    assert(after.remove(i)[kb] == after[k]);
                }
                assert(named(before, n, kb));
            }
            if map_of(before).contains_key(n) {
                let k = choose|k: int| named(before, n, k);
                assert(named(before, n, k));
                let ka = if k < i || replaced {
                    k
                } else {
                    k + 1
                };
                if replaced {
                    if k == i {
                        assert(false);
                    }
                    lemma_same_elsewhere(before, after, i, k);
                } else {
                    assert(after.remove(i)[k] == after[ka]);
                }
                assert(named(after, n, ka));
            }
        }
    }
    assert forall|n: Seq<char>| #[trigger] map_of(after).contains_key(n) implies map_of(after)[n]
        == m[n] by {
        if n != name {
            let k = choose|k: int| named(after, n, k);
            assert(named(after, n, k));
            lemma_map_entry(after, k);
            if replaced {
                lemma_same_elsewhere(before, after, i, k);
                lemma_map_entry(before, k);
            } else {
                let kb = if k < i {
                    k
                } else {
                    k - 1
                };
                assert(after.remove(i)[kb] == after[k]);
                lemma_map_entry(before, kb);
            }
        }
    }
    assert(map_of(after) =~= m);
}

proof fn lemma_same_elsewhere<V>(
    before: Seq<(String, V)>,
    after: Seq<(String, V)>,
    i: int,
    k: int,
)
    requires
        before.len() == after.len(),
        0 <= i < after.len(),
        0 <= k < after.len(),
        k != i,
        after.remove(i) == before.remove(i),
    ensures
        before[k] == after[k],
{
    let j = if k < i {
        k
    } else {
        k - 1
    };
    assert(after.remove(i)[j] == after[k]);
    assert(before.remove(i)[j] == before[k]);
}

/// Taking the entry at `i` out of a sorted list.
proof fn lemma_map_remove<V>(before: Seq<(String, V)>, after: Seq<(String, V)>, i: int)
    requires
        sorted_names(before),
        sorted_names(after),
        0 <= i < before.len(),
        after == before.remove(i),
    ensures
        map_of(after) == map_of(before).remove(before[i].0@),
{
    let name = before[i].0@;
    assert forall|k: int| !named(after, name, k) by {
        if named(after, name, k) {
            let kb = if k < i {
                k
            } else {
                k + 1
            };
            assert(after[k] == before[kb]);
            assert(named(before, name, kb));
            assert(named(before, name, i));
            lemma_named_once(before, name, kb, i);
        }
    }
    lemma_map_insert(after, before, i, false);
    assert(map_of(after) =~= map_of(before).remove(name));
}

impl<V> ByName<V> {
    /// What each name stands for.
    pub open spec fn map(&self) -> Map<Seq<char>, V> {
        map_of(self@)
    }

    /// The names ascend.
    pub open spec fn wf(&self) -> bool {
        sorted_names(self@)
    }

    /// There are no more names than can be counted.
    pub proof fn lemma_len(&self)
        ensures
            self@.len() <= usize::MAX,
    {
        assert(self.items.len() == self.items@.len());
    }

    pub fn new() -> (r: ByName<V>)
        ensures
            r.wf(),
            r@ == Seq::<(String, V)>::empty(),
            r.map() == Map::<Seq<char>, V>::empty(),
    {
        let r: ByName<V> = ByName { items: Vec::new() };
        assert(r.map() =~= Map::<Seq<char>, V>::empty());
        r
    }

    /// The entries as they are listed.
    pub(crate) fn from_items(items: Vec<(String, V)>) -> (r: ByName<V>)
        ensures
            r@ == items@,
    {
        ByName { items }
    }

    pub fn len(&self) -> (r: usize)
        ensures
            r == self@.len(),
    {
        self.items.len()
    }

    pub fn is_empty(&self) -> (r: bool)
        ensures
            r == (self@.len() == 0),
    {
        self.items.len() == 0
    }

    /// The name and value at position `i`.
    pub fn at(&self, i: usize) -> (r: &(String, V))
        requires
            i < self@.len(),
        ensures
            *r == self@[i as int],
    {
        &self.items[i]
    }

    /// Where `name` stands, or where it would be inserted.
    fn search(&self, name: &str) -> (r: (bool, usize))
        requires
            self.wf(),
        ensures
            r.1 <= self@.len(),
            forall|j: int| 0 <= j < r.1 ==> crate::text::precedes((#[trigger] self@[j]).0@, name@),
            r.0 ==> named(self@, name@, r.1 as int),
            !r.0 ==> forall|j: int|
                r.1 <= j < self@.len() ==> crate::text::precedes(
                    name@,
                    (#[trigger] self@[j]).0@,
                ),
    {
        let mut i: usize = 0;
        while i < self.items.len()
            invariant
                self.wf(),
                i <= self@.len(),
                forall|j: int| 0 <= j < i ==> crate::text::precedes((#[trigger] self@[j]).0@, name@),
            decreases self@.len() - i,
        {
            match crate::text::side(self.items[i].0.as_str(), name) {
                Side::Before => {},
                Side::Same => {
                    return (true, i);
                },
                Side::After => {
                    assert forall|j: int| i <= j < self@.len() implies crate::text::precedes(
                        name@,
                        (#[trigger] self@[j]).0@,
                    ) by {
                        if i < j {
                            crate::text::lemma_precedes_chain(
                                name@,
                                self@[i as int].0@,
                                self@[j].0@,
                            );
                        }
                    }
                    return (false, i);
                },
            }
            i = i + 1;
        }
        (false, i)
    }

    /// The position of `name`.
    pub fn position(&self, name: &str) -> (r: Option<usize>)
        requires
            self.wf(),
        ensures
            match r {
                Some(i) => named(self@, name@, i as int),
                None => forall|i: int| !named(self@, name@, i),
            },
    {
        let (found, i) = self.search(name);
        if found {
            Some(i)
        } else {
            assert forall|k: int| !named(self@, name@, k) by {
                crate::text::lemma_precedes_total(name@, name@);
                if 0 <= k < self@.len() {
                    crate::text::lemma_precedes_total(self@[k].0@, name@);
                }
            }
            None
        }
    }

    /// What `name` stands for.
    pub fn get(&self, name: &str) -> (r: Option<&V>)
        requires
            self.wf(),
        ensures
            match r {
                Some(b) => self.map().contains_key(name@) && self.map()[name@] == *b,
                None => !self.map().contains_key(name@),
            },
    {
        match self.position(name) {
            Some(i) => {
                proof {
                    lemma_map_entry(self@, i as int);
                }
                Some(&self.items[i].1)
            },
            None => None,
        }
    }

    /// Enters `name`, replacing what it stood for. Tells whether it was there
    /// before.
    pub fn insert(&mut self, name: &str, b: V) -> (replaced: bool)
        requires
            old(self).wf(),
        ensures
            final(self).wf(),
            final(self).map() == old(self).map().insert(name@, b),
            replaced == old(self).map().contains_key(name@),
    {
        let (found, i) = self.search(name);
        let ghost before = self@;
        if found {
            self.items.set(i, (name.to_owned(), b));
            proof {
                let s = self@;
                assert(named(before, name@, i as int));
                assert(named(s, name@, i as int));
                assert(s.remove(i as int) =~= before.remove(i as int));
                assert forall|p: int, q: int| 0 <= p < q < s.len() implies crate::text::precedes(
                    (#[trigger] s[p]).0@,
                    (#[trigger] s[q]).0@,
                ) by {
                    assert(crate::text::precedes(before[p].0@, before[q].0@));
                }
                lemma_map_insert(before, s, i as int, true);
                lemma_map_entry(before, i as int);
            }
            true
        } else {
            self.items.insert(i, (name.to_owned(), b));
            proof {
                let s = self@;
                assert(named(s, name@, i as int));
                assert(s.remove(i as int) =~= before);
                assert forall|p: int, q: int| 0 <= p < q < s.len() implies crate::text::precedes(
                    (#[trigger] s[p]).0@,
                    (#[trigger] s[q]).0@,
                ) by {
                    if p < i && q > i {
                        assert(crate::text::precedes(before[p].0@, before[q - 1].0@));
                    } else if q < i {
                        assert(crate::text::precedes(before[p].0@, before[q].0@));
                    } else if p > i {
                        assert(crate::text::precedes(before[p - 1].0@, before[q - 1].0@));
                    } else if p == i {
                        assert(crate::text::precedes(name@, before[q - 1].0@));
                    } else {
                        assert(crate::text::precedes(before[p].0@, name@));
                    }
                }
                assert forall|k: int| !named(before, name@, k) by {
                    crate::text::lemma_precedes_total(name@, name@);
                    if 0 <= k < before.len() {
                        crate::text::lemma_precedes_total(before[k].0@, name@);
                    }
                }
                lemma_map_insert(before, s, i as int, false);
            }
            false
        }
    }

    /// Forgets `name`. Tells whether it was there.
    pub fn remove(&mut self, name: &str) -> (removed: bool)
        requires
            old(self).wf(),
        ensures
            final(self).wf(),
            removed == old(self).map().contains_key(name@),
            final(self).map() == old(self).map().remove(name@),
    {
        let ghost before = self@;
        match self.position(name) {
            Some(i) => {
                let _gone = self.items.remove(i);
                proof {
                    assert(named(before, name@, i as int));
                    let s = self@;
                    assert forall|p: int, q: int| 0 <= p < q < s.len() implies crate::text::precedes(
                        (#[trigger] s[p]).0@,
                        (#[trigger] s[q]).0@,
                    ) by {
                        let pp = if p < i {
                            p
                        } else {
                            p + 1
                        };
                        let qq = if q < i {
                            q
                        } else {
                            q + 1
                        };
                        assert(crate::text::precedes(before[pp].0@, before[qq].0@));
                    }
                    lemma_map_entry(before, i as int);
                    lemma_map_remove(before, s, i as int);
                }
                true
            },
            None => {
                assert(self.map() =~= old(self).map().remove(name@));
                false
            },
        }
    }
}

} // verus!
