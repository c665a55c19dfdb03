//! Touch model: pointer id allocation and the actions to inject.
//!
//! In Android multi-touch every finger must keep a stable pointer id. If an id
//! is reused the app sees the finger teleport and gesture recognition breaks.
//! Allocation is therefore central and explicit.

use crate::num::{Num, ONE_BITS, ZERO_BITS};
use vstd::prelude::*;
use vstd::string::*;

verus! {

/// Number of simultaneous pointers Android supports.
pub const MAX_POINTERS: usize = 10;

/// Resolution-independent coordinate (0..1), so profiles do not depend on the
/// display size.
#[derive(Clone, Copy, Debug, PartialEq, Eq, Structural)]
pub struct Norm {
    pub x: Num,
    pub y: Num,
}

impl Norm {
    /// The coordinate `(x, y)` squeezed into the screen.
    pub open spec fn new_spec(x: Num, y: Num) -> Norm {
        let zero = Num { bits: ZERO_BITS };
        let one = Num { bits: ONE_BITS };
        Norm { x: x.clamp_spec(zero, one), y: y.clamp_spec(zero, one) }
    }

    /// Whether a component lies within 0..1.
    pub open spec fn on_axis(v: Num) -> bool {
        Num { bits: ZERO_BITS }.le(v) && v.le(Num { bits: ONE_BITS })
    }

    /// Whether the coordinate lies on the screen.
    pub open spec fn on_screen(self) -> bool {
        Norm::on_axis(self.x) && Norm::on_axis(self.y)
    }

    pub fn new(x: Num, y: Num) -> (r: Norm)
        ensures
            r == Norm::new_spec(x, y),
            !x.is_nan_spec() && !y.is_nan_spec() ==> r.on_screen(),
    {
        let zero: Num = Num::of(ZERO_BITS);
        let one: Num = Num::of(ONE_BITS);
        proof {
            crate::num::lemma_unit_interval();
        }
        Norm { x: x.clamp(zero, one), y: y.clamp(zero, one) }
    }

    /// A coordinate allowed to go off-screen.
    ///
    /// Once a finger goes down inside the game, its later moves reach the same
    /// window even off-screen, which removes any need to recentre at the edge.
    /// Only meaningful with backends that do not clamp.
    pub fn unclamped(x: Num, y: Num) -> (r: Norm)
        ensures
            r.x == x,
            r.y == y,
    {
        Norm { x, y }
    }

    /// Is the coordinate off-screen (for diagnostics and backend choice)?
    pub fn is_offscreen(self) -> (r: bool)
        ensures
            r == !self.on_screen(),
    {
        let zero: Num = Num::of(ZERO_BITS);
        let one: Num = Num::of(ONE_BITS);
        !(zero.at_most(self.x) && self.x.at_most(one) && zero.at_most(self.y) && self.y.at_most(
            one,
        ))
    }
}

/// A single touch action to inject.
#[derive(Clone, Copy, Debug, PartialEq, Eq, Structural)]
pub enum TouchAction {
    Down { id: u8, at: Norm },
    Move { id: u8, at: Norm },
    Up { id: u8 },
}

/// The fingers on screen after `acts` reach a screen that showed `down`.
pub open spec fn fingers_after(down: Set<u8>, acts: Seq<TouchAction>) -> Set<u8>
    decreases acts.len(),
{
    if acts.len() == 0 {
        down
    } else {
        let before = fingers_after(down, acts.drop_last());
        match acts.last() {
            TouchAction::Down { id, .. } => before.insert(id),
            TouchAction::Move { .. } => before,
            TouchAction::Up { id } => before.remove(id),
        }
    }
}

/// The first free index at or after `i`.
pub open spec fn first_free_from(used: Seq<bool>, i: int) -> Option<int>
    decreases used.len() - i,
{
    if i >= used.len() {
        None
    } else if !used[i] {
        Some(i)
    } else {
        first_free_from(used, i + 1)
    }
}

/// How many of the flags are set.
pub open spec fn count_set(used: Seq<bool>) -> nat
    decreases used.len(),
{
    if used.len() == 0 {
        0
    } else {
        count_set(used.drop_last()) + if used.last() {
            1nat
        } else {
            0nat
        }
    }
}

/// One lift for each id below `n` that some binding owns, in ascending order.
pub open spec fn lifts(assigned: Map<Seq<char>, u8>, n: nat) -> Seq<TouchAction>
    decreases n,
{
    if n == 0 {
        Seq::empty()
    } else {
        let rest = lifts(assigned, (n - 1) as nat);
        if assigned.contains_value((n - 1) as u8) {
            rest.push(TouchAction::Up { id: (n - 1) as u8 })
        } else {
            rest
        }
    }
}

/// What a pool holds: who owns which pointer, and which ids are taken.
#[verifier::ext_equal]
pub struct PoolView {
    pub assigned: Map<Seq<char>, u8>,
    pub used: Seq<bool>,
}

impl PoolView {
    /// Every owned id is taken, and no id has two owners.
    pub open spec fn ok(self) -> bool {
        &&& self.used.len() == MAX_POINTERS
        &&& forall|n: Seq<char>| #[trigger]
            self.assigned.contains_key(n) ==> self.assigned[n] < MAX_POINTERS
                && self.used[self.assigned[n] as int]
        &&& forall|n: Seq<char>, m: Seq<char>| #[trigger]
            self.assigned.contains_key(n) && #[trigger] self.assigned.contains_key(m)
                && self.assigned[n] == self.assigned[m] ==> n == m
    }

    /// The ids in use, as a set.
    pub open spec fn down(self) -> Set<u8> {
        Set::new(|id: u8| id < self.used.len() && self.used[id as int])
    }

    pub open spec fn get(self, n: Seq<char>) -> Option<u8> {
        if self.assigned.contains_key(n) {
            Some(self.assigned[n])
        } else {
            None
        }
    }

    /// Gives `n` a pointer: the one it owns, else the lowest free one.
    pub open spec fn acquire(self, n: Seq<char>) -> (PoolView, Option<u8>) {
        if self.assigned.contains_key(n) {
            (self, Some(self.assigned[n]))
        } else {
            match first_free_from(self.used, 0) {
                Some(i) => (
                    PoolView {
                        assigned: self.assigned.insert(n, i as u8),
                        used: self.used.update(i, true),
                    },
                    Some(i as u8),
                ),
                None => (self, None),
            }
        }
    }

    /// Takes the pointer of `n` back.
    pub open spec fn release(self, n: Seq<char>) -> (PoolView, Option<u8>) {
        if self.assigned.contains_key(n) {
            let id = self.assigned[n];
            (
                PoolView {
                    assigned: self.assigned.remove(n),
                    used: self.used.update(id as int, false),
                },
                Some(id),
            )
        } else {
            (self, None)
        }
    }

    /// Replaces the pointer of `n` by the lowest free one.
    pub open spec fn rotate(self, n: Seq<char>) -> (PoolView, Option<(u8, u8)>) {
        if self.assigned.contains_key(n) {
            let prev = self.assigned[n];
            match first_free_from(self.used, 0) {
                Some(i) => (
                    PoolView {
                        assigned: self.assigned.insert(n, i as u8),
                        used: self.used.update(i, true).update(prev as int, false),
                    },
                    Some((prev, i as u8)),
                ),
                None => (self, None),
            }
        } else {
            (self, None)
        }
    }

    /// Hands the pointer of `from` over to `to`.
    pub open spec fn rename(self, from: Seq<char>, to: Seq<char>) -> (PoolView, Option<u8>) {
        if self.assigned.contains_key(from) {
            let id = self.assigned[from];
            (
                PoolView { assigned: self.assigned.remove(from).insert(to, id), used: self.used },
                Some(id),
            )
        } else {
            (self, None)
        }
    }

    /// The pool nobody owns anything of.
    pub open spec fn empty() -> PoolView {
        PoolView { assigned: Map::empty(), used: Seq::new(MAX_POINTERS as nat, |i: int| false) }
    }
}

/// The pointers owned by bindings.
///
/// An id is kept for as long as the binding is active; on release it goes back
/// to the pool.
#[derive(Debug)]
pub struct PointerPool {
    /// binding name and pointer id
    assigned: Vec<(String, u8)>,
    /// which pointer ids are in use
    in_use: Vec<bool>,
}

/// Where the entries name `n`.
pub open spec fn entry_of(entries: Seq<(String, u8)>, n: Seq<char>, i: int) -> bool {
    0 <= i < entries.len() && entries[i].0@ == n
}

impl View for PointerPool {
    type V = PoolView;

    closed spec fn view(&self) -> PoolView {
        PoolView {
            assigned: Map::new(
                |n: Seq<char>| exists|i: int| entry_of(self.assigned@, n, i),
                |n: Seq<char>| self.assigned@[choose|i: int| entry_of(self.assigned@, n, i)].1,
            ),
            used: self.in_use@,
        }
    }
}

impl Default for PointerPool {
    fn default() -> (r: PointerPool)
        ensures
            r.wf(),
            r@ == PoolView::empty(),
    {
        PointerPool::new()
    }
}

impl PointerPool {
    /// The entries name no binding twice and the pool they describe is in order.
    pub closed spec fn wf(&self) -> bool {
        &&& self@.ok()
        &&& forall|i: int, j: int|
            0 <= i < j < self.assigned@.len() ==> (#[trigger] self.assigned@[i]).0@ != (
            #[trigger] self.assigned@[j]).0@
    }

    /// What well-formedness says of the pool.
    pub proof fn lemma_wf(&self)
        requires
            self.wf(),
        ensures
            self@.ok(),
    {
    }

    /// The entry at `i` is what the view says of its name.
    proof fn lemma_entry(&self, i: int)
        requires
            self.wf(),
            0 <= i < self.assigned@.len(),
        ensures
            self@.assigned.contains_key(self.assigned@[i].0@),
            self@.assigned[self.assigned@[i].0@] == self.assigned@[i].1,
    {
        let n = self.assigned@[i].0@;
        assert(entry_of(self.assigned@, n, i));
        let j = choose|j: int| entry_of(self.assigned@, n, j);
        assert(entry_of(self.assigned@, n, j));
        if i < j {
            assert(self.assigned@[i].0@ != self.assigned@[j].0@);
        } else if j < i {
            assert(self.assigned@[j].0@ != self.assigned@[i].0@);
        }
    }

    pub fn new() -> (r: PointerPool)
        ensures
            r.wf(),
            r@ == PoolView::empty(),
    {
        let mut in_use: Vec<bool> = Vec::new();
        let mut i: usize = 0;
        while i < MAX_POINTERS
            invariant
                i <= MAX_POINTERS,
                in_use@ == Seq::new(i as nat, |j: int| false),
            decreases MAX_POINTERS - i,
        {
            in_use.push(false);
            i = i + 1;
        }
        let r = PointerPool { assigned: Vec::new(), in_use };
        assert(r@ =~= PoolView::empty());
        r
    }

    /// The position of the entry for `binding`.
    fn position(&self, binding: &str) -> (r: Option<usize>)
        requires
            self.wf(),
        ensures
            match r {
                Some(i) => i < self.assigned@.len() && self.assigned@[i as int].0@ == binding@
                    && self@.get(binding@) == Some(self.assigned@[i as int].1),
                None => self@.get(binding@) is None && forall|i: int|
                    0 <= i < self.assigned@.len() ==> (#[trigger] self.assigned@[i]).0@
                        != binding@,
            },
    {
        let mut i: usize = 0;
        while i < self.assigned.len()
            invariant
                self.wf(),
                i <= self.assigned@.len(),
                forall|j: int| 0 <= j < i ==> (#[trigger] self.assigned@[j]).0@ != binding@,
            decreases self.assigned@.len() - i,
        {
            if crate::text::same(self.assigned[i].0.as_str(), binding) {
                proof {
                    self.lemma_entry(i as int);
                }
                return Some(i);
            }
            i = i + 1;
        }
        None
    }

    /// The lowest id that is not in use.
    fn lowest_free(&self) -> (r: Option<usize>)
        ensures
            match r {
                Some(i) => first_free_from(self.in_use@, 0) == Some(i as int) && i
                    < self.in_use@.len() && !self.in_use@[i as int],
                None => first_free_from(self.in_use@, 0) is None,
            },
    {
        let mut i: usize = 0;
        while i < self.in_use.len()
            invariant
                i <= self.in_use@.len(),
                first_free_from(self.in_use@, 0) == first_free_from(self.in_use@, i as int),
            decreases self.in_use@.len() - i,
        {
            if !self.in_use[i] {
                return Some(i);
            }
            i = i + 1;
        }
        None
    }

    /// Makes `name` the owner of `id`.
    fn put(&mut self, name: &str, id: u8)
        requires
            old(self).wf(),
            id < MAX_POINTERS,
            old(self)@.used[id as int],
            !old(self)@.assigned.contains_value(id),
        ensures
            final(self).wf(),
            final(self)@.assigned == old(self)@.assigned.insert(name@, id),
            final(self)@.used == old(self)@.used,
    {
        let ghost before = *self;
        let ghost ents = self.assigned@;
        let ghost at: int;
        match self.position(name) {
            Some(i) => {
                self.assigned.set(i, (name.to_owned(), id));
                proof {
                    at = i as int;
                }
            },
            None => {
                self.assigned.push((name.to_owned(), id));
                proof {
                    at = ents.len() as int;
                }
            },
        }
        proof {
            let ents2 = self.assigned@;
            let m = before@.assigned.insert(name@, id);
            assert(ents2[at].0@ == name@ && ents2[at].1 == id);
            assert forall|k: int| 0 <= k < ents2.len() && k != at implies (#[trigger] ents2[k])
                == ents[k] && k < ents.len() && ents[k].0@ != name@ by {
                if at < ents.len() {
                    if k < at {
                        assert(ents[k].0@ != ents[at].0@);
                    } else {
                        assert(ents[at].0@ != ents[k].0@);
                    }
                }
            }
            assert forall|n: Seq<char>| #[trigger]
                self@.assigned.contains_key(n) == m.contains_key(n) by {
                if n == name@ {
                    assert(entry_of(ents2, n, at));
                } else {
                    if m.contains_key(n) {
                        let k = choose|k: int| entry_of(ents, n, k);
                        assert(entry_of(ents, n, k));
                        assert(entry_of(ents2, n, k));
                    }
                    if self@.assigned.contains_key(n) {
                        let k = choose|k: int| entry_of(ents2, n, k);
                        assert(entry_of(ents2, n, k));
                        assert(entry_of(ents, n, k));
                    }
                }
            }
            assert forall|n: Seq<char>| #[trigger]
                self@.assigned.contains_key(n) implies self@.assigned[n] == m[n] by {
                let k = choose|k: int| entry_of(ents2, n, k);
                assert(entry_of(ents2, n, k));
                if n != name@ {
                    assert(k != at);
                    before.lemma_entry(k);
                }
            }
            assert(self@.assigned =~= m);
            assert forall|n: Seq<char>, k: Seq<char>| #[trigger]
                self@.assigned.contains_key(n) && #[trigger] self@.assigned.contains_key(k)
                    && self@.assigned[n] == self@.assigned[k] implies n == k by {
                if n != k {
                    if n == name@ {
                        assert(before@.assigned.contains_key(k));
                        assert(before@.assigned[k] == id);
                    } else if k == name@ {
                        assert(before@.assigned.contains_key(n));
                        assert(before@.assigned[n] == id);
                    } else {
                        assert(before@.assigned.contains_key(n) && before@.assigned.contains_key(k));
                    }
                }
            }
            assert forall|i: int, j: int| 0 <= i < j < ents2.len() implies (#[trigger] ents2[i]).0@
                != (#[trigger] ents2[j]).0@ by {
                if i != at && j != at {
                    assert(ents[i].0@ != ents[j].0@);
                }
            }
        }
    }

    /// Allocates a pointer to a binding. Idempotent: returns the existing one
    /// if any. `None` if the pool is full, since handing out a wrong id would
    /// break gestures.
    pub fn acquire(&mut self, binding: &str) -> (r: Option<u8>)
        requires
            old(self).wf(),
        ensures
            final(self).wf(),
            (final(self)@, r) == old(self)@.acquire(binding@),
    {
        if let Some(i) = self.position(binding) {
            return Some(self.assigned[i].1);
        }
        match self.lowest_free() {
            Some(i) => {
                let ghost before = *self;
                let id: u8 = i as u8;
                self.in_use.set(i, true);
                assert(self@.assigned =~= before@.assigned);
                self.put(binding, id);
                assert(self@ =~= before@.acquire(binding@).0);
                Some(id)
            },
            None => None,
        }
    }

    /// Removing the entry at `i` removes its name from the view.
    proof fn lemma_removed(before: PointerPool, after: PointerPool, i: int)
        requires
            before.wf(),
            0 <= i < before.assigned@.len(),
            after.assigned@ == before.assigned@.remove(i),
        ensures
            after@.assigned == before@.assigned.remove(before.assigned@[i].0@),
    {
        let ents = before.assigned@;
        let ents2 = after.assigned@;
        let name = ents[i].0@;
        assert forall|n: Seq<char>| #[trigger]
            after@.assigned.contains_key(n) == before@.assigned.remove(name).contains_key(n) by {
            if after@.assigned.contains_key(n) {
                let k = choose|k: int| entry_of(ents2, n, k);
                assert(entry_of(ents2, n, k));
                if k < i {
                    assert(entry_of(ents, n, k));
                    assert(ents[k].0@ != ents[i].0@);
                } else {
                    assert(entry_of(ents, n, k + 1));
                    assert(ents[i].0@ != ents[k + 1].0@);
                }
            }
            if before@.assigned.remove(name).contains_key(n) {
                let k = choose|k: int| entry_of(ents, n, k);
                assert(entry_of(ents, n, k));
                if k < i {
                    assert(entry_of(ents2, n, k));
                } else {
                    assert(entry_of(ents2, n, k - 1));
                }
            }
        }
        assert forall|n: Seq<char>| #[trigger]
            after@.assigned.contains_key(n) implies after@.assigned[n]
            == before@.assigned.remove(name)[n] by {
            let k = choose|k: int| entry_of(ents2, n, k);
            assert(entry_of(ents2, n, k));
            if k < i {
                before.lemma_entry(k);
            } else {
                before.lemma_entry(k + 1);
            }
        }
        assert(after@.assigned =~= before@.assigned.remove(name));
    }

    /// Releases the pointer and returns its id to the pool.
    pub fn release(&mut self, binding: &str) -> (r: Option<u8>)
        requires
            old(self).wf(),
        ensures
            final(self).wf(),
            (final(self)@, r) == old(self)@.release(binding@),
    {
        match self.position(binding) {
            Some(i) => {
                let ghost before = *self;
                let id: u8 = self.assigned[i].1;
                proof {
                    self.lemma_entry(i as int);
                }
                let _gone = self.assigned.remove(i);
                self.in_use.set(id as usize, false);
                proof {
                    PointerPool::lemma_removed(before, *self, i as int);
                    assert(self@ =~= before@.release(binding@).0);
                }
                Some(id)
            },
            None => None,
        }
    }

    /// Gives the binding a new pointer and releases the old one.
    ///
    /// The new id is acquired while the old one is still held, which guarantees
    /// a different id and therefore a different slot: within one slot a lift and
    /// a press in the same frame collapse and the app sees the finger teleport.
    ///
    /// If the pool is full it returns `None` and the old id is kept; leaving it
    /// half-done would strand a finger on screen.
    pub fn rotate(&mut self, binding: &str) -> (r: Option<(u8, u8)>)
        requires
            old(self).wf(),
        ensures
            final(self).wf(),
            (final(self)@, r) == old(self)@.rotate(binding@),
    {
        let prev: u8 = match self.position(binding) {
            Some(i) => self.assigned[i].1,
            None => {
                return None;
            },
        };
        match self.lowest_free() {
            Some(i) => {
                let ghost before = *self;
                let fresh: u8 = i as u8;
                self.in_use.set(i, true);
                assert(self@.assigned =~= before@.assigned);
                self.put(binding, fresh);
                let ghost mid = *self;
                self.in_use.set(prev as usize, false);
                proof {
                    assert(self@.assigned =~= mid@.assigned);
                    assert(self@ =~= before@.rotate(binding@).0);
                    assert forall|n: Seq<char>| #[trigger]
                        self@.assigned.contains_key(n) implies self@.assigned[n] != prev by {
                        if n != binding@ {
                            assert(before@.assigned.contains_key(n));
                            assert(before@.assigned.contains_key(binding@));
                        }
                    }
                }
                Some((prev, fresh))
            },
            None => None,
        }
    }

    /// Hands a pointer over to another binding.
    ///
    /// On handoff the second finger takes the first one's place; the id does not
    /// change, only its owner. Changing the id would break the finger the game
    /// is tracking.
    pub fn rename(&mut self, from: &str, to: &str) -> (r: Option<u8>)
        requires
            old(self).wf(),
        ensures
            final(self).wf(),
            (final(self)@, r) == old(self)@.rename(from@, to@),
    {
        match self.position(from) {
            Some(i) => {
                let ghost before = *self;
                let id: u8 = self.assigned[i].1;
                proof {
                    self.lemma_entry(i as int);
                }
                let _gone = self.assigned.remove(i);
                proof {
                    PointerPool::lemma_removed(before, *self, i as int);
                    assert(self@.used == before@.used);
                    if self@.assigned.contains_value(id) {
                        let n = choose|n: Seq<char>| self@.assigned.contains_key(n)
                            && #[trigger] self@.assigned[n] == id;
                        assert(before@.assigned.contains_key(n));
                        assert(before@.assigned.contains_key(from@));
                    }
                }
                self.put(to, id);
                assert(self@ =~= before@.rename(from@, to@).0);
                Some(id)
            },
            None => None,
        }
    }

    /// The pointer the binding owns.
    pub fn get(&self, binding: &str) -> (r: Option<u8>)
        requires
            self.wf(),
        ensures
            r == self@.get(binding@),
    {
        match self.position(binding) {
            Some(i) => Some(self.assigned[i].1),
            None => None,
        }
    }

    /// Number of ids in use.
    pub fn active_count(&self) -> (r: usize)
        ensures
            r == count_set(self@.used),
    {
        let mut n: usize = 0;
        let mut i: usize = 0;
        while i < self.in_use.len()
            invariant
                i <= self.in_use@.len(),
                n <= i,
                n == count_set(self.in_use@.take(i as int)),
            decreases self.in_use@.len() - i,
        {
            assert(self.in_use@.take(i + 1).drop_last() == self.in_use@.take(i as int));
            if self.in_use[i] {
                n = n + 1;
            }
            i = i + 1;
        }
        assert(self.in_use@.take(i as int) == self.in_use@);
        n
    }

    /// Whether some binding owns `id`.
    fn is_assigned(&self, id: u8) -> (r: bool)
        requires
            self.wf(),
        ensures
            r == self@.assigned.contains_value(id),
    {
        let mut i: usize = 0;
        while i < self.assigned.len()
            invariant
                self.wf(),
                i <= self.assigned@.len(),
                forall|j: int| 0 <= j < i ==> (#[trigger] self.assigned@[j]).1 != id,
            decreases self.assigned@.len() - i,
        {
            if self.assigned[i].1 == id {
                proof {
                    self.lemma_entry(i as int);
                }
                return true;
            }
            i = i + 1;
        }
        proof {
            if self@.assigned.contains_value(id) {
                let n = choose|n: Seq<char>| self@.assigned.contains_key(n)
                    && #[trigger] self@.assigned[n] == id;
                let k = choose|k: int| entry_of(self.assigned@, n, k);
                assert(entry_of(self.assigned@, n, k));
                self.lemma_entry(k);
            }
        }
        false
    }

    /// Releases every pointer, producing an `Up` for each, so no finger is left
    /// stuck on a profile switch or emergency stop.
    pub fn release_all(&mut self) -> (acts: Vec<TouchAction>)
        requires
            old(self).wf(),
        ensures
            final(self).wf(),
            final(self)@ == PoolView::empty(),
            acts@ == lifts(old(self)@.assigned, MAX_POINTERS as nat),
    {
        let mut acts: Vec<TouchAction> = Vec::new();
        let mut id: u8 = 0;
        while (id as usize) < MAX_POINTERS
            invariant
                self.wf(),
                self@ == old(self)@,
                id <= MAX_POINTERS,
                acts@ == lifts(self@.assigned, id as nat),
            decreases MAX_POINTERS - id,
        {
            if self.is_assigned(id) {
                acts.push(TouchAction::Up { id });
            }
            id = id + 1;
        }
        *self = PointerPool::new();
        acts
    }
}

impl PoolView {
    /// Every id in use has an owner.
    pub open spec fn tight(self) -> bool {
        forall|id: u8|
            id < MAX_POINTERS && #[trigger] self.used[id as int] ==> self.assigned.contains_value(
                id,
            )
    }
}

/// The first free index is free, and everything before it is taken.
pub proof fn lemma_first_free(used: Seq<bool>, i: int)
    requires
        0 <= i <= used.len(),
    ensures
        match first_free_from(used, i) {
            Some(k) => i <= k < used.len() && !used[k] && forall|j: int|
                i <= j < k ==> #[trigger] used[j],
            None => forall|j: int| i <= j < used.len() ==> #[trigger] used[j],
        },
    decreases used.len() - i,
{
    if i < used.len() && used[i] {
        lemma_first_free(used, i + 1);
    }
}

/// Setting a flag that was clear adds one to the count, clearing one takes one away.
pub proof fn lemma_count_update(used: Seq<bool>, i: int, v: bool)
    requires
        0 <= i < used.len(),
    ensures
        count_set(used.update(i, v)) + (if used[i] {
            1int
        } else {
            0
        }) == count_set(used) + (if v {
            1int
        } else {
            0
        }),
    decreases used.len(),
{
    let next = used.update(i, v);
    if i == used.len() - 1 {
        assert(next.drop_last() =~= used.drop_last());
    } else {
        assert(next.drop_last() =~= used.drop_last().update(i, v));
        lemma_count_update(used.drop_last(), i, v);
    }
}

/// The actions of two batches, one after the other.
pub proof fn lemma_fingers_concat(down: Set<u8>, a: Seq<TouchAction>, b: Seq<TouchAction>)
    ensures
        fingers_after(down, a + b) == fingers_after(fingers_after(down, a), b),
    decreases b.len(),
{
    if b.len() == 0 {
        assert(a + b =~= a);
    } else {
        assert((a + b).drop_last() =~= a + b.drop_last());
        assert((a + b).last() == b.last());
        lemma_fingers_concat(down, a, b.drop_last());
    }
}

/// Squeezing a point into the screen changes nothing on an axis on which it lies
/// within, and moves it to the nearer edge on the other.
pub proof fn law_a_point_is_squeezed(x: Num, y: Num)
    ensures
        ({
            let zero = Num { bits: 0 };
            let one = Num { bits: 0x3f80_0000 };
            let p = Norm::new_spec(x, y);
            &&& x.lt(zero) ==> p.x == zero
            &&& one.lt(x) ==> p.x == one
            &&& !x.lt(zero) && !one.lt(x) ==> p.x == x
            &&& y.lt(zero) ==> p.y == zero
            &&& one.lt(y) ==> p.y == one
            &&& !y.lt(zero) && !one.lt(y) ==> p.y == y
        }),
{
    crate::num::lemma_unit_interval();
}

/// A pointer that is handed out is the lowest that was free; from then on it is
/// taken and belongs to the one who asked. Nobody else notices.
pub proof fn law_the_lowest_free_pointer_is_given(p: PoolView, n: Seq<char>)
    requires
        p.ok(),
        !p.assigned.contains_key(n),
        p.acquire(n).1 is Some,
    ensures
        ({
            let (q, id) = p.acquire(n);
            &&& id->0 < MAX_POINTERS
            &&& !p.used[id->0 as int]
            &&& forall|i: int| 0 <= i < id->0 ==> #[trigger] p.used[i]
            &&& q.get(n) == id
            &&& q.used[id->0 as int]
            &&& forall|i: int| 0 <= i < p.used.len() && i != id->0 ==> #[trigger] q.used[i] == p.used[i]
            &&& forall|m: Seq<char>| m != n ==> #[trigger] q.get(m) == p.get(m)
        }),
{
    lemma_first_free(p.used, 0);
}

/// A pointer that is given back is the one that was owned; from then on it is free
/// and its owner has none. Nobody else notices.
pub proof fn law_a_pointer_given_back_is_free(p: PoolView, n: Seq<char>)
    requires
        p.ok(),
    ensures
        ({
            let (q, id) = p.release(n);
            &&& id == p.get(n)
            &&& q.get(n) is None
            &&& id is Some ==> !q.used[id->0 as int]
            &&& forall|i: int|
                0 <= i < p.used.len() && Some(i as u8) != id ==> #[trigger] q.used[i] == p.used[i]
            &&& forall|m: Seq<char>| m != n ==> #[trigger] q.get(m) == p.get(m)
        }),
{
}

/// Rotating and handing over a pointer concern only those who are named: rotation
/// frees the pointer that was owned for the lowest free one, and after a handover
/// the first has none.
pub proof fn law_a_pointer_changes_hands(p: PoolView, n: Seq<char>, m: Seq<char>, k: Seq<char>)
    requires
        p.ok(),
    ensures
        k != n ==> p.rotate(n).0.get(k) == p.get(k),
        match p.rotate(n).1 {
            Some((prev, fresh)) => !p.used[fresh as int] && (forall|i: int|
                0 <= i < fresh ==> #[trigger] p.used[i]) && p.rotate(n).0.used[fresh as int]
                && !p.rotate(n).0.used[prev as int],
            None => p.get(n) is None || forall|i: int| 0 <= i < p.used.len() ==> #[trigger] p.used[i],
        },
        p.rename(n, m).1 == p.get(n),
        p.get(n) is None ==> p.rename(n, m).0 == p,
        p.get(n) is Some && n != m ==> p.rename(n, m).0.get(n) is None,
        k != n && k != m ==> p.rename(n, m).0.get(k) == p.get(k),
{
    lemma_first_free(p.used, 0);
}

/// Asking again for a binding's pointer gives the same one and changes nothing.
pub proof fn law_acquire_is_idempotent(p: PoolView, n: Seq<char>)
    requires
        p.ok(),
    ensures
        p.acquire(n).1 is Some ==> p.acquire(n).0.acquire(n) == p.acquire(n),
        p.acquire(n).1 is None ==> p.acquire(n).0 == p,
{
}

/// Only a full pool refuses, and it refuses only those who own nothing yet.
pub proof fn law_only_a_full_pool_refuses(p: PoolView, n: Seq<char>)
    requires
        p.ok(),
    ensures
        p.acquire(n).1 is None <==> !p.assigned.contains_key(n) && forall|i: int|
            0 <= i < p.used.len() ==> #[trigger] p.used[i],
{
    lemma_first_free(p.used, 0);
}

/// Every operation keeps the pool in order: owned ids are taken and no two
/// bindings share one.
pub proof fn law_operations_keep_the_pool_in_order(p: PoolView, n: Seq<char>, m: Seq<char>)
    requires
        p.ok(),
    ensures
        p.acquire(n).0.ok(),
        p.release(n).0.ok(),
        p.rotate(n).0.ok(),
        p.rename(n, m).0.ok(),
{
    lemma_first_free(p.used, 0);
    let a = p.acquire(n).0;
    assert forall|x: Seq<char>, y: Seq<char>| #[trigger]
        a.assigned.contains_key(x) && #[trigger] a.assigned.contains_key(y) && a.assigned[x]
            == a.assigned[y] implies x == y by {
        if x != n {
            assert(p.assigned.contains_key(x));
        }
        if y != n {
            assert(p.assigned.contains_key(y));
        }
    }
    let r = p.release(n).0;
    assert forall|x: Seq<char>| #[trigger] r.assigned.contains_key(x) implies r.assigned[x]
        < MAX_POINTERS && r.used[r.assigned[x] as int] by {
        assert(p.assigned.contains_key(x));
    }
    assert forall|x: Seq<char>, y: Seq<char>| #[trigger]
        r.assigned.contains_key(x) && #[trigger] r.assigned.contains_key(y) && r.assigned[x]
            == r.assigned[y] implies x == y by {
        assert(p.assigned.contains_key(x) && p.assigned.contains_key(y));
    }
    let t = p.rotate(n).0;
    assert forall|x: Seq<char>| #[trigger] t.assigned.contains_key(x) implies t.assigned[x]
        < MAX_POINTERS && t.used[t.assigned[x] as int] by {
        if x != n {
            assert(p.assigned.contains_key(x));
        }
    }
    assert forall|x: Seq<char>, y: Seq<char>| #[trigger]
        t.assigned.contains_key(x) && #[trigger] t.assigned.contains_key(y) && t.assigned[x]
            == t.assigned[y] implies x == y by {
        if x != n {
            assert(p.assigned.contains_key(x));
        }
        if y != n {
            assert(p.assigned.contains_key(y));
        }
    }
    let q = p.rename(n, m).0;
    assert forall|x: Seq<char>| #[trigger] q.assigned.contains_key(x) implies q.assigned[x]
        < MAX_POINTERS && q.used[q.assigned[x] as int] by {
        if x != m {
            assert(p.assigned.contains_key(x));
        }
    }
    assert forall|x: Seq<char>, y: Seq<char>| #[trigger]
        q.assigned.contains_key(x) && #[trigger] q.assigned.contains_key(y) && q.assigned[x]
            == q.assigned[y] implies x == y by {
        if x != m && p.assigned.contains_key(n) {
            assert(p.assigned.contains_key(x));
        }
        if y != m && p.assigned.contains_key(n) {
            assert(p.assigned.contains_key(y));
        }
    }
}

/// Every operation keeps the pool such that an id is in use exactly if somebody
/// owns it. A handover to somebody who owns another id already is the exception:
/// that other id then belongs to nobody and stays in use.
pub proof fn law_in_use_means_owned(p: PoolView, n: Seq<char>, m: Seq<char>)
    requires
        p.ok(),
        p.tight(),
    ensures
        PoolView::empty().tight(),
        p.acquire(n).0.tight(),
        p.release(n).0.tight(),
        p.rotate(n).0.tight(),
        !p.assigned.contains_key(m) || m == n ==> p.rename(n, m).0.tight(),
        forall|id: u8|
            id < MAX_POINTERS ==> (#[trigger] p.used[id as int] <==> p.assigned.contains_value(id)),
{
    lemma_first_free(p.used, 0);
    assert forall|id: u8| id < MAX_POINTERS implies (#[trigger] p.used[id as int]
        <==> p.assigned.contains_value(id)) by {
        if p.assigned.contains_value(id) {
            let w = choose|w: Seq<char>| p.assigned.contains_key(w) && #[trigger] p.assigned[w] == id;
            assert(p.assigned.contains_key(w));
        }
    }
    let a = p.acquire(n).0;
    assert forall|id: u8| id < MAX_POINTERS && #[trigger] a.used[id as int] implies a.assigned.contains_value(
    id) by {
        lemma_owner_stays(p, a, n, id);
    }
    let r = p.release(n).0;
    assert forall|id: u8| id < MAX_POINTERS && #[trigger] r.used[id as int] implies r.assigned.contains_value(
    id) by {
        lemma_owner_stays(p, r, n, id);
    }
    let t = p.rotate(n).0;
    assert forall|id: u8| id < MAX_POINTERS && #[trigger] t.used[id as int] implies t.assigned.contains_value(
    id) by {
        lemma_owner_stays(p, t, n, id);
    }
    if !p.assigned.contains_key(m) || m == n {
        let q = p.rename(n, m).0;
        assert forall|id: u8| id < MAX_POINTERS && #[trigger] q.used[id as int] implies q.assigned.contains_value(
        id) by {
            assert(p.used[id as int]);
            let w = choose|w: Seq<char>| p.assigned.contains_key(w) && #[trigger] p.assigned[w] == id;
            assert(p.assigned.contains_key(w));
            if p.assigned.contains_key(n) {
                if w == n {
                    assert(q.assigned.contains_key(m) && q.assigned[m] == id);
                } else {
                    assert(q.assigned.contains_key(w) && q.assigned[w] == id);
                }
            }
        }
    }
}

/// Where only the entry of `n` changes, everybody else still owns what they did.
proof fn lemma_owner_stays(p: PoolView, q: PoolView, n: Seq<char>, id: u8)
    requires
        p.tight(),
        id < MAX_POINTERS,
        q.used[id as int],
        forall|w: Seq<char>| w != n && #[trigger] p.assigned.contains_key(w)
            ==> q.assigned.contains_key(w) && q.assigned[w] == p.assigned[w],
        (p.used[id as int] && p.get(n) != Some(id)) || q.get(n) == Some(id),
    ensures
        q.assigned.contains_value(id),
{
    if q.get(n) == Some(id) {
        assert(q.assigned.contains_key(n) && q.assigned[n] == id);
    } else {
        let w = choose|w: Seq<char>| p.assigned.contains_key(w) && #[trigger] p.assigned[w] == id;
        assert(p.assigned.contains_key(w));
        assert(q.assigned[w] == id);
    }
}

/// The owners of ids below `k`.
spec fn owners_below(p: PoolView, k: int) -> Set<Seq<char>> {
    p.assigned.dom().filter(|n: Seq<char>| p.assigned[n] < k)
}

proof fn lemma_owners_below(p: PoolView, k: int)
    requires
        p.ok(),
        p.tight(),
        0 <= k <= MAX_POINTERS,
    ensures
        owners_below(p, k).finite(),
        owners_below(p, k).len() == count_set(p.used.take(k)),
    decreases k,
{
    if k == 0 {
        assert(owners_below(p, 0) =~= Set::<Seq<char>>::empty());
    } else {
        lemma_owners_below(p, k - 1);
        assert(p.used.take(k).drop_last() =~= p.used.take(k - 1));
        let before = owners_below(p, k - 1);
        if p.used[(k - 1) as u8 as int] {
            assert(p.assigned.contains_value((k - 1) as u8));
            let w = choose|w: Seq<char>| p.assigned.contains_key(w) && #[trigger] p.assigned[w]
                == (k - 1) as u8;
            assert(p.assigned.contains_key(w));
            assert forall|n: Seq<char>| #[trigger] owners_below(p, k).contains(n) == before.insert(
                w,
            ).contains(n) by {
                if p.assigned.contains_key(n) && p.assigned[n] == k - 1 {
                    assert(p.assigned.contains_key(w) && p.assigned.contains_key(n));
                }
            }
            assert(owners_below(p, k) =~= before.insert(w));
        } else {
            assert forall|n: Seq<char>| #[trigger] owners_below(p, k).contains(n)
                == before.contains(n) by {
                if p.assigned.contains_key(n) {
                    assert(p.used[p.assigned[n] as int]);
                }
            }
            assert(owners_below(p, k) =~= before);
        }
    }
}

/// As many ids are in use as there are owners.
pub proof fn law_the_count_is_the_number_of_owners(p: PoolView)
    requires
        p.ok(),
        p.tight(),
    ensures
        p.assigned.dom().finite(),
        count_set(p.used) == p.assigned.dom().len(),
{
    lemma_owners_below(p, MAX_POINTERS as int);
    assert(p.used.take(MAX_POINTERS as int) =~= p.used);
    assert forall|n: Seq<char>| #[trigger] p.assigned.dom().contains(n) implies owners_below(
        p,
        MAX_POINTERS as int,
    ).contains(n) by {
        assert(p.assigned.contains_key(n));
    }
    assert(owners_below(p, MAX_POINTERS as int) =~= p.assigned.dom());
}

/// Two bindings that both hold a pointer hold different ones.
pub proof fn law_bindings_never_share_a_pointer(p: PoolView, n: Seq<char>, m: Seq<char>)
    requires
        p.ok(),
        n != m,
        p.acquire(n).1 is Some,
        p.acquire(n).0.acquire(m).1 is Some,
    ensures
        p.acquire(n).1 != p.acquire(n).0.acquire(m).1,
{
    law_operations_keep_the_pool_in_order(p, n, m);
    lemma_first_free(p.used, 0);
    lemma_first_free(p.acquire(n).0.used, 0);
}

/// A released id goes back to the pool: taking a pointer and giving it back
/// leaves the pool as it was, so the next taker gets the same id.
pub proof fn law_release_undoes_acquire(p: PoolView, n: Seq<char>)
    requires
        p.ok(),
        !p.assigned.contains_key(n),
        p.acquire(n).1 is Some,
    ensures
        p.acquire(n).0.release(n) == (p, p.acquire(n).1),
{
    lemma_first_free(p.used, 0);
    let back = p.acquire(n).0.release(n).0;
    assert(back.assigned =~= p.assigned);
    assert(back.used =~= p.used);
}

/// Rotation yields a different id for the binding and keeps the number of
/// fingers; a pool with no free id keeps the old one.
pub proof fn law_rotation_changes_the_pointer(p: PoolView, n: Seq<char>)
    requires
        p.ok(),
    ensures
        match p.rotate(n).1 {
            Some((prev, fresh)) => prev != fresh && p.get(n) == Some(prev) && p.rotate(n).0.get(n)
                == Some(fresh) && count_set(p.rotate(n).0.used) == count_set(p.used),
            None => p.rotate(n).0 == p,
        },
{
    lemma_first_free(p.used, 0);
    match p.rotate(n).1 {
        Some((prev, fresh)) => {
            lemma_count_update(p.used, fresh as int, true);
            lemma_count_update(p.used.update(fresh as int, true), prev as int, false);
        },
        None => {},
    }
}

/// A handover moves the id to its new owner unchanged.
pub proof fn law_rename_keeps_the_id(p: PoolView, from: Seq<char>, to: Seq<char>)
    requires
        p.ok(),
    ensures
        p.assigned.contains_key(from) ==> p.rename(from, to).0.get(to) == p.get(from) && p.rename(
            from,
            to,
        ).0.used == p.used,
{
}

/// Lifting everything leaves no finger on screen, and lifts each owned one once.
pub proof fn law_release_all_lifts_every_finger(p: PoolView)
    requires
        p.ok(),
        p.tight(),
    ensures
        fingers_after(p.down(), lifts(p.assigned, MAX_POINTERS as nat)) == Set::<u8>::empty(),
        lifts(p.assigned, MAX_POINTERS as nat).len() == count_set(p.used),
{
    lemma_lifts(p, MAX_POINTERS as nat);
    assert(p.used.take(MAX_POINTERS as int) =~= p.used);
    assert(fingers_after(p.down(), lifts(p.assigned, MAX_POINTERS as nat)) =~= Set::<u8>::empty());
}

/// The first `n` lifts take away exactly the fingers below `n`.
proof fn lemma_lifts(p: PoolView, n: nat)
    requires
        p.ok(),
        p.tight(),
        n <= MAX_POINTERS,
    ensures
        forall|id: u8| #[trigger]
            fingers_after(p.down(), lifts(p.assigned, n)).contains(id) == (p.down().contains(id)
                && id >= n),
        lifts(p.assigned, n).len() == count_set(p.used.take(n as int)),
    decreases n,
{
    if n > 0 {
        let k = (n - 1) as nat;
        lemma_lifts(p, k);
        let rest = lifts(p.assigned, k);
        assert(p.used.take(n as int).drop_last() =~= p.used.take(k as int));
        if p.assigned.contains_value(k as u8) {
            let who = choose|w: Seq<char>| p.assigned.contains_key(w) && #[trigger] p.assigned[w]
                == k as u8;
            assert(p.assigned.contains_key(who));
            assert(rest.push(TouchAction::Up { id: k as u8 }).drop_last() =~= rest);
        } else {
            assert(!p.used[k as u8 as int]);
        }
        assert forall|id: u8| #[trigger]
            fingers_after(p.down(), lifts(p.assigned, n)).contains(id) == (p.down().contains(id)
                && id >= n) by {
            assert(fingers_after(p.down(), rest).contains(id) == (p.down().contains(id) && id
                >= k));
        }
    }
}

} // verus!
