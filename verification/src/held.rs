//! The set of triggers that are held down.

use crate::engine::TriggerKind;
use vstd::prelude::*;

verus! {

/// Triggers currently held, without repetition.
#[derive(Debug)]
pub struct Held {
    items: Vec<TriggerKind>,
}

impl View for Held {
    type V = Set<TriggerKind>;

    closed spec fn view(&self) -> Set<TriggerKind> {
        Set::new(|t: TriggerKind| self.items@.contains(t))
    }
}

impl Held {
    /// No trigger is listed twice.
    pub closed spec fn wf(&self) -> bool {
        self.items@.no_duplicates()
    }

    pub fn new() -> (r: Held)
        ensures
            r.wf(),
            r@ == Set::<TriggerKind>::empty(),
    {
        let r = Held { items: Vec::new() };
        assert(r@ =~= Set::<TriggerKind>::empty());
        r
    }

    fn position(&self, t: TriggerKind) -> (r: Option<usize>)
        ensures
            match r {
                Some(i) => i < self.items@.len() && self.items@[i as int] == t,
                None => !self@.contains(t),
            },
    {
        let mut i: usize = 0;
        while i < self.items.len()
            invariant
                i <= self.items@.len(),
                forall|j: int| 0 <= j < i ==> self.items@[j] != t,
            decreases self.items@.len() - i,
        {
            if self.items[i] == t {
                return Some(i);
            }
            i = i + 1;
        }
        None
    }

    pub fn contains(&self, t: TriggerKind) -> (r: bool)
        ensures
            r == self@.contains(t),
    {
        match self.position(t) {
            Some(i) => {
                assert(self.items@.contains(self.items@[i as int]));
                true
            },
            None => false,
        }
    }

    /// Adds `t`; false if it was held already.
    pub fn insert(&mut self, t: TriggerKind) -> (fresh: bool)
        requires
            old(self).wf(),
        ensures
            final(self).wf(),
            final(self)@ == old(self)@.insert(t),
            fresh == !old(self)@.contains(t),
    {
        let ghost before = self.items@;
        if self.contains(t) {
            assert(self@ =~= old(self)@.insert(t));
            return false;
        }
        self.items.push(t);
        proof {
            let s = self.items@;
            assert(s[before.len() as int] == t);
            assert forall|x: TriggerKind| s.contains(x) == (before.contains(x) || x == t) by {
                if before.contains(x) {
                    let k = choose|k: int| 0 <= k < before.len() && before[k] == x;
                    assert(s[k] == x);
                }
                if s.contains(x) && x != t {
                    let k = choose|k: int| 0 <= k < s.len() && s[k] == x;
                    assert(before[k] == x);
                }
            }
            assert(self@ =~= old(self)@.insert(t));
        }
        true
    }

    /// Takes `t` out; false if it was not held.
    pub fn remove(&mut self, t: TriggerKind) -> (was: bool)
        requires
            old(self).wf(),
        ensures
            final(self).wf(),
            final(self)@ == old(self)@.remove(t),
            was == old(self)@.contains(t),
    {
        let ghost before = self.items@;
        match self.position(t) {
            Some(i) => {
                let _gone = self.items.remove(i);
                proof {
                    let s = self.items@;
                    assert(before.contains(t));
                    assert forall|x: TriggerKind| s.contains(x) == (before.contains(x) && x != t) by {
                        if s.contains(x) {
                            let k = choose|k: int| 0 <= k < s.len() && s[k] == x;
                            if k < i {
                                assert(before[k] == x);
                            } else {
                                assert(before[k + 1] == x);
                            }
                        }
                        if before.contains(x) && x != t {
                            let k = choose|k: int| 0 <= k < before.len() && before[k] == x;
                            if k < i {
                                assert(s[k] == x);
                            } else {
                                assert(s[k - 1] == x);
                            }
                        }
                    }
                    assert(self@ =~= old(self)@.remove(t));
                }
                true
            },
            None => {
                assert(self@ =~= old(self)@.remove(t));
                false
            },
        }
    }

    /// Forgets every trigger.
    pub fn clear(&mut self)
        ensures
            final(self).wf(),
            final(self)@ == Set::<TriggerKind>::empty(),
    {
        self.items.clear();
        assert(self@ =~= Set::<TriggerKind>::empty());
    }
}

} // verus!
