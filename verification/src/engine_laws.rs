//! What the mapping engine promises as a whole.
//!
//! The most important promise is that no finger is ever left on screen that the
//! engine has forgotten about, or forgotten that is still there: the actions it
//! hands out, applied to the fingers on screen, always leave exactly those that
//! its pool has in use.

use crate::engine::{
    ActiveSwipe, Aim, AimFigures, EngineView, EventFigures, Figures, InputEvent, Motion, Outcome,
    SwipeFigures, TriggerKind,
};
use crate::profile::Binding;
use crate::touch::{Norm, PoolView, TouchAction};
use vstd::prelude::*;

verus! {

/// A gesture's finger is the one the pool gave its binding.
pub open spec fn swipe_ok(p: PoolView, b: Seq<(String, Binding)>, s: ActiveSwipe) -> bool {
    s.index < b.len() && b[s.index as int].1 is Swipe && p.get(b[s.index as int].0@) == Some(s.id)
}

/// Every gesture listed holds its finger, and none is listed twice.
pub open spec fn swipes_ok(p: PoolView, b: Seq<(String, Binding)>, s: Seq<ActiveSwipe>) -> bool {
    &&& forall|k: int| 0 <= k < s.len() ==> #[trigger] swipe_ok(p, b, s[k])
    &&& distinct(s)
}

/// No two gestures belong to the same binding.
pub open spec fn distinct(s: Seq<ActiveSwipe>) -> bool {
    forall|j: int, k: int| 0 <= j < k < s.len() ==> (#[trigger] s[j]).index != (#[trigger] s[k]).index
}

/// No binding carries the name reserved for the second aim finger.
pub open spec fn unshadowed(b: Seq<(String, Binding)>) -> bool {
    forall|i: int, j: int|
        0 <= i < b.len() && 0 <= j < b.len() ==> (#[trigger] b[i]).0@
            != crate::engine::second_name((#[trigger] b[j]).0@)
}

/// A state in which every finger is accounted for.
pub open spec fn sane(b: Seq<(String, Binding)>, v: EngineView) -> bool {
    &&& crate::by_name::sorted_names(b)
    &&& unshadowed(b)
    &&& v.pool.ok()
    &&& v.pool.tight()
    &&& swipes_ok(v.pool, b, v.swipes)
    &&& b.len() <= usize::MAX
    &&& match v.stick {
        Some(i) => 0 <= i < b.len(),
        None => true,
    }
}

/// The actions lead from the fingers of `v` to those of the outcome.
pub open spec fn accounts(b: Seq<(String, Binding)>, v: EngineView, o: Outcome) -> bool {
    &&& sane(b, o.0)
    &&& crate::touch::fingers_after(v.pool.down(), o.1) == o.0.pool.down()
}

/// Two steps in a row account for every finger if each of them does.
proof fn lemma_then(b: Seq<(String, Binding)>, v: EngineView, p: Outcome, q: Outcome)
    requires
        accounts(b, v, p),
        accounts(b, p.0, q),
    ensures
        accounts(b, v, (q.0, p.1 + q.1)),
{
    crate::touch::lemma_fingers_concat(v.pool.down(), p.1, q.1);
}

proof fn lemma_one_down(d: Set<u8>, id: u8, at: Norm)
    ensures
        crate::touch::fingers_after(d, seq![TouchAction::Down { id, at }]) == d.insert(id),
{
    let s = seq![TouchAction::Down { id, at }];
    assert(s.drop_last() =~= Seq::<TouchAction>::empty());
    assert(s.last() == TouchAction::Down { id, at });
    reveal_with_fuel(crate::touch::fingers_after, 2);
}

proof fn lemma_one_up(d: Set<u8>, id: u8)
    ensures
        crate::touch::fingers_after(d, seq![TouchAction::Up { id }]) == d.remove(id),
{
    let s = seq![TouchAction::Up { id }];
    assert(s.drop_last() =~= Seq::<TouchAction>::empty());
    assert(s.last() == TouchAction::Up { id });
    reveal_with_fuel(crate::touch::fingers_after, 2);
}

proof fn lemma_one_move(d: Set<u8>, id: u8, at: Norm)
    ensures
        crate::touch::fingers_after(d, seq![TouchAction::Move { id, at }]) == d,
{
    let s = seq![TouchAction::Move { id, at }];
    assert(s.drop_last() =~= Seq::<TouchAction>::empty());
    assert(s.last() == TouchAction::Move { id, at });
    reveal_with_fuel(crate::touch::fingers_after, 2);
}

/// Taking a pointer puts one finger down and leaves every other owner alone.
proof fn lemma_acquire(p: PoolView, n: Seq<char>)
    requires
        p.ok(),
        p.tight(),
    ensures
        p.acquire(n).0.ok(),
        p.acquire(n).0.tight(),
        match p.acquire(n).1 {
            Some(id) => p.acquire(n).0.down() == p.down().insert(id) && p.acquire(n).0.get(n)
                == Some(id),
            None => p.acquire(n).0 == p,
        },
        forall|m: Seq<char>| m != n ==> #[trigger] p.acquire(n).0.get(m) == p.get(m),
{
    crate::touch::law_operations_keep_the_pool_in_order(p, n, n);
    crate::touch::lemma_first_free(p.used, 0);
    let q = p.acquire(n).0;
    if let Some(id) = p.acquire(n).1 {
        assert(q.assigned.contains_key(n) && q.assigned[n] == id);
        assert forall|x: u8| x < crate::touch::MAX_POINTERS && #[trigger] q.used[x as int] implies q.assigned.contains_value(
        x) by {
            if x == id {
                assert(q.assigned[n] == x);
            } else {
                assert(p.used[x as int]);
                let w = choose|w: Seq<char>| p.assigned.contains_key(w) && #[trigger] p.assigned[w] == x;
                assert(p.assigned.contains_key(w));
                assert(q.assigned.contains_key(w) && q.assigned[w] == x);
            }
        }
        assert(q.down() =~= p.down().insert(id));
    }
}

/// Giving a pointer back lifts one finger and leaves every other owner alone.
proof fn lemma_release(p: PoolView, n: Seq<char>)
    requires
        p.ok(),
        p.tight(),
    ensures
        p.release(n).0.ok(),
        p.release(n).0.tight(),
        match p.release(n).1 {
            Some(id) => p.release(n).0.down() == p.down().remove(id) && p.get(n) == Some(id),
            None => p.release(n).0 == p && p.get(n) is None,
        },
        p.release(n).0.get(n) is None,
        forall|m: Seq<char>| m != n ==> #[trigger] p.release(n).0.get(m) == p.get(m),
{
    crate::touch::law_operations_keep_the_pool_in_order(p, n, n);
    let q = p.release(n).0;
    if let Some(id) = p.release(n).1 {
        assert forall|x: u8| x < crate::touch::MAX_POINTERS && #[trigger] q.used[x as int] implies q.assigned.contains_value(
        x) by {
            assert(p.used[x as int]);
            let w = choose|w: Seq<char>| p.assigned.contains_key(w) && #[trigger] p.assigned[w] == x;
            assert(p.assigned.contains_key(w));
            assert(q.assigned.contains_key(w) && q.assigned[w] == x);
        }
        assert(q.down() =~= p.down().remove(id));
    }
}

/// Names of different bindings differ.
proof fn lemma_names_differ(b: Seq<(String, Binding)>, i: int, j: int)
    requires
        crate::by_name::sorted_names(b),
        0 <= i < b.len(),
        0 <= j < b.len(),
        i != j,
    ensures
        b[i].0@ != b[j].0@,
{
    if b[i].0@ == b[j].0@ {
        assert(crate::by_name::named(b, b[i].0@, i));
        assert(crate::by_name::named(b, b[i].0@, j));
        crate::by_name::lemma_named_once(b, b[i].0@, i, j);
    }
}

/// Gestures keep their fingers when only other owners change.
proof fn lemma_swipes_survive(
    p: PoolView,
    q: PoolView,
    b: Seq<(String, Binding)>,
    s: Seq<ActiveSwipe>,
    n: Seq<char>,
)
    requires
        swipes_ok(p, b, s),
        forall|m: Seq<char>| m != n ==> #[trigger] q.get(m) == p.get(m),
        forall|k: int| 0 <= k < s.len() ==> b[(#[trigger] s[k]).index as int].0@ != n,
    ensures
        swipes_ok(q, b, s),
{
    assert forall|k: int| 0 <= k < s.len() implies #[trigger] swipe_ok(q, b, s[k]) by {
        assert(swipe_ok(p, b, s[k]));
        assert(b[s[k].index as int].0@ != n);
    }
}

/// The name of a binding that is no swipe is no gesture's name.
proof fn lemma_not_a_gesture(p: PoolView, b: Seq<(String, Binding)>, s: Seq<ActiveSwipe>, i: int)
    requires
        swipes_ok(p, b, s),
        crate::by_name::sorted_names(b),
        0 <= i < b.len(),
        !(b[i].1 is Swipe),
    ensures
        forall|k: int| 0 <= k < s.len() ==> b[(#[trigger] s[k]).index as int].0@ != b[i].0@,
{
    assert forall|k: int| 0 <= k < s.len() implies b[(#[trigger] s[k]).index as int].0@ != b[i].0@ by {
        assert(swipe_ok(p, b, s[k]));
        lemma_names_differ(b, s[k].index as int, i);
    }
}

/// Taking a pointer for a binding that is no swipe.
proof fn lemma_take(b: Seq<(String, Binding)>, v: EngineView, i: int, at: Norm)
    requires
        sane(b, v),
        0 <= i < b.len(),
        !(b[i].1 is Swipe),
    ensures
        accounts(
            b,
            v,
            (
                EngineView { pool: v.pool.acquire(b[i].0@).0, ..v },
                crate::engine::press_at(v.pool.acquire(b[i].0@).1, at),
            ),
        ),
{
    lemma_acquire(v.pool, b[i].0@);
    lemma_not_a_gesture(v.pool, b, v.swipes, i);
    lemma_swipes_survive(v.pool, v.pool.acquire(b[i].0@).0, b, v.swipes, b[i].0@);
    if let Some(id) = v.pool.acquire(b[i].0@).1 {
        lemma_one_down(v.pool.down(), id, at);
    }
}

/// Giving back the pointer of a binding that is no swipe.
proof fn lemma_give(b: Seq<(String, Binding)>, v: EngineView, i: int)
    requires
        sane(b, v),
        0 <= i < b.len(),
        !(b[i].1 is Swipe),
    ensures
        accounts(
            b,
            v,
            (
                EngineView { pool: v.pool.release(b[i].0@).0, ..v },
                crate::engine::lift(v.pool.release(b[i].0@).1),
            ),
        ),
{
    lemma_release(v.pool, b[i].0@);
    lemma_not_a_gesture(v.pool, b, v.swipes, i);
    lemma_swipes_survive(v.pool, v.pool.release(b[i].0@).0, b, v.swipes, b[i].0@);
    if let Some(id) = v.pool.release(b[i].0@).1 {
        lemma_one_up(v.pool.down(), id);
    }
}

proof fn lemma_steer(b: Seq<(String, Binding)>, v: EngineView, i: int, at: Norm)
    requires
        sane(b, v),
        0 <= i < b.len(),
    ensures
        accounts(b, v, v.steer(b, i, at)),
{
    if b[i].1 is Joystick {
        lemma_take(b, v, i, at);
        if v.pushes(b[i].1) {
            lemma_acquire(v.pool, b[i].0@);
            let o = v.steer(b, i, at);
            if let Some(id) = v.pool.acquire(b[i].0@).1 {
                let c = b[i].1->center;
                lemma_one_down(v.pool.down(), id, c);
                let to = v.stick_spot(b[i].1, at);
                lemma_one_move(v.pool.down(), id, to);
                assert(o.0.pool == v.pool.acquire(b[i].0@).0);
                assert(swipes_ok(o.0.pool, b, o.0.swipes));
                if v.pool.get(b[i].0@) is None {
                    assert(o.1 == seq![TouchAction::Down { id, at: c }]);
                } else {
                    assert(o.1 == seq![TouchAction::Move { id, at: to }]);
                }
            }
        }
    }
}

proof fn lemma_steer_pending(b: Seq<(String, Binding)>, v: EngineView, at: Norm)
    requires
        sane(b, v),
    ensures
        accounts(b, v, v.steer_pending(b, at)),
{
    reveal(EngineView::steer_pending);
    if let Some(i) = v.stick {
        let w = EngineView { stick: None, ..v };
        lemma_steer(b, w, i, at);
    }
}

proof fn lemma_reclaim(b: Seq<(String, Binding)>, v: EngineView, n: int)
    requires
        sane(b, v),
        n <= b.len(),
    ensures
        accounts(b, v, v.reclaimed(b, n)),
    decreases n,
{
    if n > 0 {
        lemma_reclaim(b, v, n - 1);
        let (w, acts) = v.reclaimed(b, n - 1);
        if crate::engine::hold_trigger(b[n - 1].1) is Some {
            lemma_give(b, w, n - 1);
            let (pool, id) = w.pool.release(b[n - 1].0@);
            lemma_then(
                b,
                v,
                (w, acts),
                (EngineView { pool, ..w }, crate::engine::lift(id)),
            );
        }
    }
}

/// Every gesture of a list is one of the first `n` gestures of `s`.
pub open spec fn drawn_from(t: Seq<ActiveSwipe>, s: Seq<ActiveSwipe>, n: int) -> bool {
    forall|x: int|
        0 <= x < t.len() ==> exists|k: int| 0 <= k < n && s[k].index == (#[trigger] t[x]).index
}

/// Splitting by group loses no property of the gestures.
proof fn lemma_split(
    p: PoolView,
    b: Seq<(String, Binding)>,
    s: Seq<ActiveSwipe>,
    g: Option<Seq<char>>,
    n: int,
)
    requires
        swipes_ok(p, b, s),
        0 <= n <= s.len(),
    ensures
        swipes_ok(p, b, crate::engine::in_group(b, s, g, n)),
        swipes_ok(p, b, crate::engine::outside_group(b, s, g, n)),
        drawn_from(crate::engine::in_group(b, s, g, n), s, n),
        drawn_from(crate::engine::outside_group(b, s, g, n), s, n),
        forall|x: int, y: int|
            0 <= x < crate::engine::in_group(b, s, g, n).len() && 0 <= y
                < crate::engine::outside_group(b, s, g, n).len() ==> (
            #[trigger] crate::engine::in_group(b, s, g, n)[x]).index != (
            #[trigger] crate::engine::outside_group(b, s, g, n)[y]).index,
    decreases n,
{
    if n > 0 {
        lemma_split(p, b, s, g, n - 1);
        let i0 = crate::engine::in_group(b, s, g, n - 1);
        let o0 = crate::engine::outside_group(b, s, g, n - 1);
        let i1 = crate::engine::in_group(b, s, g, n);
        let o1 = crate::engine::outside_group(b, s, g, n);
        let x0 = s[n - 1];
        assert(swipe_ok(p, b, s[n - 1]));
        assert forall|x: int| 0 <= x < i0.len() implies (#[trigger] i0[x]).index != x0.index by {
            let k = choose|k: int| 0 <= k < n - 1 && s[k].index == i0[x].index;
            assert(s[k].index != s[n - 1].index);
        }
        assert forall|x: int| 0 <= x < o0.len() implies (#[trigger] o0[x]).index != x0.index by {
            let k = choose|k: int| 0 <= k < n - 1 && s[k].index == o0[x].index;
            assert(s[k].index != s[n - 1].index);
        }
        assert forall|x: int| 0 <= x < i1.len() implies #[trigger] swipe_ok(p, b, i1[x]) by {
            if x < i0.len() {
                assert(swipe_ok(p, b, i0[x]));
            }
        }
        assert forall|x: int| 0 <= x < o1.len() implies #[trigger] swipe_ok(p, b, o1[x]) by {
            if x < o0.len() {
                assert(swipe_ok(p, b, o0[x]));
            }
        }
        assert forall|x: int| 0 <= x < i1.len() implies exists|k: int|
            0 <= k < n && s[k].index == (#[trigger] i1[x]).index by {
            if x < i0.len() {
                let k = choose|k: int| 0 <= k < n - 1 && s[k].index == i0[x].index;
                assert(s[k].index == i1[x].index);
            } else {
                assert(s[n - 1].index == i1[x].index);
            }
        }
        assert forall|x: int| 0 <= x < o1.len() implies exists|k: int|
            0 <= k < n && s[k].index == (#[trigger] o1[x]).index by {
            if x < o0.len() {
                let k = choose|k: int| 0 <= k < n - 1 && s[k].index == o0[x].index;
                assert(s[k].index == o1[x].index);
            } else {
                assert(s[n - 1].index == o1[x].index);
            }
        }
    }
}

/// Gestures that give their fingers back lift exactly those, and the others keep theirs.
proof fn lemma_released(
    p: PoolView,
    b: Seq<(String, Binding)>,
    gone: Seq<ActiveSwipe>,
    kept: Seq<ActiveSwipe>,
)
    requires
        p.ok(),
        p.tight(),
        crate::by_name::sorted_names(b),
        swipes_ok(p, b, gone),
        swipes_ok(p, b, kept),
        forall|x: int, y: int|
            0 <= x < gone.len() && 0 <= y < kept.len() ==> (#[trigger] gone[x]).index != (
            #[trigger] kept[y]).index,
    ensures
        crate::engine::released(p, b, gone).ok(),
        crate::engine::released(p, b, gone).tight(),
        swipes_ok(crate::engine::released(p, b, gone), b, kept),
        crate::touch::fingers_after(p.down(), crate::engine::swipe_lifts(gone))
            == crate::engine::released(p, b, gone).down(),
    decreases gone.len(),
{
    if gone.len() > 0 {
        let rest = gone.drop_last();
        let last = gone.last();
        let with = kept.push(last);
        assert(swipe_ok(p, b, gone[gone.len() - 1]));
        assert forall|k: int| 0 <= k < rest.len() implies #[trigger] swipe_ok(p, b, rest[k]) by {
            assert(swipe_ok(p, b, gone[k]));
        }
        assert forall|k: int| 0 <= k < with.len() implies #[trigger] swipe_ok(p, b, with[k]) by {
            if k < kept.len() {
                assert(swipe_ok(p, b, kept[k]));
            }
        }
        assert forall|j: int, k: int| 0 <= j < k < rest.len() implies (#[trigger] rest[j]).index
            != (#[trigger] rest[k]).index by {
            assert(gone[j].index != gone[k].index);
        }
        assert forall|j: int, k: int| 0 <= j < k < with.len() implies (#[trigger] with[j]).index
            != (#[trigger] with[k]).index by {
            if k < kept.len() {
                assert(kept[j].index != kept[k].index);
            } else {
                assert(gone[gone.len() - 1].index != kept[j].index);
            }
        }
        assert forall|x: int, y: int| 0 <= x < rest.len() && 0 <= y < with.len() implies (
        #[trigger] rest[x]).index != (#[trigger] with[y]).index by {
            if y < kept.len() {
                assert(gone[x].index != kept[y].index);
            } else {
                assert(gone[x].index != gone[gone.len() - 1].index);
            }
        }
        lemma_released(p, b, rest, with);
        let q = crate::engine::released(p, b, rest);
        let n = b[last.index as int].0@;
        assert(swipe_ok(q, b, with[kept.len() as int]));
        lemma_release(q, n);
        let r = q.release(n).0;
        assert forall|k: int| 0 <= k < kept.len() implies #[trigger] swipe_ok(r, b, kept[k]) by {
            assert(swipe_ok(q, b, with[k]));
            assert(with[k].index != with[kept.len() as int].index);
            lemma_names_differ(b, kept[k].index as int, last.index as int);
        }
        let l0 = crate::engine::swipe_lifts(rest);
        let l1 = crate::engine::swipe_lifts(gone);
        assert(l1.drop_last() =~= l0);
        assert(l1.last() == TouchAction::Up { id: last.id });
    }
}

proof fn lemma_start_swipe(b: Seq<(String, Binding)>, v: EngineView, i: int)
    requires
        sane(b, v),
        0 <= i < b.len(),
    ensures
        accounts(b, v, v.start_swipe(b, i)),
{
    if b[i].1 is Swipe && !(exists|k: int|
        0 <= k < v.swipes.len() && (#[trigger] v.swipes[k]).index == i) {
        let g = b[i].1.group_spec();
        let n = v.swipes.len() as int;
        let gone = crate::engine::in_group(b, v.swipes, g, n);
        let kept = crate::engine::outside_group(b, v.swipes, g, n);
        lemma_split(v.pool, b, v.swipes, g, n);
        lemma_released(v.pool, b, gone, kept);
        let q = crate::engine::released(v.pool, b, gone);
        let name = b[i].0@;
        lemma_acquire(q, name);
        let r = q.acquire(name).0;
        let o = v.start_swipe(b, i);
        assert forall|k: int| 0 <= k < kept.len() implies #[trigger] swipe_ok(r, b, kept[k]) && kept[k].index != i by {
            assert(swipe_ok(q, b, kept[k]));
            let m = choose|m: int| 0 <= m < n && v.swipes[m].index == kept[k].index;
            assert(v.swipes[m].index != i);
            lemma_names_differ(b, kept[k].index as int, i);
        }
        if let Some(id) = q.acquire(name).1 {
            let s1 = o.0.swipes;
            assert forall|k: int| 0 <= k < s1.len() implies #[trigger] swipe_ok(r, b, s1[k]) by {
                if k < kept.len() {
                    assert(swipe_ok(r, b, kept[k]));
                }
            }
            assert forall|j: int, k: int| 0 <= j < k < s1.len() implies (#[trigger] s1[j]).index
                != (#[trigger] s1[k]).index by {
                assert(swipe_ok(r, b, kept[j]));
                if k < kept.len() {
                    assert(kept[j].index != kept[k].index);
                }
            }
            let l = crate::engine::swipe_lifts(gone);
            let f = b[i].1->from;
            assert(o.1.drop_last() =~= l);
            assert(o.1.last() == TouchAction::Down { id, at: f });
        }
    }
}

/// An event accounts for every finger.
pub proof fn law_events_account_for_every_finger(
    b: Seq<(String, Binding)>,
    v: EngineView,
    ev: InputEvent,
    f: EventFigures,
)
    requires
        sane(b, v),
    ensures
        accounts(b, v, v.handled(b, ev, f)),
{
    if v.enabled {
        match ev {
            InputEvent::Press(t) => {
                let w = EngineView { held: v.held.insert(t), ..v };
                lemma_owner_range(b, t, 0);
                if let Some(i) = crate::engine::owner_from(b, t, 0) {
                    match b[i].1 {
                        Binding::Tap { at, .. } => {
                            lemma_take(b, w, i, at);
                        },
                        Binding::Toggle { at, .. } => {
                            lemma_take(b, w, i, at);
                        },
                        Binding::Joystick { .. } => {
                            lemma_steer(b, w, i, f.stick);
                        },
                        Binding::Aim { origin, .. } => {
                            lemma_take(b, w, i, origin);
                        },
                        Binding::Swipe { .. } => {
                            lemma_start_swipe(b, w, i);
                        },
                    }
                }
            },
            InputEvent::Release(t) => {
                let w = EngineView { held: v.held.remove(t), ..v };
                lemma_owner_range(b, t, 0);
                if let Some(i) = crate::engine::owner_from(b, t, 0) {
                    match b[i].1 {
                        Binding::Joystick { .. } => {
                            lemma_steer(b, w, i, f.stick);
                            let (x, acts) = w.steer(b, i, f.stick);
                            lemma_give(b, x, i);
                            if acts.len() == 0 {
                                assert(acts =~= Seq::<TouchAction>::empty());
                                assert(x.pool.down() == w.pool.down());
                            }
                        },
                        Binding::Swipe { .. } => {},
                        _ => {
                            lemma_give(b, w, i);
                        },
                    }
                }
            },
            InputEvent::MouseMove { .. } => {},
        }
    }
}

/// A trigger's owner is one of the bindings.
proof fn lemma_owner_range(b: Seq<(String, Binding)>, t: TriggerKind, i: int)
    requires
        0 <= i,
    ensures
        match crate::engine::owner_from(b, t, i) {
            Some(k) => i <= k < b.len(),
            None => true,
        },
    decreases b.len() - i,
{
    if i < b.len() && !crate::engine::answers(b[i].1, t) {
        lemma_owner_range(b, t, i + 1);
    }
}

/// The first `n` gestures have advanced and every finger is accounted for.
proof fn lemma_gestures_upto(
    b: Seq<(String, Binding)>,
    v: EngineView,
    f: Seq<SwipeFigures>,
    n: int,
)
    requires
        sane(b, v),
        0 <= n <= v.swipes.len(),
    ensures
        ({
            let s = v.swipes;
            let q = crate::engine::swipe_pool(v.pool, b, s, v.now, f, n);
            let rest = crate::engine::swipe_rest(b, s, v.now, f, n);
            &&& q.ok()
            &&& q.tight()
            &&& swipes_ok(q, b, rest)
            &&& drawn_from(rest, s, n)
            &&& forall|k: int| n <= k < s.len() ==> #[trigger] swipe_ok(q, b, s[k])
            &&& crate::touch::fingers_after(
                v.pool.down(),
                crate::engine::swipe_acts(b, s, v.now, f, n),
            ) == q.down()
        }),
    decreases n,
{
    let s = v.swipes;
    if n > 0 {
        lemma_gestures_upto(b, v, f, n - 1);
        let q0 = crate::engine::swipe_pool(v.pool, b, s, v.now, f, n - 1);
        let r0 = crate::engine::swipe_rest(b, s, v.now, f, n - 1);
        let a0 = crate::engine::swipe_acts(b, s, v.now, f, n - 1);
        let x = s[n - 1];
        let o = crate::engine::swipe_out(b, x, v.now, f[n - 1]);
        let name = b[x.index as int].0@;
        assert(swipe_ok(q0, b, s[n - 1]));
        lemma_release(q0, name);
        let q = crate::engine::swipe_pool(v.pool, b, s, v.now, f, n);
        let rest = crate::engine::swipe_rest(b, s, v.now, f, n);
        assert forall|k: int| 0 <= k < r0.len() implies (#[trigger] r0[k]).index != x.index && swipe_ok(q, b, r0[k]) by {
            let m = choose|m: int| 0 <= m < n - 1 && s[m].index == r0[k].index;
            assert(s[m].index != s[n - 1].index);
            assert(swipe_ok(q0, b, r0[k]));
            lemma_names_differ(b, r0[k].index as int, x.index as int);
        }
        assert forall|k: int| n <= k < s.len() implies #[trigger] swipe_ok(q, b, s[k]) by {
            assert(swipe_ok(q0, b, s[k]));
            assert(s[n - 1].index != s[k].index);
            lemma_names_differ(b, s[k].index as int, x.index as int);
        }
        assert forall|k: int| 0 <= k < rest.len() implies #[trigger] swipe_ok(q, b, rest[k]) by {
            if k < r0.len() {
                assert(r0[k].index != x.index);
            }
        }
        assert forall|j: int, k: int| 0 <= j < k < rest.len() implies (#[trigger] rest[j]).index
            != (#[trigger] rest[k]).index by {
            assert(r0[j].index != x.index);
            if k < r0.len() {
                assert(r0[j].index != r0[k].index);
            }
        }
        assert forall|y: int| 0 <= y < rest.len() implies exists|k: int|
            0 <= k < n && s[k].index == (#[trigger] rest[y]).index by {
            if y < r0.len() {
                let k = choose|k: int| 0 <= k < n - 1 && s[k].index == r0[y].index;
                assert(s[k].index == rest[y].index);
            } else {
                assert(s[n - 1].index == rest[y].index);
            }
        }
        crate::touch::lemma_fingers_concat(v.pool.down(), a0, o.acts);
        let at = Norm::new_spec(f[n - 1].at.x, f[n - 1].at.y);
        lemma_one_move(q0.down(), x.id, at);
        lemma_one_up(q0.down(), x.id);
        if o.done {
            let m1 = seq![TouchAction::Move { id: x.id, at }];
            let m2 = seq![TouchAction::Up { id: x.id }];
            assert(o.acts =~= m1 + m2);
            crate::touch::lemma_fingers_concat(q0.down(), m1, m2);
        } else if o.acts.len() == 0 {
            assert(o.acts =~= Seq::<TouchAction>::empty());
        } else {
            assert(o.acts =~= seq![TouchAction::Move { id: x.id, at }]);
        }
    }
}

proof fn lemma_gestures(b: Seq<(String, Binding)>, v: EngineView, f: Seq<SwipeFigures>)
    requires
        sane(b, v),
    ensures
        accounts(b, v, v.gestures(b, f)),
{
    reveal(EngineView::gestures);
    lemma_gestures_upto(b, v, f, v.swipes.len() as int);
}

/// The aim binding is one of the bindings.
proof fn lemma_aim_range(b: Seq<(String, Binding)>, i: int)
    requires
        0 <= i,
        b.len() <= usize::MAX,
    ensures
        match crate::engine::aim_from(b, i) {
            Some(a) => a.index < b.len() && b[a.index as int].1 is Aim,
            None => true,
        },
    decreases b.len() - i,
{
    if i < b.len() && crate::engine::as_aim(b[i].1, i) is None {
        lemma_aim_range(b, i + 1);
    }
}

proof fn lemma_aim_second_finger(
    b: Seq<(String, Binding)>,
    v: EngineView,
    a: Aim,
    f: AimFigures,
)
    requires
        sane(b, v),
        a.index < b.len(),
    ensures
        accounts(b, v, v.aim_second_finger(b, a, f)),
        v.aim_second_finger(b, a, f).0.pool.get(b[a.index as int].0@) == v.pool.get(
            b[a.index as int].0@,
        ),
{
    let name = b[a.index as int].0@;
    let key = crate::engine::second_name(name);
    assert(b[a.index as int].0@ != key);
    lemma_acquire(v.pool, key);
    let pool = v.pool.acquire(key).0;
    assert forall|k: int| 0 <= k < v.swipes.len() implies b[(#[trigger] v.swipes[k]).index as int].0@
        != key by {
        assert(swipe_ok(v.pool, b, v.swipes[k]));
        assert(b[v.swipes[k].index as int].0@ != crate::engine::second_name(b[a.index as int].0@));
    }
    lemma_swipes_survive(v.pool, pool, b, v.swipes, key);
    let (w, acts) = if f.reach.lt(f.drift) && v.second is None {
        match v.pool.acquire(key).1 {
            Some(id) => (
                EngineView { pool, second: Some(f.seat), ..v },
                seq![TouchAction::Down { id, at: f.seat }],
            ),
            None => (v, Seq::empty()),
        }
    } else {
        (v, Seq::empty())
    };
    if let Some(id) = v.pool.acquire(key).1 {
        lemma_one_down(v.pool.down(), id, f.seat);
    }
    assert(accounts(b, v, (w, acts)));
    if w.second is Some {
        let lo = a.margin_spec();
        let at = Norm::new_spec(f.second.x.clamp_spec(lo, f.hi), f.second.y.clamp_spec(lo, f.hi));
        if let Some(id) = w.pool.get(key) {
            let m = seq![TouchAction::Move { id, at }];
            lemma_one_move(w.pool.down(), id, at);
            crate::touch::lemma_fingers_concat(v.pool.down(), acts, m);
            assert(acts + m =~= acts.push(TouchAction::Move { id, at }));
        }
    }
}

proof fn lemma_aim_hand_over(
    b: Seq<(String, Binding)>,
    v: EngineView,
    a: Aim,
    id: u8,
    d: Motion,
    f: AimFigures,
)
    requires
        sane(b, v),
        a.index < b.len(),
        b[a.index as int].1 is Aim,
        v.pool.get(b[a.index as int].0@) == Some(id),
    ensures
        accounts(b, v, v.aim_hand_over(b, a, id, d, f)),
{
    let name = b[a.index as int].0@;
    let key = crate::engine::second_name(name);
    let i = a.index as int;
    assert(b[i].0@ != key);
    lemma_not_a_gesture(v.pool, b, v.swipes, i);
    if EngineView::past_limits(a, f) {
        match v.second {
            Some(at) => {
                lemma_release(v.pool, name);
                lemma_one_up(v.pool.down(), id);
                let p = v.pool.release(name).0;
                let q = p.rename(key, name).0;
                crate::touch::law_operations_keep_the_pool_in_order(p, key, name);
                lemma_swipes_survive(v.pool, p, b, v.swipes, name);
                assert forall|k: int| 0 <= k < v.swipes.len() implies #[trigger] swipe_ok(
                    q,
                    b,
                    v.swipes[k],
                ) by {
                    assert(swipe_ok(p, b, v.swipes[k]));
                    let n = b[v.swipes[k].index as int].0@;
                    assert(n != crate::engine::second_name(b[i].0@));
                    assert(n != name);
                }
                assert forall|x: u8|
                    x < crate::touch::MAX_POINTERS && #[trigger] q.used[x as int] implies q.assigned.contains_value(
                x) by {
                    assert(p.used[x as int]);
                    let w = choose|w: Seq<char>| p.assigned.contains_key(w) && #[trigger] p.assigned[w]
                        == x;
                    assert(p.assigned.contains_key(w) && p.assigned[w] == x);
                    if w == key {
                        assert(q.assigned.contains_key(name) && q.assigned[name] == x);
                    } else {
                        assert(q.assigned.contains_key(w) && q.assigned[w] == x);
                    }
                }
                assert(q.down() =~= p.down());
            },
            None => {
                let (q, ids) = v.pool.rotate(name);
                if let Some((gone, fresh)) = ids {
                    crate::touch::law_operations_keep_the_pool_in_order(v.pool, name, name);
                    crate::touch::lemma_first_free(v.pool.used, 0);
                    let u = seq![TouchAction::Up { id: gone }];
                    let w = seq![TouchAction::Down { id: fresh, at: a.origin }];
                    lemma_one_up(v.pool.down(), gone);
                    lemma_one_down(v.pool.down().remove(gone), fresh, a.origin);
                    crate::touch::lemma_fingers_concat(v.pool.down(), u, w);
                    assert(v.aim_hand_over(b, a, id, d, f).1 =~= u + w);
                    assert(q.down() =~= v.pool.down().remove(gone).insert(fresh));
                    assert forall|m: Seq<char>| m != name implies #[trigger] q.get(m) == v.pool.get(
                        m,
                    ) by {}
                    lemma_swipes_survive(v.pool, q, b, v.swipes, name);
                    assert forall|x: u8|
                        x < crate::touch::MAX_POINTERS && #[trigger] q.used[x as int] implies q.assigned.contains_value(
                    x) by {
                        if x == fresh {
                            assert(q.assigned.contains_key(name) && q.assigned[name] == x);
                        } else {
                            assert(v.pool.used[x as int]);
                            let w = choose|w: Seq<char>| v.pool.assigned.contains_key(w)
                                && #[trigger] v.pool.assigned[w] == x;
                            assert(v.pool.assigned.contains_key(w) && v.pool.assigned[w] == x);
                            assert(q.assigned.contains_key(w) && q.assigned[w] == x);
                        }
                    }
                }
            },
        }
    } else {
        lemma_one_move(v.pool.down(), id, Norm::new_spec(f.next.x, f.next.y));
    }
}

proof fn lemma_aim_plain(
    b: Seq<(String, Binding)>,
    v: EngineView,
    a: Aim,
    id: u8,
    f: AimFigures,
)
    requires
        sane(b, v),
        a.index < b.len(),
        b[a.index as int].1 is Aim,
        v.pool.get(b[a.index as int].0@) == Some(id),
    ensures
        accounts(b, v, v.aim_plain(b, a, id, f)),
{
    lemma_one_move(v.pool.down(), id, Norm::new_spec(f.next.x, f.next.y));
    lemma_give(b, v, a.index as int);
    if EngineView::past_limits(a, f) {
        let lo = a.margin_spec();
        let edge = Norm::new_spec(f.next.x.clamp_spec(lo, f.hi), f.next.y.clamp_spec(lo, f.hi));
        let m = seq![TouchAction::Move { id, at: edge }];
        let u = seq![TouchAction::Up { id }];
        lemma_one_move(v.pool.down(), id, edge);
        lemma_one_up(v.pool.down(), id);
        crate::touch::lemma_fingers_concat(v.pool.down(), m, u);
        lemma_release(v.pool, b[a.index as int].0@);
        let acts = v.aim_plain(b, a, id, f).1;
        assert(acts =~= m + u || acts =~= u);
    }
}

proof fn lemma_aim_bounded(
    b: Seq<(String, Binding)>,
    v: EngineView,
    a: Aim,
    d: Motion,
    f: AimFigures,
)
    requires
        sane(b, v),
        a.index < b.len(),
        b[a.index as int].1 is Aim,
    ensures
        accounts(b, v, v.aim_bounded(b, a, d, f)),
{
    if let Some(id) = v.pool.get(b[a.index as int].0@) {
        if a.handoff {
            lemma_aim_second_finger(b, v, a, f);
            let p = v.aim_second_finger(b, a, f);
            lemma_aim_hand_over(b, p.0, a, id, d, f);
            lemma_then(b, v, p, p.0.aim_hand_over(b, a, id, d, f));
        } else {
            lemma_aim_plain(b, v, a, id, f);
        }
    }
}

proof fn lemma_aim_moved(b: Seq<(String, Binding)>, v: EngineView, d: Motion, f: AimFigures)
    requires
        sane(b, v),
    ensures
        accounts(b, v, v.aim_moved(b, d, f)),
{
    lemma_aim_range(b, 0);
    if let Some(a) = crate::engine::aim_from(b, 0) {
        let i = a.index as int;
        lemma_take(b, v, i, a.origin);
        lemma_acquire(v.pool, b[i].0@);
        let (pool, id) = v.pool.acquire(b[i].0@);
        if let Some(id) = id {
            lemma_one_down(v.pool.down(), id, a.origin);
            lemma_one_move(v.pool.down(), id, f.free);
        }
        lemma_aim_bounded(b, v, a, d, f);
        if let Some(id) = id {
            let w = EngineView { pool, aim_pos: Some(a.origin), ..v };
            let first = seq![TouchAction::Down { id, at: a.origin }];
            assert(accounts(b, v, (w, first)));
            lemma_aim_bounded(b, w, a, d, f);
            lemma_then(b, v, (w, first), w.aim_bounded(b, a, d, f));
        }
    }
}

proof fn lemma_aim_frame(b: Seq<(String, Binding)>, v: EngineView, f: AimFigures)
    requires
        sane(b, v),
    ensures
        accounts(b, v, v.aim_frame(b, f)),
{
    reveal(EngineView::aim_frame);
    lemma_aim_range(b, 0);
    if v.pending is Some {
        let w = EngineView { pending: None, gathered: Motion::none_spec(), ..v };
        if let Some(a) = crate::engine::aim_from(b, 0) {
            if let Some(id) = w.pool.get(b[a.index as int].0@) {
                let o = w.apply_deferred(b, f);
                if o.1.len() > 0 {
                    lemma_one_move(v.pool.down(), id, o.1[0]->Move_at);
                }
            }
        }
    } else if !v.gathered.quiet_spec() {
        let w = EngineView { gathered: Motion::none_spec(), ..v };
        lemma_aim_moved(b, w, v.gathered, f);
    } else {
        if let Some(a) = crate::engine::aim_from(b, 0) {
            lemma_give(b, v, a.index as int);
        }
    }
}

proof fn lemma_press_delayed(b: Seq<(String, Binding)>, v: EngineView, due: int)
    requires
        sane(b, v),
    ensures
        accounts(b, v, v.press_delayed(b, due)),
{
    reveal(EngineView::press_delayed);
    lemma_aim_range(b, 0);
    if let Some(a) = crate::engine::aim_from(b, 0) {
        lemma_take(b, v, a.index as int, a.origin);
    }
}

/// A frame accounts for every finger.
pub proof fn law_frames_account_for_every_finger(
    b: Seq<(String, Binding)>,
    v: EngineView,
    now: int,
    f: Figures,
)
    requires
        sane(b, v),
    ensures
        accounts(b, v, v.ticked(b, now, f)),
{
    let v0 = EngineView { now, ..v };
    if v.enabled {
        lemma_steer_pending(b, v0, f.stick);
        let p1 = v0.steer_pending(b, f.stick);
        lemma_reclaim(b, p1.0, b.len() as int);
        let p2 = p1.0.reclaimed(b, b.len() as int);
        lemma_then(b, v0, p1, p2);
        lemma_frame(b, p2.0, f);
        let p3 = p2.0.frame(b, f);
        lemma_then(b, v0, (p2.0, p1.1 + p2.1), p3);
    }
}

proof fn lemma_frame(b: Seq<(String, Binding)>, v: EngineView, f: Figures)
    requires
        sane(b, v),
    ensures
        accounts(b, v, v.frame(b, f)),
{
    reveal(EngineView::frame);
    match v.down_at {
        Some(due) => {
            lemma_press_delayed(b, v, due);
            let p1 = v.press_delayed(b, due);
            lemma_steer_pending(b, p1.0, f.stick);
            let p2 = p1.0.steer_pending(b, f.stick);
            lemma_then(b, v, p1, p2);
            lemma_gestures(b, p2.0, f.swipes@);
            lemma_then(b, v, (p2.0, p1.1 + p2.1), p2.0.gestures(b, f.swipes@));
        },
        None => {
            lemma_aim_frame(b, v, f.aim);
            let p1 = v.aim_frame(b, f.aim);
            lemma_gestures(b, p1.0, f.swipes@);
            lemma_then(b, v, p1, p1.0.gestures(b, f.swipes@));
        },
    }
}

/// Switching accounts for every finger; switching off leaves none.
pub proof fn law_switching_off_lifts_every_finger(
    b: Seq<(String, Binding)>,
    v: EngineView,
    on: bool,
)
    requires
        sane(b, v),
    ensures
        accounts(b, v, v.switched(on)),
        v.enabled && !on ==> v.switched(on).0.pool.down() == Set::<u8>::empty(),
{
    let o = v.switched(on);
    assert(PoolView::empty().down() =~= Set::<u8>::empty());
    if v.enabled && !on {
        crate::touch::law_release_all_lifts_every_finger(v.pool);
    }
}

/// While off, the engine hands out nothing, whatever arrives.
pub proof fn law_a_disabled_engine_is_silent(
    b: Seq<(String, Binding)>,
    v: EngineView,
    ev: InputEvent,
    g: EventFigures,
    now: int,
    f: Figures,
)
    requires
        !v.enabled,
    ensures
        v.handled(b, ev, g) == (v, Seq::<TouchAction>::empty()),
        v.ticked(b, now, f) == (EngineView { now, ..v }, Seq::<TouchAction>::empty()),
{
}

/// Once switched off, nothing is in flight and no key counts as held.
pub proof fn law_switching_off_forgets_everything(v: EngineView)
    requires
        v.enabled,
    ensures
        !v.switched(false).0.pending_work(),
        v.switched(false).0.held == Set::<TriggerKind>::empty(),
{
}

/// The repeats of a held key produce nothing.
pub proof fn law_key_repeats_are_swallowed(
    b: Seq<(String, Binding)>,
    v: EngineView,
    t: TriggerKind,
    f: EventFigures,
)
    requires
        v.held.contains(t),
    ensures
        v.handled(b, InputEvent::Press(t), f) == (v, Seq::<TouchAction>::empty()),
{
    assert(v.held.insert(t) =~= v.held);
}

/// Pressing a tap or toggle and letting go leaves the fingers as they were:
/// the one that went down comes up again.
pub proof fn law_a_tap_presses_and_lifts(
    b: Seq<(String, Binding)>,
    v: EngineView,
    t: TriggerKind,
    i: int,
    f: EventFigures,
)
    requires
        sane(b, v),
        v.enabled,
        !v.held.contains(t),
        crate::engine::owner_from(b, t, 0) == Some(i),
        b[i].1 is Tap || b[i].1 is Toggle,
        v.pool.get(b[i].0@) is None,
        v.pool.acquire(b[i].0@).1 is Some,
    ensures
        ({
            let p = v.handled(b, InputEvent::Press(t), f);
            let q = p.0.handled(b, InputEvent::Release(t), f);
            &&& p.1.len() == 1
            &&& q.1 == seq![TouchAction::Up { id: v.pool.acquire(b[i].0@).1->0 }]
            &&& q.0 == v
        }),
{
    let p = v.handled(b, InputEvent::Press(t), f);
    let q = p.0.handled(b, InputEvent::Release(t), f);
    crate::touch::law_release_undoes_acquire(v.pool, b[i].0@);
    assert(v.held.insert(t).remove(t) =~= v.held);
    assert(q.0 =~= v);
}

/// A swipe is fire and forget: letting go of its key changes nothing but the
/// set of held keys.
pub proof fn law_a_swipe_ignores_its_release(
    b: Seq<(String, Binding)>,
    v: EngineView,
    t: TriggerKind,
    i: int,
    f: EventFigures,
)
    requires
        v.enabled,
        crate::engine::owner_from(b, t, 0) == Some(i),
        b[i].1 is Swipe,
    ensures
        v.handled(b, InputEvent::Release(t), f) == (
            EngineView { held: v.held.remove(t), ..v },
            Seq::<TouchAction>::empty(),
        ),
{
}

/// Once a gesture with a group has been asked for, no other gesture of that
/// group is running.
pub proof fn law_a_group_runs_one_gesture(b: Seq<(String, Binding)>, v: EngineView, i: int, k: int)
    requires
        sane(b, v),
        0 <= i < b.len(),
        b[i].1 is Swipe,
        b[i].1.group_spec() is Some,
        forall|m: int| 0 <= m < v.swipes.len() ==> (#[trigger] v.swipes[m]).index != i,
        0 <= k < v.start_swipe(b, i).0.swipes.len(),
        v.start_swipe(b, i).0.swipes[k].index != i,
    ensures
        b[v.start_swipe(b, i).0.swipes[k].index as int].1.group_spec() != b[i].1.group_spec(),
{
    let g = b[i].1.group_spec();
    let n = v.swipes.len() as int;
    lemma_outside(b, v.swipes, g, n);
    let kept = crate::engine::outside_group(b, v.swipes, g, n);
    assert(v.start_swipe(b, i).0.swipes[k] == kept[k]);
}

proof fn lemma_outside(
    b: Seq<(String, Binding)>,
    s: Seq<ActiveSwipe>,
    g: Option<Seq<char>>,
    n: int,
)
    requires
        g is Some,
    ensures
        forall|x: int|
            0 <= x < crate::engine::outside_group(b, s, g, n).len() ==> b[(
            #[trigger] crate::engine::outside_group(b, s, g, n)[x]).index as int].1.group_spec()
                != g,
    decreases n,
{
    if n > 0 {
        lemma_outside(b, s, g, n - 1);
    }
}

/// The first press of a joystick lands on its centre, and its direction waits
/// for the next frame.
pub proof fn law_a_joystick_goes_down_at_its_centre(
    b: Seq<(String, Binding)>,
    v: EngineView,
    i: int,
    at: Norm,
)
    requires
        b[i].1 is Joystick,
        v.pool.get(b[i].0@) is None,
        v.pushes(b[i].1),
        v.pool.acquire(b[i].0@).1 is Some,
    ensures
        v.steer(b, i, at).1 == seq![
            TouchAction::Down { id: v.pool.acquire(b[i].0@).1->0, at: b[i].1->center },
        ],
        v.steer(b, i, at).0.stick == Some(i),
        v.steer(b, i, at).0.pending_work(),
{
}

/// As long as some direction of a joystick is held, letting go of another one
/// does not lift its finger: the finger only moves, and stays the same one.
pub proof fn law_a_held_direction_keeps_the_finger(
    b: Seq<(String, Binding)>,
    v: EngineView,
    t: TriggerKind,
    i: int,
    f: EventFigures,
)
    requires
        crate::engine::owner_from(b, t, 0) == Some(i),
        b[i].1 is Joystick,
        v.with_held(t, false).pushes(b[i].1),
    ensures
        forall|k: int|
            0 <= k < v.handled(b, InputEvent::Release(t), f).1.len() ==> !(#[trigger] v.handled(
                b,
                InputEvent::Release(t),
                f,
            ).1[k] is Up),
        v.pool.get(b[i].0@) is Some ==> v.handled(b, InputEvent::Release(t), f).0.pool.get(b[i].0@)
            == v.pool.get(b[i].0@),
{
}

/// Letting go of the last direction of a joystick lifts its finger.
pub proof fn law_the_last_direction_lifts_the_finger(
    b: Seq<(String, Binding)>,
    v: EngineView,
    t: TriggerKind,
    i: int,
    f: EventFigures,
)
    requires
        v.enabled,
        v.held.contains(t),
        crate::engine::owner_from(b, t, 0) == Some(i),
        b[i].1 is Joystick,
        !v.with_held(t, false).pushes(b[i].1),
        v.pool.get(b[i].0@) is Some,
    ensures
        v.handled(b, InputEvent::Release(t), f).1 == seq![
            TouchAction::Up { id: v.pool.get(b[i].0@)->0 },
        ],
{
}

/// Motion that arrives while a press is delayed is kept, not lost: the frame
/// touches neither the gathered nor the deferred motion, and the aim finger is
/// pressed at the origin when the time has come, or left alone.
pub proof fn law_a_delayed_press_keeps_the_motion(
    b: Seq<(String, Binding)>,
    v: EngineView,
    f: Figures,
)
    requires
        v.down_at is Some,
    ensures
        v.frame(b, f).0.gathered == v.gathered,
        v.frame(b, f).0.pending == v.pending,
        v.now < v.down_at->0 ==> v.frame(b, f).0.down_at == v.down_at && v.frame(b, f).0.aim_pos
            == v.aim_pos,
        v.now >= v.down_at->0 ==> v.frame(b, f).0.down_at is None,
{
    reveal(EngineView::frame);
    reveal(EngineView::press_delayed);
    reveal(EngineView::steer_pending);
    reveal(EngineView::gestures);
}

/// A reset lifts the finger and schedules its press for later, never for the
/// same millisecond, so the two never share a frame; and there is work pending
/// until then.
pub proof fn law_a_reset_separates_lift_and_press(
    b: Seq<(String, Binding)>,
    v: EngineView,
    a: Aim,
    id: u8,
    f: AimFigures,
)
    requires
        v.down_at is None,
    ensures
        ({
            let o = v.aim_plain(b, a, id, f);
            &&& EngineView::past_limits(a, f) ==> o.0.aim_pos is None && o.0.down_at is Some
                && o.0.down_at->0 > v.now && o.0.pending_work() && o.1.last()
                == TouchAction::Up { id }
        }),
        ({
            let o = v.idle_recentred(b, f);
            o.1.len() > 0 ==> o.0.aim_pos is None && o.0.down_at is Some && o.0.down_at->0 > v.now
                && o.0.pending_work() && o.1.len() == 1 && o.1[0] is Up
        }),
{
}

/// While aim may leave the screen, motion never lifts its finger: it presses
/// once, alone in its frame, and afterwards only moves.
pub proof fn law_unbounded_aim_never_lifts(
    b: Seq<(String, Binding)>,
    v: EngineView,
    d: Motion,
    f: AimFigures,
)
    requires
        match crate::engine::aim_from(b, 0) {
            Some(a) => v.roams(a),
            None => true,
        },
    ensures
        v.aim_moved(b, d, f).1.len() <= 1,
        forall|k: int|
            0 <= k < v.aim_moved(b, d, f).1.len() ==> !(#[trigger] v.aim_moved(b, d, f).1[k] is Up),
        v.aim_moved(b, d, f).1.len() == 1 && v.aim_moved(b, d, f).1[0] is Down
            ==> v.aim_moved(b, d, f).0.pending is Some,
{
}

/// While aim may leave the screen, the motion of a frame is exactly one move of
/// the finger that is down, to the place computed for it, wherever it stands; the
/// screen's edge plays no part. A finger that is not down goes down at the origin,
/// alone, and its motion waits for the next frame.
pub proof fn law_free_aim_moves_one_finger(
    b: Seq<(String, Binding)>,
    v: EngineView,
    a: Aim,
    d: Motion,
    f: AimFigures,
)
    requires
        crate::engine::aim_from(b, 0) == Some(a),
        v.roams(a),
        !f.travel.lt(a.deadzone),
    ensures
        v.aim_pos is Some && v.pool.get(b[a.index as int].0@) is Some ==> v.aim_moved(b, d, f) == (
            EngineView { aim_pos: Some(f.free), ..v },
            seq![TouchAction::Move { id: v.pool.get(b[a.index as int].0@)->0, at: f.free }],
        ) && v.apply_deferred(b, f) == v.aim_moved(b, d, f),
        v.aim_pos is None && v.down_at is None && a.toggle is None && v.pool.acquire(
            b[a.index as int].0@,
        ).1 is Some ==> ({
            let o = v.aim_moved(b, d, f);
            &&& o.1 == seq![
                TouchAction::Down { id: v.pool.acquire(b[a.index as int].0@).1->0, at: a.origin },
            ]
            &&& o.0.aim_pos == Some(a.origin)
            &&& o.0.pending == Some(
                Motion { dx: Motion::settled(d.dx), dy: Motion::settled(d.dy) },
            )
        }),
{
}

/// What a tick does besides aiming: joysticks, repairs and gestures.
pub open spec fn others_ticked(
    v: EngineView,
    b: Seq<(String, Binding)>,
    now: int,
    f: Figures,
) -> Outcome {
    let (w, a1) = (EngineView { now, ..v }).steer_pending(b, f.stick);
    let (x, a2) = w.reclaimed(b, b.len() as int);
    let (y, a3) = x.steer_pending(b, f.stick);
    let (z, a4) = y.gestures(b, f.swipes@);
    (z, a1 + a2 + (Seq::<TouchAction>::empty() + a3 + a4))
}

/// The state after ticks, one after the other.
pub open spec fn after_ticks(
    v: EngineView,
    b: Seq<(String, Binding)>,
    ts: Seq<(int, Figures)>,
) -> EngineView
    decreases ts.len(),
{
    if ts.len() == 0 {
        v
    } else {
        after_ticks(v, b, ts.drop_last()).ticked(b, ts.last().0, ts.last().1).0
    }
}

/// The aim finger is lifted and its press is due at some later time.
pub open spec fn awaits_press(b: Seq<(String, Binding)>, v: EngineView, a: Aim, due: int) -> bool {
    &&& v.enabled
    &&& crate::by_name::sorted_names(b)
    &&& b.len() <= usize::MAX
    &&& crate::engine::aim_from(b, 0) == Some(a)
    &&& v.down_at == Some(due)
    &&& v.aim_pos is None
    &&& v.pool.get(b[a.index as int].0@) is None
    &&& match v.stick {
        Some(i) => 0 <= i < b.len(),
        None => true,
    }
}

/// Until the delayed press is due, a tick does what it does besides aiming and
/// nothing else: the aim finger stays lifted, its press stays due, there is work
/// pending, and motion that came meanwhile waits.
pub proof fn law_a_lifted_aim_finger_rests(
    b: Seq<(String, Binding)>,
    v: EngineView,
    a: Aim,
    due: int,
    now: int,
    f: Figures,
)
    requires
        awaits_press(b, v, a, due),
        now < due,
    ensures
        v.ticked(b, now, f) == others_ticked(v, b, now, f),
        awaits_press(b, v.ticked(b, now, f).0, a, due),
        v.ticked(b, now, f).0.pending_work(),
        v.ticked(b, now, f).0.gathered == v.gathered,
        v.ticked(b, now, f).0.pending == v.pending,
{
    let name = b[a.index as int].0@;
    reveal(EngineView::frame);
    reveal(EngineView::press_delayed);
    let v0 = EngineView { now, ..v };
    lemma_aim_range(b, 0);
    let w = v0.steer_pending(b, f.stick).0;
    lemma_steer_spares(b, v0, f.stick, a.index as int);
    let x = w.reclaimed(b, b.len() as int).0;
    lemma_reclaim_spares(b, w, b.len() as int, name);
    let y = x.steer_pending(b, f.stick).0;
    lemma_steer_spares(b, x, f.stick, a.index as int);
    let z = y.gestures(b, f.swipes@).0;
    reveal(EngineView::gestures);
    lemma_gestures_spare(y.pool, b, y.swipes, y.now, f.swipes@, y.swipes.len() as int, name);
}

/// The same for any number of ticks before the press is due.
pub proof fn law_a_lifted_aim_finger_rests_until_due(
    b: Seq<(String, Binding)>,
    v: EngineView,
    a: Aim,
    due: int,
    ts: Seq<(int, Figures)>,
)
    requires
        awaits_press(b, v, a, due),
        forall|k: int| 0 <= k < ts.len() ==> (#[trigger] ts[k]).0 < due,
    ensures
        awaits_press(b, after_ticks(v, b, ts), a, due),
        after_ticks(v, b, ts).pending_work(),
        after_ticks(v, b, ts).gathered == v.gathered,
        after_ticks(v, b, ts).pending == v.pending,
    decreases ts.len(),
{
    if ts.len() > 0 {
        let before = ts.drop_last();
        assert forall|k: int| 0 <= k < before.len() implies (#[trigger] before[k]).0 < due by {
            assert(before[k] == ts[k]);
        }
        law_a_lifted_aim_finger_rests_until_due(b, v, a, due, before);
        assert(ts[ts.len() - 1].0 < due);
        law_a_lifted_aim_finger_rests(
            b,
            after_ticks(v, b, before),
            a,
            due,
            ts.last().0,
            ts.last().1,
        );
    }
}

/// Mouse motion leaves a delayed press alone and only gathers.
pub proof fn law_motion_waits_for_a_delayed_press(
    b: Seq<(String, Binding)>,
    v: EngineView,
    a: Aim,
    due: int,
    m: Motion,
    f: EventFigures,
)
    requires
        awaits_press(b, v, a, due),
    ensures
        v.handled(b, InputEvent::MouseMove { dx: m.dx, dy: m.dy }, f).1.len() == 0,
        awaits_press(b, v.handled(b, InputEvent::MouseMove { dx: m.dx, dy: m.dy }, f).0, a, due),
{
}

/// What a tick does before its frame: the deferred joystick direction, then the
/// repairs.
pub open spec fn repaired(v: EngineView, b: Seq<(String, Binding)>, now: int, f: Figures) -> Outcome {
    let (w, a1) = (EngineView { now, ..v }).steer_pending(b, f.stick);
    let (x, a2) = w.reclaimed(b, b.len() as int);
    (x, a1 + a2)
}

/// Once the press is due, a tick presses the aim finger at the origin, and that is
/// all it does with it: behind the press no action is of that finger, and before
/// it none but the lift of a finger that somebody else lost and that is free only
/// since. Motion gathered meanwhile is left for a later tick.
pub proof fn law_a_due_press_lands_alone(
    b: Seq<(String, Binding)>,
    v: EngineView,
    a: Aim,
    due: int,
    now: int,
    f: Figures,
)
    requires
        awaits_press(b, v, a, due),
        sane(b, v),
        now >= due,
        repaired(v, b, now, f).0.pool.acquire(b[a.index as int].0@).1 is Some,
    ensures
        ({
            let id = repaired(v, b, now, f).0.pool.acquire(b[a.index as int].0@).1->0;
            let n = repaired(v, b, now, f).1.len() as int;
            let o = v.ticked(b, now, f);
            &&& n < o.1.len()
            &&& o.1[n] == TouchAction::Down { id, at: a.origin }
            &&& forall|k: int| n < k < o.1.len() ==> finger_of(#[trigger] o.1[k]) != id
            &&& forall|k: int|
                0 <= k < n && finger_of(#[trigger] o.1[k]) == id ==> o.1[k] is Up
            &&& (forall|m: Seq<char>| #[trigger] v.pool.get(m) != Some(id)) ==> forall|k: int|
                0 <= k < n ==> finger_of(#[trigger] o.1[k]) != id
            &&& o.0.down_at is None
            &&& o.0.aim_pos == Some(a.origin)
            &&& o.0.gathered == v.gathered
            &&& o.0.pending == v.pending
        }),
{
    let name = b[a.index as int].0@;
    lemma_aim_range(b, 0);
    lemma_repaired(b, v, now, f, a.index as int);
    let x = repaired(v, b, now, f).0;
    let first = repaired(v, b, now, f).1;
    let id = x.pool.acquire(name).1->0;
    lemma_due_frame(b, x, a, due, f);
    lemma_new_finger(x.pool, name);
    lemma_repair_fingers(b, v, now, f, id);
    let o = v.ticked(b, now, f);
    let rest = x.frame(b, f).1;
    assert(o.1 =~= first + rest);
    assert forall|k: int| first.len() < k < o.1.len() implies finger_of(#[trigger] o.1[k]) != id by {
        assert(o.1[k] == rest[k - first.len()]);
    }
    assert forall|k: int| 0 <= k < first.len() && finger_of(#[trigger] o.1[k]) == id implies o.1[k] is Up by {
        assert(o.1[k] == first[k]);
    }
    if forall|m: Seq<char>| #[trigger] v.pool.get(m) != Some(id) {
        assert forall|k: int| 0 <= k < first.len() implies finger_of(#[trigger] o.1[k]) != id by {
            assert(o.1[k] == first[k]);
        }
    }
}

/// While aim may leave the screen and its finger is down, a tick with motion moves
/// that finger once, to the place computed for it, and does nothing else with it:
/// no lift, no press, and no part for the screen's edge.
pub proof fn law_a_tick_moves_the_free_aim_once(
    b: Seq<(String, Binding)>,
    v: EngineView,
    a: Aim,
    id: u8,
    now: int,
    f: Figures,
)
    requires
        v.enabled,
        sane(b, v),
        crate::engine::aim_from(b, 0) == Some(a),
        v.roams(a),
        v.down_at is None,
        v.aim_pos is Some,
        v.pool.get(b[a.index as int].0@) == Some(id),
        v.pending is Some || (!v.gathered.quiet_spec() && !f.aim.travel.lt(a.deadzone)),
    ensures
        ({
            let n = repaired(v, b, now, f).1.len() as int;
            let o = v.ticked(b, now, f);
            &&& n < o.1.len()
            &&& o.1[n] == TouchAction::Move { id, at: f.aim.free }
            &&& forall|k: int| 0 <= k < o.1.len() && k != n ==> finger_of(#[trigger] o.1[k]) != id
            &&& o.0.aim_pos == Some(f.aim.free)
            &&& o.0.pool.get(b[a.index as int].0@) == Some(id)
            &&& o.0.pending is None
            &&& o.0.down_at is None
        }),
{
    let j = a.index as int;
    lemma_aim_range(b, 0);
    lemma_repaired(b, v, now, f, j);
    let x = repaired(v, b, now, f).0;
    let first = repaired(v, b, now, f).1;
    let (y, moved) = x.aim_frame(b, f.aim);
    assert(moved == seq![TouchAction::Move { id, at: f.aim.free }] && y == (EngineView {
        aim_pos: Some(f.aim.free),
        pending: None,
        gathered: Motion::none_spec(),
        ..x
    })) by {
        reveal(EngineView::aim_frame);
    }
    lemma_owned_apart(b, v, now, f, j, id);
    lemma_swipe_ids(b, x, j, id);
    lemma_swipe_fingers(b, y.swipes, y.now, f.swipes@, y.swipes.len() as int, id);
    lemma_gestures_keep_owner(y.pool, b, y.swipes, y.now, f.swipes@, y.swipes.len() as int, j);
    let rest = crate::engine::swipe_acts(b, y.swipes, y.now, f.swipes@, y.swipes.len() as int);
    let o = v.ticked(b, now, f);
    assert(x.frame(b, f).1 == moved + rest && o.0 == (EngineView {
        pool: crate::engine::swipe_pool(y.pool, b, y.swipes, y.now, f.swipes@, y.swipes.len() as int),
        swipes: o.0.swipes,
        ..y
    })) by {
        reveal(EngineView::frame);
        reveal(EngineView::gestures);
    }
    assert(o.1 =~= first + (moved + rest));
    assert forall|k: int| 0 <= k < o.1.len() && k != first.len() implies finger_of(#[trigger] o.1[k])
        != id by {
        if k < first.len() {
            assert(o.1[k] == first[k]);
        } else {
            assert(o.1[k] == rest[k - first.len() - 1]);
        }
    }
}

/// While aim may leave the screen and its finger is not down, motion presses it at
/// the origin, which is all the tick does with it, and waits for the next tick.
pub proof fn law_a_tick_presses_the_free_aim_alone(
    b: Seq<(String, Binding)>,
    v: EngineView,
    a: Aim,
    now: int,
    f: Figures,
)
    requires
        v.enabled,
        sane(b, v),
        crate::engine::aim_from(b, 0) == Some(a),
        v.roams(a),
        a.toggle is None,
        v.down_at is None,
        v.aim_pos is None,
        v.pending is None,
        v.pool.get(b[a.index as int].0@) is None,
        !v.gathered.quiet_spec(),
        !f.aim.travel.lt(a.deadzone),
        repaired(v, b, now, f).0.pool.acquire(b[a.index as int].0@).1 is Some,
    ensures
        ({
            let id = repaired(v, b, now, f).0.pool.acquire(b[a.index as int].0@).1->0;
            let n = repaired(v, b, now, f).1.len() as int;
            let o = v.ticked(b, now, f);
            &&& n < o.1.len()
            &&& o.1[n] == TouchAction::Down { id, at: a.origin }
            &&& forall|k: int| n < k < o.1.len() ==> finger_of(#[trigger] o.1[k]) != id
            &&& forall|k: int|
                0 <= k < n && finger_of(#[trigger] o.1[k]) == id ==> o.1[k] is Up
            &&& o.0.aim_pos == Some(a.origin)
            &&& o.0.pool.get(b[a.index as int].0@) == Some(id)
            &&& o.0.pending == Some(
                Motion {
                    dx: Motion::settled(v.gathered.dx),
                    dy: Motion::settled(v.gathered.dy),
                },
            )
            &&& o.0.down_at is None
        }),
{
    let j = a.index as int;
    let name = b[j].0@;
    lemma_aim_range(b, 0);
    lemma_repaired(b, v, now, f, j);
    let x = repaired(v, b, now, f).0;
    let first = repaired(v, b, now, f).1;
    let id = x.pool.acquire(name).1->0;
    lemma_new_finger(x.pool, name);
    lemma_acquire(x.pool, name);
    lemma_repair_fingers(b, v, now, f, id);
    let (y, pressed) = x.aim_frame(b, f.aim);
    assert(pressed == seq![TouchAction::Down { id, at: a.origin }] && y == (EngineView {
        pool: x.pool.acquire(name).0,
        aim_pos: Some(a.origin),
        gathered: Motion::none_spec(),
        pending: Some(
            Motion { dx: Motion::settled(v.gathered.dx), dy: Motion::settled(v.gathered.dy) },
        ),
        ..x
    })) by {
        reveal(EngineView::aim_frame);
    }
    assert forall|k: int| 0 <= k < x.swipes.len() implies (#[trigger] x.swipes[k]).id != id by {
        assert(swipe_ok(x.pool, b, x.swipes[k]));
        assert(x.pool.get(b[x.swipes[k].index as int].0@) != Some(id));
    }
    assert forall|k: int| 0 <= k < x.swipes.len() implies (#[trigger] x.swipes[k]).index < b.len()
        && b[x.swipes[k].index as int].1 is Swipe by {
        assert(swipe_ok(x.pool, b, x.swipes[k]));
    }
    lemma_swipe_fingers(b, y.swipes, y.now, f.swipes@, y.swipes.len() as int, id);
    lemma_gestures_keep_owner(y.pool, b, y.swipes, y.now, f.swipes@, y.swipes.len() as int, j);
    let rest = crate::engine::swipe_acts(b, y.swipes, y.now, f.swipes@, y.swipes.len() as int);
    let o = v.ticked(b, now, f);
    assert(x.frame(b, f).1 == pressed + rest && o.0 == (EngineView {
        pool: crate::engine::swipe_pool(y.pool, b, y.swipes, y.now, f.swipes@, y.swipes.len() as int),
        swipes: o.0.swipes,
        ..y
    })) by {
        reveal(EngineView::frame);
        reveal(EngineView::gestures);
    }
    assert(o.1 =~= first + (pressed + rest));
    assert forall|k: int| first.len() < k < o.1.len() implies finger_of(#[trigger] o.1[k]) != id by {
        assert(o.1[k] == rest[k - first.len() - 1]);
    }
    assert forall|k: int| 0 <= k < first.len() && finger_of(#[trigger] o.1[k]) == id implies o.1[k] is Up by {
        assert(o.1[k] == first[k]);
    }
}

/// The gestures of an orderly state use other fingers than an aim binding.
pub(crate) proof fn lemma_swipe_ids(b: Seq<(String, Binding)>, x: EngineView, j: int, id: u8)
    requires
        sane(b, x),
        0 <= j < b.len(),
        b[j].1 is Aim,
        x.pool.get(b[j].0@) == Some(id),
    ensures
        forall|k: int|
            0 <= k < x.swipes.len() ==> (#[trigger] x.swipes[k]).id != id && x.swipes[k].index
                < b.len() && b[x.swipes[k].index as int].1 is Swipe,
{
    assert forall|k: int| 0 <= k < x.swipes.len() implies (#[trigger] x.swipes[k]).id != id
        && x.swipes[k].index < b.len() && b[x.swipes[k].index as int].1 is Swipe by {
        let s = x.swipes[k];
        assert(swipe_ok(x.pool, b, s));
        lemma_names_differ(b, s.index as int, j);
        assert(x.pool.assigned.contains_key(b[s.index as int].0@) && x.pool.assigned.contains_key(
            b[j].0@,
        ));
    }
}

/// Gestures take no finger from an aim binding.
pub(crate) proof fn lemma_gestures_keep_owner(
    p: PoolView,
    b: Seq<(String, Binding)>,
    s: Seq<ActiveSwipe>,
    now: int,
    f: Seq<SwipeFigures>,
    n: int,
    j: int,
)
    requires
        crate::by_name::sorted_names(b),
        0 <= j < b.len(),
        b[j].1 is Aim,
        n <= s.len(),
        forall|k: int|
            0 <= k < s.len() ==> (#[trigger] s[k]).index < b.len() && b[s[k].index as int].1 is Swipe,
    ensures
        crate::engine::swipe_pool(p, b, s, now, f, n).get(b[j].0@) == p.get(b[j].0@),
    decreases n,
{
    if n > 0 {
        lemma_gestures_keep_owner(p, b, s, now, f, n - 1, j);
        assert(b[s[n - 1].index as int].1 is Swipe);
        lemma_names_differ(b, s[n - 1].index as int, j);
    }
}

/// What steering does with fingers: it lifts none, and the one it uses is the
/// joystick's own from then on.
proof fn lemma_steer_owner(b: Seq<(String, Binding)>, v: EngineView, at: Norm)
    requires
        match v.stick {
            Some(i) => 0 <= i < b.len(),
            None => true,
        },
    ensures
        forall|k: int|
            0 <= k < v.steer_pending(b, at).1.len() ==> !(#[trigger] v.steer_pending(b, at).1[k] is Up)
                && v.stick is Some && b[v.stick->0].1 is Joystick && v.steer_pending(
                b,
                at,
            ).0.pool.get(b[v.stick->0].0@) == Some(finger_of(v.steer_pending(b, at).1[k])),
        forall|m: Seq<char>|
            v.stick is None || m != b[v.stick->0].0@ || !(b[v.stick->0].1 is Joystick)
                ==> #[trigger] v.steer_pending(b, at).0.pool.get(m) == v.pool.get(m),
{
    reveal(EngineView::steer_pending);
}

/// What repairs do with fingers: they lift those of taps and toggles, and leave
/// everybody else's.
proof fn lemma_reclaim_owner(b: Seq<(String, Binding)>, v: EngineView, n: int, id: u8)
    requires
        crate::by_name::sorted_names(b),
        v.pool.ok(),
        0 <= n <= b.len(),
    ensures
        forall|k: int|
            0 <= k < v.reclaimed(b, n).1.len() ==> #[trigger] v.reclaimed(b, n).1[k] is Up,
        forall|k: int|
            0 <= k < v.reclaimed(b, n).1.len() && finger_of(#[trigger] v.reclaimed(b, n).1[k]) == id
                ==> exists|i: int|
                0 <= i < n && crate::engine::hold_trigger((#[trigger] b[i]).1) is Some && v.pool.get(
                    b[i].0@,
                ) == Some(id),
        forall|i: int|
            0 <= i < b.len() && (i >= n || crate::engine::hold_trigger((#[trigger] b[i]).1) is None)
                ==> v.reclaimed(b, n).0.pool.get(b[i].0@) == v.pool.get(b[i].0@),
    decreases n,
{
    if n > 0 {
        lemma_reclaim_owner(b, v, n - 1, id);
        let before = v.reclaimed(b, n - 1);
        let all = v.reclaimed(b, n);
        assert(before.0.pool.get(b[n - 1].0@) == v.pool.get(b[n - 1].0@));
        assert forall|k: int| 0 <= k < all.1.len() implies #[trigger] all.1[k] is Up by {
            if k < before.1.len() {
                assert(all.1[k] == before.1[k]);
            }
        }
        assert forall|k: int| 0 <= k < all.1.len() && finger_of(#[trigger] all.1[k]) == id implies exists|
            i: int,
        |
            0 <= i < n && crate::engine::hold_trigger((#[trigger] b[i]).1) is Some && v.pool.get(b[i].0@)
                == Some(id) by {
            if k < before.1.len() {
                assert(all.1[k] == before.1[k]);
                let i = choose|i: int|
                    0 <= i < n - 1 && crate::engine::hold_trigger((#[trigger] b[i]).1) is Some
                        && v.pool.get(b[i].0@) == Some(id);
                assert(crate::engine::hold_trigger(b[i].1) is Some);
            } else {
                assert(crate::engine::hold_trigger(b[n - 1].1) is Some);
            }
        }
        assert forall|i: int|
            0 <= i < b.len() && (i >= n || crate::engine::hold_trigger((#[trigger] b[i]).1) is None) implies all.0.pool.get(
        b[i].0@) == v.pool.get(b[i].0@) by {
            if i != n - 1 {
                lemma_names_differ(b, i, n - 1);
            }
        }
    }
}

/// What comes before a frame leaves an aim binding alone, and the state in order.
pub(crate) proof fn lemma_repaired(b: Seq<(String, Binding)>, v: EngineView, now: int, f: Figures, j: int)
    requires
        sane(b, v),
        0 <= j < b.len(),
        b[j].1 is Aim,
    ensures
        ({
            let x = repaired(v, b, now, f).0;
            &&& sane(b, x)
            &&& x.pool.get(b[j].0@) == v.pool.get(b[j].0@)
            &&& x.enabled == v.enabled
            &&& x.now == now
            &&& x.down_at == v.down_at
            &&& x.aim_pos == v.aim_pos
            &&& x.gathered == v.gathered
            &&& x.pending == v.pending
            &&& x.offscreen_ok == v.offscreen_ok
        }),
{
    let v0 = EngineView { now, ..v };
    lemma_steer_pending(b, v0, f.stick);
    lemma_steer_spares(b, v0, f.stick, j);
    crate::engine::lemma_steer_keeps(v0, b, f.stick);
    let w = v0.steer_pending(b, f.stick).0;
    lemma_reclaim(b, w, b.len() as int);
    lemma_reclaim_owner(b, w, b.len() as int, 0);
    crate::engine::lemma_reclaim_keeps(w, b, b.len() as int);
}

/// Of a finger that is nobody's before a frame, nothing but a lift came earlier in
/// the tick, and not even that if it was nobody's all along.
proof fn lemma_repair_fingers(
    b: Seq<(String, Binding)>,
    v: EngineView,
    now: int,
    f: Figures,
    id: u8,
)
    requires
        sane(b, v),
        forall|m: Seq<char>| #[trigger] repaired(v, b, now, f).0.pool.get(m) != Some(id),
    ensures
        forall|k: int|
            0 <= k < repaired(v, b, now, f).1.len() && finger_of(
                #[trigger] repaired(v, b, now, f).1[k],
            ) == id ==> repaired(v, b, now, f).1[k] is Up,
        (forall|m: Seq<char>| #[trigger] v.pool.get(m) != Some(id)) ==> forall|k: int|
            0 <= k < repaired(v, b, now, f).1.len() ==> finger_of(
                #[trigger] repaired(v, b, now, f).1[k],
            ) != id,
{
    let v0 = EngineView { now, ..v };
    let (w, a1) = v0.steer_pending(b, f.stick);
    let (x, a2) = w.reclaimed(b, b.len() as int);
    lemma_steer_pending(b, v0, f.stick);
    lemma_steer_owner(b, v0, f.stick);
    lemma_reclaim_owner(b, w, b.len() as int, id);
    let all = repaired(v, b, now, f).1;
    assert(all == a1 + a2);
    assert forall|k: int| 0 <= k < a1.len() implies finger_of(#[trigger] a1[k]) != id by {
        let i = v0.stick->0;
        assert(w.pool.get(b[i].0@) == Some(finger_of(a1[k])));
        assert(crate::engine::hold_trigger(b[i].1) is None);
        assert(x.pool.get(b[i].0@) == w.pool.get(b[i].0@));
        assert(repaired(v, b, now, f).0.pool.get(b[i].0@) != Some(id));
    }
    assert forall|k: int| 0 <= k < all.len() && finger_of(#[trigger] all[k]) == id implies all[k] is Up by {
        if k < a1.len() {
            assert(all[k] == a1[k]);
        } else {
            assert(all[k] == a2[k - a1.len()]);
        }
    }
    if forall|m: Seq<char>| #[trigger] v.pool.get(m) != Some(id) {
        assert forall|k: int| 0 <= k < all.len() implies finger_of(#[trigger] all[k]) != id by {
            if k < a1.len() {
                assert(all[k] == a1[k]);
            } else {
                assert(all[k] == a2[k - a1.len()]);
                if finger_of(a2[k - a1.len()]) == id {
                    let i = choose|i: int|
                        0 <= i < b.len() && crate::engine::hold_trigger((#[trigger] b[i]).1) is Some
                            && w.pool.get(b[i].0@) == Some(id);
                    assert(crate::engine::hold_trigger(b[i].1) is Some);
                    if let Some(s) = v0.stick {
                        if s != i {
                            lemma_names_differ(b, s, i);
                        }
                    }
                    assert(w.pool.get(b[i].0@) == v0.pool.get(b[i].0@));
                    assert(v.pool.get(b[i].0@) != Some(id));
                }
            }
        }
    }
}

/// What comes before a frame does nothing with the finger of an aim binding.
pub(crate) proof fn lemma_owned_apart(
    b: Seq<(String, Binding)>,
    v: EngineView,
    now: int,
    f: Figures,
    j: int,
    id: u8,
)
    requires
        sane(b, v),
        0 <= j < b.len(),
        b[j].1 is Aim,
        v.pool.get(b[j].0@) == Some(id),
    ensures
        forall|k: int|
            0 <= k < repaired(v, b, now, f).1.len() ==> finger_of(
                #[trigger] repaired(v, b, now, f).1[k],
            ) != id,
{
    let v0 = EngineView { now, ..v };
    let (w, a1) = v0.steer_pending(b, f.stick);
    let (x, a2) = w.reclaimed(b, b.len() as int);
    lemma_steer_pending(b, v0, f.stick);
    lemma_steer_spares(b, v0, f.stick, j);
    lemma_steer_owner(b, v0, f.stick);
    lemma_reclaim_owner(b, w, b.len() as int, id);
    let all = repaired(v, b, now, f).1;
    assert(all == a1 + a2);
    assert(w.pool.assigned.contains_key(b[j].0@));
    assert forall|k: int| 0 <= k < all.len() implies finger_of(#[trigger] all[k]) != id by {
        if k < a1.len() {
            assert(all[k] == a1[k]);
            let i = v0.stick->0;
            assert(w.pool.get(b[i].0@) == Some(finger_of(a1[k])));
            lemma_names_differ(b, i, j);
            assert(w.pool.assigned.contains_key(b[i].0@));
        } else {
            assert(all[k] == a2[k - a1.len()]);
            if finger_of(a2[k - a1.len()]) == id {
                let i = choose|i: int|
                    0 <= i < b.len() && crate::engine::hold_trigger((#[trigger] b[i]).1) is Some
                        && w.pool.get(b[i].0@) == Some(id);
                assert(crate::engine::hold_trigger(b[i].1) is Some);
                lemma_names_differ(b, i, j);
                assert(w.pool.assigned.contains_key(b[i].0@));
            }
        }
    }
}

/// Once the press is due, the frame begins with it and leaves that finger alone.
proof fn lemma_due_frame(
    b: Seq<(String, Binding)>,
    v: EngineView,
    a: Aim,
    due: int,
    f: Figures,
)
    requires
        awaits_press(b, v, a, due),
        sane(b, v),
        v.now >= due,
        v.pool.acquire(b[a.index as int].0@).1 is Some,
    ensures
        ({
            let id = v.pool.acquire(b[a.index as int].0@).1->0;
            let o = v.frame(b, f);
            &&& o.1.len() > 0
            &&& o.1[0] == TouchAction::Down { id, at: a.origin }
            &&& forall|k: int| 0 < k < o.1.len() ==> finger_of(#[trigger] o.1[k]) != id
            &&& o.0.down_at is None
            &&& o.0.aim_pos == Some(a.origin)
            &&& o.0.gathered == v.gathered
            &&& o.0.pending == v.pending
        }),
{
    let name = b[a.index as int].0@;
    let id = v.pool.acquire(name).1->0;
    lemma_aim_range(b, 0);
    lemma_new_finger(v.pool, name);
    let (p, a1) = v.press_delayed(b, due);
    assert(a1 == seq![TouchAction::Down { id, at: a.origin }] && p == (EngineView {
        pool: v.pool.acquire(name).0,
        aim_pos: Some(a.origin),
        down_at: None,
        ..v
    })) by {
        reveal(EngineView::press_delayed);
    }
    lemma_acquire(v.pool, name);
    let (w, a2) = p.steer_pending(b, f.stick);
    lemma_steer_fingers(b, p, f.stick, a.index as int, id);
    crate::engine::lemma_steer_keeps(p, b, f.stick);
    assert forall|k: int| 0 <= k < v.swipes.len() implies (#[trigger] v.swipes[k]).id != id by {
        assert(swipe_ok(v.pool, b, v.swipes[k]));
    }
    let a3 = crate::engine::swipe_acts(b, w.swipes, w.now, f.swipes@, w.swipes.len() as int);
    lemma_swipe_fingers(b, w.swipes, w.now, f.swipes@, w.swipes.len() as int, id);
    let all = v.frame(b, f).1;
    assert(all == a1 + a2 + a3 && v.frame(b, f).0 == (EngineView {
        pool: v.frame(b, f).0.pool,
        swipes: v.frame(b, f).0.swipes,
        ..w
    })) by {
        reveal(EngineView::frame);
        reveal(EngineView::gestures);
    }
    assert forall|k: int| 0 < k < all.len() implies finger_of(#[trigger] all[k]) != id by {
        if k < 1 + a2.len() {
            assert(all[k] == a2[k - 1]);
        } else {
            assert(all[k] == a3[k - 1 - a2.len()]);
        }
    }
}

/// A finger given to somebody who had none was nobody's.
proof fn lemma_new_finger(p: PoolView, name: Seq<char>)
    requires
        p.ok(),
        p.get(name) is None,
        p.acquire(name).1 is Some,
    ensures
        forall|n: Seq<char>| #[trigger] p.get(n) != Some(p.acquire(name).1->0),
{
    crate::touch::lemma_first_free(p.used, 0);
}

/// Steering moves no finger but the joystick's own.
proof fn lemma_steer_fingers(b: Seq<(String, Binding)>, v: EngineView, at: Norm, j: int, id: u8)
    requires
        crate::by_name::sorted_names(b),
        v.pool.ok(),
        0 <= j < b.len(),
        b[j].1 is Aim,
        v.pool.get(b[j].0@) == Some(id),
        match v.stick {
            Some(i) => 0 <= i < b.len(),
            None => true,
        },
    ensures
        forall|k: int|
            0 <= k < v.steer_pending(b, at).1.len() ==> finger_of(
                #[trigger] v.steer_pending(b, at).1[k],
            ) != id,
{
    reveal(EngineView::steer_pending);
    if let Some(i) = v.stick {
        if b[i].1 is Joystick {
            lemma_names_differ(b, i, j);
            if v.pool.get(b[i].0@) is None && v.pool.acquire(b[i].0@).1 is Some {
                lemma_new_finger(v.pool, b[i].0@);
                assert(v.pool.get(b[j].0@) != Some(v.pool.acquire(b[i].0@).1->0));
            }
        }
    }
}

/// The finger of an action.
pub open spec fn finger_of(a: TouchAction) -> u8 {
    match a {
        TouchAction::Down { id, .. } => id,
        TouchAction::Move { id, .. } => id,
        TouchAction::Up { id } => id,
    }
}

pub(crate) proof fn lemma_swipe_fingers(
    b: Seq<(String, Binding)>,
    s: Seq<ActiveSwipe>,
    now: int,
    f: Seq<SwipeFigures>,
    n: int,
    id: u8,
)
    requires
        0 <= n <= s.len(),
        forall|k: int| 0 <= k < s.len() ==> (#[trigger] s[k]).id != id,
    ensures
        forall|k: int|
            0 <= k < crate::engine::swipe_acts(b, s, now, f, n).len() ==> finger_of(
                #[trigger] crate::engine::swipe_acts(b, s, now, f, n)[k],
            ) != id,
    decreases n,
{
    if n > 0 {
        lemma_swipe_fingers(b, s, now, f, n - 1, id);
        let before = crate::engine::swipe_acts(b, s, now, f, n - 1);
        let all = crate::engine::swipe_acts(b, s, now, f, n);
        assert(s[n - 1].id != id);
        assert forall|k: int| 0 <= k < all.len() implies finger_of(#[trigger] all[k]) != id by {
            if k < before.len() {
                assert(all[k] == before[k]);
            }
        }
    }
}

/// Steering leaves the finger of an aim binding alone.
proof fn lemma_steer_spares(b: Seq<(String, Binding)>, v: EngineView, at: Norm, j: int)
    requires
        crate::by_name::sorted_names(b),
        0 <= j < b.len(),
        b[j].1 is Aim,
        match v.stick {
            Some(i) => 0 <= i < b.len(),
            None => true,
        },
    ensures
        ({
            let w = v.steer_pending(b, at).0;
            &&& w.pool.get(b[j].0@) == v.pool.get(b[j].0@)
            &&& w.enabled == v.enabled
            &&& w.down_at == v.down_at
            &&& w.aim_pos == v.aim_pos
            &&& w.gathered == v.gathered
            &&& w.pending == v.pending
            &&& w.now == v.now
            &&& match w.stick {
                Some(i) => 0 <= i < b.len(),
                None => true,
            }
        }),
{
    reveal(EngineView::steer_pending);
    if let Some(i) = v.stick {
        if i != j {
            lemma_names_differ(b, i, j);
        }
    }
}

/// Repairs give nobody a finger, and change nothing else.
proof fn lemma_reclaim_spares(b: Seq<(String, Binding)>, v: EngineView, n: int, name: Seq<char>)
    requires
        v.pool.get(name) is None,
    ensures
        ({
            let w = v.reclaimed(b, n).0;
            &&& w.pool.get(name) is None
            &&& w == (EngineView { pool: w.pool, ..v })
        }),
    decreases n,
{
    if n > 0 {
        lemma_reclaim_spares(b, v, n - 1, name);
    }
}

/// Gestures give nobody a finger.
proof fn lemma_gestures_spare(
    p: PoolView,
    b: Seq<(String, Binding)>,
    s: Seq<ActiveSwipe>,
    now: int,
    f: Seq<SwipeFigures>,
    n: int,
    name: Seq<char>,
)
    requires
        p.get(name) is None,
    ensures
        crate::engine::swipe_pool(p, b, s, now, f, n).get(name) is None,
    decreases n,
{
    if n > 0 {
        lemma_gestures_spare(p, b, s, now, f, n - 1, name);
    }
}

/// Pressing the aim trigger calls off a delayed press, and letting go of it
/// calls off the delayed press, the gathered motion and the aim finger itself.
pub proof fn law_the_aim_trigger_calls_off_a_delayed_press(
    b: Seq<(String, Binding)>,
    v: EngineView,
    t: TriggerKind,
    i: int,
    f: EventFigures,
)
    requires
        v.enabled,
        crate::engine::owner_from(b, t, 0) == Some(i),
        b[i].1 is Aim,
    ensures
        !v.held.contains(t) ==> v.handled(b, InputEvent::Press(t), f).0.down_at is None,
        v.held.contains(t) ==> ({
            let w = v.handled(b, InputEvent::Release(t), f).0;
            w.down_at is None && w.aim_pos is None && w.gathered == Motion::none_spec()
                && w.pool.get(b[i].0@) is None
        }),
{
}

/// A lost key release leaks no finger: after the repairs of a frame, every tap
/// or toggle that still has a finger has its key held.
pub proof fn law_orphaned_fingers_are_reclaimed(
    b: Seq<(String, Binding)>,
    v: EngineView,
    n: int,
    i: int,
)
    requires
        0 <= i < n <= b.len(),
        crate::engine::hold_trigger(b[i].1) is Some,
        v.reclaimed(b, n).0.pool.get(b[i].0@) is Some,
    ensures
        v.held.contains(crate::engine::hold_trigger(b[i].1)->0),
    decreases n,
{
    lemma_reclaim_held(b, v, n - 1);
    if i < n - 1 {
        let w = v.reclaimed(b, n - 1).0;
        assert(w.pool.get(b[i].0@) is Some);
        law_orphaned_fingers_are_reclaimed(b, v, n - 1, i);
    }
}

proof fn lemma_reclaim_held(b: Seq<(String, Binding)>, v: EngineView, n: int)
    ensures
        v.reclaimed(b, n).0.held == v.held,
    decreases n,
{
    if n > 0 {
        lemma_reclaim_held(b, v, n - 1);
    }
}

/// A frame leaves the engine switched on.
pub proof fn lemma_ticking_keeps_enabled(
    v: EngineView,
    b: Seq<(String, Binding)>,
    now: int,
    f: Figures,
)
    ensures
        v.ticked(b, now, f).0.enabled == v.enabled,
{
    reveal(EngineView::steer_pending);
    reveal(EngineView::press_delayed);
    reveal(EngineView::aim_frame);
    reveal(EngineView::gestures);
    reveal(EngineView::frame);
    if v.enabled {
        let w = (EngineView { now, ..v }).steer_pending(b, f.stick).0;
        lemma_reclaim_enabled(w, b, b.len() as int);
    }
}

proof fn lemma_reclaim_enabled(v: EngineView, b: Seq<(String, Binding)>, n: int)
    ensures
        v.reclaimed(b, n).0.enabled == v.enabled,
    decreases n,
{
    if n > 0 {
        lemma_reclaim_enabled(v, b, n - 1);
    }
}

/// A new engine has every finger accounted for, as long as no binding carries
/// the name reserved for the second aim finger.
pub proof fn law_a_new_engine_is_sane(b: Seq<(String, Binding)>)
    requires
        crate::by_name::sorted_names(b),
        unshadowed(b),
        b.len() <= usize::MAX,
    ensures
        sane(b, EngineView::fresh()),
{
}

} // verus!
