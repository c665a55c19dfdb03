//! What holds of presses, releases and gestures, told from the bindings alone.

use crate::engine::{
    answers, in_group, outside_group, owner_from, released, step_at, swipe_acts, swipe_lifts,
    swipe_out, swipe_pool, swipe_query, swipe_rest, ActiveSwipe, EngineView, EventFigures,
    InputEvent, SwipeFigures, TriggerKind,
};
use crate::num::Num;
use crate::profile::{Binding, Trigger};
use crate::touch::{Norm, PoolView, TouchAction};
use vstd::prelude::*;

verus! {

/// The engine tells the triggers of a profile apart, and knows each for what it is.
pub proof fn law_kinds_tell_triggers_apart(a: Trigger, b: Trigger)
    ensures
        TriggerKind::of(a) == TriggerKind::of(b) <==> a == b,
        a matches Trigger::Key(k) ==> TriggerKind::of(a) == TriggerKind::Key(k),
        a is MouseLeft <==> TriggerKind::of(a) is MouseLeft,
        a is MouseRight <==> TriggerKind::of(a) is MouseRight,
        a is MouseMiddle <==> TriggerKind::of(a) is MouseMiddle,
        a is WheelUp <==> TriggerKind::of(a) is WheelUp,
        a is WheelDown <==> TriggerKind::of(a) is WheelDown,
{
}

/// A binding answers to the triggers written in it and to no other.
pub proof fn law_a_binding_answers_to_its_triggers(b: Binding, t: Trigger)
    ensures
        answers(b, TriggerKind::of(t)) <==> match b {
            Binding::Tap { trigger, .. } => trigger == t,
            Binding::Toggle { trigger, .. } => trigger == t,
            Binding::Swipe { trigger, .. } => trigger == t,
            Binding::Joystick { up, down, left, right, .. } => up == t || down == t || left == t
                || right == t,
            Binding::Aim { toggle, .. } => toggle == Some(t),
        },
{
    let s = b.triggers_spec();
    law_kinds_tell_triggers_apart(t, t);
    match b {
        Binding::Joystick { up, down, left, right, .. } => {
            assert(s[0] == up && s[1] == down && s[2] == left && s[3] == right);
        },
        Binding::Aim { toggle, .. } => {
            if toggle is Some {
                assert(s[0] == toggle->0);
            }
        },
        Binding::Tap { trigger, .. } => {
            assert(s[0] == trigger);
        },
        Binding::Toggle { trigger, .. } => {
            assert(s[0] == trigger);
        },
        Binding::Swipe { trigger, .. } => {
            assert(s[0] == trigger);
        },
    }
}

/// A trigger belongs to the first binding that answers to it.
pub proof fn law_the_first_binding_answers(b: Seq<(String, Binding)>, t: TriggerKind, i: int)
    ensures
        owner_from(b, t, 0) == Some(i) <==> 0 <= i < b.len() && answers(b[i].1, t) && forall|j: int|
            0 <= j < i ==> !answers((#[trigger] b[j]).1, t),
        owner_from(b, t, 0) is None <==> forall|j: int|
            0 <= j < b.len() ==> !answers((#[trigger] b[j]).1, t),
{
    lemma_owner(b, t, 0);
}

proof fn lemma_owner(b: Seq<(String, Binding)>, t: TriggerKind, k: int)
    requires
        0 <= k,
    ensures
        match owner_from(b, t, k) {
            Some(i) => k <= i < b.len() && answers(b[i].1, t) && forall|j: int|
                k <= j < i ==> !answers((#[trigger] b[j]).1, t),
            None => forall|j: int| k <= j < b.len() ==> !answers((#[trigger] b[j]).1, t),
        },
    decreases b.len() - k,
{
    if k < b.len() && !answers(b[k].1, t) {
        lemma_owner(b, t, k + 1);
    }
}

/// Pressing the key of a tap or a toggle touches the screen at the place written
/// in the binding, with the pointer it is given, and does nothing else.
pub proof fn law_a_press_touches_the_place_of_its_binding(
    b: Seq<(String, Binding)>,
    v: EngineView,
    t: TriggerKind,
    i: int,
    f: EventFigures,
)
    requires
        v.enabled,
        !v.held.contains(t),
        owner_from(b, t, 0) == Some(i),
        b[i].1 is Tap || b[i].1 is Toggle,
        v.pool.acquire(b[i].0@).1 is Some,
    ensures
        ({
            let o = v.handled(b, InputEvent::Press(t), f);
            let at = match b[i].1 {
                Binding::Toggle { at, .. } => at,
                _ => b[i].1->Tap_at,
            };
            &&& o.1.len() == 1
            &&& o.1[0] is Down
            &&& o.1[0]->Down_at.x == at.x
            &&& o.1[0]->Down_at.y == at.y
            &&& o.0.pool.get(b[i].0@) == Some(o.1[0]->Down_id)
            &&& v.pool.get(b[i].0@) is Some ==> v.pool.get(b[i].0@) == Some(o.1[0]->Down_id)
            &&& same_but_fingers(v.with_held(t, true), o.0)
            &&& others_keep_fingers(v.pool, o.0.pool, b[i].0@)
        }),
{
}

/// Two states that differ at most in who owns which pointer.
pub open spec fn same_but_fingers(v: EngineView, w: EngineView) -> bool {
    &&& w.held == v.held
    &&& w.swipes == v.swipes
    &&& w.now == v.now
    &&& w.aspect == v.aspect
    &&& w.pending == v.pending
    &&& w.last_move == v.last_move
    &&& w.down_at == v.down_at
    &&& w.gathered == v.gathered
    &&& w.second == v.second
    &&& w.stick == v.stick
    &&& w.aim_pos == v.aim_pos
    &&& w.enabled == v.enabled
    &&& w.offscreen_ok == v.offscreen_ok
}

/// Nobody but `n` gained or lost a pointer.
pub open spec fn others_keep_fingers(p: PoolView, q: PoolView, n: Seq<char>) -> bool {
    forall|m: Seq<char>| m != n ==> #[trigger] q.get(m) == p.get(m)
}

/// A press that nothing answers to, or that finds no free pointer, only counts as
/// held.
pub proof fn law_a_press_without_use_is_only_remembered(
    b: Seq<(String, Binding)>,
    v: EngineView,
    t: TriggerKind,
    f: EventFigures,
)
    requires
        v.enabled,
        match owner_from(b, t, 0) {
            None => true,
            Some(i) => (b[i].1 is Tap || b[i].1 is Toggle) && v.pool.acquire(b[i].0@).1 is None,
        },
    ensures
        v.handled(b, InputEvent::Press(t), f).1.len() == 0,
        v.handled(b, InputEvent::Press(t), f).0 == v.with_held(t, true),
{
    assert(v.handled(b, InputEvent::Press(t), f).0 =~= v.with_held(t, true));
}

/// Pressing the key of an aim binding puts its finger down at the binding's
/// origin, from which aiming goes on, and calls off a press that was still due.
pub proof fn law_the_aim_key_goes_down_at_the_origin(
    b: Seq<(String, Binding)>,
    v: EngineView,
    t: TriggerKind,
    i: int,
    f: EventFigures,
)
    requires
        v.enabled,
        !v.held.contains(t),
        owner_from(b, t, 0) == Some(i),
        b[i].1 is Aim,
    ensures
        ({
            let o = v.handled(b, InputEvent::Press(t), f);
            &&& v.pool.acquire(b[i].0@).1 is None ==> o.1.len() == 0
            &&& v.pool.acquire(b[i].0@).1 is Some ==> o.1.len() == 1 && o.1[0] is Down
                && o.1[0]->Down_at == b[i].1->Aim_origin && o.0.pool.get(b[i].0@) == Some(
                o.1[0]->Down_id,
            )
            &&& o.0.aim_pos == Some(b[i].1->Aim_origin)
            &&& o.0.down_at is None
            &&& same_but_fingers(
                EngineView { aim_pos: o.0.aim_pos, down_at: o.0.down_at, ..v.with_held(t, true) },
                o.0,
            )
            &&& others_keep_fingers(v.pool, o.0.pool, b[i].0@)
        }),
{
}

/// Letting go of the key of an aim binding lifts its finger and forgets where it
/// was and what had been gathered for it.
pub proof fn law_the_aim_key_lifts_the_finger(
    b: Seq<(String, Binding)>,
    v: EngineView,
    t: TriggerKind,
    i: int,
    f: EventFigures,
)
    requires
        v.enabled,
        v.held.contains(t),
        owner_from(b, t, 0) == Some(i),
        b[i].1 is Aim,
    ensures
        ({
            let o = v.handled(b, InputEvent::Release(t), f);
            &&& match v.pool.get(b[i].0@) {
                Some(id) => o.1 == seq![TouchAction::Up { id }],
                None => o.1.len() == 0,
            }
            &&& o.0.pool.get(b[i].0@) is None
            &&& o.0.aim_pos is None
            &&& o.0.down_at is None
            &&& o.0.gathered.quiet_spec()
            &&& same_but_fingers(
                EngineView {
                    aim_pos: None,
                    down_at: None,
                    gathered: o.0.gathered,
                    ..v.with_held(t, false)
                },
                o.0,
            )
            &&& others_keep_fingers(v.pool, o.0.pool, b[i].0@)
        }),
{
}

/// Letting go of the key of a tap or a toggle lifts the finger it put down, and
/// does nothing else.
pub proof fn law_letting_go_lifts_the_finger(
    b: Seq<(String, Binding)>,
    v: EngineView,
    t: TriggerKind,
    i: int,
    f: EventFigures,
)
    requires
        v.enabled,
        v.held.contains(t),
        owner_from(b, t, 0) == Some(i),
        b[i].1 is Tap || b[i].1 is Toggle,
    ensures
        ({
            let o = v.handled(b, InputEvent::Release(t), f);
            &&& match v.pool.get(b[i].0@) {
                Some(id) => o.1 == seq![TouchAction::Up { id }],
                None => o.1.len() == 0,
            }
            &&& o.0.pool.get(b[i].0@) is None
            &&& same_but_fingers(v.with_held(t, false), o.0)
            &&& others_keep_fingers(v.pool, o.0.pool, b[i].0@)
        }),
{
}

/// Letting go of what was not held, or of what nothing answers to, does nothing.
pub proof fn law_a_release_without_use_is_ignored(
    b: Seq<(String, Binding)>,
    v: EngineView,
    t: TriggerKind,
    f: EventFigures,
)
    requires
        v.enabled,
        !v.held.contains(t) || owner_from(b, t, 0) is None,
    ensures
        v.handled(b, InputEvent::Release(t), f).1.len() == 0,
        v.handled(b, InputEvent::Release(t), f).0 == v.with_held(t, false),
{
    assert(v.handled(b, InputEvent::Release(t), f).0 =~= v.with_held(t, false));
}

/// Mouse motion produces nothing by itself: it is gathered, and the time of it
/// remembered.
pub proof fn law_mouse_motion_is_gathered(
    b: Seq<(String, Binding)>,
    v: EngineView,
    dx: Num,
    dy: Num,
    f: EventFigures,
)
    requires
        v.enabled,
    ensures
        ({
            let o = v.handled(b, InputEvent::MouseMove { dx, dy }, f);
            &&& o.1.len() == 0
            &&& o.0.gathered == f.total
            &&& o.0.last_move == v.now
            &&& o.0.pool == v.pool
            &&& same_but_fingers(
                EngineView { gathered: f.total, last_move: v.now, ..v },
                o.0,
            )
        }),
{
}

/// A joystick is pushed right by its right key, left by its left key, down by its
/// down key and up by its up key; opposite keys cancel out.
pub proof fn law_a_joystick_follows_its_keys(v: EngineView, b: Binding)
    requires
        b is Joystick,
    ensures
        ({
            let (dx, dy) = v.stick_dir(b);
            let right = v.held.contains(TriggerKind::of(b->right));
            let left = v.held.contains(TriggerKind::of(b->left));
            let down = v.held.contains(TriggerKind::of(b->down));
            let up = v.held.contains(TriggerKind::of(b->up));
            &&& dx == 1 <==> right && !left
            &&& dx == -1 <==> left && !right
            &&& dx == 0 <==> right == left
            &&& dy == 1 <==> down && !up
            &&& dy == -1 <==> up && !down
            &&& dy == 0 <==> down == up
            &&& v.pushes(b) <==> right || left || down || up
        }),
{
}

/// The place of a joystick's finger is worked out from the centre and the radius
/// of its binding and from the direction its keys push it in.
pub proof fn law_a_joystick_is_placed_from_its_binding(
    b: Seq<(String, Binding)>,
    v: EngineView,
    i: int,
)
    ensures
        match b[i].1 {
            Binding::Joystick { center, radius, .. } => {
                let q = v.stick_query(b, i)->0;
                &&& v.stick_query(b, i) is Some
                &&& q.center == center
                &&& q.radius == radius
                &&& q.dx == v.stick_dir(b[i].1).0
                &&& q.dy == v.stick_dir(b[i].1).1
            },
            _ => v.stick_query(b, i) is None,
        },
{
}

/// The first key of a joystick puts its finger down at the centre, and leaves the
/// direction for the next frame. Further keys move the finger: to the centre where
/// they cancel out, else to the place worked out for it.
pub proof fn law_a_joystick_key_moves_the_finger(
    b: Seq<(String, Binding)>,
    v: EngineView,
    t: TriggerKind,
    i: int,
    f: EventFigures,
)
    requires
        v.enabled,
        !v.held.contains(t),
        owner_from(b, t, 0) == Some(i),
        b[i].1 is Joystick,
        v.pool.acquire(b[i].0@).1 is Some,
    ensures
        ({
            let o = v.handled(b, InputEvent::Press(t), f);
            let dir = v.with_held(t, true).stick_dir(b[i].1);
            &&& o.1.len() == 1
            &&& match v.pool.get(b[i].0@) {
                None => o.1[0] is Down && o.1[0]->Down_at == b[i].1->center && o.0.stick == Some(i)
                    && o.0.pool.get(b[i].0@) == Some(o.1[0]->Down_id),
                Some(id) => o.1[0] is Move && o.1[0]->Move_id == id && squeezed(
                    if dir == (0int, 0int) {
                        b[i].1->center
                    } else {
                        f.stick
                    },
                    o.1[0]->Move_at,
                ) && o.0.stick == v.stick && o.0.pool.get(b[i].0@) == Some(id),
            }
            &&& same_but_fingers(EngineView { stick: o.0.stick, ..v.with_held(t, true) }, o.0)
            &&& others_keep_fingers(v.pool, o.0.pool, b[i].0@)
        }),
{
    lemma_own_key(b, v, t, i);
    crate::touch::law_a_point_is_squeezed(f.stick.x, f.stick.y);
    crate::touch::law_a_point_is_squeezed(b[i].1->center.x, b[i].1->center.y);
}

/// `q` is `p` with each coordinate that lies outside the screen moved to the
/// screen's nearer edge.
pub open spec fn squeezed(p: Norm, q: Norm) -> bool {
    held_in(p.x, q.x) && held_in(p.y, q.y)
}

/// `q` is `p`, or the nearer end of 0..1 where `p` lies outside.
pub open spec fn held_in(p: Num, q: Num) -> bool {
    let zero = Num { bits: 0 };
    let one = Num { bits: 0x3f80_0000 };
    &&& p.lt(zero) ==> q == zero
    &&& one.lt(p) ==> q == one
    &&& !p.lt(zero) && !one.lt(p) ==> q == p
}

/// A held key of a joystick pushes it.
proof fn lemma_own_key(b: Seq<(String, Binding)>, v: EngineView, t: TriggerKind, i: int)
    requires
        owner_from(b, t, 0) == Some(i),
        b[i].1 is Joystick,
    ensures
        v.with_held(t, true).pushes(b[i].1),
{
    lemma_owner(b, t, 0);
    let s = b[i].1.triggers_spec();
    let j = choose|j: int| 0 <= j < s.len() && TriggerKind::of(#[trigger] s[j]) == t;
    assert(s =~= seq![b[i].1->up, b[i].1->down, b[i].1->left, b[i].1->right]);
}

/// Letting go of one of a joystick's keys while another is held moves the finger,
/// to the centre where the keys left cancel out, else to the place worked out for
/// it.
pub proof fn law_letting_go_turns_a_joystick(
    b: Seq<(String, Binding)>,
    v: EngineView,
    t: TriggerKind,
    i: int,
    f: EventFigures,
)
    requires
        v.enabled,
        v.held.contains(t),
        owner_from(b, t, 0) == Some(i),
        b[i].1 is Joystick,
        v.with_held(t, false).pushes(b[i].1),
        v.pool.get(b[i].0@) is Some,
    ensures
        ({
            let o = v.handled(b, InputEvent::Release(t), f);
            let dir = v.with_held(t, false).stick_dir(b[i].1);
            &&& o.1.len() == 1
            &&& o.1[0] is Move
            &&& Some(o.1[0]->Move_id) == v.pool.get(b[i].0@)
            &&& squeezed(
                if dir == (0int, 0int) {
                    b[i].1->center
                } else {
                    f.stick
                },
                o.1[0]->Move_at,
            )
            &&& o.0.pool == v.pool
            &&& same_but_fingers(v.with_held(t, false), o.0)
        }),
{
    crate::touch::law_a_point_is_squeezed(f.stick.x, f.stick.y);
    crate::touch::law_a_point_is_squeezed(b[i].1->center.x, b[i].1->center.y);
}

/// Letting go of a joystick's last key touches nobody else's finger.
pub proof fn law_a_released_joystick_is_gone(
    b: Seq<(String, Binding)>,
    v: EngineView,
    t: TriggerKind,
    i: int,
    f: EventFigures,
)
    requires
        v.enabled,
        v.held.contains(t),
        owner_from(b, t, 0) == Some(i),
        b[i].1 is Joystick,
        !v.with_held(t, false).pushes(b[i].1),
    ensures
        ({
            let o = v.handled(b, InputEvent::Release(t), f);
            &&& match v.pool.get(b[i].0@) {
                Some(id) => o.1 == seq![TouchAction::Up { id }],
                None => o.1.len() == 0,
            }
            &&& o.0.pool.get(b[i].0@) is None
            &&& same_but_fingers(v.with_held(t, false), o.0)
            &&& others_keep_fingers(v.pool, o.0.pool, b[i].0@)
        }),
{
}

/// The frame after a joystick went down moves its finger: to the place worked out
/// for it, or to the centre where its keys cancel out. That is done once.
pub proof fn law_a_deferred_direction_is_applied_once(
    b: Seq<(String, Binding)>,
    v: EngineView,
    i: int,
    at: Norm,
)
    requires
        v.stick == Some(i),
        b[i].1 is Joystick,
        v.pushes(b[i].1),
        v.pool.get(b[i].0@) is Some,
    ensures
        ({
            let o = v.steer_pending(b, at);
            &&& o.1.len() == 1
            &&& o.1[0] is Move
            &&& Some(o.1[0]->Move_id) == v.pool.get(b[i].0@)
            &&& squeezed(
                if v.stick_dir(b[i].1) == (0int, 0int) {
                    b[i].1->center
                } else {
                    at
                },
                o.1[0]->Move_at,
            )
            &&& o.0.stick is None
            &&& o.0.pool == v.pool
            &&& same_but_fingers(EngineView { stick: None, ..v }, o.0)
            &&& o.0.steer_pending(b, at) == (o.0, Seq::<TouchAction>::empty())
        }),
{
    reveal(EngineView::steer_pending);
    crate::touch::law_a_point_is_squeezed(at.x, at.y);
    crate::touch::law_a_point_is_squeezed(b[i].1->center.x, b[i].1->center.y);
}

// --------------------------------------------------------------- gestures

/// A gesture and a group belong together.
pub open spec fn of_group(b: Seq<(String, Binding)>, s: ActiveSwipe, g: Option<Seq<char>>) -> bool {
    g is Some && b[s.index as int].1.group_spec() == g
}

/// Starting a gesture puts a finger down where the gesture begins and remembers
/// when it did. Running gestures of the same group are lifted and forgotten; those
/// outside go on. A gesture that is playing already is not started again.
pub proof fn law_a_gesture_begins_at_its_start(
    b: Seq<(String, Binding)>,
    v: EngineView,
    t: TriggerKind,
    i: int,
    f: EventFigures,
)
    requires
        v.enabled,
        !v.held.contains(t),
        owner_from(b, t, 0) == Some(i),
        i <= usize::MAX,
        0 <= v.now <= u64::MAX,
        b[i].1 is Swipe,
    ensures
        ({
            let o = v.handled(b, InputEvent::Press(t), f);
            let playing = exists|k: int|
                0 <= k < v.swipes.len() && (#[trigger] v.swipes[k]).index == i;
            let g = b[i].1.group_spec();
            let started = o.1.len() > 0 && o.1.last() is Down;
            &&& playing ==> o.1.len() == 0 && o.0 == v.with_held(t, true)
            &&& !playing ==> {
                &&& started ==> {
                    let s = o.0.swipes.last();
                    &&& o.0.swipes.len() > 0
                    &&& o.1.last()->Down_at == b[i].1->from
                    &&& o.0.pool.get(b[i].0@) == Some(o.1.last()->Down_id)
                    &&& s.index == i
                    &&& s.id == o.1.last()->Down_id
                    &&& s.start_ms == v.now
                    &&& s.last_step == 0
                    &&& s.last_sent == b[i].1->from
                }
                &&& forall|k: int|
                    0 <= k < v.swipes.len() ==> if of_group(b, #[trigger] v.swipes[k], g) {
                        o.1.contains(TouchAction::Up { id: v.swipes[k].id })
                    } else {
                        o.0.swipes.contains(v.swipes[k])
                    }
                &&& forall|k: int|
                    0 <= k < o.1.len() ==> (#[trigger] o.1[k] is Down && k == o.1.len() - 1) || (exists|
                        j: int,
                    |
                        0 <= j < v.swipes.len() && of_group(b, #[trigger] v.swipes[j], g) && o.1[k]
                            == TouchAction::Up { id: v.swipes[j].id })
                &&& forall|k: int|
                    0 <= k < o.0.swipes.len() ==> (#[trigger] o.0.swipes[k]).index == i || (
                    v.swipes.contains(o.0.swipes[k]) && !of_group(b, o.0.swipes[k], g))
                &&& (forall|k: int| 0 <= k < v.swipes.len() ==> !of_group(b, #[trigger] v.swipes[k], g))
                    && v.pool.acquire(b[i].0@).1 is Some ==> started && o.1.len() == 1 && o.0.swipes
                    == v.swipes.push(o.0.swipes.last()) && others_keep_fingers(
                    v.pool,
                    o.0.pool,
                    b[i].0@,
                )
            }
            &&& same_but_fingers(EngineView { swipes: o.0.swipes, ..v.with_held(t, true) }, o.0)
        }),
{
    let w = v.with_held(t, true);
    let o = v.handled(b, InputEvent::Press(t), f);
    let g = b[i].1.group_spec();
    let n = v.swipes.len() as int;
    let gone = in_group(b, v.swipes, g, n);
    let kept = outside_group(b, v.swipes, g, n);
    lemma_groups(b, v.swipes, g, n);
    lemma_owner(b, t, 0);
    let playing = exists|k: int| 0 <= k < v.swipes.len() && (#[trigger] v.swipes[k]).index == i;
    if playing {
        assert(o.0 =~= w);
    } else {
        let lifts = swipe_lifts(gone);
        assert forall|k: int| 0 <= k < v.swipes.len() implies if of_group(b, #[trigger] v.swipes[k], g) {
            o.1.contains(TouchAction::Up { id: v.swipes[k].id })
        } else {
            o.0.swipes.contains(v.swipes[k])
        } by {
            if of_group(b, v.swipes[k], g) {
                let j = choose|j: int| 0 <= j < gone.len() && gone[j] == v.swipes[k];
                assert(lifts[j] == TouchAction::Up { id: v.swipes[k].id });
                assert(o.1[j] == lifts[j]);
            } else {
                let j = choose|j: int| 0 <= j < kept.len() && kept[j] == v.swipes[k];
                assert(o.0.swipes[j] == kept[j]);
            }
        }
        assert forall|k: int| 0 <= k < o.1.len() implies (#[trigger] o.1[k] is Down && k == o.1.len() - 1)
            || (exists|j: int|
            0 <= j < v.swipes.len() && of_group(b, #[trigger] v.swipes[j], g) && o.1[k]
                == TouchAction::Up { id: v.swipes[j].id }) by {
            if k < gone.len() {
                assert(o.1[k] == lifts[k]);
                assert(gone.contains(gone[k]));
                let j = choose|j: int| 0 <= j < v.swipes.len() && v.swipes[j] == gone[k];
                assert(of_group(b, v.swipes[j], g));
            }
        }
        assert forall|k: int| 0 <= k < o.0.swipes.len() implies (#[trigger] o.0.swipes[k]).index == i || (
        v.swipes.contains(o.0.swipes[k]) && !of_group(b, o.0.swipes[k], g)) by {
            if k < kept.len() {
                assert(o.0.swipes[k] == kept[k]);
                assert(kept.contains(kept[k]));
            }
        }
        if forall|k: int| 0 <= k < v.swipes.len() ==> !of_group(b, #[trigger] v.swipes[k], g) {
            if gone.len() > 0 {
                assert(gone.contains(gone[0]));
                let j = choose|j: int| 0 <= j < v.swipes.len() && v.swipes[j] == gone[0];
                assert(of_group(b, v.swipes[j], g));
            }
            lemma_all_outside(b, v.swipes, g, n);
            assert(v.swipes.take(n) =~= v.swipes);
            assert(released(v.pool, b, gone) == v.pool);
        }
    }
}

/// Which gestures are in a group and which are not.
proof fn lemma_groups(b: Seq<(String, Binding)>, s: Seq<ActiveSwipe>, g: Option<Seq<char>>, n: int)
    requires
        0 <= n <= s.len(),
    ensures
        forall|k: int|
            0 <= k < n ==> if of_group(b, #[trigger] s[k], g) {
                in_group(b, s, g, n).contains(s[k])
            } else {
                outside_group(b, s, g, n).contains(s[k])
            },
        forall|x: ActiveSwipe| #[trigger]
            in_group(b, s, g, n).contains(x) ==> s.contains(x) && of_group(b, x, g),
        forall|x: ActiveSwipe| #[trigger]
            outside_group(b, s, g, n).contains(x) ==> s.contains(x) && !of_group(b, x, g),
    decreases n,
{
    if n > 0 {
        lemma_groups(b, s, g, n - 1);
        let x = s[n - 1];
        let (ins, outs) = (in_group(b, s, g, n - 1), outside_group(b, s, g, n - 1));
        let (ins2, outs2) = (in_group(b, s, g, n), outside_group(b, s, g, n));
        assert forall|y: ActiveSwipe| #[trigger] ins.contains(y) implies ins2.contains(y) by {
            let k = choose|k: int| 0 <= k < ins.len() && ins[k] == y;
            assert(ins2[k] == y);
        }
        assert forall|y: ActiveSwipe| #[trigger] outs.contains(y) implies outs2.contains(y) by {
            let k = choose|k: int| 0 <= k < outs.len() && outs[k] == y;
            assert(outs2[k] == y);
        }
        if of_group(b, x, g) {
            assert(ins2.last() == x);
        } else {
            assert(outs2.last() == x);
        }
        assert forall|y: ActiveSwipe| #[trigger] ins2.contains(y) implies s.contains(y) && of_group(
            b,
            y,
            g,
        ) by {
            let k = choose|k: int| 0 <= k < ins2.len() && ins2[k] == y;
            if k < ins.len() {
                assert(ins[k] == y);
                assert(ins.contains(y));
            }
        }
        assert forall|y: ActiveSwipe| #[trigger] outs2.contains(y) implies s.contains(y) && !of_group(
            b,
            y,
            g,
        ) by {
            let k = choose|k: int| 0 <= k < outs2.len() && outs2[k] == y;
            if k < outs.len() {
                assert(outs[k] == y);
                assert(outs.contains(y));
            }
        }
    }
}

proof fn lemma_all_outside(
    b: Seq<(String, Binding)>,
    s: Seq<ActiveSwipe>,
    g: Option<Seq<char>>,
    n: int,
)
    requires
        0 <= n <= s.len(),
        forall|k: int| 0 <= k < s.len() ==> !of_group(b, #[trigger] s[k], g),
    ensures
        outside_group(b, s, g, n) == s.take(n),
    decreases n,
{
    if n > 0 {
        lemma_all_outside(b, s, g, n - 1);
        assert(!of_group(b, s[n - 1], g));
        assert(s.take(n) =~= s.take(n - 1).push(s[n - 1]));
    } else {
        assert(s.take(0) =~= Seq::<ActiveSwipe>::empty());
    }
}

/// A gesture runs in twelve steps of equal time. It is over once its time is, and
/// at once where it has none; before that it is at the last step whose time came.
pub proof fn law_a_gesture_keeps_time(now: int, start: int, duration: int)
    requires
        0 <= duration,
    ensures
        ({
            let k = step_at(now, start, duration);
            let elapsed = if now > start {
                now - start
            } else {
                0
            };
            &&& 0 <= k <= 12
            &&& k == 12 <==> elapsed >= duration
            &&& k < 12 ==> k * duration <= 12 * elapsed < (k + 1) * duration
        }),
{
    let elapsed = if now > start {
        now - start
    } else {
        0
    };
    if duration > 0 {
        let k = elapsed * 12 / duration;
        vstd::arithmetic::div_mod::lemma_fundamental_div_mod(elapsed * 12, duration);
        let r = elapsed * 12 % duration;
        assert(duration * k == k * duration) by (nonlinear_arith);
        assert((k + 1) * duration == k * duration + duration) by (nonlinear_arith);
        assert(0 <= r < duration);
        if elapsed >= duration {
            assert(k >= 12) by (nonlinear_arith)
                requires
                    elapsed * 12 < (k + 1) * duration,
                    elapsed >= duration,
                    duration > 0,
            ;
        } else {
            assert(k < 12) by (nonlinear_arith)
                requires
                    k * duration <= elapsed * 12,
                    elapsed < duration,
                    duration > 0,
            ;
        }
        assert(k >= 0) by (nonlinear_arith)
            requires
                elapsed * 12 < (k + 1) * duration,
                elapsed >= 0,
                duration > 0,
        ;
    }
}

/// The place of a gesture is worked out from where its binding begins and ends,
/// how it eases, the step it is at, and where its finger was sent last.
pub proof fn law_a_gesture_is_placed_from_its_binding(
    b: Seq<(String, Binding)>,
    s: ActiveSwipe,
    now: int,
)
    requires
        b[s.index as int].1 is Swipe,
    ensures
        ({
            let q = swipe_query(b, s, now);
            let own = b[s.index as int].1;
            &&& q.from == own->from
            &&& q.to == own->to
            &&& q.easing == own->easing
            &&& q.last_sent == s.last_sent
            &&& q.step == step_at(now, s.start_ms as int, own->duration_ms as int)
        }),
{
    law_a_gesture_keeps_time(now, s.start_ms as int, b[s.index as int].1->duration_ms as int);
}

/// A gesture that has reached a new step sends its finger to the place worked out
/// for it. A way too short to matter is not sent, and the next is measured from
/// the place sent last. The end is always sent, and lifts the finger.
pub proof fn law_a_gesture_advances(
    b: Seq<(String, Binding)>,
    s: ActiveSwipe,
    now: int,
    f: SwipeFigures,
)
    requires
        b[s.index as int].1 is Swipe,
    ensures
        ({
            let o = swipe_out(b, s, now, f);
            let step = step_at(now, s.start_ms as int, b[s.index as int].1->duration_ms as int);
            let far = (Num { bits: 0x3b03_126f }).le(f.gap);
            &&& step == s.last_step ==> o.next == s && o.acts.len() == 0 && !o.done
            &&& step != s.last_step ==> {
                &&& o.done <==> step == 12
                &&& o.next.last_step == step
                &&& o.next.index == s.index && o.next.id == s.id && o.next.start_ms == s.start_ms
                &&& (step == 12 || far) ==> o.acts.len() >= 1 && o.acts[0] is Move
                    && o.acts[0]->Move_id == s.id && squeezed(f.at, o.acts[0]->Move_at)
                    && o.next.last_sent == o.acts[0]->Move_at
                &&& step == 12 ==> o.acts.len() == 2 && o.acts[1] == (TouchAction::Up { id: s.id })
                &&& step != 12 && far ==> o.acts.len() == 1
                &&& step != 12 && !far ==> o.acts.len() == 0 && o.next.last_sent == s.last_sent
            }
        }),
{
    law_a_gesture_keeps_time(now, s.start_ms as int, b[s.index as int].1->duration_ms as int);
    crate::touch::law_a_point_is_squeezed(f.at.x, f.at.y);
}

/// In a frame every gesture advances, each by itself: what it does is done, a
/// gesture that is over is forgotten and gives its pointer back, and the others go
/// on from where they are.
pub proof fn law_every_gesture_advances(
    b: Seq<(String, Binding)>,
    v: EngineView,
    f: Seq<SwipeFigures>,
    k: int,
)
    requires
        0 <= k < v.swipes.len(),
    ensures
        ({
            let o = v.gestures(b, f);
            let own = swipe_out(b, v.swipes[k], v.now, f[k]);
            &&& exists|before: Seq<TouchAction>, after: Seq<TouchAction>|
                o.1 == #[trigger] (before + own.acts + after)
            &&& own.done ==> o.0.pool.get(b[v.swipes[k].index as int].0@) is None
            &&& !own.done ==> o.0.swipes.contains(own.next)
            &&& forall|m: Seq<char>|
                (forall|j: int|
                    0 <= j < v.swipes.len() && swipe_out(b, v.swipes[j], v.now, f[j]).done ==> b[(
                    #[trigger] v.swipes[j]).index as int].0@ != m) ==> #[trigger] o.0.pool.get(m)
                    == v.pool.get(m)
            &&& same_but_fingers(EngineView { swipes: o.0.swipes, ..v }, o.0)
            &&& forall|x: ActiveSwipe| #[trigger]
                o.0.swipes.contains(x) ==> exists|j: int|
                    0 <= j < v.swipes.len() && !swipe_out(b, v.swipes[j], v.now, f[j]).done
                        && #[trigger] swipe_out(b, v.swipes[j], v.now, f[j]).next == x
        }),
{
    reveal(EngineView::gestures);
    let n = v.swipes.len() as int;
    lemma_acts_in(b, v.swipes, v.now, f, n, k);
    lemma_rest(b, v.swipes, v.now, f, n);
    lemma_pool_after(v.pool, b, v.swipes, v.now, f, n);
    let own = swipe_out(b, v.swipes[k], v.now, f[k]);
    if !own.done {
        assert(swipe_rest(b, v.swipes, v.now, f, n).contains(
            swipe_out(b, v.swipes[k], v.now, f[k]).next,
        ));
    }
}

proof fn lemma_acts_in(
    b: Seq<(String, Binding)>,
    s: Seq<ActiveSwipe>,
    now: int,
    f: Seq<SwipeFigures>,
    n: int,
    k: int,
)
    requires
        0 <= k < n <= s.len(),
    ensures
        exists|before: Seq<TouchAction>, after: Seq<TouchAction>|
            swipe_acts(b, s, now, f, n) == #[trigger] (before + swipe_out(b, s[k], now, f[k]).acts
                + after),
    decreases n,
{
    let own = swipe_out(b, s[k], now, f[k]).acts;
    let last = swipe_out(b, s[n - 1], now, f[n - 1]).acts;
    if k == n - 1 {
        let none = Seq::<TouchAction>::empty();
        assert(swipe_acts(b, s, now, f, n) =~= swipe_acts(b, s, now, f, n - 1) + own + none);
    } else {
        lemma_acts_in(b, s, now, f, n - 1, k);
        let (before, after) = choose|before: Seq<TouchAction>, after: Seq<TouchAction>|
            swipe_acts(b, s, now, f, n - 1) == #[trigger] (before + own + after);
        assert(swipe_acts(b, s, now, f, n) =~= before + own + (after + last));
    }
}

proof fn lemma_rest(
    b: Seq<(String, Binding)>,
    s: Seq<ActiveSwipe>,
    now: int,
    f: Seq<SwipeFigures>,
    n: int,
)
    requires
        0 <= n <= s.len(),
    ensures
        forall|j: int|
            0 <= j < n && !swipe_out(b, s[j], now, f[j]).done ==> swipe_rest(b, s, now, f, n).contains(
                (#[trigger] swipe_out(b, s[j], now, f[j])).next,
            ),
        forall|x: ActiveSwipe| #[trigger]
            swipe_rest(b, s, now, f, n).contains(x) ==> exists|j: int|
                0 <= j < n && !swipe_out(b, s[j], now, f[j]).done && #[trigger] swipe_out(
                    b,
                    s[j],
                    now,
                    f[j],
                ).next == x,
    decreases n,
{
    if n > 0 {
        lemma_rest(b, s, now, f, n - 1);
        let before = swipe_rest(b, s, now, f, n - 1);
        let rest = swipe_rest(b, s, now, f, n);
        let own = swipe_out(b, s[n - 1], now, f[n - 1]);
        assert forall|x: ActiveSwipe| #[trigger] before.contains(x) implies rest.contains(x) by {
            let k = choose|k: int| 0 <= k < before.len() && before[k] == x;
            assert(rest[k] == x);
        }
        if !own.done {
            assert(rest.last() == own.next);
        }
        assert forall|x: ActiveSwipe| #[trigger] rest.contains(x) implies exists|j: int|
            0 <= j < n && !swipe_out(b, s[j], now, f[j]).done && #[trigger] swipe_out(
                b,
                s[j],
                now,
                f[j],
            ).next == x by {
            let k = choose|k: int| 0 <= k < rest.len() && rest[k] == x;
            if k < before.len() {
                assert(before[k] == x);
                assert(before.contains(x));
            }
        }
    }
}

proof fn lemma_pool_after(
    p: PoolView,
    b: Seq<(String, Binding)>,
    s: Seq<ActiveSwipe>,
    now: int,
    f: Seq<SwipeFigures>,
    n: int,
)
    requires
        0 <= n <= s.len(),
    ensures
        forall|j: int|
            0 <= j < n && swipe_out(b, s[j], now, f[j]).done ==> swipe_pool(p, b, s, now, f, n).get(
                b[(#[trigger] s[j]).index as int].0@,
            ) is None,
        forall|m: Seq<char>|
            (forall|j: int|
                0 <= j < n && swipe_out(b, s[j], now, f[j]).done ==> b[(
                #[trigger] s[j]).index as int].0@ != m) ==> #[trigger] swipe_pool(
                p,
                b,
                s,
                now,
                f,
                n,
            ).get(m) == p.get(m),
    decreases n,
{
    if n > 0 {
        lemma_pool_after(p, b, s, now, f, n - 1);
        let before = swipe_pool(p, b, s, now, f, n - 1);
        let after = swipe_pool(p, b, s, now, f, n);
        assert forall|j: int| 0 <= j < n && swipe_out(b, s[j], now, f[j]).done implies after.get(
            b[(#[trigger] s[j]).index as int].0@,
        ) is None by {
            if j < n - 1 {
                assert(before.get(b[s[j].index as int].0@) is None);
            }
        }
        assert forall|m: Seq<char>|
            (forall|j: int|
                0 <= j < n && swipe_out(b, s[j], now, f[j]).done ==> b[(
                #[trigger] s[j]).index as int].0@ != m) implies #[trigger] after.get(m) == p.get(m) by {
            assert(before.get(m) == p.get(m));
            if swipe_out(b, s[n - 1], now, f[n - 1]).done {
                assert(b[s[n - 1].index as int].0@ != m);
            }
        }
    }
}

} // verus!
