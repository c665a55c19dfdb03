//! What holds of the aim finger, told from its binding, the motion and the figures
//! worked out for a frame.

use crate::engine::{
    aim_from, second_name, Aim, AimFigures, EngineView, Figures, Motion, TriggerKind,
};
use crate::engine_laws::{finger_of, repaired, sane};
use crate::num::Num;
use crate::press_laws::{others_keep_fingers, same_but_fingers, squeezed};
use crate::profile::Binding;
use crate::touch::{Norm, TouchAction};
use vstd::prelude::*;

verus! {

/// `q` is `p`, or the nearer end of `lo..=hi` where `p` lies outside.
pub open spec fn between(p: Num, lo: Num, hi: Num, q: Num) -> bool {
    &&& p.lt(lo) ==> q == lo
    &&& !p.lt(lo) && hi.lt(p) ==> q == hi
    &&& !p.lt(lo) && !hi.lt(p) ==> q == p
}

/// `q` is `p` with each coordinate kept within the limits of the aim area, and
/// then within the screen.
pub open spec fn in_area(a: Aim, hi: Num, p: Norm, q: Norm) -> bool {
    exists|x: Num, y: Num|
        between(p.x, a.margin_spec(), hi, x) && between(p.y, a.margin_spec(), hi, y)
            && #[trigger] squeezed(Norm { x, y }, q)
}

/// The figure for the next place lies within the limits on both axes.
pub open spec fn stays_inside(a: Aim, f: AimFigures) -> bool {
    let lo = a.margin_spec();
    !f.next.x.lt(lo) && !f.hi.lt(f.next.x) && !f.next.y.lt(lo) && !f.hi.lt(f.next.y)
}

/// Aim is the first aim binding of a profile, and every setting is its own.
pub proof fn law_aim_is_the_first_aim_binding(b: Seq<(String, Binding)>)
    requires
        b.len() <= usize::MAX,
    ensures
        match aim_from(b, 0) {
            Some(a) => {
                let own = b[a.index as int].1;
                &&& a.index < b.len()
                &&& own is Aim
                &&& forall|j: int| 0 <= j < a.index ==> !((#[trigger] b[j]).1 is Aim)
                &&& a.toggle == own->toggle
                &&& a.origin == own->origin
                &&& a.sensitivity == own->sensitivity
                &&& a.deadzone == own->deadzone
                &&& a.recenter_margin == own->recenter_margin
                &&& a.handoff == own->handoff
                &&& a.nonlinear == own->nonlinear
                &&& a.reset_delay_ms == own->reset_delay_ms
                &&& a.unbounded == own->unbounded
                &&& a.safety_span == own->safety_span
            },
            None => forall|j: int| 0 <= j < b.len() ==> !((#[trigger] b[j]).1 is Aim),
        },
{
    lemma_first_aim(b, 0);
}

proof fn lemma_first_aim(b: Seq<(String, Binding)>, k: int)
    requires
        b.len() <= usize::MAX,
        0 <= k,
    ensures
        match aim_from(b, k) {
            Some(a) => {
                let own = b[a.index as int].1;
                &&& k <= a.index < b.len()
                &&& own is Aim
                &&& forall|j: int| k <= j < a.index ==> !((#[trigger] b[j]).1 is Aim)
                &&& a.toggle == own->toggle
                &&& a.origin == own->origin
                &&& a.sensitivity == own->sensitivity
                &&& a.deadzone == own->deadzone
                &&& a.recenter_margin == own->recenter_margin
                &&& a.handoff == own->handoff
                &&& a.nonlinear == own->nonlinear
                &&& a.reset_delay_ms == own->reset_delay_ms
                &&& a.unbounded == own->unbounded
                &&& a.safety_span == own->safety_span
            },
            None => forall|j: int| k <= j < b.len() ==> !((#[trigger] b[j]).1 is Aim),
        },
    decreases b.len() - k,
{
    if k < b.len() && !(b[k].1 is Aim) {
        lemma_first_aim(b, k + 1);
    }
}

/// The margin is what the binding says, but never below a hundredth of the screen
/// and never above forty-five.
pub proof fn law_the_margin_has_limits(a: Aim)
    ensures
        between(
            a.recenter_margin,
            Num { bits: 0x3c23_d70a },
            Num { bits: 0x3ee6_6666 },
            a.margin_spec(),
        ),
{
}

/// Aim leaves the screen only where both the binding and the backend allow it.
pub proof fn law_leaving_the_screen_takes_two(v: EngineView, a: Aim)
    ensures
        v.roams(a) <==> a.unbounded && v.offscreen_ok,
{
}

/// There is no motion exactly if both parts are a zero, of whichever sign.
pub proof fn law_only_zeros_are_no_motion(m: Motion)
    ensures
        m.quiet_spec() <==> (m.dx.bits == 0 || m.dx.bits == 0x8000_0000) && (m.dy.bits == 0
            || m.dy.bits == 0x8000_0000),
        Motion::none_spec().quiet_spec(),
        !(m.dx.bits == 0x8000_0000) ==> Motion::settled(m.dx) == m.dx,
        !(m.dy.bits == 0x8000_0000) ==> Motion::settled(m.dy) == m.dy,
        m.dx.bits == 0x8000_0000 ==> Motion::settled(m.dx).bits == 0,
{
    lemma_zero(m.dx);
    lemma_zero(m.dy);
    lemma_zero(Num { bits: 0 });
}

proof fn lemma_zero(n: Num)
    ensures
        Motion::is_zero(n) <==> n.bits == 0 || n.bits == 0x8000_0000,
{
    crate::num::lemma_magnitude_zero(crate::num::unsigned_bits(n.bits));
    crate::num::lemma_magnitude_zero(0);
}

/// Motion shorter than the dead zone moves nothing, and neither does motion while
/// the key that aim asks for is not held down.
pub proof fn law_small_or_unasked_motion_is_ignored(
    b: Seq<(String, Binding)>,
    v: EngineView,
    d: Motion,
    f: AimFigures,
)
    requires
        match aim_from(b, 0) {
            None => true,
            Some(a) => f.travel.lt(a.deadzone) || (a.toggle is Some && v.aim_pos is None),
        },
    ensures
        v.aim_moved(b, d, f).0 == v,
        v.aim_moved(b, d, f).1.len() == 0,
{
}

/// Bounded aim follows the mouse: within the limits the finger moves once, on both
/// axes to where the motion takes it, and that is where it is from then on. Nothing
/// else changes.
pub proof fn law_bounded_aim_follows_the_mouse(
    b: Seq<(String, Binding)>,
    v: EngineView,
    a: Aim,
    id: u8,
    d: Motion,
    f: AimFigures,
)
    requires
        aim_from(b, 0) == Some(a),
        !v.roams(a),
        !a.handoff,
        v.aim_pos is Some,
        v.pool.get(b[a.index as int].0@) == Some(id),
        !f.travel.lt(a.deadzone),
        stays_inside(a, f),
    ensures
        ({
            let o = v.aim_moved(b, d, f);
            &&& o.1.len() == 1
            &&& o.1[0] is Move
            &&& o.1[0]->Move_id == id
            &&& squeezed(f.next, o.1[0]->Move_at)
            &&& o.0.aim_pos == Some(o.1[0]->Move_at)
            &&& o.0.pool == v.pool
            &&& same_but_fingers(EngineView { aim_pos: o.0.aim_pos, ..v }, o.0)
        }),
{
    crate::touch::law_a_point_is_squeezed(f.next.x, f.next.y);
}

/// Past the limits bounded aim goes as far as it may, unless it is there already,
/// and lifts its finger. The finger comes down again later, after the delay its
/// binding asks for.
pub proof fn law_bounded_aim_lifts_at_the_limits(
    b: Seq<(String, Binding)>,
    v: EngineView,
    a: Aim,
    id: u8,
    d: Motion,
    f: AimFigures,
)
    requires
        aim_from(b, 0) == Some(a),
        !v.roams(a),
        !a.handoff,
        v.aim_pos is Some,
        v.pool.get(b[a.index as int].0@) == Some(id),
        !f.travel.lt(a.deadzone),
        !stays_inside(a, f),
    ensures
        ({
            let o = v.aim_moved(b, d, f);
            let eps = Num { bits: 0x3400_0000 };
            &&& if eps.lt(f.edge_gap_x) || eps.lt(f.edge_gap_y) {
                &&& o.1.len() == 2
                &&& o.1[0] is Move
                &&& o.1[0]->Move_id == id
                &&& in_area(a, f.hi, f.next, o.1[0]->Move_at)
            } else {
                o.1.len() == 1
            }
            &&& o.1.last() == (TouchAction::Up { id })
            &&& o.0.pool.get(b[a.index as int].0@) is None
            &&& others_keep_fingers(v.pool, o.0.pool, b[a.index as int].0@)
            &&& o.0.aim_pos is None
            &&& o.0.down_at == Some(
                v.now + if a.reset_delay_ms > 1 {
                    a.reset_delay_ms as int
                } else {
                    1
                },
            )
            &&& same_but_fingers(
                EngineView { aim_pos: None, down_at: o.0.down_at, ..v },
                o.0,
            )
        }),
{
    let lo = a.margin_spec();
    let (x, y) = (f.next.x.clamp_spec(lo, f.hi), f.next.y.clamp_spec(lo, f.hi));
    crate::touch::law_a_point_is_squeezed(x, y);
    assert(squeezed(Norm { x, y }, Norm::new_spec(x, y)));
}

/// Where no key is asked for, the first motion puts the finger down at the origin
/// and then acts as if it had been there all along.
pub proof fn law_bounded_aim_starts_at_the_origin(
    b: Seq<(String, Binding)>,
    v: EngineView,
    a: Aim,
    d: Motion,
    f: AimFigures,
)
    requires
        aim_from(b, 0) == Some(a),
        !v.roams(a),
        a.toggle is None,
        v.aim_pos is None,
        !f.travel.lt(a.deadzone),
    ensures
        ({
            let o = v.aim_moved(b, d, f);
            let (pool, id) = v.pool.acquire(b[a.index as int].0@);
            let w = EngineView { pool, aim_pos: Some(a.origin), ..v };
            &&& id is None ==> o.0 == v && o.1.len() == 0
            &&& id is Some ==> {
                &&& o.1.len() > 0
                &&& o.1[0] == (TouchAction::Down { id: id->0, at: a.origin })
                &&& o.1.skip(1) == w.aim_moved(b, d, f).1
                &&& o.0 == w.aim_moved(b, d, f).0
            }
        }),
{
    let o = v.aim_moved(b, d, f);
    let (pool, id) = v.pool.acquire(b[a.index as int].0@);
    let w = EngineView { pool, aim_pos: Some(a.origin), ..v };
    if id is Some {
        assert(o.1.skip(1) =~= w.aim_moved(b, d, f).1);
    }
}

/// With handoff, a second finger goes down opposite the direction of travel once
/// the first is far from the origin, and moves along with it. Within the limits
/// the first finger moves as well. Past them the second takes its place where it
/// is, and the first is lifted.
pub proof fn law_a_second_finger_takes_over(
    b: Seq<(String, Binding)>,
    v: EngineView,
    a: Aim,
    id: u8,
    d: Motion,
    f: AimFigures,
)
    requires
        sane(b, v),
        aim_from(b, 0) == Some(a),
        !v.roams(a),
        a.handoff,
        v.aim_pos is Some,
        v.pool.get(b[a.index as int].0@) == Some(id),
        !f.travel.lt(a.deadzone),
        v.second is Some ==> v.pool.get(second_name(b[a.index as int].0@)) is Some,
        v.second is None && f.reach.lt(f.drift) ==> v.pool.acquire(
            second_name(b[a.index as int].0@),
        ).1 is Some,
        v.second is Some || f.reach.lt(f.drift),
    ensures
        ({
            let name = b[a.index as int].0@;
            let key = second_name(name);
            let o = v.aim_moved(b, d, f);
            let other = v.pool.acquire(key).1->0;
            let k = if v.second is None {
                1int
            } else {
                0
            };
            &&& o.1.len() == k + 2
            &&& k == 1 ==> o.1[0] == (TouchAction::Down { id: other, at: f.seat })
            &&& o.1[k] is Move
            &&& o.1[k]->Move_id == other
            &&& in_area(a, f.hi, f.second, o.1[k]->Move_at)
            &&& if stays_inside(a, f) {
                &&& o.1[k + 1] is Move
                &&& o.1[k + 1]->Move_id == id
                &&& squeezed(f.next, o.1[k + 1]->Move_at)
                &&& o.0.aim_pos == Some(o.1[k + 1]->Move_at)
                &&& o.0.second == Some(o.1[k]->Move_at)
                &&& o.0.pool.get(name) == Some(id)
                &&& o.0.pool.get(key) == Some(other)
            } else {
                &&& o.1[k + 1] == (TouchAction::Up { id })
                &&& o.0.aim_pos == Some(o.1[k]->Move_at)
                &&& o.0.second is None
                &&& o.0.pool.get(name) == Some(other)
                &&& o.0.pool.get(key) is None
            }
            &&& o.0.pending == v.pending
            &&& o.0.down_at == v.down_at
            &&& forall|m: Seq<char>| m != name && m != key ==> #[trigger] o.0.pool.get(m) == v.pool.get(m)
        }),
{
    law_aim_is_the_first_aim_binding(b);
    let name = b[a.index as int].0@;
    let key = second_name(name);
    assert(b[a.index as int].0@ != second_name(b[a.index as int].0@));
    let lo = a.margin_spec();
    let (x, y) = (f.second.x.clamp_spec(lo, f.hi), f.second.y.clamp_spec(lo, f.hi));
    crate::touch::law_a_point_is_squeezed(x, y);
    crate::touch::law_a_point_is_squeezed(f.next.x, f.next.y);
    assert(squeezed(Norm { x, y }, Norm::new_spec(x, y)));
}

/// With handoff but no second finger, the finger moves within the limits; past
/// them another pointer takes its place at the origin, and the motion waits for
/// the next frame. Without another pointer nothing happens.
pub proof fn law_a_finger_is_rotated_to_the_origin(
    b: Seq<(String, Binding)>,
    v: EngineView,
    a: Aim,
    id: u8,
    d: Motion,
    f: AimFigures,
)
    requires
        aim_from(b, 0) == Some(a),
        !v.roams(a),
        a.handoff,
        v.aim_pos is Some,
        v.pool.get(b[a.index as int].0@) == Some(id),
        !f.travel.lt(a.deadzone),
        v.second is None,
        !f.reach.lt(f.drift),
    ensures
        ({
            let name = b[a.index as int].0@;
            let o = v.aim_moved(b, d, f);
            &&& stays_inside(a, f) ==> o.1.len() == 1 && o.1[0] is Move && o.1[0]->Move_id == id
                && squeezed(f.next, o.1[0]->Move_at) && o.0.aim_pos == Some(o.1[0]->Move_at)
                && o.0.pool == v.pool && o.0.pending == v.pending
            &&& !stays_inside(a, f) ==> match v.pool.rotate(name).1 {
                Some((_, fresh)) => {
                    &&& o.1.len() == 2
                    &&& o.1[0] == (TouchAction::Up { id })
                    &&& o.1[1] == (TouchAction::Down { id: fresh, at: a.origin })
                    &&& o.0.pool.get(name) == Some(fresh)
                    &&& o.0.aim_pos == Some(a.origin)
                    &&& o.0.pending matches Some(m) && moves_alike(m, d)
                },
                None => o.0 == v && o.1.len() == 0,
            }
            &&& o.0.second is None
            &&& o.0.down_at == v.down_at
            &&& others_keep_fingers(v.pool, o.0.pool, name)
        }),
{
    crate::touch::law_a_point_is_squeezed(f.next.x, f.next.y);
}

/// Deferred motion comes first in a frame: the finger moves once, to where that
/// and the gathered motion together take it, kept within the limits unless aim may
/// leave the screen. Neither motion is left.
pub proof fn law_deferred_motion_is_applied_once(
    b: Seq<(String, Binding)>,
    v: EngineView,
    a: Aim,
    f: AimFigures,
)
    requires
        aim_from(b, 0) == Some(a),
        v.pending is Some,
    ensures
        ({
            let o = v.aim_frame(b, f);
            &&& o.0.pending is None
            &&& o.0.gathered.quiet_spec()
            &&& match (v.aim_pos, v.pool.get(b[a.index as int].0@)) {
                (Some(_), Some(id)) => {
                    &&& o.1.len() == 1
                    &&& o.1[0] is Move
                    &&& o.1[0]->Move_id == id
                    &&& o.0.aim_pos == Some(o.1[0]->Move_at)
                    &&& if v.roams(a) {
                        o.1[0]->Move_at == f.free
                    } else {
                        in_area(a, f.hi, f.plain, o.1[0]->Move_at)
                    }
                },
                _ => o.1.len() == 0 && o.0.aim_pos == v.aim_pos,
            }
            &&& o.0.pool == v.pool
            &&& same_but_fingers(
                EngineView {
                    pending: None,
                    gathered: o.0.gathered,
                    aim_pos: o.0.aim_pos,
                    ..v
                },
                o.0,
            )
        }),
{
    reveal(EngineView::aim_frame);
    law_only_zeros_are_no_motion(Motion::none_spec());
    let lo = a.margin_spec();
    let (x, y) = (f.plain.x.clamp_spec(lo, f.hi), f.plain.y.clamp_spec(lo, f.hi));
    crate::touch::law_a_point_is_squeezed(x, y);
    assert(squeezed(Norm { x, y }, Norm::new_spec(x, y)));
}

/// Without deferred motion, what was gathered since the last frame reaches the
/// finger whole, and only once.
pub proof fn law_gathered_motion_is_applied_once(
    b: Seq<(String, Binding)>,
    v: EngineView,
    f: AimFigures,
)
    requires
        v.pending is None,
        !v.gathered.quiet_spec(),
    ensures
        ({
            let spent = EngineView { gathered: Motion::none_spec(), ..v };
            &&& v.aim_frame(b, f) == spent.aim_moved(b, v.gathered, f)
            &&& v.aim_frame(b, f).0.gathered.quiet_spec()
        }),
{
    reveal(EngineView::aim_frame);
    law_only_zeros_are_no_motion(Motion::none_spec());
}

/// Without motion a finger rests where it is until the mouse has been still for
/// thirty-five milliseconds. If it is far from the origin then, it is lifted, to
/// come down again after the delay its binding asks for.
pub proof fn law_a_resting_finger_is_brought_back(
    b: Seq<(String, Binding)>,
    v: EngineView,
    f: AimFigures,
)
    requires
        v.pending is None,
        v.gathered.quiet_spec(),
    ensures
        ({
            let o = v.aim_frame(b, f);
            let a = aim_from(b, 0)->0;
            let name = b[a.index as int].0@;
            let due = aim_from(b, 0) is Some && v.aim_pos is Some && v.pool.get(name) is Some
                && v.now - v.last_move >= 35 && !f.drift.lt(f.idle_limit);
            &&& !due ==> o.0 == v && o.1.len() == 0
            &&& due ==> {
                &&& o.1.len() == 1
                &&& o.1[0] == (TouchAction::Up { id: v.pool.get(name)->0 })
                &&& o.0.pool.get(name) is None
                &&& others_keep_fingers(v.pool, o.0.pool, name)
                &&& o.0.aim_pos is None
                &&& o.0.gathered.quiet_spec()
                &&& o.0.last_move == v.now
                &&& o.0.down_at == Some(
                    v.now + if a.reset_delay_ms > 1 {
                        a.reset_delay_ms as int
                    } else {
                        1
                    },
                )
                &&& same_but_fingers(
                    EngineView {
                        aim_pos: None,
                        gathered: o.0.gathered,
                        last_move: v.now,
                        down_at: o.0.down_at,
                        ..v
                    },
                    o.0,
                )
            }
        }),
{
    reveal(EngineView::aim_frame);
    law_only_zeros_are_no_motion(Motion::none_spec());
}

/// A finger that came up at the limits or at rest goes down at the origin when its
/// time has come, and not before.
pub proof fn law_a_delayed_press_lands_at_the_origin(
    b: Seq<(String, Binding)>,
    v: EngineView,
    due: int,
)
    ensures
        ({
            let o = v.press_delayed(b, due);
            &&& v.now < due ==> o.0 == v && o.1.len() == 0
            &&& v.now >= due ==> o.0.down_at is None
            &&& v.now >= due && aim_from(b, 0) is None ==> o.1.len() == 0
            &&& v.now >= due ==> match aim_from(b, 0) {
                Some(a) => match v.pool.acquire(b[a.index as int].0@).1 {
                    Some(id) => o.1 == seq![TouchAction::Down { id, at: a.origin }]
                        && o.0.aim_pos == Some(a.origin) && o.0.pool.get(b[a.index as int].0@)
                        == Some(id) && others_keep_fingers(
                        v.pool,
                        o.0.pool,
                        b[a.index as int].0@,
                    ),
                    None => o.1.len() == 0 && o.0.aim_pos == v.aim_pos && o.0.pool == v.pool,
                },
                None => true,
            }
            &&& same_but_fingers(
                EngineView { down_at: o.0.down_at, aim_pos: o.0.aim_pos, ..v },
                o.0,
            )
        }),
{
    reveal(EngineView::press_delayed);
}

/// A tick repairs what was lost, then lets aim and the gestures advance, each once.
/// While a press is delayed, the press stands in for aim and a joystick that has
/// just gone down is steered. Time is what the tick says.
pub proof fn law_a_tick_advances_everything_once(
    b: Seq<(String, Binding)>,
    v: EngineView,
    now: int,
    f: Figures,
)
    requires
        v.enabled,
    ensures
        ({
            let o = v.ticked(b, now, f);
            let (x, first) = repaired(v, b, now, f);
            let aim = match x.down_at {
                None => x.aim_frame(b, f.aim),
                Some(due) => {
                    let (p, a1) = x.press_delayed(b, due);
                    let (q, a2) = p.steer_pending(b, f.stick);
                    (q, a1 + a2)
                },
            };
            let moved = aim.0.gestures(b, f.swipes@);
            &&& o.1 == first + aim.1 + moved.1
            &&& o.0 == moved.0
            &&& o.0.now == now
        }),
{
    reveal(EngineView::frame);
    let o = v.ticked(b, now, f);
    let (x, first) = repaired(v, b, now, f);
    crate::engine::lemma_steer_keeps(EngineView { now, ..v }, b, f.stick);
    crate::engine::lemma_reclaim_keeps(
        (EngineView { now, ..v }).steer_pending(b, f.stick).0,
        b,
        b.len() as int,
    );
    match x.down_at {
        None => {
            let aim = x.aim_frame(b, f.aim);
            assert(o.1 =~= first + aim.1 + aim.0.gestures(b, f.swipes@).1);
            assert(aim.0.now == now) by {
                reveal(EngineView::aim_frame);
            }
            assert(aim.0.gestures(b, f.swipes@).0.now == now) by {
                reveal(EngineView::gestures);
            }
        },
        Some(due) => {
            let (p, a1) = x.press_delayed(b, due);
            let (q, a2) = p.steer_pending(b, f.stick);
            assert(o.1 =~= first + (a1 + a2) + q.gestures(b, f.swipes@).1);
            assert(p.now == now) by {
                reveal(EngineView::press_delayed);
            }
            crate::engine::lemma_steer_keeps(p, b, f.stick);
            assert(q.gestures(b, f.swipes@).0.now == now) by {
                reveal(EngineView::gestures);
            }
        },
    }
}

/// A tick with motion moves the finger of bounded aim once, on both axes to where
/// the motion takes it, and does nothing else with it. The motion is spent.
pub proof fn law_a_tick_follows_the_mouse(
    b: Seq<(String, Binding)>,
    v: EngineView,
    a: Aim,
    id: u8,
    now: int,
    f: Figures,
)
    requires
        v.enabled,
        sane(b, v),
        aim_from(b, 0) == Some(a),
        !v.roams(a),
        !a.handoff,
        v.down_at is None,
        v.pending is None,
        v.aim_pos is Some,
        v.pool.get(b[a.index as int].0@) == Some(id),
        !v.gathered.quiet_spec(),
        !f.aim.travel.lt(a.deadzone),
        stays_inside(a, f.aim),
    ensures
        ({
            let n = repaired(v, b, now, f).1.len() as int;
            let o = v.ticked(b, now, f);
            &&& n < o.1.len()
            &&& o.1[n] is Move
            &&& o.1[n]->Move_id == id
            &&& squeezed(f.aim.next, o.1[n]->Move_at)
            &&& forall|k: int| 0 <= k < o.1.len() && k != n ==> finger_of(#[trigger] o.1[k]) != id
            &&& o.0.aim_pos == Some(o.1[n]->Move_at)
            &&& o.0.gathered.quiet_spec()
            &&& o.0.pool.get(b[a.index as int].0@) == Some(id)
        }),
{
    let j = a.index as int;
    law_aim_is_the_first_aim_binding(b);
    crate::engine_laws::lemma_repaired(b, v, now, f, j);
    crate::engine_laws::lemma_owned_apart(b, v, now, f, j, id);
    let x = repaired(v, b, now, f).0;
    let first = repaired(v, b, now, f).1;
    crate::engine_laws::lemma_swipe_ids(b, x, j, id);
    law_gathered_motion_is_applied_once(b, x, f.aim);
    let spent = EngineView { gathered: Motion::none_spec(), ..x };
    law_bounded_aim_follows_the_mouse(b, spent, a, id, x.gathered, f.aim);
    law_a_tick_advances_everything_once(b, v, now, f);
    let (y, moved) = x.aim_frame(b, f.aim);
    crate::engine_laws::lemma_swipe_fingers(
        b,
        y.swipes,
        y.now,
        f.swipes@,
        y.swipes.len() as int,
        id,
    );
    crate::engine_laws::lemma_gestures_keep_owner(
        y.pool,
        b,
        y.swipes,
        y.now,
        f.swipes@,
        y.swipes.len() as int,
        j,
    );
    reveal(EngineView::gestures);
    let rest = y.gestures(b, f.swipes@).1;
    let o = v.ticked(b, now, f);
    assert forall|k: int| 0 <= k < o.1.len() && k != first.len() implies finger_of(#[trigger] o.1[k])
        != id by {
        if k < first.len() {
            assert(o.1[k] == first[k]);
        } else {
            assert(o.1[k] == rest[k - first.len() - 1]);
        }
    }
}

/// The caller need not tick an engine that says nothing is pending: apart from
/// lifting fingers whose keys were lost, ticks would do nothing.
pub proof fn law_nothing_pending_means_nothing_to_do(
    b: Seq<(String, Binding)>,
    v: EngineView,
    now: int,
    f: Figures,
)
    requires
        v.enabled,
        !v.pending_work(),
    ensures
        v.ticked(b, now, f).1 == (EngineView { now, ..v }).reclaimed(b, b.len() as int).1,
        v.ticked(b, now, f).0 == (EngineView { now, ..v }).reclaimed(b, b.len() as int).0,
{
    reveal(EngineView::frame);
    reveal(EngineView::steer_pending);
    reveal(EngineView::gestures);
    reveal(EngineView::aim_frame);
    let w = EngineView { now, ..v };
    crate::engine::lemma_reclaim_keeps(w, b, b.len() as int);
    let x = w.reclaimed(b, b.len() as int).0;
    assert(x.gestures(b, f.swipes@).0 =~= x);
    assert(v.ticked(b, now, f).1 =~= w.reclaimed(b, b.len() as int).1);
}

/// Whatever still has to happen counts as pending: a gesture, motion, a joystick's
/// direction, a press, or an aim finger that may have to come back.
pub proof fn law_what_has_to_happen_is_pending(v: EngineView)
    ensures
        v.swipes.len() > 0 ==> v.pending_work(),
        v.pending is Some ==> v.pending_work(),
        v.stick is Some ==> v.pending_work(),
        v.aim_pos is Some ==> v.pending_work(),
        v.down_at is Some ==> v.pending_work(),
        !v.gathered.quiet_spec() ==> v.pending_work(),
{
}

/// Switching on changes nothing else, and switching to what is so already changes
/// nothing at all. Off stays off until it is switched on, and forgets what is held and
/// everything in flight.
pub proof fn law_switching_is_plain(v: EngineView)
    ensures
        v.switched(v.enabled) == (v, Seq::<TouchAction>::empty()),
        v.switched(true).1.len() == 0,
        v.switched(true).0 == (EngineView { enabled: true, ..v }),
        !v.switched(false).0.enabled,
        v.switched(false).0.offscreen_ok == v.offscreen_ok,
        v.switched(false).0.aspect == v.aspect,
        v.switched(false).0.now == v.now,
        v.enabled ==> {
            let w = v.switched(false).0;
            &&& w.held == Set::<TriggerKind>::empty()
            &&& w.swipes.len() == 0
            &&& w.pending is None
            &&& w.down_at is None
            &&& w.gathered.quiet_spec()
            &&& w.second is None
            &&& w.stick is None
            &&& w.aim_pos is None
        },
{
}

/// The two motions move a finger alike: they differ at most in the sign of a zero.
pub open spec fn moves_alike(m: Motion, d: Motion) -> bool {
    &&& m.dx == d.dx || (Motion::is_zero(m.dx) && Motion::is_zero(d.dx))
    &&& m.dy == d.dy || (Motion::is_zero(m.dy) && Motion::is_zero(d.dy))
}

/// Aim that may leave the screen puts its finger down once, at its origin and alone in
/// its frame, and keeps the motion for the next one; with the finger down every motion
/// moves it to where the figures say, without a limit. It waits while a press is
/// delayed, and for its key where it has one.
pub proof fn law_free_aim_goes_down_once(
    b: Seq<(String, Binding)>,
    v: EngineView,
    a: Aim,
    d: Motion,
    f: AimFigures,
)
    requires
        aim_from(b, 0) == Some(a),
        a.unbounded,
        v.offscreen_ok,
        !f.travel.lt(a.deadzone),
    ensures
        ({
            let name = b[a.index as int].0@;
            let o = v.aim_moved(b, d, f);
            &&& v.aim_pos is None && (a.toggle is Some || v.down_at is Some) ==> o == (
                v,
                Seq::<TouchAction>::empty(),
            )
            &&& v.aim_pos is None && a.toggle is None && v.down_at is None ==> match v.pool.acquire(
                name,
            ).1 {
                Some(id) => {
                    &&& o.1.len() == 1
                    &&& o.1[0] == (TouchAction::Down { id, at: a.origin })
                    &&& o.0.pool == v.pool.acquire(name).0
                    &&& o.0.aim_pos == Some(a.origin)
                    &&& o.0.pending matches Some(m) && moves_alike(m, d)
                },
                None => o == (v, Seq::<TouchAction>::empty()),
            }
            &&& v.aim_pos is Some ==> match v.pool.get(name) {
                Some(id) => {
                    &&& o.1.len() == 1
                    &&& o.1[0] == (TouchAction::Move { id, at: f.free })
                    &&& o.0 == (EngineView { aim_pos: Some(f.free), ..v })
                },
                None => o == (v, Seq::<TouchAction>::empty()),
            }
        }),
{
}

} // verus!
