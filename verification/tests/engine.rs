use liwinux::by_name::ByName;
use liwinux::engine::{
    AimFigures, AimQuery, Engine, EventFigures, Figures, InputEvent, Motion, StickQuery,
    SwipeFigures, SwipeQuery, TriggerKind,
};
use liwinux::num::Num;
use liwinux::profile::{Binding, Easing, Profile, Trigger};
use liwinux::touch::{Norm, TouchAction};

const W: u16 = 17;
const A: u16 = 30;
const S: u16 = 31;
const D: u16 = 32;
const SPACE: u16 = 57;
const MIN_STEP_DELTA: f32 = 0.002;

fn n(v: f32) -> Num {
    Num::of(v.to_bits())
}

fn f(v: Num) -> f32 {
    f32::from_bits(v.bits)
}

fn norm(x: f32, y: f32) -> Norm {
    Norm::new(n(x), n(y))
}

fn raw(x: f32, y: f32) -> Norm {
    Norm::unclamped(n(x), n(y))
}

// The arithmetic on single precision numbers that the engine leaves to its
// caller.

fn stick_at(q: &StickQuery, aspect: f32) -> Norm {
    let (dx, dy) = (q.dx as f32, q.dy as f32);
    let len = (dx * dx + dy * dy).sqrt();
    raw(f(q.center.x) + dx / len * f(q.radius), f(q.center.y) + dy / len * f(q.radius) * aspect)
}

fn ease(e: Easing, t: f32) -> f32 {
    let t = t.clamp(0.0, 1.0);
    match e {
        Easing::Linear => t,
        Easing::EaseOut => 1.0 - (1.0 - t) * (1.0 - t),
        Easing::EaseOutStrong => {
            let inv = 1.0 - t;
            1.0 - inv * inv * inv
        }
    }
}

fn swipe_at(q: &SwipeQuery) -> SwipeFigures {
    let t = ease(q.easing, q.step as f32 / 12.0);
    let at = raw(
        f(q.from.x) + (f(q.to.x) - f(q.from.x)) * t,
        f(q.from.y) + (f(q.to.y) - f(q.from.y)) * t,
    );
    let shown = Norm::new(at.x, at.y);
    let (dx, dy) = (f(shown.x) - f(q.last_sent.x), f(shown.y) - f(q.last_sent.y));
    SwipeFigures { at, gap: n((dx * dx + dy * dy).sqrt()) }
}

fn reseat_point(origin: (f32, f32), m: f32, dx: f32, dy: f32) -> Norm {
    let at = |x: f32, y: f32| norm(x, y);
    let len = (dx * dx + dy * dy).sqrt();
    if len < f32::EPSILON {
        return at(origin.0, origin.1);
    }
    let (ux, uy) = (dx / len, dy / len);
    let (lo, hi) = (m, 1.0 - m);
    let t_axis = |p: f32, u: f32| -> f32 {
        if u.abs() < 1e-6 {
            f32::INFINITY
        } else if u > 0.0 {
            (p - lo) / u
        } else {
            (hi - p) / -u
        }
    };
    let t = t_axis(origin.0, ux).min(t_axis(origin.1, uy)).max(0.0);
    if !t.is_finite() {
        return at(origin.0, origin.1);
    }
    at(origin.0 - ux * t * 0.80, origin.1 - uy * t * 0.80)
}

fn aim_figures(q: &AimQuery, unbounded: bool) -> AimFigures {
    let (ox, oy) = (f(q.aim.origin.x), f(q.aim.origin.y));
    let (px, py) = (f(q.pos.x), f(q.pos.y));
    let (gx, gy) = (f(q.gathered.dx), f(q.gathered.dy));
    let (dx, dy) = match q.pending {
        Some(p) => (f(p.dx) + gx, f(p.dy) + gy),
        None => (gx, gy),
    };
    let sens = f(q.aim.sensitivity);
    let m = f(q.aim.margin());
    let (lo, hi) = (m, 1.0 - m);
    let span = hi - lo;
    let scale = if q.aim.nonlinear {
        let d = ((px - ox).powi(2) + ((py - oy) / f(q.aspect).max(0.01)).powi(2)).sqrt();
        let min_d = span / 20.0;
        if d > min_d { (min_d / d).sqrt() } else { 1.0 }
    } else {
        1.0
    };
    let (nx, ny) = (px + gx * sens * scale, py + gy * sens * scale);
    let lim = f(q.aim.safety_span).max(1.0);
    let free = raw(
        (px + dx * sens).clamp(ox - lim, ox + lim),
        (py + dy * sens).clamp(oy - lim, oy + lim),
    );
    let seat = reseat_point((ox, oy), m, gx, gy);
    let second = q.second.unwrap_or(seat);
    AimFigures {
        travel: n((gx * gx + gy * gy).sqrt()),
        hi: n(hi),
        next: raw(nx, ny),
        plain: raw(px + dx * sens, py + dy * sens),
        free,
        drift: n(((px - ox).powi(2) + (py - oy).powi(2)).sqrt()),
        reach: n(span * 0.5 * 0.62),
        seat,
        second: raw(f(second.x) + gx * sens, f(second.y) + gy * sens),
        edge_gap_x: n((nx.clamp(lo, hi) - px).abs()),
        edge_gap_y: n((ny.clamp(lo, hi) - py).abs()),
        idle_limit: n(if unbounded { lim * 0.5 } else { (1.0 - 2.0 * m) * 0.15 }),
    }
}

fn nothing() -> Norm {
    norm(0.0, 0.0)
}

fn no_aim() -> AimFigures {
    let z = n(0.0);
    AimFigures {
        travel: z,
        hi: n(1.0),
        next: nothing(),
        plain: nothing(),
        free: nothing(),
        drift: z,
        reach: z,
        seat: nothing(),
        second: nothing(),
        edge_gap_x: z,
        edge_gap_y: z,
        idle_limit: z,
    }
}

/// An engine together with the arithmetic around it.
struct Rig {
    engine: Engine,
    aspect: f32,
}

impl std::ops::Deref for Rig {
    type Target = Engine;
    fn deref(&self) -> &Engine {
        &self.engine
    }
}

impl std::ops::DerefMut for Rig {
    fn deref_mut(&mut self) -> &mut Engine {
        &mut self.engine
    }
}

impl Rig {
    fn new(p: Profile) -> Rig {
        Rig { engine: Engine::new(p), aspect: 16.0 / 9.0 }
    }

    fn set_aspect(&mut self, w: u32, h: u32) {
        self.aspect = w as f32 / h as f32;
        self.engine.set_aspect(w, h, n(self.aspect));
    }

    fn handle(&mut self, ev: InputEvent) -> Vec<TouchAction> {
        let stick = match self.engine.event_stick(ev) {
            Some(q) => stick_at(&q, self.aspect),
            None => nothing(),
        };
        let g = self.engine.gathered();
        let total = match ev {
            InputEvent::MouseMove { dx, dy } => {
                Motion { dx: n(f(g.dx) + f(dx)), dy: n(f(g.dy) + f(dy)) }
            }
            _ => g,
        };
        self.engine.handle(ev, &EventFigures { stick, total })
    }

    fn tick(&mut self, now_ms: u64) -> Vec<TouchAction> {
        let stick = match self.engine.pending_stick() {
            Some(q) => stick_at(&q, self.aspect),
            None => nothing(),
        };
        let aim = match self.engine.aim_query() {
            Some(q) => aim_figures(&q, self.engine.aim_is_unbounded()),
            None => no_aim(),
        };
        let swipes = self.engine.swipe_queries(now_ms).iter().map(swipe_at).collect();
        self.engine.tick(now_ms, &Figures { stick, aim, swipes })
    }
}

fn joystick_profile() -> Profile {
    let mut b = ByName::new();
    b.insert("hareket", Binding::Joystick {
        up: Trigger::Key(W), down: Trigger::Key(S),
        left: Trigger::Key(A), right: Trigger::Key(D),
        center: norm(0.2, 0.7), radius: n(0.1),
    });
    b.insert("zipla", Binding::Tap {
        trigger: Trigger::Key(SPACE), at: norm(0.9, 0.8),
    });
    Profile { name: "t".into(), package: "p".into(), bindings: b }
}

fn aim_profile() -> Profile {
    let mut b = ByName::new();
    b.insert("aim", Binding::Aim {
        toggle: Some(Trigger::MouseRight),
        origin: norm(0.5, 0.5),
        sensitivity: n(0.001),
        deadzone: n(0.5),
        recenter_margin: n(0.12),
        handoff: false, nonlinear: false, reset_delay_ms: 0,
        unbounded: false, safety_span: n(32.0),
    });
    Profile { name: "t".into(), package: "p".into(), bindings: b }
}

fn key(k: u16) -> TriggerKind { TriggerKind::Key(k) }

/// Mouse motion is now applied per frame: the event accumulates and the
/// tick applies it. Tests must mimic the real flow.
fn mouse(e: &mut Rig, dx: f32, dy: f32) -> Vec<TouchAction> {
    let _ = e.handle(InputEvent::MouseMove { dx: n(dx), dy: n(dy) });
    { let t = e.now_ms() + 1; e.tick(t) }
}

#[test]
fn tap_presses_and_lifts() {
    let mut e = Rig::new(joystick_profile());
    let down = e.handle(InputEvent::Press(key(SPACE)));
    assert!(matches!(down[..], [TouchAction::Down { .. }]));
    let up = e.handle(InputEvent::Release(key(SPACE)));
    assert!(matches!(up[..], [TouchAction::Up { .. }]));
}

/// Keyboard auto-repeat must not pile up Down events.
#[test]
fn key_autorepeat_is_swallowed() {
    let mut e = Rig::new(joystick_profile());
    assert_eq!(e.handle(InputEvent::Press(key(SPACE))).len(), 1);
    assert!(e.handle(InputEvent::Press(key(SPACE))).is_empty(), "a repeat must not produce a Down");
    assert!(e.handle(InputEvent::Press(key(SPACE))).is_empty());
}

/// The first press goes down at the CENTRE; the direction is applied on the
/// next frame. Putting the finger straight on the edge fails to start
/// movement in some games.
#[test]
fn joystick_first_press_lands_on_center() {
    let mut e = Rig::new(joystick_profile());
    let a = e.handle(InputEvent::Press(key(W)));
    match a[..] {
        [TouchAction::Down { at, .. }] => {
            assert!((f(at.x) - 0.2).abs() < 1e-5, "centre x: {at:?}");
            assert!((f(at.y) - 0.7).abs() < 1e-5, "centre y: {at:?}");
        }
        _ => panic!("expected a Down: {a:?}"),
    }
    assert!(e.has_pending(), "the direction must be deferred to the next frame");
}

#[test]
fn joystick_direction_applied_on_next_tick() {
    let mut e = Rig::new(joystick_profile());
    let _ = e.handle(InputEvent::Press(key(W)));
    let a = e.tick(5);
    match a[..] {
        [TouchAction::Move { at, .. }] =>
            assert!(f(at.y) < 0.7, "must go up: {at:?}"),
        _ => panic!("expected a Move: {a:?}"),
    }
}

/// The radius must be a circle in PIXEL space. Because normalized
/// coordinates are scaled per axis, the vertical component is multiplied by
/// the aspect ratio; otherwise at 2560x1440 A/D reach 1.78x further than W/S.
#[test]
fn joystick_is_circular_in_pixels_not_normalised_units() {
    let mut e = Rig::new(joystick_profile());
    e.set_aspect(2560, 1440);
    let (w, h) = (2560.0f32, 1440.0f32);

    let _ = e.handle(InputEvent::Press(key(W)));
    let up = match e.tick(5)[..] { [TouchAction::Move { at, .. }] => at, _ => panic!() };
    let dy_px = (0.7 - f(up.y)) * h;

    let mut e2 = Rig::new(joystick_profile());
    e2.set_aspect(2560, 1440);
    let _ = e2.handle(InputEvent::Press(key(D)));
    let right = match e2.tick(5)[..] { [TouchAction::Move { at, .. }] => at, _ => panic!() };
    let dx_px = (f(right.x) - 0.2) * w;

    assert!((dx_px - dy_px).abs() < 2.0,
        "pixel distances must be equal: horizontal {dx_px:.1}px, vertical {dy_px:.1}px");
}

#[test]
fn joystick_second_direction_moves_not_redowns() {
    let mut e = Rig::new(joystick_profile());
    let _ = e.handle(InputEvent::Press(key(W)));
    let a = e.handle(InputEvent::Press(key(D)));
    assert!(matches!(a[..], [TouchAction::Move { .. }]), "the second direction must be a Move: {a:?}");
}

/// Diagonal movement must not speed up — it must be normalized.
#[test]
fn diagonal_is_normalised_not_faster() {
    let mut e = Rig::new(joystick_profile());
    e.set_aspect(1000, 1000);   // square screen: aspect correction is 1
    let _ = e.handle(InputEvent::Press(key(W)));
    let _ = e.tick(5);          // first press goes to the centre, direction after
    let a = e.handle(InputEvent::Press(key(D)));
    let at = match a[..] { [TouchAction::Move { at, .. }] => at, _ => panic!() };
    let dist = ((f(at.x) - 0.2).powi(2) + (f(at.y) - 0.7).powi(2)).sqrt();
    assert!((dist - 0.1).abs() < 1e-4,
            "the diagonal distance must equal the radius, found {dist}");
}

/// Releasing one direction while another is held must NOT lift the finger.
#[test]
fn releasing_one_direction_keeps_finger_down() {
    let mut e = Rig::new(joystick_profile());
    let _ = e.handle(InputEvent::Press(key(W)));
    let _ = e.handle(InputEvent::Press(key(D)));
    let a = e.handle(InputEvent::Release(key(W)));
    assert!(matches!(a[..], [TouchAction::Move { .. }]),
            "D is still held, the finger must not lift: {a:?}");
}

#[test]
fn releasing_last_direction_lifts_finger() {
    let mut e = Rig::new(joystick_profile());
    let _ = e.handle(InputEvent::Press(key(W)));
    let a = e.handle(InputEvent::Release(key(W)));
    assert!(matches!(a[..], [TouchAction::Up { .. }]), "{a:?}");
}

#[test]
fn joystick_and_tap_use_separate_pointers() {
    let mut e = Rig::new(joystick_profile());
    let j = e.handle(InputEvent::Press(key(W)));
    let t = e.handle(InputEvent::Press(key(SPACE)));
    let jid = match j[..] { [TouchAction::Down { id, .. }] => id, _ => panic!() };
    let tid = match t[..] { [TouchAction::Down { id, .. }] => id, _ => panic!() };
    assert_ne!(jid, tid, "concurrent bindings must get separate pointers");
}

#[test]
fn unmapped_key_produces_nothing() {
    let mut e = Rig::new(joystick_profile());
    assert!(e.handle(InputEvent::Press(key(99))).is_empty());
}

#[test]
fn aim_moves_finger_from_origin() {
    let mut e = Rig::new(aim_profile());
    let _ = e.handle(InputEvent::Press(TriggerKind::MouseRight));
    let a = mouse(&mut e, 100.0, 0.0);
    match a[..] {
        [TouchAction::Move { at, .. }] =>
            assert!((f(at.x) - 0.6).abs() < 1e-5, "0.5 + 100*0.001 = 0.6, {at:?}"),
        _ => panic!("expected a Move: {a:?}"),
    }
}

/// Noise below the deadzone must produce no events.
#[test]
fn aim_ignores_jitter_below_deadzone() {
    let mut e = Rig::new(aim_profile());
    let _ = e.handle(InputEvent::Press(TriggerKind::MouseRight));
    assert!(mouse(&mut e, 0.2, 0.1).is_empty());
}

/// WITH a toggle defined, mouse motion without pressing it must produce no touch.
#[test]
fn mouse_move_without_aim_active_does_nothing() {
    let mut e = Rig::new(aim_profile());
    assert!(mouse(&mut e, 100.0, 0.0).is_empty());
}

/// WITHOUT a toggle, aim is always active: the first mouse motion puts the
/// finger down. In an FPS, looking must not require holding a key.
fn aim_engine(handoff: bool) -> Rig {
    let mut b = ByName::new();
    b.insert("bakis", Binding::Aim {
        toggle: None,
        origin: norm(0.5, 0.5),
        sensitivity: n(0.001),
        deadzone: n(0.5),
        recenter_margin: n(0.12),
        handoff, nonlinear: false, reset_delay_ms: 0,
        unbounded: false, safety_span: n(32.0),
    });
    Rig::new(Profile { name: "t".into(), package: "p".into(), bindings: b })
}
fn always_on_aim() -> Rig { aim_engine(false) }

/// HANDOFF: a finger must NEVER be lifted while moving.
///
/// The user experienced this as "it stops at the corner then continues": on
/// the lift-and-place path the turn is cut at handover and the game's touch
/// smoothing resets.
#[test]
fn handoff_never_lifts_without_a_moving_finger() {
    let mut e = aim_engine(true);
    let mut lifted_alone = 0usize;
    for _ in 0..60 {
        let acts = mouse(&mut e, 120.0, 0.0);
        let has_up = acts.iter().any(|a| matches!(a, TouchAction::Up { .. }));
        let has_move = acts.iter().any(|a| matches!(a, TouchAction::Move { .. }));
        if has_up && !has_move { lifted_alone += 1; }
        let _ = e.tick(0);
    }
    assert_eq!(lifted_alone, 0,
        "a moving finger must exist on every lift frame");
}

/// The second finger must be PLACED before the handover.
#[test]
fn handoff_places_second_finger_before_the_edge() {
    let mut e = aim_engine(true);
    let mut saw_prepare = false;
    for _ in 0..40 {
        let acts = mouse(&mut e, 120.0, 0.0);
        // A finger going down WITHOUT a lift = preparation.
        if acts.iter().any(|a| matches!(a, TouchAction::Down { .. }))
            && !acts.iter().any(|a| matches!(a, TouchAction::Up { .. }))
            && !saw_prepare
        {
            // The first Down may be the initial touch; look for the second.
            saw_prepare = e.aim_has_second();
        }
        if saw_prepare { break; }
    }
    assert!(saw_prepare, "the second finger must land before the edge");
}

/// The turn must continue uninterrupted after a handover.
#[test]
fn handoff_keeps_rotating_across_the_edge() {
    let mut e = aim_engine(true);
    let mut frames_without_move = 0usize;
    for _ in 0..80 {
        let acts = mouse(&mut e, 150.0, 0.0);
        if !acts.iter().any(|a| matches!(a, TouchAction::Move { .. })) {
            frames_without_move += 1;
        }
        let _ = e.tick(0);
    }
    // Every frame except the first (Down) must contain movement.
    assert!(frames_without_move <= 1,
        "the turn was cut on {frames_without_move} frames");
}

/// The first movement puts the finger down AND moves it in the same call:
/// waiting a frame would be needless latency.
#[test]
fn aim_without_toggle_activates_on_first_motion() {
    let mut e = always_on_aim();
    let a = mouse(&mut e, 50.0, 0.0);
    match a[..] {
        [TouchAction::Down { at: d, .. }, TouchAction::Move { at: m, .. }] => {
            assert!((f(d.x) - 0.5).abs() < 1e-5, "must start at the centre: {d:?}");
            assert!((f(m.x) - 0.55).abs() < 1e-5, "0.5 + 50*0.001: {m:?}");
        }
        _ => panic!("expected Down+Move: {a:?}"),
    }
}

/// At the edge the finger must be LIFTED and placed at the centre;
/// otherwise you cannot turn past a limited angle.
#[test]
fn aim_recenters_at_edge() {
    let mut e = always_on_aim();
    let _ = mouse(&mut e, 10.0, 0.0);   // -> 0.51
    // 0.51 + 400*0.001 = 0.91 > 1 - 0.12 = 0.88  -> recentre
    let a = mouse(&mut e, 400.0, 0.0);
    // The applicable part plus the lift; the press is delayed (a separate
    // SYN_REPORT is mandatory).
    assert!(a.iter().any(|x| matches!(x, TouchAction::Up { .. })),
        "a lift must occur: {a:?}");
    assert!(!a.iter().any(|x| matches!(x, TouchAction::Down { .. })),
        "the press must NOT be in the same frame: {a:?}");
    // The press arrives once the delay elapses.
    let b = { let t = e.now_ms() + 20; e.tick(t) };
    assert!(b.iter().any(|x| matches!(x, TouchAction::Down { .. })),
        "the press must arrive after the delay: {b:?}");
}

/// The reseat gap must be ONE tick.
///
/// Applying the deferred motion and what accumulated meanwhile separately
/// stretches the gap to two ticks, which the user experiences as "it does
/// not detect my movements at the edge".
#[test]
fn recenter_gap_is_a_single_tick() {
    let mut e = always_on_aim();
    let _ = mouse(&mut e, 10.0, 0.0);
    // A movement large enough to reach the edge -> a reseat.
    let a = mouse(&mut e, 400.0, 0.0);
    assert!(!a.iter().any(|x| matches!(x, TouchAction::Down { .. })),
        "the press must not be in the same frame: {a:?}");
    let b = { let t = e.now_ms() + 20; e.tick(t) };
    assert!(b.iter().any(|x| matches!(x, TouchAction::Down { .. })),
        "the press after the delay: {b:?}");
}

/// Recentring must NOT LOSE MOVEMENT.
///
/// If it does, some rotation disappears on every recentre and the mouse and
/// the view drift apart — the user experiences this as "aim drift".
#[test]
fn recentering_preserves_the_frames_motion() {
    let mut e = always_on_aim();
    let _ = mouse(&mut e, 10.0, 0.0);   // -> 0.51
    // On the frame that crosses the limit the APPLICABLE part must be sent,
    // not dropped.
    let a = mouse(&mut e, 400.0, 0.0);
    let moved = a.iter().find_map(|x| match x {
        TouchAction::Move { at, .. } => Some(*at), _ => None,
    }).expect("the movement up to the limit must be applied");
    assert!(f(moved.x) > 0.5, "must go forward: {moved:?}");
}

/// Movement must NOT BE LOST during a long turn.
///
/// Motion accumulates during the delayed reset and is applied after the
/// press. The total distance must stay proportional to the mouse distance sent.
#[test]
fn long_turn_loses_no_motion() {
    let mut e = always_on_aim();
    let mut moves = 0usize;
    let mut downs = 0usize;
    for _ in 0..60 {
        for act in mouse(&mut e, 200.0, 0.0) {
            match act {
                TouchAction::Move { .. } => moves += 1,
                TouchAction::Down { .. } => downs += 1,
                _ => {}
            }
        }
        let t = e.now_ms() + 20;
        for act in e.tick(t) {
            match act {
                TouchAction::Move { .. } => moves += 1,
                TouchAction::Down { .. } => downs += 1,
                _ => {}
            }
        }
    }
    assert!(downs >= 1, "at least one reset must occur");
    assert!(moves > 40, "most movements must be applied, found {moves}");
}

/// The turn must CONTINUE after a recentre.
#[test]
fn aim_continues_after_recenter() {
    let mut e = always_on_aim();
    let _ = mouse(&mut e, 10.0, 0.0);
    let _ = mouse(&mut e, 400.0, 0.0);       // lift
    let _ = { let t = e.now_ms() + 20; e.tick(t) };         // delayed press
    // Movement after the press must produce a normal Move.
    let a = mouse(&mut e, 100.0, 0.0);
    assert!(a.iter().any(|x| matches!(x, TouchAction::Move { .. })),
        "movement after the press must produce a Move: {a:?}");
}

/// The vertical edge must recentre too.
#[test]
fn aim_recenters_on_vertical_edge() {
    let mut e = always_on_aim();
    let _ = mouse(&mut e, 0.0, 10.0);   // -> 0.51
    // 0.51 - 450*0.001 = 0.06 < 0.12  -> recentre
    let a = mouse(&mut e, 0.0, -450.0);
    assert!(a.iter().any(|x| matches!(x, TouchAction::Up { .. })), "{a:?}");
    assert!(!a.iter().any(|x| matches!(x, TouchAction::Down { .. })), "{a:?}");
    let b = { let t = e.now_ms() + 20; e.tick(t) };
    assert!(b.iter().any(|x| matches!(x, TouchAction::Down { .. })), "{b:?}");
}

/// Recentring must not consume pointer ids.
#[test]
fn recentering_does_not_leak_pointers() {
    let mut e = always_on_aim();
    let _ = mouse(&mut e, 10.0, 0.0);
    for _ in 0..50 {
        let _ = mouse(&mut e, 400.0, 0.0);
    }
    // It must still be working: an exhausted pool would return empty.
    let a = mouse(&mut e, 20.0, 0.0);
    assert!(!a.is_empty(), "the pool may have leaked");
}

/// No finger may stay down when the engine is disabled.
#[test]
fn disabling_lifts_every_held_finger() {
    let mut e = Rig::new(joystick_profile());
    let _ = e.handle(InputEvent::Press(key(W)));
    let _ = e.handle(InputEvent::Press(key(SPACE)));
    let acts = e.set_enabled(false);
    assert_eq!(acts.len(), 2, "both fingers must lift: {acts:?}");
    assert!(acts.iter().all(|a| matches!(a, TouchAction::Up { .. })));
}

#[test]
fn disabled_engine_produces_nothing() {
    let mut e = Rig::new(joystick_profile());
    let _ = e.set_enabled(false);
    assert!(e.handle(InputEvent::Press(key(SPACE))).is_empty());
}

/// Releasing an unpressed key must produce no events (after focus loss).
#[test]
fn release_without_press_is_ignored() {
    let mut e = Rig::new(joystick_profile());
    assert!(e.handle(InputEvent::Release(key(SPACE))).is_empty());
}

fn swipe_engine() -> Rig {
    let mut b = ByName::new();
    b.insert("sol", Binding::Swipe {
        trigger: Trigger::Key(A),
        from: norm(0.5, 0.5), to: norm(0.2, 0.5), duration_ms: 80,
        group: None, easing: Easing::Linear,
    });
    Rig::new(Profile { name: "t".into(), package: "p".into(), bindings: b })
}

/// Two swipes in one group: the second must CANCEL the first.
/// Real in-game feedback: pressing A then quickly W made the game see two
/// separate fingers and the movements got confused.
fn grouped_engine() -> Rig {
    let mut b = ByName::new();
    b.insert("sol", Binding::Swipe {
        trigger: Trigger::Key(A),
        from: norm(0.5, 0.5), to: norm(0.2, 0.5), duration_ms: 80,
        group: Some("hareket".into()), easing: Easing::Linear,
    });
    b.insert("zipla", Binding::Swipe {
        trigger: Trigger::Key(W),
        from: norm(0.5, 0.6), to: norm(0.5, 0.3), duration_ms: 80,
        group: Some("hareket".into()), easing: Easing::Linear,
    });
    b.insert("ates", Binding::Swipe {
        trigger: Trigger::Key(SPACE),
        from: norm(0.9, 0.8), to: norm(0.9, 0.7), duration_ms: 80,
        group: None, easing: Easing::Linear,
    });
    Rig::new(Profile { name: "t".into(), package: "p".into(), bindings: b })
}

#[test]
fn second_gesture_in_group_cancels_the_first() {
    let mut e = grouped_engine();
    let a = e.handle(InputEvent::Press(key(A)));
    let first_id = match a[..] { [TouchAction::Down { id, .. }] => id, _ => panic!("{a:?}") };
    let _ = e.tick(20);
    let w = e.handle(InputEvent::Press(key(W)));
    // Cancel first (Up), then the new gesture (Down).
    match w[..] {
        [TouchAction::Up { id }, TouchAction::Down { .. }] =>
            assert_eq!(id, first_id, "the cancelled finger must be the first one"),
        _ => panic!("expected Up then Down: {w:?}"),
    }
    assert_eq!(e.swipe_count(), 1, "only the new gesture may remain");
}

/// A cancelled gesture must no longer advance.
#[test]
fn cancelled_gesture_stops_ticking() {
    let mut e = grouped_engine();
    let _ = e.handle(InputEvent::Press(key(A)));
    let _ = e.tick(20);
    let _ = e.handle(InputEvent::Press(key(W)));
    // Later ticks must advance only W's gesture: vertical movement.
    let mut moves = Vec::new();
    for ms in (25..=110).step_by(5) {
        for act in e.tick(ms) {
            if let TouchAction::Move { at, .. } = act { moves.push(at); }
        }
    }
    assert!(!moves.is_empty());
    assert!(moves.iter().all(|m| (f(m.x) - 0.5).abs() < 1e-4),
            "only vertical movement is allowed, no horizontal trace may remain");
}

/// An ungrouped gesture must NOT BE AFFECTED by grouped ones — in shooters
/// joystick + aim + fire must be simultaneous.
#[test]
fn ungrouped_gesture_is_not_cancelled() {
    let mut e = grouped_engine();
    let _ = e.handle(InputEvent::Press(key(SPACE)));
    let _ = e.tick(10);
    let a = e.handle(InputEvent::Press(key(A)));
    assert!(matches!(a[..], [TouchAction::Down { .. }]),
            "an ungrouped gesture must not be cancelled: {a:?}");
    assert_eq!(e.swipe_count(), 2, "both gestures must run together");
}

#[test]
fn swipe_starts_with_finger_down_at_origin() {
    let mut e = swipe_engine();
    let a = e.handle(InputEvent::Press(key(A)));
    match a[..] {
        [TouchAction::Down { at, .. }] => assert!((f(at.x) - 0.5).abs() < 1e-5),
        _ => panic!("{a:?}"),
    }
    assert!(e.has_pending(), "the gesture must go on");
}

/// A swipe must produce INTERMEDIATE STEPS — a single jump is not a gesture.
#[test]
fn swipe_emits_intermediate_steps() {
    let mut e = swipe_engine();
    let _ = e.handle(InputEvent::Press(key(A)));
    let mut moves = 0;
    for ms in (0..=80).step_by(5) {
        for act in e.tick(ms) {
            if matches!(act, TouchAction::Move { .. }) { moves += 1; }
        }
    }
    assert!(moves >= 8, "at least 8 intermediate steps expected, {moves} produced");
}

#[test]
fn swipe_reaches_target_and_lifts() {
    let mut e = swipe_engine();
    let _ = e.handle(InputEvent::Press(key(A)));
    let mut last_pos = None;
    let mut lifted = false;
    for ms in (0..=100).step_by(5) {
        for act in e.tick(ms) {
            match act {
                TouchAction::Move { at, .. } => last_pos = Some(at),
                TouchAction::Up { .. } => lifted = true,
                _ => {}
            }
        }
    }
    assert!(lifted, "the finger must lift at the end of the gesture");
    let at = last_pos.expect("no movement was produced");
    assert!((f(at.x) - 0.2).abs() < 1e-4, "it must reach the target, {at:?}");
    assert!(!e.has_pending(), "a finished gesture must not stay in the list");
}

/// Fire and forget: releasing the key must not cut the gesture.
#[test]
fn releasing_key_does_not_abort_swipe() {
    let mut e = swipe_engine();
    let _ = e.handle(InputEvent::Press(key(A)));
    let _ = e.tick(20);
    let a = e.handle(InputEvent::Release(key(A)));
    assert!(a.is_empty(), "the release must produce no events: {a:?}");
    assert!(e.has_pending(), "the gesture must go on");
}

/// Pressing again while the same swipe plays must not start a second gesture.
#[test]
fn repeated_press_does_not_stack_swipes() {
    let mut e = swipe_engine();
    let _ = e.handle(InputEvent::Press(key(A)));
    let _ = e.handle(InputEvent::Release(key(A)));
    let a = e.handle(InputEvent::Press(key(A)));
    assert!(a.is_empty(), "a second gesture must not start: {a:?}");
}

/// On a front-loaded curve the final micro-steps must be filtered out, but
/// the gesture must still REACH its target and lift the finger.
#[test]
fn tiny_tail_steps_are_dropped_but_target_is_reached() {
    let mut b = ByName::new();
    b.insert("sol", Binding::Swipe {
        trigger: Trigger::Key(A),
        from: norm(0.5, 0.5), to: norm(0.2, 0.5), duration_ms: 80,
        group: None, easing: Easing::EaseOutStrong,
    });
    let mut e = Rig::new(Profile { name: "t".into(), package: "p".into(), bindings: b });
    let _ = e.handle(InputEvent::Press(key(A)));

    let mut moves: Vec<Norm> = Vec::new();
    let mut lifted = false;
    for ms in (0..=100).step_by(2) {
        for act in e.tick(ms) {
            match act {
                TouchAction::Move { at, .. } => moves.push(at),
                TouchAction::Up { .. } => lifted = true,
                _ => {}
            }
        }
    }
    assert!(lifted, "the finger must lift");
    let last = moves.last().expect("no movement");
    assert!((f(last.x) - 0.2).abs() < 1e-4, "it must reach the target: {last:?}");

    // No meaningless distance may remain between consecutive steps (except the last).
    for w in moves.windows(2).take(moves.len().saturating_sub(2)) {
        let d = ((f(w[1].x) - f(w[0].x)).powi(2) + (f(w[1].y) - f(w[0].y)).powi(2)).sqrt();
        assert!(d >= MIN_STEP_DELTA * 0.99,
            "a meaningless intermediate step remained: {d} < {MIN_STEP_DELTA}");
    }
}



/// Idle recentring: the lift and the press must be in SEPARATE frames.
///
/// Returned in one batch, the backend puts them into one `SYN_REPORT`;
/// Android cannot see the touch end and the game sees a teleport. The bug
/// warned about repeatedly elsewhere in the code was here.
#[test]
fn idle_recenter_lifts_and_lands_in_separate_frames() {
    let mut e = always_on_aim();
    let _ = e.tick(0);
    let _ = mouse(&mut e, 300.0, 0.0);
    // Immediately: not idle yet.
    assert!(e.tick(10).is_empty(), "must not recentre right after movement");

    // Idle: only the LIFT.
    let a = e.tick(100);
    assert!(matches!(a[..], [TouchAction::Up { .. }]),
            "only the lift may come first: {a:?}");
    assert!(e.has_pending(), "a delayed press must count as pending");

    // Next frame: only the PRESS, and at the centre.
    let b = e.tick(101);
    match b[..] {
        [TouchAction::Down { at, .. }] => {
            assert!((f(at.x) - 0.5).abs() < 1e-4 && (f(at.y) - 0.5).abs() < 1e-4,
                    "must land at the centre: {at:?}");
        }
        _ => panic!("only the press was expected in a separate frame: {b:?}"),
    }
}

// ---------------------------------------------------------------
// UNBOUNDED AIM
//
// All three symptoms the user reported came from recentring at the edge:
// lifting the finger cuts the game's tracking ("does not detect at all"),
// the delayed press feeding itself produces dead zones lasting seconds, and
// non-linear scaling tied sensitivity to the finger's invisible position
// ("aim drifts").
//
// In unbounded mode there is NO recentring. The following guard that.
// ---------------------------------------------------------------

fn free_aim() -> Rig {
    let mut b = ByName::new();
    b.insert("bakis", Binding::Aim {
        toggle: None,
        origin: norm(0.72, 0.5),
        sensitivity: n(0.001),
        deadzone: n(0.5),
        recenter_margin: n(0.12),
        handoff: false, nonlinear: true, reset_delay_ms: 12,
        unbounded: true, safety_span: n(32.0),
    });
    let mut e = Rig::new(Profile {
        name: "t".into(), package: "p".into(), bindings: b });
    e.set_offscreen_ok(true);
    e
}

/// During a continuous turn the finger must NEVER lift and must go off-screen.
///
/// On the bounded path the same movement produced dozens of lifts/presses;
/// each cut the game's tracking and swallowed a frame of rotation.
#[test]
fn unbounded_aim_never_lifts_the_finger() {
    let mut e = free_aim();
    let mut last = norm(0.0, 0.0);
    for _ in 0..400 {
        for a in mouse(&mut e, 40.0, 0.0) {
            assert!(!matches!(a, TouchAction::Up { .. }),
                    "the finger must not lift in unbounded mode");
            if let TouchAction::Move { at, .. } = a { last = at; }
        }
    }
    assert!(last.is_offscreen(), "the finger must be able to go off-screen: {last:?}");
    assert!(f(last.x) > 5.0, "400 x 40 counts x 0.001 ~ 16 screens: {last:?}");
    assert_eq!(e.active_pointers(), 1, "only one aim finger may remain");
}

/// Sensitivity must be CONSTANT: the same mouse movement must cover the
/// same distance at every position. If it varies, muscle memory is impossible.
#[test]
fn unbounded_aim_sensitivity_does_not_drift() {
    let mut e = free_aim();
    let step_at = |e: &mut Rig| -> f32 {
        let before = f(e.aim_position().expect("the finger must be down").x);
        let _ = mouse(e, 50.0, 0.0);
        f(e.aim_position().unwrap().x) - before
    };
    let _ = mouse(&mut e, 50.0, 0.0);   // press
    let _ = mouse(&mut e, 50.0, 0.0);   // the deferred motion is applied
    let near = step_at(&mut e);
    for _ in 0..200 { let _ = mouse(&mut e, 50.0, 0.0); }
    let far = step_at(&mut e);
    assert!((near - far).abs() < 1e-5,
            "{near} at the centre, {far} far out — sensitivity must not change");
    assert!((near - 0.05).abs() < 1e-5, "50 counts x 0.001 = 0.05: {near}");
}

/// The press and the first movement must not be in the SAME frame: the game
/// could not compute a delta and that turn would be lost.
#[test]
fn unbounded_aim_lands_alone_then_moves() {
    let mut e = free_aim();
    let first = mouse(&mut e, 60.0, 0.0);
    match first[..] {
        [TouchAction::Down { at, .. }] => {
            assert!((f(at.x) - 0.72).abs() < 1e-4, "must land in the look area: {at:?}");
        }
        _ => panic!("only the press was expected first: {first:?}"),
    }
    let second = { let t = e.now_ms() + 1; e.tick(t) };
    match second[..] {
        [TouchAction::Move { at, .. }] =>
            assert!((f(at.x) - (0.72 + 0.06)).abs() < 1e-4,
                    "the deferred movement must not be lost: {at:?}"),
        _ => panic!("expected a move afterwards: {second:?}"),
    }
}

/// If the backend cannot carry off-screen coordinates, unbounded mode must
/// NOT ENGAGE.
///
/// On the uinput path libinput clamps the coordinate to the screen; trusting
/// unbounded mode would leave the finger stuck at the edge forever — worse
/// than the bounded path.
#[test]
fn unbounded_needs_backend_support() {
    let mut e = free_aim();
    e.set_offscreen_ok(false);
    assert!(!e.aim_is_unbounded());
    let mut saw_lift = false;
    for _ in 0..400 {
        for a in mouse(&mut e, 40.0, 0.0) {
            if matches!(a, TouchAction::Up { .. }) { saw_lift = true; }
            if let TouchAction::Move { at, .. } = a {
                assert!(!at.is_offscreen(),
                        "must not go off-screen on an unsupported backend: {at:?}");
            }
        }
    }
    assert!(saw_lift, "a reset is expected on the bounded path");
}

/// Even leaning on the safety box, a reset happens ONLY while the mouse is
/// stopped.
///
/// Resetting during motion is felt as a pause; at a standstill it is never
/// noticed.
#[test]
fn safety_reset_waits_for_the_mouse_to_stop() {
    let mut e = free_aim();
    // Definitively pass half the box (16 screens).
    for _ in 0..600 { let _ = mouse(&mut e, 50.0, 0.0); }
    let far = e.aim_position().expect("the finger must be down");
    assert!(f(far.x) - 0.72 > 16.0, "must be beyond the threshold: {far:?}");

    // The mouse is still moving: no reset.
    for a in mouse(&mut e, 50.0, 0.0) {
        assert!(!matches!(a, TouchAction::Up { .. }),
                "must not reset while moving");
    }
    // The mouse stopped: a lift, then the press in a separate frame.
    let lift = { let t = e.now_ms() + 200; e.tick(t) };
    assert!(matches!(lift[..], [TouchAction::Up { .. }]),
            "must reset when idle: {lift:?}");
    let land = { let t = e.now_ms() + 20; e.tick(t) };
    match land[..] {
        [TouchAction::Down { at, .. }] =>
            assert!((f(at.x) - 0.72).abs() < 1e-4, "must land at the centre: {at:?}"),
        _ => panic!("the press was expected in a separate frame: {land:?}"),
    }
}

/// Idle recentring must NOT happen near the centre — a needless Up/Down is
/// taken for a tap in some games.
#[test]
fn idle_recenter_skips_when_already_near_centre() {
    let mut e = always_on_aim();
    let _ = e.tick(0);
    let _ = mouse(&mut e, 5.0, 0.0);
    assert!(e.tick(500).is_empty(), "must not recentre near the centre");
}

/// Pending work after a reset MUST be counted — otherwise the caller stops
/// calling tick and aim dies completely.
#[test]
fn pending_includes_delayed_down() {
    let mut e = always_on_aim();
    let _ = mouse(&mut e, 10.0, 0.0);
    let a = mouse(&mut e, 400.0, 0.0);
    assert!(a.iter().any(|x| matches!(x, TouchAction::Up { .. })));
    assert!(e.has_pending(),
        "has_pending must be TRUE while a delayed press is due");
}

/// The joystick must NOT STOP when aim resets while walking.
#[test]
fn joystick_keeps_working_during_aim_reset() {
    let mut b = ByName::new();
    b.insert("bakis", Binding::Aim {
        toggle: None, origin: norm(0.5, 0.5),
        sensitivity: n(0.001), deadzone: n(0.5), recenter_margin: n(0.12),
        handoff: false, nonlinear: false, reset_delay_ms: 20,
        unbounded: false, safety_span: n(32.0),
    });
    b.insert("hareket", Binding::Joystick {
        up: Trigger::Key(W), down: Trigger::Key(S),
        left: Trigger::Key(A), right: Trigger::Key(D),
        center: norm(0.2, 0.7), radius: n(0.1),
    });
    let mut e = Rig::new(Profile {
        name: "t".into(), package: "p".into(), bindings: b });

    let _ = mouse(&mut e, 10.0, 0.0);
    let _ = mouse(&mut e, 400.0, 0.0);      // aim resets
    // The joystick is pressed while the reset is pending.
    let _ = e.handle(InputEvent::Press(key(W)));
    let a = { let t = e.now_ms() + 1; e.tick(t) };          // the press is not due yet
    assert!(a.iter().any(|x| matches!(x, TouchAction::Move { .. })),
        "the joystick direction must be applied while aim resets: {a:?}");
}

/// A lost key release must NOT LEAK a pointer.
///
/// If leaks accumulate the pool fills and aim cannot get a pointer — the
/// mouse dies completely. This actually happened.
#[test]
fn orphaned_pointers_are_reclaimed() {
    let mut e = Rig::new(joystick_profile());
    let _ = e.handle(InputEvent::Press(key(SPACE)));
    assert_eq!(e.active_pointers(), 1);

    // "Lose" the release event: clear the held set directly.
    e.forget_held();

    let a = e.tick(10);
    assert!(a.iter().any(|x| matches!(x, TouchAction::Up { .. })),
        "the orphaned pointer must be released: {a:?}");
    assert_eq!(e.active_pointers(), 0, "the pool must be clean");
}

#[test]
fn tick_without_pending_gesture_is_silent() {
    let mut e = swipe_engine();
    assert!(e.tick(1000).is_empty());
}

/// A gesture in progress must also be cleaned up when the engine is disabled.
#[test]
fn disabling_clears_pending_swipes() {
    let mut e = swipe_engine();
    let _ = e.handle(InputEvent::Press(key(A)));
    assert!(e.has_pending());
    let _ = e.set_enabled(false);
    assert!(!e.has_pending());
}

#[test]
fn tick_and_handle_return_actions_that_must_be_dispatched() {
    let mut b = ByName::new();
    b.insert("t", Binding::Tap {
        trigger: Trigger::Key(57), at: norm(0.5, 0.5),
    });
    let mut e = Rig::new(Profile {
        name: "t".into(), package: "p".into(), bindings: b,
    });
    let down = e.handle(InputEvent::Press(TriggerKind::Key(57)));
    assert!(!down.is_empty(), "actions must be RETURNED to the caller, not kept inside");
    let up = e.handle(InputEvent::Release(TriggerKind::Key(57)));
    assert!(matches!(up[..], [TouchAction::Up { .. }]));
}

/// Left and right cancel out, but both are held: the finger waits at the centre.
#[test]
fn cancelling_directions_keep_the_finger_down() {
    let mut e = Rig::new(joystick_profile());
    let _ = e.handle(InputEvent::Press(key(W)));
    let _ = e.handle(InputEvent::Press(key(A)));
    let _ = e.handle(InputEvent::Press(key(D)));
    let a = e.handle(InputEvent::Release(key(W)));
    assert!(matches!(a[..], [TouchAction::Move { .. }]), "{a:?}");
    match a[..] {
        [TouchAction::Move { at, .. }] => assert_eq!(at, norm(0.2, 0.7)),
        _ => unreachable!(),
    }
    let a = e.handle(InputEvent::Release(key(A)));
    assert!(matches!(a[..], [TouchAction::Move { .. }]), "{a:?}");
    let a = e.handle(InputEvent::Release(key(D)));
    assert!(matches!(a[..], [TouchAction::Up { .. }]), "{a:?}");
}

/// The tick on which a delayed press is due holds that press and nothing else of
/// the aim finger: motion gathered meanwhile comes a tick later.
#[test]
fn a_due_press_shares_its_tick_with_no_move() {
    let mut e = free_aim();
    for _ in 0..600 {
        let _ = mouse(&mut e, 50.0, 0.0);
    }
    let lift = { let t = e.now_ms() + 200; e.tick(t) };
    assert!(matches!(lift[..], [TouchAction::Up { .. }]), "{lift:?}");
    let g = InputEvent::MouseMove { dx: n(60.0), dy: n(0.0) };
    assert!(e.handle(g).is_empty());
    let land = { let t = e.now_ms() + 20; e.tick(t) };
    let id = match land[..] {
        [TouchAction::Down { id, at }] => {
            assert_eq!((f(at.x), f(at.y)), (0.72, 0.5));
            id
        }
        _ => panic!("only the press was expected: {land:?}"),
    };
    let after = { let t = e.now_ms() + 1; e.tick(t) };
    match after[..] {
        [TouchAction::Move { id: moved, at }] => {
            assert_eq!(moved, id);
            assert!((f(at.x) - 0.78).abs() < 1e-4, "{at:?}");
        }
        _ => panic!("one move was expected: {after:?}"),
    }
}

/// Every tick with motion is one move of the one aim finger.
#[test]
fn free_aim_moves_one_finger_once_a_tick() {
    let mut e = free_aim();
    let first = mouse(&mut e, 60.0, 0.0);
    let id = match first[..] {
        [TouchAction::Down { id, .. }] => id,
        _ => panic!("the press was expected: {first:?}"),
    };
    for _ in 0..50 {
        let acts = mouse(&mut e, 7.0, -3.0);
        assert!(matches!(acts[..], [TouchAction::Move { id: moved, .. }] if moved == id), "{acts:?}");
    }
}
