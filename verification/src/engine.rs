//! Mapping engine: host input becomes touch actions.
//!
//! Kept pure and synchronous: no I/O inside, and the time comes from outside.
//! What needs single precision arithmetic (where a joystick edge lies, how far a
//! finger has drifted) comes from outside too, as `Figures`; the engine tells
//! through its queries what they must be computed from, and takes every decision
//! that follows from them.

use crate::num::{Num, ZERO_BITS};
use crate::profile::{Binding, Easing, Profile, Trigger};
use crate::held::Held;
use crate::touch::{Norm, PointerPool, PoolView, TouchAction};
use vstd::prelude::*;
use vstd::string::*;

verus! {

/// A trigger as the engine sees it.
#[derive(Clone, Copy, Debug, PartialEq, Eq, Hash, Structural)]
pub enum TriggerKind {
    Key(u16),
    MouseLeft,
    MouseRight,
    MouseMiddle,
    WheelUp,
    WheelDown,
}

/// The engine's name for a trigger kind.
pub type Trigger2 = TriggerKind;

impl TriggerKind {
    /// The kind of a profile's trigger.
    pub open spec fn of(t: Trigger) -> TriggerKind {
        match t {
            Trigger::Key(k) => TriggerKind::Key(k),
            Trigger::MouseLeft => TriggerKind::MouseLeft,
            Trigger::MouseRight => TriggerKind::MouseRight,
            Trigger::MouseMiddle => TriggerKind::MouseMiddle,
            Trigger::WheelUp => TriggerKind::WheelUp,
            Trigger::WheelDown => TriggerKind::WheelDown,
        }
    }
}

impl From<&Trigger> for TriggerKind {
    fn from(t: &Trigger) -> (r: TriggerKind) {
        match t {
            Trigger::Key(k) => TriggerKind::Key(*k),
            Trigger::MouseLeft => TriggerKind::MouseLeft,
            Trigger::MouseRight => TriggerKind::MouseRight,
            Trigger::MouseMiddle => TriggerKind::MouseMiddle,
            Trigger::WheelUp => TriggerKind::WheelUp,
            Trigger::WheelDown => TriggerKind::WheelDown,
        }
    }
}

impl vstd::std_specs::convert::FromSpecImpl<&Trigger> for TriggerKind {
    open spec fn obeys_from_spec() -> bool {
        true
    }

    open spec fn from_spec(t: &Trigger) -> TriggerKind {
        TriggerKind::of(*t)
    }
}

/// Relative mouse motion, in pixels.
#[derive(Clone, Copy, Debug, PartialEq, Eq, Structural)]
pub struct Motion {
    pub dx: Num,
    pub dy: Num,
}

impl Motion {
    /// No motion.
    pub open spec fn none_spec() -> Motion {
        Motion { dx: Num { bits: ZERO_BITS }, dy: Num { bits: ZERO_BITS } }
    }

    /// A component that is zero, of either sign.
    pub open spec fn is_zero(n: Num) -> bool {
        !n.is_nan_spec() && n.val() == Num { bits: ZERO_BITS }.val()
    }

    /// Nothing to apply.
    pub open spec fn quiet_spec(self) -> bool {
        Motion::is_zero(self.dx) && Motion::is_zero(self.dy)
    }

    /// A zero component as the positive zero, anything else as it is.
    pub open spec fn settled(n: Num) -> Num {
        if Motion::is_zero(n) {
            Num { bits: ZERO_BITS }
        } else {
            n
        }
    }

    pub fn none() -> (r: Motion)
        ensures
            r == Motion::none_spec(),
    {
        Motion { dx: Num::of(ZERO_BITS), dy: Num::of(ZERO_BITS) }
    }

    pub fn quiet(self) -> (r: bool)
        ensures
            r == self.quiet_spec(),
    {
        proof {
            crate::num::lemma_unit_interval();
        }
        self.dx.same(Num::of(ZERO_BITS)) && self.dy.same(Num::of(ZERO_BITS))
    }

    fn settle(n: Num) -> (r: Num)
        ensures
            r == Motion::settled(n),
    {
        proof {
            crate::num::lemma_unit_interval();
        }
        if n.same(Num::of(ZERO_BITS)) {
            Num::of(ZERO_BITS)
        } else {
            n
        }
    }
}

/// A raw input event arriving at the engine.
#[derive(Clone, Copy, Debug, PartialEq, Eq, Structural)]
pub enum InputEvent {
    Press(Trigger2),
    Release(Trigger2),
    /// Relative mouse motion (pixels).
    MouseMove { dx: Num, dy: Num },
}

/// How many intermediate steps a swipe is split into. Too few and the gesture
/// is not recognised, too many and it produces needless events.
pub const SWIPE_STEPS: u32 = 12;

/// The bits of 0.002: if two consecutive steps are closer than this, the
/// intermediate one is not sent.
pub const MIN_STEP_DELTA_BITS: u32 = 0x3b03_126f;

/// The bits of 0.01, the smallest recentre margin.
pub const MARGIN_MIN_BITS: u32 = 0x3c23_d70a;

/// The bits of 0.45, the largest recentre margin.
pub const MARGIN_MAX_BITS: u32 = 0x3ee6_6666;

/// The bits of the gap between 1 and the next larger number.
pub const EPSILON_BITS: u32 = 0x3400_0000;

/// The mouse counts as stopped after this long without motion (ms).
pub const IDLE_MS: u64 = 35;

/// The latest time the engine can be told: swipe progress is computed in
/// twelfths, which must not overflow.
pub const LATEST_MS: u64 = 0x1555_5555_5555_5555;

/// A swipe gesture in progress.
///
/// A swipe is "fire and forget": pressing the key plays the whole gesture, and
/// how long the key is held does not matter.
#[derive(Clone, Copy, Debug, PartialEq, Eq, Structural)]
pub struct ActiveSwipe {
    /// Position of the binding in the profile.
    pub index: usize,
    pub id: u8,
    pub start_ms: u64,
    /// Last intermediate step reached, to avoid sending a position twice.
    pub last_step: u32,
    /// Last position sent.
    pub last_sent: Norm,
}

/// The aim binding of a profile.
#[derive(Clone, Copy, Debug, PartialEq, Eq, Structural)]
pub struct Aim {
    /// Position of the binding in the profile.
    pub index: usize,
    pub toggle: Option<Trigger>,
    pub origin: Norm,
    pub sensitivity: Num,
    pub deadzone: Num,
    pub recenter_margin: Num,
    pub handoff: bool,
    pub nonlinear: bool,
    pub reset_delay_ms: u32,
    pub unbounded: bool,
    pub safety_span: Num,
}

impl Aim {
    /// The recentre margin in force: what the profile asks for, within limits.
    pub open spec fn margin_spec(self) -> Num {
        self.recenter_margin.clamp_spec(
            Num { bits: MARGIN_MIN_BITS },
            Num { bits: MARGIN_MAX_BITS },
        )
    }

    pub fn margin(self) -> (r: Num)
        ensures
            r == self.margin_spec(),
    {
        proof {
            crate::num::lemma_magnitude_order(MARGIN_MIN_BITS as nat, MARGIN_MAX_BITS as nat);
        }
        self.recenter_margin.clamp(Num::of(MARGIN_MIN_BITS), Num::of(MARGIN_MAX_BITS))
    }
}

/// What the position of a joystick finger is computed from.
#[derive(Clone, Copy, Debug, PartialEq, Eq, Structural)]
pub struct StickQuery {
    pub center: Norm,
    pub radius: Num,
    /// -1 left, 1 right.
    pub dx: i8,
    /// -1 up, 1 down.
    pub dy: i8,
}

/// What the numbers of an aim step are computed from.
#[derive(Clone, Copy, Debug, PartialEq, Eq, Structural)]
pub struct AimQuery {
    pub aim: Aim,
    /// Where the finger is, or where it would go down.
    pub pos: Norm,
    /// Where the second finger of a handoff is.
    pub second: Option<Norm>,
    /// Motion deferred from an earlier frame.
    pub pending: Option<Motion>,
    /// Motion gathered since the last frame.
    pub gathered: Motion,
    pub aspect: Num,
}

/// What the next position of a swipe is computed from.
#[derive(Clone, Copy, Debug, PartialEq, Eq, Structural)]
pub struct SwipeQuery {
    pub from: Norm,
    pub to: Norm,
    pub easing: Easing,
    /// Twelfths of the way in time.
    pub step: u32,
    pub last_sent: Norm,
}

/// The numbers of an event.
#[derive(Clone, Copy, Debug, PartialEq, Eq, Structural)]
pub struct EventFigures {
    /// Where the joystick finger belongs, before squeezing into the screen.
    pub stick: Norm,
    /// The gathered motion with this event added.
    pub total: Motion,
}

/// The numbers of an aim step.
///
/// `delta` below is the deferred motion plus the gathered one.
#[derive(Clone, Copy, Debug, PartialEq, Eq, Structural)]
pub struct AimFigures {
    /// Length of the gathered motion.
    pub travel: Num,
    /// The far limit, one minus the margin.
    pub hi: Num,
    /// Where the gathered motion takes the finger, scaled by its sensitivity.
    pub next: Norm,
    /// Where `delta` takes the finger at plain sensitivity.
    pub plain: Norm,
    /// Where `delta` takes a finger that may leave the screen.
    pub free: Norm,
    /// Distance of the finger from the origin.
    pub drift: Num,
    /// Beyond this drift a second finger is prepared.
    pub reach: Num,
    /// Where the second finger goes down.
    pub seat: Norm,
    /// Where the gathered motion takes the second finger.
    pub second: Norm,
    /// How far, on each axis, the limit lies from the finger.
    pub edge_gap_x: Num,
    pub edge_gap_y: Num,
    /// Below this drift a resting finger is left alone.
    pub idle_limit: Num,
}

/// The numbers of one swipe step.
#[derive(Clone, Copy, Debug, PartialEq, Eq, Structural)]
pub struct SwipeFigures {
    /// Where the gesture is now, before squeezing into the screen.
    pub at: Norm,
    /// Distance to the position sent last.
    pub gap: Num,
}

/// The numbers of a frame.
#[derive(Debug)]
pub struct Figures {
    pub stick: Norm,
    pub aim: AimFigures,
    /// One entry for each gesture in progress.
    pub swipes: Vec<SwipeFigures>,
}

/// The key under which the pool keeps the second finger of a handoff.
pub open spec fn second_name(name: Seq<char>) -> Seq<char> {
    name.push('\0').push('2')
}

/// Pool key of the second finger used for handoff.
pub fn second_key(name: &str) -> (r: String)
    ensures
        r@ == second_name(name@),
{
    let mut s: String = name.to_owned();
    s.push('\0');
    s.push('2');
    s
}

/// Whether a binding answers to `t`.
pub open spec fn answers(b: Binding, t: TriggerKind) -> bool {
    exists|j: int|
        0 <= j < b.triggers_spec().len() && TriggerKind::of(#[trigger] b.triggers_spec()[j]) == t
}

/// The first binding at or after `i` that answers to `t`.
pub open spec fn owner_from(b: Seq<(String, Binding)>, t: TriggerKind, i: int) -> Option<int>
    decreases b.len() - i,
{
    if i >= b.len() {
        None
    } else if answers(b[i].1, t) {
        Some(i)
    } else {
        owner_from(b, t, i + 1)
    }
}

/// The binding as an aim binding.
pub open spec fn as_aim(b: Binding, i: int) -> Option<Aim> {
    match b {
        Binding::Aim {
            toggle,
            origin,
            sensitivity,
            deadzone,
            recenter_margin,
            handoff,
            nonlinear,
            reset_delay_ms,
            unbounded,
            safety_span,
        } => Some(
            Aim {
                index: i as usize,
                toggle,
                origin,
                sensitivity,
                deadzone,
                recenter_margin,
                handoff,
                nonlinear,
                reset_delay_ms,
                unbounded,
                safety_span,
            },
        ),
        _ => None,
    }
}

/// The first aim binding at or after `i`.
pub open spec fn aim_from(b: Seq<(String, Binding)>, i: int) -> Option<Aim>
    decreases b.len() - i,
{
    if i >= b.len() {
        None
    } else if as_aim(b[i].1, i) is Some {
        as_aim(b[i].1, i)
    } else {
        aim_from(b, i + 1)
    }
}

/// The trigger that must be held for the binding to keep its finger.
pub open spec fn hold_trigger(b: Binding) -> Option<TriggerKind> {
    match b {
        Binding::Tap { trigger, .. } => Some(TriggerKind::of(trigger)),
        Binding::Toggle { trigger, .. } => Some(TriggerKind::of(trigger)),
        _ => None,
    }
}

/// Progress of a gesture in twelfths of its time.
pub open spec fn step_at(now: int, start: int, duration: int) -> int {
    let elapsed = if now > start {
        now - start
    } else {
        0
    };
    if duration == 0 || elapsed * SWIPE_STEPS / duration > SWIPE_STEPS {
        SWIPE_STEPS as int
    } else {
        elapsed * SWIPE_STEPS / duration
    }
}

/// How long the gesture of a binding takes.
pub open spec fn swipe_duration(b: Binding) -> int {
    match b {
        Binding::Swipe { duration_ms, .. } => duration_ms as int,
        _ => 0,
    }
}

/// What one gesture does in a frame.
pub struct SwipeOut {
    pub next: ActiveSwipe,
    pub acts: Seq<TouchAction>,
    pub done: bool,
}

/// A gesture that has not advanced stays as it is. One that has moves its
/// finger, unless the way is too short to matter; the last step is always sent
/// and lifts the finger.
pub open spec fn swipe_out(b: Seq<(String, Binding)>, s: ActiveSwipe, now: int, f: SwipeFigures) -> SwipeOut {
    let step = step_at(now, s.start_ms as int, swipe_duration(b[s.index as int].1));
    if step == s.last_step {
        SwipeOut { next: s, acts: Seq::empty(), done: false }
    } else {
        let at = Norm::new_spec(f.at.x, f.at.y);
        let done = step >= SWIPE_STEPS;
        let sent = done || (Num { bits: MIN_STEP_DELTA_BITS }).le(f.gap);
        SwipeOut {
            next: ActiveSwipe {
                last_step: step as u32,
                last_sent: if sent {
                    at
                } else {
                    s.last_sent
                },
                ..s
            },
            acts: if done {
                seq![TouchAction::Move { id: s.id, at }, TouchAction::Up { id: s.id }]
            } else if sent {
                seq![TouchAction::Move { id: s.id, at }]
            } else {
                Seq::empty()
            },
            done,
        }
    }
}

/// The actions of the first `n` gestures.
pub open spec fn swipe_acts(
    b: Seq<(String, Binding)>,
    s: Seq<ActiveSwipe>,
    now: int,
    f: Seq<SwipeFigures>,
    n: int,
) -> Seq<TouchAction>
    decreases n,
{
    if n <= 0 {
        Seq::empty()
    } else {
        swipe_acts(b, s, now, f, n - 1) + swipe_out(b, s[n - 1], now, f[n - 1]).acts
    }
}

/// The gestures among the first `n` that go on.
pub open spec fn swipe_rest(
    b: Seq<(String, Binding)>,
    s: Seq<ActiveSwipe>,
    now: int,
    f: Seq<SwipeFigures>,
    n: int,
) -> Seq<ActiveSwipe>
    decreases n,
{
    if n <= 0 {
        Seq::empty()
    } else {
        let rest = swipe_rest(b, s, now, f, n - 1);
        let o = swipe_out(b, s[n - 1], now, f[n - 1]);
        if o.done {
            rest
        } else {
            rest.push(o.next)
        }
    }
}

/// The pool once the finished gestures among the first `n` gave their fingers back.
pub open spec fn swipe_pool(
    p: PoolView,
    b: Seq<(String, Binding)>,
    s: Seq<ActiveSwipe>,
    now: int,
    f: Seq<SwipeFigures>,
    n: int,
) -> PoolView
    decreases n,
{
    if n <= 0 {
        p
    } else {
        let before = swipe_pool(p, b, s, now, f, n - 1);
        if swipe_out(b, s[n - 1], now, f[n - 1]).done {
            before.release(b[s[n - 1].index as int].0@).0
        } else {
            before
        }
    }
}

/// The gestures of a group among the first `n`.
pub open spec fn in_group(
    b: Seq<(String, Binding)>,
    s: Seq<ActiveSwipe>,
    g: Option<Seq<char>>,
    n: int,
) -> Seq<ActiveSwipe>
    decreases n,
{
    if n <= 0 {
        Seq::empty()
    } else {
        let rest = in_group(b, s, g, n - 1);
        if g is Some && b[s[n - 1].index as int].1.group_spec() == g {
            rest.push(s[n - 1])
        } else {
            rest
        }
    }
}

/// The gestures outside a group among the first `n`.
pub open spec fn outside_group(
    b: Seq<(String, Binding)>,
    s: Seq<ActiveSwipe>,
    g: Option<Seq<char>>,
    n: int,
) -> Seq<ActiveSwipe>
    decreases n,
{
    if n <= 0 {
        Seq::empty()
    } else {
        let rest = outside_group(b, s, g, n - 1);
        if g is Some && b[s[n - 1].index as int].1.group_spec() == g {
            rest
        } else {
            rest.push(s[n - 1])
        }
    }
}

/// The pool once every gesture listed gave its finger back.
pub open spec fn released(p: PoolView, b: Seq<(String, Binding)>, s: Seq<ActiveSwipe>) -> PoolView
    decreases s.len(),
{
    if s.len() == 0 {
        p
    } else {
        released(p, b, s.drop_last()).release(b[s.last().index as int].0@).0
    }
}

/// One lift for each gesture listed.
pub open spec fn swipe_lifts(s: Seq<ActiveSwipe>) -> Seq<TouchAction> {
    s.map_values(|x: ActiveSwipe| TouchAction::Up { id: x.id })
}

/// An optional id as a list of one lift.
pub open spec fn lift(id: Option<u8>) -> Seq<TouchAction> {
    match id {
        Some(id) => seq![TouchAction::Up { id }],
        None => Seq::empty(),
    }
}

/// An optional id as a list of one press.
pub open spec fn press_at(id: Option<u8>, at: Norm) -> Seq<TouchAction> {
    match id {
        Some(id) => seq![TouchAction::Down { id, at }],
        None => Seq::empty(),
    }
}

/// Everything the engine remembers between events, apart from the profile.
#[verifier::ext_equal]
pub struct EngineView {
    pub pool: PoolView,
    pub held: Set<TriggerKind>,
    pub swipes: Seq<ActiveSwipe>,
    pub now: int,
    pub aspect: Num,
    /// Mouse motion deferred to the next frame after a press.
    pub pending: Option<Motion>,
    /// Time of the last mouse motion.
    pub last_move: int,
    /// When the press after a lift is due.
    pub down_at: Option<int>,
    /// Mouse motion gathered since the last frame.
    pub gathered: Motion,
    /// Position of the second finger of a handoff.
    pub second: Option<Norm>,
    /// A joystick that went down at the centre and still has to move.
    pub stick: Option<int>,
    /// Where the aim finger is.
    pub aim_pos: Option<Norm>,
    pub enabled: bool,
    pub offscreen_ok: bool,
}

/// A state together with the actions that led to it.
pub type Outcome = (EngineView, Seq<TouchAction>);

impl EngineView {
    /// Nothing held, nothing in flight, and no finger on screen.
    pub open spec fn fresh() -> EngineView {
        EngineView {
            pool: PoolView::empty(),
            held: Set::empty(),
            swipes: Seq::empty(),
            now: 0,
            aspect: Num { bits: DEFAULT_ASPECT_BITS },
            pending: None,
            last_move: 0,
            down_at: None,
            gathered: Motion::none_spec(),
            second: None,
            stick: None,
            aim_pos: None,
            enabled: true,
            offscreen_ok: false,
        }
    }

    /// Unbounded aim is in force.
    pub open spec fn roams(self, a: Aim) -> bool {
        a.unbounded && self.offscreen_ok
    }

    /// The direction the held keys push a joystick, as (right, down).
    pub open spec fn stick_dir(self, b: Binding) -> (int, int) {
        match b {
            Binding::Joystick { up, down, left, right, .. } => (
                (if self.held.contains(TriggerKind::of(right)) {
                    1int
                } else {
                    0
                }) - (if self.held.contains(TriggerKind::of(left)) {
                    1int
                } else {
                    0
                }),
                (if self.held.contains(TriggerKind::of(down)) {
                    1int
                } else {
                    0
                }) - (if self.held.contains(TriggerKind::of(up)) {
                    1int
                } else {
                    0
                }),
            ),
            _ => (0, 0),
        }
    }

    /// Some direction of a joystick is held.
    pub open spec fn pushes(self, b: Binding) -> bool {
        match b {
            Binding::Joystick { up, down, left, right, .. } => {
                ||| self.held.contains(TriggerKind::of(up))
                ||| self.held.contains(TriggerKind::of(down))
                ||| self.held.contains(TriggerKind::of(left))
                ||| self.held.contains(TriggerKind::of(right))
            },
            _ => false,
        }
    }

    /// Where the finger of a joystick belongs: at `at`, which is computed from
    /// the direction, or at the centre where the held directions cancel out.
    pub open spec fn stick_spot(self, b: Binding, at: Norm) -> Norm {
        match b {
            Binding::Joystick { center, .. } => if self.stick_dir(b) == (0int, 0int) {
                Norm::new_spec(center.x, center.y)
            } else {
                Norm::new_spec(at.x, at.y)
            },
            _ => at,
        }
    }

    /// Positions the joystick finger according to the held directions. The first
    /// press goes down at the centre and the direction follows on the next
    /// frame. With no direction held nothing happens.
    pub open spec fn steer(self, b: Seq<(String, Binding)>, i: int, at: Norm) -> Outcome {
        let name = b[i].0@;
        match b[i].1 {
            Binding::Joystick { center, .. } => if !self.pushes(b[i].1) {
                (self, Seq::empty())
            } else {
                let (pool, id) = self.pool.acquire(name);
                match id {
                    Some(id) => if self.pool.get(name) is None {
                        (
                            EngineView { pool, stick: Some(i), ..self },
                            seq![TouchAction::Down { id, at: center }],
                        )
                    } else {
                        (
                            EngineView { pool, ..self },
                            seq![TouchAction::Move { id, at: self.stick_spot(b[i].1, at) }],
                        )
                    },
                    None => (self, Seq::empty()),
                }
            },
            _ => (self, Seq::empty()),
        }
    }

    /// A gesture starts: running gestures of its group are cancelled where they
    /// are, then the finger goes down. A gesture that is already playing goes on.
    pub open spec fn start_swipe(self, b: Seq<(String, Binding)>, i: int) -> Outcome {
        match b[i].1 {
            Binding::Swipe { from, .. } => if exists|k: int|
                0 <= k < self.swipes.len() && (#[trigger] self.swipes[k]).index == i {
                (self, Seq::empty())
            } else {
                let g = b[i].1.group_spec();
                let n = self.swipes.len() as int;
                let gone = in_group(b, self.swipes, g, n);
                let kept = outside_group(b, self.swipes, g, n);
                let (pool, id) = released(self.pool, b, gone).acquire(b[i].0@);
                match id {
                    Some(id) => (
                        EngineView {
                            pool,
                            swipes: kept.push(
                                ActiveSwipe {
                                    index: i as usize,
                                    id,
                                    start_ms: self.now as u64,
                                    last_step: 0,
                                    last_sent: from,
                                },
                            ),
                            ..self
                        },
                        swipe_lifts(gone).push(TouchAction::Down { id, at: from }),
                    ),
                    None => (EngineView { pool, swipes: kept, ..self }, swipe_lifts(gone)),
                }
            },
            _ => (self, Seq::empty()),
        }
    }

    /// A trigger goes down. Repeats of a held key are swallowed.
    pub open spec fn press(self, b: Seq<(String, Binding)>, t: TriggerKind, f: EventFigures) -> Outcome {
        let v = EngineView { held: self.held.insert(t), ..self };
        if self.held.contains(t) {
            (v, Seq::empty())
        } else {
            match owner_from(b, t, 0) {
                None => (v, Seq::empty()),
                Some(i) => match b[i].1 {
                    Binding::Tap { at, .. } => {
                        let (pool, id) = v.pool.acquire(b[i].0@);
                        (EngineView { pool, ..v }, press_at(id, at))
                    },
                    Binding::Toggle { at, .. } => {
                        let (pool, id) = v.pool.acquire(b[i].0@);
                        (EngineView { pool, ..v }, press_at(id, at))
                    },
                    Binding::Joystick { .. } => v.steer(b, i, f.stick),
                    Binding::Aim { origin, .. } => {
                        let (pool, id) = v.pool.acquire(b[i].0@);
                        (
                            EngineView { pool, down_at: None, aim_pos: Some(origin), ..v },
                            press_at(id, origin),
                        )
                    },
                    Binding::Swipe { .. } => v.start_swipe(b, i),
                },
            }
        }
    }

    /// A trigger comes up. A joystick with a direction still held only moves; a
    /// swipe is not affected; everything else lifts its finger.
    pub open spec fn lift_trigger(self, b: Seq<(String, Binding)>, t: TriggerKind, f: EventFigures) -> Outcome {
        let v = EngineView { held: self.held.remove(t), ..self };
        if !self.held.contains(t) {
            (v, Seq::empty())
        } else {
            match owner_from(b, t, 0) {
                None => (v, Seq::empty()),
                Some(i) => {
                    let (pool, id) = v.pool.release(b[i].0@);
                    match b[i].1 {
                        Binding::Joystick { .. } => {
                            let (w, acts) = v.steer(b, i, f.stick);
                            if acts.len() == 0 {
                                (EngineView { pool: w.pool.release(b[i].0@).0, ..w }, lift(
                                    w.pool.release(b[i].0@).1,
                                ))
                            } else {
                                (w, acts)
                            }
                        },
                        Binding::Aim { .. } => (
                            EngineView {
                                pool,
                                down_at: None,
                                aim_pos: None,
                                gathered: Motion::none_spec(),
                                ..v
                            },
                            lift(id),
                        ),
                        Binding::Swipe { .. } => (v, Seq::empty()),
                        _ => (EngineView { pool, ..v }, lift(id)),
                    }
                },
            }
        }
    }

    /// An input event. Mouse motion only gathers; it is applied once per frame.
    pub open spec fn handled(self, b: Seq<(String, Binding)>, ev: InputEvent, f: EventFigures) -> Outcome {
        if !self.enabled {
            (self, Seq::empty())
        } else {
            match ev {
                InputEvent::Press(t) => self.press(b, t, f),
                InputEvent::Release(t) => self.lift_trigger(b, t, f),
                InputEvent::MouseMove { .. } => (
                    EngineView { gathered: f.total, last_move: self.now, ..self },
                    Seq::empty(),
                ),
            }
        }
    }

    /// Orphaned fingers among the first `n` bindings are lifted: a tap or toggle
    /// whose key is no longer held lost its release event.
    pub open spec fn reclaimed(self, b: Seq<(String, Binding)>, n: int) -> Outcome
        decreases n,
    {
        if n <= 0 {
            (self, Seq::empty())
        } else {
            let (v, acts) = self.reclaimed(b, n - 1);
            match hold_trigger(b[n - 1].1) {
                Some(t) => if v.pool.get(b[n - 1].0@) is Some && !v.held.contains(t) {
                    let (pool, id) = v.pool.release(b[n - 1].0@);
                    (EngineView { pool, ..v }, acts + lift(id))
                } else {
                    (v, acts)
                },
                None => (v, acts),
            }
        }
    }

    /// The deferred joystick direction is applied.
    #[verifier::opaque]
    pub open spec fn steer_pending(self, b: Seq<(String, Binding)>, at: Norm) -> Outcome {
        match self.stick {
            Some(i) => (EngineView { stick: None, ..self }).steer(b, i, at),
            None => (self, Seq::empty()),
        }
    }

    /// Every gesture advances.
    #[verifier::opaque]
    pub open spec fn gestures(self, b: Seq<(String, Binding)>, f: Seq<SwipeFigures>) -> Outcome {
        let n = self.swipes.len() as int;
        (
            EngineView {
                pool: swipe_pool(self.pool, b, self.swipes, self.now, f, n),
                swipes: swipe_rest(b, self.swipes, self.now, f, n),
                ..self
            },
            swipe_acts(b, self.swipes, self.now, f, n),
        )
    }

    /// The delayed press after a lift, once it is due.
    #[verifier::opaque]
    pub open spec fn press_delayed(self, b: Seq<(String, Binding)>, due: int) -> Outcome {
        if self.now < due {
            (self, Seq::empty())
        } else {
            let v = EngineView { down_at: None, ..self };
            match aim_from(b, 0) {
                Some(a) => {
                    let (pool, id) = v.pool.acquire(b[a.index as int].0@);
                    match id {
                        Some(id) => (
                            EngineView { pool, aim_pos: Some(a.origin), ..v },
                            seq![TouchAction::Down { id, at: a.origin }],
                        ),
                        None => (v, Seq::empty()),
                    }
                },
                None => (v, Seq::empty()),
            }
        }
    }

    /// Deferred motion reaches the finger.
    pub open spec fn apply_deferred(self, b: Seq<(String, Binding)>, f: AimFigures) -> Outcome {
        match aim_from(b, 0) {
            Some(a) => match (self.aim_pos, self.pool.get(b[a.index as int].0@)) {
                (Some(_), Some(id)) => {
                    let lo = a.margin_spec();
                    let next = if self.roams(a) {
                        f.free
                    } else {
                        Norm::new_spec(
                            f.plain.x.clamp_spec(lo, f.hi),
                            f.plain.y.clamp_spec(lo, f.hi),
                        )
                    };
                    (
                        EngineView { aim_pos: Some(next), ..self },
                        seq![TouchAction::Move { id, at: next }],
                    )
                },
                _ => (self, Seq::empty()),
            },
            None => (self, Seq::empty()),
        }
    }

    /// Unbounded aim: the finger goes down once, alone in its frame, then only
    /// moves.
    pub open spec fn aim_free(self, b: Seq<(String, Binding)>, a: Aim, d: Motion, f: AimFigures) -> Outcome {
        let name = b[a.index as int].0@;
        match self.aim_pos {
            None => if self.down_at is Some {
                (self, Seq::empty())
            } else {
                let (pool, id) = self.pool.acquire(name);
                match id {
                    Some(id) => (
                        EngineView {
                            pool,
                            aim_pos: Some(a.origin),
                            pending: Some(
                                Motion { dx: Motion::settled(d.dx), dy: Motion::settled(d.dy) },
                            ),
                            ..self
                        },
                        seq![TouchAction::Down { id, at: a.origin }],
                    ),
                    None => (self, Seq::empty()),
                }
            },
            Some(_) => match self.pool.get(name) {
                Some(id) => (
                    EngineView { aim_pos: Some(f.free), ..self },
                    seq![TouchAction::Move { id, at: f.free }],
                ),
                None => (self, Seq::empty()),
            },
        }
    }

    /// The margin is no number: no limit follows from it and no second finger
    /// was ever prepared.
    pub open spec fn limitless(self, a: Aim, f: AimFigures) -> bool {
        a.recenter_margin.is_nan_spec() && f.hi.is_nan_spec() && f.reach.is_nan_spec()
            && self.second is None
    }

    /// The gathered motion would take the finger past the limits.
    pub open spec fn past_limits(a: Aim, f: AimFigures) -> bool {
        ||| f.next.x.lt(a.margin_spec())
        ||| f.hi.lt(f.next.x)
        ||| f.next.y.lt(a.margin_spec())
        ||| f.hi.lt(f.next.y)
    }

    /// Handoff, first part: far from the origin a second finger goes down
    /// opposite the direction of travel, and a second finger that is down moves
    /// along.
    pub open spec fn aim_second_finger(self, b: Seq<(String, Binding)>, a: Aim, f: AimFigures) -> Outcome {
        let key = second_name(b[a.index as int].0@);
        let (v, acts) = if f.reach.lt(f.drift) && self.second is None {
            let (pool, id) = self.pool.acquire(key);
            match id {
                Some(id) => (
                    EngineView { pool, second: Some(f.seat), ..self },
                    seq![TouchAction::Down { id, at: f.seat }],
                ),
                None => (self, Seq::empty()),
            }
        } else {
            (self, Seq::empty())
        };
        if v.second is Some {
            let lo = a.margin_spec();
            let at = Norm::new_spec(
                f.second.x.clamp_spec(lo, f.hi),
                f.second.y.clamp_spec(lo, f.hi),
            );
            (
                EngineView { second: Some(at), ..v },
                match v.pool.get(key) {
                    Some(id) => acts.push(TouchAction::Move { id, at }),
                    None => acts,
                },
            )
        } else {
            (v, acts)
        }
    }

    /// Handoff, last part: past the limits the second finger takes over, or, if
    /// there is none, the finger is rotated back to the origin and its motion
    /// deferred. Within the limits the finger moves.
    pub open spec fn aim_hand_over(
        self,
        b: Seq<(String, Binding)>,
        a: Aim,
        id: u8,
        d: Motion,
        f: AimFigures,
    ) -> Outcome {
        let name = b[a.index as int].0@;
        if EngineView::past_limits(a, f) {
            match self.second {
                Some(at) => (
                    EngineView {
                        pool: self.pool.release(name).0.rename(second_name(name), name).0,
                        second: None,
                        aim_pos: Some(at),
                        ..self
                    },
                    seq![TouchAction::Up { id }],
                ),
                None => {
                    let (pool, ids) = self.pool.rotate(name);
                    match ids {
                        Some((gone, fresh)) => (
                            EngineView {
                                pool,
                                aim_pos: Some(a.origin),
                                pending: Some(
                                    Motion { dx: Motion::settled(d.dx), dy: Motion::settled(d.dy) },
                                ),
                                ..self
                            },
                            seq![
                                TouchAction::Up { id: gone },
                                TouchAction::Down { id: fresh, at: a.origin },
                            ],
                        ),
                        None => (self, Seq::empty()),
                    }
                },
            }
        } else {
            let next = Norm::new_spec(f.next.x, f.next.y);
            (
                EngineView { aim_pos: Some(next), ..self },
                seq![TouchAction::Move { id, at: next }],
            )
        }
    }

    /// Without handoff: past the limits the finger goes as far as it may, is
    /// lifted, and its press is delayed. Within the limits it moves.
    pub open spec fn aim_plain(self, b: Seq<(String, Binding)>, a: Aim, id: u8, f: AimFigures) -> Outcome {
        let name = b[a.index as int].0@;
        if EngineView::past_limits(a, f) {
            let lo = a.margin_spec();
            let edge = Norm::new_spec(f.next.x.clamp_spec(lo, f.hi), f.next.y.clamp_spec(lo, f.hi));
            let eps = Num { bits: EPSILON_BITS };
            let moved: Seq<TouchAction> = if eps.lt(f.edge_gap_x) || eps.lt(f.edge_gap_y) {
                seq![TouchAction::Move { id, at: edge }]
            } else {
                Seq::empty()
            };
            (
                EngineView {
                    pool: self.pool.release(name).0,
                    aim_pos: None,
                    down_at: Some(self.now + EngineView::reset_delay(a)),
                    ..self
                },
                moved.push(TouchAction::Up { id }),
            )
        } else {
            let next = Norm::new_spec(f.next.x, f.next.y);
            (
                EngineView { aim_pos: Some(next), ..self },
                seq![TouchAction::Move { id, at: next }],
            )
        }
    }

    /// The delay before a press, never less than one millisecond.
    pub open spec fn reset_delay(a: Aim) -> int {
        if a.reset_delay_ms == 0 {
            1
        } else {
            a.reset_delay_ms as int
        }
    }

    /// Bounded aim with the finger down.
    pub open spec fn aim_bounded(self, b: Seq<(String, Binding)>, a: Aim, d: Motion, f: AimFigures) -> Outcome {
        match self.pool.get(b[a.index as int].0@) {
            None => (self, Seq::empty()),
            Some(id) => if a.handoff {
                let (v, first) = self.aim_second_finger(b, a, f);
                let (w, then_) = v.aim_hand_over(b, a, id, d, f);
                (w, first + then_)
            } else {
                self.aim_plain(b, a, id, f)
            },
        }
    }

    /// The gathered motion `d` reaches the aim finger.
    pub open spec fn aim_moved(self, b: Seq<(String, Binding)>, d: Motion, f: AimFigures) -> Outcome {
        match aim_from(b, 0) {
            None => (self, Seq::empty()),
            Some(a) => if f.travel.lt(a.deadzone) {
                (self, Seq::empty())
            } else if self.roams(a) {
                if a.toggle is Some && self.aim_pos is None {
                    (self, Seq::empty())
                } else {
                    self.aim_free(b, a, d, f)
                }
            } else if self.aim_pos is None {
                if a.toggle is Some {
                    (self, Seq::empty())
                } else {
                    let (pool, id) = self.pool.acquire(b[a.index as int].0@);
                    match id {
                        Some(id) => {
                            let v = EngineView { pool, aim_pos: Some(a.origin), ..self };
                            let (w, acts) = v.aim_bounded(b, a, d, f);
                            (w, seq![TouchAction::Down { id, at: a.origin }] + acts)
                        },
                        None => (self, Seq::empty()),
                    }
                }
            } else {
                self.aim_bounded(b, a, d, f)
            },
        }
    }

    /// A finger that rests far from the origin is lifted; its press is delayed.
    pub open spec fn idle_recentred(self, b: Seq<(String, Binding)>, f: AimFigures) -> Outcome {
        match (aim_from(b, 0), self.aim_pos) {
            (Some(a), Some(_)) => if self.now - self.last_move < IDLE_MS || f.drift.lt(f.idle_limit) {
                (self, Seq::empty())
            } else {
                let (pool, id) = self.pool.release(b[a.index as int].0@);
                match id {
                    Some(id) => (
                        EngineView {
                            pool,
                            aim_pos: None,
                            gathered: Motion::none_spec(),
                            last_move: self.now,
                            down_at: Some(self.now + EngineView::reset_delay(a)),
                            ..self
                        },
                        seq![TouchAction::Up { id }],
                    ),
                    None => (self, Seq::empty()),
                }
            },
            _ => (self, Seq::empty()),
        }
    }

    /// The aim side of a frame: deferred motion first, then gathered motion, and
    /// only without either the idle recentring.
    #[verifier::opaque]
    pub open spec fn aim_frame(self, b: Seq<(String, Binding)>, f: AimFigures) -> Outcome {
        if self.pending is Some {
            (EngineView { pending: None, gathered: Motion::none_spec(), ..self }).apply_deferred(
                b,
                f,
            )
        } else if !self.gathered.quiet_spec() {
            (EngineView { gathered: Motion::none_spec(), ..self }).aim_moved(b, self.gathered, f)
        } else {
            self.idle_recentred(b, f)
        }
    }

    /// What follows the repairs of a frame. While a press is delayed the aim
    /// side rests, so that the press is alone in its frame; joysticks and
    /// gestures go on.
    #[verifier::opaque]
    pub open spec fn frame(self, b: Seq<(String, Binding)>, f: Figures) -> Outcome {
        match self.down_at {
            Some(due) => {
                let (v, a1) = self.press_delayed(b, due);
                let (w, a2) = v.steer_pending(b, f.stick);
                let (x, a3) = w.gestures(b, f.swipes@);
                (x, a1 + a2 + a3)
            },
            None => {
                let (v, a1) = self.aim_frame(b, f.aim);
                let (w, a2) = v.gestures(b, f.swipes@);
                (w, a1 + a2)
            },
        }
    }

    /// Time moves on to `now`.
    pub open spec fn ticked(self, b: Seq<(String, Binding)>, now: int, f: Figures) -> Outcome {
        let v = EngineView { now, ..self };
        if !self.enabled {
            (v, Seq::empty())
        } else {
            let (w, a1) = v.steer_pending(b, f.stick);
            let (x, a2) = w.reclaimed(b, b.len() as int);
            let (y, a3) = x.frame(b, f);
            (y, a1 + a2 + a3)
        }
    }

    /// Switching off lifts every finger and forgets everything in flight.
    pub open spec fn switched(self, on: bool) -> Outcome {
        if self.enabled == on {
            (self, Seq::empty())
        } else if on {
            (EngineView { enabled: true, ..self }, Seq::empty())
        } else {
            (
                EngineView {
                    pool: PoolView::empty(),
                    held: Set::empty(),
                    swipes: Seq::empty(),
                    pending: None,
                    down_at: None,
                    gathered: Motion::none_spec(),
                    second: None,
                    stick: None,
                    aim_pos: None,
                    enabled: false,
                    ..self
                },
                crate::touch::lifts(self.pool.assigned, crate::touch::MAX_POINTERS as nat),
            )
        }
    }

    /// Something is in flight, so frames are needed.
    pub open spec fn pending_work(self) -> bool {
        ||| self.swipes.len() > 0
        ||| self.pending is Some
        ||| self.stick is Some
        ||| self.aim_pos is Some
        ||| self.down_at is Some
        ||| !self.gathered.quiet_spec()
    }
}

/// The mapping engine.
#[derive(Debug)]
pub struct Engine {
    profile: Profile,
    pool: PointerPool,
    held: Held,
    swipes: Vec<ActiveSwipe>,
    now_ms: u64,
    /// Screen aspect ratio (width / height). Normalized coordinates are scaled
    /// per axis; uncorrected, the joystick circle becomes an ellipse.
    aspect: Num,
    aim_pending: Option<Motion>,
    aim_last_move_ms: u64,
    aim_down_at: Option<u64>,
    aim_accum: Motion,
    aim_second: Option<Norm>,
    joystick_pending: Option<usize>,
    aim_pos: Option<Norm>,
    /// While off the engine produces no events, but stuck fingers are released.
    enabled: bool,
    /// Can the backend carry off-screen coordinates? Defaults to off: when
    /// unknown, bounded mode works on every path.
    offscreen_ok: bool,
}

/// The bits of 16/9, the aspect ratio assumed until told otherwise.
pub const DEFAULT_ASPECT_BITS: u32 = 0x3fe3_8e39;

impl View for Engine {
    type V = EngineView;

    closed spec fn view(&self) -> EngineView {
        EngineView {
            pool: self.pool@,
            held: self.held@,
            swipes: self.swipes@,
            now: self.now_ms as int,
            aspect: self.aspect,
            pending: self.aim_pending,
            last_move: self.aim_last_move_ms as int,
            down_at: match self.aim_down_at {
                Some(t) => Some(t as int),
                None => None,
            },
            gathered: self.aim_accum,
            second: self.aim_second,
            stick: match self.joystick_pending {
                Some(i) => Some(i as int),
                None => None,
            },
            aim_pos: self.aim_pos,
            enabled: self.enabled,
            offscreen_ok: self.offscreen_ok,
        }
    }
}

impl Engine {
    /// The bindings of the profile in use.
    pub closed spec fn bindings(&self) -> Seq<(String, Binding)> {
        self.profile.bindings@
    }

    /// The profile in use.
    pub closed spec fn profile_spec(&self) -> Profile {
        self.profile
    }

    /// Everything stored refers to something that exists.
    pub closed spec fn wf(&self) -> bool {
        &&& self.profile.bindings.wf()
        &&& self.pool.wf()
        &&& self.held.wf()
        &&& self.now_ms <= LATEST_MS
        &&& forall|k: int|
            0 <= k < self.swipes@.len() ==> (#[trigger] self.swipes@[k]).index
                < self.profile.bindings@.len()
        &&& match self.joystick_pending {
            Some(i) => i < self.profile.bindings@.len(),
            None => true,
        }
    }

    /// What well-formedness says of the state.
    pub proof fn lemma_wf(&self)
        requires
            self.wf(),
        ensures
            crate::by_name::sorted_names(self.bindings()),
            self.bindings().len() <= usize::MAX,
            self@.pool.ok(),
            self@.now <= LATEST_MS,
            forall|k: int|
                0 <= k < self@.swipes.len() ==> (#[trigger] self@.swipes[k]).index
                    < self.bindings().len(),
            match self@.stick {
                Some(i) => 0 <= i < self.bindings().len(),
                None => true,
            },
    {
        self.pool.lemma_wf();
        self.profile.bindings.lemma_len();
    }

    pub fn new(profile: Profile) -> (r: Engine)
        requires
            profile.bindings.wf(),
        ensures
            r.wf(),
            r.profile_spec() == profile,
            r.bindings() == profile.bindings@,
            r@ == EngineView::fresh(),
    {
        Engine {
            profile,
            pool: PointerPool::new(),
            held: Held::new(),
            swipes: Vec::new(),
            now_ms: 0,
            aspect: Num::of(DEFAULT_ASPECT_BITS),
            aim_pending: None,
            aim_last_move_ms: 0,
            aim_down_at: None,
            aim_accum: Motion::none(),
            aim_second: None,
            joystick_pending: None,
            aim_pos: None,
            enabled: true,
            offscreen_ok: false,
        }
    }

    /// The first aim binding of the profile.
    fn aim(&self) -> (r: Option<Aim>)
        ensures
            r == aim_from(self.bindings(), 0),
            match r {
                Some(a) => a.index < self.bindings().len(),
                None => true,
            },
    {
        let ghost b = self.bindings();
        let mut i: usize = 0;
        while i < self.profile.bindings.len()
            invariant
                b == self.profile.bindings@,
                i <= b.len(),
                aim_from(b, 0) == aim_from(b, i as int),
            decreases b.len() - i,
        {
            if let Binding::Aim {
                toggle,
                origin,
                sensitivity,
                deadzone,
                recenter_margin,
                handoff,
                nonlinear,
                reset_delay_ms,
                unbounded,
                safety_span,
            } = &self.profile.bindings.at(i).1 {
                return Some(
                    Aim {
                        index: i,
                        toggle: *toggle,
                        origin: *origin,
                        sensitivity: *sensitivity,
                        deadzone: *deadzone,
                        recenter_margin: *recenter_margin,
                        handoff: *handoff,
                        nonlinear: *nonlinear,
                        reset_delay_ms: *reset_delay_ms,
                        unbounded: *unbounded,
                        safety_span: *safety_span,
                    },
                );
            }
            i = i + 1;
        }
        None
    }

    /// Finds which binding uses a given trigger.
    fn owner(&self, t: TriggerKind) -> (r: Option<usize>)
        ensures
            match r {
                Some(i) => i < self.bindings().len() && owner_from(self.bindings(), t, 0) == Some(
                    i as int,
                ),
                None => owner_from(self.bindings(), t, 0) is None,
            },
    {
        let ghost b = self.bindings();
        let mut i: usize = 0;
        while i < self.profile.bindings.len()
            invariant
                b == self.profile.bindings@,
                i <= b.len(),
                owner_from(b, t, 0) == owner_from(b, t, i as int),
            decreases b.len() - i,
        {
            let ts: Vec<Trigger> = self.profile.bindings.at(i).1.triggers();
            let mut j: usize = 0;
            while j < ts.len()
                invariant
                    b == self.profile.bindings@,
                    i < b.len(),
                    owner_from(b, t, 0) == owner_from(b, t, i as int),
                    ts@ == b[i as int].1.triggers_spec(),
                    j <= ts@.len(),
                    forall|k: int| 0 <= k < j ==> TriggerKind::of(#[trigger] ts@[k]) != t,
                decreases ts@.len() - j,
            {
                if TriggerKind::from(&ts[j]) == t {
                    assert(TriggerKind::of(b[i as int].1.triggers_spec()[j as int]) == t);
                    assert(answers(b[i as int].1, t));
                    return Some(i);
                }
                j = j + 1;
            }
            assert(!answers(b[i as int].1, t));
            i = i + 1;
        }
        None
    }

    /// The direction the held keys push the joystick at `i`, as (right, down).
    fn stick_dir(&self, i: usize) -> (r: (i8, i8))
        requires
            i < self.bindings().len(),
        ensures
            (r.0 as int, r.1 as int) == self@.stick_dir(self.bindings()[i as int].1),
            -1 <= r.0 <= 1,
            -1 <= r.1 <= 1,
    {
        match &self.profile.bindings.at(i).1 {
            Binding::Joystick { up, down, left, right, .. } => {
                let mut dx: i8 = 0;
                let mut dy: i8 = 0;
                if self.held.contains(TriggerKind::from(up)) {
                    dy = dy - 1;
                }
                if self.held.contains(TriggerKind::from(down)) {
                    dy = dy + 1;
                }
                if self.held.contains(TriggerKind::from(left)) {
                    dx = dx - 1;
                }
                if self.held.contains(TriggerKind::from(right)) {
                    dx = dx + 1;
                }
                (dx, dy)
            },
            _ => (0, 0),
        }
    }

    /// Whether some direction of the joystick at `i` is held.
    fn pushes(&self, i: usize) -> (r: bool)
        requires
            i < self.bindings().len(),
        ensures
            r == self@.pushes(self.bindings()[i as int].1),
    {
        match &self.profile.bindings.at(i).1 {
            Binding::Joystick { up, down, left, right, .. } => {
                self.held.contains(TriggerKind::from(up)) || self.held.contains(
                    TriggerKind::from(down),
                ) || self.held.contains(TriggerKind::from(left)) || self.held.contains(
                    TriggerKind::from(right),
                )
            },
            _ => false,
        }
    }

    /// Positions the joystick finger according to the held directions.
    /// Does nothing if no direction is held (the caller lifts the finger).
    fn recompute_joystick(&mut self, i: usize, at: Norm, acts: &mut Vec<TouchAction>)
        requires
            old(self).wf(),
            i < old(self).bindings().len(),
        ensures
            final(self).wf(),
            final(self).bindings() == old(self).bindings(),
            final(self).profile_spec() == old(self).profile_spec(),
            final(self)@ == old(self)@.steer(old(self).bindings(), i as int, at).0,
            final(acts)@ == old(acts)@ + old(self)@.steer(old(self).bindings(), i as int, at).1,
    {
        let ghost v = self@;
        let ghost given = at;
        let (dx, dy) = self.stick_dir(i);
        let center: Norm = match &self.profile.bindings.at(i).1 {
            Binding::Joystick { center, .. } => *center,
            _ => {
                assert(acts@ + Seq::<TouchAction>::empty() =~= acts@);
                return ;
            },
        };
        if !self.pushes(i) {
            assert(acts@ + Seq::<TouchAction>::empty() =~= acts@);
            return ;
        }
        let at: Norm = if dx == 0 && dy == 0 {
            center
        } else {
            at
        };
        let name: String = self.profile.bindings.at(i).0.clone();
        let first: bool = self.pool.get(name.as_str()).is_none();
        match self.pool.acquire(name.as_str()) {
            Some(id) => {
                if first {
                    self.joystick_pending = Some(i);
                    acts.push(TouchAction::Down { id, at: center });
                } else {
                    acts.push(TouchAction::Move { id, at: Norm::new(at.x, at.y) });
                }
            },
            None => {
                assert(acts@ + Seq::<TouchAction>::empty() =~= acts@);
            },
        }
        assert(self@ =~= v.steer(self.bindings(), i as int, given).0);
        assert(acts@ =~= old(acts)@ + v.steer(self.bindings(), i as int, given).1);
    }
}

impl Engine {
    /// Cancels the running gestures of a group: lifts their fingers where they
    /// are, without completing the gesture.
    fn cancel_group(&mut self, group: &Option<String>, acts: &mut Vec<TouchAction>)
        requires
            old(self).wf(),
        ensures
            final(self).wf(),
            final(self).bindings() == old(self).bindings(),
            final(self).profile_spec() == old(self).profile_spec(),
            ({
                let b = old(self).bindings();
                let s = old(self)@.swipes;
                let g = match group {
                    Some(g) => Some(g@),
                    None => None,
                };
                let gone = in_group(b, s, g, s.len() as int);
                &&& final(self)@ == (EngineView {
                    pool: released(old(self)@.pool, b, gone),
                    swipes: outside_group(b, s, g, s.len() as int),
                    ..old(self)@
                })
                &&& final(acts)@ == old(acts)@ + swipe_lifts(gone)
            }),
    {
        let ghost v = self@;
        let ghost b = self.bindings();
        let ghost s = self.swipes@;
        let ghost g: Option<Seq<char>> = match group {
            Some(g) => Some(g@),
            None => None,
        };
        let ghost start = acts@;
        let mut kept: Vec<ActiveSwipe> = Vec::new();
        let mut i: usize = 0;
        assert(start + swipe_lifts(in_group(b, s, g, 0)) =~= start);
        assert(self@ =~= (EngineView { pool: released(v.pool, b, in_group(b, s, g, 0)), ..v }));
        while i < self.swipes.len()
            invariant
                self.wf(),
                b == self.bindings(),
                self.profile_spec() == old(self).profile_spec(),
                s == self.swipes@,
                s == v.swipes,
                i <= s.len(),
                g == (match group {
                    Some(g) => Some(g@),
                    None => None::<Seq<char>>,
                }),
                kept@ == outside_group(b, s, g, i as int),
                forall|k: int| 0 <= k < kept@.len() ==> (#[trigger] kept@[k]).index < b.len(),
                self@ == (EngineView {
                    pool: released(v.pool, b, in_group(b, s, g, i as int)),
                    ..v
                }),
                acts@ == start + swipe_lifts(in_group(b, s, g, i as int)),
            decreases s.len() - i,
        {
            let sw: ActiveSwipe = self.swipes[i];
            let ghost gone = in_group(b, s, g, i as int);
            let mut hit: bool = false;
            if let Some(want) = group {
                if let Binding::Swipe { group: Some(own), .. } = &self.profile.bindings.at(
                    sw.index,
                ).1 {
                    hit = crate::text::same(own.as_str(), want.as_str());
                }
            }
            assert(hit == (g is Some && b[sw.index as int].1.group_spec() == g));
            if hit {
                let name: String = self.profile.bindings.at(sw.index).0.clone();
                acts.push(TouchAction::Up { id: sw.id });
                let _id = self.pool.release(name.as_str());
                proof {
                    let more = gone.push(sw);
                    assert(in_group(b, s, g, i + 1) == more);
                    assert(more.drop_last() =~= gone);
                    assert(released(v.pool, b, more) == released(v.pool, b, gone).release(
                        name@,
                    ).0);
                    assert(swipe_lifts(more) =~= swipe_lifts(gone).push(
                        TouchAction::Up { id: sw.id },
                    ));
                    assert(acts@ =~= start + swipe_lifts(more));
                    assert(self@ =~= (EngineView { pool: released(v.pool, b, more), ..v }));
                }
            } else {
                kept.push(sw);
            }
            i = i + 1;
        }
        self.swipes = kept;
        assert(self@ =~= (EngineView {
            pool: released(v.pool, b, in_group(b, s, g, s.len() as int)),
            swipes: outside_group(b, s, g, s.len() as int),
            ..v
        }));
    }

    /// Starts the gesture of the binding at `i`.
    fn start_swipe(&mut self, i: usize, acts: &mut Vec<TouchAction>)
        requires
            old(self).wf(),
            i < old(self).bindings().len(),
        ensures
            final(self).wf(),
            final(self).bindings() == old(self).bindings(),
            final(self).profile_spec() == old(self).profile_spec(),
            final(self)@ == old(self)@.start_swipe(old(self).bindings(), i as int).0,
            final(acts)@ == old(acts)@ + old(self)@.start_swipe(old(self).bindings(), i as int).1,
    {
        let ghost v = self@;
        let ghost b = self.bindings();
        let ghost start = acts@;
        assert(start + Seq::<TouchAction>::empty() =~= start);
        let (from, group) = match &self.profile.bindings.at(i).1 {
            Binding::Swipe { from, group, .. } => (
                *from,
                match group {
                    Some(g) => Some(g.clone()),
                    None => None,
                },
            ),
            _ => {
                return ;
            },
        };
        let mut k: usize = 0;
        while k < self.swipes.len()
            invariant
                k <= self.swipes@.len(),
                self@ == v,
                self.wf(),
                b == self.bindings(),
                self.profile_spec() == old(self).profile_spec(),
                i < b.len(),
                b[i as int].1 is Swipe,
                acts@ == start,
                start == old(acts)@,
                start + Seq::<TouchAction>::empty() == start,
                v == old(self)@,
                b == old(self).bindings(),
                forall|m: int| 0 <= m < k ==> (#[trigger] self.swipes@[m]).index != i,
            decreases self.swipes@.len() - k,
        {
            if self.swipes[k].index == i {
                assert(v.swipes[k as int].index == i);
                return ;
            }
            k = k + 1;
        }
        self.cancel_group(&group, acts);
        let ghost mid = self@;
        let ghost lifted = acts@;
        let name: String = self.profile.bindings.at(i).0.clone();
        match self.pool.acquire(name.as_str()) {
            Some(id) => {
                self.swipes.push(
                    ActiveSwipe {
                        index: i,
                        id,
                        start_ms: self.now_ms,
                        last_step: 0,
                        last_sent: from,
                    },
                );
                acts.push(TouchAction::Down { id, at: from });
            },
            None => {},
        }
        assert(self@ =~= v.start_swipe(b, i as int).0);
        assert(acts@ =~= start + v.start_swipe(b, i as int).1);
    }

    fn on_press(&mut self, t: TriggerKind, f: &EventFigures) -> (acts: Vec<TouchAction>)
        requires
            old(self).wf(),
        ensures
            final(self).wf(),
            final(self).bindings() == old(self).bindings(),
            final(self).profile_spec() == old(self).profile_spec(),
            (final(self)@, acts@) == old(self)@.press(old(self).bindings(), t, *f),
    {
        let ghost v = self@;
        let ghost b = self.bindings();
        let mut acts: Vec<TouchAction> = Vec::new();
        let fresh: bool = self.held.insert(t);
        let ghost w = self@;
        assert(w =~= (EngineView { held: v.held.insert(t), ..v }));
        if !fresh {
            return acts;
        }
        let i: usize = match self.owner(t) {
            Some(i) => i,
            None => {
                return acts;
            },
        };
        let item: &(String, Binding) = self.profile.bindings.at(i);
        match &item.1 {
            Binding::Tap { at, .. } => {
                let at: Norm = *at;
                let name: String = item.0.clone();
                if let Some(id) = self.pool.acquire(name.as_str()) {
                    acts.push(TouchAction::Down { id, at });
                }
            },
            Binding::Toggle { at, .. } => {
                let at: Norm = *at;
                let name: String = item.0.clone();
                if let Some(id) = self.pool.acquire(name.as_str()) {
                    acts.push(TouchAction::Down { id, at });
                }
            },
            Binding::Joystick { .. } => {
                self.recompute_joystick(i, f.stick, &mut acts);
            },
            Binding::Aim { origin, .. } => {
                let origin: Norm = *origin;
                let name: String = item.0.clone();
                self.aim_down_at = None;
                self.aim_pos = Some(origin);
                if let Some(id) = self.pool.acquire(name.as_str()) {
                    acts.push(TouchAction::Down { id, at: origin });
                }
            },
            Binding::Swipe { .. } => {
                self.start_swipe(i, &mut acts);
            },
        }
        assert(self@ =~= v.press(b, t, *f).0);
        assert(acts@ =~= v.press(b, t, *f).1);
        acts
    }

    fn on_release(&mut self, t: TriggerKind, f: &EventFigures) -> (acts: Vec<TouchAction>)
        requires
            old(self).wf(),
        ensures
            final(self).wf(),
            final(self).bindings() == old(self).bindings(),
            final(self).profile_spec() == old(self).profile_spec(),
            (final(self)@, acts@) == old(self)@.lift_trigger(old(self).bindings(), t, *f),
    {
        let ghost v = self@;
        let ghost b = self.bindings();
        let mut acts: Vec<TouchAction> = Vec::new();
        let was: bool = self.held.remove(t);
        let ghost w = self@;
        assert(w =~= (EngineView { held: v.held.remove(t), ..v }));
        if !was {
            return acts;
        }
        let i: usize = match self.owner(t) {
            Some(i) => i,
            None => {
                return acts;
            },
        };
        let item: &(String, Binding) = self.profile.bindings.at(i);
        let name: String = item.0.clone();
        match &item.1 {
            Binding::Joystick { .. } => {
                self.recompute_joystick(i, f.stick, &mut acts);
                if acts.len() == 0 {
                    if let Some(id) = self.pool.release(name.as_str()) {
                        acts.push(TouchAction::Up { id });
                    }
                }
            },
            Binding::Aim { .. } => {
                self.aim_down_at = None;
                self.aim_pos = None;
                self.aim_accum = Motion::none();
                if let Some(id) = self.pool.release(name.as_str()) {
                    acts.push(TouchAction::Up { id });
                }
            },
            Binding::Swipe { .. } => {},
            _ => {
                if let Some(id) = self.pool.release(name.as_str()) {
                    acts.push(TouchAction::Up { id });
                }
            },
        }
        assert(self@ =~= v.lift_trigger(b, t, *f).0);
        assert(acts@ =~= v.lift_trigger(b, t, *f).1);
        acts
    }

    /// Handles one input event. The actions returned must reach the backend.
    #[must_use]
    pub fn handle(&mut self, ev: InputEvent, f: &EventFigures) -> (acts: Vec<TouchAction>)
        requires
            old(self).wf(),
        ensures
            final(self).wf(),
            final(self).bindings() == old(self).bindings(),
            final(self).profile_spec() == old(self).profile_spec(),
            (final(self)@, acts@) == old(self)@.handled(old(self).bindings(), ev, *f),
    {
        if !self.enabled {
            return Vec::new();
        }
        match ev {
            InputEvent::Press(t) => self.on_press(t, f),
            InputEvent::Release(t) => self.on_release(t, f),
            InputEvent::MouseMove { .. } => {
                self.aim_accum = f.total;
                self.aim_last_move_ms = self.now_ms;
                Vec::new()
            },
        }
    }

    /// Finds and releases orphaned pointers.
    ///
    /// Taps and toggles take a pointer on press and give it back on release. If
    /// the release event is lost the pointer would be held forever; after a few
    /// leaks the pool fills and aim cannot get one. So on every tick the held
    /// pointers are compared against the held keys.
    fn reconcile_pointers(&mut self, acts: &mut Vec<TouchAction>)
        requires
            old(self).wf(),
        ensures
            final(self).wf(),
            final(self).bindings() == old(self).bindings(),
            final(self).profile_spec() == old(self).profile_spec(),
            ({
                let b = old(self).bindings();
                &&& final(self)@ == old(self)@.reclaimed(b, b.len() as int).0
                &&& final(acts)@ == old(acts)@ + old(self)@.reclaimed(b, b.len() as int).1
            }),
    {
        let ghost v = self@;
        let ghost b = self.bindings();
        let ghost start = acts@;
        let mut i: usize = 0;
        assert(start + Seq::<TouchAction>::empty() =~= start);
        while i < self.profile.bindings.len()
            invariant
                self.wf(),
                self.bindings() == b,
                b == self.profile.bindings@,
                self.profile_spec() == old(self).profile_spec(),
                i <= b.len(),
                self@ == v.reclaimed(b, i as int).0,
                acts@ == start + v.reclaimed(b, i as int).1,
            decreases b.len() - i,
        {
            let ghost before = self@;
            let ghost so_far = acts@;
            let item: &(String, Binding) = self.profile.bindings.at(i);
            let expects: Option<TriggerKind> = match &item.1 {
                Binding::Tap { trigger, .. } => Some(TriggerKind::from(trigger)),
                Binding::Toggle { trigger, .. } => Some(TriggerKind::from(trigger)),
                _ => None,
            };
            assert(expects == hold_trigger(b[i as int].1));
            if let Some(t) = expects {
                let name: String = item.0.clone();
                if self.pool.get(name.as_str()).is_some() && !self.held.contains(t) {
                    if let Some(id) = self.pool.release(name.as_str()) {
                        acts.push(TouchAction::Up { id });
                    }
                }
            }
            proof {
                assert(self@ =~= v.reclaimed(b, i + 1).0);
                assert(acts@ =~= start + v.reclaimed(b, i + 1).1);
            }
            i = i + 1;
        }
    }

    /// The joystick direction that was deferred, if any.
    fn steer_pending(&mut self, at: Norm, acts: &mut Vec<TouchAction>)
        requires
            old(self).wf(),
        ensures
            final(self).wf(),
            final(self).bindings() == old(self).bindings(),
            final(self).profile_spec() == old(self).profile_spec(),
            final(self)@ == old(self)@.steer_pending(old(self).bindings(), at).0,
            final(acts)@ == old(acts)@ + old(self)@.steer_pending(old(self).bindings(), at).1,
    {
        reveal(EngineView::steer_pending);
        let ghost v = self@;
        match self.joystick_pending {
            Some(i) => {
                self.joystick_pending = None;
                assert(self@ =~= (EngineView { stick: None, ..v }));
                self.recompute_joystick(i, at, acts);
            },
            None => {
                assert(acts@ + Seq::<TouchAction>::empty() =~= acts@);
            },
        }
    }
}

/// Progress of a gesture in twelfths of its time.
fn gesture_step(now: u64, start: u64, duration: u32) -> (r: u32)
    requires
        now <= LATEST_MS,
    ensures
        r == step_at(now as int, start as int, duration as int),
        r <= SWIPE_STEPS,
{
    let elapsed: u64 = if now > start {
        now - start
    } else {
        0
    };
    if duration == 0 {
        return SWIPE_STEPS;
    }
    assert(elapsed * (SWIPE_STEPS as u64) <= u64::MAX) by (nonlinear_arith)
        requires
            elapsed <= LATEST_MS,
    ;
    let step: u64 = (elapsed * (SWIPE_STEPS as u64)) / (duration as u64);
    if step > SWIPE_STEPS as u64 {
        SWIPE_STEPS
    } else {
        step as u32
    }
}

impl Engine {
    /// How long the gesture at position `i` of the profile takes.
    fn swipe_ms(&self, i: usize) -> (r: u32)
        requires
            i < self.bindings().len(),
        ensures
            r == swipe_duration(self.bindings()[i as int].1),
    {
        match &self.profile.bindings.at(i).1 {
            Binding::Swipe { duration_ms, .. } => *duration_ms,
            _ => 0,
        }
    }

    /// Advances every gesture in progress.
    fn tick_gestures(&mut self, f: &Vec<SwipeFigures>, acts: &mut Vec<TouchAction>)
        requires
            old(self).wf(),
            f@.len() == old(self)@.swipes.len(),
        ensures
            final(self).wf(),
            final(self).bindings() == old(self).bindings(),
            final(self).profile_spec() == old(self).profile_spec(),
            final(self)@ == old(self)@.gestures(old(self).bindings(), f@).0,
            final(acts)@ == old(acts)@ + old(self)@.gestures(old(self).bindings(), f@).1,
    {
        reveal(EngineView::gestures);
        let ghost v = self@;
        let ghost b = self.bindings();
        let ghost s = self.swipes@;
        let ghost now = self.now_ms as int;
        let ghost start = acts@;
        let mut rest: Vec<ActiveSwipe> = Vec::new();
        let mut i: usize = 0;
        assert(start + swipe_acts(b, s, now, f@, 0) =~= start);
        while i < self.swipes.len()
            invariant
                self.wf(),
                self.bindings() == b,
                self.profile_spec() == old(self).profile_spec(),
                self.swipes@ == s,
                s == v.swipes,
                now == self.now_ms,
                f@.len() == s.len(),
                i <= s.len(),
                rest@ == swipe_rest(b, s, now, f@, i as int),
                forall|k: int| 0 <= k < rest@.len() ==> (#[trigger] rest@[k]).index < b.len(),
                acts@ == start + swipe_acts(b, s, now, f@, i as int),
                self@ == (EngineView { pool: swipe_pool(v.pool, b, s, now, f@, i as int), ..v }),
            decreases s.len() - i,
        {
            let sw: ActiveSwipe = self.swipes[i];
            let fig: SwipeFigures = f[i];
            let step: u32 = gesture_step(self.now_ms, sw.start_ms, self.swipe_ms(sw.index));
            let ghost o = swipe_out(b, sw, now, fig);
            let ghost before = self@;
            let ghost so_far = acts@;
            if step == sw.last_step {
                rest.push(sw);
            } else {
                let at: Norm = Norm::new(fig.at.x, fig.at.y);
                let done: bool = step >= SWIPE_STEPS;
                let sent: bool = done || Num::of(MIN_STEP_DELTA_BITS).at_most(fig.gap);
                if sent {
                    acts.push(TouchAction::Move { id: sw.id, at });
                }
                if done {
                    acts.push(TouchAction::Up { id: sw.id });
                    let name: String = self.profile.bindings.at(sw.index).0.clone();
                    let _id = self.pool.release(name.as_str());
                } else {
                    rest.push(
                        ActiveSwipe {
                            index: sw.index,
                            id: sw.id,
                            start_ms: sw.start_ms,
                            last_step: step,
                            last_sent: if sent {
                                at
                            } else {
                                sw.last_sent
                            },
                        },
                    );
                }
            }
            proof {
                assert(acts@ =~= so_far + o.acts);
                assert(acts@ =~= start + swipe_acts(b, s, now, f@, i + 1));
                assert(self@ =~= (EngineView {
                    pool: swipe_pool(v.pool, b, s, now, f@, i + 1),
                    ..v
                }));
            }
            i = i + 1;
        }
        self.swipes = rest;
        assert(self@ =~= v.gestures(b, f@).0);
    }

    /// The press that a lift delayed, once it is due.
    fn press_delayed(&mut self, due: u64, acts: &mut Vec<TouchAction>)
        requires
            old(self).wf(),
        ensures
            final(self).wf(),
            final(self).bindings() == old(self).bindings(),
            final(self).profile_spec() == old(self).profile_spec(),
            final(self)@ == old(self)@.press_delayed(old(self).bindings(), due as int).0,
            final(acts)@ == old(acts)@ + old(self)@.press_delayed(
                old(self).bindings(),
                due as int,
            ).1,
    {
        reveal(EngineView::press_delayed);
        let ghost v = self@;
        let ghost b = self.bindings();
        let ghost start = acts@;
        if self.now_ms >= due {
            self.aim_down_at = None;
            if let Some(a) = self.aim() {
                let name: String = self.profile.bindings.at(a.index).0.clone();
                if let Some(id) = self.pool.acquire(name.as_str()) {
                    self.aim_pos = Some(a.origin);
                    acts.push(TouchAction::Down { id, at: a.origin });
                }
            }
        }
        assert(self@ =~= v.press_delayed(b, due as int).0);
        assert(acts@ =~= start + v.press_delayed(b, due as int).1);
    }

    /// The limits are in order, or the margin is no number and nothing derived
    /// from it is one.
    pub open spec fn limits_ok(&self, f: AimFigures) -> bool {
        match aim_from(self.bindings(), 0) {
            Some(a) => a.margin_spec().le(f.hi) || self@.limitless(a, f) && (self@.roams(a)
                || self@.pending is None),
            None => true,
        }
    }

    /// Applies the deferred mouse motion (the first frame after a press).
    fn apply_aim_delta(&mut self, f: &AimFigures, acts: &mut Vec<TouchAction>)
        requires
            old(self).wf(),
            match aim_from(old(self).bindings(), 0) {
                Some(a) => old(self)@.roams(a) || a.margin_spec().le(f.hi),
                None => true,
            },
        ensures
            final(self).wf(),
            final(self).bindings() == old(self).bindings(),
            final(self).profile_spec() == old(self).profile_spec(),
            final(self)@ == old(self)@.apply_deferred(old(self).bindings(), *f).0,
            final(acts)@ == old(acts)@ + old(self)@.apply_deferred(old(self).bindings(), *f).1,
    {
        let ghost v = self@;
        let ghost b = self.bindings();
        let ghost start = acts@;
        if let Some(a) = self.aim() {
            let name: String = self.profile.bindings.at(a.index).0.clone();
            if self.aim_pos.is_some() {
                if let Some(id) = self.pool.get(name.as_str()) {
                    let next: Norm = if a.unbounded && self.offscreen_ok {
                        f.free
                    } else {
                        let lo: Num = a.margin();
                        Norm::new(f.plain.x.clamp(lo, f.hi), f.plain.y.clamp(lo, f.hi))
                    };
                    self.aim_pos = Some(next);
                    acts.push(TouchAction::Move { id, at: next });
                }
            }
        }
        assert(self@ =~= v.apply_deferred(b, *f).0);
        assert(acts@ =~= start + v.apply_deferred(b, *f).1);
    }

    /// Unbounded aim: the finger goes down once, then only moves.
    fn on_mouse_free(&mut self, a: Aim, d: Motion, f: &AimFigures, acts: &mut Vec<TouchAction>)
        requires
            old(self).wf(),
            a.index < old(self).bindings().len(),
        ensures
            final(self).wf(),
            final(self).bindings() == old(self).bindings(),
            final(self).profile_spec() == old(self).profile_spec(),
            final(self)@ == old(self)@.aim_free(old(self).bindings(), a, d, *f).0,
            final(acts)@ == old(acts)@ + old(self)@.aim_free(old(self).bindings(), a, d, *f).1,
    {
        let ghost v = self@;
        let ghost b = self.bindings();
        let ghost start = acts@;
        let name: String = self.profile.bindings.at(a.index).0.clone();
        if self.aim_pos.is_none() {
            if self.aim_down_at.is_none() {
                if let Some(id) = self.pool.acquire(name.as_str()) {
                    self.aim_pos = Some(a.origin);
                    acts.push(TouchAction::Down { id, at: a.origin });
                    self.aim_pending = Some(
                        Motion { dx: Motion::settle(d.dx), dy: Motion::settle(d.dy) },
                    );
                }
            }
        } else if let Some(id) = self.pool.get(name.as_str()) {
            self.aim_pos = Some(f.free);
            acts.push(TouchAction::Move { id, at: f.free });
        }
        assert(self@ =~= v.aim_free(b, a, d, *f).0);
        assert(acts@ =~= start + v.aim_free(b, a, d, *f).1);
    }

    /// Would the gathered motion take the finger past the limits?
    fn past_limits(a: Aim, f: &AimFigures) -> (r: bool)
        ensures
            r == EngineView::past_limits(a, *f),
    {
        let lo: Num = a.margin();
        f.next.x.less(lo) || f.hi.less(f.next.x) || f.next.y.less(lo) || f.hi.less(f.next.y)
    }

    /// Handoff, first part: the second finger goes down and moves along.
    fn aim_second_finger(&mut self, a: Aim, f: &AimFigures, acts: &mut Vec<TouchAction>)
        requires
            old(self).wf(),
            a.index < old(self).bindings().len(),
            a.margin_spec().le(f.hi) || old(self)@.limitless(a, *f),
        ensures
            final(self).wf(),
            final(self).bindings() == old(self).bindings(),
            final(self).profile_spec() == old(self).profile_spec(),
            final(self)@ == old(self)@.aim_second_finger(old(self).bindings(), a, *f).0,
            final(acts)@ == old(acts)@ + old(self)@.aim_second_finger(
                old(self).bindings(),
                a,
                *f,
            ).1,
    {
        let ghost v = self@;
        let ghost b = self.bindings();
        let ghost start = acts@;
        let key: String = second_key(self.profile.bindings.at(a.index).0.as_str());
        if f.reach.less(f.drift) && self.aim_second.is_none() {
            if let Some(id) = self.pool.acquire(key.as_str()) {
                acts.push(TouchAction::Down { id, at: f.seat });
                self.aim_second = Some(f.seat);
            }
        }
        if self.aim_second.is_some() {
            let lo: Num = a.margin();
            let at: Norm = Norm::new(f.second.x.clamp(lo, f.hi), f.second.y.clamp(lo, f.hi));
            if let Some(id) = self.pool.get(key.as_str()) {
                acts.push(TouchAction::Move { id, at });
            }
            self.aim_second = Some(at);
        }
        assert(self@ =~= v.aim_second_finger(b, a, *f).0);
        assert(acts@ =~= start + v.aim_second_finger(b, a, *f).1);
    }

    /// Handoff, last part: the second finger takes over at the limit.
    fn aim_hand_over(
        &mut self,
        a: Aim,
        id: u8,
        d: Motion,
        f: &AimFigures,
        acts: &mut Vec<TouchAction>,
    )
        requires
            old(self).wf(),
            a.index < old(self).bindings().len(),
        ensures
            final(self).wf(),
            final(self).bindings() == old(self).bindings(),
            final(self).profile_spec() == old(self).profile_spec(),
            final(self)@ == old(self)@.aim_hand_over(old(self).bindings(), a, id, d, *f).0,
            final(acts)@ == old(acts)@ + old(self)@.aim_hand_over(
                old(self).bindings(),
                a,
                id,
                d,
                *f,
            ).1,
    {
        let ghost v = self@;
        let ghost b = self.bindings();
        let ghost start = acts@;
        let name: String = self.profile.bindings.at(a.index).0.clone();
        if Engine::past_limits(a, f) {
            match self.aim_second {
                Some(at) => {
                    let key: String = second_key(name.as_str());
                    acts.push(TouchAction::Up { id });
                    let _gone = self.pool.release(name.as_str());
                    let _moved = self.pool.rename(key.as_str(), name.as_str());
                    self.aim_second = None;
                    self.aim_pos = Some(at);
                },
                None => {
                    if let Some((gone, fresh)) = self.pool.rotate(name.as_str()) {
                        acts.push(TouchAction::Up { id: gone });
                        acts.push(TouchAction::Down { id: fresh, at: a.origin });
                        self.aim_pos = Some(a.origin);
                        self.aim_pending = Some(
                            Motion { dx: Motion::settle(d.dx), dy: Motion::settle(d.dy) },
                        );
                    }
                },
            }
        } else {
            let next: Norm = Norm::new(f.next.x, f.next.y);
            self.aim_pos = Some(next);
            acts.push(TouchAction::Move { id, at: next });
        }
        assert(self@ =~= v.aim_hand_over(b, a, id, d, *f).0);
        assert(acts@ =~= start + v.aim_hand_over(b, a, id, d, *f).1);
    }

    /// Bounded aim without handoff.
    fn aim_plain(&mut self, a: Aim, id: u8, f: &AimFigures, acts: &mut Vec<TouchAction>)
        requires
            old(self).wf(),
            a.index < old(self).bindings().len(),
            a.margin_spec().le(f.hi) || old(self)@.limitless(a, *f),
        ensures
            final(self).wf(),
            final(self).bindings() == old(self).bindings(),
            final(self).profile_spec() == old(self).profile_spec(),
            final(self)@ == old(self)@.aim_plain(old(self).bindings(), a, id, *f).0,
            final(acts)@ == old(acts)@ + old(self)@.aim_plain(old(self).bindings(), a, id, *f).1,
    {
        let ghost v = self@;
        let ghost b = self.bindings();
        let ghost start = acts@;
        let name: String = self.profile.bindings.at(a.index).0.clone();
        if Engine::past_limits(a, f) {
            let lo: Num = a.margin();
            let edge: Norm = Norm::new(f.next.x.clamp(lo, f.hi), f.next.y.clamp(lo, f.hi));
            let eps: Num = Num::of(EPSILON_BITS);
            if eps.less(f.edge_gap_x) || eps.less(f.edge_gap_y) {
                acts.push(TouchAction::Move { id, at: edge });
            }
            acts.push(TouchAction::Up { id });
            let _gone = self.pool.release(name.as_str());
            self.aim_pos = None;
            self.aim_down_at = Some(self.now_ms + reset_delay(a));
        } else {
            let next: Norm = Norm::new(f.next.x, f.next.y);
            self.aim_pos = Some(next);
            acts.push(TouchAction::Move { id, at: next });
        }
        assert(self@ =~= v.aim_plain(b, a, id, *f).0);
        assert(acts@ =~= start + v.aim_plain(b, a, id, *f).1);
    }

    /// Bounded aim with the finger down.
    fn aim_bounded(&mut self, a: Aim, d: Motion, f: &AimFigures, acts: &mut Vec<TouchAction>)
        requires
            old(self).wf(),
            a.index < old(self).bindings().len(),
            a.margin_spec().le(f.hi) || old(self)@.limitless(a, *f),
        ensures
            final(self).wf(),
            final(self).bindings() == old(self).bindings(),
            final(self).profile_spec() == old(self).profile_spec(),
            final(self)@ == old(self)@.aim_bounded(old(self).bindings(), a, d, *f).0,
            final(acts)@ == old(acts)@ + old(self)@.aim_bounded(old(self).bindings(), a, d, *f).1,
    {
        let ghost v = self@;
        let ghost b = self.bindings();
        let ghost start = acts@;
        let name: String = self.profile.bindings.at(a.index).0.clone();
        if let Some(id) = self.pool.get(name.as_str()) {
            if a.handoff {
                self.aim_second_finger(a, f, acts);
                self.aim_hand_over(a, id, d, f, acts);
            } else {
                self.aim_plain(a, id, f, acts);
            }
        }
        assert(self@ =~= v.aim_bounded(b, a, d, *f).0);
        assert(acts@ =~= start + v.aim_bounded(b, a, d, *f).1);
    }
}

/// The delay before a press, never less than one millisecond.
fn reset_delay(a: Aim) -> (r: u64)
    ensures
        r == EngineView::reset_delay(a),
        r <= u32::MAX,
{
    if a.reset_delay_ms == 0 {
        1
    } else {
        a.reset_delay_ms as u64
    }
}

impl Engine {
    /// The gathered motion `d` reaches the aim finger.
    fn on_mouse(&mut self, d: Motion, f: &AimFigures, acts: &mut Vec<TouchAction>)
        requires
            old(self).wf(),
            match aim_from(old(self).bindings(), 0) {
                Some(a) => a.margin_spec().le(f.hi) || old(self)@.limitless(a, *f),
                None => true,
            },
        ensures
            final(self).wf(),
            final(self).bindings() == old(self).bindings(),
            final(self).profile_spec() == old(self).profile_spec(),
            final(self)@ == old(self)@.aim_moved(old(self).bindings(), d, *f).0,
            final(acts)@ == old(acts)@ + old(self)@.aim_moved(old(self).bindings(), d, *f).1,
    {
        let ghost v = self@;
        let ghost b = self.bindings();
        let ghost start = acts@;
        assert(start + Seq::<TouchAction>::empty() =~= start);
        let a: Aim = match self.aim() {
            Some(a) => a,
            None => {
                return ;
            },
        };
        if f.travel.less(a.deadzone) {
            return ;
        }
        // Unbounded mode skips the entire reset mechanism below.

        if a.unbounded && self.offscreen_ok {
            if a.toggle.is_some() && self.aim_pos.is_none() {
                return ;
            }
            self.on_mouse_free(a, d, f, acts);
            return ;
        }
        // Without a toggle aim is always active: the finger goes down on the
        // first mouse movement.

        if self.aim_pos.is_none() {
            if a.toggle.is_some() {
                return ;
            }
            let name: String = self.profile.bindings.at(a.index).0.clone();
            match self.pool.acquire(name.as_str()) {
                Some(id) => {
                    self.aim_pos = Some(a.origin);
                    acts.push(TouchAction::Down { id, at: a.origin });
                },
                None => {
                    assert(self@ =~= v);
                    return ;
                },
            }
            let ghost w = self@;
            assert(w =~= (EngineView {
                pool: v.pool.acquire(b[a.index as int].0@).0,
                aim_pos: Some(a.origin),
                ..v
            }));
        }
        self.aim_bounded(a, d, f, acts);
        assert(acts@ =~= start + v.aim_moved(b, d, *f).1);
    }

    /// Silently recentres if the mouse stopped and the finger drifted.
    fn idle_recenter(&mut self, f: &AimFigures, acts: &mut Vec<TouchAction>)
        requires
            old(self).wf(),
        ensures
            final(self).wf(),
            final(self).bindings() == old(self).bindings(),
            final(self).profile_spec() == old(self).profile_spec(),
            final(self)@ == old(self)@.idle_recentred(old(self).bindings(), *f).0,
            final(acts)@ == old(acts)@ + old(self)@.idle_recentred(old(self).bindings(), *f).1,
    {
        let ghost v = self@;
        let ghost b = self.bindings();
        let ghost start = acts@;
        assert(start + Seq::<TouchAction>::empty() =~= start);
        let a: Aim = match self.aim() {
            Some(a) => a,
            None => {
                return ;
            },
        };
        if self.aim_pos.is_none() {
            return ;
        }
        let rested: u64 = if self.now_ms > self.aim_last_move_ms {
            self.now_ms - self.aim_last_move_ms
        } else {
            0
        };
        if rested < IDLE_MS || f.drift.less(f.idle_limit) {
            return ;
        }
        let name: String = self.profile.bindings.at(a.index).0.clone();
        if let Some(id) = self.pool.release(name.as_str()) {
            self.aim_pos = None;
            self.aim_accum = Motion::none();
            self.aim_last_move_ms = self.now_ms;
            self.aim_down_at = Some(self.now_ms + reset_delay(a));
            acts.push(TouchAction::Up { id });
        }
        assert(self@ =~= v.idle_recentred(b, *f).0);
        assert(acts@ =~= start + v.idle_recentred(b, *f).1);
    }

    /// The aim side of a frame.
    fn aim_frame(&mut self, f: &AimFigures, acts: &mut Vec<TouchAction>)
        requires
            old(self).wf(),
            old(self).limits_ok(*f),
        ensures
            final(self).wf(),
            final(self).bindings() == old(self).bindings(),
            final(self).profile_spec() == old(self).profile_spec(),
            final(self)@ == old(self)@.aim_frame(old(self).bindings(), *f).0,
            final(acts)@ == old(acts)@ + old(self)@.aim_frame(old(self).bindings(), *f).1,
    {
        reveal(EngineView::aim_frame);
        let ghost v = self@;
        if self.aim_pending.is_some() {
            self.aim_pending = None;
            self.aim_accum = Motion::none();
            assert(self@ =~= (EngineView {
                pending: None,
                gathered: Motion::none_spec(),
                ..v
            }));
            self.apply_aim_delta(f, acts);
        } else if !self.aim_accum.quiet() {
            let d: Motion = self.aim_accum;
            self.aim_accum = Motion::none();
            assert(self@ =~= (EngineView { gathered: Motion::none_spec(), ..v }));
            self.on_mouse(d, f, acts);
        } else {
            self.idle_recenter(f, acts);
        }
    }

    /// Advances time and produces what is due. The actions returned must reach
    /// the backend, or a finger stays stuck on screen.
    #[must_use]
    pub fn tick(&mut self, now_ms: u64, f: &Figures) -> (acts: Vec<TouchAction>)
        requires
            old(self).wf(),
            now_ms <= LATEST_MS,
            old(self).limits_ok(f.aim),
            f.swipes@.len() == old(self)@.swipes.len(),
        ensures
            final(self).wf(),
            final(self).bindings() == old(self).bindings(),
            final(self).profile_spec() == old(self).profile_spec(),
            (final(self)@, acts@) == old(self)@.ticked(old(self).bindings(), now_ms as int, *f),
    {
        let ghost v = self@;
        let ghost b = self.bindings();
        let mut acts: Vec<TouchAction> = Vec::new();
        self.now_ms = now_ms;
        assert(self@ =~= (EngineView { now: now_ms as int, ..v }));
        if !self.enabled {
            return acts;
        }
        let ghost v0 = self@;
        self.steer_pending(f.stick, &mut acts);
        let ghost v1 = self@;
        let ghost a1 = acts@;
        // Leak repair first: if the pool fills, aim cannot get a pointer.
        self.reconcile_pointers(&mut acts);
        let ghost a2 = acts@;
        proof {
            lemma_steer_keeps(v0, b, f.stick);
            lemma_reclaim_keeps(v1, b, b.len() as int);
        }
        self.frame(f, &mut acts);
        assert(acts@ =~= v.ticked(b, now_ms as int, *f).1);
        acts
    }

    /// What follows the repairs of a frame.
    ///
    /// While a press is delayed the aim side is left out, even if the press
    /// happened right now: accumulated motion in the same frame would make the
    /// touch appear directly at its target, and that turn would be lost.
    fn frame(&mut self, f: &Figures, acts: &mut Vec<TouchAction>)
        requires
            old(self).wf(),
            old(self).limits_ok(f.aim),
            f.swipes@.len() == old(self)@.swipes.len(),
        ensures
            final(self).wf(),
            final(self).bindings() == old(self).bindings(),
            final(self).profile_spec() == old(self).profile_spec(),
            final(self)@ == old(self)@.frame(old(self).bindings(), *f).0,
            final(acts)@ == old(acts)@ + old(self)@.frame(old(self).bindings(), *f).1,
    {
        reveal(EngineView::frame);
        let ghost v = self@;
        let ghost b = self.bindings();
        match self.aim_down_at {
            Some(due) => {
                self.press_delayed(due, acts);
                let ghost w = self@;
                proof {
                    lemma_press_keeps(v, b, due as int);
                    lemma_steer_keeps(w, b, f.stick);
                }
                self.steer_pending(f.stick, acts);
                self.tick_gestures(&f.swipes, acts);
            },
            None => {
                self.aim_frame(&f.aim, acts);
                proof {
                    lemma_aim_keeps(v, b, f.aim);
                }
                self.tick_gestures(&f.swipes, acts);
            },
        }
        assert(acts@ =~= old(acts)@ + v.frame(b, *f).1);
    }

    /// Enables or disables the engine. On disable it lifts every finger, and
    /// the actions returned must reach the backend.
    #[must_use]
    pub fn set_enabled(&mut self, on: bool) -> (acts: Vec<TouchAction>)
        requires
            old(self).wf(),
        ensures
            final(self).wf(),
            final(self).bindings() == old(self).bindings(),
            final(self).profile_spec() == old(self).profile_spec(),
            (final(self)@, acts@) == old(self)@.switched(on),
    {
        let ghost v = self@;
        if self.enabled == on {
            return Vec::new();
        }
        self.enabled = on;
        if on {
            assert(self@ =~= v.switched(on).0);
            return Vec::new();
        }
        self.held.clear();
        self.aim_pos = None;
        self.aim_pending = None;
        self.aim_accum = Motion::none();
        self.aim_down_at = None;
        self.aim_second = None;
        self.joystick_pending = None;
        self.swipes = Vec::new();
        let acts: Vec<TouchAction> = self.pool.release_all();
        assert(self@ =~= v.switched(on).0);
        acts
    }

    pub fn profile(&self) -> (r: &Profile)
        ensures
            *r == self.profile_spec(),
            r.bindings@ == self.bindings(),
    {
        &self.profile
    }

    /// Sets the screen aspect ratio, `ratio` being width over height. Whether
    /// the joystick circle is really a circle depends on this. An empty screen
    /// changes nothing.
    pub fn set_aspect(&mut self, w: u32, h: u32, ratio: Num)
        requires
            old(self).wf(),
        ensures
            final(self).wf(),
            final(self).bindings() == old(self).bindings(),
            final(self).profile_spec() == old(self).profile_spec(),
            final(self)@ == (EngineView {
                aspect: if w > 0 && h > 0 {
                    ratio
                } else {
                    old(self)@.aspect
                },
                ..old(self)@
            }),
    {
        if w > 0 && h > 0 {
            self.aspect = ratio;
        }
    }

    pub fn is_enabled(&self) -> (r: bool)
        ensures
            r == self@.enabled,
    {
        self.enabled
    }

    /// Declares that the backend can carry off-screen coordinates. Unbounded aim
    /// does not engage until this is set.
    pub fn set_offscreen_ok(&mut self, ok: bool)
        requires
            old(self).wf(),
        ensures
            final(self).wf(),
            final(self).bindings() == old(self).bindings(),
            final(self).profile_spec() == old(self).profile_spec(),
            final(self)@ == (EngineView { offscreen_ok: ok, ..old(self)@ }),
    {
        self.offscreen_ok = ok;
    }

    /// Is unbounded aim actually active right now (diagnostics and tests)?
    pub fn aim_is_unbounded(&self) -> (r: bool)
        ensures
            r == (self@.offscreen_ok && exists|i: int|
                0 <= i < self.bindings().len() && roams_freely((#[trigger] self.bindings()[i]).1)),
    {
        if !self.offscreen_ok {
            return false;
        }
        let ghost b = self.bindings();
        let mut i: usize = 0;
        while i < self.profile.bindings.len()
            invariant
                b == self.profile.bindings@,
                b == self.bindings(),
                self@.offscreen_ok,
                i <= b.len(),
                forall|k: int| 0 <= k < i ==> !roams_freely((#[trigger] b[k]).1),
            decreases b.len() - i,
        {
            if let Binding::Aim { unbounded, .. } = &self.profile.bindings.at(i).1 {
                if *unbounded {
                    assert(roams_freely(b[i as int].1));
                    return true;
                }
            }
            i = i + 1;
        }
        false
    }

    /// Is something in flight? If so the caller must call `tick` frequently.
    ///
    /// A delayed press counts: after a reset nothing else may be left, and
    /// without a tick the press would never happen.
    pub fn has_pending(&self) -> (r: bool)
        ensures
            r == self@.pending_work(),
    {
        self.swipes.len() > 0 || self.aim_pending.is_some() || self.joystick_pending.is_some()
            || self.aim_pos.is_some() || self.aim_down_at.is_some() || !self.aim_accum.quiet()
    }

    /// Number of gestures in progress (for tests and diagnostics).
    pub fn swipe_count(&self) -> (r: usize)
        ensures
            r == self@.swipes.len(),
    {
        self.swipes.len()
    }

    /// The last time the engine knows about (tests and diagnostics).
    pub fn now_ms(&self) -> (r: u64)
        ensures
            r == self@.now,
    {
        self.now_ms
    }

    /// Number of pointers in use (diagnostics).
    pub fn active_pointers(&self) -> (r: usize)
        ensures
            r == crate::touch::count_set(self@.pool.used),
    {
        self.pool.active_count()
    }

    /// Current position of the aim finger (diagnostics and tests). May be
    /// off-screen in unbounded mode.
    pub fn aim_position(&self) -> (r: Option<Norm>)
        ensures
            r == self@.aim_pos,
    {
        self.aim_pos
    }

    /// Forgets which keys are held, as when their release events are lost.
    pub fn forget_held(&mut self)
        requires
            old(self).wf(),
        ensures
            final(self).wf(),
            final(self).bindings() == old(self).bindings(),
            final(self).profile_spec() == old(self).profile_spec(),
            final(self)@ == (EngineView { held: Set::empty(), ..old(self)@ }),
    {
        self.held.clear();
    }

    /// Is the second handoff finger down (tests and diagnostics)?
    pub fn aim_has_second(&self) -> (r: bool)
        ensures
            r == (self@.second is Some),
    {
        self.aim_second.is_some()
    }
}

/// An aim binding that may leave the screen.
pub open spec fn roams_freely(b: Binding) -> bool {
    match b {
        Binding::Aim { unbounded, .. } => unbounded,
        _ => false,
    }
}

/// Steering touches neither the aim finger nor the gestures.
pub proof fn lemma_steer_keeps(v: EngineView, b: Seq<(String, Binding)>, at: Norm)
    ensures
        ({
            let w = v.steer_pending(b, at).0;
            &&& w.swipes == v.swipes
            &&& w.pending == v.pending
            &&& w.second == v.second
            &&& w.offscreen_ok == v.offscreen_ok
            &&& w.now == v.now
            &&& w.down_at == v.down_at
            &&& w.gathered == v.gathered
            &&& w.aim_pos == v.aim_pos
            &&& w.enabled == v.enabled
            &&& w.held == v.held
        }),
{
    reveal(EngineView::steer_pending);
}

/// Reclaiming orphans touches nothing but the pool.
pub proof fn lemma_reclaim_keeps(v: EngineView, b: Seq<(String, Binding)>, n: int)
    ensures
        v.reclaimed(b, n).0 == (EngineView { pool: v.reclaimed(b, n).0.pool, ..v }),
    decreases n,
{
    if n > 0 {
        lemma_reclaim_keeps(v, b, n - 1);
    }
}

/// The delayed press leaves the gestures alone.
proof fn lemma_press_keeps(v: EngineView, b: Seq<(String, Binding)>, due: int)
    ensures
        v.press_delayed(b, due).0.swipes == v.swipes,
        v.press_delayed(b, due).0.now == v.now,
{
    reveal(EngineView::press_delayed);
}

/// The aim side leaves the gestures alone.
proof fn lemma_aim_keeps(v: EngineView, b: Seq<(String, Binding)>, f: AimFigures)
    ensures
        v.aim_frame(b, f).0.swipes == v.swipes,
        v.aim_frame(b, f).0.now == v.now,
{
    reveal(EngineView::aim_frame);
}

impl EngineView {
    /// What the joystick at `i` has to be placed from.
    pub open spec fn stick_query(self, b: Seq<(String, Binding)>, i: int) -> Option<StickQuery> {
        match b[i].1 {
            Binding::Joystick { center, radius, .. } => Some(
                StickQuery {
                    center,
                    radius,
                    dx: self.stick_dir(b[i].1).0 as i8,
                    dy: self.stick_dir(b[i].1).1 as i8,
                },
            ),
            _ => None,
        }
    }

    /// The state with `t` held or not.
    pub open spec fn with_held(self, t: TriggerKind, down: bool) -> EngineView {
        EngineView {
            held: if down {
                self.held.insert(t)
            } else {
                self.held.remove(t)
            },
            ..self
        }
    }
}

impl Engine {
    /// Whether `x` is held once `t` went down or up.
    fn held_after(&self, x: &Trigger, t: TriggerKind, down: bool) -> (r: bool)
        ensures
            r == self@.with_held(t, down).held.contains(TriggerKind::of(*x)),
    {
        let k: TriggerKind = TriggerKind::from(x);
        if k == t {
            down
        } else {
            self.held.contains(k)
        }
    }

    /// What the joystick position of an event is computed from; nothing if the
    /// event belongs to no joystick.
    pub fn event_stick(&self, ev: InputEvent) -> (r: Option<StickQuery>)
        ensures
            r == (match ev {
                InputEvent::Press(t) => match owner_from(self.bindings(), t, 0) {
                    Some(i) => self@.with_held(t, true).stick_query(self.bindings(), i),
                    None => None,
                },
                InputEvent::Release(t) => match owner_from(self.bindings(), t, 0) {
                    Some(i) => self@.with_held(t, false).stick_query(self.bindings(), i),
                    None => None,
                },
                InputEvent::MouseMove { .. } => None,
            }),
    {
        let (t, pressed) = match ev {
            InputEvent::Press(t) => (t, true),
            InputEvent::Release(t) => (t, false),
            InputEvent::MouseMove { .. } => {
                return None;
            },
        };
        let i: usize = match self.owner(t) {
            Some(i) => i,
            None => {
                return None;
            },
        };
        match &self.profile.bindings.at(i).1 {
            Binding::Joystick { up, down, left, right, center, radius } => {
                let mut dx: i8 = 0;
                let mut dy: i8 = 0;
                if self.held_after(up, t, pressed) {
                    dy = dy - 1;
                }
                if self.held_after(down, t, pressed) {
                    dy = dy + 1;
                }
                if self.held_after(left, t, pressed) {
                    dx = dx - 1;
                }
                if self.held_after(right, t, pressed) {
                    dx = dx + 1;
                }
                Some(StickQuery { center: *center, radius: *radius, dx, dy })
            },
            _ => None,
        }
    }

    /// What the deferred joystick position is computed from.
    pub fn pending_stick(&self) -> (r: Option<StickQuery>)
        requires
            self.wf(),
        ensures
            r == (match self@.stick {
                Some(i) => self@.stick_query(self.bindings(), i),
                None => None,
            }),
    {
        let i: usize = match self.joystick_pending {
            Some(i) => i,
            None => {
                return None;
            },
        };
        let (dx, dy) = self.stick_dir(i);
        match &self.profile.bindings.at(i).1 {
            Binding::Joystick { center, radius, .. } => Some(
                StickQuery { center: *center, radius: *radius, dx, dy },
            ),
            _ => None,
        }
    }

    /// What the numbers of the next aim step are computed from.
    pub fn aim_query(&self) -> (r: Option<AimQuery>)
        ensures
            r == (match aim_from(self.bindings(), 0) {
                Some(a) => Some(
                    AimQuery {
                        aim: a,
                        pos: match self@.aim_pos {
                            Some(p) => p,
                            None => a.origin,
                        },
                        second: self@.second,
                        pending: self@.pending,
                        gathered: self@.gathered,
                        aspect: self@.aspect,
                    },
                ),
                None => None,
            }),
    {
        match self.aim() {
            Some(a) => Some(
                AimQuery {
                    aim: a,
                    pos: match self.aim_pos {
                        Some(p) => p,
                        None => a.origin,
                    },
                    second: self.aim_second,
                    pending: self.aim_pending,
                    gathered: self.aim_accum,
                    aspect: self.aspect,
                },
            ),
            None => None,
        }
    }

    /// The motion gathered since the last frame.
    pub fn gathered(&self) -> (r: Motion)
        ensures
            r == self@.gathered,
    {
        self.aim_accum
    }

    /// What the swipe positions at time `now_ms` are computed from.
    pub fn swipe_queries(&self, now_ms: u64) -> (r: Vec<SwipeQuery>)
        requires
            self.wf(),
            now_ms <= LATEST_MS,
        ensures
            r@.len() == self@.swipes.len(),
            forall|k: int|
                0 <= k < r@.len() ==> #[trigger] r@[k] == swipe_query(
                    self.bindings(),
                    self@.swipes[k],
                    now_ms as int,
                ),
    {
        let mut out: Vec<SwipeQuery> = Vec::new();
        let mut i: usize = 0;
        while i < self.swipes.len()
            invariant
                self.wf(),
                now_ms <= LATEST_MS,
                i <= self.swipes@.len(),
                out@.len() == i,
                forall|k: int|
                    0 <= k < i ==> #[trigger] out@[k] == swipe_query(
                        self.bindings(),
                        self@.swipes[k],
                        now_ms as int,
                    ),
            decreases self.swipes@.len() - i,
        {
            let sw: ActiveSwipe = self.swipes[i];
            let step: u32 = gesture_step(now_ms, sw.start_ms, self.swipe_ms(sw.index));
            let (from, to, easing) = match &self.profile.bindings.at(sw.index).1 {
                Binding::Swipe { from, to, easing, .. } => (*from, *to, *easing),
                _ => (sw.last_sent, sw.last_sent, Easing::Linear),
            };
            out.push(SwipeQuery { from, to, easing, step, last_sent: sw.last_sent });
            i = i + 1;
        }
        out
    }
}

/// What the position of a gesture at time `now` is computed from.
pub open spec fn swipe_query(b: Seq<(String, Binding)>, s: ActiveSwipe, now: int) -> SwipeQuery {
    let (from, to, easing) = match b[s.index as int].1 {
        Binding::Swipe { from, to, easing, .. } => (from, to, easing),
        _ => (s.last_sent, s.last_sent, Easing::Linear),
    };
    SwipeQuery {
        from,
        to,
        easing,
        step: step_at(now, s.start_ms as int, swipe_duration(b[s.index as int].1)) as u32,
        last_sent: s.last_sent,
    }
}

} // verus!
