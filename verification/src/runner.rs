//! Decisions of the keymapper run loop.
//!
//! The loop itself waits for devices, clocks and channels; what each of those
//! events means is decided here. Every step takes the event, and the outcome of
//! an attempt that only the outside can make (a device grab), and says what is
//! to be done.
//!
//! The runner does not query the foreground app itself; it is told. It therefore
//! knows nothing about Waydroid or the bus, only that a package is in the
//! foreground now.

use crate::backend::BackendError;
use crate::engine::{
    Engine, EngineView, EventFigures, Figures, InputEvent, TriggerKind, LATEST_MS,
};
use crate::latency::LatencyStats;
use crate::num::Num;
use crate::profile::{Binding, Profile};
use crate::touch::TouchAction;
use vstd::prelude::*;
use vstd::string::*;

verus! {

/// evdev key code: ESC.
pub const KEY_ESC: u16 = 1;

/// How many ESC presses are needed to escape a grab. Prevents accidental exits
/// from pressing ESC inside the game.
pub const ESC_STREAK: u8 = 3;

/// Why the loop ended early.
#[derive(Debug)]
pub enum RunnerError {
    Device(String),
    Backend(BackendError),
    Stream(String),
}

impl RunnerError {
    /// What the user is told.
    pub fn message(&self) -> (r: String)
        ensures
            r@ == (match *self {
                RunnerError::Device(m) => "could not open device: "@ + m@,
                RunnerError::Backend(e) => "could not set up the touch backend: "@ + e.text(),
                RunnerError::Stream(m) => "event stream broke: "@ + m@,
            }),
    {
        let mut s: String = String::new();
        match self {
            RunnerError::Device(m) => {
                s.append("could not open device: ");
                s.append(m.as_str());
            },
            RunnerError::Backend(e) => {
                let m: String = e.message();
                s.append("could not set up the touch backend: ");
                s.append(m.as_str());
            },
            RunnerError::Stream(m) => {
                s.append("event stream broke: ");
                s.append(m.as_str());
            },
        }
        proof {
            crate::text::lemma_after_nothing();
        }
        s
    }
}

/// What the loop is set up with.
#[derive(Debug)]
pub struct RunnerConfig {
    /// Keyboard to listen on.
    pub device: String,
    /// Mouse to listen on. Without it mouse mapping does not work.
    pub mouse: Option<String>,
    /// Whether grabbing is enabled.
    pub grab: bool,
    /// evdev key code that toggles game mode.
    pub hotkey: Option<u16>,
    /// Pixel size of the target window.
    pub screen_px: (u32, u32),
}

/// Externally observable state.
#[derive(Debug)]
pub struct RunnerState {
    pub running: bool,
    /// Foreground package (with or without a profile).
    pub foreground: Option<String>,
    /// Name of the active profile, if there is one.
    pub active_profile: Option<String>,
    pub grabbed: bool,
    /// Is game mode on (grab and mapping)? With it off the mouse is free.
    pub game_mode: bool,
    /// Is the Waydroid window focused on the host? If not, mapping stops.
    pub host_focused: bool,
    /// Latency of our own layer (microseconds, p50 and p99).
    pub latency_p50_us: u64,
    pub latency_p99_us: u64,
}

/// The observable state, with names as plain text.
#[verifier::ext_equal]
pub struct StateView {
    pub running: bool,
    pub foreground: Option<Seq<char>>,
    pub active_profile: Option<Seq<char>>,
    pub grabbed: bool,
    pub game_mode: bool,
    pub host_focused: bool,
    pub latency_p50_us: u64,
    pub latency_p99_us: u64,
}

impl View for RunnerState {
    type V = StateView;

    open spec fn view(&self) -> StateView {
        StateView {
            running: self.running,
            foreground: crate::text::some_text(self.foreground),
            active_profile: crate::text::some_text(self.active_profile),
            grabbed: self.grabbed,
            game_mode: self.game_mode,
            host_focused: self.host_focused,
            latency_p50_us: self.latency_p50_us,
            latency_p99_us: self.latency_p99_us,
        }
    }
}

impl StateView {
    /// Nothing is going on.
    pub open spec fn idle() -> StateView {
        StateView {
            running: false,
            foreground: None,
            active_profile: None,
            grabbed: false,
            game_mode: false,
            host_focused: false,
            latency_p50_us: 0,
            latency_p99_us: 0,
        }
    }
}

/// An optional string, copied.
fn copy_text(s: &Option<String>) -> (r: Option<String>)
    ensures
        crate::text::some_text(r) == crate::text::some_text(*s),
{
    match s {
        Some(s) => Some(s.clone()),
        None => None,
    }
}

impl Clone for RunnerState {
    fn clone(&self) -> (r: RunnerState)
        ensures
            r@ == self@,
    {
        RunnerState {
            running: self.running,
            foreground: copy_text(&self.foreground),
            active_profile: copy_text(&self.active_profile),
            grabbed: self.grabbed,
            game_mode: self.game_mode,
            host_focused: self.host_focused,
            latency_p50_us: self.latency_p50_us,
            latency_p99_us: self.latency_p99_us,
        }
    }
}

impl Default for RunnerState {
    /// Idle. Focus defaults to off: assuming on while unknown risks injecting
    /// touches into the desktop.
    fn default() -> (r: RunnerState)
        ensures
            r@ == StateView::idle(),
    {
        RunnerState {
            running: false,
            foreground: None,
            active_profile: None,
            grabbed: false,
            game_mode: false,
            host_focused: false,
            latency_p50_us: 0,
            latency_p99_us: 0,
        }
    }
}

/// Events reported out of the loop (for logging and the UI).
#[derive(Debug)]
pub enum RunnerEvent {
    ProfileActivated { package: String, profile: String },
    ProfileCleared { package: String },
    Grabbed,
    Ungrabbed,
    GameModeOn,
    GameModeOff,
    FocusGained,
    FocusLost,
    EscapeRequested,
    /// A system layer (assistant, notification panel) came over the game. Kept
    /// separate from `ProfileCleared`: the game did not close.
    OverlayPaused { package: String },
}

/// An event, with names as plain text.
pub enum EventView {
    ProfileActivated { package: Seq<char>, profile: Seq<char> },
    ProfileCleared { package: Seq<char> },
    Grabbed,
    Ungrabbed,
    GameModeOn,
    GameModeOff,
    FocusGained,
    FocusLost,
    EscapeRequested,
    OverlayPaused { package: Seq<char> },
}

impl View for RunnerEvent {
    type V = EventView;

    open spec fn view(&self) -> EventView {
        match self {
            RunnerEvent::ProfileActivated { package, profile } => EventView::ProfileActivated {
                package: package@,
                profile: profile@,
            },
            RunnerEvent::ProfileCleared { package } => EventView::ProfileCleared {
                package: package@,
            },
            RunnerEvent::Grabbed => EventView::Grabbed,
            RunnerEvent::Ungrabbed => EventView::Ungrabbed,
            RunnerEvent::GameModeOn => EventView::GameModeOn,
            RunnerEvent::GameModeOff => EventView::GameModeOff,
            RunnerEvent::FocusGained => EventView::FocusGained,
            RunnerEvent::FocusLost => EventView::FocusLost,
            RunnerEvent::EscapeRequested => EventView::EscapeRequested,
            RunnerEvent::OverlayPaused { package } => EventView::OverlayPaused {
                package: package@,
            },
        }
    }
}

/// Something the loop has to do.
#[derive(Debug)]
pub enum Effect {
    /// Hand these actions to the backend, if there are any.
    Touch(Vec<TouchAction>),
    /// Tell the backend to lift every finger.
    ReleaseAll,
    /// Give the keyboard and the mouse back.
    Ungrab,
    /// Report this event.
    Report(RunnerEvent),
}

/// An effect, with its contents as plain values.
pub enum EffectView {
    Touch(Seq<TouchAction>),
    ReleaseAll,
    Ungrab,
    Report(EventView),
}

impl View for Effect {
    type V = EffectView;

    open spec fn view(&self) -> EffectView {
        match self {
            Effect::Touch(a) => EffectView::Touch(a@),
            Effect::ReleaseAll => EffectView::ReleaseAll,
            Effect::Ungrab => EffectView::Ungrab,
            Effect::Report(e) => EffectView::Report(e@),
        }
    }
}

/// Effects, with their contents as plain values.
pub open spec fn effects_of(e: Seq<Effect>) -> Seq<EffectView> {
    e.map_values(|x: Effect| x@)
}

/// Transient system layers that come over the game.
pub open spec fn overlay(pkg: Seq<char>) -> bool {
    pkg == "com.google.android.googlequicksearchbox"@ || pkg == "com.android.systemui"@
}

/// Transient system layers that come over the game.
///
/// When these move to the foreground the game has not closed, it is merely
/// covered. The profile is paused rather than cleared, so it returns instantly
/// when the layer goes away.
///
/// The list is kept narrow: things that genuinely wait for user input, such as
/// permission dialogs, must not be in it.
pub fn is_system_overlay(pkg: &str) -> (r: bool)
    ensures
        r == overlay(pkg@),
{
    crate::text::same(pkg, "com.google.android.googlequicksearchbox") || crate::text::same(
        pkg,
        "com.android.systemui",
    )
}

/// The words that tell a broken pipe from any other trouble.
pub open spec fn speaks_of_a_dead_pipe(s: Seq<char>) -> bool {
    crate::text::occurs(s, "Broken pipe"@) || crate::text::occurs(s, "os error 32"@)
        || crate::text::occurs(s, "alignment broken"@)
}

/// Does a dispatch error mean the pipe is dead?
///
/// A full pipe is transient and already swallowed by the backend; a broken pipe
/// is permanent and needs reopening. Conflating them means either needless
/// reopening or silent death.
pub fn pipe_is_dead(e: &BackendError) -> (r: bool)
    ensures
        r == speaks_of_a_dead_pipe(e.text()),
{
    let s: String = e.message();
    crate::text::contains(s.as_str(), "Broken pipe") || crate::text::contains(
        s.as_str(),
        "os error 32",
    ) || crate::text::contains(s.as_str(), "alignment broken")
}

/// What becomes of a key event.
#[derive(Clone, Copy, Debug, PartialEq, Eq, Structural)]
pub enum Route {
    /// It was for the loop itself.
    Taken,
    /// It ends the loop.
    Stop,
    /// It goes to the engine.
    Feed,
}

/// What became of an attempt to renew a broken pipe.
#[derive(Clone, Copy, Debug, PartialEq, Eq, Structural)]
pub enum Repair {
    /// There is nobody to ask for a new pipe.
    NoProvider,
    /// A new pipe is in use.
    Renewed,
    /// None is available yet, or it could not be set up.
    NotYet,
}

/// Everything the loop remembers between events.
#[verifier::ext_equal]
pub struct RunnerView {
    /// Name of the profile in force.
    pub profile: Option<Seq<char>>,
    /// The engine, while mapping is on.
    pub engine: Option<EngineView>,
    /// A newly built engine.
    pub blank: EngineView,
    pub may_grab: bool,
    pub hotkey: Option<u16>,
    pub focused: bool,
    pub game_mode: bool,
    pub current: Option<Seq<char>>,
    pub grabbed: bool,
    pub esc: int,
    pub pipe_dead: bool,
    pub state: StateView,
}

/// A state together with what has to be done.
pub type Step = (RunnerView, Seq<EffectView>);

impl RunnerView {
    /// Mapping only runs while the host is focused, game mode is on and there is
    /// a profile; the devices are only held while mapping runs.
    pub open spec fn guarded(self) -> bool {
        &&& self.engine is Some ==> self.focused && self.game_mode && self.profile is Some
            && self.engine->0.enabled
        &&& self.grabbed ==> self.may_grab && self.engine is Some
        &&& self.state.grabbed == self.grabbed
        &&& self.blank.enabled
        &&& 0 <= self.esc <= ESC_STREAK
    }

    /// The engine goes and every finger with it.
    pub open spec fn let_go(self) -> Step {
        (
            RunnerView { engine: None, ..self },
            match self.engine {
                Some(e) => seq![EffectView::Touch(e.switched(false).1), EffectView::ReleaseAll],
                None => seq![EffectView::ReleaseAll],
            },
        )
    }

    /// The devices are given back, if they were taken.
    pub open spec fn hand_back(self) -> Step {
        (
            RunnerView { grabbed: false, ..self },
            if self.grabbed {
                seq![EffectView::Ungrab, EffectView::Report(EventView::Ungrabbed)]
            } else {
                Seq::empty()
            },
        )
    }

    /// The devices are wanted but not held.
    pub open spec fn lacks_grab(self) -> bool {
        self.may_grab && !self.grabbed
    }

    /// A new engine starts, and the devices are taken if that worked.
    pub open spec fn take_up(self, grab_ok: bool) -> Step {
        let got = self.lacks_grab() && grab_ok;
        (
            RunnerView { engine: Some(self.blank), grabbed: self.grabbed || got, ..self },
            if got {
                seq![EffectView::Report(EventView::Grabbed)]
            } else {
                Seq::empty()
            },
        )
    }

    /// A system layer came over the game: mapping pauses, the profile stays.
    pub open spec fn covered(self, pkg: Seq<char>) -> Step {
        let (v, a) = self.let_go();
        let (w, b) = v.hand_back();
        (
            RunnerView {
                current: Some(pkg),
                state: StateView { foreground: Some(pkg), grabbed: false, ..w.state },
                ..w
            },
            a + b + seq![EffectView::Report(EventView::OverlayPaused { package: pkg })],
        )
    }

    /// An app with a profile came to the foreground.
    pub open spec fn activated(self, pkg: Seq<char>, name: Seq<char>, grab_ok: bool) -> Step {
        let (v, a) = self.let_go();
        let u = RunnerView { profile: Some(name), ..v };
        let (w, b) = if u.focused && u.game_mode {
            u.take_up(grab_ok)
        } else {
            (u, Seq::empty())
        };
        (
            RunnerView {
                current: Some(pkg),
                state: StateView {
                    foreground: Some(pkg),
                    active_profile: Some(name),
                    grabbed: w.grabbed,
                    ..w.state
                },
                ..w
            },
            a + seq![
                EffectView::Report(EventView::ProfileActivated { package: pkg, profile: name }),
            ] + b,
        )
    }

    /// An app without a profile came to the foreground.
    pub open spec fn cleared(self, pkg: Seq<char>) -> Step {
        let (v, a) = self.let_go();
        let (w, b) = (RunnerView { profile: None, ..v }).hand_back();
        (
            RunnerView {
                current: Some(pkg),
                state: StateView {
                    foreground: Some(pkg),
                    active_profile: None,
                    grabbed: false,
                    ..w.state
                },
                ..w
            },
            a + seq![EffectView::Report(EventView::ProfileCleared { package: pkg })] + b,
        )
    }

    /// `pkg` came to the foreground; `found` names its profile, if it has one.
    pub open spec fn foreground(self, pkg: Seq<char>, found: Option<Seq<char>>, grab_ok: bool) -> Step {
        if self.current == Some(pkg) {
            (self, Seq::empty())
        } else if overlay(pkg) && self.profile is Some {
            self.covered(pkg)
        } else {
            match found {
                Some(name) => self.activated(pkg, name, grab_ok),
                None => self.cleared(pkg),
            }
        }
    }

    /// The host window gained or lost focus.
    pub open spec fn focus(self, now: bool, grab_ok: bool) -> Step {
        if now == self.focused {
            (self, Seq::empty())
        } else {
            let u = RunnerView { focused: now, ..self };
            let (w, a) = if now {
                let (x, b) = if u.profile is Some && u.game_mode {
                    u.take_up(grab_ok)
                } else {
                    (u, Seq::empty())
                };
                (x, b + seq![EffectView::Report(EventView::FocusGained)])
            } else {
                let (x, b) = u.let_go();
                let (y, c) = x.hand_back();
                (y, b + c + seq![EffectView::Report(EventView::FocusLost)])
            };
            (
                RunnerView {
                    state: StateView { host_focused: now, grabbed: w.grabbed, ..w.state },
                    ..w
                },
                a,
            )
        }
    }

    /// The hotkey toggles game mode.
    pub open spec fn toggle(self, grab_ok: bool) -> Step {
        let u = RunnerView { game_mode: !self.game_mode, ..self };
        let (w, a) = if u.game_mode {
            let (x, b) = if u.profile is Some && u.focused {
                u.take_up(grab_ok)
            } else {
                (u, Seq::empty())
            };
            (x, b + seq![EffectView::Report(EventView::GameModeOn)])
        } else {
            let (x, b) = u.let_go();
            let (y, c) = x.hand_back();
            (y, b + c + seq![EffectView::Report(EventView::GameModeOff)])
        };
        (
            RunnerView {
                state: StateView { game_mode: w.game_mode, grabbed: w.grabbed, ..w.state },
                ..w
            },
            a,
        )
    }

    /// The event is a press of the hotkey.
    pub open spec fn is_hotkey(self, ev: InputEvent) -> bool {
        match (self.hotkey, ev) {
            (Some(hk), InputEvent::Press(TriggerKind::Key(k))) => k == hk,
            _ => false,
        }
    }

    /// Where a key event goes. The hotkey is always listened for. While the
    /// devices are held, enough presses of ESC in a row end the loop; any other
    /// press starts the count anew.
    pub open spec fn route(self, ev: InputEvent, grab_ok: bool) -> (Step, Route) {
        if self.is_hotkey(ev) {
            (self.toggle(grab_ok), Route::Taken)
        } else if !self.grabbed {
            ((self, Seq::empty()), Route::Feed)
        } else if ev == InputEvent::Press(TriggerKind::Key(KEY_ESC)) {
            let n = if self.esc < ESC_STREAK {
                self.esc + 1
            } else {
                self.esc
            };
            let v = RunnerView { esc: n, ..self };
            if n >= ESC_STREAK {
                ((v, seq![EffectView::Report(EventView::EscapeRequested)]), Route::Stop)
            } else {
                ((v, Seq::empty()), Route::Taken)
            }
        } else if ev is Press {
            ((RunnerView { esc: 0, ..self }, Seq::empty()), Route::Feed)
        } else {
            ((self, Seq::empty()), Route::Feed)
        }
    }

    /// A broken pipe was renewed or not. With a new pipe the engine starts
    /// fresh: Android has forgotten every touch.
    pub open spec fn repaired(self, r: Repair) -> RunnerView {
        match r {
            Repair::NoProvider => RunnerView { pipe_dead: false, ..self },
            Repair::NotYet => self,
            Repair::Renewed => RunnerView {
                pipe_dead: false,
                engine: match self.engine {
                    Some(e) => Some(e.switched(false).0.switched(true).0),
                    None => None,
                },
                ..self
            },
        }
    }

    /// The loop ends: every finger is lifted and the devices are given back.
    pub open spec fn finished(self, p50: u64, p99: u64) -> Step {
        let (v, a) = self.let_go();
        (
            RunnerView {
                grabbed: false,
                state: StateView {
                    running: false,
                    grabbed: false,
                    active_profile: None,
                    latency_p50_us: p50,
                    latency_p99_us: p99,
                    ..v.state
                },
                ..v
            },
            if self.grabbed {
                a + seq![EffectView::Ungrab]
            } else {
                a
            },
        )
    }
}

/// The run loop's memory.
#[derive(Debug)]
pub struct Runner {
    cfg: RunnerConfig,
    /// Width over height of the target window.
    ratio: Num,
    /// Can the backend carry off-screen coordinates?
    offscreen_ok: bool,
    /// The active profile, kept apart from the engine: on focus loss the engine
    /// goes but the profile must not be forgotten.
    profile: Option<Profile>,
    engine: Option<Engine>,
    focused: bool,
    game_mode: bool,
    current: Option<String>,
    grabbed: bool,
    esc: u8,
    /// Is the pipe broken? While it is, dispatching is pointless.
    pipe_dead: bool,
    state: RunnerState,
}

impl View for Runner {
    type V = RunnerView;

    closed spec fn view(&self) -> RunnerView {
        RunnerView {
            profile: match self.profile {
                Some(p) => Some(p.name@),
                None => None,
            },
            engine: match self.engine {
                Some(e) => Some(e@),
                None => None,
            },
            blank: blank_engine(self.cfg.screen_px, self.ratio, self.offscreen_ok),
            may_grab: self.cfg.grab,
            hotkey: self.cfg.hotkey,
            focused: self.focused,
            game_mode: self.game_mode,
            current: crate::text::some_text(self.current),
            grabbed: self.grabbed,
            esc: self.esc as int,
            pipe_dead: self.pipe_dead,
            state: self.state@,
        }
    }
}

/// A new engine, told about the screen and the backend.
pub open spec fn blank_engine(px: (u32, u32), ratio: Num, offscreen_ok: bool) -> EngineView {
    let fresh = EngineView::fresh();
    EngineView {
        aspect: if px.0 > 0 && px.1 > 0 {
            ratio
        } else {
            fresh.aspect
        },
        offscreen_ok,
        ..fresh
    }
}

proof fn lemma_effects_push(e: Seq<Effect>, x: Effect)
    ensures
        effects_of(e.push(x)) == effects_of(e).push(x@),
{
    assert(effects_of(e.push(x)) =~= effects_of(e).push(x@));
}

impl Runner {
    /// The bindings of the engine in use.
    pub closed spec fn engine_bindings(&self) -> Seq<(String, Binding)> {
        match self.engine {
            Some(e) => e.bindings(),
            None => Seq::empty(),
        }
    }

    /// The bindings of the active profile.
    pub closed spec fn profile_bindings(&self) -> Seq<(String, Binding)> {
        match self.profile {
            Some(p) => p.bindings@,
            None => Seq::empty(),
        }
    }

    /// The engine runs the active profile, and the guards hold.
    pub closed spec fn wf(&self) -> bool {
        &&& self@.guarded()
        &&& match self.profile {
            Some(p) => p.bindings.wf(),
            None => true,
        }
        &&& match self.engine {
            Some(e) => e.wf() && self.profile is Some && crate::profile::same_bindings(
                e.bindings(),
                self.profile->0.bindings@,
            ),
            None => true,
        }
    }

    /// Starts the loop. With a hotkey set, game mode starts off and the user
    /// turns it on when ready; without one it is on whenever a profile is active.
    pub fn new(cfg: RunnerConfig, ratio: Num, offscreen_ok: bool, focused: bool) -> (r: Runner)
        ensures
            r.wf(),
            r@ == (RunnerView {
                profile: None,
                engine: None,
                blank: blank_engine(cfg.screen_px, ratio, offscreen_ok),
                may_grab: cfg.grab,
                hotkey: cfg.hotkey,
                focused,
                game_mode: cfg.hotkey is None,
                current: None,
                grabbed: false,
                esc: 0,
                pipe_dead: false,
                state: StateView { running: true, ..StateView::idle() },
            }),
    {
        let mut state: RunnerState = RunnerState::default();
        state.running = true;
        let game_mode: bool = cfg.hotkey.is_none();
        Runner {
            cfg,
            ratio,
            offscreen_ok,
            profile: None,
            engine: None,
            focused,
            game_mode,
            current: None,
            grabbed: false,
            esc: 0,
            pipe_dead: false,
            state,
        }
    }

    fn let_go(&mut self, out: &mut Vec<Effect>)
        requires
            old(self)@.guarded(),
            match old(self).profile {
                Some(p) => p.bindings.wf(),
                None => true,
            },
            match old(self).engine {
                Some(e) => e.wf(),
                None => true,
            },
        ensures
            final(self)@ == old(self)@.let_go().0,
            effects_of(final(out)@) == effects_of(old(out)@) + old(self)@.let_go().1,
            final(self).engine is None,
            final(self).profile == old(self).profile,
    {
        let ghost v = self@;
        let ghost start = effects_of(out@);
        if let Some(mut e) = self.engine.take() {
            let acts: Vec<TouchAction> = e.set_enabled(false);
            proof {
                lemma_effects_push(out@, Effect::Touch(acts));
            }
            out.push(Effect::Touch(acts));
        }
        proof {
            lemma_effects_push(out@, Effect::ReleaseAll);
        }
        out.push(Effect::ReleaseAll);
        assert(self@ =~= v.let_go().0);
        assert(effects_of(out@) =~= start + v.let_go().1);
    }

    fn hand_back(&mut self, out: &mut Vec<Effect>)
        ensures
            final(self)@ == old(self)@.hand_back().0,
            effects_of(final(out)@) == effects_of(old(out)@) + old(self)@.hand_back().1,
            final(self).profile == old(self).profile,
            final(self).engine == old(self).engine,
    {
        let ghost v = self@;
        let ghost start = effects_of(out@);
        if self.grabbed {
            self.grabbed = false;
            proof {
                lemma_effects_push(out@, Effect::Ungrab);
                lemma_effects_push(
                    out@.push(Effect::Ungrab),
                    Effect::Report(RunnerEvent::Ungrabbed),
                );
            }
            out.push(Effect::Ungrab);
            out.push(Effect::Report(RunnerEvent::Ungrabbed));
        }
        assert(self@ =~= v.hand_back().0);
        assert(effects_of(out@) =~= start + v.hand_back().1);
    }

    fn take_up(&mut self, grab_ok: bool, out: &mut Vec<Effect>)
        requires
            old(self).profile is Some,
            old(self).profile->0.bindings.wf(),
        ensures
            final(self)@ == old(self)@.take_up(grab_ok).0,
            effects_of(final(out)@) == effects_of(old(out)@) + old(self)@.take_up(grab_ok).1,
            final(self).profile == old(self).profile,
            final(self).engine is Some,
            final(self).engine->0.wf(),
            crate::profile::same_bindings(
                final(self).engine->0.bindings(),
                old(self).profile->0.bindings@,
            ),
    {
        let ghost v = self@;
        let ghost start = effects_of(out@);
        if let Some(p) = &self.profile {
            let mut e: Engine = Engine::new(p.clone());
            e.set_aspect(self.cfg.screen_px.0, self.cfg.screen_px.1, self.ratio);
            e.set_offscreen_ok(self.offscreen_ok);
            assert(e@ =~= v.blank);
            self.engine = Some(e);
        }
        if self.cfg.grab && !self.grabbed && grab_ok {
            self.grabbed = true;
            proof {
                lemma_effects_push(out@, Effect::Report(RunnerEvent::Grabbed));
            }
            out.push(Effect::Report(RunnerEvent::Grabbed));
        }
        assert(self@ =~= v.take_up(grab_ok).0);
        assert(effects_of(out@) =~= start + v.take_up(grab_ok).1);
    }

    /// Whether `pkg` is what the loop already knows to be in the foreground.
    fn is_current(&self, pkg: &str) -> (r: bool)
        ensures
            r == (self@.current == Some(pkg@)),
    {
        match &self.current {
            Some(c) => crate::text::same(c.as_str(), pkg),
            None => false,
        }
    }

    /// Whether the devices are to be grabbed when `pkg`, which has a profile or
    /// not, comes to the foreground.
    pub fn foreground_wants_grab(&self, pkg: &str, has_profile: bool) -> (r: bool)
        ensures
            r == (self@.current != Some(pkg@) && !(overlay(pkg@) && self@.profile is Some)
                && has_profile && self@.focused && self@.game_mode && self@.lacks_grab()),
    {
        !self.is_current(pkg) && !(is_system_overlay(pkg) && self.profile.is_some()) && has_profile
            && self.focused && self.game_mode && self.cfg.grab && !self.grabbed
    }

    /// Whether the devices are to be grabbed on a focus change.
    pub fn focus_wants_grab(&self, now: bool) -> (r: bool)
        ensures
            r == (now && !self@.focused && self@.profile is Some && self@.game_mode
                && self@.lacks_grab()),
    {
        now && !self.focused && self.profile.is_some() && self.game_mode && self.cfg.grab
            && !self.grabbed
    }

    /// Whether the devices are to be grabbed on a key event.
    pub fn key_wants_grab(&self, ev: InputEvent) -> (r: bool)
        ensures
            r == (self@.is_hotkey(ev) && !self@.game_mode && self@.profile is Some && self@.focused
                && self@.lacks_grab()),
    {
        self.is_hotkey(ev) && !self.game_mode && self.profile.is_some() && self.focused
            && self.cfg.grab && !self.grabbed
    }

    fn is_hotkey(&self, ev: InputEvent) -> (r: bool)
        ensures
            r == self@.is_hotkey(ev),
    {
        match (self.cfg.hotkey, ev) {
            (Some(hk), InputEvent::Press(TriggerKind::Key(k))) => k == hk,
            _ => false,
        }
    }

    fn on_covered(&mut self, pkg: &str) -> (out: Vec<Effect>)
        requires
            old(self).wf(),
        ensures
            final(self).wf(),
            (final(self)@, effects_of(out@)) == old(self)@.covered(pkg@),
            final(self).profile_bindings() == old(self).profile_bindings(),
    {
        let ghost v = self@;
        let mut out: Vec<Effect> = Vec::new();
        assert(effects_of(out@) =~= Seq::<EffectView>::empty());
        self.let_go(&mut out);
        self.hand_back(&mut out);
        let x = Effect::Report(RunnerEvent::OverlayPaused { package: pkg.to_owned() });
        proof {
            lemma_effects_push(out@, x);
        }
        out.push(x);
        self.current = Some(pkg.to_owned());
        self.state.foreground = Some(pkg.to_owned());
        self.state.grabbed = false;
        assert(self@ =~= v.covered(pkg@).0);
        assert(effects_of(out@) =~= v.covered(pkg@).1);
        out
    }

    fn on_activated(&mut self, pkg: &str, p: &Profile, grab_ok: bool) -> (out: Vec<Effect>)
        requires
            old(self).wf(),
            p.bindings.wf(),
        ensures
            final(self).wf(),
            (final(self)@, effects_of(out@)) == old(self)@.activated(pkg@, p.name@, grab_ok),
            crate::profile::same_bindings(final(self).profile_bindings(), p.bindings@),
    {
        let ghost v = self@;
        let mut out: Vec<Effect> = Vec::new();
        assert(effects_of(out@) =~= Seq::<EffectView>::empty());
        self.let_go(&mut out);
        self.profile = Some(p.clone());
        let x = Effect::Report(
            RunnerEvent::ProfileActivated { package: pkg.to_owned(), profile: p.name.clone() },
        );
        proof {
            lemma_effects_push(out@, x);
        }
        out.push(x);
        let ghost mid = effects_of(out@);
        if self.focused && self.game_mode {
            self.take_up(grab_ok, &mut out);
        }
        self.state.active_profile = Some(p.name.clone());
        self.state.grabbed = self.grabbed;
        self.current = Some(pkg.to_owned());
        self.state.foreground = Some(pkg.to_owned());
        assert(self@ =~= v.activated(pkg@, p.name@, grab_ok).0);
        assert(effects_of(out@) =~= v.activated(pkg@, p.name@, grab_ok).1);
        out
    }

    fn on_cleared(&mut self, pkg: &str) -> (out: Vec<Effect>)
        requires
            old(self).wf(),
        ensures
            final(self).wf(),
            (final(self)@, effects_of(out@)) == old(self)@.cleared(pkg@),
    {
        let ghost v = self@;
        let mut out: Vec<Effect> = Vec::new();
        assert(effects_of(out@) =~= Seq::<EffectView>::empty());
        self.let_go(&mut out);
        self.profile = None;
        let x = Effect::Report(RunnerEvent::ProfileCleared { package: pkg.to_owned() });
        proof {
            lemma_effects_push(out@, x);
        }
        out.push(x);
        self.hand_back(&mut out);
        self.state.active_profile = None;
        self.state.grabbed = false;
        self.current = Some(pkg.to_owned());
        self.state.foreground = Some(pkg.to_owned());
        assert(self@ =~= v.cleared(pkg@).0);
        assert(effects_of(out@) =~= v.cleared(pkg@).1);
        out
    }

    /// `pkg` came to the foreground. `found` is the profile the store has for it
    /// and `grab_ok` tells whether the devices could be grabbed, if
    /// `foreground_wants_grab` asked for it.
    pub fn on_foreground(&mut self, pkg: &str, found: Option<&Profile>, grab_ok: bool) -> (out: Vec<
        Effect,
    >)
        requires
            old(self).wf(),
            match found {
                Some(p) => p.bindings.wf(),
                None => true,
            },
        ensures
            final(self).wf(),
            (final(self)@, effects_of(out@)) == old(self)@.foreground(
                pkg@,
                match found {
                    Some(p) => Some(p.name@),
                    None => None,
                },
                grab_ok,
            ),
            match found {
                Some(p) => old(self)@.current == Some(pkg@) || (overlay(pkg@)
                    && old(self)@.profile is Some) || crate::profile::same_bindings(
                    final(self).profile_bindings(),
                    p.bindings@,
                ),
                None => true,
            },
    {
        if self.is_current(pkg) {
            let out: Vec<Effect> = Vec::new();
            assert(effects_of(out@) =~= Seq::<EffectView>::empty());
            return out;
        }
        if is_system_overlay(pkg) && self.profile.is_some() {
            return self.on_covered(pkg);
        }
        match found {
            Some(p) => self.on_activated(pkg, p, grab_ok),
            None => self.on_cleared(pkg),
        }
    }

    /// Nobody reports the foreground any more: the loop ends. What is left to do is
    /// what `finish` does.
    pub fn on_foreground_closed(&self) -> (r: Route)
        ensures
            r == Route::Stop,
    {
        Route::Stop
    }

    /// What well-formedness says of the state.
    pub proof fn lemma_wf(&self)
        requires
            self.wf(),
        ensures
            self@.guarded(),
            self@.engine is Some ==> self@.profile is Some && crate::profile::same_bindings(
                self.engine_bindings(),
                self.profile_bindings(),
            ),
            crate::by_name::sorted_names(self.profile_bindings()),
            crate::by_name::sorted_names(self.engine_bindings()),
    {
        if let Some(e) = self.engine {
            e.lemma_wf();
        }
    }

    /// The host window gained or lost focus. `grab_ok` tells whether the devices
    /// could be grabbed, if `focus_wants_grab` asked for it.
    ///
    /// Mapping must stop here: Android does not know that its window was
    /// minimised, and the touches would land on the desktop.
    pub fn on_focus(&mut self, now: bool, grab_ok: bool) -> (out: Vec<Effect>)
        requires
            old(self).wf(),
        ensures
            final(self).wf(),
            (final(self)@, effects_of(out@)) == old(self)@.focus(now, grab_ok),
            final(self).profile_bindings() == old(self).profile_bindings(),
    {
        let ghost v = self@;
        let mut out: Vec<Effect> = Vec::new();
        assert(effects_of(out@) =~= Seq::<EffectView>::empty());
        if now == self.focused {
            return out;
        }
        if now {
            self.focused = true;
            if self.profile.is_some() && self.game_mode {
                self.take_up(grab_ok, &mut out);
            }
            let x = Effect::Report(RunnerEvent::FocusGained);
            proof {
                lemma_effects_push(out@, x);
            }
            out.push(x);
        } else {
            self.let_go(&mut out);
            self.focused = false;
            self.hand_back(&mut out);
            let x = Effect::Report(RunnerEvent::FocusLost);
            proof {
                lemma_effects_push(out@, x);
            }
            out.push(x);
        }
        self.state.host_focused = now;
        self.state.grabbed = self.grabbed;
        assert(self@ =~= v.focus(now, grab_ok).0);
        assert(effects_of(out@) =~= v.focus(now, grab_ok).1);
        out
    }

    /// The hotkey was pressed.
    fn toggle(&mut self, grab_ok: bool) -> (out: Vec<Effect>)
        requires
            old(self).wf(),
        ensures
            final(self).wf(),
            (final(self)@, effects_of(out@)) == old(self)@.toggle(grab_ok),
            final(self).profile_bindings() == old(self).profile_bindings(),
    {
        let ghost v = self@;
        let mut out: Vec<Effect> = Vec::new();
        assert(effects_of(out@) =~= Seq::<EffectView>::empty());
        if !self.game_mode {
            self.game_mode = true;
            if self.profile.is_some() && self.focused {
                self.take_up(grab_ok, &mut out);
            }
            let x = Effect::Report(RunnerEvent::GameModeOn);
            proof {
                lemma_effects_push(out@, x);
            }
            out.push(x);
        } else {
            self.let_go(&mut out);
            self.game_mode = false;
            self.hand_back(&mut out);
            let x = Effect::Report(RunnerEvent::GameModeOff);
            proof {
                lemma_effects_push(out@, x);
            }
            out.push(x);
        }
        self.state.game_mode = self.game_mode;
        self.state.grabbed = self.grabbed;
        assert(self@ =~= v.toggle(grab_ok).0);
        assert(effects_of(out@) =~= v.toggle(grab_ok).1);
        out
    }

    /// A key event arrived. `grab_ok` tells whether the devices could be
    /// grabbed, if `key_wants_grab` asked for it.
    pub fn on_key(&mut self, ev: InputEvent, grab_ok: bool) -> (r: (Vec<Effect>, Route))
        requires
            old(self).wf(),
        ensures
            final(self).wf(),
            ((final(self)@, effects_of(r.0@)), r.1) == old(self)@.route(ev, grab_ok),
            final(self).profile_bindings() == old(self).profile_bindings(),
    {
        let ghost v = self@;
        if self.is_hotkey(ev) {
            let out: Vec<Effect> = self.toggle(grab_ok);
            return (out, Route::Taken);
        }
        let mut out: Vec<Effect> = Vec::new();
        assert(effects_of(out@) =~= Seq::<EffectView>::empty());
        if !self.grabbed {
            return (out, Route::Feed);
        }
        if ev == InputEvent::Press(TriggerKind::Key(KEY_ESC)) {
            if self.esc < ESC_STREAK {
                self.esc = self.esc + 1;
            }
            if self.esc >= ESC_STREAK {
                let x = Effect::Report(RunnerEvent::EscapeRequested);
                proof {
                    lemma_effects_push(out@, x);
                }
                out.push(x);
                assert(self@ =~= v.route(ev, grab_ok).0.0);
                assert(effects_of(out@) =~= v.route(ev, grab_ok).0.1);
                return (out, Route::Stop);
            }
            assert(self@ =~= v.route(ev, grab_ok).0.0);
            return (out, Route::Taken);
        }
        if let InputEvent::Press(_) = ev {
            self.esc = 0;
        }
        assert(self@ =~= v.route(ev, grab_ok).0.0);
        (out, Route::Feed)
    }

    /// The engine, while mapping is on.
    pub fn engine(&self) -> (r: Option<&Engine>)
        requires
            self.wf(),
        ensures
            match (r, self@.engine) {
                (Some(e), Some(v)) => e@ == v && e.bindings() == self.engine_bindings() && e.wf(),
                (None, None) => true,
                _ => false,
            },
    {
        match &self.engine {
            Some(e) => Some(e),
            None => None,
        }
    }

    /// The numbers of a frame fit the engine.
    pub open spec fn figures_fit(&self, f: Figures) -> bool {
        match self@.engine {
            Some(e) => f.swipes@.len() == e.swipes.len() && match crate::engine::aim_from(
                self.engine_bindings(),
                0,
            ) {
                Some(a) => a.margin_spec().le(f.aim.hi) || e.limitless(a, f.aim) && (e.roams(a)
                    || e.pending is None),
                None => true,
            },
            None => true,
        }
    }

    /// Time moves on for the engine, if there is one.
    pub fn feed_tick(&mut self, now_ms: u64, f: &Figures) -> (acts: Vec<TouchAction>)
        requires
            old(self).wf(),
            now_ms <= LATEST_MS,
            old(self).figures_fit(*f),
        ensures
            final(self).wf(),
            final(self).engine_bindings() == old(self).engine_bindings(),
            final(self).profile_bindings() == old(self).profile_bindings(),
            match old(self)@.engine {
                Some(e) => {
                    let o = e.ticked(old(self).engine_bindings(), now_ms as int, *f);
                    final(self)@ == (RunnerView { engine: Some(o.0), ..old(self)@ }) && acts@ == o.1
                },
                None => final(self)@ == old(self)@ && acts@ == Seq::<TouchAction>::empty(),
            },
    {
        let ghost v = self@;
        if let Some(mut e) = self.engine.take() {
            let acts: Vec<TouchAction> = e.tick(now_ms, f);
            proof {
                crate::engine_laws::lemma_ticking_keeps_enabled(
                    v.engine->0,
                    e.bindings(),
                    now_ms as int,
                    *f,
                );
            }
            let ghost ev = e@;
            self.engine = Some(e);
            assert(self@ =~= (RunnerView { engine: Some(ev), ..v }));
            acts
        } else {
            assert(self@ =~= v);
            Vec::new()
        }
    }

    /// An input event reaches the engine, if there is one.
    pub fn feed_event(&mut self, ev: InputEvent, f: &EventFigures) -> (acts: Vec<TouchAction>)
        requires
            old(self).wf(),
        ensures
            final(self).wf(),
            final(self).engine_bindings() == old(self).engine_bindings(),
            final(self).profile_bindings() == old(self).profile_bindings(),
            match old(self)@.engine {
                Some(e) => {
                    let o = e.handled(old(self).engine_bindings(), ev, *f);
                    final(self)@ == (RunnerView { engine: Some(o.0), ..old(self)@ }) && acts@ == o.1
                },
                None => final(self)@ == old(self)@ && acts@ == Seq::<TouchAction>::empty(),
            },
    {
        let ghost v = self@;
        if let Some(mut e) = self.engine.take() {
            let acts: Vec<TouchAction> = e.handle(ev, f);
            let ghost ev2 = e@;
            self.engine = Some(e);
            assert(self@ =~= (RunnerView { engine: Some(ev2), ..v }));
            acts
        } else {
            assert(self@ =~= v);
            Vec::new()
        }
    }

    /// Whether the gesture clock is needed.
    pub fn wants_ticks(&self) -> (r: bool)
        ensures
            r == (match self@.engine {
                Some(e) => e.pending_work(),
                None => false,
            }),
    {
        match &self.engine {
            Some(e) => e.has_pending(),
            None => false,
        }
    }

    /// Whether a new pipe has to be asked for.
    pub fn wants_pipe(&self) -> (r: bool)
        ensures
            r == self@.pipe_dead,
    {
        self.pipe_dead
    }

    /// Judges the outcome of a dispatch: true if it went through. An error is
    /// classified, not swallowed.
    pub fn dispatched(&mut self, outcome: &Result<(), BackendError>) -> (ok: bool)
        requires
            old(self).wf(),
        ensures
            final(self).wf(),
            ok == outcome is Ok,
            final(self)@ == (RunnerView {
                pipe_dead: old(self)@.pipe_dead || match *outcome {
                    Ok(_) => false,
                    Err(e) => speaks_of_a_dead_pipe(e.text()),
                },
                ..old(self)@
            }),
            final(self).engine_bindings() == old(self).engine_bindings(),
            final(self).profile_bindings() == old(self).profile_bindings(),
    {
        match outcome {
            Ok(_) => true,
            Err(e) => {
                if pipe_is_dead(e) {
                    self.pipe_dead = true;
                }
                false
            },
        }
    }

    /// An attempt to renew a broken pipe came to an end.
    pub fn on_repair(&mut self, r: Repair)
        requires
            old(self).wf(),
        ensures
            final(self).wf(),
            final(self)@ == old(self)@.repaired(r),
            final(self).engine_bindings() == old(self).engine_bindings(),
            final(self).profile_bindings() == old(self).profile_bindings(),
    {
        let ghost v = self@;
        match r {
            Repair::NoProvider => {
                self.pipe_dead = false;
            },
            Repair::NotYet => {},
            Repair::Renewed => {
                self.pipe_dead = false;
                if let Some(mut e) = self.engine.take() {
                    let _dropped = e.set_enabled(false);
                    let _none = e.set_enabled(true);
                    self.engine = Some(e);
                }
            },
        }
        assert(self@ =~= v.repaired(r));
    }

    /// The loop ends cleanly: fingers are always lifted and the grab released.
    pub fn finish(&mut self, lat: &LatencyStats) -> (out: Vec<Effect>)
        requires
            old(self).wf(),
        ensures
            final(self).wf(),
            (final(self)@, effects_of(out@)) == old(self)@.finished(
                crate::latency::percentile(lat.samples(), 50),
                crate::latency::percentile(lat.samples(), 99),
            ),
    {
        let ghost v = self@;
        let mut out: Vec<Effect> = Vec::new();
        assert(effects_of(out@) =~= Seq::<EffectView>::empty());
        self.let_go(&mut out);
        if self.grabbed {
            proof {
                lemma_effects_push(out@, Effect::Ungrab);
            }
            out.push(Effect::Ungrab);
        }
        self.grabbed = false;
        let (p50, _p95, p99, _worst) = lat.percentiles();
        self.state.running = false;
        self.state.grabbed = false;
        self.state.active_profile = None;
        self.state.latency_p50_us = p50;
        self.state.latency_p99_us = p99;
        assert(self@ =~= v.finished(p50, p99).0);
        assert(effects_of(out@) =~= v.finished(p50, p99).1);
        out
    }

    /// The externally observable state.
    pub fn state(&self) -> (r: RunnerState)
        ensures
            r@ == self@.state,
    {
        self.state.clone()
    }
}

/// Whatever happens, mapping only runs while the host is focused, game mode is
/// on and a profile is active, and the devices are only held while mapping runs.
pub proof fn law_every_step_keeps_the_guard(
    v: RunnerView,
    pkg: Seq<char>,
    found: Option<Seq<char>>,
    now: bool,
    ev: InputEvent,
    grab_ok: bool,
    r: Repair,
    p50: u64,
    p99: u64,
)
    requires
        v.guarded(),
    ensures
        v.foreground(pkg, found, grab_ok).0.guarded(),
        v.focus(now, grab_ok).0.guarded(),
        v.route(ev, grab_ok).0.0.guarded(),
        v.repaired(r).guarded(),
        v.finished(p50, p99).0.guarded(),
{
}

/// Without host focus there is no engine, so no input can become a touch on the
/// desktop; and no device is held.
pub proof fn law_without_focus_nothing_is_mapped(v: RunnerView)
    requires
        v.guarded(),
        !v.focused,
    ensures
        v.engine is None,
        !v.grabbed,
{
}

/// A step that stops holding the devices gives them back.
pub proof fn law_a_lost_grab_is_handed_back(
    v: RunnerView,
    pkg: Seq<char>,
    found: Option<Seq<char>>,
    now: bool,
    ev: InputEvent,
    grab_ok: bool,
    p50: u64,
    p99: u64,
)
    requires
        v.guarded(),
        v.grabbed,
    ensures
        !v.foreground(pkg, found, grab_ok).0.grabbed ==> v.foreground(
            pkg,
            found,
            grab_ok,
        ).1.contains(EffectView::Ungrab),
        !v.focus(now, grab_ok).0.grabbed ==> v.focus(now, grab_ok).1.contains(EffectView::Ungrab),
        !v.route(ev, grab_ok).0.0.grabbed ==> v.route(ev, grab_ok).0.1.contains(
            EffectView::Ungrab,
        ),
        v.finished(p50, p99).1.contains(EffectView::Ungrab),
{
    let a = v.let_go().1;
    let e = EffectView::Ungrab;
    let f = v.foreground(pkg, found, grab_ok).1;
    if overlay(pkg) && v.profile is Some {
        assert(v.current == Some(pkg) || f[a.len() as int] == e);
    } else if found is None {
        assert(v.current == Some(pkg) || f[a.len() as int + 1] == e);
    }
    if !now && v.focused {
        assert(v.focus(now, grab_ok).1[(RunnerView { focused: now, ..v }).let_go().1.len() as int]
            == e);
    }
    if v.is_hotkey(ev) {
        assert(v.toggle(grab_ok).1[(RunnerView { game_mode: false, ..v }).let_go().1.len() as int]
            == e);
    }
    assert(v.finished(p50, p99).1[a.len() as int] == e);
}

/// A system layer does not cost the profile: when the game is back in front,
/// its profile is active again, and mapping runs at once if focus and game mode
/// allow it.
pub proof fn law_a_layer_gives_the_game_back(
    v: RunnerView,
    layer: Seq<char>,
    game: Seq<char>,
    name: Seq<char>,
    first: bool,
    grab_ok: bool,
)
    requires
        v.guarded(),
        overlay(layer),
        !overlay(game),
        v.current == Some(game),
        v.profile == Some(name),
    ensures
        ({
            let paused = v.foreground(layer, None, first).0;
            let back = paused.foreground(game, Some(name), grab_ok).0;
            &&& paused.profile == Some(name)
            &&& paused.engine is None
            &&& !paused.grabbed
            &&& back.profile == Some(name)
            &&& back.engine is Some <==> v.focused && v.game_mode
            &&& back.grabbed <==> v.focused && v.game_mode && v.may_grab && grab_ok
        }),
{
    assert(layer != game);
}

/// While the devices are held, ESC must be pressed several times in a row to
/// leave; the last press stops the loop, the ones before are swallowed.
pub proof fn law_escape_takes_a_streak(v: RunnerView, grab_ok: bool)
    requires
        v.guarded(),
        v.grabbed,
        v.esc == 0,
        v.hotkey != Some(KEY_ESC),
    ensures
        ({
            let esc = InputEvent::Press(TriggerKind::Key(KEY_ESC));
            let (a, r1) = v.route(esc, grab_ok);
            let (b, r2) = a.0.route(esc, grab_ok);
            let (c, r3) = b.0.route(esc, grab_ok);
            &&& r1 == Route::Taken
            &&& r2 == Route::Taken
            &&& r3 == Route::Stop
            &&& ESC_STREAK > 1
        }),
{
}

/// The hotkey undoes itself.
pub proof fn law_the_hotkey_toggles(v: RunnerView, ev: InputEvent, first: bool, second: bool)
    requires
        v.is_hotkey(ev),
    ensures
        v.route(ev, first).1 == Route::Taken,
        v.route(ev, first).0.0.game_mode == !v.game_mode,
        v.route(ev, first).0.0.route(ev, second).0.0.game_mode == v.game_mode,
{
}

/// A press of one key.
pub open spec fn presses(ev: InputEvent, code: u16) -> bool {
    ev == InputEvent::Press(TriggerKind::Key(code))
}

/// The loop keeps to itself only presses of the hotkey and, while the devices are
/// held, of ESC. Everything else goes to the engine, every release among it, held
/// devices or not; and what goes to the engine has no effect of its own.
pub proof fn law_only_the_loops_own_keys_are_taken(v: RunnerView, ev: InputEvent, grab_ok: bool)
    requires
        v.guarded(),
    ensures
        ({
            let (step, r) = v.route(ev, grab_ok);
            let hot = v.hotkey is Some && presses(ev, v.hotkey->0);
            let esc = v.grabbed && presses(ev, 1);
            &&& r == Route::Feed <==> !hot && !esc
            &&& r == Route::Stop <==> !hot && esc && v.esc >= 2
            &&& r == Route::Taken <==> hot || (esc && v.esc < 2)
            &&& r == Route::Feed ==> step.1.len() == 0
            &&& r == Route::Feed && !(ev is Press && v.grabbed) ==> step.0 == v
            &&& r == Route::Feed && ev is Press && v.grabbed ==> step.0 == (RunnerView { esc: 0, ..v })
            &&& r == Route::Taken && !hot ==> step.0 == (RunnerView { esc: v.esc + 1, ..v })
                && step.1.len() == 0
            &&& r == Route::Stop ==> step.1 == seq![EffectView::Report(EventView::EscapeRequested)]
            &&& hot ==> step == v.toggle(grab_ok)
        }),
{
}

/// What is done where mapping stops: the fingers of the engine are lifted, and
/// the backend is told to lift every finger there may be.
pub open spec fn fingers_up(v: RunnerView) -> Seq<EffectView> {
    match v.engine {
        Some(e) => seq![EffectView::Touch(e.switched(false).1), EffectView::ReleaseAll],
        None => seq![EffectView::ReleaseAll],
    }
}

/// What is done where the devices are held no longer.
pub open spec fn devices_back(v: RunnerView) -> Seq<EffectView> {
    if v.grabbed {
        seq![EffectView::Ungrab, EffectView::Report(EventView::Ungrabbed)]
    } else {
        Seq::empty()
    }
}

/// What is said where the devices are held from now on.
pub open spec fn devices_taken(v: RunnerView, w: RunnerView) -> Seq<EffectView> {
    if w.grabbed && !v.grabbed {
        seq![EffectView::Report(EventView::Grabbed)]
    } else {
        Seq::empty()
    }
}

/// Mapping runs with a new engine, and the devices are held where that is wanted
/// and was possible.
pub open spec fn maps_anew(v: RunnerView, w: RunnerView, grab_ok: bool) -> bool {
    &&& w.engine == Some(v.blank)
    &&& w.grabbed <==> v.grabbed || (v.may_grab && grab_ok)
}

/// Whatever else happens, what the loop was set up with stays.
pub open spec fn same_setup(v: RunnerView, w: RunnerView) -> bool {
    &&& w.blank == v.blank
    &&& w.may_grab == v.may_grab
    &&& w.hotkey == v.hotkey
    &&& w.esc == v.esc
    &&& w.pipe_dead == v.pipe_dead
    &&& w.state.running == v.state.running
    &&& w.state.grabbed == w.grabbed
    &&& w.state.latency_p50_us == v.state.latency_p50_us
    &&& w.state.latency_p99_us == v.state.latency_p99_us
}

/// Losing the focus lifts every finger, gives the devices back and stops mapping,
/// but forgets no profile. Gaining it starts mapping again if there is a profile
/// and game mode is on. Being told the same again does nothing.
pub proof fn law_focus_starts_and_stops_mapping(v: RunnerView, now: bool, grab_ok: bool)
    requires
        v.guarded(),
    ensures
        ({
            let (w, e) = v.focus(now, grab_ok);
            &&& now == v.focused ==> w == v && e.len() == 0
            &&& now != v.focused ==> {
                &&& w.focused == now && w.state.host_focused == now
                &&& w.profile == v.profile && w.current == v.current && w.game_mode == v.game_mode
                &&& w.state.foreground == v.state.foreground
                &&& w.state.active_profile == v.state.active_profile
                &&& w.state.game_mode == v.state.game_mode
                &&& same_setup(v, w)
                &&& !now ==> w.engine is None && !w.grabbed && e == fingers_up(v) + devices_back(v)
                    + seq![EffectView::Report(EventView::FocusLost)]
                &&& now ==> e == devices_taken(v, w) + seq![
                    EffectView::Report(EventView::FocusGained),
                ]
                &&& now && v.profile is Some && v.game_mode ==> maps_anew(v, w, grab_ok)
                &&& now && !(v.profile is Some && v.game_mode) ==> w.engine == v.engine && w.grabbed
                    == v.grabbed
            }
        }),
{
}

/// The hotkey switches game mode. Off lifts every finger, gives the devices back
/// and stops mapping, but forgets no profile; on starts mapping again if there is
/// a profile and the window has the focus.
pub proof fn law_game_mode_starts_and_stops_mapping(v: RunnerView, grab_ok: bool)
    requires
        v.guarded(),
    ensures
        ({
            let (w, e) = v.toggle(grab_ok);
            &&& w.game_mode == !v.game_mode && w.state.game_mode == !v.game_mode
            &&& w.profile == v.profile && w.current == v.current && w.focused == v.focused
            &&& w.state.foreground == v.state.foreground
            &&& w.state.active_profile == v.state.active_profile
            &&& w.state.host_focused == v.state.host_focused
            &&& same_setup(v, w)
            &&& v.game_mode ==> w.engine is None && !w.grabbed && e == fingers_up(v) + devices_back(v)
                + seq![EffectView::Report(EventView::GameModeOff)]
            &&& !v.game_mode ==> e == devices_taken(v, w) + seq![
                EffectView::Report(EventView::GameModeOn),
            ]
            &&& !v.game_mode && v.profile is Some && v.focused ==> maps_anew(v, w, grab_ok)
            &&& !v.game_mode && !(v.profile is Some && v.focused) ==> w.engine == v.engine && w.grabbed
                == v.grabbed
        }),
{
}

/// The app in the foreground decides which profile is in force. Whoever comes, the
/// fingers of the one before are lifted. A layer over a game pauses mapping and
/// keeps the profile; an app with a profile is mapped by it, if focus and game mode
/// allow; one without ends mapping. The app that is there already changes nothing.
pub proof fn law_the_foreground_chooses_the_profile(
    v: RunnerView,
    pkg: Seq<char>,
    found: Option<Seq<char>>,
    grab_ok: bool,
)
    requires
        v.guarded(),
    ensures
        ({
            let (w, e) = v.foreground(pkg, found, grab_ok);
            let layer = overlay(pkg) && v.profile is Some;
            &&& v.current == Some(pkg) ==> w == v && e.len() == 0
            &&& v.current != Some(pkg) ==> {
                &&& w.current == Some(pkg) && w.state.foreground == Some(pkg)
                &&& w.focused == v.focused && w.game_mode == v.game_mode
                &&& w.state.host_focused == v.state.host_focused
                &&& w.state.game_mode == v.state.game_mode
                &&& same_setup(v, w)
                &&& layer ==> {
                    &&& w.profile == v.profile
                    &&& w.state.active_profile == v.state.active_profile
                    &&& w.engine is None && !w.grabbed
                    &&& e == fingers_up(v) + devices_back(v) + seq![
                        EffectView::Report(EventView::OverlayPaused { package: pkg }),
                    ]
                }
                &&& !layer && found is Some ==> {
                    &&& w.profile == found
                    &&& w.state.active_profile == found
                    &&& v.focused && v.game_mode ==> maps_anew(v, w, grab_ok)
                    &&& !(v.focused && v.game_mode) ==> w.engine is None && w.grabbed == v.grabbed
                    &&& e == fingers_up(v) + seq![
                        EffectView::Report(
                            EventView::ProfileActivated { package: pkg, profile: found->0 },
                        ),
                    ] + devices_taken(v, w)
                }
                &&& !layer && found is None ==> {
                    &&& w.profile is None
                    &&& w.state.active_profile is None
                    &&& w.engine is None && !w.grabbed
                    &&& e == fingers_up(v) + seq![
                        EffectView::Report(EventView::ProfileCleared { package: pkg }),
                    ] + devices_back(v)
                }
            }
        }),
{
}

/// A renewed pipe has no finger on it: the engine goes on with none, nothing held
/// and nothing in flight. Without a provider the pipe is given up; while none is
/// ready nothing changes. Mapping itself goes on in every case.
pub proof fn law_a_renewed_pipe_starts_clean(v: RunnerView, r: Repair)
    requires
        v.guarded(),
    ensures
        ({
            let w = v.repaired(r);
            &&& w.pipe_dead <==> v.pipe_dead && r == Repair::NotYet
            &&& r != Repair::Renewed ==> w.engine == v.engine
            &&& w == (RunnerView { pipe_dead: w.pipe_dead, engine: w.engine, ..v })
            &&& w.engine is Some <==> v.engine is Some
            &&& r == Repair::Renewed && v.engine is Some ==> {
                let e = w.engine->0;
                &&& e.enabled
                &&& forall|n: Seq<char>| #[trigger] e.pool.get(n) is None
                &&& e.held == Set::<TriggerKind>::empty()
                &&& !e.pending_work()
                &&& e.offscreen_ok == v.engine->0.offscreen_ok
                &&& e.aspect == v.engine->0.aspect
            }
        }),
{
}

/// The end of the loop lifts every finger, gives the devices back, and leaves the
/// measured latencies.
pub proof fn law_the_end_leaves_nothing_down(v: RunnerView, p50: u64, p99: u64)
    requires
        v.guarded(),
    ensures
        ({
            let (w, e) = v.finished(p50, p99);
            &&& w.engine is None && !w.grabbed
            &&& e == fingers_up(v) + if v.grabbed {
                seq![EffectView::Ungrab]
            } else {
                Seq::<EffectView>::empty()
            }
            &&& !w.state.running && !w.state.grabbed && w.state.active_profile is None
            &&& w.state.latency_p50_us == p50 && w.state.latency_p99_us == p99
            &&& w.state.foreground == v.state.foreground
            &&& w.state.game_mode == v.state.game_mode
            &&& w.state.host_focused == v.state.host_focused
        }),
{
    let e = v.finished(p50, p99).1;
    if !v.grabbed {
        assert(fingers_up(v) + Seq::<EffectView>::empty() =~= e);
    }
}

/// A new engine knows the shape of the window, unless it has none, and what the
/// backend can carry; otherwise it is as any new engine.
pub proof fn law_a_new_engine_knows_its_screen(px: (u32, u32), ratio: Num, offscreen_ok: bool)
    ensures
        ({
            let e = blank_engine(px, ratio, offscreen_ok);
            &&& px.0 > 0 && px.1 > 0 ==> e.aspect == ratio
            &&& px.0 == 0 || px.1 == 0 ==> e.aspect == EngineView::fresh().aspect
            &&& e.offscreen_ok == offscreen_ok
            &&& e.enabled
            &&& !e.pending_work()
            &&& e.held == Set::<TriggerKind>::empty()
            &&& forall|n: Seq<char>| #[trigger] e.pool.get(n) is None
            &&& forall|i: int| 0 <= i < e.pool.used.len() ==> !(#[trigger] e.pool.used[i])
        }),
{
    crate::aim_laws::law_only_zeros_are_no_motion(crate::engine::Motion::none_spec());
}

/// A pipe is taken for dead whatever else its fault says, and for nothing else than one
/// of the three ways in which that is told.
pub proof fn law_a_dead_pipe_is_known_by_its_words(a: Seq<char>, b: Seq<char>)
    ensures
        speaks_of_a_dead_pipe(a + "Broken pipe"@ + b),
        speaks_of_a_dead_pipe(a + "os error 32"@ + b),
        speaks_of_a_dead_pipe(a + "alignment broken"@ + b),
        speaks_of_a_dead_pipe(a) ==> crate::text::occurs(a, "Broken pipe"@) || crate::text::occurs(
            a,
            "os error 32"@,
        ) || crate::text::occurs(a, "alignment broken"@),
{
    crate::text::lemma_occurs_between(a, "Broken pipe"@, b);
    crate::text::lemma_occurs_between(a, "os error 32"@, b);
    crate::text::lemma_occurs_between(a, "alignment broken"@, b);
}

} // verus!
