//! Trying the input path from a terminal.
//!
//! The engine can run on a real keyboard without touching the container at all,
//! and a single touch can be sent without any mapping. Keeping the two apart is
//! what makes a diagnosis possible: if the game does not react, either the
//! mapping or the injection is to blame.

use crate::engine::{Engine, EngineView, EventFigures, Figures, InputEvent, TriggerKind, LATEST_MS};
use crate::num::{Num, HALF_BITS};
use crate::profile::Profile;
use crate::runner::{RunnerEvent, RunnerState, EventView, StateView, ESC_STREAK, KEY_ESC};
use crate::touch::{Norm, TouchAction};
use vstd::prelude::*;
use vstd::string::*;

verus! {

/// What an input event means for leaving.
#[derive(Debug)]
pub enum Escape {
    /// Nothing.
    Pass,
    /// Escape was pressed so many times in a row; not enough yet.
    Counted(u8),
    /// Leave, after these touches.
    Leave(Vec<TouchAction>),
}

/// The same, over plain sequences.
#[verifier::ext_equal]
pub enum EscapeView {
    Pass,
    Counted(u8),
    Leave(Seq<TouchAction>),
}

impl View for Escape {
    type V = EscapeView;

    open spec fn view(&self) -> EscapeView {
        match self {
            Escape::Pass => EscapeView::Pass,
            Escape::Counted(n) => EscapeView::Counted(*n),
            Escape::Leave(acts) => EscapeView::Leave(acts@),
        }
    }
}

/// A profile running on a real keyboard.
#[derive(Debug)]
pub struct Trial {
    engine: Engine,
    /// Keys do not reach the desktop, so neither does the terminal's way out.
    grab: bool,
    streak: u8,
}

#[verifier::ext_equal]
pub struct TrialView {
    pub engine: EngineView,
    pub grab: bool,
    pub streak: int,
}

impl View for Trial {
    type V = TrialView;

    closed spec fn view(&self) -> TrialView {
        TrialView { engine: self.engine@, grab: self.grab, streak: self.streak as int }
    }
}

impl TrialView {
    /// While grabbed, three presses of escape in a row leave. The three-times
    /// rule keeps a single escape in the game from ending the trial.
    pub open spec fn pressed(self, ev: InputEvent) -> (TrialView, EscapeView) {
        if !self.grab {
            (self, EscapeView::Pass)
        } else {
            match ev {
                InputEvent::Press(TriggerKind::Key(KEY_ESC)) => {
                    let counted = TrialView { streak: self.streak + 1, ..self };
                    if self.streak + 1 >= ESC_STREAK {
                        let (engine, acts) = self.engine.switched(false);
                        (TrialView { engine, ..counted }, EscapeView::Leave(acts))
                    } else {
                        (counted, EscapeView::Counted((self.streak + 1) as u8))
                    }
                },
                InputEvent::Press(_) => (TrialView { streak: 0, ..self }, EscapeView::Pass),
                _ => (self, EscapeView::Pass),
            }
        }
    }
}

impl Trial {
    pub closed spec fn wf(&self) -> bool {
        self.engine.wf()
    }

    pub closed spec fn running(&self) -> Engine {
        self.engine
    }

    /// What well-formedness says of the engine under trial.
    pub proof fn lemma_wf(&self)
        requires
            self.wf(),
        ensures
            self.running().wf(),
    {
    }

    pub fn new(profile: Profile, grab: bool) -> (r: Trial)
        requires
            profile.bindings.wf(),
        ensures
            r.wf(),
            r.running().profile_spec() == profile,
            r@ == (TrialView { engine: EngineView::fresh(), grab, streak: 0 }),
    {
        Trial { engine: Engine::new(profile), grab, streak: 0 }
    }

    /// The engine, to ask what it needs.
    pub fn engine(&self) -> (r: &Engine)
        ensures
            *r == self.running(),
            self.wf() ==> r.wf(),
            r@ == self@.engine,
    {
        &self.engine
    }

    /// Looks for the way out before an event reaches the engine.
    pub fn press(&mut self, ev: InputEvent) -> (r: Escape)
        requires
            old(self).wf(),
            old(self)@.streak < ESC_STREAK,
        ensures
            final(self).wf(),
            (final(self)@, r@) == old(self)@.pressed(ev),
            r !is Leave ==> final(self)@.streak < ESC_STREAK,
            final(self).running().bindings() == old(self).running().bindings(),
    {
        if !self.grab {
            return Escape::Pass;
        }
        match ev {
            InputEvent::Press(TriggerKind::Key(k)) if k == KEY_ESC => {
                self.streak = self.streak + 1;
                if self.streak >= ESC_STREAK {
                    let acts: Vec<TouchAction> = self.engine.set_enabled(false);
                    Escape::Leave(acts)
                } else {
                    Escape::Counted(self.streak)
                }
            },
            InputEvent::Press(_) => {
                self.streak = 0;
                Escape::Pass
            },
            _ => Escape::Pass,
        }
    }

    /// Time moves on. What comes out must not be dropped: the last move and the
    /// lift of a gesture may be in it.
    pub fn tick(&mut self, now_ms: u64, f: &Figures) -> (acts: Vec<TouchAction>)
        requires
            old(self).wf(),
            now_ms <= LATEST_MS,
            old(self).running().limits_ok(f.aim),
            f.swipes@.len() == old(self)@.engine.swipes.len(),
        ensures
            final(self).wf(),
            final(self).running().bindings() == old(self).running().bindings(),
            ({
                let o = old(self)@.engine.ticked(
                    old(self).running().bindings(),
                    now_ms as int,
                    *f,
                );
                final(self)@ == (TrialView { engine: o.0, ..old(self)@ }) && acts@ == o.1
            }),
    {
        self.engine.tick(now_ms, f)
    }

    /// An event reaches the engine.
    pub fn feed(&mut self, ev: InputEvent, f: &EventFigures) -> (acts: Vec<TouchAction>)
        requires
            old(self).wf(),
        ensures
            final(self).wf(),
            final(self).running().bindings() == old(self).running().bindings(),
            ({
                let o = old(self)@.engine.handled(old(self).running().bindings(), ev, *f);
                final(self)@ == (TrialView { engine: o.0, ..old(self)@ }) && acts@ == o.1
            }),
    {
        self.engine.handle(ev, f)
    }

    /// Ends the trial: every finger is lifted.
    pub fn stop(&mut self) -> (acts: Vec<TouchAction>)
        requires
            old(self).wf(),
        ensures
            final(self).wf(),
            ({
                let o = old(self)@.engine.switched(false);
                final(self)@ == (TrialView { engine: o.0, ..old(self)@ }) && acts@ == o.1
            }),
    {
        self.engine.set_enabled(false)
    }
}

/// Escape leaves on the third press in a row, with any key between starting
/// over, and whatever is on screen is lifted.
pub proof fn law_three_escapes_leave(t: TrialView, other: TriggerKind)
    requires
        t.grab,
        t.streak == 0,
        other != TriggerKind::Key(KEY_ESC),
    ensures
        ({
            let esc = InputEvent::Press(TriggerKind::Key(KEY_ESC));
            let (a, x) = t.pressed(esc);
            let (b, y) = a.pressed(esc);
            let (c, z) = b.pressed(esc);
            &&& x == EscapeView::Counted(1)
            &&& y == EscapeView::Counted(2)
            &&& z == EscapeView::Leave(t.engine.switched(false).1)
            &&& c.engine == t.engine.switched(false).0
            &&& b.pressed(InputEvent::Press(other)).0 == t
            &&& b.pressed(InputEvent::Release(other)).0 == b
        }),
{
}

/// Without a grab nothing on the keyboard ends the trial.
pub proof fn law_without_a_grab_escape_is_a_key(t: TrialView, ev: InputEvent)
    requires
        !t.grab,
    ensures
        t.pressed(ev) == (t, EscapeView::Pass),
{
}

// ---------------------------------------------------------------- words

/// What a trial prints before it starts.
pub open spec fn opening_lines(
    p: Profile,
    device: Seq<char>,
    name: Seq<char>,
    grab: bool,
    screen: (u32, u32),
) -> Seq<Seq<char>> {
    let head = seq![
        "Profil : "@ + p.name@ + " ("@ + p.package@ + ")"@,
        "Bindings: "@ + crate::text::decimal(p.bindings@.len()),
        "Cihaz  : "@ + device + " ("@ + name + ")"@,
    ];
    let held: Seq<Seq<char>> = if grab {
        seq![
            ""@,
            "!! GRAB ON: keys will NOT reach the desktop."@,
            "!! Ctrl+C therefore DOES NOT REACH THE TERMINAL."@,
            "!! ESCAPE KEY: ESC  (three times in a row)"@,
            "!! If the program dies the kernel releases the grab anyway."@,
        ]
    } else {
        seq!["Grab   : off (keys also reach the desktop; use --grab to grab)"@]
    };
    head + held + seq![
        "Ekran  : "@ + crate::text::decimal(screen.0 as nat) + "x"@ + crate::text::decimal(
            screen.1 as nat,
        ),
        "---- press keys (Ctrl+C to quit) ----"@,
    ]
}

/// What a trial prints before it starts.
pub fn opening(p: &Profile, device: &str, name: &str, grab: bool, screen: (u32, u32)) -> (r: Vec<
    String,
>)
    ensures
        crate::text::texts(r@) == opening_lines(*p, device@, name@, grab, screen),
{
    let mut out: Vec<String> = crate::say::page();
    crate::say::put(
        &mut out,
        crate::say::cat5("Profil : ", p.name.as_str(), " (", p.package.as_str(), ")"),
    );
    let n: String = crate::say::count(p.bindings.len() as u64);
    crate::say::put(&mut out, crate::say::cat2("Bindings: ", n.as_str()));
    crate::say::put(&mut out, crate::say::cat5("Cihaz  : ", device, " (", name, ")"));
    if grab {
        crate::say::say(&mut out, "");
        crate::say::say(&mut out, "!! GRAB ON: keys will NOT reach the desktop.");
        crate::say::say(&mut out, "!! Ctrl+C therefore DOES NOT REACH THE TERMINAL.");
        crate::say::say(&mut out, "!! ESCAPE KEY: ESC  (three times in a row)");
        crate::say::say(&mut out, "!! If the program dies the kernel releases the grab anyway.");
    } else {
        crate::say::say(
            &mut out,
            "Grab   : off (keys also reach the desktop; use --grab to grab)",
        );
    }
    let w: String = crate::say::count(screen.0 as u64);
    let h: String = crate::say::count(screen.1 as u64);
    crate::say::put(&mut out, crate::say::cat4("Ekran  : ", w.as_str(), "x", h.as_str()));
    crate::say::say(&mut out, "---- press keys (Ctrl+C to quit) ----");
    assert(crate::text::texts(out@) =~= opening_lines(*p, device@, name@, grab, screen));
    out
}

/// Where a touch is, in pixels and as shown in fractions.
#[derive(Debug)]
pub struct Spot {
    pub x: i32,
    pub y: i32,
    pub nx: String,
    pub ny: String,
}

pub open spec fn spot_text(s: Spot) -> Seq<char> {
    "  ("@ + crate::say::padded_left(crate::text::signed_decimal(s.x as int), 5) + ","@
        + crate::say::padded_left(crate::text::signed_decimal(s.y as int), 5) + (")   norm("@ + s.nx@
        + ","@ + s.ny@ + ")"@)
}

/// A touch in words.
pub open spec fn action_text(act: TouchAction, s: Spot) -> Seq<char> {
    match act {
        TouchAction::Down { id, .. } => "  DOWN  p"@ + crate::text::decimal(id as nat) + spot_text(
            s,
        ),
        TouchAction::Move { id, .. } => "  MOVE  p"@ + crate::text::decimal(id as nat) + spot_text(
            s,
        ),
        TouchAction::Up { id } => "  UP    p"@ + crate::text::decimal(id as nat),
    }
}

fn signed(n: i32) -> (r: String)
    ensures
        r@ == crate::text::signed_decimal(n as int),
{
    let mut s: String = String::new();
    crate::text::push_signed(&mut s, n as i64);
    proof {
        crate::text::lemma_after_nothing();
    }
    s
}

fn spot(s: &Spot) -> (r: String)
    ensures
        r@ == spot_text(*s),
{
    let x: String = signed(s.x);
    let y: String = signed(s.y);
    let x: String = crate::say::pad_left(x.as_str(), 5);
    let y: String = crate::say::pad_left(y.as_str(), 5);
    let tail: String = crate::say::cat5(")   norm(", s.nx.as_str(), ",", s.ny.as_str(), ")");
    crate::say::cat5("  (", x.as_str(), ",", y.as_str(), tail.as_str())
}

/// A touch in words. A lift has no spot.
pub fn print_action(act: &TouchAction, s: &Spot) -> (r: String)
    ensures
        r@ == action_text(*act, *s),
{
    match act {
        TouchAction::Down { id, .. } => {
            let n: String = crate::say::count(*id as u64);
            let at: String = spot(s);
            crate::say::cat3("  DOWN  p", n.as_str(), at.as_str())
        },
        TouchAction::Move { id, .. } => {
            let n: String = crate::say::count(*id as u64);
            let at: String = spot(s);
            crate::say::cat3("  MOVE  p", n.as_str(), at.as_str())
        },
        TouchAction::Up { id } => {
            let n: String = crate::say::count(*id as u64);
            crate::say::cat2("  UP    p", n.as_str())
        },
    }
}

/// A runner event in words.
pub open spec fn event_text(e: EventView) -> Seq<char> {
    match e {
        EventView::ProfileActivated { package, profile } => "["@ + package + "] profile ACTIVE: "@
            + profile,
        EventView::ProfileCleared { package } => "["@ + package + "] no profile — mapping off"@,
        EventView::OverlayPaused { package } => "\n  ⏸  "@ + package
            + " came over the game — mapping paused.\n     The mouse is free; it returns by itself when the layer closes.\n"@,
        EventView::Grabbed => "  grab taken"@,
        EventView::Ungrabbed => "  grab released"@,
        EventView::GameModeOn => "  GAME MODE ON (grab + mapping)"@,
        EventView::GameModeOff => "  game mode off (mouse free)"@,
        EventView::FocusGained => "  Waydroid odakta"@,
        EventView::FocusLost => "  Waydroid is not focused"@,
        EventView::EscapeRequested => "ESC x3 — exiting"@,
    }
}

/// A runner event in words.
pub fn event_line(e: &RunnerEvent) -> (r: String)
    ensures
        r@ == event_text(e@),
{
    match e {
        RunnerEvent::ProfileActivated { package, profile } => crate::say::cat4(
            "[",
            package.as_str(),
            "] profile ACTIVE: ",
            profile.as_str(),
        ),
        RunnerEvent::ProfileCleared { package } => crate::say::cat3(
            "[",
            package.as_str(),
            "] no profile — mapping off",
        ),
        RunnerEvent::OverlayPaused { package } => crate::say::cat3(
            "\n  ⏸  ",
            package.as_str(),
            " came over the game — mapping paused.\n     The mouse is free; it returns by itself when the layer closes.\n",
        ),
        RunnerEvent::Grabbed => "  grab taken".to_owned(),
        RunnerEvent::Ungrabbed => "  grab released".to_owned(),
        RunnerEvent::GameModeOn => "  GAME MODE ON (grab + mapping)".to_owned(),
        RunnerEvent::GameModeOff => "  game mode off (mouse free)".to_owned(),
        RunnerEvent::FocusGained => "  Waydroid odakta".to_owned(),
        RunnerEvent::FocusLost => "  Waydroid is not focused".to_owned(),
        RunnerEvent::EscapeRequested => "ESC x3 — exiting".to_owned(),
    }
}

/// The text, or a stand-in where there is none.
pub open spec fn or_else(t: Option<Seq<char>>, none: Seq<char>) -> Seq<char> {
    match t {
        Some(s) => s,
        None => none,
    }
}

/// The state of the mapper in words. `p50` and `p99` are the latencies in
/// milliseconds, as shown.
pub open spec fn status_lines(s: StateView, p50: Seq<char>, p99: Seq<char>) -> Seq<Seq<char>> {
    let head = seq![
        "Running      : "@ + (if s.running { "yes"@ } else { "no"@ }),
        "Foreground   : "@ + or_else(s.foreground, "-"@),
        "Active profile : "@ + or_else(s.active_profile, "none"@),
        "Game mode    : "@ + (if s.game_mode { "ON"@ } else { "off (mouse free)"@ }),
        "Host focus   : "@ + (if s.host_focused { "Waydroid"@ } else { "another window"@ }),
        "Grab         : "@ + (if s.grabbed { "on"@ } else { "off"@ }),
    ];
    let measured: Seq<Seq<char>> = if s.latency_p50_us > 0 || s.latency_p99_us > 0 {
        seq![
            "Latency      : p50 "@ + p50 + " ms   p99 "@ + p99 + " ms  (liwinux layer only)"@,
        ]
    } else {
        Seq::empty()
    };
    let hint: Seq<Seq<char>> = if s.running {
        Seq::empty()
    } else {
        seq![""@, "To start: liw keymap start"@]
    };
    head + measured + hint
}

fn text_or<'a>(t: &'a Option<String>, none: &'a str) -> (r: &'a str)
    ensures
        r@ == or_else(crate::text::some_text(*t), none@),
{
    match t {
        Some(s) => s.as_str(),
        None => none,
    }
}

/// The state of the mapper in words.
pub fn daemon_status(s: &RunnerState, p50: &str, p99: &str) -> (r: Vec<String>)
    ensures
        crate::text::texts(r@) == status_lines(s@, p50@, p99@),
{
    let mut out: Vec<String> = crate::say::page();
    crate::say::put(
        &mut out,
        crate::say::cat2("Running      : ", if s.running { "yes" } else { "no" }),
    );
    crate::say::put(&mut out, crate::say::cat2("Foreground   : ", text_or(&s.foreground, "-")));
    crate::say::put(
        &mut out,
        crate::say::cat2("Active profile : ", text_or(&s.active_profile, "none")),
    );
    crate::say::put(
        &mut out,
        crate::say::cat2("Game mode    : ", if s.game_mode { "ON" } else { "off (mouse free)" }),
    );
    crate::say::put(
        &mut out,
        crate::say::cat2(
            "Host focus   : ",
            if s.host_focused { "Waydroid" } else { "another window" },
        ),
    );
    crate::say::put(
        &mut out,
        crate::say::cat2("Grab         : ", if s.grabbed { "on" } else { "off" }),
    );
    if s.latency_p50_us > 0 || s.latency_p99_us > 0 {
        crate::say::put(
            &mut out,
            crate::say::cat5(
                "Latency      : p50 ",
                p50,
                " ms   p99 ",
                p99,
                " ms  (liwinux layer only)",
            ),
        );
    }
    if !s.running {
        crate::say::say(&mut out, "");
        crate::say::say(&mut out, "To start: liw keymap start");
    }
    assert(crate::text::texts(out@) =~= status_lines(s@, p50@, p99@));
    out
}

// ---------------------------------------------------------------- one touch

/// A drag is split into so many steps: a single jump is not recognised as a
/// drag, games wait for the motion between.
pub const DRAG_STEPS: u64 = 12;

/// A touch and the pause after it.
#[derive(Clone, Copy, Debug, PartialEq, Eq, Structural)]
pub struct Beat {
    pub act: TouchAction,
    pub pause_ms: u64,
}

/// A point for the backend: off-screen coordinates mean something only where
/// they are not clamped.
pub open spec fn point(x: Num, y: Num, offscreen_ok: bool) -> Norm {
    if offscreen_ok {
        Norm { x, y }
    } else {
        Norm::new_spec(x, y)
    }
}

fn point_at(x: Num, y: Num, offscreen_ok: bool) -> (r: Norm)
    ensures
        r == point(x, y, offscreen_ok),
{
    if offscreen_ok {
        Norm::unclamped(x, y)
    } else {
        Norm::new(x, y)
    }
}

/// The pause between two steps of a drag.
pub open spec fn step_pause(hold_ms: u64) -> u64 {
    if hold_ms / DRAG_STEPS < 4 {
        4
    } else {
        hold_ms / DRAG_STEPS
    }
}

/// One touch: down, held or dragged along `way`, and up.
pub open spec fn beats(
    x: Num,
    y: Num,
    way: Seq<(Num, Num)>,
    hold_ms: u64,
    offscreen_ok: bool,
) -> Seq<Beat> {
    let down = Beat {
        act: TouchAction::Down { id: 0, at: point(x, y, offscreen_ok) },
        pause_ms: if way.len() == 0 {
            hold_ms
        } else {
            0
        },
    };
    let up = Beat { act: TouchAction::Up { id: 0 }, pause_ms: 200 };
    seq![down] + way.map_values(
        |p: (Num, Num)|
            Beat {
                act: TouchAction::Move { id: 0, at: point(p.0, p.1, offscreen_ok) },
                pause_ms: step_pause(hold_ms),
            },
    ) + seq![up]
}

/// One touch. `way` holds the points of a drag, in order, and is empty for a
/// touch that stays where it is. The pause at the end is there because the last
/// events can be lost if the device disappears at once.
pub fn poke(x: Num, y: Num, way: &Vec<(Num, Num)>, hold_ms: u64, offscreen_ok: bool) -> (r: Vec<
    Beat,
>)
    ensures
        r@ == beats(x, y, way@, hold_ms, offscreen_ok),
{
    let mut out: Vec<Beat> = Vec::new();
    out.push(
        Beat {
            act: TouchAction::Down { id: 0, at: point_at(x, y, offscreen_ok) },
            pause_ms: if way.len() == 0 {
                hold_ms
            } else {
                0
            },
        },
    );
    let step_ms: u64 = if hold_ms / DRAG_STEPS < 4 {
        4
    } else {
        hold_ms / DRAG_STEPS
    };
    let ghost head = out@;
    let ghost all = way@.map_values(
        |p: (Num, Num)|
            Beat {
                act: TouchAction::Move { id: 0, at: point(p.0, p.1, offscreen_ok) },
                pause_ms: step_pause(hold_ms),
            },
    );
    let mut i: usize = 0;
    assert(head + all.take(0) =~= head);
    while i < way.len()
        invariant
            i <= way@.len(),
            step_ms == step_pause(hold_ms),
            all == way@.map_values(
                |p: (Num, Num)|
                    Beat {
                        act: TouchAction::Move { id: 0, at: point(p.0, p.1, offscreen_ok) },
                        pause_ms: step_pause(hold_ms),
                    },
            ),
            out@ == head + all.take(i as int),
        decreases way@.len() - i,
    {
        let p: (Num, Num) = way[i];
        out.push(
            Beat {
                act: TouchAction::Move { id: 0, at: point_at(p.0, p.1, offscreen_ok) },
                pause_ms: step_ms,
            },
        );
        assert(head + all.take(i + 1) =~= (head + all.take(i as int)).push(all[i as int]));
        i = i + 1;
    }
    assert(all.take(i as int) =~= all);
    out.push(Beat { act: TouchAction::Up { id: 0 }, pause_ms: 200 });
    assert(out@ =~= beats(x, y, way@, hold_ms, offscreen_ok));
    out
}

/// A touch that went down comes up again: afterwards no finger is on screen.
pub proof fn law_a_poke_lifts_its_finger(
    x: Num,
    y: Num,
    way: Seq<(Num, Num)>,
    hold_ms: u64,
    offscreen_ok: bool,
)
    ensures
        ({
            let b = beats(x, y, way, hold_ms, offscreen_ok);
            let acts = b.map_values(|t: Beat| t.act);
            &&& b.len() == way.len() + 2
            &&& acts[0] is Down
            &&& acts.last() == TouchAction::Up { id: 0 }
            &&& forall|i: int| 0 < i < acts.len() - 1 ==> (#[trigger] acts[i]) is Move
            &&& crate::touch::fingers_after(Set::empty(), acts) == Set::<u8>::empty()
        }),
{
    let b = beats(x, y, way, hold_ms, offscreen_ok);
    let acts = b.map_values(|t: Beat| t.act);
    let front = acts.drop_last();
    assert(acts =~= front.push(TouchAction::Up { id: 0 }));
    lemma_one_finger(front);
    assert(crate::touch::fingers_after(Set::empty(), acts) =~= Set::<u8>::empty());
}

proof fn lemma_one_finger(acts: Seq<TouchAction>)
    requires
        acts.len() > 0,
        acts[0] matches TouchAction::Down { id, .. } && id == 0,
        forall|i: int| 0 < i < acts.len() ==> (#[trigger] acts[i]) is Move,
    ensures
        crate::touch::fingers_after(Set::empty(), acts) == set![0u8],
    decreases acts.len(),
{
    if acts.len() > 1 {
        lemma_one_finger(acts.drop_last());
        assert(acts.last() is Move);
    } else {
        assert(acts.drop_last() =~= Seq::<TouchAction>::empty());
        assert(crate::touch::fingers_after(Set::empty(), acts.drop_last()) =~= Set::<u8>::empty());
        assert(crate::touch::fingers_after(Set::empty(), acts) =~= set![0u8]);
    }
}

/// A point of a sweep: halfway on one axis, at `t` on the other.
pub open spec fn sweep_spec(axis: char, t: Num) -> Norm {
    let half = Num { bits: HALF_BITS };
    if axis == 'y' {
        Norm::new_spec(half, t)
    } else {
        Norm::new_spec(t, half)
    }
}

/// A point of a sweep along an axis.
pub fn sweep_point(axis: char, t: Num) -> (r: Norm)
    ensures
        r == sweep_spec(axis, t),
{
    let half: Num = Num::of(HALF_BITS);
    if axis == 'y' {
        Norm::new(half, t)
    } else {
        Norm::new(t, half)
    }
}

/// What a sweep opens with.
pub open spec fn sweep_opening_lines(axis: char, count: u32, gap_ms: u64) -> Seq<Seq<char>> {
    seq![
        "Sweep: "@ + seq![axis] + " axis, "@ + crate::text::decimal(count as nat) + (" points, "@
            + crate::text::decimal(gap_ms as nat) + "ms apart"@),
        "Watch the Android screen — note which numbers appear."@,
        ""@,
    ]
}

/// What a sweep opens with.
pub fn sweep_opening(axis: char, count: u32, gap_ms: u64) -> (r: Vec<String>)
    ensures
        crate::text::texts(r@) == sweep_opening_lines(axis, count, gap_ms),
{
    let mut out: Vec<String> = crate::say::page();
    let a: String = crate::say::repeat(axis, 1);
    let n: String = crate::say::count(count as u64);
    let gap: String = crate::say::count(gap_ms);
    let tail: String = crate::say::cat3(" points, ", gap.as_str(), "ms apart");
    assert(a@ =~= seq![axis]);
    crate::say::put(
        &mut out,
        crate::say::cat5("Sweep: ", a.as_str(), " axis, ", n.as_str(), tail.as_str()),
    );
    crate::say::say(&mut out, "Watch the Android screen — note which numbers appear.");
    crate::say::say(&mut out, "");
    assert(crate::text::texts(out@) =~= sweep_opening_lines(axis, count, gap_ms));
    out
}

/// What is said of point `i` of a sweep, with its numbers as shown.
pub fn sweep_line(i: u32, axis: char, t: &str, x: &str, y: &str) -> (r: String)
    ensures
        r@ == "  #"@ + crate::say::padded(crate::text::decimal(i as nat), 2) + "  "@ + (seq![axis]
            + " = "@ + t@) + ("   ("@ + x@ + ", "@ + y@ + ")"@),
{
    let n: String = crate::say::count(i as u64);
    let n: String = crate::say::pad(n.as_str(), 2);
    let a: String = crate::say::repeat(axis, 1);
    assert(a@ =~= seq![axis]);
    let at: String = crate::say::cat3(a.as_str(), " = ", t);
    let place: String = crate::say::cat5("   (", x, ", ", y, ")");
    crate::say::cat5("  #", n.as_str(), "  ", at.as_str(), place.as_str())
}

/// While the devices are held, presses of ESC are counted and the third leaves,
/// with every finger lifted. Any other press starts the count anew and passes, and
/// releases and motion pass without touching it.
pub proof fn law_what_a_trial_makes_of_a_key(v: TrialView, ev: InputEvent)
    requires
        0 <= v.streak < 3,
    ensures
        ({
            let (w, r) = v.pressed(ev);
            let esc = v.grab && ev == InputEvent::Press(TriggerKind::Key(1));
            &&& r is Pass <==> !esc
            &&& r is Leave <==> esc && v.streak == 2
            &&& r is Counted <==> esc && v.streak < 2
            &&& r is Counted ==> r == EscapeView::Counted((v.streak + 1) as u8)
            &&& r is Leave ==> r == EscapeView::Leave(v.engine.switched(false).1) && w.engine
                == v.engine.switched(false).0
            &&& !(r is Leave) ==> w.engine == v.engine
            &&& w.grab == v.grab
            &&& esc ==> w.streak == v.streak + 1
            &&& !esc && v.grab && ev is Press ==> w.streak == 0
            &&& !esc && !(v.grab && ev is Press) ==> w.streak == v.streak
        }),
{
}

/// A point that is tried out is the one asked for, kept on the screen unless the
/// backend carries points beyond it.
pub proof fn law_a_point_tried_is_the_one_asked_for(x: Num, y: Num, offscreen_ok: bool)
    ensures
        offscreen_ok ==> point(x, y, offscreen_ok) == (Norm { x, y }),
        !offscreen_ok ==> crate::press_laws::squeezed(Norm { x, y }, point(x, y, offscreen_ok)),
{
    crate::touch::law_a_point_is_squeezed(x, y);
}

/// A poke puts the finger down at its beginning, takes it along the way in order,
/// and lifts it. Without a way it rests for the time asked; on a way that time is
/// spread over its twelve steps, of four milliseconds at least.
pub proof fn law_a_poke_goes_its_way(
    x: Num,
    y: Num,
    way: Seq<(Num, Num)>,
    hold_ms: u64,
    offscreen_ok: bool,
    k: int,
)
    requires
        0 <= k < way.len(),
    ensures
        ({
            let b = beats(x, y, way, hold_ms, offscreen_ok);
            let pause = b[k + 1].pause_ms;
            &&& b.len() == way.len() + 2
            &&& b[0].act == (TouchAction::Down { id: 0, at: point(x, y, offscreen_ok) })
            &&& b[0].pause_ms == 0
            &&& b[k + 1].act == (TouchAction::Move {
                id: 0,
                at: point(way[k].0, way[k].1, offscreen_ok),
            })
            &&& b.last().act == (TouchAction::Up { id: 0 })
            &&& pause >= 4
            &&& hold_ms >= 48 ==> 12 * pause <= hold_ms < 12 * (pause + 1)
            &&& hold_ms < 48 ==> pause == 4
        }),
        ({
            let b = beats(x, y, Seq::empty(), hold_ms, offscreen_ok);
            &&& b.len() == 2
            &&& b[0].act == (TouchAction::Down { id: 0, at: point(x, y, offscreen_ok) })
            &&& b[0].pause_ms == hold_ms
            &&& b[1].act == (TouchAction::Up { id: 0 })
        }),
{
}

/// A sweep goes along the axis asked for, through the middle of the other.
pub proof fn law_a_sweep_goes_along_its_axis(axis: char, t: Num)
    ensures
        ({
            let p = sweep_spec(axis, t);
            let half = Num { bits: 0x3f00_0000 };
            &&& axis == 'y' ==> crate::press_laws::held_in(t, p.y) && p.x == half
            &&& axis != 'y' ==> crate::press_laws::held_in(t, p.x) && p.y == half
        }),
{
    let half = Num { bits: 0x3f00_0000 };
    crate::touch::law_a_point_is_squeezed(half, t);
    crate::touch::law_a_point_is_squeezed(t, half);
    crate::num::lemma_magnitude_order(0, 0x3f00_0000);
    crate::num::lemma_magnitude_order(0x3f00_0000, 0x3f80_0000);
}

/// What a finger does is told with its number; where it goes is told unless it lifts.
pub proof fn law_an_action_is_told_with_its_finger(act: TouchAction, s: Spot)
    ensures
        match act {
            TouchAction::Down { id, .. } => crate::text::opens_with(
                action_text(act, s),
                "  DOWN  p"@ + crate::text::decimal(id as nat),
            ) && crate::text::closes_with(action_text(act, s), s.nx@ + ","@ + s.ny@ + ")"@),
            TouchAction::Move { id, .. } => crate::text::opens_with(
                action_text(act, s),
                "  MOVE  p"@ + crate::text::decimal(id as nat),
            ) && crate::text::closes_with(action_text(act, s), s.nx@ + ","@ + s.ny@ + ")"@),
            TouchAction::Up { id } => action_text(act, s) == "  UP    p"@ + crate::text::decimal(
                id as nat,
            ),
        },
{
    let t = spot_text(s);
    let end = s.nx@ + ","@ + s.ny@ + ")"@;
    let front = "  ("@ + crate::say::padded_left(crate::text::signed_decimal(s.x as int), 5) + ","@
        + crate::say::padded_left(crate::text::signed_decimal(s.y as int), 5) + ")   norm("@;
    assert(t =~= front + end);
    let head = match act {
        TouchAction::Down { id, .. } => "  DOWN  p"@ + crate::text::decimal(id as nat),
        TouchAction::Move { id, .. } => "  MOVE  p"@ + crate::text::decimal(id as nat),
        TouchAction::Up { id } => "  UP    p"@ + crate::text::decimal(id as nat),
    };
    if !(act is Up) {
        let l = action_text(act, s);
        assert(l == head + (front + end));
        assert(l.subrange(0, head.len() as int) =~= head);
        let k = l.len() - end.len();
        assert(l.subrange(k, k + end.len()) =~= end);
    }
}

} // verus!
