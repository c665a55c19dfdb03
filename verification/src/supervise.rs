//! Supervising the Android session.
//!
//! Each health tick decides what the daemon does: a single dip does not restart
//! anything, a run of them does, and after a few recoveries a person has to
//! look. The window is looked at rarely, and only where there is something to
//! reset.

use crate::runner::{EventView, RunnerEvent, RunnerState, StateView};
use vstd::prelude::*;
use vstd::string::*;

verus! {

/// How often, in health ticks, the window is polled.
pub const WINDOW_POLL_EVERY: u32 = 6;

/// How often, in ticks, the kernel's module tree is checked.
pub const KERNEL_CHECK_EVERY: u32 = 60;

/// How the session is.
#[derive(Clone, Copy, Debug, PartialEq, Eq, Structural)]
pub enum SessionState {
    Stopped,
    Running,
    Degraded,
    Recovering,
}

/// When to step in.
#[derive(Clone, Copy, Debug, PartialEq, Eq, Structural)]
pub struct Limits {
    pub auto_recover: bool,
    /// Bad ticks in a row before a recovery.
    pub unhealthy_threshold: u32,
    pub max_recovery_attempts: u32,
}

/// What one tick sees.
#[derive(Clone, Copy, Debug, PartialEq, Eq, Structural)]
pub struct Pulse {
    pub session_running: bool,
    pub healthy: bool,
    /// The measured health differs from the one last announced.
    pub health_changed: bool,
    /// Fullscreen was attempted in this session.
    pub fullscreen_attempted: bool,
    /// The configuration asks for fullscreen.
    pub fullscreen_on_start: bool,
}

/// What the daemon does.
#[derive(Clone, Copy, Debug, PartialEq, Eq, Structural)]
pub enum Duty {
    /// Check the kernel's module tree.
    CheckKernel,
    /// Announce the new health.
    AnnounceHealth,
    /// The session went down: forget the window.
    ResetWindow,
    /// Say that the session recovered.
    SayRecovered,
    /// Ask for the window's state and note if it is gone.
    PollWindow,
    /// Make the window fullscreen.
    GoFullscreen,
    /// Say that the session is unhealthy, for the `strike`th time.
    SayUnhealthy { strike: u32 },
    /// Announce the session's state.
    Announce(SessionState),
    /// Recover the session, for the `attempt`th time.
    Recover { attempt: u32 },
    /// Say that recovery is exhausted and a person is needed.
    SayExhausted,
}

/// The supervision loop between two ticks.
#[derive(Clone, Copy, Debug, PartialEq, Eq, Structural)]
pub struct Watchdog {
    pub unhealthy: u32,
    pub attempts: u32,
    pub was_running: bool,
    pub win_tick: u32,
    pub kern_tick: u32,
    pub state: SessionState,
}

impl Default for Watchdog {
    fn default() -> (r: Watchdog)
        ensures
            r == Watchdog::fresh(),
    {
        Watchdog {
            unhealthy: 0,
            attempts: 0,
            was_running: false,
            win_tick: 0,
            kern_tick: 0,
            state: SessionState::Stopped,
        }
    }
}

/// A counter that starts over at its end.
pub open spec fn next_tick(n: u32) -> u32 {
    if n == u32::MAX {
        0
    } else {
        (n + 1) as u32
    }
}

/// One duty, if it is due.
pub open spec fn when(due: bool, d: Duty) -> Seq<Duty> {
    if due {
        seq![d]
    } else {
        Seq::empty()
    }
}

impl Watchdog {
    pub open spec fn fresh() -> Watchdog {
        Watchdog {
            unhealthy: 0,
            attempts: 0,
            was_running: false,
            win_tick: 0,
            kern_tick: 0,
            state: SessionState::Stopped,
        }
    }

    /// The window is due for a look: rarely, and only if fullscreen was
    /// attempted; if it was not, there is nothing to reset.
    pub open spec fn polls_window(self, p: Pulse) -> bool {
        self.was_running && next_tick(self.win_tick) % WINDOW_POLL_EVERY == 0
            && p.fullscreen_attempted
    }

    /// What the health of one tick leads to: the state that follows, before it
    /// is announced, and the duties.
    #[verifier::opaque]
    pub open spec fn judged(self, p: Pulse) -> (Watchdog, SessionState, Seq<Duty>) {
        if !p.session_running {
            (
                Watchdog { unhealthy: 0, attempts: 0, was_running: false, ..self },
                SessionState::Stopped,
                when(self.was_running, Duty::ResetWindow),
            )
        } else if p.healthy {
            (
                Watchdog {
                    unhealthy: 0,
                    attempts: 0,
                    was_running: true,
                    win_tick: next_tick(self.win_tick),
                    ..self
                },
                SessionState::Running,
                when(self.unhealthy > 0, Duty::SayRecovered) + when(
                    self.polls_window(p),
                    Duty::PollWindow,
                ) + when(!self.was_running && p.fullscreen_on_start, Duty::GoFullscreen),
            )
        } else {
            (
                Watchdog { unhealthy: (self.unhealthy + 1) as u32, ..self },
                SessionState::Degraded,
                seq![Duty::SayUnhealthy { strike: (self.unhealthy + 1) as u32 }],
            )
        }
    }

    /// The recovery step: a run of bad ticks is answered, a limited number of
    /// times.
    #[verifier::opaque]
    pub open spec fn mended(self, l: Limits) -> (Watchdog, Seq<Duty>) {
        if l.auto_recover && self.unhealthy >= l.unhealthy_threshold && self.attempts
            < l.max_recovery_attempts {
            let attempt = (self.attempts + 1) as u32;
            (
                Watchdog {
                    attempts: attempt,
                    unhealthy: 0,
                    state: SessionState::Recovering,
                    ..self
                },
                seq![Duty::Announce(SessionState::Recovering), Duty::Recover { attempt }],
            )
        } else {
            (
                self,
                when(
                    self.attempts >= l.max_recovery_attempts && self.unhealthy > 0,
                    Duty::SayExhausted,
                ),
            )
        }
    }

    /// One tick.
    pub open spec fn ticked(self, p: Pulse, l: Limits) -> (Watchdog, Seq<Duty>) {
        let kernel = when(self.kern_tick % KERNEL_CHECK_EVERY == 0, Duty::CheckKernel);
        let counted = Watchdog { kern_tick: next_tick(self.kern_tick), ..self };
        let (judged, next, duties) = counted.judged(p);
        let announced = Watchdog { state: next, ..judged };
        let (mended, more) = announced.mended(l);
        (
            mended,
            kernel + when(p.health_changed, Duty::AnnounceHealth) + duties + when(
                judged.state != next,
                Duty::Announce(next),
            ) + more,
        )
    }

    fn step(n: u32) -> (r: u32)
        ensures
            r == next_tick(n),
    {
        if n == u32::MAX {
            0
        } else {
            n + 1
        }
    }

    fn judge(&mut self, p: Pulse, out: &mut Vec<Duty>) -> (next: SessionState)
        requires
            old(self).unhealthy < u32::MAX,
        ensures
            *final(self) == old(self).judged(p).0,
            next == old(self).judged(p).1,
            final(out)@ == old(out)@ + old(self).judged(p).2,
    {
        reveal(Watchdog::judged);
        let ghost head = out@;
        let ghost was = *self;
        if !p.session_running {
            self.unhealthy = 0;
            self.attempts = 0;
            if self.was_running {
                out.push(Duty::ResetWindow);
            }
            self.was_running = false;
            assert(out@ =~= head + was.judged(p).2);
            SessionState::Stopped
        } else if p.healthy {
            if self.unhealthy > 0 {
                out.push(Duty::SayRecovered);
            }
            self.unhealthy = 0;
            self.attempts = 0;
            self.win_tick = Watchdog::step(self.win_tick);
            if self.was_running && self.win_tick % WINDOW_POLL_EVERY == 0
                && p.fullscreen_attempted {
                out.push(Duty::PollWindow);
            }
            if !self.was_running && p.fullscreen_on_start {
                out.push(Duty::GoFullscreen);
            }
            self.was_running = true;
            assert(out@ =~= head + was.judged(p).2);
            SessionState::Running
        } else {
            self.unhealthy = self.unhealthy + 1;
            out.push(Duty::SayUnhealthy { strike: self.unhealthy });
            assert(out@ =~= head + was.judged(p).2);
            SessionState::Degraded
        }
    }

    fn mend(&mut self, l: Limits, out: &mut Vec<Duty>)
        ensures
            *final(self) == old(self).mended(l).0,
            final(out)@ == old(out)@ + old(self).mended(l).1,
    {
        reveal(Watchdog::mended);
        let ghost head = out@;
        let ghost was = *self;
        if l.auto_recover && self.unhealthy >= l.unhealthy_threshold && self.attempts
            < l.max_recovery_attempts {
            self.attempts = self.attempts + 1;
            self.state = SessionState::Recovering;
            out.push(Duty::Announce(SessionState::Recovering));
            out.push(Duty::Recover { attempt: self.attempts });
            self.unhealthy = 0;
        } else if self.attempts >= l.max_recovery_attempts && self.unhealthy > 0 {
            out.push(Duty::SayExhausted);
        }
        assert(out@ =~= head + was.mended(l).1);
    }

    /// One tick of the supervision loop.
    pub fn tick(&mut self, p: Pulse, l: Limits) -> (r: Vec<Duty>)
        requires
            old(self).unhealthy < u32::MAX,
        ensures
            (*final(self), r@) == old(self).ticked(p, l),
    {
        let mut out: Vec<Duty> = Vec::new();
        let ghost was = *self;
        if self.kern_tick % KERNEL_CHECK_EVERY == 0 {
            out.push(Duty::CheckKernel);
        }
        self.kern_tick = Watchdog::step(self.kern_tick);
        if p.health_changed {
            out.push(Duty::AnnounceHealth);
        }
        let ghost head = when(was.kern_tick % KERNEL_CHECK_EVERY == 0, Duty::CheckKernel) + when(
            p.health_changed,
            Duty::AnnounceHealth,
        );
        assert(out@ =~= head);
        let ghost counted = *self;
        let next: SessionState = self.judge(p, &mut out);
        let ghost judged = *self;
        let ghost told = out@;
        if self.state != next {
            self.state = next;
            out.push(Duty::Announce(next));
        }
        assert(out@ =~= told + when(judged.state != next, Duty::Announce(next)));
        self.mend(l, &mut out);
        out
    }
}

// ---------------------------------------------------------------- kernel

/// What is said about the kernel's modules. Changes are reported, not the
/// state, so a healthy machine stays quiet.
#[derive(Clone, Copy, Debug, PartialEq, Eq, Structural)]
pub enum KernelNote {
    Quiet,
    /// An update removed the running kernel's modules.
    Removed,
    InPlace,
}

pub open spec fn kernel_spec(stale: bool, changed: Option<bool>) -> KernelNote {
    match (stale, changed) {
        (true, Some(true)) => KernelNote::Removed,
        (_, Some(false)) => KernelNote::InPlace,
        _ => KernelNote::Quiet,
    }
}

pub fn kernel_note(stale: bool, changed: Option<bool>) -> (r: KernelNote)
    ensures
        r == kernel_spec(stale, changed),
{
    match (stale, changed) {
        (true, Some(true)) => KernelNote::Removed,
        (_, Some(false)) => KernelNote::InPlace,
        _ => KernelNote::Quiet,
    }
}

// ---------------------------------------------------------------- start

/// Whether the mapper starts with the daemon.
#[derive(Clone, Copy, Debug, PartialEq, Eq, Structural)]
pub enum Autostart {
    Disabled,
    /// No keyboard is configured. Passing over that silently would leave the
    /// user with input that does not work and no word about it.
    NoKeyboard,
    Start,
}

pub open spec fn autostart_spec(on_start: bool, keyboard_set: bool) -> Autostart {
    if !on_start {
        Autostart::Disabled
    } else if !keyboard_set {
        Autostart::NoKeyboard
    } else {
        Autostart::Start
    }
}

pub fn autostart(on_start: bool, keyboard_set: bool) -> (r: Autostart)
    ensures
        r == autostart_spec(on_start, keyboard_set),
{
    if !on_start {
        Autostart::Disabled
    } else if !keyboard_set {
        Autostart::NoKeyboard
    } else {
        Autostart::Start
    }
}

/// Whether the daemon still owns its name on the bus. An unreachable daemon can
/// still grab devices, so losing the name means exiting.
pub fn still_owner(owner: Option<&str>, own: Option<&str>) -> (r: bool)
    ensures
        r == (owner is Some && own is Some && owner->0@ == own->0@),
{
    match (owner, own) {
        (Some(a), Some(b)) => crate::text::same(a, b),
        _ => false,
    }
}

// ---------------------------------------------------------------- requests

/// Why a request is refused.
#[derive(Debug)]
pub enum Refusal {
    /// The request makes no sense.
    Invalid(String),
    /// It needs a running session.
    NoSession(String),
}

/// A refusal as plain text.
pub enum RefusalView {
    Invalid(Seq<char>),
    NoSession(Seq<char>),
}

impl View for Refusal {
    type V = RefusalView;

    open spec fn view(&self) -> RefusalView {
        match self {
            Refusal::Invalid(t) => RefusalView::Invalid(t@),
            Refusal::NoSession(t) => RefusalView::NoSession(t@),
        }
    }
}

/// The answer to a request, with its refusal as plain text.
pub open spec fn answer_of(r: Result<(), Refusal>) -> Option<RefusalView> {
    match r {
        Ok(_) => None,
        Err(e) => Some(e@),
    }
}

/// Whether a request about an app is refused: the name comes first, then the
/// session. `quoted` is the package in quotes, `doing` what needs the session.
pub open spec fn app_refusal(
    quoted: Seq<char>,
    valid: bool,
    session_running: bool,
    doing: Seq<char>,
) -> Option<RefusalView> {
    if !valid {
        Some(RefusalView::Invalid("not a package name: "@ + quoted))
    } else if !session_running {
        Some(RefusalView::NoSession("the session is stopped — start it before "@ + doing))
    } else {
        None
    }
}

/// Whether a request about an app can go ahead. Refusing early gives the client
/// something to act on; the tool's own failure says nothing about what to do.
pub fn app_request(quoted: &str, valid: bool, session_running: bool, doing: &str) -> (r: Result<
    (),
    Refusal,
>)
    ensures
        answer_of(r) == app_refusal(quoted@, valid, session_running, doing@),
{
    if !valid {
        return Err(Refusal::Invalid(crate::say::cat2("not a package name: ", quoted)));
    }
    if !session_running {
        return Err(
            Refusal::NoSession(
                crate::say::cat2("the session is stopped — start it before ", doing),
            ),
        );
    }
    Ok(())
}

/// The part of a path behind its last slash.
pub open spec fn file_name(path: Seq<char>) -> Seq<char> {
    match crate::store::last_slash(path, path.len() as int) {
        Some(k) => path.skip(k + 1),
        None => path,
    }
}

/// A file is a package file: something, a dot, and `apk` in any case.
pub open spec fn package_file(path: Seq<char>) -> bool {
    let n = file_name(path);
    n.len() > 4 && crate::text::lower(n.skip(n.len() - 4)) == ".apk"@
}

/// Whether the path names a package file.
pub fn is_package_file(path: &str) -> (r: bool)
    ensures
        r == package_file(path@),
{
    let cs: Vec<char> = crate::text::chars_of(path);
    let mut k: usize = cs.len();
    while k > 0 && cs[k - 1] != '/'
        invariant
            cs@ == path@,
            k <= cs@.len(),
            crate::store::last_slash(path@, path@.len() as int) == crate::store::last_slash(
                path@,
                k as int,
            ),
        decreases k,
    {
        k = k - 1;
    }
    assert(file_name(path@) =~= path@.skip(k as int));
    let n: usize = cs.len() - k;
    if n <= 4 {
        return false;
    }
    let ext: String = crate::text::string_of(&cs, cs.len() - 4, cs.len());
    assert(ext@ =~= file_name(path@).skip(n - 4));
    let low: Vec<char> = crate::text::lower_chars(ext.as_str());
    let want: Vec<char> = crate::text::chars_of(".apk");
    proof {
        reveal_strlit(".apk");
        assert(low@.subrange(0, 4) =~= low@);
    }
    crate::text::is_at(&low, &want, 0)
}

/// Whether an installation is refused.
pub open spec fn install_refusal(
    path: Seq<char>,
    is_file: bool,
    session_running: bool,
) -> Option<RefusalView> {
    if !is_file {
        Some(RefusalView::Invalid("no such file: "@ + path))
    } else if !package_file(path) {
        Some(RefusalView::Invalid("not an .apk"@))
    } else if !session_running {
        Some(
            RefusalView::NoSession(
                "the session is stopped — start it before installing"@,
            ),
        )
    } else {
        None
    }
}

/// Whether an installation can go ahead. The path comes from the caller, so it
/// is checked rather than trusted.
pub fn install_request(path: &str, is_file: bool, session_running: bool) -> (r: Result<(), Refusal>)
    ensures
        answer_of(r) == install_refusal(path@, is_file, session_running),
{
    if !is_file {
        return Err(Refusal::Invalid(crate::say::cat2("no such file: ", path)));
    }
    if !is_package_file(path) {
        return Err(Refusal::Invalid("not an .apk".to_owned()));
    }
    if !session_running {
        return Err(
            Refusal::NoSession("the session is stopped — start it before installing".to_owned()),
        );
    }
    Ok(())
}

/// The display name a session is pointed at: nothing for an empty one, which
/// restores the default.
pub fn embedded_display(name: &str) -> (r: Option<String>)
    ensures
        crate::text::some_text(r) == (if crate::words::trimmed(name@).len() == 0 {
            None
        } else {
            Some(crate::words::trimmed(name@))
        }),
{
    let t: String = crate::words::trim(name);
    if t.as_str().unicode_len() == 0 {
        None
    } else {
        Some(t)
    }
}

// ---------------------------------------------------------------- signals

/// What goes out on the bus for an event: its kind and its detail.
pub open spec fn signal_spec(e: EventView) -> (Seq<char>, Seq<char>) {
    match e {
        EventView::ProfileActivated { package, profile } => (
            "profile-activated"@,
            package + "\t"@ + profile,
        ),
        EventView::ProfileCleared { package } => ("profile-cleared"@, package),
        EventView::OverlayPaused { package } => ("overlay-paused"@, package),
        EventView::Grabbed => ("grabbed"@, ""@),
        EventView::Ungrabbed => ("ungrabbed"@, ""@),
        EventView::GameModeOn => ("game-mode-on"@, ""@),
        EventView::GameModeOff => ("game-mode-off"@, ""@),
        EventView::FocusGained => ("focus-gained"@, ""@),
        EventView::FocusLost => ("focus-lost"@, ""@),
        EventView::EscapeRequested => ("escape-requested"@, ""@),
    }
}

/// What goes out on the bus for an event: its kind and its detail.
pub fn signal_of(e: &RunnerEvent) -> (r: (&'static str, String))
    ensures
        (r.0@, r.1@) == signal_spec(e@),
{
    match e {
        RunnerEvent::ProfileActivated { package, profile } => (
            "profile-activated",
            crate::say::cat3(package.as_str(), "\t", profile.as_str()),
        ),
        RunnerEvent::ProfileCleared { package } => ("profile-cleared", package.clone()),
        RunnerEvent::OverlayPaused { package } => ("overlay-paused", package.clone()),
        RunnerEvent::Grabbed => ("grabbed", "".to_owned()),
        RunnerEvent::Ungrabbed => ("ungrabbed", "".to_owned()),
        RunnerEvent::GameModeOn => ("game-mode-on", "".to_owned()),
        RunnerEvent::GameModeOff => ("game-mode-off", "".to_owned()),
        RunnerEvent::FocusGained => ("focus-gained", "".to_owned()),
        RunnerEvent::FocusLost => ("focus-lost", "".to_owned()),
        RunnerEvent::EscapeRequested => ("escape-requested", "".to_owned()),
    }
}

/// A property of the mapper that clients watch.
#[derive(Clone, Copy, Debug, PartialEq, Eq, Structural)]
pub enum Property {
    Running,
    GameMode,
    Grabbed,
    HostFocused,
    ActiveProfile,
    Foreground,
}

/// One property, if it changed.
pub open spec fn if_changed(changed: bool, p: Property) -> Seq<Property> {
    if changed {
        seq![p]
    } else {
        Seq::empty()
    }
}

/// The properties that differ.
pub open spec fn changes_spec(a: StateView, b: StateView) -> Seq<Property> {
    if_changed(a.running != b.running, Property::Running) + if_changed(
        a.game_mode != b.game_mode,
        Property::GameMode,
    ) + if_changed(a.grabbed != b.grabbed, Property::Grabbed) + if_changed(
        a.host_focused != b.host_focused,
        Property::HostFocused,
    ) + if_changed(a.active_profile != b.active_profile, Property::ActiveProfile) + if_changed(
        a.foreground != b.foreground,
        Property::Foreground,
    )
}

/// The properties to announce: only what changed, or a client would redraw
/// constantly during normal play.
pub fn changes(last: &RunnerState, now: &RunnerState) -> (r: Vec<Property>)
    ensures
        r@ == changes_spec(last@, now@),
{
    let mut out: Vec<Property> = Vec::new();
    if now.running != last.running {
        out.push(Property::Running);
    }
    if now.game_mode != last.game_mode {
        out.push(Property::GameMode);
    }
    if now.grabbed != last.grabbed {
        out.push(Property::Grabbed);
    }
    if now.host_focused != last.host_focused {
        out.push(Property::HostFocused);
    }
    if !crate::text::same_option(&now.active_profile, &last.active_profile) {
        out.push(Property::ActiveProfile);
    }
    if !crate::text::same_option(&now.foreground, &last.foreground) {
        out.push(Property::Foreground);
    }
    assert(out@ =~= changes_spec(last@, now@));
    out
}

// ---------------------------------------------------------------- laws

/// Judging the health never recovers by itself.
proof fn lemma_judging(w: Watchdog, p: Pulse)
    ensures
        forall|i: int|
            0 <= i < w.judged(p).2.len() ==> (#[trigger] w.judged(p).2[i]) !is Recover,
        w.judged(p).0.attempts <= w.attempts,
        w.unhealthy < u32::MAX ==> w.judged(p).0.unhealthy <= w.unhealthy + 1,
{
    reveal(Watchdog::judged);
    let first = when(w.unhealthy > 0, Duty::SayRecovered);
    let second = when(w.polls_window(p), Duty::PollWindow);
    let third = when(!w.was_running && p.fullscreen_on_start, Duty::GoFullscreen);
    let all = w.judged(p).2;
    assert forall|i: int| 0 <= i < all.len() implies (#[trigger] all[i]) !is Recover by {
        if p.session_running && p.healthy {
            if i < first.len() {
                assert(all[i] == first[i]);
            } else if i < first.len() + second.len() {
                assert(all[i] == second[i - first.len()]);
            } else {
                assert(all[i] == third[i - first.len() - second.len()]);
            }
        }
    }
}

/// A single dip never restarts the session, and no run of dips restarts it more
/// often than allowed.
pub proof fn law_recovery_is_rationed(w: Watchdog, p: Pulse, l: Limits, attempt: u32)
    requires
        w.unhealthy < u32::MAX,
        w.attempts <= l.max_recovery_attempts,
    ensures
        w.ticked(p, l).0.attempts <= l.max_recovery_attempts,
        w.ticked(p, l).1.contains(Duty::Recover { attempt }) ==> {
            &&& attempt <= l.max_recovery_attempts
            &&& l.auto_recover
            &&& w.unhealthy + 1 >= l.unhealthy_threshold
        },
{
    let kernel = when(w.kern_tick % KERNEL_CHECK_EVERY == 0, Duty::CheckKernel);
    let health = when(p.health_changed, Duty::AnnounceHealth);
    let counted = Watchdog { kern_tick: next_tick(w.kern_tick), ..w };
    lemma_judging(counted, p);
    let (judged, next, duties) = counted.judged(p);
    let told = when(judged.state != next, Duty::Announce(next));
    let announced = Watchdog { state: next, ..judged };
    let (mended, more) = announced.mended(l);
    reveal(Watchdog::mended);
    let r = Duty::Recover { attempt };
    let all = w.ticked(p, l).1;
    assert(all == kernel + health + duties + told + more);
    if all.contains(r) {
        let i = choose|i: int| 0 <= i < all.len() && all[i] == r;
        let a = kernel.len();
        let b = a + health.len();
        let c = b + duties.len();
        let d = c + told.len();
        if i < a {
            assert(all[i] == kernel[i]);
        } else if i < b {
            assert(all[i] == health[i - a]);
        } else if i < c {
            assert(all[i] == duties[i - b]);
        } else if i < d {
            assert(all[i] == told[i - c]);
        } else {
            assert(all[i] == more[i - d]);
        }
    }
}

/// A session that is down or healthy clears the record of failures.
pub proof fn law_health_clears_the_record(w: Watchdog, p: Pulse, l: Limits)
    requires
        !p.session_running || p.healthy,
        l.unhealthy_threshold > 0,
    ensures
        w.ticked(p, l).0.unhealthy == 0,
        w.ticked(p, l).0.attempts == 0,
        w.ticked(p, l).0.state == (if p.session_running {
            SessionState::Running
        } else {
            SessionState::Stopped
        }),
{
    reveal(Watchdog::judged);
    reveal(Watchdog::mended);
}

/// Nothing is announced that did not change.
pub proof fn law_only_changes_are_announced(w: Watchdog, p: Pulse, l: Limits)
    requires
        p.session_running,
        p.healthy,
        w.state == SessionState::Running,
        w.was_running,
        w.unhealthy == 0,
        !p.health_changed,
        !p.fullscreen_attempted,
        w.kern_tick % KERNEL_CHECK_EVERY != 0,
        l.unhealthy_threshold > 0,
        l.max_recovery_attempts > 0,
    ensures
        w.ticked(p, l).1 == Seq::<Duty>::empty(),
{
    reveal(Watchdog::judged);
    reveal(Watchdog::mended);
    assert(w.ticked(p, l).1 =~= Seq::<Duty>::empty());
}

/// A state compared with itself announces nothing.
pub proof fn law_an_unchanged_state_is_silent(s: StateView)
    ensures
        changes_spec(s, s) == Seq::<Property>::empty(),
{
}

/// The bad ticks in a row with this one counted.
pub open spec fn strikes(w: Watchdog, p: Pulse) -> int {
    if p.session_running && !p.healthy {
        w.unhealthy + 1
    } else {
        0
    }
}

/// The recoveries tried since the session was last up or down.
pub open spec fn tries(w: Watchdog, p: Pulse) -> int {
    if p.session_running && !p.healthy {
        w.attempts as int
    } else {
        0
    }
}

/// A recovery is due: it is wanted, there were enough bad ticks in a row, and not
/// too many recoveries yet.
pub open spec fn recovers(w: Watchdog, p: Pulse, l: Limits) -> bool {
    l.auto_recover && strikes(w, p) >= l.unhealthy_threshold && tries(w, p)
        < l.max_recovery_attempts
}

/// What a tick finds the session to be.
pub open spec fn found(p: Pulse) -> SessionState {
    if !p.session_running {
        SessionState::Stopped
    } else if p.healthy {
        SessionState::Running
    } else {
        SessionState::Degraded
    }
}

/// When each duty is owed in a tick.
pub open spec fn owed(w: Watchdog, p: Pulse, l: Limits, d: Duty) -> bool {
    let up = p.session_running && p.healthy;
    match d {
        Duty::CheckKernel => w.kern_tick % 60 == 0,
        Duty::AnnounceHealth => p.health_changed,
        Duty::ResetWindow => !p.session_running && w.was_running,
        Duty::SayRecovered => up && w.unhealthy > 0,
        Duty::PollWindow => up && w.was_running && p.fullscreen_attempted && (if w.win_tick
            == u32::MAX {
            true
        } else {
            (w.win_tick + 1) % 6 == 0
        }),
        Duty::GoFullscreen => up && !w.was_running && p.fullscreen_on_start,
        Duty::SayUnhealthy { strike } => p.session_running && !p.healthy && strike == w.unhealthy + 1,
        Duty::Announce(s) => (s == found(p) && s != w.state) || (s == SessionState::Recovering
            && recovers(w, p, l)),
        Duty::Recover { attempt } => recovers(w, p, l) && attempt == tries(w, p) + 1,
        Duty::SayExhausted => tries(w, p) >= l.max_recovery_attempts && strikes(w, p) > 0,
    }
}

/// One if so, else nothing.
pub open spec fn one_if(b: bool) -> int {
    if b {
        1
    } else {
        0
    }
}

/// A tick asks for exactly the duties that are owed, each once. So the window is
/// made fullscreen only where a healthy session has just come up and the
/// configuration asks for it; it is looked at only where fullscreen was tried; and
/// the state is announced only where it changed.
pub proof fn law_a_tick_asks_for_what_is_owed(w: Watchdog, p: Pulse, l: Limits, d: Duty)
    requires
        w.unhealthy < u32::MAX,
    ensures
        w.ticked(p, l).1.contains(d) <==> owed(w, p, l, d),
        w.ticked(p, l).1.len() == one_if(owed(w, p, l, Duty::CheckKernel)) + one_if(
            owed(w, p, l, Duty::AnnounceHealth),
        ) + one_if(owed(w, p, l, Duty::ResetWindow)) + one_if(owed(w, p, l, Duty::SayRecovered))
            + one_if(owed(w, p, l, Duty::PollWindow)) + one_if(owed(w, p, l, Duty::GoFullscreen))
            + one_if(p.session_running && !p.healthy) + one_if(found(p) != w.state) + 2 * one_if(
            recovers(w, p, l),
        ) + one_if(owed(w, p, l, Duty::SayExhausted)),
{
    let kernel = when(w.kern_tick % KERNEL_CHECK_EVERY == 0, Duty::CheckKernel);
    let health = when(p.health_changed, Duty::AnnounceHealth);
    let counted = Watchdog { kern_tick: next_tick(w.kern_tick), ..w };
    let (judged, next, duties) = counted.judged(p);
    let told = when(judged.state != next, Duty::Announce(next));
    let announced = Watchdog { state: next, ..judged };
    let (mended, more) = announced.mended(l);
    lemma_judged_owes(counted, p, d);
    lemma_mended_owes(announced, l, d);
    lemma_among(kernel, health, d);
    lemma_among(kernel + health, duties, d);
    lemma_among(kernel + health + duties, told, d);
    lemma_among(kernel + health + duties + told, more, d);
    lemma_due(w.kern_tick % KERNEL_CHECK_EVERY == 0, Duty::CheckKernel, d);
    lemma_due(p.health_changed, Duty::AnnounceHealth, d);
    lemma_due(judged.state != next, Duty::Announce(next), d);
    assert(w.ticked(p, l).1 == kernel + health + duties + told + more);
}

/// What judging the health asks for.
proof fn lemma_judged_owes(w: Watchdog, p: Pulse, d: Duty)
    requires
        w.unhealthy < u32::MAX,
    ensures
        ({
            let (judged, next, duties) = w.judged(p);
            let up = p.session_running && p.healthy;
            let poll = up && w.was_running && p.fullscreen_attempted && (if w.win_tick == u32::MAX {
                true
            } else {
                (w.win_tick + 1) % 6 == 0
            });
            let full = up && !w.was_running && p.fullscreen_on_start;
            &&& next == found(p)
            &&& judged.unhealthy == strikes(w, p)
            &&& judged.attempts == tries(w, p)
            &&& judged.state == w.state
            &&& duties.contains(d) <==> match d {
                Duty::ResetWindow => !p.session_running && w.was_running,
                Duty::SayRecovered => up && w.unhealthy > 0,
                Duty::PollWindow => poll,
                Duty::GoFullscreen => full,
                Duty::SayUnhealthy { strike } => p.session_running && !p.healthy && strike
                    == w.unhealthy + 1,
                _ => false,
            }
            &&& duties.len() == one_if(!p.session_running && w.was_running) + one_if(
                up && w.unhealthy > 0,
            ) + one_if(poll) + one_if(full) + one_if(p.session_running && !p.healthy)
        }),
{
    reveal(Watchdog::judged);
    let duties = w.judged(p).2;
    if !p.session_running {
        lemma_due(w.was_running, Duty::ResetWindow, d);
    } else if p.healthy {
        let full = !w.was_running && p.fullscreen_on_start;
        let a = when(w.unhealthy > 0, Duty::SayRecovered);
        let b = when(w.polls_window(p), Duty::PollWindow);
        let c = when(full, Duty::GoFullscreen);
        lemma_due(w.unhealthy > 0, Duty::SayRecovered, d);
        lemma_due(w.polls_window(p), Duty::PollWindow, d);
        lemma_due(full, Duty::GoFullscreen, d);
        lemma_among(a, b, d);
        lemma_among(a + b, c, d);
        assert(duties == a + b + c);
    } else {
        let s = Duty::SayUnhealthy { strike: (w.unhealthy + 1) as u32 };
        lemma_due(true, s, d);
        assert(when(true, s) =~= duties);
    }
}

/// What the recovery step asks for.
proof fn lemma_mended_owes(w: Watchdog, l: Limits, d: Duty)
    ensures
        ({
            let more = w.mended(l).1;
            let due = l.auto_recover && w.unhealthy >= l.unhealthy_threshold && w.attempts
                < l.max_recovery_attempts;
            let spent = w.attempts >= l.max_recovery_attempts && w.unhealthy > 0;
            &&& more.contains(d) <==> match d {
                Duty::Announce(s) => due && s == SessionState::Recovering,
                Duty::Recover { attempt } => due && attempt == w.attempts + 1,
                Duty::SayExhausted => spent,
                _ => false,
            }
            &&& more.len() == 2 * one_if(due) + one_if(spent)
        }),
{
    reveal(Watchdog::mended);
    let more = w.mended(l).1;
    if l.auto_recover && w.unhealthy >= l.unhealthy_threshold && w.attempts
        < l.max_recovery_attempts {
        let s = Duty::Announce(SessionState::Recovering);
        let r = Duty::Recover { attempt: (w.attempts + 1) as u32 };
        lemma_due(true, s, d);
        lemma_due(true, r, d);
        lemma_among(when(true, s), when(true, r), d);
        assert(more =~= when(true, s) + when(true, r));
    } else {
        lemma_due(
            w.attempts >= l.max_recovery_attempts && w.unhealthy > 0,
            Duty::SayExhausted,
            d,
        );
    }
}

/// A duty is in two lists together if it is in one of them.
proof fn lemma_among(a: Seq<Duty>, b: Seq<Duty>, d: Duty)
    ensures
        (a + b).contains(d) <==> a.contains(d) || b.contains(d),
{
    if a.contains(d) {
        let i = choose|i: int| 0 <= i < a.len() && a[i] == d;
        assert((a + b)[i] == d);
    }
    if b.contains(d) {
        let i = choose|i: int| 0 <= i < b.len() && b[i] == d;
        assert((a + b)[a.len() + i] == d);
    }
}

proof fn lemma_due(due: bool, x: Duty, d: Duty)
    ensures
        (due && d == x) <==> when(due, x).contains(d),
{
    if due {
        assert(when(due, x)[0] == x);
    }
}

/// What is remembered of a tick: how the session was found, that it was up once it
/// was healthy, the bad ticks in a row and the recoveries tried.
pub proof fn law_a_tick_keeps_the_record(w: Watchdog, p: Pulse, l: Limits)
    requires
        w.unhealthy < u32::MAX,
    ensures
        ({
            let n = w.ticked(p, l).0;
            &&& n.state == if recovers(w, p, l) {
                SessionState::Recovering
            } else {
                found(p)
            }
            &&& n.was_running <==> p.session_running && (p.healthy || w.was_running)
            &&& n.unhealthy == if recovers(w, p, l) {
                0
            } else {
                strikes(w, p)
            }
            &&& n.attempts == tries(w, p) + one_if(recovers(w, p, l))
            &&& n.kern_tick == if w.kern_tick == u32::MAX {
                0
            } else {
                w.kern_tick + 1
            }
            &&& !(p.session_running && p.healthy) ==> n.win_tick == w.win_tick
            &&& p.session_running && p.healthy ==> n.win_tick == if w.win_tick == u32::MAX {
                0
            } else {
                w.win_tick + 1
            }
        }),
{
    reveal(Watchdog::judged);
    reveal(Watchdog::mended);
}

/// Only a change of the kernel's modules is spoken of: that they went, where they
/// did, or that they are back.
pub proof fn law_the_kernel_is_spoken_of_on_change(stale: bool, changed: Option<bool>)
    ensures
        changed is None ==> kernel_spec(stale, changed) == KernelNote::Quiet,
        changed == Some(false) ==> kernel_spec(stale, changed) == KernelNote::InPlace,
        changed == Some(true) ==> kernel_spec(stale, changed) == if stale {
            KernelNote::Removed
        } else {
            KernelNote::Quiet
        },
{
}

/// The mapper starts with the daemon exactly if that is wanted and a keyboard is
/// known; if it is wanted without one, that is said.
pub proof fn law_the_mapper_starts_if_it_can(on_start: bool, keyboard_set: bool)
    ensures
        autostart_spec(on_start, keyboard_set) == Autostart::Start <==> on_start && keyboard_set,
        autostart_spec(on_start, keyboard_set) == Autostart::NoKeyboard <==> on_start
            && !keyboard_set,
        autostart_spec(on_start, keyboard_set) == Autostart::Disabled <==> !on_start,
{
}

/// A request about an app goes ahead exactly if it names a package and the session
/// runs; an installation, if there is such a file, it is a package file, and the
/// session runs. A request that makes no sense is told so first.
pub proof fn law_requests_are_refused_for_a_reason(
    quoted: Seq<char>,
    valid: bool,
    running: bool,
    doing: Seq<char>,
    path: Seq<char>,
    is_file: bool,
)
    ensures
        app_refusal(quoted, valid, running, doing) is None <==> valid && running,
        match app_refusal(quoted, valid, running, doing) {
            Some(RefusalView::Invalid(t)) => !valid && crate::text::occurs(t, quoted),
            Some(RefusalView::NoSession(t)) => valid && !running && crate::text::occurs(t, doing),
            None => true,
        },
        install_refusal(path, is_file, running) is None <==> is_file && package_file(path)
            && running,
        match install_refusal(path, is_file, running) {
            Some(RefusalView::Invalid(t)) => !is_file || !package_file(path),
            Some(RefusalView::NoSession(t)) => is_file && package_file(path) && !running,
            None => true,
        },
        !is_file ==> install_refusal(path, is_file, running) is Some && crate::text::occurs(
            install_refusal(path, is_file, running)->0->Invalid_0,
            path,
        ),
{
    crate::text::lemma_occurs_behind("not a package name: "@, quoted);
    crate::text::lemma_occurs_behind("the session is stopped — start it before "@, doing);
    crate::text::lemma_occurs_behind("no such file: "@, path);
}

/// A property is announced exactly if it differs, and no more than once.
pub proof fn law_what_differs_is_announced(a: StateView, b: StateView, p: Property)
    ensures
        changes_spec(a, b).contains(p) <==> match p {
            Property::Running => a.running != b.running,
            Property::GameMode => a.game_mode != b.game_mode,
            Property::Grabbed => a.grabbed != b.grabbed,
            Property::HostFocused => a.host_focused != b.host_focused,
            Property::ActiveProfile => a.active_profile != b.active_profile,
            Property::Foreground => a.foreground != b.foreground,
        },
        changes_spec(a, b).len() <= 6,
{
    let c1 = if_changed(a.running != b.running, Property::Running);
    let c2 = if_changed(a.game_mode != b.game_mode, Property::GameMode);
    let c3 = if_changed(a.grabbed != b.grabbed, Property::Grabbed);
    let c4 = if_changed(a.host_focused != b.host_focused, Property::HostFocused);
    let c5 = if_changed(a.active_profile != b.active_profile, Property::ActiveProfile);
    let c6 = if_changed(a.foreground != b.foreground, Property::Foreground);
    lemma_changed(a.running != b.running, Property::Running, p);
    lemma_changed(a.game_mode != b.game_mode, Property::GameMode, p);
    lemma_changed(a.grabbed != b.grabbed, Property::Grabbed, p);
    lemma_changed(a.host_focused != b.host_focused, Property::HostFocused, p);
    lemma_changed(a.active_profile != b.active_profile, Property::ActiveProfile, p);
    lemma_changed(a.foreground != b.foreground, Property::Foreground, p);
    lemma_either(c1, c2, p);
    lemma_either(c1 + c2, c3, p);
    lemma_either(c1 + c2 + c3, c4, p);
    lemma_either(c1 + c2 + c3 + c4, c5, p);
    lemma_either(c1 + c2 + c3 + c4 + c5, c6, p);
}

proof fn lemma_changed(changed: bool, x: Property, p: Property)
    ensures
        if_changed(changed, x).contains(p) <==> changed && p == x,
{
    if changed {
        assert(if_changed(changed, x)[0] == x);
    }
}

proof fn lemma_either(a: Seq<Property>, b: Seq<Property>, p: Property)
    ensures
        (a + b).contains(p) <==> a.contains(p) || b.contains(p),
{
    if a.contains(p) {
        let i = choose|i: int| 0 <= i < a.len() && a[i] == p;
        assert((a + b)[i] == p);
    }
    if b.contains(p) {
        let i = choose|i: int| 0 <= i < b.len() && b[i] == p;
        assert((a + b)[a.len() + i] == p);
    }
}

/// Which kind of event is announced, without what it is about.
pub open spec fn event_kind(e: EventView) -> int {
    match e {
        EventView::ProfileActivated { .. } => 0,
        EventView::ProfileCleared { .. } => 1,
        EventView::OverlayPaused { .. } => 2,
        EventView::Grabbed => 3,
        EventView::Ungrabbed => 4,
        EventView::GameModeOn => 5,
        EventView::GameModeOff => 6,
        EventView::FocusGained => 7,
        EventView::FocusLost => 8,
        EventView::EscapeRequested => 9,
    }
}

/// Every kind of event has a name of its own; what comes with it is the package, and
/// behind a tab the profile where there is one.
pub proof fn law_signals_tell_events_apart(a: EventView, b: EventView)
    ensures
        signal_spec(a).0 == signal_spec(b).0 <==> event_kind(a) == event_kind(b),
        a matches EventView::ProfileActivated { package, profile } ==> signal_spec(a).1
            == package.push('\t') + profile,
        a matches EventView::ProfileCleared { package } ==> signal_spec(a).1 == package,
        a matches EventView::OverlayPaused { package } ==> signal_spec(a).1 == package,
{
    reveal_strlit("profile-activated");
    reveal_strlit("profile-cleared");
    reveal_strlit("overlay-paused");
    reveal_strlit("grabbed");
    reveal_strlit("ungrabbed");
    reveal_strlit("game-mode-on");
    reveal_strlit("game-mode-off");
    reveal_strlit("focus-gained");
    reveal_strlit("focus-lost");
    reveal_strlit("escape-requested");
    reveal_strlit("\t");
    assert("profile-activated"@.len() == 17 && "profile-cleared"@.len() == 15
        && "overlay-paused"@.len() == 14 && "grabbed"@.len() == 7 && "ungrabbed"@.len() == 9
        && "game-mode-on"@.len() == 12 && "game-mode-off"@.len() == 13 && "focus-gained"@.len()
        == 12 && "focus-lost"@.len() == 10 && "escape-requested"@.len() == 16);
    assert("game-mode-on"@[0] == 'g' && "focus-gained"@[0] == 'f');
    if let EventView::ProfileActivated { package, profile } = a {
        assert(package + "\t"@ + profile =~= package.push('\t') + profile);
    }
}

/// A package file is one whose name has something before an ending that reads `.apk` in
/// whatever case, wherever it lies.
pub proof fn law_a_package_file_is_known_by_its_ending(path: Seq<char>)
    ensures
        package_file(path) ==> path.len() > 4 && crate::text::lower(path.skip(path.len() - 4))
            == ".apk"@ && path[path.len() - 5] != '/',
        path.len() > 4 && crate::text::lower(path.skip(path.len() - 4)) == ".apk"@
            && path[path.len() - 5] != '/' ==> package_file(path),
{
    reveal_strlit(".apk");
    crate::store::lemma_last_slash(path, path.len() as int);
    let n = file_name(path);
    match crate::store::last_slash(path, path.len() as int) {
        Some(k) => {
            if n.len() > 4 {
                assert(n.skip(n.len() - 4) =~= path.skip(path.len() - 4));
            }
            if path.len() > 4 && crate::text::lower(path.skip(path.len() - 4)) == ".apk"@
                && path[path.len() - 5] != '/' {
                let end = path.skip(path.len() - 4);
                assert(k < path.len() - 5) by {
                    if k >= path.len() - 4 {
                        let j = k - (path.len() - 4);
                        assert(end[j] == '/');
                        assert(crate::text::lower(end)[j] == '/');
                        assert(".apk"@[j] != '/');
                    }
                }
            }
        },
        None => {},
    }
}

} // verus!
