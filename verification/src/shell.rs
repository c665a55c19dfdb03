//! The frame of the window: the status strip, what fills the page, and the live
//! diagnostics.

use crate::session::Signals;
use crate::state::{AppState, Link, Nav, Snapshot};
use vstd::prelude::*;
use vstd::string::*;

verus! {

/// What brings the daemon up.
pub const START_DAEMON: &'static str = "systemctl --user start liwd";

/// Above these 99th percentiles, in microseconds, the injection layer is slow,
/// and too slow.
pub const SLOW_US: u64 = 2000;

pub const TOO_SLOW_US: u64 = 6000;

/// What a colour stands for.
#[derive(Clone, Copy, Debug, PartialEq, Eq, Structural)]
pub enum Tone {
    Faint,
    Muted,
    Accent,
    Fine,
    Warn,
    Bad,
}

/// Pills, each a text and its colour, as plain text.
pub open spec fn pills(v: Seq<(String, Tone)>) -> Seq<(Seq<char>, Tone)> {
    v.map_values(|p: (String, Tone)| (p.0@, p.1))
}

/// What the session pill says, and whether Android counts as running.
pub open spec fn session_of(link: Link, state: Seq<char>) -> (Seq<char>, Tone, bool) {
    match link {
        Link::Connecting => ("connecting…"@, Tone::Faint, false),
        Link::Down(_) => ("liwd not running"@, Tone::Bad, false),
        Link::Up => if state == "RUNNING"@ {
            ("Android running"@, Tone::Fine, true)
        } else if state == "DEGRADED"@ {
            ("degraded"@, Tone::Warn, true)
        } else if state == "RECOVERING"@ {
            ("recovering…"@, Tone::Warn, true)
        } else {
            ("Android stopped"@, Tone::Faint, false)
        },
    }
}

/// What the session pill says, and whether Android counts as running.
pub fn session_pill(link: &Link, state: &str) -> (r: (&'static str, Tone, bool))
    ensures
        (r.0@, r.1, r.2) == session_of(*link, state@),
{
    match link {
        Link::Connecting => ("connecting…", Tone::Faint, false),
        Link::Down(_) => ("liwd not running", Tone::Bad, false),
        Link::Up => if crate::text::same(state, "RUNNING") {
            ("Android running", Tone::Fine, true)
        } else if crate::text::same(state, "DEGRADED") {
            ("degraded", Tone::Warn, true)
        } else if crate::text::same(state, "RECOVERING") {
            ("recovering…", Tone::Warn, true)
        } else {
            ("Android stopped", Tone::Faint, false)
        },
    }
}

/// The pills of the strip.
pub open spec fn pills_of(link: Link, s: crate::state::SnapshotView) -> Seq<(Seq<char>, Tone)> {
    let session = session_of(link, s.state);
    (if s.keymapper_running {
        if s.game_mode {
            seq![("game mode"@, Tone::Accent)]
        } else {
            seq![("mapping idle"@, Tone::Faint)]
        }
    } else {
        Seq::empty()
    }) + (match s.active_profile {
        Some(p) => seq![(p, Tone::Muted)],
        None => Seq::empty(),
    }) + seq![(session.0, session.1)]
}

/// The session button: what it says and, unless a call is in flight, whether it
/// starts the session.
#[derive(Clone, Copy, Debug)]
pub struct Button {
    pub label: &'static str,
    pub start: Option<bool>,
}

/// What the button of the strip says.
pub open spec fn toggle_label(busy: bool, running: bool) -> Seq<char> {
    if busy {
        "working…"@
    } else if running {
        "Stop"@
    } else {
        "Start Android"@
    }
}

/// What a press of a session button asks for.
pub open spec fn press_of(busy: bool, running: bool) -> Option<bool> {
    if busy {
        None
    } else {
        Some(!running)
    }
}

/// The live status strip: its pills, and the session button while the daemon can
/// be reached.
pub fn status(s: &AppState) -> (r: (Vec<(String, Tone)>, Option<Button>))
    ensures
        pills(r.0@) == pills_of(s.link, s.snapshot@),
        match r.1 {
            Some(b) => {
                let running = session_of(s.link, s.snapshot@.state).2;
                &&& s.link is Up
                &&& b.label@ == toggle_label(s.busy is Some, running)
                &&& b.start == press_of(s.busy is Some, running)
            },
            None => !(s.link is Up),
        },
{
    let (label, tone, running): (&'static str, Tone, bool) = session_pill(
        &s.link,
        s.snapshot.state.as_str(),
    );
    let mut out: Vec<(String, Tone)> = Vec::new();
    if s.snapshot.keymapper_running {
        if s.snapshot.game_mode {
            out.push(("game mode".to_owned(), Tone::Accent));
        } else {
            out.push(("mapping idle".to_owned(), Tone::Faint));
        }
    }
    match &s.snapshot.active_profile {
        Some(p) => {
            out.push((p.clone(), Tone::Muted));
        },
        None => {},
    }
    out.push((label.to_owned(), tone));
    assert(pills(out@) =~= pills_of(s.link, s.snapshot@));
    let busy: bool = s.busy.is_some();
    let button: Option<Button> = match &s.link {
        Link::Up => Some(
            Button {
                label: if busy {
                    "working…"
                } else if running {
                    "Stop"
                } else {
                    "Start Android"
                },
                start: if busy {
                    None
                } else {
                    Some(!running)
                },
            },
        ),
        _ => None,
    };
    (out, button)
}

/// What fills the page.
#[derive(Debug)]
pub enum Content {
    /// The daemon cannot be reached. Says which thing is missing and what to
    /// run: a blank page leaves the user restarting the wrong service.
    Offline(Vec<String>),
    Library,
    /// A page that has nothing on it.
    Placeholder(Vec<String>),
}

/// What fills the page.
pub fn content(s: &AppState) -> (r: Content)
    ensures
        match r {
            Content::Offline(lines) => s.link matches Link::Down(why) && crate::text::texts(lines@)
                == seq!["liwd is not reachable"@, why@, START_DAEMON@],
            Content::Library => !(s.link is Down) && s.nav == Nav::Library,
            Content::Placeholder(lines) => !(s.link is Down) && s.nav != Nav::Library
                && crate::text::texts(lines@) == seq![s.nav.text(), "Not built yet."@],
        },
{
    match &s.link {
        Link::Down(why) => {
            let mut out: Vec<String> = crate::say::page();
            crate::say::say(&mut out, "liwd is not reachable");
            crate::say::say(&mut out, why.as_str());
            crate::say::say(&mut out, START_DAEMON);
            assert(crate::text::texts(out@) =~= seq!["liwd is not reachable"@, why@, START_DAEMON@]);
            return Content::Offline(out);
        },
        _ => {},
    }
    match s.nav {
        Nav::Library => Content::Library,
        _ => {
            let mut out: Vec<String> = crate::say::page();
            crate::say::say(&mut out, s.nav.label());
            crate::say::say(&mut out, "Not built yet.");
            assert(crate::text::texts(out@) =~= seq![s.nav.text(), "Not built yet."@]);
            Content::Placeholder(out)
        },
    }
}

/// Signals as plain text: a name, whether it is well, and what it is.
pub open spec fn signals_view(
    v: Seq<(&'static str, bool, &'static str)>,
) -> Seq<(Seq<char>, bool, Seq<char>)> {
    v.map_values(|s: (&'static str, bool, &'static str)| (s.0@, s.1, s.2@))
}

/// The health signals, one row each. Staleness is the failure that looks healthy
/// from every other angle, so its row is turned round.
pub open spec fn signal_rows(h: Signals) -> Seq<(Seq<char>, bool, Seq<char>)> {
    seq![
        ("Session"@, h.session_running, "The Waydroid session process"@),
        ("Container"@, h.container_running, "The LXC container Android runs in"@),
        ("Network"@, h.has_ip, "Android has an address on its bridge"@),
        ("Boot"@, h.boot_completed, "Android finished booting"@),
        ("Composer"@, h.composer_alive, "The graphics HAL, whose death starts the chain"@),
        ("Composer fresh"@, !h.composer_stale, "The session's binder connection is not stale"@),
    ]
}

/// The health signals one by one, or why nothing can be measured. A single light
/// cannot tell "Android is not running" from "its composer restarted underneath
/// the session", and those need different actions.
pub fn signals(s: &AppState) -> (r: Result<Vec<(&'static str, bool, &'static str)>, &'static str>)
    ensures
        match r {
            Ok(rows) => !(s.link is Down) && signals_view(rows@) == signal_rows(s.snapshot.health),
            Err(why) => s.link is Down && why@
                == "liwd is not running, so nothing can be measured."@,
        },
{
    match &s.link {
        Link::Down(_) => {
            return Err("liwd is not running, so nothing can be measured.");
        },
        _ => {},
    }
    let h: Signals = s.snapshot.health;
    let rows: Vec<(&'static str, bool, &'static str)> = vec![
        ("Session", h.session_running, "The Waydroid session process"),
        ("Container", h.container_running, "The LXC container Android runs in"),
        ("Network", h.has_ip, "Android has an address on its bridge"),
        ("Boot", h.boot_completed, "Android finished booting"),
        ("Composer", h.composer_alive, "The graphics HAL, whose death starts the chain"),
        ("Composer fresh", !h.composer_stale, "The session's binder connection is not stale"),
    ];
    assert(signals_view(rows@) =~= signal_rows(h));
    Ok(rows)
}

/// What a row's state is shown as.
pub fn verdict(ok: bool) -> (r: &'static str)
    ensures
        r@ == (if ok {
            "ok"@
        } else {
            "no"@
        }),
{
    if ok {
        "ok"
    } else {
        "no"
    }
}

/// The colour of a 99th percentile.
pub open spec fn tone_of(p99_us: u64) -> Tone {
    if p99_us < SLOW_US {
        Tone::Fine
    } else if p99_us < TOO_SLOW_US {
        Tone::Warn
    } else {
        Tone::Bad
    }
}

/// Our own injection latency: the colour of its 99th percentile, or what to say
/// while there are no samples.
pub fn latency_panel(s: &Snapshot) -> (r: Result<Tone, &'static str>)
    ensures
        match r {
            Ok(t) => s.latency_samples > 0 && t == tone_of(s.latency_p99_us),
            Err(why) => s.latency_samples == 0 && why@
                == "No samples yet. This fills in while a mapped game is in the foreground and the key mapper is running."@,
        },
{
    if s.latency_samples == 0 {
        return Err(
            "No samples yet. This fills in while a mapped game is in the foreground and the key mapper is running.",
        );
    }
    Ok(
        if s.latency_p99_us < SLOW_US {
            Tone::Fine
        } else if s.latency_p99_us < TOO_SLOW_US {
            Tone::Warn
        } else {
            Tone::Bad
        },
    )
}

/// The session button of the diagnostics page, or what to run without a daemon.
pub fn actions(s: &AppState) -> (r: Result<Button, &'static str>)
    ensures
        match r {
            Ok(b) => {
                let running = s.snapshot@.state == "RUNNING"@;
                &&& s.link is Up
                &&& b.label@ == (if s.busy is Some {
                    "…"@
                } else if running {
                    "Stop Android"@
                } else {
                    "Start Android"@
                })
                &&& b.start == press_of(s.busy is Some, running)
            },
            Err(command) => !(s.link is Up) && command@ == START_DAEMON@,
        },
{
    match &s.link {
        Link::Up => {},
        _ => {
            return Err(START_DAEMON);
        },
    }
    let running: bool = crate::text::same(s.snapshot.state.as_str(), "RUNNING");
    let busy: bool = s.busy.is_some();
    Ok(
        Button {
            label: if busy {
                "…"
            } else if running {
                "Stop Android"
            } else {
                "Start Android"
            },
            start: if busy {
                None
            } else {
                Some(!running)
            },
        },
    )
}

/// What the settings page says in place of its panels, if anything.
pub fn settings_note(link: &Link, has_config: bool) -> (r: Option<&'static str>)
    ensures
        crate::text::maybe(r) == (if link is Down {
            Some("liwd is not running, so there is nothing to edit."@)
        } else if !has_config {
            Some("Loading…"@)
        } else {
            None
        }),
{
    match link {
        Link::Down(_) => Some("liwd is not running, so there is nothing to edit."),
        _ => if has_config {
            None
        } else {
            Some("Loading…")
        },
    }
}

// ---------------------------------------------------------------- laws

/// A slower mapper never gets a friendlier tone: under two milliseconds it is fine, from
/// six on bad.
pub proof fn law_a_slower_mapper_is_not_friendlier(p99_us: u64)
    ensures
        tone_of(p99_us) == Tone::Fine <==> p99_us < 2000,
        tone_of(p99_us) == Tone::Bad <==> p99_us >= 6000,
        tone_of(p99_us) == Tone::Warn <==> 2000 <= p99_us < 6000,
{
}

/// The session is shown running exactly if the daemon answers and Android is up in any
/// way, be it limping.
pub proof fn law_a_session_runs_only_while_the_daemon_answers(link: Link, state: Seq<char>)
    ensures
        session_of(link, state).2 <==> link is Up && (state == "RUNNING"@ || state == "DEGRADED"@
            || state == "RECOVERING"@),
        session_of(link, state).1 == Tone::Fine <==> link is Up && state == "RUNNING"@,
        session_of(link, state).1 == Tone::Bad <==> link is Down,
{
}

/// The button does the opposite of what is: it starts what is stopped, stops what runs,
/// and does nothing while something is under way.
pub proof fn law_the_button_does_the_opposite(busy: bool, running: bool)
    ensures
        press_of(busy, running) is None <==> busy,
        press_of(busy, running) == Some(true) <==> !busy && !running,
        press_of(busy, running) == Some(false) <==> !busy && running,
{
}

/// The pills end with the session; before it stand the profile where there is one, and
/// the mapper where it runs.
pub proof fn law_the_pills_tell_what_is(link: Link, s: crate::state::SnapshotView)
    ensures
        pills_of(link, s).len() == 1 + (if s.active_profile is Some {
            1int
        } else {
            0
        }) + (if s.keymapper_running {
            1int
        } else {
            0
        }),
        pills_of(link, s).last() == (session_of(link, s.state).0, session_of(link, s.state).1),
        s.active_profile matches Some(p) ==> pills_of(link, s)[pills_of(link, s).len() - 2] == (
            p,
            Tone::Muted,
        ),
        s.keymapper_running ==> pills_of(link, s)[0] == (if s.game_mode {
            ("game mode"@, Tone::Accent)
        } else {
            ("mapping idle"@, Tone::Faint)
        }),
{
}

/// Every signal has a row of its own, and the rows are all well exactly if Android is:
/// all of it up, and the composer not stale.
pub proof fn law_every_signal_has_its_row(h: Signals)
    ensures
        signal_rows(h).len() == 6,
        signal_rows(h).contains(
            ("Session"@, h.session_running, "The Waydroid session process"@),
        ),
        signal_rows(h).contains(
            ("Container"@, h.container_running, "The LXC container Android runs in"@),
        ),
        signal_rows(h).contains(("Network"@, h.has_ip, "Android has an address on its bridge"@)),
        signal_rows(h).contains(("Boot"@, h.boot_completed, "Android finished booting"@)),
        signal_rows(h).contains(
            ("Composer"@, h.composer_alive, "The graphics HAL, whose death starts the chain"@),
        ),
        signal_rows(h).contains(
            (
                "Composer fresh"@,
                !h.composer_stale,
                "The session's binder connection is not stale"@,
            ),
        ),
        (forall|i: int| 0 <= i < 6 ==> (#[trigger] signal_rows(h)[i]).1) <==> h.session_running
            && h.container_running && h.has_ip && h.boot_completed && h.composer_alive
            && !h.composer_stale,
{
    let r = signal_rows(h);
    assert(r[0].1 == h.session_running && r[1].1 == h.container_running && r[2].1 == h.has_ip);
    assert(r[3].1 == h.boot_completed && r[4].1 == h.composer_alive && r[5].1
        == !h.composer_stale);
    assert(r.contains(r[0]) && r.contains(r[1]) && r.contains(r[2]) && r.contains(r[3])
        && r.contains(r[4]) && r.contains(r[5]));
}

} // verus!
