//! The Waydroid window on the host.
//!
//! Touches travel in screen space. If the window is not aligned with the
//! output, profile coordinates shift and edge touches fall outside it, so the
//! window is made fullscreen once, when it appears.

use vstd::prelude::*;
use vstd::string::*;

verus! {

/// Window geometry as the compositor's script reports it.
#[derive(Clone, Copy, Debug, PartialEq, Eq, Structural)]
pub struct WindowGeometry {
    pub found: bool,
    pub x: i32,
    pub y: i32,
    pub width: i32,
    pub height: i32,
    pub fullscreen: bool,
}

impl WindowGeometry {
    /// No window.
    pub open spec fn none() -> WindowGeometry {
        WindowGeometry { found: false, x: 0, y: 0, width: 0, height: 0, fullscreen: false }
    }
}

impl Default for WindowGeometry {
    fn default() -> (r: WindowGeometry)
        ensures
            r == WindowGeometry::none(),
    {
        WindowGeometry { found: false, x: 0, y: 0, width: 0, height: 0, fullscreen: false }
    }
}

/// What is known about the window in this session.
#[derive(Clone, Copy, Debug, PartialEq, Eq, Structural)]
pub struct WindowState {
    pub geometry: WindowGeometry,
    /// Whether fullscreen was attempted once in this session.
    pub attempted: bool,
}

impl Default for WindowState {
    fn default() -> (r: WindowState)
        ensures
            r == WindowState::blank(),
    {
        WindowState { geometry: WindowGeometry::default(), attempted: false }
    }
}

impl WindowState {
    pub open spec fn blank() -> WindowState {
        WindowState { geometry: WindowGeometry::none(), attempted: false }
    }

    /// The state once a missing window was noted, and whether a new window may
    /// be made fullscreen because of it.
    pub open spec fn gone_spec(self) -> (WindowState, bool) {
        if self.geometry.found {
            (self, false)
        } else {
            (WindowState { attempted: false, ..self }, self.attempted)
        }
    }

    pub fn new() -> (r: WindowState)
        ensures
            r == WindowState::blank(),
    {
        WindowState::default()
    }

    pub fn set(&mut self, g: WindowGeometry)
        ensures
            *final(self) == (WindowState { geometry: g, ..*old(self) }),
    {
        self.geometry = g;
    }

    pub fn get(&self) -> (r: WindowGeometry)
        ensures
            r == self.geometry,
    {
        self.geometry
    }

    pub fn fullscreen_attempted(&self) -> (r: bool)
        ensures
            r == self.attempted,
    {
        self.attempted
    }

    pub fn mark_fullscreen_attempted(&mut self)
        ensures
            *final(self) == (WindowState { attempted: true, ..*old(self) }),
    {
        self.attempted = true;
    }

    /// Called when the session goes down, so a new session retries.
    pub fn reset(&mut self)
        ensures
            *final(self) == WindowState::blank(),
    {
        self.attempted = false;
        self.geometry = WindowGeometry::default();
    }

    /// Clears the fullscreen flag if the window disappeared.
    ///
    /// Waiting for the session to stop is not enough: users keep the session up
    /// and close and reopen the window. If the window is there but not
    /// fullscreen, nothing is touched: the user may have left it deliberately,
    /// and forcing it back would be hostile.
    ///
    /// Returns `true` when a retry is now allowed for a new window.
    pub fn note_window_gone(&mut self) -> (r: bool)
        ensures
            (*final(self), r) == old(self).gone_spec(),
    {
        if self.geometry.found {
            return false;
        }
        let was: bool = self.attempted;
        self.attempted = false;
        was
    }

    /// Whether a focused window of class `class` is to be made fullscreen now.
    /// Only the first time: if the user left fullscreen on purpose, forcing it
    /// back on every focus would be hostile.
    pub fn wants_fullscreen(&self, class: &str, on_start: bool) -> (r: bool)
        ensures
            r == (crate::text::lower(class@) == crate::text::lower("waydroid"@) && !self.attempted
                && on_start),
    {
        crate::text::same_ignoring_case(class, "waydroid") && !self.attempted && on_start
    }
}

/// What follows an attempt to make the window fullscreen.
#[derive(Clone, Copy, Debug, PartialEq, Eq, Structural)]
pub enum Attempt {
    /// The window is fullscreen.
    Done,
    /// Try again after the pause.
    Again,
    /// No attempt is left; the window is there, but not fullscreen.
    Refused,
    /// No attempt is left and no window appeared.
    NoWindow,
}

/// What follows attempt number `i` of `attempts`, given the window since.
pub open spec fn attempt_spec(i: u32, attempts: u32, g: WindowGeometry) -> Attempt {
    if g.found && g.fullscreen {
        Attempt::Done
    } else if i < attempts {
        Attempt::Again
    } else if g.found {
        Attempt::Refused
    } else {
        Attempt::NoWindow
    }
}

/// What follows attempt number `i` of `attempts`.
///
/// When a session has booted the window may not exist yet: the compositor takes
/// time to create the surface. A single attempt usually arrives too early.
pub fn after_attempt(i: u32, attempts: u32, g: WindowGeometry) -> (r: Attempt)
    ensures
        r == attempt_spec(i, attempts, g),
{
    if g.found && g.fullscreen {
        Attempt::Done
    } else if i < attempts {
        Attempt::Again
    } else if g.found {
        Attempt::Refused
    } else {
        Attempt::NoWindow
    }
}

// ---------------------------------------------------------------- scripts

/// The places of a compositor script, in the order they are tried: the user's
/// own first, so it can shadow the system package, then next to the executable.
pub open spec fn script_places(
    name: Seq<char>,
    data: Option<Seq<char>>,
    home: Option<Seq<char>>,
    exe: Option<Seq<char>>,
) -> Seq<Seq<char>> {
    let base = match (data, home) {
        (Some(d), _) => Some(d),
        (None, Some(h)) => Some(
            crate::store::joined(crate::store::joined(h, ".local"@), "share"@),
        ),
        (None, None) => None,
    };
    let own: Seq<Seq<char>> = match base {
        Some(b) => seq![
            crate::store::joined(
                crate::store::joined(crate::store::joined(b, "liwinux"@), "kwin"@),
                name,
            ),
        ],
        None => Seq::empty(),
    };
    let near: Seq<Seq<char>> = match exe {
        Some(e) => crate::store::ancestors(
            crate::store::parent(e),
            "scripts/kwin/"@ + name,
            4,
        ),
        None => Seq::empty(),
    };
    own + seq![
        "/usr/share/liwinux/kwin/"@ + name,
        "/usr/local/share/liwinux/kwin/"@ + name,
    ] + near
}

/// The places of a compositor script, in the order they are tried. The working
/// directory is not consulted: behaviour that depends on it produces bugs that
/// nobody can diagnose.
pub fn script_path_named(name: &str, data: Option<&str>, home: Option<&str>, exe: Option<&str>) -> (r:
    Vec<String>)
    ensures
        crate::text::texts(r@) == script_places(
            name@,
            crate::text::maybe(data),
            crate::text::maybe(home),
            crate::text::maybe(exe),
        ),
{
    let mut out: Vec<String> = crate::say::page();
    let base: Option<String> = match data {
        Some(d) => Some(d.to_owned()),
        None => match home {
            Some(h) => {
                let local: String = crate::store::join_path(h, ".local");
                Some(crate::store::join_path(local.as_str(), "share"))
            },
            None => None,
        },
    };
    if let Some(b) = base {
        let a: String = crate::store::join_path(b.as_str(), "liwinux");
        let k: String = crate::store::join_path(a.as_str(), "kwin");
        crate::say::put(&mut out, crate::store::join_path(k.as_str(), name));
    }
    crate::say::put(&mut out, crate::say::cat2("/usr/share/liwinux/kwin/", name));
    crate::say::put(&mut out, crate::say::cat2("/usr/local/share/liwinux/kwin/", name));
    if let Some(e) = exe {
        let tail: String = crate::say::cat2("scripts/kwin/", name);
        let near: Vec<String> = crate::store::near_executable(e, tail.as_str());
        crate::say::put_all(&mut out, &near);
    }
    assert(crate::text::texts(out@) =~= script_places(
        name@,
        crate::text::maybe(data),
        crate::text::maybe(home),
        crate::text::maybe(exe),
    ));
    out
}

/// The places of the script that makes the window fullscreen.
pub fn script_path(data: Option<&str>, home: Option<&str>, exe: Option<&str>) -> (r: Vec<String>)
    ensures
        crate::text::texts(r@) == script_places(
            "fullscreen.js"@,
            crate::text::maybe(data),
            crate::text::maybe(home),
            crate::text::maybe(exe),
        ),
{
    script_path_named("fullscreen.js", data, home, exe)
}

// ---------------------------------------------------------------- laws

/// Closing the window allows a new attempt, and is reported once.
pub proof fn law_a_closed_window_is_reported_once(w: WindowState)
    requires
        w.attempted,
    ensures
        ({
            let closed = WindowState { geometry: WindowGeometry::none(), ..w };
            let (after, first) = closed.gone_spec();
            &&& first
            &&& !after.attempted
            &&& !after.gone_spec().1
        }),
{
}

/// A window that is there keeps the user's decision, fullscreen or not.
pub proof fn law_a_present_window_is_left_alone(w: WindowState)
    requires
        w.geometry.found,
    ensures
        w.gone_spec() == (w, false),
{
}

/// Retrying ends: after the last attempt nothing asks for another.
pub proof fn law_retrying_ends(attempts: u32, g: WindowGeometry)
    ensures
        attempt_spec(attempts, attempts, g) != Attempt::Again,
{
}

/// Fullscreen is reached exactly where the window is there and says so; otherwise
/// it is tried again as long as tries are left, and in the end a window that
/// refuses is told from one that never came.
pub proof fn law_an_attempt_ends_for_a_reason(i: u32, attempts: u32, g: WindowGeometry)
    ensures
        attempt_spec(i, attempts, g) == Attempt::Done <==> g.found && g.fullscreen,
        attempt_spec(i, attempts, g) == Attempt::Again <==> !(g.found && g.fullscreen) && i
            < attempts,
        attempt_spec(i, attempts, g) == Attempt::Refused <==> g.found && !g.fullscreen && i
            >= attempts,
        attempt_spec(i, attempts, g) == Attempt::NoWindow <==> !g.found && i >= attempts,
{
}

/// A window that went is told only where fullscreen had been tried, and the try is
/// forgotten then; the place of the window is not touched.
pub proof fn law_a_lost_window_forgets_the_attempt(w: WindowState)
    ensures
        w.gone_spec().1 <==> w.attempted && !w.geometry.found,
        w.gone_spec().0.attempted <==> w.attempted && w.geometry.found,
        w.gone_spec().0.geometry == w.geometry,
        !WindowState::blank().attempted,
        !WindowState::blank().geometry.found,
        !WindowState::blank().geometry.fullscreen,
{
}

/// A script is looked for where the user keeps data, then in the two places of the
/// system, and last above the program: the first place is the user's wherever that is
/// known, and data set by the user goes before what the home directory suggests.
pub proof fn law_a_script_is_looked_for_at_home_first(
    name: Seq<char>,
    data: Option<Seq<char>>,
    home: Option<Seq<char>>,
    exe: Option<Seq<char>>,
)
    ensures
        ({
            let p = script_places(name, data, home, exe);
            let k: int = if data is Some || home is Some {
                1
            } else {
                0
            };
            &&& p.len() >= k + 2
            &&& p[k] == "/usr/share/liwinux/kwin/"@ + name
            &&& p[k + 1] == "/usr/local/share/liwinux/kwin/"@ + name
            &&& data matches Some(d) ==> p[0] == crate::store::joined(
                crate::store::joined(crate::store::joined(d, "liwinux"@), "kwin"@),
                name,
            )
            &&& exe is None ==> p.len() == k + 2
            &&& exe matches Some(e) ==> p.skip(k + 2) == crate::store::ancestors(
                crate::store::parent(e),
                "scripts/kwin/"@ + name,
                4,
            )
            &&& script_places(name, data, home, exe) == (if data is Some {
                script_places(name, data, None, exe)
            } else {
                p
            })
        }),
{
    let p = script_places(name, data, home, exe);
    let k: int = if data is Some || home is Some {
        1
    } else {
        0
    };
    if let Some(e) = exe {
        assert(p.skip(k + 2) =~= crate::store::ancestors(
            crate::store::parent(e),
            "scripts/kwin/"@ + name,
            4,
        ));
    }
}

} // verus!
