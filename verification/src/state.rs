//! What the window knows: the apps, their key mappings, the last word of the
//! daemon, and what the user is doing.
//!
//! Any announced change replaces the whole snapshot rather than patching one
//! field: properties patched one by one can show a frame in which half are
//! updated.

use crate::by_name::ByName;
use crate::session::Signals;
use crate::tint::Tint;
use vstd::prelude::*;
use vstd::string::*;

verus! {

/// The pages of the window.
#[derive(Clone, Copy, Debug, PartialEq, Eq, Structural)]
pub enum Nav {
    Library,
    Keymap,
    Diagnostics,
    Settings,
}

/// The pages in the order they are listed.
pub open spec fn pages() -> Seq<Nav> {
    seq![Nav::Library, Nav::Keymap, Nav::Diagnostics, Nav::Settings]
}

impl Nav {
    /// Every page, in the order they are listed.
    pub fn all() -> (r: Vec<Nav>)
        ensures
            r@ == pages(),
    {
        vec![Nav::Library, Nav::Keymap, Nav::Diagnostics, Nav::Settings]
    }

    pub open spec fn text(self) -> Seq<char> {
        match self {
            Nav::Library => "Library"@,
            Nav::Keymap => "Key mapping"@,
            Nav::Diagnostics => "Diagnostics"@,
            Nav::Settings => "Settings"@,
        }
    }

    pub fn label(self) -> (r: &'static str)
        ensures
            r@ == self.text(),
    {
        match self {
            Nav::Library => "Library",
            Nav::Keymap => "Key mapping",
            Nav::Diagnostics => "Diagnostics",
            Nav::Settings => "Settings",
        }
    }
}

/// Whether the daemon is reachable at all.
///
/// Kept apart from the snapshot: "liwd is not running" and "the session is
/// stopped" need different words and different buttons.
#[derive(Clone, Debug)]
pub enum Link {
    Connecting,
    Up,
    Down(String),
}

/// An installed Android app.
#[derive(Clone, Debug)]
pub struct App {
    pub name: String,
    pub package: String,
    pub system: bool,
    /// Where its icon is.
    pub icon: Option<String>,
}

/// A key mapping as the daemon lists it.
#[derive(Clone, Debug)]
pub struct Listed {
    pub package: String,
    pub name: String,
    pub bindings: u64,
}

/// What the daemon last said.
#[derive(Clone, Debug)]
pub struct Snapshot {
    pub state: String,
    pub health: Signals,
    pub keymapper_running: bool,
    pub game_mode: bool,
    pub active_profile: Option<String>,
    pub foreground: Option<String>,
    pub latency_p50_us: u64,
    pub latency_p99_us: u64,
    pub latency_samples: u64,
}

/// A snapshot as plain values.
#[verifier::ext_equal]
pub struct SnapshotView {
    pub state: Seq<char>,
    pub health: Signals,
    pub keymapper_running: bool,
    pub game_mode: bool,
    pub active_profile: Option<Seq<char>>,
    pub foreground: Option<Seq<char>>,
    pub latency_p50_us: u64,
    pub latency_p99_us: u64,
    pub latency_samples: u64,
}

/// What is known before the daemon has said anything.
pub open spec fn nothing_said() -> SnapshotView {
    SnapshotView {
        state: ""@,
        health: Signals {
            session_running: false,
            container_running: false,
            composer_alive: false,
            composer_stale: false,
            boot_completed: false,
            has_ip: false,
        },
        keymapper_running: false,
        game_mode: false,
        active_profile: None,
        foreground: None,
        latency_p50_us: 0,
        latency_p99_us: 0,
        latency_samples: 0,
    }
}

impl View for Snapshot {
    type V = SnapshotView;

    open spec fn view(&self) -> SnapshotView {
        SnapshotView {
            state: self.state@,
            health: self.health,
            keymapper_running: self.keymapper_running,
            game_mode: self.game_mode,
            active_profile: crate::text::some_text(self.active_profile),
            foreground: crate::text::some_text(self.foreground),
            latency_p50_us: self.latency_p50_us,
            latency_p99_us: self.latency_p99_us,
            latency_samples: self.latency_samples,
        }
    }
}

impl Snapshot {
    /// Whether two snapshots say the same.
    pub fn same(&self, other: &Snapshot) -> (r: bool)
        ensures
            r == (self@ == other@),
    {
        crate::text::same(self.state.as_str(), other.state.as_str()) && self.health == other.health
            && self.keymapper_running == other.keymapper_running && self.game_mode
            == other.game_mode && crate::text::same_option(&self.active_profile, &other.active_profile)
            && crate::text::same_option(&self.foreground, &other.foreground) && self.latency_p50_us
            == other.latency_p50_us && self.latency_p99_us == other.latency_p99_us
            && self.latency_samples == other.latency_samples
    }
}

impl Default for Snapshot {
    /// What is known before the daemon has said anything.
    fn default() -> (r: Snapshot)
        ensures
            r@ == nothing_said(),
    {
        Snapshot {
            state: "".to_owned(),
            health: Signals {
                session_running: false,
                container_running: false,
                composer_alive: false,
                composer_stale: false,
                boot_completed: false,
                has_ip: false,
            },
            keymapper_running: false,
            game_mode: false,
            active_profile: None,
            foreground: None,
            latency_p50_us: 0,
            latency_p99_us: 0,
            latency_samples: 0,
        }
    }
}

/// A long call in flight; the button that started it stays disabled.
#[derive(Clone, Copy, Debug, PartialEq, Eq, Structural)]
pub enum Busy {
    Launch,
    SessionStart,
    SessionStop,
}

/// Everything a load brings.
#[derive(Debug)]
pub struct Loaded {
    pub apps: Vec<App>,
    pub profiles: Vec<Listed>,
    pub snapshot: Snapshot,
    pub tints: ByName<Tint>,
}

#[derive(Debug)]
pub struct AppState {
    pub nav: Nav,
    pub link: Link,
    pub snapshot: Snapshot,
    pub apps: Vec<App>,
    pub profiles: Vec<Listed>,
    /// Accent colour per package, read from the app's own icon once at load.
    pub tints: ByName<Tint>,
    /// The app the hero shows: the last one the user launched.
    pub featured: Option<String>,
    /// Free-text filter from the search box.
    pub search: String,
    /// Show system apps in the library.
    pub show_system: bool,
    /// Last thing that went wrong, for the banner.
    pub error: Option<String>,
    pub busy: Option<Busy>,
}

/// The first app from `i` on that `f` holds of.
pub open spec fn first_app(apps: Seq<App>, f: spec_fn(App) -> bool, i: int) -> Option<int>
    decreases apps.len() - i,
{
    if i >= apps.len() {
        None
    } else if f(apps[i]) {
        Some(i)
    } else {
        first_app(apps, f, i + 1)
    }
}

/// The index of an app, as an integer.
pub open spec fn place(i: Option<usize>) -> Option<int> {
    match i {
        Some(n) => Some(n as int),
        None => None,
    }
}

/// Whether the package is installed.
pub open spec fn installed(apps: Seq<App>, package: Seq<char>) -> bool {
    exists|i: int| 0 <= i < apps.len() && (#[trigger] apps[i]).package@ == package
}

/// Whether the package has a key mapping.
pub open spec fn mapped(profiles: Seq<Listed>, package: Seq<char>) -> bool {
    exists|i: int| 0 <= i < profiles.len() && (#[trigger] profiles[i]).package@ == package
}

/// Being the app with the package.
pub open spec fn packaged(package: Seq<char>) -> spec_fn(App) -> bool {
    |a: App| a.package@ == package
}

/// The app with the package, if it is installed.
pub open spec fn with_package(apps: Seq<App>, package: Seq<char>) -> Option<int> {
    first_app(apps, packaged(package), 0)
}

/// The first user app with a key mapping, or else the first user app.
pub open spec fn fallback_app(apps: Seq<App>, profiles: Seq<Listed>) -> Option<int> {
    match first_app(apps, |a: App| !a.system && mapped(profiles, a.package@), 0) {
        Some(i) => Some(i),
        None => first_app(apps, |a: App| !a.system, 0),
    }
}

/// The app the hero shows.
pub open spec fn hero_of(
    apps: Seq<App>,
    profiles: Seq<Listed>,
    foreground: Option<Seq<char>>,
    featured: Option<Seq<char>>,
) -> Option<int> {
    let pick = match foreground {
        Some(p) => if installed(apps, p) {
            Some(p)
        } else {
            featured
        },
        None => featured,
    };
    match pick {
        Some(p) => match with_package(apps, p) {
            Some(i) => Some(i),
            None => fallback_app(apps, profiles),
        },
        None => fallback_app(apps, profiles),
    }
}

/// Whether an app stands in the library under a filter. `low` holds the
/// small-letter form of its name and of its package.
pub open spec fn shows(
    a: App,
    low: (Seq<char>, Seq<char>),
    query: Seq<char>,
    show_system: bool,
) -> bool {
    &&& show_system || !a.system
    &&& query.len() == 0 || crate::text::occurs(low.0, query) || crate::text::occurs(low.1, query)
}

/// Which of the first `n` apps stand in the library.
pub open spec fn visible_of(
    apps: Seq<App>,
    low: Seq<(Seq<char>, Seq<char>)>,
    query: Seq<char>,
    show_system: bool,
    n: int,
) -> Seq<int>
    decreases n,
{
    if n <= 0 {
        Seq::empty()
    } else if shows(apps[n - 1], low[n - 1], query, show_system) {
        visible_of(apps, low, query, show_system, n - 1).push(n - 1)
    } else {
        visible_of(apps, low, query, show_system, n - 1)
    }
}

/// Names and packages as plain text.
pub open spec fn pairs(v: Seq<(String, String)>) -> Seq<(Seq<char>, Seq<char>)> {
    v.map_values(|p: (String, String)| (p.0@, p.1@))
}

/// The small-letter forms of the apps' names and packages.
pub open spec fn lowered(apps: Seq<App>) -> Seq<(Seq<char>, Seq<char>)> {
    apps.map_values(
        |a: App| (crate::text::lowercase(a.name@), crate::text::lowercase(a.package@)),
    )
}

/// Which apps stand in the library, given the small-letter form of the trimmed
/// query and of every app's name and package.
pub fn visible_among(
    apps: &Vec<App>,
    low: &Vec<(String, String)>,
    query: &str,
    show_system: bool,
) -> (r: Vec<usize>)
    requires
        low@.len() == apps@.len(),
    ensures
        crate::order::places(r@) == visible_of(
            apps@,
            pairs(low@),
            query@,
            show_system,
            apps@.len() as int,
        ),
        forall|k: int| 0 <= k < r@.len() ==> #[trigger] r@[k] < apps@.len(),
{
    let mut out: Vec<usize> = Vec::new();
    let all: bool = crate::text::same(query, "");
    proof {
        reveal_strlit("");
        assert(all == (query@.len() == 0)) by {
            if query@.len() == 0 {
                assert(query@ =~= ""@);
            }
        }
    }
    let mut i: usize = 0;
    assert(crate::order::places(out@) =~= Seq::<int>::empty());
    while i < apps.len()
        invariant
            i <= apps@.len(),
            low@.len() == apps@.len(),
            all == (query@.len() == 0),
            crate::order::places(out@) == visible_of(
                apps@,
                pairs(low@),
                query@,
                show_system,
                i as int,
            ),
            forall|k: int| 0 <= k < out@.len() ==> #[trigger] out@[k] < apps@.len(),
        decreases apps@.len() - i,
    {
        assert(pairs(low@)[i as int] == (low@[i as int].0@, low@[i as int].1@));
        let named: bool = all || crate::text::contains(low[i].0.as_str(), query)
            || crate::text::contains(low[i].1.as_str(), query);
        if (show_system || !apps[i].system) && named {
            let ghost before = crate::order::places(out@);
            out.push(i);
            assert(crate::order::places(out@) =~= before.push(i as int));
        }
        i = i + 1;
    }
    out
}

impl AppState {
    /// A window that has not heard from the daemon yet.
    pub fn new() -> (r: AppState)
        ensures
            r.nav == Nav::Library,
            r.link is Connecting,
            r.snapshot@ == nothing_said(),
            r.apps@.len() == 0,
            r.profiles@.len() == 0,
            r.tints.wf(),
            r.tints@.len() == 0,
            r.featured is None,
            r.search@ == ""@,
            !r.show_system,
            r.error is None,
            r.busy is None,
    {
        AppState {
            nav: Nav::Library,
            link: Link::Connecting,
            snapshot: Snapshot::default(),
            apps: Vec::new(),
            profiles: Vec::new(),
            tints: ByName::new(),
            featured: None,
            search: "".to_owned(),
            show_system: false,
            error: None,
            busy: None,
        }
    }

    /// The apps the library shows: user apps, or all of them, that the search
    /// finds in their name or their package, whatever the case.
    pub fn visible_apps(&self) -> (r: Vec<usize>)
        ensures
            crate::order::places(r@) == visible_of(
                self.apps@,
                lowered(self.apps@),
                crate::text::lowercase(crate::words::trimmed(self.search@)),
                self.show_system,
                self.apps@.len() as int,
            ),
            forall|k: int| 0 <= k < r@.len() ==> #[trigger] r@[k] < self.apps@.len(),
    {
        let trimmed: String = crate::words::trim(self.search.as_str());
        let query: String = crate::text::to_lowercase(trimmed.as_str());
        let mut low: Vec<(String, String)> = Vec::new();
        let mut i: usize = 0;
        while i < self.apps.len()
            invariant
                i <= self.apps@.len(),
                low@.len() == i,
                forall|k: int|
                    0 <= k < i ==> (#[trigger] low@[k]).0@ == crate::text::lowercase(
                        self.apps@[k].name@,
                    ) && low@[k].1@ == crate::text::lowercase(self.apps@[k].package@),
            decreases self.apps@.len() - i,
        {
            let a: &App = &self.apps[i];
            let name: String = crate::text::to_lowercase(a.name.as_str());
            let package: String = crate::text::to_lowercase(a.package.as_str());
            low.push((name, package));
            i = i + 1;
        }
        assert(pairs(low@) =~= lowered(self.apps@));
        visible_among(&self.apps, &low, query.as_str(), self.show_system)
    }

    /// The accent colour of a package.
    pub fn tint(&self, package: &str) -> (r: Tint)
        requires
            self.tints.wf(),
        ensures
            r == (if self.tints.map().contains_key(package@) {
                self.tints.map()[package@]
            } else {
                crate::tint::neutral_tint()
            }),
    {
        match self.tints.get(package) {
            Some(t) => *t,
            None => Tint::neutral(),
        }
    }

    /// The first app with the package.
    pub fn find(&self, package: &str) -> (r: Option<usize>)
        ensures
            place(r) == with_package(self.apps@, package@),
            r is Some <==> installed(self.apps@, package@),
            r matches Some(i) ==> i < self.apps@.len(),
    {
        let ghost f = packaged(package@);
        let mut i: usize = 0;
        while i < self.apps.len()
            invariant
                i <= self.apps@.len(),
                f == packaged(package@),
                first_app(self.apps@, f, 0) == first_app(self.apps@, f, i as int),
                forall|k: int| 0 <= k < i ==> (#[trigger] self.apps@[k]).package@ != package@,
            decreases self.apps@.len() - i,
        {
            if crate::text::same(self.apps[i].package.as_str(), package) {
                assert(f(self.apps@[i as int]));
                return Some(i);
            }
            assert(!f(self.apps@[i as int]));
            i = i + 1;
        }
        None
    }

    pub fn has_profile(&self, package: &str) -> (r: bool)
        ensures
            r == mapped(self.profiles@, package@),
    {
        let mut i: usize = 0;
        while i < self.profiles.len()
            invariant
                i <= self.profiles@.len(),
                forall|k: int| 0 <= k < i ==> (#[trigger] self.profiles@[k]).package@ != package@,
            decreases self.profiles@.len() - i,
        {
            if crate::text::same(self.profiles[i].package.as_str(), package) {
                assert(self.profiles@[i as int].package@ == package@);
                return true;
            }
            i = i + 1;
        }
        false
    }

    fn fallback(&self) -> (r: Option<usize>)
        ensures
            place(r) == fallback_app(self.apps@, self.profiles@),
            r matches Some(i) ==> i < self.apps@.len(),
    {
        let ghost user = |a: App| !a.system;
        let ghost ready = |a: App| !a.system && mapped(self.profiles@, a.package@);
        let mut first: Option<usize> = None;
        let mut i: usize = 0;
        while i < self.apps.len()
            invariant
                i <= self.apps@.len(),
                user == (|a: App| !a.system),
                ready == (|a: App| !a.system && mapped(self.profiles@, a.package@)),
                first_app(self.apps@, ready, 0) == first_app(self.apps@, ready, i as int),
                match first {
                    Some(k) => k < i && first_app(self.apps@, user, 0) == Some(k as int),
                    None => first_app(self.apps@, user, 0) == first_app(
                        self.apps@,
                        user,
                        i as int,
                    ),
                },
            decreases self.apps@.len() - i,
        {
            let a: &App = &self.apps[i];
            if !a.system {
                assert(user(*a));
                if self.has_profile(a.package.as_str()) {
                    assert(ready(*a));
                    return Some(i);
                }
                assert(!ready(*a));
                match first {
                    None => {
                        first = Some(i);
                    },
                    Some(_) => {},
                }
            } else {
                assert(!user(*a) && !ready(*a));
            }
            i = i + 1;
        }
        first
    }

    /// The app the hero should show.
    ///
    /// Prefers whatever Android has in the foreground, then the last launched,
    /// then the first app with a key mapping: an empty hero on first run would
    /// look broken.
    pub fn hero(&self) -> (r: Option<usize>)
        ensures
            place(r) == hero_of(
                self.apps@,
                self.profiles@,
                self.snapshot@.foreground,
                crate::text::some_text(self.featured),
            ),
            r matches Some(i) ==> i < self.apps@.len(),
    {
        match &self.snapshot.foreground {
            Some(p) => {
                let found: Option<usize> = self.find(p.as_str());
                if found.is_some() {
                    return found;
                }
            },
            None => {},
        }
        match &self.featured {
            Some(p) => {
                let found: Option<usize> = self.find(p.as_str());
                if found.is_some() {
                    return found;
                }
            },
            None => {},
        }
        self.fallback()
    }

    /// Takes in a load, or the reason there was none.
    pub fn loaded(&mut self, outcome: Result<Loaded, String>)
        ensures
            match outcome {
                Ok(l) => *final(self) == (AppState {
                    apps: l.apps,
                    profiles: l.profiles,
                    snapshot: l.snapshot,
                    tints: l.tints,
                    link: Link::Up,
                    ..*old(self)
                }),
                Err(e) => *final(self) == (AppState { link: Link::Down(e), ..*old(self) }),
            },
    {
        match outcome {
            Ok(l) => {
                self.apps = l.apps;
                self.profiles = l.profiles;
                self.snapshot = l.snapshot;
                self.tints = l.tints;
                self.link = Link::Up;
            },
            Err(e) => {
                self.link = Link::Down(e);
            },
        }
    }

    /// Takes in an announced change. Says whether there is anything to redraw.
    pub fn announced(&mut self, s: Snapshot) -> (r: bool)
        ensures
            r == (old(self).snapshot@ != s@),
            *final(self) == (if r {
                AppState { snapshot: s, ..*old(self) }
            } else {
                *old(self)
            }),
    {
        if self.snapshot.same(&s) {
            return false;
        }
        self.snapshot = s;
        true
    }

    /// Asks for an app: it becomes the hero, and the call is in flight.
    pub fn launch(&mut self, package: String)
        ensures
            *final(self) == (AppState {
                featured: Some(package),
                error: None,
                busy: Some(Busy::Launch),
                ..*old(self)
            }),
    {
        self.featured = Some(package);
        self.error = None;
        self.busy = Some(Busy::Launch);
    }

    /// Asks for the session to start, or to stop.
    pub fn session(&mut self, start: bool)
        ensures
            *final(self) == (AppState {
                error: None,
                busy: Some(
                    if start {
                        Busy::SessionStart
                    } else {
                        Busy::SessionStop
                    },
                ),
                ..*old(self)
            }),
    {
        self.error = None;
        self.busy = Some(
            if start {
                Busy::SessionStart
            } else {
                Busy::SessionStop
            },
        );
    }

    /// The call in flight is over, with this error if it failed.
    pub fn finished(&mut self, error: Option<String>)
        ensures
            *final(self) == (AppState { busy: None, error: error, ..*old(self) }),
    {
        self.busy = None;
        self.error = error;
    }
}

proof fn lemma_first_app(apps: Seq<App>, f: spec_fn(App) -> bool, i: int)
    requires
        0 <= i <= apps.len(),
    ensures
        match first_app(apps, f, i) {
            Some(k) => i <= k < apps.len() && f(apps[k]) && forall|j: int|
                i <= j < k ==> !f(#[trigger] apps[j]),
            None => forall|j: int| i <= j < apps.len() ==> !f(#[trigger] apps[j]),
        },
    decreases apps.len() - i,
{
    if i < apps.len() && !f(apps[i]) {
        lemma_first_app(apps, f, i + 1);
    }
}

/// While an installed app is in the foreground the hero shows it, whatever was
/// launched last.
pub proof fn law_the_foreground_app_is_the_hero(
    apps: Seq<App>,
    profiles: Seq<Listed>,
    foreground: Seq<char>,
    featured: Option<Seq<char>>,
)
    requires
        installed(apps, foreground),
    ensures
        hero_of(apps, profiles, Some(foreground), featured) matches Some(i) && 0 <= i < apps.len()
            && apps[i].package@ == foreground,
{
    let f = packaged(foreground);
    lemma_first_app(apps, f, 0);
    let k = choose|k: int| 0 <= k < apps.len() && (#[trigger] apps[k]).package@ == foreground;
    assert(f(apps[k]));
    assert(f(apps[with_package(apps, foreground)->0]));
}

/// The hero is empty only where there is no user app at all.
pub proof fn law_a_user_app_fills_the_hero(
    apps: Seq<App>,
    profiles: Seq<Listed>,
    foreground: Option<Seq<char>>,
    featured: Option<Seq<char>>,
    i: int,
)
    requires
        0 <= i < apps.len(),
        !apps[i].system,
    ensures
        hero_of(apps, profiles, foreground, featured) is Some,
{
    let f = |a: App| !a.system;
    lemma_first_app(apps, f, 0);
    assert(f(apps[i]));
    if foreground is Some && installed(apps, foreground->0) {
        law_the_foreground_app_is_the_hero(apps, profiles, foreground->0, featured);
    }
}

/// The first app that something holds of is one it holds of, and of none before.
pub proof fn law_the_first_app_is_the_first(apps: Seq<App>, f: spec_fn(App) -> bool, k: int)
    requires
        0 <= k,
    ensures
        match first_app(apps, f, k) {
            Some(i) => k <= i < apps.len() && f(apps[i]) && forall|j: int|
                k <= j < i ==> !f(#[trigger] apps[j]),
            None => forall|j: int| k <= j < apps.len() ==> !f(#[trigger] apps[j]),
        },
    decreases apps.len() - k,
{
    if k < apps.len() && !f(apps[k]) {
        law_the_first_app_is_the_first(apps, f, k + 1);
    }
}

/// Without an app in the foreground the one that was launched last is the hero, as
/// long as it is installed. Otherwise it is the first app of the user that has a
/// mapping, else the first of the user's at all; apps of the system never fill in.
pub proof fn law_who_becomes_the_hero(
    apps: Seq<App>,
    profiles: Seq<Listed>,
    foreground: Option<Seq<char>>,
    featured: Option<Seq<char>>,
)
    requires
        foreground is None || !installed(apps, foreground->0),
    ensures
        ({
            let h = hero_of(apps, profiles, foreground, featured);
            let known = featured is Some && installed(apps, featured->0);
            &&& known ==> h is Some && 0 <= h->0 < apps.len() && apps[h->0].package@ == featured->0
            &&& !known ==> match h {
                Some(i) => {
                    &&& 0 <= i < apps.len() && !apps[i].system
                    &&& mapped(profiles, apps[i].package@) ==> forall|j: int|
                        0 <= j < i ==> (#[trigger] apps[j]).system || !mapped(
                            profiles,
                            apps[j].package@,
                        )
                    &&& !mapped(profiles, apps[i].package@) ==> (forall|j: int|
                        0 <= j < i ==> (#[trigger] apps[j]).system) && (forall|j: int|
                        0 <= j < apps.len() ==> (#[trigger] apps[j]).system || !mapped(
                            profiles,
                            apps[j].package@,
                        ))
                },
                None => forall|j: int| 0 <= j < apps.len() ==> (#[trigger] apps[j]).system,
            }
        }),
{
    let good = |a: App| !a.system && mapped(profiles, a.package@);
    let own = |a: App| !a.system;
    law_the_first_app_is_the_first(apps, good, 0);
    law_the_first_app_is_the_first(apps, own, 0);
    if let Some(p) = featured {
        law_the_first_app_is_the_first(apps, packaged(p), 0);
        if installed(apps, p) {
            let i = choose|i: int| 0 <= i < apps.len() && (#[trigger] apps[i]).package@ == p;
            assert(packaged(p)(apps[i]));
        } else if with_package(apps, p) is Some {
            let i = with_package(apps, p)->0;
            assert(packaged(p)(apps[i]));
            assert(apps[i].package@ == p);
        }
    }
    if let Some(i) = first_app(apps, good, 0) {
        assert forall|j: int| 0 <= j < i implies (#[trigger] apps[j]).system || !mapped(
            profiles,
            apps[j].package@,
        ) by {
            assert(!good(apps[j]));
        }
    } else {
        assert forall|j: int| 0 <= j < apps.len() implies (#[trigger] apps[j]).system || !mapped(
            profiles,
            apps[j].package@,
        ) by {
            assert(!good(apps[j]));
        }
        if let Some(i) = first_app(apps, own, 0) {
            assert(apps[i].system || !mapped(profiles, apps[i].package@));
            assert forall|j: int| 0 <= j < i implies (#[trigger] apps[j]).system by {
                assert(!own(apps[j]));
            }
        } else {
            assert forall|j: int| 0 <= j < apps.len() implies (#[trigger] apps[j]).system by {
                assert(!own(apps[j]));
            }
        }
    }
}

/// An app is listed exactly if it may be shown and its name or package holds the
/// search; apps of the system may be shown only where they are asked for. The list
/// keeps the order of the apps.
pub proof fn law_the_list_shows_what_is_searched(
    apps: Seq<App>,
    low: Seq<(Seq<char>, Seq<char>)>,
    query: Seq<char>,
    show_system: bool,
)
    requires
        low.len() == apps.len(),
    ensures
        ({
            let v = visible_of(apps, low, query, show_system, apps.len() as int);
            &&& forall|i: int|
                0 <= i < apps.len() ==> (v.contains(i) <==> (show_system || !(#[trigger] apps[i]).system)
                    && (query.len() == 0 || crate::text::occurs(low[i].0, query)
                    || crate::text::occurs(low[i].1, query)))
            &&& forall|a: int, b: int|
                0 <= a < b < v.len() ==> 0 <= #[trigger] v[a] < #[trigger] v[b] < apps.len()
            &&& forall|a: int| 0 <= a < v.len() ==> 0 <= #[trigger] v[a] < apps.len()
        }),
{
    lemma_visible(apps, low, query, show_system, apps.len() as int);
}

proof fn lemma_visible(
    apps: Seq<App>,
    low: Seq<(Seq<char>, Seq<char>)>,
    query: Seq<char>,
    show_system: bool,
    n: int,
)
    requires
        low.len() == apps.len(),
        0 <= n <= apps.len(),
    ensures
        ({
            let v = visible_of(apps, low, query, show_system, n);
            &&& forall|i: int|
                0 <= i < n ==> (v.contains(i) <==> (show_system || !(#[trigger] apps[i]).system) && (
                query.len() == 0 || crate::text::occurs(low[i].0, query) || crate::text::occurs(
                    low[i].1,
                    query,
                )))
            &&& forall|a: int| 0 <= a < v.len() ==> 0 <= #[trigger] v[a] < n
            &&& forall|a: int, b: int| 0 <= a < b < v.len() ==> #[trigger] v[a] < #[trigger] v[b]
        }),
    decreases n,
{
    if n > 0 {
        lemma_visible(apps, low, query, show_system, n - 1);
        let before = visible_of(apps, low, query, show_system, n - 1);
        let v = visible_of(apps, low, query, show_system, n);
        assert forall|i: int| 0 <= i < n implies (v.contains(i) <==> (show_system || !(
        #[trigger] apps[i]).system) && (query.len() == 0 || crate::text::occurs(low[i].0, query)
            || crate::text::occurs(low[i].1, query))) by {
            if before.contains(i) {
                let k = choose|k: int| 0 <= k < before.len() && before[k] == i;
                assert(v[k] == i);
            }
            if v.contains(i) {
                let k = choose|k: int| 0 <= k < v.len() && v[k] == i;
                if k < before.len() {
                    assert(before[k] == i);
                }
            }
            if i == n - 1 && shows(apps[n - 1], low[n - 1], query, show_system) {
                assert(v.last() == i);
            }
        }
    }
}

} // verus!
