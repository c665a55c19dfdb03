//! The library page: a hero for what is being played, then the games, then the
//! rest; and the list of key mappings beside it.

use crate::state::{App, AppState, Listed};
use vstd::prelude::*;
use vstd::string::*;

verus! {

/// The store is not a game: it sits at the end of the row as its own action.
pub const STORE: &'static str = "com.android.vending";

/// The other store there may be.
pub const AURORA: &'static str = "com.aurora.store";

/// How many other games the hero lists at most, and how few are not worth it.
pub const SIDE_MOST: usize = 5;

pub const SIDE_LEAST: usize = 4;

/// The capital form of a character, as Unicode defines it.
pub uninterp spec fn uppercase(c: char) -> Seq<char>;

/// `char::to_uppercase`: the capital form of a character, which may be more than
/// one. It depends on the character alone; what it is for a given one is not said
/// here.
#[verifier::external_body]
fn to_uppercase(c: char) -> (r: String)
    ensures
        r@ == uppercase(c),
{
    c.to_uppercase().to_string()
}

/// A user app that is not the store.
pub open spec fn is_game(a: App) -> bool {
    !a.system && a.package@ != STORE@
}

fn game(a: &App) -> (r: bool)
    ensures
        r == is_game(*a),
{
    !a.system && !crate::text::same(a.package.as_str(), STORE)
}

/// Those among the first `n` picks that are games, or system apps.
pub open spec fn picked(apps: Seq<App>, picks: Seq<int>, games: bool, n: int) -> Seq<int>
    decreases n,
{
    if n <= 0 {
        Seq::empty()
    } else {
        let a = apps[picks[n - 1]];
        let before = picked(apps, picks, games, n - 1);
        if (if games {
            is_game(a)
        } else {
            a.system
        }) {
            before.push(picks[n - 1])
        } else {
            before
        }
    }
}

fn pick(apps: &Vec<App>, picks: &Vec<usize>, games: bool) -> (r: Vec<usize>)
    requires
        forall|k: int| 0 <= k < picks@.len() ==> #[trigger] picks@[k] < apps@.len(),
    ensures
        crate::order::places(r@) == picked(
            apps@,
            crate::order::places(picks@),
            games,
            picks@.len() as int,
        ),
        forall|k: int| 0 <= k < r@.len() ==> #[trigger] r@[k] < apps@.len(),
{
    let mut out: Vec<usize> = Vec::new();
    let ghost p = crate::order::places(picks@);
    let mut i: usize = 0;
    assert(crate::order::places(out@) =~= Seq::<int>::empty());
    while i < picks.len()
        invariant
            i <= picks@.len(),
            p == crate::order::places(picks@),
            forall|k: int| 0 <= k < picks@.len() ==> #[trigger] picks@[k] < apps@.len(),
            crate::order::places(out@) == picked(apps@, p, games, i as int),
            forall|k: int| 0 <= k < out@.len() ==> #[trigger] out@[k] < apps@.len(),
        decreases picks@.len() - i,
    {
        let at: usize = picks[i];
        assert(p[i as int] == at as int);
        let fits: bool = if games {
            game(&apps[at])
        } else {
            apps[at].system
        };
        if fits {
            let ghost before = crate::order::places(out@);
            out.push(at);
            assert(crate::order::places(out@) =~= before.push(at as int));
        }
        i = i + 1;
    }
    out
}

/// How many of the first `n` apps are system apps.
pub open spec fn system_apps(apps: Seq<App>, n: int) -> nat
    decreases n,
{
    if n <= 0 {
        0
    } else {
        system_apps(apps, n - 1) + if apps[n - 1].system {
            1nat
        } else {
            0
        }
    }
}

/// The library page.
#[derive(Debug)]
pub struct Page {
    pub hero: Option<usize>,
    pub games: Vec<usize>,
    /// The store's card, after the games so that it does not move as they come
    /// and go; the card that installs a file follows it.
    pub store: Option<usize>,
    pub system: Vec<usize>,
    /// What the system section counts and its button says; none where there is
    /// nothing to show or hide.
    pub section: Option<(usize, String)>,
    /// What stands in place of the cards when there is no game.
    pub empty: Option<Empty>,
}

/// What an empty library says.
#[derive(Clone, Copy, Debug, PartialEq, Eq, Structural)]
pub enum Empty {
    /// The search found nothing.
    NoMatch,
    /// There is nothing to find.
    NoGames,
}

impl Empty {
    pub open spec fn text(self) -> Seq<Seq<char>> {
        match self {
            Empty::NoMatch => seq!["Nothing matches that"@],
            Empty::NoGames => seq![
                "No games yet"@,
                "Install something from the Play Store inside Android; it appears here once Waydroid writes its desktop entry."@,
            ],
        }
    }

    pub fn lines(self) -> (r: Vec<String>)
        ensures
            crate::text::texts(r@) == self.text(),
    {
        let mut out: Vec<String> = crate::say::page();
        match self {
            Empty::NoMatch => {
                crate::say::say(&mut out, "Nothing matches that");
            },
            Empty::NoGames => {
                crate::say::say(&mut out, "No games yet");
                crate::say::say(
                    &mut out,
                    "Install something from the Play Store inside Android; it appears here once Waydroid writes its desktop entry.",
                );
            },
        }
        assert(crate::text::texts(out@) =~= self.text());
        out
    }
}

/// The system section: what it counts and what its button says. The hidden count
/// stands there while they are hidden: "System apps 0" next to a "Show 12"
/// button contradicts itself.
pub open spec fn section_of(rows: int, hidden: int, show_system: bool) -> Option<(int, Seq<char>)> {
    if rows == 0 && hidden == 0 {
        None
    } else if show_system {
        Some((rows, "Hide"@))
    } else {
        Some((hidden, "Show "@ + crate::text::decimal(hidden as nat)))
    }
}

/// The system section, as plain values.
pub open spec fn section_view(s: Option<(usize, String)>) -> Option<(int, Seq<char>)> {
    match s {
        Some(p) => Some((p.0 as int, p.1@)),
        None => None,
    }
}

/// The page of a window whose visible apps are `visible`.
pub fn page_of(s: &AppState, visible: &Vec<usize>) -> (r: Page)
    requires
        forall|k: int| 0 <= k < visible@.len() ==> #[trigger] visible@[k] < s.apps@.len(),
    ensures
        crate::state::place(r.hero) == crate::state::hero_of(
            s.apps@,
            s.profiles@,
            s.snapshot@.foreground,
            crate::text::some_text(s.featured),
        ),
        ({
            let v = crate::order::places(visible@);
            let n = visible@.len() as int;
            &&& crate::order::places(r.games@) == picked(s.apps@, v, true, n)
            &&& crate::order::places(r.system@) == picked(s.apps@, v, false, n)
        }),
        crate::state::place(r.store) == crate::state::with_package(s.apps@, STORE@),
        section_view(r.section) == section_of(
            r.system@.len() as int,
            system_apps(s.apps@, s.apps@.len() as int) as int,
            s.show_system,
        ),
        r.empty == (if r.games@.len() > 0 {
            None
        } else if crate::words::trimmed(s.search@).len() > 0 {
            Some(Empty::NoMatch)
        } else {
            Some(Empty::NoGames)
        }),
{
    let games: Vec<usize> = pick(&s.apps, visible, true);
    let system: Vec<usize> = pick(&s.apps, visible, false);
    let mut hidden: usize = 0;
    let mut i: usize = 0;
    while i < s.apps.len()
        invariant
            i <= s.apps@.len(),
            hidden == system_apps(s.apps@, i as int),
            hidden <= i,
        decreases s.apps@.len() - i,
    {
        if s.apps[i].system {
            hidden = hidden + 1;
        }
        i = i + 1;
    }
    let section: Option<(usize, String)> = if system.len() == 0 && hidden == 0 {
        None
    } else if s.show_system {
        Some((system.len(), "Hide".to_owned()))
    } else {
        let n: String = crate::say::count(hidden as u64);
        Some((hidden, crate::say::cat2("Show ", n.as_str())))
    };
    let empty: Option<Empty> = if games.len() > 0 {
        None
    } else {
        let query: String = crate::words::trim(s.search.as_str());
        let searching: bool = !crate::text::same(query.as_str(), "");
        proof {
            reveal_strlit("");
            if query@.len() == 0 {
                assert(query@ =~= ""@);
            }
        }
        if searching {
            Some(Empty::NoMatch)
        } else {
            Some(Empty::NoGames)
        }
    };
    Page { hero: s.hero(), games, store: s.find(STORE), system, section, empty }
}

/// The library page: the hero, the games the search leaves, the store, and the
/// system apps where they are shown.
pub fn render(s: &AppState) -> (r: Page)
    ensures
        crate::state::place(r.hero) == crate::state::hero_of(
            s.apps@,
            s.profiles@,
            s.snapshot@.foreground,
            crate::text::some_text(s.featured),
        ),
        ({
            let v = crate::state::visible_of(
                s.apps@,
                crate::state::lowered(s.apps@),
                crate::text::lowercase(crate::words::trimmed(s.search@)),
                s.show_system,
                s.apps@.len() as int,
            );
            &&& crate::order::places(r.games@) == picked(s.apps@, v, true, v.len() as int)
            &&& crate::order::places(r.system@) == picked(s.apps@, v, false, v.len() as int)
        }),
        crate::state::place(r.store) == crate::state::with_package(s.apps@, STORE@),
        section_view(r.section) == section_of(
            r.system@.len() as int,
            system_apps(s.apps@, s.apps@.len() as int) as int,
            s.show_system,
        ),
        r.empty == (if r.games@.len() > 0 {
            None
        } else if crate::words::trimmed(s.search@).len() > 0 {
            Some(Empty::NoMatch)
        } else {
            Some(Empty::NoGames)
        }),
{
    let visible: Vec<usize> = s.visible_apps();
    page_of(s, &visible)
}

/// The games other than `current` among the first `n` apps, at most `most`.
pub open spec fn others_of(apps: Seq<App>, current: Seq<char>, most: int, n: int) -> Seq<int>
    decreases n,
{
    if n <= 0 {
        Seq::empty()
    } else {
        let before = others_of(apps, current, most, n - 1);
        if is_game(apps[n - 1]) && apps[n - 1].package@ != current && before.len() < most {
            before.push(n - 1)
        } else {
            before
        }
    }
}

/// The other games down the right of the hero. Below a handful the list would
/// only be the cards underneath it, written out again.
pub open spec fn side_of(apps: Seq<App>, current: Seq<char>) -> Seq<int> {
    let others = others_of(apps, current, SIDE_MOST as int, apps.len() as int);
    if others.len() < SIDE_LEAST {
        Seq::empty()
    } else {
        others
    }
}

/// The other games listed beside the hero. Clicking one makes it the hero; a
/// launch belongs behind the button.
pub fn hero_side(apps: &Vec<App>, current: &str) -> (r: Vec<usize>)
    ensures
        crate::order::places(r@) == side_of(apps@, current@),
        forall|k: int| 0 <= k < r@.len() ==> #[trigger] r@[k] < apps@.len(),
{
    let mut out: Vec<usize> = Vec::new();
    let mut i: usize = 0;
    assert(crate::order::places(out@) =~= Seq::<int>::empty());
    while i < apps.len()
        invariant
            i <= apps@.len(),
            crate::order::places(out@) == others_of(apps@, current@, SIDE_MOST as int, i as int),
            forall|k: int| 0 <= k < out@.len() ==> #[trigger] out@[k] < apps@.len(),
        decreases apps@.len() - i,
    {
        let a: &App = &apps[i];
        if game(a) && !crate::text::same(a.package.as_str(), current) && out.len() < SIDE_MOST {
            let ghost before = crate::order::places(out@);
            out.push(i);
            assert(crate::order::places(out@) =~= before.push(i as int));
        }
        i = i + 1;
    }
    if out.len() < SIDE_LEAST {
        let none: Vec<usize> = Vec::new();
        assert(crate::order::places(none@) =~= Seq::<int>::empty());
        return none;
    }
    out
}

/// What the hero says of an app.
#[derive(Debug)]
pub struct Hero {
    pub title: String,
    pub subtitle: String,
    pub button: &'static str,
    /// Whether the button does anything.
    pub enabled: bool,
    /// What stands beside the button of an app without a key mapping.
    pub note: Option<&'static str>,
    pub side: Vec<usize>,
}

/// The words under the hero's title.
pub open spec fn subtitle_of(a: App, running: bool, mapped: bool) -> Seq<char> {
    if running {
        "Running now"@
    } else if mapped {
        "Key mapping ready"@
    } else {
        a.package@
    }
}

/// What a hero's button says.
pub open spec fn hero_button(busy: bool, running: bool) -> Seq<char> {
    if busy {
        "working…"@
    } else if running {
        "Bring to front"@
    } else {
        "Play"@
    }
}

/// The hero for the app at `i`. It follows the foreground app while Android is
/// running.
pub fn hero(s: &AppState, i: usize) -> (r: Hero)
    requires
        i < s.apps@.len(),
    ensures
        ({
            let a = s.apps@[i as int];
            let running = s.snapshot@.foreground == Some(a.package@);
            let mapped = crate::state::mapped(s.profiles@, a.package@);
            &&& r.title@ == a.name@
            &&& r.subtitle@ == subtitle_of(a, running, mapped)
            &&& r.button@ == hero_button(s.busy is Some, running)
            &&& r.enabled == (s.busy is None)
            &&& crate::text::maybe(r.note) == (if mapped {
                None
            } else {
                Some("No key mapping yet"@)
            })
            &&& crate::order::places(r.side@) == side_of(s.apps@, a.package@)
        }),
{
    let a: &App = &s.apps[i];
    let running: bool = match &s.snapshot.foreground {
        Some(p) => crate::text::same(p.as_str(), a.package.as_str()),
        None => false,
    };
    let mapped: bool = s.has_profile(a.package.as_str());
    let busy: bool = s.busy.is_some();
    let subtitle: String = if running {
        "Running now".to_owned()
    } else if mapped {
        "Key mapping ready".to_owned()
    } else {
        a.package.clone()
    };
    let button: &'static str = if busy {
        "working…"
    } else if running {
        "Bring to front"
    } else {
        "Play"
    };
    let note: Option<&'static str> = if mapped {
        None
    } else {
        Some("No key mapping yet")
    };
    Hero {
        title: a.name.clone(),
        subtitle,
        button,
        enabled: !busy,
        note,
        side: hero_side(&s.apps, a.package.as_str()),
    }
}

/// What a card says under its name.
pub fn caption(mapped: bool) -> (r: &'static str)
    ensures
        r@ == (if mapped {
            "key mapping"@
        } else {
            "—"@
        }),
{
    if mapped {
        "key mapping"
    } else {
        "—"
    }
}

/// What is drawn in place of an icon, given the name's first character and its
/// capital form.
pub open spec fn initial_of(name: Seq<char>, capital: Seq<char>) -> Seq<char> {
    if name.len() == 0 {
        "?"@
    } else {
        capital
    }
}

/// What is drawn for an app without an icon: the capital its name starts with.
pub fn initial(name: &str) -> (r: String)
    ensures
        r@ == initial_of(name@, uppercase(name@[0])),
{
    let cs: Vec<char> = crate::text::chars_of(name);
    if cs.len() == 0 {
        return "?".to_owned();
    }
    to_uppercase(cs[0])
}

/// What a mapping's button does.
#[derive(Clone, Copy, Debug, PartialEq, Eq, Structural)]
pub enum Act {
    /// Nothing: a call is in flight.
    Wait,
    Launch,
    /// Opens the store at that page. It does not install: that would mean owning
    /// downloads, signatures and updates.
    OpenStore,
}

/// A key mapping in the list: its game may be installed or not.
#[derive(Debug)]
pub struct Row {
    pub name: String,
    pub package: String,
    pub bindings: String,
    pub installed: bool,
    /// The app whose icon is shown.
    pub app: Option<usize>,
    pub button: &'static str,
    pub act: Act,
}

/// A row as plain values.
#[verifier::ext_equal]
pub struct RowView {
    pub name: Seq<char>,
    pub package: Seq<char>,
    pub bindings: Seq<char>,
    pub installed: bool,
    pub app: Option<int>,
    pub button: Seq<char>,
    pub act: Act,
}

impl View for Row {
    type V = RowView;

    open spec fn view(&self) -> RowView {
        RowView {
            name: self.name@,
            package: self.package@,
            bindings: self.bindings@,
            installed: self.installed,
            app: crate::state::place(self.app),
            button: self.button@,
            act: self.act,
        }
    }
}

/// What a mapping's button says, and does.
pub open spec fn button_of(busy: bool, installed: bool) -> (Seq<char>, Act) {
    if busy {
        ("…"@, Act::Wait)
    } else if installed {
        ("Play"@, Act::Launch)
    } else {
        ("Install"@, Act::OpenStore)
    }
}

/// The row of a key mapping.
pub open spec fn row_of(apps: Seq<App>, p: Listed, busy: bool) -> RowView {
    let installed = crate::state::installed(apps, p.package@);
    let button = button_of(busy, installed);
    RowView {
        name: p.name@,
        package: p.package@,
        bindings: crate::text::decimal(p.bindings as nat) + " bindings"@,
        installed,
        app: crate::state::with_package(apps, p.package@),
        button: button.0,
        act: button.1,
    }
}

/// Rows as plain values.
pub open spec fn rows(v: Seq<Row>) -> Seq<RowView> {
    v.map_values(|r: Row| r@)
}

/// The row of one key mapping.
pub fn entry(s: &AppState, p: &Listed) -> (r: Row)
    ensures
        r@ == row_of(s.apps@, *p, s.busy is Some),
{
    let app: Option<usize> = s.find(p.package.as_str());
    let installed: bool = app.is_some();
    let busy: bool = s.busy.is_some();
    let n: String = crate::say::count(p.bindings);
    let (button, act): (&'static str, Act) = if busy {
        ("…", Act::Wait)
    } else if installed {
        ("Play", Act::Launch)
    } else {
        ("Install", Act::OpenStore)
    };
    Row {
        name: p.name.clone(),
        package: p.package.clone(),
        bindings: crate::say::cat2(n.as_str(), " bindings"),
        installed,
        app,
        button,
        act,
    }
}

/// The key mappings, and whether their games are installed.
pub fn entries(s: &AppState) -> (r: Vec<Row>)
    ensures
        rows(r@) == s.profiles@.map_values(|p: Listed| row_of(s.apps@, p, s.busy is Some)),
{
    let mut out: Vec<Row> = Vec::new();
    let ghost all = s.profiles@.map_values(|p: Listed| row_of(s.apps@, p, s.busy is Some));
    let mut i: usize = 0;
    while i < s.profiles.len()
        invariant
            i <= s.profiles@.len(),
            all == s.profiles@.map_values(|p: Listed| row_of(s.apps@, p, s.busy is Some)),
            rows(out@) == all.take(i as int),
        decreases s.profiles@.len() - i,
    {
        let ghost before = out@;
        let row: Row = entry(s, &s.profiles[i]);
        assert(row@ == all[i as int]);
        out.push(row);
        assert(rows(out@) =~= rows(before).push(all[i as int]));
        assert(all.take(i + 1) =~= all.take(i as int).push(all[i as int]));
        i = i + 1;
    }
    assert(all.take(i as int) =~= all);
    out
}

/// Where games come from: what is said of the Play Store and of Aurora Store,
/// and whether each can be opened.
pub fn sources(s: &AppState) -> (r: ((&'static str, bool), (&'static str, bool)))
    ensures
        r.0.1 == crate::state::installed(s.apps@, STORE@),
        r.0.0@ == (if r.0.1 {
            "Installed — browse and install there"@
        } else {
            "Not installed on this image"@
        }),
        r.1.1 == crate::state::installed(s.apps@, AURORA@),
        r.1.0@ == (if r.1.1 {
            "Installed — full catalogue, no Google account needed"@
        } else {
            "Not installed — get the APK from auroraoss.com, then Install APK below"@
        }),
{
    let play: bool = s.find(STORE).is_some();
    let aurora: bool = s.find(AURORA).is_some();
    let play_note: &'static str = if play {
        "Installed — browse and install there"
    } else {
        "Not installed on this image"
    };
    let aurora_note: &'static str = if aurora {
        "Installed — full catalogue, no Google account needed"
    } else {
        "Not installed — get the APK from auroraoss.com, then Install APK below"
    };
    ((play_note, play), (aurora_note, aurora))
}

proof fn lemma_others(apps: Seq<App>, current: Seq<char>, most: int, n: int)
    requires
        0 <= n <= apps.len(),
        most >= 0,
    ensures
        others_of(apps, current, most, n).len() <= most,
        forall|k: int|
            0 <= k < others_of(apps, current, most, n).len() ==> {
                let i = #[trigger] others_of(apps, current, most, n)[k];
                0 <= i < n && is_game(apps[i]) && apps[i].package@ != current
            },
    decreases n,
{
    if n > 0 {
        lemma_others(apps, current, most, n - 1);
    }
}

/// The list beside the hero never names the hero itself, the store or a system
/// app, and never more than a handful.
pub proof fn law_the_side_list_holds_other_games(apps: Seq<App>, current: Seq<char>)
    ensures
        side_of(apps, current).len() <= SIDE_MOST,
        forall|k: int|
            0 <= k < side_of(apps, current).len() ==> {
                let i = #[trigger] side_of(apps, current)[k];
                0 <= i < apps.len() && is_game(apps[i]) && apps[i].package@ != current
            },
{
    lemma_others(apps, current, SIDE_MOST as int, apps.len() as int);
}

/// A game is an app of the user's other than the store.
pub proof fn law_what_counts_as_a_game(a: App)
    ensures
        is_game(a) <==> !a.system && a.package@ != "com.android.vending"@,
{
}

/// The games and the system's apps of a page are picked from what is visible, in
/// order.
pub proof fn law_a_page_sorts_games_from_system(apps: Seq<App>, picks: Seq<int>)
    ensures
        picked(apps, picks, true, picks.len() as int) == picks.filter(|i: int| is_game(apps[i])),
        picked(apps, picks, false, picks.len() as int) == picks.filter(|i: int| apps[i].system),
{
    lemma_picked(apps, picks, picks.len() as int);
    assert(picks.take(picks.len() as int) =~= picks);
}

proof fn lemma_picked(apps: Seq<App>, picks: Seq<int>, n: int)
    requires
        0 <= n <= picks.len(),
    ensures
        picked(apps, picks, true, n) == picks.take(n).filter(|i: int| is_game(apps[i])),
        picked(apps, picks, false, n) == picks.take(n).filter(|i: int| apps[i].system),
    decreases n,
{
    let games = |i: int| is_game(apps[i]);
    let own = |i: int| apps[i].system;
    reveal(Seq::filter);
    if n == 0 {
        assert(picks.take(0).filter(games) =~= Seq::<int>::empty());
        assert(picks.take(0).filter(own) =~= Seq::<int>::empty());
    } else {
        lemma_picked(apps, picks, n - 1);
        assert(picks.take(n).drop_last() =~= picks.take(n - 1));
        assert(picks.take(n).last() == picks[n - 1]);
    }
}

/// The hidden apps are counted as they are.
pub proof fn law_every_system_app_is_counted(apps: Seq<App>)
    ensures
        system_apps(apps, apps.len() as int) == apps.filter(|a: App| a.system).len(),
{
    lemma_system_apps(apps, apps.len() as int);
    assert(apps.take(apps.len() as int) =~= apps);
}

proof fn lemma_system_apps(apps: Seq<App>, n: int)
    requires
        0 <= n <= apps.len(),
    ensures
        system_apps(apps, n) == apps.take(n).filter(|a: App| a.system).len(),
    decreases n,
{
    let own = |a: App| a.system;
    reveal(Seq::filter);
    if n == 0 {
        assert(apps.take(0).filter(own) =~= Seq::<App>::empty());
    } else {
        lemma_system_apps(apps, n - 1);
        assert(apps.take(n).drop_last() =~= apps.take(n - 1));
        assert(apps.take(n).last() == apps[n - 1]);
    }
}

/// The section of system apps is there where there is something in it: shown, it
/// counts what it shows; hidden, what it hides.
pub proof fn law_the_system_section_counts(rows: int, hidden: int, show_system: bool)
    ensures
        section_of(rows, hidden, show_system) is None <==> rows == 0 && hidden == 0,
        match section_of(rows, hidden, show_system) {
            Some((n, _)) => n == if show_system {
                rows
            } else {
                hidden
            },
            None => true,
        },
{
}

/// The side list holds the first games other than the one shown, at most five, and
/// nothing where there are fewer than four.
pub proof fn law_the_side_list_is_the_first_games(apps: Seq<App>, current: Seq<char>)
    ensures
        ({
            let all = others_of(apps, current, 5, apps.len() as int);
            &&& all.len() <= 5
            &&& side_of(apps, current) == if all.len() < 4 {
                Seq::<int>::empty()
            } else {
                all
            }
            &&& forall|i: int|
                0 <= i < apps.len() && is_game(#[trigger] apps[i]) && apps[i].package@ != current
                    ==> all.contains(i) || (all.len() == 5 && all.last() < i)
            &&& forall|a: int|
                0 <= a < all.len() ==> 0 <= #[trigger] all[a] < apps.len() && is_game(apps[all[a]])
                    && apps[all[a]].package@ != current
            &&& forall|a: int, b: int| 0 <= a < b < all.len() ==> #[trigger] all[a] < #[trigger] all[b]
        }),
{
    lemma_first_others(apps, current, 5, apps.len() as int);
}

proof fn lemma_first_others(apps: Seq<App>, current: Seq<char>, most: int, n: int)
    requires
        0 <= n <= apps.len(),
        most > 0,
    ensures
        ({
            let all = others_of(apps, current, most, n);
            &&& all.len() <= most
            &&& forall|i: int|
                0 <= i < n && is_game(#[trigger] apps[i]) && apps[i].package@ != current
                    ==> all.contains(i) || (all.len() == most && all.last() < i)
            &&& forall|a: int|
                0 <= a < all.len() ==> 0 <= #[trigger] all[a] < n && is_game(apps[all[a]])
                    && apps[all[a]].package@ != current
            &&& forall|a: int, b: int| 0 <= a < b < all.len() ==> #[trigger] all[a] < #[trigger] all[b]
        }),
    decreases n,
{
    if n > 0 {
        lemma_first_others(apps, current, most, n - 1);
        let before = others_of(apps, current, most, n - 1);
        let all = others_of(apps, current, most, n);
        assert forall|i: int|
            0 <= i < n && is_game(#[trigger] apps[i]) && apps[i].package@ != current implies all.contains(
        i) || (all.len() == most && all.last() < i) by {
            if i < n - 1 {
                if before.contains(i) {
                    let k = choose|k: int| 0 <= k < before.len() && before[k] == i;
                    assert(all[k] == i);
                }
            } else if before.len() < most {
                assert(all.last() == i);
            } else {
                assert(all.last() < n - 1);
            }
        }
    }
}

/// A row tells its own profile: its name, its package, whether that app is
/// installed and which it is. Its button launches an installed app, opens the store
/// for another, and waits while something is going on.
pub proof fn law_a_row_tells_its_profile(apps: Seq<App>, p: Listed, busy: bool)
    ensures
        ({
            let r = row_of(apps, p, busy);
            &&& r.name == p.name@
            &&& r.package == p.package@
            &&& r.installed <==> exists|i: int|
                0 <= i < apps.len() && (#[trigger] apps[i]).package@ == p.package@
            &&& r.act == Act::Wait <==> busy
            &&& r.act == Act::Launch <==> !busy && r.installed
            &&& r.act == Act::OpenStore <==> !busy && !r.installed
            &&& crate::text::opens_with(r.bindings, crate::text::decimal(p.bindings as nat))
            &&& r.installed ==> r.app is Some && 0 <= r.app->0 < apps.len()
                && apps[r.app->0].package@ == p.package@
            &&& !r.installed ==> r.app is None
        }),
{
    let r = row_of(apps, p, busy);
    let d = crate::text::decimal(p.bindings as nat);
    assert(r.bindings.subrange(0, d.len() as int) =~= d);
    let own = crate::state::packaged(p.package@);
    crate::state::law_the_first_app_is_the_first(apps, own, 0);
    if r.installed {
        let i = choose|i: int| 0 <= i < apps.len() && (#[trigger] apps[i]).package@ == p.package@;
        assert(own(apps[i]));
    } else if let Some(i) = crate::state::first_app(apps, own, 0) {
        assert(own(apps[i]));
        assert(apps[i].package@ == p.package@);
    }
}

/// What runs says so, then what can be played with keys; only an app that is neither is
/// shown by its package. The button says what pressing it does.
pub proof fn law_the_front_app_tells_its_state(a: App, running: bool, mapped: bool, busy: bool)
    ensures
        running ==> subtitle_of(a, running, mapped) == "Running now"@,
        !running && mapped ==> subtitle_of(a, running, mapped) == "Key mapping ready"@,
        !running && !mapped ==> subtitle_of(a, running, mapped) == a.package@,
        busy ==> hero_button(busy, running) == "working…"@,
        !busy && running ==> hero_button(busy, running) == "Bring to front"@,
        !busy && !running ==> hero_button(busy, running) == "Play"@,
{
}

} // verus!
