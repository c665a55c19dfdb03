//! The profile store from a terminal: listing, showing and installing.

use crate::profile::{Binding, Bindings};
use crate::num::Num;
use crate::store::{BadProfile, Entry, Origin, Store};
use crate::touch::Norm;
use vstd::prelude::*;
use vstd::string::*;

verus! {

pub open spec fn origin_text(o: Origin) -> Seq<char> {
    match o {
        Origin::User => "user"@,
        Origin::System => "sistem"@,
        Origin::Bundled => "depo"@,
    }
}

/// Where a profile comes from, in a word.
pub fn origin_label(o: Origin) -> (r: &'static str)
    ensures
        r@ == origin_text(o),
{
    match o {
        Origin::User => "user",
        Origin::System => "sistem",
        Origin::Bundled => "depo",
    }
}

/// The profiles that failed to load, two lines each.
pub open spec fn problem_lines(p: Seq<(Seq<char>, Seq<char>)>, n: int) -> Seq<Seq<char>>
    decreases n,
{
    if n <= 0 {
        Seq::empty()
    } else {
        problem_lines(p, n - 1) + seq!["  "@ + p[n - 1].0, "    "@ + p[n - 1].1]
    }
}

/// What is said about profiles that failed to load.
pub open spec fn problems_lines(p: Seq<(Seq<char>, Seq<char>)>) -> Seq<Seq<char>> {
    if p.len() == 0 {
        Seq::empty()
    } else {
        seq![
            ""@,
            "PROFILES THAT FAILED TO LOAD ("@ + crate::text::decimal(p.len()) + "):"@,
        ] + problem_lines(p, p.len() as int)
    }
}

/// What is said about profiles that failed to load.
pub fn report_problems(p: &Vec<BadProfile>) -> (r: Vec<String>)
    ensures
        crate::text::texts(r@) == problems_lines(crate::store::reports(p@)),
{
    let mut out: Vec<String> = crate::say::page();
    let ghost t = crate::store::reports(p@);
    assert(t.len() == p@.len());
    if p.len() == 0 {
        assert(crate::text::texts(out@) =~= problems_lines(t));
        return out;
    }
    crate::say::say(&mut out, "");
    let n: String = crate::say::count(p.len() as u64);
    crate::say::put(
        &mut out,
        crate::say::cat3("PROFILES THAT FAILED TO LOAD (", n.as_str(), "):"),
    );
    let ghost head = crate::text::texts(out@);
    let mut i: usize = 0;
    assert(head + problem_lines(t, 0) =~= head);
    while i < p.len()
        invariant
            i <= p@.len(),
            t == crate::store::reports(p@),
            crate::text::texts(out@) == head + problem_lines(t, i as int),
        decreases p@.len() - i,
    {
        assert(t[i as int] == (p@[i as int].path@, p@[i as int].error@));
        crate::say::put(&mut out, crate::say::cat2("  ", p[i].path.as_str()));
        crate::say::put(&mut out, crate::say::cat2("    ", p[i].error.as_str()));
        assert(crate::text::texts(out@) =~= head + problem_lines(t, i + 1));
        i = i + 1;
    }
    assert(crate::text::texts(out@) =~= problems_lines(t));
    out
}

pub open spec fn row(a: Seq<char>, b: Seq<char>, c: Seq<char>, d: Seq<char>) -> Seq<char> {
    crate::say::padded(a, 34) + " "@ + crate::say::padded(b, 10) + " "@ + (crate::say::padded(c, 5)
        + " "@ + d)
}

fn row_text(a: &str, b: &str, c: &str, d: &str) -> (r: String)
    ensures
        r@ == row(a@, b@, c@, d@),
{
    let a: String = crate::say::pad(a, 34);
    let b: String = crate::say::pad(b, 10);
    let c: String = crate::say::pad(c, 5);
    let tail: String = crate::say::cat3(c.as_str(), " ", d);
    crate::say::cat5(a.as_str(), " ", b.as_str(), " ", tail.as_str())
}

pub open spec fn entry_row(e: Entry) -> Seq<char> {
    row(
        e.profile.package@,
        origin_text(e.origin),
        crate::text::decimal(e.profile.bindings@.len()),
        e.profile.name@,
    )
}

/// The profiles there are. `user_dir` is where the user's own would lie.
pub open spec fn list_lines(known: Seq<(String, Entry)>, user_dir: Option<Seq<char>>) -> Seq<
    Seq<char>,
> {
    if known.len() == 0 {
        let own: Seq<Seq<char>> = match user_dir {
            Some(d) => seq!["  "@ + d],
            None => Seq::empty(),
        };
        seq!["No profiles found."@, "Aranan yerler:"@] + own + seq![
            "  /usr/share/liwinux/profiles"@,
            "  ./profiles"@,
        ]
    } else {
        seq![row("PACKAGE"@, "SOURCE"@, "BIND"@, "NAME"@)] + known.map_values(
            |x: (String, Entry)| entry_row(x.1),
        )
    }
}

/// The profiles there are.
pub fn list(store: &Store, user_dir: Option<&str>) -> (r: Vec<String>)
    requires
        store.wf(),
    ensures
        crate::text::texts(r@) == list_lines(store.listed(), crate::text::maybe(user_dir)),
{
    let mut out: Vec<String> = crate::say::page();
    let total: usize = store.len();
    if total == 0 {
        crate::say::say(&mut out, "No profiles found.");
        crate::say::say(&mut out, "Aranan yerler:");
        if let Some(d) = user_dir {
            crate::say::put(&mut out, crate::say::cat2("  ", d));
        }
        crate::say::say(&mut out, "  /usr/share/liwinux/profiles");
        crate::say::say(&mut out, "  ./profiles");
        assert(crate::text::texts(out@) =~= list_lines(
            store.listed(),
            crate::text::maybe(user_dir),
        ));
        return out;
    }
    crate::say::put(&mut out, row_text("PACKAGE", "SOURCE", "BIND", "NAME"));
    let ghost head = crate::text::texts(out@);
    let ghost all = store.listed().map_values(|x: (String, Entry)| entry_row(x.1));
    let mut i: usize = 0;
    assert(head + all.take(0) =~= head);
    while i < total
        invariant
            store.wf(),
            total == store.listed().len(),
            i <= total,
            all == store.listed().map_values(|x: (String, Entry)| entry_row(x.1)),
            crate::text::texts(out@) == head + all.take(i as int),
        decreases total - i,
    {
        if let Some(e) = store.entry(i) {
            let n: String = crate::say::count(e.profile.bindings.len() as u64);
            assert(all[i as int] == entry_row(*e));
            crate::say::put(
                &mut out,
                row_text(
                    e.profile.package.as_str(),
                    origin_label(e.origin),
                    n.as_str(),
                    e.profile.name.as_str(),
                ),
            );
            assert(head + all.take(i + 1) =~= (head + all.take(i as int)).push(all[i as int]));
        }
        i = i + 1;
    }
    assert(all.take(i as int) =~= all);
    assert(crate::text::texts(out@) =~= list_lines(store.listed(), crate::text::maybe(user_dir)));
    out
}

/// What a binding is called.
pub open spec fn kind_text(b: Binding) -> Seq<char> {
    match b {
        Binding::Tap { .. } => "tap"@,
        Binding::Toggle { .. } => "toggle"@,
        Binding::Joystick { .. } => "joystick"@,
        Binding::Aim { .. } => "aim"@,
        Binding::Swipe { .. } => "swipe"@,
    }
}

/// What a binding is called.
pub fn kind(b: &Binding) -> (r: &'static str)
    ensures
        r@ == kind_text(*b),
{
    match b {
        Binding::Tap { .. } => "tap",
        Binding::Toggle { .. } => "toggle",
        Binding::Joystick { .. } => "joystick",
        Binding::Aim { .. } => "aim",
        Binding::Swipe { .. } => "swipe",
    }
}

pub open spec fn detail_row(a: Seq<char>, b: Seq<char>, c: Seq<char>) -> Seq<char> {
    crate::say::padded(a, 14) + " "@ + crate::say::padded(b, 10) + " "@ + c
}

fn detail_text(a: &str, b: &str, c: &str) -> (r: String)
    ensures
        r@ == detail_row(a@, b@, c@),
{
    let a: String = crate::say::pad(a, 14);
    let b: String = crate::say::pad(b, 10);
    crate::say::cat5(a.as_str(), " ", b.as_str(), " ", c)
}

/// The bindings, a line each. `details` are their figures, as shown.
pub open spec fn detail_rows(b: Seq<(String, Binding)>, details: Seq<Seq<char>>) -> Seq<Seq<char>> {
    Seq::new(b.len(), |i: int| detail_row(b[i].0@, kind_text(b[i].1), details[i]))
}

/// One profile in full.
pub open spec fn show_lines(e: Entry, details: Seq<Seq<char>>) -> Seq<Seq<char>> {
    seq![
        "Ad     : "@ + e.profile.name@,
        "Paket  : "@ + e.profile.package@,
        "Kaynak : "@ + origin_text(e.origin) + " ("@ + e.path@ + ")"@,
        ""@,
        detail_row("BINDING"@, "TYPE"@, "DETAIL"@),
    ] + detail_rows(e.profile.bindings@, details)
}

/// One profile in full.
pub fn show(e: &Entry, details: &Vec<String>) -> (r: Vec<String>)
    requires
        details@.len() == e.profile.bindings@.len(),
    ensures
        crate::text::texts(r@) == show_lines(*e, crate::text::texts(details@)),
{
    let mut out: Vec<String> = crate::say::page();
    crate::say::put(&mut out, crate::say::cat2("Ad     : ", e.profile.name.as_str()));
    crate::say::put(&mut out, crate::say::cat2("Paket  : ", e.profile.package.as_str()));
    crate::say::put(
        &mut out,
        crate::say::cat5("Kaynak : ", origin_label(e.origin), " (", e.path.as_str(), ")"),
    );
    crate::say::say(&mut out, "");
    crate::say::put(&mut out, detail_text("BINDING", "TYPE", "DETAIL"));
    let ghost head = crate::text::texts(out@);
    let ghost d = crate::text::texts(details@);
    let ghost all = detail_rows(e.profile.bindings@, d);
    let mut i: usize = 0;
    assert(head + all.take(0) =~= head);
    while i < e.profile.bindings.len()
        invariant
            i <= e.profile.bindings@.len(),
            details@.len() == e.profile.bindings@.len(),
            d == crate::text::texts(details@),
            all == detail_rows(e.profile.bindings@, d),
            crate::text::texts(out@) == head + all.take(i as int),
        decreases e.profile.bindings@.len() - i,
    {
        let item: &(String, Binding) = e.profile.bindings.at(i);
        assert(d[i as int] == details@[i as int]@);
        crate::say::put(
            &mut out,
            detail_text(item.0.as_str(), kind(&item.1), details[i].as_str()),
        );
        assert(all[i as int] == detail_row(item.0@, kind_text(item.1), d[i as int]));
        assert(head + all.take(i + 1) =~= (head + all.take(i as int)).push(all[i as int]));
        i = i + 1;
    }
    assert(all.take(i as int) =~= all);
    assert(crate::text::texts(out@) =~= show_lines(*e, d));
    out
}

/// Which profile applies to the app in front.
pub open spec fn which_lines(
    package: Seq<char>,
    found: Option<Entry>,
    user_dir: Option<Seq<char>>,
) -> Seq<Seq<char>> {
    if package.len() == 0 {
        seq![
            "Could not determine the foreground app."@,
            "Is Waydroid open with an app in the foreground?"@,
        ]
    } else {
        seq!["Foreground: "@ + package] + (match found {
            Some(e) => seq![
                "Profil  : "@ + e.profile.name@ + " ("@ + origin_text(e.origin) + ")"@,
                "Dosya   : "@ + e.path@,
            ],
            None => seq!["Profile   : NONE"@, ""@, "To create a profile for this game:"@] + (
            match user_dir {
                Some(d) => seq!["  "@ + d + "/"@ + package + ".toml"@],
                None => Seq::empty(),
            }),
        })
    }
}

/// The entry for a package.
pub open spec fn known_entry(store: Store, package: Seq<char>) -> Option<Entry> {
    if store@.known.contains_key(package) {
        Some(store@.known[package])
    } else {
        None
    }
}

/// Which profile applies to the app in front.
pub fn which(store: &Store, package: &str, user_dir: Option<&str>) -> (r: Vec<String>)
    requires
        store.wf(),
    ensures
        crate::text::texts(r@) == which_lines(
            package@,
            known_entry(*store, package@),
            crate::text::maybe(user_dir),
        ),
{
    let mut out: Vec<String> = crate::say::page();
    if package.unicode_len() == 0 {
        crate::say::say(&mut out, "Could not determine the foreground app.");
        crate::say::say(&mut out, "Is Waydroid open with an app in the foreground?");
    } else {
        crate::say::put(&mut out, crate::say::cat2("Foreground: ", package));
        match store.for_package(package) {
            Some(e) => {
                crate::say::put(
                    &mut out,
                    crate::say::cat5(
                        "Profil  : ",
                        e.profile.name.as_str(),
                        " (",
                        origin_label(e.origin),
                        ")",
                    ),
                );
                crate::say::put(&mut out, crate::say::cat2("Dosya   : ", e.path.as_str()));
            },
            None => {
                crate::say::say(&mut out, "Profile   : NONE");
                crate::say::say(&mut out, "");
                crate::say::say(&mut out, "To create a profile for this game:");
                if let Some(d) = user_dir {
                    crate::say::put(
                        &mut out,
                        crate::say::cat5("  ", d, "/", package, ".toml"),
                    );
                }
            },
        }
    }
    assert(crate::text::texts(out@) =~= which_lines(
        package@,
        known_entry(*store, package@),
        crate::text::maybe(user_dir),
    ));
    out
}

// ---------------------------------------------------------------- install

/// What installing one file does.
#[derive(Clone, Copy, Debug, PartialEq, Eq, Structural)]
pub enum Step {
    /// It is no profile.
    Ignore,
    /// There is one already, and nothing said to overwrite it.
    Skip,
    /// Copy it.
    Copy,
    /// Back up the one that is there, then copy. Profiles hold coordinates tuned
    /// by hand; overwriting them must not be final.
    BackUpAndCopy,
}

pub open spec fn step_spec(name: Seq<char>, present: bool, force: bool) -> Step {
    if !crate::store::profile_file(name) {
        Step::Ignore
    } else if present && !force {
        Step::Skip
    } else if present {
        Step::BackUpAndCopy
    } else {
        Step::Copy
    }
}

/// What installing one file does.
pub fn step(name: &str, present: bool, force: bool) -> (r: Step)
    ensures
        r == step_spec(name@, present, force),
{
    if !crate::store::is_profile_file(name) {
        Step::Ignore
    } else if present && !force {
        Step::Skip
    } else if present {
        Step::BackUpAndCopy
    } else {
        Step::Copy
    }
}

/// The name of the backup of a profile file.
pub fn backup_name(name: &str, stamp: u64) -> (r: String)
    ensures
        r@ == name@ + ".bak-"@ + crate::text::decimal(stamp as nat),
{
    let n: String = crate::say::count(stamp);
    crate::say::cat3(name, ".bak-", n.as_str())
}

/// What an installation says at its end.
pub open spec fn installed_lines(copied: usize, skipped: usize, dest: Seq<char>) -> Seq<Seq<char>> {
    let hint: Seq<Seq<char>> = if skipped > 0 {
        seq!["To overwrite: liw profile install --force"@]
    } else {
        Seq::empty()
    };
    seq![
        ""@,
        crate::text::decimal(copied as nat) + " profiles installed, "@ + crate::text::decimal(
            skipped as nat,
        ) + " skipped -> "@ + dest,
    ] + hint
}

/// What an installation says at its end.
pub fn installed(copied: usize, skipped: usize, dest: &str) -> (r: Vec<String>)
    ensures
        crate::text::texts(r@) == installed_lines(copied, skipped, dest@),
{
    let mut out: Vec<String> = crate::say::page();
    crate::say::say(&mut out, "");
    let a: String = crate::say::count(copied as u64);
    let b: String = crate::say::count(skipped as u64);
    crate::say::put(
        &mut out,
        crate::say::cat5(a.as_str(), " profiles installed, ", b.as_str(), " skipped -> ", dest),
    );
    if skipped > 0 {
        crate::say::say(&mut out, "To overwrite: liw profile install --force");
    }
    assert(crate::text::texts(out@) =~= installed_lines(copied, skipped, dest@));
    out
}

/// Nothing that is there is ever overwritten without a backup.
pub proof fn law_nothing_is_overwritten_without_a_backup(name: Seq<char>, force: bool)
    ensures
        step_spec(name, true, force) != Step::Copy,
{
}

// ---------------------------------------------------------------- placing

/// What to touch to see where a binding is.
#[derive(Clone, Copy, Debug, PartialEq, Eq, Structural)]
pub enum Target {
    Spot(Norm),
    Drag { from: Norm, to: Norm },
    /// Upward from the centre by the radius: that shows both at once.
    Stick { center: Norm, radius: Num },
}

pub open spec fn target_spec(b: Binding) -> Target {
    match b {
        Binding::Tap { at, .. } => Target::Spot(at),
        Binding::Toggle { at, .. } => Target::Spot(at),
        Binding::Aim { origin, .. } => Target::Spot(origin),
        Binding::Joystick { center, radius, .. } => Target::Stick { center, radius },
        Binding::Swipe { from, to, .. } => Target::Drag { from, to },
    }
}

/// What to touch to see where a binding is, or nothing if there is no such
/// binding.
pub fn poke_binding(bindings: &Bindings, name: &str) -> (r: Option<Target>)
    requires
        bindings.wf(),
    ensures
        r == (if bindings.map().contains_key(name@) {
            Some(target_spec(bindings.map()[name@]))
        } else {
            None
        }),
{
    match bindings.get(name) {
        Some(b) => Some(
            match b {
                Binding::Tap { at, .. } => Target::Spot(*at),
                Binding::Toggle { at, .. } => Target::Spot(*at),
                Binding::Aim { origin, .. } => Target::Spot(*origin),
                Binding::Joystick { center, radius, .. } => Target::Stick {
                    center: *center,
                    radius: *radius,
                },
                Binding::Swipe { from, to, .. } => Target::Drag { from: *from, to: *to },
            },
        ),
        None => None,
    }
}

/// A file is copied exactly if it is a profile and is not there yet, or may be
/// replaced; one that is replaced is kept beside.
pub proof fn law_when_a_profile_is_copied(name: Seq<char>, present: bool, force: bool)
    ensures
        step_spec(name, present, force) == Step::Ignore <==> !crate::store::profile_file(name),
        step_spec(name, present, force) == Step::Copy <==> crate::store::profile_file(name)
            && !present,
        step_spec(name, present, force) == Step::BackUpAndCopy <==> crate::store::profile_file(name)
            && present && force,
        step_spec(name, present, force) == Step::Skip <==> crate::store::profile_file(name)
            && present && !force,
{
}

/// A binding is tried out where it acts: a tap or a toggle at its place, aim at its
/// origin, a joystick around its centre, a gesture from its start to its end.
pub proof fn law_a_binding_is_tried_where_it_acts(b: Binding)
    ensures
        match b {
            Binding::Tap { at, .. } => target_spec(b) == Target::Spot(at),
            Binding::Toggle { at, .. } => target_spec(b) == Target::Spot(at),
            Binding::Aim { origin, .. } => target_spec(b) == Target::Spot(origin),
            Binding::Joystick { center, radius, .. } => target_spec(b) is Stick && target_spec(
                b,
            )->center == center && target_spec(b)->radius == radius,
            Binding::Swipe { from, to, .. } => target_spec(b) is Drag && target_spec(b)->from == from
                && target_spec(b)->to == to,
        },
{
}

/// Every profile that failed to load is listed with its path and its reason, and
/// the heading counts them.
pub proof fn law_every_problem_is_listed(p: Seq<(Seq<char>, Seq<char>)>, k: int)
    requires
        0 <= k < p.len(),
    ensures
        ({
            let r = problems_lines(p);
            &&& r.len() == 2 + 2 * p.len()
            &&& crate::text::occurs(r[1], crate::text::decimal(p.len()))
            &&& r[2 + 2 * k] == "  "@ + p[k].0
            &&& r[3 + 2 * k] == "    "@ + p[k].1
        }),
        problems_lines(Seq::empty()).len() == 0,
{
    lemma_problem_lines(p, p.len() as int, k);
    crate::text::lemma_occurs_between(
        "PROFILES THAT FAILED TO LOAD ("@,
        crate::text::decimal(p.len()),
        "):"@,
    );
    let r = problems_lines(p);
    let rest = problem_lines(p, p.len() as int);
    assert(r[2 + 2 * k] == rest[2 * k]);
    assert(r[3 + 2 * k] == rest[2 * k + 1]);
}

proof fn lemma_problem_lines(p: Seq<(Seq<char>, Seq<char>)>, n: int, k: int)
    requires
        0 <= k < n <= p.len(),
    ensures
        problem_lines(p, n).len() == 2 * n,
        problem_lines(p, n)[2 * k] == "  "@ + p[k].0,
        problem_lines(p, n)[2 * k + 1] == "    "@ + p[k].1,
    decreases n,
{
    if n > 1 && k < n - 1 {
        lemma_problem_lines(p, n - 1, k);
    } else if n > 1 {
        lemma_problem_lines(p, n - 1, 0);
    } else {
        assert(problem_lines(p, 0).len() == 0);
    }
}

/// Every profile known has a line in the list, in order, behind a heading; the line
/// begins with its package and ends with its name.
pub proof fn law_every_profile_is_listed(
    known: Seq<(String, Entry)>,
    dir: Option<Seq<char>>,
    k: int,
)
    requires
        0 <= k < known.len(),
    ensures
        ({
            let r = list_lines(known, dir);
            let e = known[k].1;
            &&& r.len() == known.len() + 1
            &&& crate::text::opens_with(r[k + 1], e.profile.package@)
            &&& crate::text::occurs(r[k + 1], e.profile.name@)
            &&& crate::text::occurs(r[k + 1], origin_text(e.origin))
            &&& crate::text::occurs(r[k + 1], crate::text::decimal(e.profile.bindings@.len()))
        }),
{
    let e = known[k].1;
    let a = crate::say::padded(e.profile.package@, 34);
    let b = crate::say::padded(origin_text(e.origin), 10);
    let n = crate::text::decimal(e.profile.bindings@.len());
    let c = crate::say::padded(n, 5);
    let r = list_lines(known, dir)[k + 1];
    assert(r == entry_row(e));
    crate::say::lemma_padded_opens(e.profile.package@, 34);
    crate::say::lemma_padded_opens(origin_text(e.origin), 10);
    crate::say::lemma_padded_opens(n, 5);
    lemma_opens_more(a, e.profile.package@, r);
    assert(r.subrange(0, a.len() as int) =~= a);
    lemma_opens_more(a, e.profile.package@, r);
    let o = origin_text(e.origin);
    let gap = b.skip(o.len() as int);
    assert(b =~= o + gap);
    crate::text::lemma_occurs_between(a + " "@, o, gap + " "@ + (c + " "@ + e.profile.name@));
    assert(r =~= a + " "@ + o + (gap + " "@ + (c + " "@ + e.profile.name@)));
    let gap2 = c.skip(n.len() as int);
    assert(c =~= n + gap2);
    crate::text::lemma_occurs_between(a + " "@ + b + " "@, n, gap2 + " "@ + e.profile.name@);
    assert(r =~= a + " "@ + b + " "@ + n + (gap2 + " "@ + e.profile.name@));
    crate::text::lemma_occurs_behind(a + " "@ + b + " "@ + c + " "@, e.profile.name@);
    assert(r =~= a + " "@ + b + " "@ + c + " "@ + e.profile.name@);
}

/// What opens a text opens every text that the text opens.
proof fn lemma_opens_more(a: Seq<char>, x: Seq<char>, r: Seq<char>)
    requires
        crate::text::opens_with(a, x),
    ensures
        crate::text::opens_with(r, a) ==> crate::text::opens_with(r, x),
{
    if crate::text::opens_with(r, a) {
        assert forall|i: int| 0 <= i < x.len() implies r[i] == x[i] by {
            assert(r.subrange(0, a.len() as int)[i] == a[i]);
            assert(a.subrange(0, x.len() as int)[i] == x[i]);
        }
        assert(r.subrange(0, x.len() as int) =~= x);
    }
}

/// Of the app in the foreground its package is told, and the profile it has with the
/// file it comes from; where it has none, the file that would make one.
pub proof fn law_the_foreground_profile_is_told(
    package: Seq<char>,
    found: Option<Entry>,
    user_dir: Option<Seq<char>>,
)
    requires
        package.len() > 0,
    ensures
        ({
            let l = which_lines(package, found, user_dir);
            &&& l[0] == "Foreground: "@ + package
            &&& found matches Some(e) ==> l.len() == 3 && crate::text::occurs(l[1], e.profile.name@)
                && crate::text::occurs(l[1], origin_text(e.origin)) && l[2] == "Dosya   : "@
                + e.path@
            &&& found is None ==> l.len() == 4 + (if user_dir is Some {
                1int
            } else {
                0
            })
            &&& found is None && user_dir is Some ==> l[4] == "  "@ + user_dir->0 + "/"@ + package
                + ".toml"@
        }),
{
    if let Some(e) = found {
        let l = which_lines(package, found, user_dir);
        let o = origin_text(e.origin);
        crate::text::lemma_occurs_between("Profil  : "@, e.profile.name@, " ("@ + o + ")"@);
        assert(l[1] =~= "Profil  : "@ + e.profile.name@ + (" ("@ + o + ")"@));
        crate::text::lemma_occurs_between("Profil  : "@ + e.profile.name@ + " ("@, o, ")"@);
    }
}

} // verus!
