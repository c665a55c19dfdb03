//! Profile store: matches profiles to packages.
//!
//! # Precedence
//!
//! User profiles shadow system profiles. To edit a distributed profile the user
//! copies it; when an update arrives their change is not lost.
//!
//! Reading directories is left to the caller; which of several profiles wins,
//! where one is saved and which may be deleted is decided here.

use crate::by_name::ByName;
use crate::profile::{Flaw, FlawView, Profile, ProfileError};
use std::path::Path;
use vstd::prelude::*;
use vstd::string::*;

verus! {

/// Where a profile came from. Carried so that "which file is actually running"
/// has an answer.
#[derive(Clone, Copy, Debug, PartialEq, Eq, PartialOrd, Ord, Structural)]
pub enum Origin {
    /// Highest precedence.
    User,
    System,
    /// From inside the repository; development only.
    Bundled,
}

impl Origin {
    /// A smaller rank wins.
    pub open spec fn rank_spec(self) -> int {
        match self {
            Origin::User => 0,
            Origin::System => 1,
            Origin::Bundled => 2,
        }
    }

    pub fn rank(self) -> (r: u8)
        ensures
            r == self.rank_spec(),
    {
        match self {
            Origin::User => 0,
            Origin::System => 1,
            Origin::Bundled => 2,
        }
    }
}

/// A profile and where it lies.
#[derive(Debug)]
pub struct Entry {
    pub profile: Profile,
    pub path: String,
    pub origin: Origin,
}

/// A profile that failed to load. A broken file must be reported, otherwise "why
/// is my profile not working" goes unanswered.
#[derive(Debug)]
pub struct BadProfile {
    pub path: String,
    pub error: String,
}

impl View for BadProfile {
    type V = (Seq<char>, Seq<char>);

    open spec fn view(&self) -> (Seq<char>, Seq<char>) {
        (self.path@, self.error@)
    }
}

/// Reports, with their contents as plain text.
pub open spec fn reports(p: Seq<BadProfile>) -> Seq<(Seq<char>, Seq<char>)> {
    p.map_values(|x: BadProfile| x@)
}

/// Whether the path `a` sorts before or with the path `b`, as `std::path::Path`
/// orders them: component by component.
pub uninterp spec fn path_order(a: Seq<char>, b: Seq<char>) -> bool;

/// `<Path as PartialOrd>::le`: the order of two paths, which depends on nothing
/// but their text. `Path` is ordered totally: a path is at most itself, of two
/// paths one is at most the other, and what is at most a path that is at most a
/// third is at most the third. What the order is beyond that is left unsaid.
#[verifier::external_body]
fn path_at_most(a: &str, b: &str) -> (r: bool)
    ensures
        r == path_order(a@, b@),
        a@ == b@ ==> r,
        r || path_order(b@, a@),
        forall|c: Seq<char>| r && path_order(b@, c) ==> #[trigger] path_order(a@, c),
{
    Path::new(a) <= Path::new(b)
}

/// The report about two profiles that claim one package.
pub open spec fn collision(pkg: Seq<char>, keep: Seq<char>) -> Seq<char> {
    "'"@ + pkg + "' paketini iki profil birden iddia ediyor; using '"@ + keep
        + "'. Delete one or rename the package."@
}

/// What comparing the paths of two profiles of the same precedence shows: one is
/// at most the other, and if the second is smaller, it is at most whatever the
/// first is at most.
pub open spec fn compared(prev: Entry, e: Entry) -> bool {
    prev.origin.rank_spec() == e.origin.rank_spec() && !path_order(prev.path@, e.path@) ==> {
        &&& path_order(e.path@, prev.path@)
        &&& forall|c: Seq<char>| #[trigger] path_order(prev.path@, c) ==> path_order(e.path@, c)
    }
}

/// What reading a profile file came to.
#[derive(Debug)]
pub enum Load {
    Good(Entry),
    /// The file could not be read, parsed or accepted.
    Bad(BadProfile),
}

/// Everything that was read, one directory after the other. Of a directory that
/// is not there nothing was.
pub open spec fn loads_of(dirs: Seq<Option<Vec<Load>>>) -> Seq<Load>
    decreases dirs.len(),
{
    if dirs.len() == 0 {
        Seq::empty()
    } else {
        match dirs.last() {
            Some(found) => loads_of(dirs.drop_last()) + found@,
            None => loads_of(dirs.drop_last()),
        }
    }
}

/// The profiles among what was read.
pub open spec fn good_of(loads: Seq<Load>) -> Seq<Entry>
    decreases loads.len(),
{
    if loads.len() == 0 {
        Seq::empty()
    } else {
        match loads.last() {
            Load::Good(e) => good_of(loads.drop_last()).push(e),
            Load::Bad(_) => good_of(loads.drop_last()),
        }
    }
}

/// What the store knows: the winning entry of each package, and what went wrong.
#[verifier::ext_equal]
pub struct StoreView {
    pub known: Map<Seq<char>, Entry>,
    pub problems: Seq<(Seq<char>, Seq<char>)>,
}

impl StoreView {
    /// One more profile was found. Higher precedence wins; of two at the same
    /// precedence the one whose path sorts first is kept and the other reported.
    pub open spec fn add(self, e: Entry) -> StoreView {
        let pkg = e.profile.package@;
        if !self.known.contains_key(pkg) {
            StoreView { known: self.known.insert(pkg, e), ..self }
        } else {
            let prev = self.known[pkg];
            if prev.origin.rank_spec() < e.origin.rank_spec() {
                self
            } else if prev.origin.rank_spec() > e.origin.rank_spec() {
                StoreView { known: self.known.insert(pkg, e), ..self }
            } else if path_order(prev.path@, e.path@) {
                StoreView {
                    problems: self.problems.push((e.path@, collision(pkg, prev.path@))),
                    ..self
                }
            } else {
                StoreView {
                    known: self.known.insert(pkg, e),
                    problems: self.problems.push((prev.path@, collision(pkg, e.path@))),
                }
            }
        }
    }

    /// A profile could not be used.
    pub open spec fn reject(self, b: BadProfile) -> StoreView {
        StoreView { problems: self.problems.push(b@), ..self }
    }

    /// What was read, one file after the other.
    pub open spec fn load_all(self, loads: Seq<Load>) -> StoreView
        decreases loads.len(),
    {
        if loads.len() == 0 {
            self
        } else {
            match loads.last() {
                Load::Good(e) => self.load_all(loads.drop_last()).add(e),
                Load::Bad(b) => self.load_all(loads.drop_last()).reject(b),
            }
        }
    }

    /// Several profiles, one after the other.
    pub open spec fn add_all(self, es: Seq<Entry>) -> StoreView
        decreases es.len(),
    {
        if es.len() == 0 {
            self
        } else {
            self.add_all(es.drop_last()).add(es.last())
        }
    }
}

/// The profile store.
#[derive(Debug)]
pub struct Store {
    /// package name and highest-precedence entry
    by_package: ByName<Entry>,
    problems: Vec<BadProfile>,
}

impl View for Store {
    type V = StoreView;

    closed spec fn view(&self) -> StoreView {
        StoreView { known: self.by_package.map(), problems: reports(self.problems@) }
    }
}

/// A profile file carries the extension `toml`, and has a name before it.
pub open spec fn profile_file(name: Seq<char>) -> bool {
    name.len() > 5 && crate::text::stands_at(name, ".toml"@, name.len() - 5)
}

/// Whether a directory entry of this name is a profile.
pub fn is_profile_file(name: &str) -> (r: bool)
    ensures
        r == profile_file(name@),
{
    let n: Vec<char> = crate::text::chars_of(name);
    let ext: Vec<char> = crate::text::chars_of(".toml");
    if n.len() <= 5 {
        return false;
    }
    crate::text::is_at(&n, &ext, n.len() - 5)
}

impl Store {
    /// The packages are in order.
    pub closed spec fn wf(&self) -> bool {
        &&& self.by_package.wf()
        &&& forall|i: int|
            0 <= i < self.by_package@.len() ==> (#[trigger] self.by_package@[i]).0@
                == self.by_package@[i].1.profile.package@
    }

    /// What well-formedness says of what the store knows: every entry is for its
    /// package.
    pub proof fn lemma_wf(&self)
        requires
            self.wf(),
        ensures
            forall|pkg: Seq<char>| #[trigger]
                self@.known.contains_key(pkg) ==> self@.known[pkg].profile.package@ == pkg,
    {
        let items = self.by_package@;
        assert forall|pkg: Seq<char>| #[trigger] self@.known.contains_key(pkg) implies self@.known[pkg].profile.package@
            == pkg by {
            let i = choose|i: int| crate::by_name::named(items, pkg, i);
            assert(crate::by_name::named(items, pkg, i));
        }
    }

    pub fn new() -> (r: Store)
        ensures
            r.wf(),
            r@ == (StoreView { known: Map::empty(), problems: Seq::empty() }),
    {
        let r = Store { by_package: ByName::new(), problems: Vec::new() };
        assert(reports(r.problems@) =~= Seq::<(Seq<char>, Seq<char>)>::empty());
        r
    }

    fn put(&mut self, e: Entry)
        requires
            old(self).wf(),
        ensures
            final(self).wf(),
            final(self)@.known == old(self)@.known.insert(e.profile.package@, e),
            final(self)@.problems == old(self)@.problems,
    {
        let pkg: String = e.profile.package.clone();
        let _again = self.by_package.insert(pkg.as_str(), e);
        proof {
            let s = self.by_package@;
            assert forall|i: int| 0 <= i < s.len() implies (#[trigger] s[i]).0@
                == s[i].1.profile.package@ by {
                crate::by_name::lemma_map_entry(s, i);
                if s[i].0@ != pkg@ {
                    let b = old(self).by_package@;
                    assert(crate::by_name::map_of(b).contains_key(s[i].0@));
                    let k = choose|k: int| crate::by_name::named(b, s[i].0@, k);
                    assert(crate::by_name::named(b, s[i].0@, k));
                    crate::by_name::lemma_map_entry(b, k);
                    assert(b[k].0@ == b[k].1.profile.package@);
                }
            }
        }
    }

    fn complain(&mut self, path: String, error: String)
        requires
            old(self).wf(),
        ensures
            final(self).wf(),
            final(self)@.known == old(self)@.known,
            final(self)@.problems == old(self)@.problems.push((path@, error@)),
    {
        let b = BadProfile { path, error };
        proof {
            assert(reports(self.problems@.push(b)) =~= reports(self.problems@).push(b@));
        }
        self.problems.push(b);
    }

    fn collision_text(pkg: &str, keep: &str) -> (r: String)
        ensures
            r@ == collision(pkg@, keep@),
    {
        let mut s: String = "'".to_owned();
        s.append(pkg);
        s.append("' paketini iki profil birden iddia ediyor; using '");
        s.append(keep);
        s.append("'. Delete one or rename the package.");
        s
    }

    /// A profile was found and loaded.
    pub fn add(&mut self, e: Entry)
        requires
            old(self).wf(),
        ensures
            final(self).wf(),
            final(self)@ == old(self)@.add(e),
            old(self)@.known.contains_key(e.profile.package@) ==> compared(
                old(self)@.known[e.profile.package@],
                e,
            ),
    {
        let ghost v = self@;
        let pkg: String = e.profile.package.clone();
        let (rank, path) = match self.by_package.get(pkg.as_str()) {
            None => {
                self.put(e);
                assert(self@ =~= v.add(e));
                return ;
            },
            Some(prev) => (prev.origin.rank(), prev.path.clone()),
        };
        if rank < e.origin.rank() {
            return ;
        }
        if rank > e.origin.rank() {
            self.put(e);
            assert(self@ =~= v.add(e));
            return ;
        }
        let behind: bool = path_at_most(path.as_str(), e.path.as_str());
        let before: bool = !behind && path_at_most(e.path.as_str(), path.as_str());
        if !before {
            let text: String = Store::collision_text(pkg.as_str(), path.as_str());
            self.complain(e.path, text);
        } else {
            let text: String = Store::collision_text(pkg.as_str(), e.path.as_str());
            self.put(e);
            self.complain(path, text);
        }
        assert(self@ =~= v.add(e));
    }

    /// The store of what was read of each directory, in whatever order: each
    /// package has its first choice, and whatever could not be used is reported and
    /// hides nothing. A directory that is not there is no error.
    pub fn from_dirs(dirs: Vec<Option<Vec<Load>>>) -> (r: Store)
        ensures
            r.wf(),
            r@ == (StoreView { known: Map::empty(), problems: Seq::empty() }).load_all(
                loads_of(dirs@),
            ),
            rightly_chosen(r@.known, good_of(loads_of(dirs@))),
            forall|i: int|
                0 <= i < loads_of(dirs@).len() && (#[trigger] loads_of(dirs@)[i]) is Bad
                    ==> r@.problems.contains(loads_of(dirs@)[i]->Bad_0@),
    {
        let ghost given = dirs@;
        let ghost mut k: int = 0;
        let mut left: Vec<Option<Vec<Load>>> = dirs;
        let mut loads: Vec<Load> = Vec::new();
        assert(given.take(0) =~= Seq::<Option<Vec<Load>>>::empty());
        assert(left@ =~= given.skip(0));
        while left.len() > 0
            invariant
                0 <= k <= given.len(),
                left@ == given.skip(k),
                loads@ == loads_of(given.take(k)),
            decreases left@.len(),
        {
            let ghost next = given.take(k + 1);
            assert(next.drop_last() =~= given.take(k));
            assert(next.last() == given[k]);
            assert(left@[0] == given[k]);
            if let Some(mut found) = left.remove(0) {
                loads.append(&mut found);
            }
            assert(left@ =~= given.skip(k + 1));
            proof {
                k = k + 1;
            }
        }
        assert(given.take(k) =~= given);
        Store::from_loads(loads)
    }

    /// The store of everything that was read.
    fn from_loads(loads: Vec<Load>) -> (r: Store)
        ensures
            r.wf(),
            r@ == (StoreView { known: Map::empty(), problems: Seq::empty() }).load_all(loads@),
            rightly_chosen(r@.known, good_of(loads@)),
            forall|i: int|
                0 <= i < loads@.len() && (#[trigger] loads@[i]) is Bad ==> r@.problems.contains(
                    loads@[i]->Bad_0@,
                ),
    {
        let mut store: Store = Store::new();
        let ghost none = store@;
        let ghost given = loads@;
        let ghost mut k: int = 0;
        let mut left: Vec<Load> = loads;
        assert(given.take(0) =~= Seq::<Load>::empty());
        assert(left@ =~= given.skip(0));
        assert(rightly_chosen(none.known, Seq::empty()));
        while left.len() > 0
            invariant
                store.wf(),
                none == (StoreView { known: Map::empty(), problems: Seq::empty() }),
                0 <= k <= given.len(),
                left@ == given.skip(k),
                store@ == none.load_all(given.take(k)),
                rightly_chosen(store@.known, good_of(given.take(k))),
                forall|i: int|
                    0 <= i < k && (#[trigger] given[i]) is Bad ==> store@.problems.contains(
                        given[i]->Bad_0@,
                    ),
            decreases left@.len(),
        {
            let ghost before = store@;
            let ghost next = given.take(k + 1);
            assert(next.drop_last() =~= given.take(k));
            assert(next.last() == given[k]);
            assert(left@[0] == given[k]);
            match left.remove(0) {
                Load::Good(e) => {
                    store.add(e);
                    proof {
                        lemma_chosen(before, good_of(given.take(k)), e);
                        lemma_problems_stay(before, e);
                    }
                },
                Load::Bad(b) => {
                    store.reject(b.path.as_str(), b.error.as_str());
                    assert(store@ =~= before.reject(b));
                    assert(store@.problems.last() == b@);
                    assert forall|x: (Seq<char>, Seq<char>)| #[trigger]
                        before.problems.contains(x) implies store@.problems.contains(x) by {
                        let i = choose|i: int| 0 <= i < before.problems.len() && before.problems[i] == x;
                        assert(store@.problems[i] == x);
                    }
                    assert(store@.problems.contains(b@));
                },
            }
            assert(left@ =~= given.skip(k + 1));
            assert forall|i: int| 0 <= i < k + 1 && (#[trigger] given[i]) is Bad implies store@.problems.contains(
            given[i]->Bad_0@) by {
                if i < k {
                    assert(before.problems.contains(given[i]->Bad_0@));
                }
            }
            proof {
                k = k + 1;
            }
        }
        assert(given.take(k) =~= given);
        store
    }

    /// A profile could not be read, parsed or accepted.
    pub fn reject(&mut self, path: &str, error: &str)
        requires
            old(self).wf(),
        ensures
            final(self).wf(),
            final(self)@ == (StoreView {
                problems: old(self)@.problems.push((path@, error@)),
                ..old(self)@
            }),
    {
        self.complain(path.to_owned(), error.to_owned());
    }

    /// The winning entry of a package.
    pub fn for_package(&self, pkg: &str) -> (r: Option<&Entry>)
        requires
            self.wf(),
        ensures
            match r {
                Some(e) => self@.known.contains_key(pkg@) && self@.known[pkg@] == *e,
                None => !self@.known.contains_key(pkg@),
            },
    {
        self.by_package.get(pkg)
    }

    /// The entry at position `i` in package order.
    pub fn entry(&self, i: usize) -> (r: Option<&Entry>)
        requires
            self.wf(),
        ensures
            match r {
                Some(e) => i < self.listed().len() && *e == self.listed()[i as int].1
                    && self@.known.contains_key(e.profile.package@)
                    && self@.known[e.profile.package@] == *e,
                None => i >= self.listed().len(),
            },
    {
        if i < self.by_package.len() {
            proof {
                crate::by_name::lemma_map_entry(self.by_package@, i as int);
            }
            Some(&self.by_package.at(i).1)
        } else {
            None
        }
    }

    /// The packages that have a profile, in name order, with their entries.
    pub closed spec fn listed(&self) -> Seq<(String, Entry)> {
        self.by_package@
    }

    pub fn len(&self) -> (r: usize)
        requires
            self.wf(),
        ensures
            r == self.listed().len(),
            crate::by_name::sorted_names(self.listed()),
            self@.known == crate::by_name::map_of(self.listed()),
    {
        self.by_package.len()
    }

    pub fn is_empty(&self) -> (r: bool)
        requires
            self.wf(),
        ensures
            r == (self@.known == Map::<Seq<char>, Entry>::empty()),
    {
        proof {
            let s = self.by_package@;
            if s.len() > 0 {
                crate::by_name::lemma_map_entry(s, 0);
            } else {
                assert(self@.known =~= Map::<Seq<char>, Entry>::empty());
            }
        }
        self.by_package.is_empty()
    }

    /// What went wrong so far, as (path, error).
    pub fn problems(&self) -> (r: &Vec<BadProfile>)
        ensures
            reports(r@) == self@.problems,
    {
        &self.problems
    }

    /// The file a save for this package should land in.
    ///
    /// A user profile is written in place. A system or bundled one is not: it is
    /// shadowed by a new file in the user directory, so that a package update
    /// does not silently discard the user's edits. Without such a directory
    /// there is nowhere to save to.
    pub fn save_target(&self, pkg: &str, user_dir: Option<&str>) -> (r: Option<String>)
        requires
            self.wf(),
        ensures
            crate::text::some_text(r) == self@.target(
                pkg@,
                match user_dir {
                    Some(d) => Some(d@),
                    None => None,
                },
            ),
    {
        if let Some(e) = self.by_package.get(pkg) {
            if e.origin == Origin::User {
                return Some(e.path.clone());
            }
        }
        match user_dir {
            Some(d) => {
                let mut name: String = pkg.to_owned();
                name.append(".toml");
                Some(join_path(d, name.as_str()))
            },
            None => None,
        }
    }

    /// The file whose text a save starts from when the target does not exist
    /// yet: the profile that is being shadowed, so its comments come along.
    pub fn save_seed(&self, pkg: &str) -> (r: Option<String>)
        requires
            self.wf(),
        ensures
            crate::text::some_text(r) == (if self@.known.contains_key(pkg@) {
                Some(self@.known[pkg@].path@)
            } else {
                None
            }),
    {
        match self.by_package.get(pkg) {
            Some(e) => Some(e.path.clone()),
            None => None,
        }
    }

    /// The file to remove when the user profile of a package is deleted.
    ///
    /// System and bundled profiles are never touched: they are not ours to
    /// delete, and one would come back on the next update anyway.
    pub fn delete(&self, pkg: &str) -> (r: Result<String, ProfileError>)
        requires
            self.wf(),
        ensures
            r is Ok <==> self@.known.contains_key(pkg@) && self@.known[pkg@].origin == Origin::User,
            match r {
                Ok(path) => path@ == self@.known[pkg@].path@,
                Err(ProfileError::Invalid(f)) => f@ == if self@.known.contains_key(pkg@) {
                    FlawView::NotUserProfile { package: pkg@ }
                } else {
                    FlawView::NoProfile { package: pkg@ }
                },
                Err(_) => false,
            },
    {
        match self.by_package.get(pkg) {
            Some(e) => {
                if e.origin == Origin::User {
                    Ok(e.path.clone())
                } else {
                    Err(ProfileError::Invalid(Flaw::NotUserProfile { package: pkg.to_owned() }))
                }
            },
            None => Err(ProfileError::Invalid(Flaw::NoProfile { package: pkg.to_owned() })),
        }
    }
}

impl StoreView {
    /// Where a save for `pkg` lands.
    pub open spec fn target(self, pkg: Seq<char>, user_dir: Option<Seq<char>>) -> Option<Seq<char>> {
        if self.known.contains_key(pkg) && self.known[pkg].origin == Origin::User {
            Some(self.known[pkg].path@)
        } else {
            match user_dir {
                Some(d) => Some(joined(d, pkg + ".toml"@)),
                None => None,
            }
        }
    }
}

/// `name` inside the directory `dir`. An absolute name stands for itself.
pub open spec fn joined(dir: Seq<char>, name: Seq<char>) -> Seq<char> {
    if name.len() > 0 && name[0] == '/' {
        name
    } else if dir.len() == 0 || dir.last() == '/' {
        dir + name
    } else {
        dir.push('/') + name
    }
}

/// `name` inside the directory `dir`. An absolute name stands for itself.
pub fn join_path(dir: &str, name: &str) -> (r: String)
    ensures
        r@ == joined(dir@, name@),
{
    let d: Vec<char> = crate::text::chars_of(dir);
    let n: Vec<char> = crate::text::chars_of(name);
    if n.len() > 0 && n[0] == '/' {
        return name.to_owned();
    }
    let mut s: String = dir.to_owned();
    if d.len() > 0 && d[d.len() - 1] != '/' {
        s.push('/');
    }
    s.append(name);
    s
}

/// The user's profile directory, from the two environment variables that name
/// it. The first wins; without either there is none.
pub open spec fn user_dir(xdg: Option<Seq<char>>, home: Option<Seq<char>>) -> Option<Seq<char>> {
    match (xdg, home) {
        (Some(x), _) => Some(joined(joined(x, "liwinux"@), "profiles"@)),
        (None, Some(h)) => Some(
            joined(joined(joined(h, ".config"@), "liwinux"@), "profiles"@),
        ),
        (None, None) => None,
    }
}

/// The user's profile directory, given `XDG_CONFIG_HOME` and `HOME`.
pub fn user_profile_dir(xdg: Option<&str>, home: Option<&str>) -> (r: Option<String>)
    ensures
        crate::text::some_text(r) == user_dir(
            match xdg {
                Some(x) => Some(x@),
                None => None,
            },
            match home {
                Some(h) => Some(h@),
                None => None,
            },
        ),
{
    let base: String = match xdg {
        Some(x) => x.to_owned(),
        None => match home {
            Some(h) => join_path(h, ".config"),
            None => {
                return None;
            },
        },
    };
    let inner: String = join_path(base.as_str(), "liwinux");
    Some(join_path(inner.as_str(), "profiles"))
}

/// Directories with their origins as plain text.
pub open spec fn dirs_of(d: Seq<(String, Origin)>) -> Seq<(Seq<char>, Origin)> {
    d.map_values(|x: (String, Origin)| (x.0@, x.1))
}

/// The list with one more directory, if there is one.
pub open spec fn with_dir(
    d: Seq<(Seq<char>, Origin)>,
    dir: Option<Seq<char>>,
    o: Origin,
) -> Seq<(Seq<char>, Origin)> {
    match dir {
        Some(x) => d.push((x, o)),
        None => d,
    }
}

/// Directories to search, in precedence order.
///
/// The working directory is not consulted. If it were, the same command would
/// behave differently from different directories.
pub fn default_dirs(
    user: Option<String>,
    bundled: Option<String>,
    extra: Option<String>,
) -> (r: Vec<(String, Origin)>)
    ensures
        dirs_of(r@) == with_dir(
            with_dir(
                with_dir(
                    with_dir(Seq::empty(), crate::text::some_text(user), Origin::User),
                    Some("/usr/share/liwinux/profiles"@),
                    Origin::System,
                ),
                crate::text::some_text(bundled),
                Origin::Bundled,
            ),
            crate::text::some_text(extra),
            Origin::User,
        ),
{
    let mut dirs: Vec<(String, Origin)> = Vec::new();
    assert(dirs_of(dirs@) =~= Seq::<(Seq<char>, Origin)>::empty());
    if let Some(d) = user {
        proof {
            lemma_dirs_push(dirs@, (d, Origin::User));
        }
        dirs.push((d, Origin::User));
    }
    let system: String = "/usr/share/liwinux/profiles".to_owned();
    proof {
        lemma_dirs_push(dirs@, (system, Origin::System));
    }
    dirs.push((system, Origin::System));
    if let Some(d) = bundled {
        proof {
            lemma_dirs_push(dirs@, (d, Origin::Bundled));
        }
        dirs.push((d, Origin::Bundled));
    }
    if let Some(d) = extra {
        proof {
            lemma_dirs_push(dirs@, (d, Origin::User));
        }
        dirs.push((d, Origin::User));
    }
    dirs
}

proof fn lemma_dirs_push(d: Seq<(String, Origin)>, x: (String, Origin))
    ensures
        dirs_of(d.push(x)) == dirs_of(d).push((x.0@, x.1)),
{
    assert(dirs_of(d.push(x)) =~= dirs_of(d).push((x.0@, x.1)));
}

/// The index of the last slash before `n`.
pub open spec fn last_slash(p: Seq<char>, n: int) -> Option<int>
    decreases n,
{
    if n <= 0 {
        None
    } else if p[n - 1] == '/' {
        Some(n - 1)
    } else {
        last_slash(p, n - 1)
    }
}

/// The directory that holds an absolute path without a trailing slash; the root
/// has none.
pub open spec fn parent(p: Seq<char>) -> Option<Seq<char>> {
    match last_slash(p, p.len() as int) {
        Some(k) => if p.len() == 1 {
            None
        } else if k == 0 {
            Some(p.take(1))
        } else {
            Some(p.take(k))
        },
        None => None,
    }
}

/// `tail` under `dir` and the directories above it, `n` of them at most.
pub open spec fn ancestors(dir: Option<Seq<char>>, tail: Seq<char>, n: nat) -> Seq<Seq<char>>
    decreases n,
{
    match dir {
        Some(d) => if n == 0 {
            Seq::empty()
        } else {
            seq![joined(d, tail)] + ancestors(parent(d), tail, (n - 1) as nat)
        },
        None => Seq::empty(),
    }
}

fn parent_path(p: &str) -> (r: Option<String>)
    ensures
        crate::text::some_text(r) == parent(p@),
{
    let cs: Vec<char> = crate::text::chars_of(p);
    let mut n: usize = cs.len();
    while n > 0
        invariant
            n <= cs@.len(),
            cs@ == p@,
            last_slash(p@, p@.len() as int) == last_slash(p@, n as int),
        decreases n,
    {
        if cs[n - 1] == '/' {
            if cs.len() == 1 {
                return None;
            }
            let k: usize = if n == 1 {
                1
            } else {
                n - 1
            };
            assert(cs@.subrange(0, k as int) =~= p@.take(k as int));
            return Some(crate::text::string_of(&cs, 0, k));
        }
        n = n - 1;
    }
    None
}

/// The directories to try for bundled profiles, given the path of the running
/// program: at most four levels up; more would wander into unrelated directories.
pub fn bundled_candidates(exe: &str) -> (r: Vec<String>)
    ensures
        crate::text::texts(r@) == ancestors(parent(exe@), "profiles"@, 4),
{
    near_executable(exe, "profiles")
}

/// The places of `tail` next to the running executable, whose path is `exe`,
/// and up to three directories above. The working directory is not consulted.
pub fn near_executable(exe: &str, tail: &str) -> (r: Vec<String>)
    ensures
        crate::text::texts(r@) == ancestors(parent(exe@), tail@, 4),
{
    let mut out: Vec<String> = Vec::new();
    let mut dir: Option<String> = parent_path(exe);
    let mut left: u8 = 4;
    assert(crate::text::texts(out@) =~= Seq::<Seq<char>>::empty());
    assert(crate::text::texts(out@) + ancestors(crate::text::some_text(dir), tail@, 4) =~= ancestors(parent(exe@), tail@, 4));
    while left > 0
        invariant
            left <= 4,
            crate::text::texts(out@) + ancestors(crate::text::some_text(dir), tail@, left as nat) == ancestors(
                parent(exe@),
                tail@,
                4,
            ),
        decreases left,
    {
        match dir {
            None => {
                assert(crate::text::texts(out@) + Seq::<Seq<char>>::empty() =~= crate::text::texts(out@));
                return out;
            },
            Some(d) => {
                let cand: String = join_path(d.as_str(), tail);
                let ghost before = crate::text::texts(out@);
                let ghost rest = ancestors(parent(d@), tail@, (left - 1) as nat);
                proof {
                    assert(crate::text::texts(out@.push(cand)) =~= before.push(cand@));
                    assert(before + (seq![cand@] + rest) =~= before.push(cand@) + rest);
                }
                out.push(cand);
                dir = parent_path(d.as_str());
                left = left - 1;
            },
        }
    }
    assert(crate::text::texts(out@) + ancestors(crate::text::some_text(dir), tail@, 0) =~= crate::text::texts(out@));
    out
}

/// Whatever the order of the scan, the winner for a package has the highest
/// precedence of all profiles found for it.
pub proof fn law_the_highest_precedence_wins(v: StoreView, es: Seq<Entry>, i: int)
    requires
        0 <= i < es.len(),
    ensures
        v.add_all(es).known.contains_key(es[i].profile.package@),
        v.add_all(es).known[es[i].profile.package@].origin.rank_spec()
            <= es[i].origin.rank_spec(),
    decreases es.len(),
{
    if i < es.len() - 1 {
        law_the_highest_precedence_wins(v, es.drop_last(), i);
        assert(es.drop_last()[i] == es[i]);
    }
}

/// Of two profiles of one package, `a` is not the later choice: its precedence is
/// higher, or it is the same and its path does not sort behind the other.
pub open spec fn no_later(a: Entry, b: Entry) -> bool {
    a.origin.rank_spec() < b.origin.rank_spec() || (a.origin.rank_spec() == b.origin.rank_spec()
        && path_order(a.path@, b.path@))
}

/// Some profile of the list is for the package.
pub open spec fn claimed(es: Seq<Entry>, pkg: Seq<char>) -> bool {
    exists|i: int| 0 <= i < es.len() && (#[trigger] es[i]).profile.package@ == pkg
}

/// `w` is the first choice for a package among the profiles: one of them, and
/// none of the others comes before it.
pub open spec fn first_choice(es: Seq<Entry>, pkg: Seq<char>, w: Entry) -> bool {
    &&& w.profile.package@ == pkg
    &&& es.contains(w)
    &&& forall|i: int|
        0 <= i < es.len() && (#[trigger] es[i]).profile.package@ == pkg && es[i] != w ==> no_later(
            w,
            es[i],
        )
}

/// Every package that is claimed has its first choice, and no other is known.
pub open spec fn rightly_chosen(known: Map<Seq<char>, Entry>, es: Seq<Entry>) -> bool {
    &&& forall|pkg: Seq<char>| #[trigger] known.contains_key(pkg) <==> claimed(es, pkg)
    &&& forall|pkg: Seq<char>| #[trigger]
        known.contains_key(pkg) ==> first_choice(es, pkg, known[pkg])
}

/// One more profile leaves every package with its first choice.
proof fn lemma_chosen(v: StoreView, es: Seq<Entry>, e: Entry)
    requires
        rightly_chosen(v.known, es),
        v.known.contains_key(e.profile.package@) ==> compared(v.known[e.profile.package@], e),
    ensures
        rightly_chosen(v.add(e).known, es.push(e)),
{
    let all = es.push(e);
    let own = e.profile.package@;
    let known = v.add(e).known;
    assert(all[es.len() as int] == e);
    assert forall|pkg: Seq<char>| #[trigger] known.contains_key(pkg) <==> claimed(all, pkg) by {
        assert(v.known.contains_key(pkg) <==> claimed(es, pkg));
        if claimed(es, pkg) {
            let i = choose|i: int| 0 <= i < es.len() && (#[trigger] es[i]).profile.package@ == pkg;
            assert(all[i] == es[i]);
        }
        if claimed(all, pkg) && pkg != own {
            let i = choose|i: int| 0 <= i < all.len() && (#[trigger] all[i]).profile.package@ == pkg;
            assert(all[i] == es[i]);
        }
    }
    assert forall|pkg: Seq<char>| #[trigger] known.contains_key(pkg) implies first_choice(
        all,
        pkg,
        known[pkg],
    ) by {
        let w = known[pkg];
        if v.known.contains_key(pkg) {
            let prev = v.known[pkg];
            assert(first_choice(es, pkg, prev));
            let k = choose|k: int| 0 <= k < es.len() && es[k] == prev;
            assert(all[k] == prev);
            assert forall|i: int|
                0 <= i < all.len() && (#[trigger] all[i]).profile.package@ == pkg && all[i]
                    != w implies no_later(w, all[i]) by {
                if i < es.len() {
                    assert(all[i] == es[i]);
                    if es[i] != prev {
                        assert(no_later(prev, es[i]));
                    }
                }
            }
        } else {
            assert forall|i: int|
                0 <= i < all.len() && (#[trigger] all[i]).profile.package@ == pkg implies all[i] == e by {
                if i < es.len() {
                    assert(all[i] == es[i]);
                    assert(claimed(es, pkg));
                }
            }
        }
        assert(all.contains(w));
    }
}

/// A report once made stays.
proof fn lemma_problems_stay(v: StoreView, e: Entry)
    ensures
        forall|x: (Seq<char>, Seq<char>)| #[trigger]
            v.problems.contains(x) ==> v.add(e).problems.contains(x),
{
    assert forall|x: (Seq<char>, Seq<char>)| #[trigger] v.problems.contains(x) implies v.add(
        e,
    ).problems.contains(x) by {
        let i = choose|i: int| 0 <= i < v.problems.len() && v.problems[i] == x;
        assert(v.add(e).problems[i] == x);
    }
}

/// Two scans that find the same profiles, in whatever order, choose the same one
/// for a package, unless two of them share their precedence and their place in the
/// order of paths.
pub proof fn law_the_first_choice_is_one(
    es: Seq<Entry>,
    fs: Seq<Entry>,
    pkg: Seq<char>,
    a: Entry,
    b: Entry,
)
    requires
        forall|e: Entry| #[trigger] es.contains(e) <==> fs.contains(e),
        first_choice(es, pkg, a),
        first_choice(fs, pkg, b),
    ensures
        a == b || (a.origin.rank_spec() == b.origin.rank_spec() && path_order(a.path@, b.path@)
            && path_order(b.path@, a.path@)),
{
    assert(fs.contains(a) && es.contains(b));
    let x = choose|x: int| 0 <= x < fs.len() && fs[x] == a;
    let y = choose|y: int| 0 <= y < es.len() && es[y] == b;
    assert(fs[x] == a && es[y] == b);
}

/// The order of the scan does not decide between two profiles of one package:
/// the same one wins either way, unless their paths do not differ in order.
pub proof fn law_scan_order_does_not_matter(v: StoreView, a: Entry, b: Entry)
    requires
        a.profile.package@ == b.profile.package@,
        !v.known.contains_key(a.profile.package@),
        a.origin != b.origin || path_order(a.path@, b.path@) != path_order(b.path@, a.path@),
    ensures
        v.add(a).add(b).known == v.add(b).add(a).known,
{
    assert(v.add(a).add(b).known =~= v.add(b).add(a).known);
}

/// A profile never vanishes without a word: each one found is the winner, or is
/// shadowed by one of higher precedence, or is reported.
pub proof fn law_a_collision_is_reported(v: StoreView, e: Entry)
    ensures
        v.add(e).known[e.profile.package@] == e || v.known[e.profile.package@].origin.rank_spec()
            < e.origin.rank_spec() || v.add(e).problems.last().0 == e.path@,
        v.add(e).problems.len() >= v.problems.len(),
{
}

/// The user's profiles come before the system's, and those before the bundled
/// ones.
pub proof fn law_the_users_profiles_come_first()
    ensures
        Origin::User.rank_spec() < Origin::System.rank_spec(),
        Origin::System.rank_spec() < Origin::Bundled.rank_spec(),
{
}

/// A profile that is found concerns its own package and no other. Of two for one
/// package the one of higher precedence stays, whichever came first; of two of the
/// same precedence the one whose path does not sort behind the other stays, and
/// the other is reported with the path of the one in use.
pub proof fn law_a_profile_found_concerns_its_package(v: StoreView, e: Entry, other: Seq<char>)
    ensures
        ({
            let own = e.profile.package@;
            let w = v.add(e);
            let prev = v.known[own];
            let tie = v.known.contains_key(own) && prev.origin == e.origin;
            let stays = v.known.contains_key(own) && (prev.origin.rank_spec() < e.origin.rank_spec()
                || (tie && path_order(prev.path@, e.path@)));
            &&& other != own ==> w.known.contains_key(other) == v.known.contains_key(other)
                && w.known[other] == v.known[other]
            &&& w.known.contains_key(own)
            &&& w.known[own] == if stays {
                prev
            } else {
                e
            }
            &&& !tie ==> w.problems == v.problems
            &&& tie ==> {
                &&& w.problems.len() == v.problems.len() + 1
                &&& w.problems.drop_last() == v.problems
                &&& w.problems.last().0 == if stays {
                    e.path@
                } else {
                    prev.path@
                }
                &&& crate::text::occurs(w.problems.last().1, w.known[own].path@)
                &&& crate::text::occurs(w.problems.last().1, own)
            }
        }),
{
    let own = e.profile.package@;
    let w = v.add(e);
    let keep = w.known[own].path@;
    let a = "' paketini iki profil birden iddia ediyor; using '"@;
    let z = "'. Delete one or rename the package."@;
    crate::text::lemma_occurs_between("'"@ + own + a, keep, z);
    crate::text::lemma_occurs_between("'"@, own, a + keep + z);
    assert("'"@ + own + (a + keep + z) =~= collision(own, keep));
    let prev = v.known[own];
    assert(prev.origin == e.origin <==> prev.origin.rank_spec() == e.origin.rank_spec());
    if v.known.contains_key(own) && prev.origin == e.origin {
        assert(w.problems.drop_last() =~= v.problems);
    }
}

/// A file that could not be used is reported as it is, and changes nothing else.
pub proof fn law_a_bad_file_is_only_reported(v: StoreView, b: BadProfile)
    ensures
        v.reject(b).known == v.known,
        v.reject(b).problems == v.problems.push((b.path@, b.error@)),
{
}

/// A save goes to the file of the user's own profile, else into the user's
/// directory under the name of the package; nothing that belongs to the system or
/// came with the program is ever written. Without such a directory there is no
/// place for it.
pub proof fn law_a_save_goes_to_the_user(
    v: StoreView,
    pkg: Seq<char>,
    dir: Option<Seq<char>>,
)
    ensures
        ({
            let own = v.known.contains_key(pkg) && v.known[pkg].origin is User;
            &&& own ==> v.target(pkg, dir) == Some(v.known[pkg].path@)
            &&& !own && dir is None ==> v.target(pkg, dir) is None
            &&& !own && dir is Some ==> v.target(pkg, dir) == Some(joined(dir->0, pkg + ".toml"@))
        }),
{
}

/// A name below a directory is the directory, one slash, and the name; a name that
/// starts at the root stands for itself.
pub proof fn law_a_path_is_joined_by_one_slash(dir: Seq<char>, name: Seq<char>)
    ensures
        name.len() > 0 && name[0] == '/' ==> joined(dir, name) == name,
        !(name.len() > 0 && name[0] == '/') && dir.len() > 0 && dir.last() != '/' ==> joined(
            dir,
            name,
        ) == dir + seq!['/'] + name,
        !(name.len() > 0 && name[0] == '/') && (dir.len() == 0 || dir.last() == '/') ==> joined(
            dir,
            name,
        ) == dir + name,
{
    assert(dir.push('/') + name =~= dir + seq!['/'] + name);
}

/// A profile file is a name of at least one letter with `.toml` behind it.
pub proof fn law_a_profile_file_ends_in_toml(name: Seq<char>)
    ensures
        profile_file(name) <==> exists|stem: Seq<char>|
            stem.len() > 0 && name == #[trigger] (stem + ".toml"@),
{
    reveal_strlit(".toml");
    let end = ".toml"@;
    assert(end.len() == 5);
    if profile_file(name) {
        let stem = name.take(name.len() - 5);
        assert(name =~= stem + name.subrange(name.len() - 5, name.len() as int));
        assert(name == stem + end);
    }
    if exists|stem: Seq<char>| stem.len() > 0 && name == #[trigger] (stem + end) {
        let stem = choose|stem: Seq<char>| stem.len() > 0 && name == #[trigger] (stem + end);
        assert(name.subrange(name.len() - 5, name.len() as int) =~= end);
    }
}

/// The parent of a path is what stands before its last slash; the root and a bare
/// name have none.
pub proof fn law_the_parent_is_before_the_last_slash(p: Seq<char>)
    ensures
        match parent(p) {
            Some(d) => exists|k: int|
                0 <= k < p.len() && #[trigger] p[k] == '/' && (forall|j: int|
                    k < j < p.len() ==> p[j] != '/') && d == (if k == 0 {
                    p.take(1)
                } else {
                    p.take(k)
                }) && p.len() > 1,
            None => p == seq!['/'] || forall|j: int| 0 <= j < p.len() ==> p[j] != '/',
        },
{
    lemma_last_slash(p, p.len() as int);
    if let Some(k) = last_slash(p, p.len() as int) {
        if p.len() == 1 {
            assert(p =~= seq!['/']);
        } else {
            assert(p[k] == '/');
        }
    }
}

pub(crate) proof fn lemma_last_slash(p: Seq<char>, n: int)
    requires
        0 <= n <= p.len(),
    ensures
        match last_slash(p, n) {
            Some(k) => 0 <= k < n && p[k] == '/' && forall|j: int| k < j < n ==> p[j] != '/',
            None => forall|j: int| 0 <= j < n ==> p[j] != '/',
        },
    decreases n,
{
    if n > 0 && p[n - 1] != '/' {
        lemma_last_slash(p, n - 1);
    }
}

/// What lies near a program is looked for beside it and then in up to three
/// directories above, each the parent of the one before.
pub proof fn law_the_search_climbs(dir: Seq<char>, tail: Seq<char>, n: nat)
    requires
        n > 0,
    ensures
        ({
            let found = ancestors(Some(dir), tail, n);
            &&& 1 <= found.len() <= n
            &&& found[0] == joined(dir, tail)
            &&& found.skip(1) == ancestors(parent(dir), tail, (n - 1) as nat)
        }),
        ancestors(None, tail, n).len() == 0,
        ancestors(Some(dir), tail, 0).len() == 0,
{
    lemma_ancestors_len(parent(dir), tail, (n - 1) as nat);
    let found = ancestors(Some(dir), tail, n);
    assert(found.skip(1) =~= ancestors(parent(dir), tail, (n - 1) as nat));
}

proof fn lemma_ancestors_len(dir: Option<Seq<char>>, tail: Seq<char>, n: nat)
    ensures
        ancestors(dir, tail, n).len() <= n,
    decreases n,
{
    if dir is Some && n > 0 {
        lemma_ancestors_len(parent(dir->0), tail, (n - 1) as nat);
    }
}

/// The user's profiles lie below the configuration directory, or below `.config`
/// in the home directory where that is not set.
pub proof fn law_the_users_directory(xdg: Option<Seq<char>>, home: Option<Seq<char>>)
    ensures
        user_dir(xdg, home) is None <==> xdg is None && home is None,
        xdg is Some ==> user_dir(xdg, home) == user_dir(xdg, None) && crate::text::opens_with(
            user_dir(xdg, home)->0,
            xdg->0,
        ),
        xdg is None && home is Some ==> user_dir(xdg, home) == user_dir(
            Some(joined(home->0, ".config"@)),
            None,
        ) && crate::text::opens_with(user_dir(xdg, home)->0, home->0),
{
    reveal_strlit("liwinux");
    reveal_strlit("profiles");
    reveal_strlit(".config");
    if let Some(x) = xdg {
        lemma_joined_opens(x, "liwinux"@);
        lemma_joined_opens(joined(x, "liwinux"@), "profiles"@);
        lemma_opens_through(user_dir(xdg, home)->0, joined(x, "liwinux"@), x);
    } else if let Some(h) = home {
        let c = joined(h, ".config"@);
        lemma_joined_opens(h, ".config"@);
        lemma_joined_opens(c, "liwinux"@);
        lemma_joined_opens(joined(c, "liwinux"@), "profiles"@);
        lemma_opens_through(joined(c, "liwinux"@), c, h);
        lemma_opens_through(user_dir(xdg, home)->0, joined(c, "liwinux"@), h);
    }
}

proof fn lemma_joined_opens(dir: Seq<char>, name: Seq<char>)
    requires
        name.len() > 0,
        name[0] != '/',
    ensures
        crate::text::opens_with(joined(dir, name), dir),
{
    assert(joined(dir, name).subrange(0, dir.len() as int) =~= dir);
}

proof fn lemma_opens_through(a: Seq<char>, b: Seq<char>, c: Seq<char>)
    requires
        crate::text::opens_with(a, b),
        crate::text::opens_with(b, c),
    ensures
        crate::text::opens_with(a, c),
{
    assert forall|i: int| 0 <= i < c.len() implies a[i] == c[i] by {
        assert(a.subrange(0, b.len() as int)[i] == b[i]);
        assert(b.subrange(0, c.len() as int)[i] == c[i]);
    }
    assert(a.subrange(0, c.len() as int) =~= c);
}

/// Every file that could be read is considered, in the order in which they were found,
/// and no other.
pub proof fn law_every_good_file_is_considered(loads: Seq<Load>)
    ensures
        good_of(loads).map_values(|e: Entry| Load::Good(e)) == loads.filter(|l: Load| l is Good),
    decreases loads.len(),
{
    reveal(Seq::filter);
    let wrap = |e: Entry| Load::Good(e);
    if loads.len() > 0 {
        law_every_good_file_is_considered(loads.drop_last());
        if let Load::Good(e) = loads.last() {
            assert(good_of(loads.drop_last()).push(e).map_values(wrap) =~= good_of(
                loads.drop_last(),
            ).map_values(wrap).push(Load::Good(e)));
        }
    } else {
        assert(good_of(loads).map_values(wrap) =~= Seq::<Load>::empty());
    }
}

/// The files of every directory that could be listed are found, one directory behind the
/// other; one that could not adds nothing.
pub proof fn law_every_directory_is_searched(
    before: Seq<Option<Vec<Load>>>,
    dir: Option<Vec<Load>>,
)
    ensures
        dir is Some ==> loads_of(before.push(dir)) == loads_of(before) + dir->0@,
        dir is None ==> loads_of(before.push(dir)) == loads_of(before),
        loads_of(Seq::empty()) == Seq::<Load>::empty(),
{
    assert(before.push(dir).drop_last() =~= before);
}

} // verus!
