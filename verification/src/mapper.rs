//! Placing key bindings on the Android picture.
//!
//! You look at the game, you point at the button you want, and you press the
//! key that should press it. Nothing is typed, no coordinates are entered, and
//! the thing you are aiming at is the actual game rather than a screenshot.
//!
//! What is stored is an evdev code and a normalized position, so a binding
//! survives a resized window and a different keyboard layout.

use crate::by_name::ByName;
use crate::num::{Num, ZERO_BITS};
use crate::profile::{Binding, Profile, Trigger};
use crate::store::Store;
use crate::touch::Norm;
use vstd::prelude::*;
use vstd::string::*;

verus! {

/// Names are numbered with a signed 32-bit count that starts at two.
pub const MOST_NAMES: usize = 2147483645;

/// Where the editor is in the place-then-press cycle.
#[derive(Clone, Copy, Debug, PartialEq, Eq, Structural)]
pub enum Editing {
    /// Not editing.
    Off,
    /// Editing, waiting for a click on the picture.
    Placing,
    /// A point has been placed; the next key press binds to it.
    AwaitingKey(Norm),
}

impl Default for Editing {
    fn default() -> (r: Editing)
        ensures
            r == Editing::Off,
    {
        Editing::Off
    }
}

/// The editor's state, and the profile it is changing.
#[derive(Debug)]
pub struct Mapper {
    pub editing: Editing,
    /// The profile being edited, loaded when editing starts.
    pub profile: Option<Profile>,
    /// What went wrong, if anything. Shown rather than logged: a save that
    /// silently failed is the worst outcome here.
    pub error: Option<String>,
    /// Set after a successful save, so the view can say so.
    pub saved: bool,
}

impl Default for Mapper {
    fn default() -> (r: Mapper)
        ensures
            r.editing == Editing::Off,
            r.profile is None,
            r.error is None,
            !r.saved,
            r.wf(),
    {
        Mapper { editing: Editing::Off, profile: None, error: None, saved: false }
    }
}

/// The label of whatever triggers a binding.
pub open spec fn trigger_text(t: Trigger) -> Seq<char> {
    match t {
        Trigger::Key(c) => crate::keys::label_of(c),
        Trigger::MouseLeft => "LMB"@,
        Trigger::MouseRight => "RMB"@,
        Trigger::MouseMiddle => "MMB"@,
        Trigger::WheelUp => "Wheel↑"@,
        Trigger::WheelDown => "Wheel↓"@,
    }
}

pub fn trigger_label(t: &Trigger) -> (r: String)
    ensures
        r@ == trigger_text(*t),
{
    match t {
        Trigger::Key(c) => crate::keys::label(*c),
        Trigger::MouseLeft => "LMB".to_owned(),
        Trigger::MouseRight => "RMB".to_owned(),
        Trigger::MouseMiddle => "MMB".to_owned(),
        Trigger::WheelUp => "Wheel↑".to_owned(),
        Trigger::WheelDown => "Wheel↓".to_owned(),
    }
}

/// The `n`th name tried for a binding whose plain name is taken.
pub open spec fn numbered(base: Seq<char>, n: int) -> Seq<char> {
    base + " "@ + crate::text::decimal(n as nat)
}

/// `name` is the plain name if it is free, else the first free numbered one.
pub open spec fn first_free_name(
    taken: Set<Seq<char>>,
    base: Seq<char>,
    name: Seq<char>,
) -> bool {
    if !taken.contains(base) {
        name == base
    } else {
        exists|n: int|
            2 <= n && #[trigger] numbered(base, n) == name && !taken.contains(name) && forall|k: int|
                2 <= k < n ==> taken.contains(#[trigger] numbered(base, k))
    }
}

proof fn lemma_numbered_once(base: Seq<char>, a: int, b: int)
    requires
        0 <= a,
        0 <= b,
        numbered(base, a) == numbered(base, b),
    ensures
        a == b,
{
    reveal_strlit(" ");
    let x = numbered(base, a);
    let at = (base + " "@).len() as int;
    assert(x.skip(at) =~= crate::text::decimal(a as nat));
    assert(numbered(base, b).skip(at) =~= crate::text::decimal(b as nat));
    crate::text::lemma_decimal_differs(a as nat, b as nat);
}

/// Where a name stands in a list.
spec fn place_of(s: Seq<(String, Binding)>, name: Seq<char>) -> int {
    choose|i: int| crate::by_name::named(s, name, i)
}

/// The `k`th name tried, the plain one first.
spec fn tried(base: Seq<char>, k: int) -> Seq<char> {
    if k == 1 {
        base
    } else {
        numbered(base, k)
    }
}

/// A list that holds the plain name and every number below `n` is that long.
proof fn lemma_room(s: Seq<(String, Binding)>, base: Seq<char>, n: int)
    requires
        2 <= n,
        crate::by_name::map_of(s).contains_key(base),
        forall|k: int| 2 <= k < n ==> crate::by_name::map_of(s).contains_key(#[trigger] numbered(base, k)),
    ensures
        n - 1 <= s.len(),
{
    let place = |k: int| place_of(s, tried(base, k));
    let from = vstd::set_lib::set_int_range(1, n);
    let to = vstd::set_lib::set_int_range(0, s.len() as int);
    vstd::set_lib::lemma_int_range(1, n);
    vstd::set_lib::lemma_int_range(0, s.len() as int);
    assert forall|k: int| 1 <= k < n implies crate::by_name::named(s, tried(base, k), #[trigger] place(k)) by {
        assert(crate::by_name::map_of(s).contains_key(tried(base, k)));
        let i = choose|i: int| crate::by_name::named(s, tried(base, k), i);
        assert(crate::by_name::named(s, tried(base, k), i));
    }
    assert forall|a: int, b: int|
        from.contains(a) && from.contains(b) && #[trigger] place(a) == #[trigger] place(b) implies a
        == b by {
        assert(crate::by_name::named(s, tried(base, a), place(a)));
        assert(crate::by_name::named(s, tried(base, b), place(b)));
        assert(tried(base, a) == tried(base, b));
        reveal_strlit(" ");
        if a == 1 || b == 1 {
            assert(numbered(base, a).len() > base.len());
            assert(numbered(base, b).len() > base.len());
        } else {
            lemma_numbered_once(base, a, b);
        }
    }
    let image = from.map(place);
    vstd::set_lib::lemma_map_size(from, image, place);
    assert(image.subset_of(to)) by {
        assert forall|i: int| image.contains(i) implies to.contains(i) by {
            let k = choose|k: int| from.contains(k) && place(k) == i;
            assert(crate::by_name::named(s, tried(base, k), place(k)));
        }
    }
    vstd::set_lib::lemma_len_subset(image, to);
}

/// A name not already in the profile.
///
/// Reusing a name would silently replace the binding that had it, and the
/// engine gives one touch pointer per name, so two under one name would fight
/// over the same finger.
pub fn unique_name(p: &Profile, base: &str) -> (r: String)
    requires
        p.bindings.wf(),
        p.bindings@.len() <= MOST_NAMES,
    ensures
        first_free_name(p.bindings.map().dom(), base@, r@),
{
    if p.bindings.get(base).is_none() {
        return base.to_owned();
    }
    let mut n: u64 = 2;
    loop
        invariant
            p.bindings.wf(),
            p.bindings@.len() <= MOST_NAMES,
            2 <= n <= MOST_NAMES + 1,
            p.bindings.map().contains_key(base@),
            forall|k: int| 2 <= k < n ==> p.bindings.map().contains_key(#[trigger] numbered(base@, k)),
        decreases MOST_NAMES + 2 - n,
    {
        let mut name: String = base.to_owned();
        name.append(" ");
        crate::text::push_decimal(&mut name, n);
        assert(name@ == numbered(base@, n as int));
        if p.bindings.get(name.as_str()).is_none() {
            return name;
        }
        proof {
            lemma_room(p.bindings@, base@, n + 1);
        }
        n = n + 1;
    }
}

/// One button to draw: the binding's name, where it is, and what presses it.
pub type Marker = (Seq<char>, Norm, Seq<char>);

/// The marker of a binding, if a marker means anything for it. An aim binding
/// has an origin but is not a button, and drawing it as one would invite a
/// click that means nothing.
pub open spec fn marker_of(name: Seq<char>, b: Binding) -> Option<Marker> {
    match b {
        Binding::Tap { trigger, at } => Some((name, at, trigger_text(trigger))),
        Binding::Toggle { trigger, at } => Some((name, at, trigger_text(trigger))),
        _ => None,
    }
}

/// The markers of the first `n` bindings.
pub open spec fn markers_of(s: Seq<(String, Binding)>, n: int) -> Seq<Marker>
    decreases n,
{
    if n <= 0 {
        Seq::empty()
    } else {
        match marker_of(s[n - 1].0@, s[n - 1].1) {
            Some(m) => markers_of(s, n - 1).push(m),
            None => markers_of(s, n - 1),
        }
    }
}

/// The texts of a list of markers.
pub open spec fn shown(v: Seq<(String, Norm, String)>) -> Seq<Marker> {
    v.map_values(|m: (String, Norm, String)| (m.0@, m.1, m.2@))
}

impl Mapper {
    /// The profile under edit keeps its names in order.
    pub open spec fn wf(&self) -> bool {
        match self.profile {
            Some(p) => p.bindings.wf(),
            None => true,
        }
    }

    pub fn is_on(&self) -> (r: bool)
        ensures
            r == (self.editing != Editing::Off),
    {
        match self.editing {
            Editing::Off => false,
            _ => true,
        }
    }

    /// Starts editing the profile for a package, creating one if there is none.
    ///
    /// A missing profile is not an error. The whole point of this screen is
    /// making the first binding for a game that has none.
    pub fn begin(&mut self, store: &Store, package: &str, name: &str)
        requires
            store.wf(),
            store@.known.contains_key(package@)
                ==> store@.known[package@].profile.bindings.wf(),
        ensures
            final(self).wf(),
            final(self).editing == Editing::Placing,
            final(self).error is None,
            !final(self).saved,
            match final(self).profile {
                Some(p) => if store@.known.contains_key(package@) {
                    let known = store@.known[package@].profile;
                    &&& p.name@ == known.name@
                    &&& p.package@ == known.package@
                    &&& crate::profile::same_bindings(p.bindings@, known.bindings@)
                } else {
                    &&& p.name@ == name@
                    &&& p.package@ == package@
                    &&& p.bindings@.len() == 0
                },
                None => false,
            },
    {
        let p: Profile = match store.for_package(package) {
            Some(entry) => entry.profile.clone(),
            None => Profile {
                name: name.to_owned(),
                package: package.to_owned(),
                bindings: ByName::new(),
            },
        };
        self.profile = Some(p);
        self.editing = Editing::Placing;
        self.error = None;
        self.saved = false;
    }

    pub fn end(&mut self)
        ensures
            final(self).editing == Editing::Off,
            final(self).profile is None,
            final(self).error == old(self).error,
            final(self).saved == old(self).saved,
    {
        self.editing = Editing::Off;
        self.profile = None;
    }

    /// Whether a click counts: the picture has a size and the point is on it.
    pub open spec fn on_picture(width: Num, height: Num, x: Num, y: Num) -> bool {
        let zero = Num { bits: ZERO_BITS };
        !width.le(zero) && !height.le(zero) && Norm::on_axis(x) && Norm::on_axis(y)
    }

    /// Records a click on the picture.
    ///
    /// `width` and `height` are what the picture is shown at, `x` and `y` the
    /// click relative to its top-left corner, divided by them. A click outside
    /// the picture, in the letterboxing, is ignored rather than clamped:
    /// clamping would silently place a binding at the edge, which is not what
    /// was meant.
    pub fn place(&mut self, width: Num, height: Num, x: Num, y: Num) -> (r: bool)
        ensures
            r == (old(self).editing == Editing::Placing && Mapper::on_picture(width, height, x, y)),
            final(self).editing == (if r {
                Editing::AwaitingKey(Norm::new_spec(x, y))
            } else {
                old(self).editing
            }),
            final(self).profile == old(self).profile,
            final(self).error == old(self).error,
            final(self).saved == old(self).saved,
    {
        match self.editing {
            Editing::Placing => {},
            _ => {
                return false;
            },
        }
        let zero: Num = Num::of(ZERO_BITS);
        if width.at_most(zero) || height.at_most(zero) {
            return false;
        }
        if Norm::unclamped(x, y).is_offscreen() {
            return false;
        }
        self.editing = Editing::AwaitingKey(Norm::new(x, y));
        true
    }

    /// Binds a key to the point that is waiting for one.
    ///
    /// Returns the name the binding was stored under. The name matters beyond
    /// display: the input engine allocates one touch pointer per name, so two
    /// bindings sharing a name would fight over the same finger. A key that
    /// cannot be mapped leaves the point waiting.
    pub fn assign(&mut self, key_name: &str) -> (r: Option<String>)
        requires
            old(self).wf(),
            old(self).profile matches Some(p) ==> p.bindings@.len() <= MOST_NAMES,
        ensures
            final(self).wf(),
            final(self).error == old(self).error,
            r is Some == (old(self).editing is AwaitingKey && old(self).profile is Some
                && crate::keys::code_of(key_name@) is Some),
            match r {
                Some(name) => {
                    let code = crate::keys::code_of(key_name@)->0;
                    let was = old(self).profile->0;
                    &&& final(self).profile matches Some(p)
                    &&& p.name == was.name
                    &&& p.package == was.package
                    &&& first_free_name(
                        was.bindings.map().dom(),
                        crate::keys::label_of(code),
                        name@,
                    )
                    &&& p.bindings.map() == was.bindings.map().insert(
                        name@,
                        Binding::Tap {
                            trigger: Trigger::Key(code),
                            at: old(self).editing->AwaitingKey_0,
                        },
                    )
                    &&& final(self).editing == Editing::Placing
                    &&& !final(self).saved
                },
                None => *final(self) == *old(self),
            },
    {
        let at: Norm = match self.editing {
            Editing::AwaitingKey(at) => at,
            _ => {
                return None;
            },
        };
        let code: u16 = match crate::keys::evdev_code(key_name) {
            Some(c) => c,
            None => {
                return None;
            },
        };
        let name: String = match &mut self.profile {
            Some(profile) => {
                let label: String = crate::keys::label(code);
                let name: String = unique_name(profile, label.as_str());
                profile.bindings.insert(
                    name.as_str(),
                    Binding::Tap { trigger: Trigger::Key(code), at },
                );
                name
            },
            None => {
                return None;
            },
        };
        self.editing = Editing::Placing;
        self.saved = false;
        Some(name)
    }

    /// Forgets a binding.
    pub fn remove(&mut self, name: &str)
        requires
            old(self).wf(),
        ensures
            final(self).wf(),
            final(self).editing == old(self).editing,
            final(self).error == old(self).error,
            match old(self).profile {
                Some(was) => {
                    &&& final(self).profile matches Some(p)
                    &&& p.name == was.name
                    &&& p.package == was.package
                    &&& p.bindings.map() == was.bindings.map().remove(name@)
                    &&& !final(self).saved
                },
                None => final(self).profile is None && final(self).saved == old(self).saved,
            },
    {
        match &mut self.profile {
            Some(p) => {
                p.bindings.remove(name);
            },
            None => {
                return;
            },
        }
        self.saved = false;
    }

    /// Records how writing the profile to disk went. With nothing under edit
    /// there was nothing to write.
    pub fn on_saved(&mut self, outcome: Result<(), String>)
        ensures
            final(self).editing == old(self).editing,
            final(self).profile == old(self).profile,
            old(self).profile is None ==> *final(self) == *old(self),
            old(self).profile is Some ==> final(self).saved == (outcome is Ok),
            old(self).profile is Some ==> match outcome {
                Ok(_) => final(self).error is None,
                Err(e) => final(self).error matches Some(t) && t@ == "could not save: "@ + e@,
            },
    {
        if self.profile.is_none() {
            return;
        }
        match outcome {
            Ok(_) => {
                self.saved = true;
                self.error = None;
            },
            Err(e) => {
                self.saved = false;
                let mut t: String = "could not save: ".to_owned();
                t.append(e.as_str());
                self.error = Some(t);
            },
        }
    }

    /// The bindings that have a position, for drawing markers.
    pub fn markers(&self) -> (r: Vec<(String, Norm, String)>)
        ensures
            shown(r@) == (match self.profile {
                Some(p) => markers_of(p.bindings@, p.bindings@.len() as int),
                None => Seq::empty(),
            }),
    {
        let mut out: Vec<(String, Norm, String)> = Vec::new();
        let p: &Profile = match &self.profile {
            Some(p) => p,
            None => {
                assert(shown(out@) =~= Seq::empty());
                return out;
            },
        };
        let mut i: usize = 0;
        assert(shown(out@) =~= Seq::empty());
        while i < p.bindings.len()
            invariant
                i <= p.bindings@.len(),
                shown(out@) == markers_of(p.bindings@, i as int),
            decreases p.bindings@.len() - i,
        {
            let item: &(String, Binding) = p.bindings.at(i);
            let ghost before = out@;
            match &item.1 {
                Binding::Tap { trigger, at } => {
                    out.push((item.0.clone(), *at, trigger_label(trigger)));
                    assert(shown(out@) =~= shown(before).push(
                        (item.0@, *at, trigger_text(*trigger)),
                    ));
                },
                Binding::Toggle { trigger, at } => {
                    out.push((item.0.clone(), *at, trigger_label(trigger)));
                    assert(shown(out@) =~= shown(before).push(
                        (item.0@, *at, trigger_text(*trigger)),
                    ));
                },
                _ => {},
            }
            i = i + 1;
        }
        out
    }
}

/// Binding a key never replaces a binding: every binding that was there is
/// still there, under the same name.
pub proof fn law_a_binding_never_replaces_another(
    taken: Map<Seq<char>, Binding>,
    base: Seq<char>,
    name: Seq<char>,
    b: Binding,
)
    requires
        first_free_name(taken.dom(), base, name),
    ensures
        !taken.contains_key(name),
        taken.submap_of(taken.insert(name, b)),
{
}

/// The name a binding gets is settled by the names already taken.
pub proof fn law_a_free_name_is_unique(
    taken: Set<Seq<char>>,
    base: Seq<char>,
    a: Seq<char>,
    b: Seq<char>,
)
    requires
        first_free_name(taken, base, a),
        first_free_name(taken, base, b),
    ensures
        a == b,
{
    if taken.contains(base) {
        let n = choose|n: int|
            2 <= n && #[trigger] numbered(base, n) == a && !taken.contains(a) && forall|k: int|
                2 <= k < n ==> taken.contains(#[trigger] numbered(base, k));
        let m = choose|n: int|
            2 <= n && #[trigger] numbered(base, n) == b && !taken.contains(b) && forall|k: int|
                2 <= k < n ==> taken.contains(#[trigger] numbered(base, k));
        if n < m {
            assert(taken.contains(numbered(base, n)));
        } else if m < n {
            assert(taken.contains(numbered(base, m)));
        }
    }
}

/// Forgetting a binding that was just made gives back what was there.
pub proof fn law_removing_undoes_binding(
    taken: Map<Seq<char>, Binding>,
    base: Seq<char>,
    name: Seq<char>,
    b: Binding,
)
    requires
        first_free_name(taken.dom(), base, name),
    ensures
        taken.insert(name, b).remove(name) == taken,
{
    assert(taken.insert(name, b).remove(name) =~= taken);
}

/// A tap or a toggle is marked at its own place, with the name of the binding and
/// the label of its key; nothing else is marked.
pub proof fn law_a_marker_stands_where_its_binding_does(name: Seq<char>, b: Binding)
    ensures
        match b {
            Binding::Tap { trigger, at } => {
                let m = marker_of(name, b)->0;
                marker_of(name, b) is Some && m.0 == name && m.1.x == at.x && m.1.y == at.y && m.2
                    == trigger_text(trigger)
            },
            Binding::Toggle { trigger, at } => {
                let m = marker_of(name, b)->0;
                marker_of(name, b) is Some && m.0 == name && m.1.x == at.x && m.1.y == at.y && m.2
                    == trigger_text(trigger)
            },
            _ => marker_of(name, b) is None,
        },
{
}

/// Every binding that is marked has its marker among those shown, and every marker
/// shown is that of a binding.
pub proof fn law_every_marker_is_shown(s: Seq<(String, Binding)>)
    ensures
        ({
            let all = markers_of(s, s.len() as int);
            &&& forall|i: int|
                0 <= i < s.len() && marker_of(s[i].0@, s[i].1) is Some ==> all.contains(
                    (#[trigger] marker_of(s[i].0@, s[i].1))->0,
                )
            &&& forall|m: Marker| #[trigger]
                all.contains(m) ==> exists|i: int|
                    0 <= i < s.len() && #[trigger] marker_of(s[i].0@, s[i].1) == Some(m)
            &&& all.len() <= s.len()
        }),
{
    lemma_markers(s, s.len() as int);
}

proof fn lemma_markers(s: Seq<(String, Binding)>, n: int)
    requires
        0 <= n <= s.len(),
    ensures
        ({
            let all = markers_of(s, n);
            &&& forall|i: int|
                0 <= i < n && marker_of(s[i].0@, s[i].1) is Some ==> all.contains(
                    (#[trigger] marker_of(s[i].0@, s[i].1))->0,
                )
            &&& forall|m: Marker| #[trigger]
                all.contains(m) ==> exists|i: int|
                    0 <= i < n && #[trigger] marker_of(s[i].0@, s[i].1) == Some(m)
            &&& all.len() <= n
        }),
    decreases n,
{
    if n > 0 {
        lemma_markers(s, n - 1);
        let before = markers_of(s, n - 1);
        let all = markers_of(s, n);
        let own = marker_of(s[n - 1].0@, s[n - 1].1);
        assert forall|m: Marker| #[trigger] before.contains(m) implies all.contains(m) by {
            let k = choose|k: int| 0 <= k < before.len() && before[k] == m;
            assert(all[k] == m);
        }
        if own is Some {
            assert(all.last() == own->0);
        }
        assert forall|m: Marker| #[trigger] all.contains(m) implies exists|i: int|
            0 <= i < n && #[trigger] marker_of(s[i].0@, s[i].1) == Some(m) by {
            let k = choose|k: int| 0 <= k < all.len() && all[k] == m;
            if k < before.len() {
                assert(before[k] == m);
                assert(before.contains(m));
            } else {
                assert(own == Some(m));
            }
        }
    }
}

/// A click counts exactly if the picture has a size and the click is on it, on
/// both axes.
pub proof fn law_a_click_must_be_on_the_picture(width: Num, height: Num, x: Num, y: Num)
    ensures
        ({
            let zero = Num { bits: 0 };
            let one = Num { bits: 0x3f80_0000 };
            Mapper::on_picture(width, height, x, y) <==> !width.le(zero) && !height.le(zero)
                && zero.le(x) && x.le(one) && zero.le(y) && y.le(one)
        }),
{
}

/// The buttons and the wheel of a mouse are told apart by their labels.
pub proof fn law_mouse_labels_differ(a: Trigger, b: Trigger)
    requires
        !(a is Key),
        !(b is Key),
        trigger_text(a) == trigger_text(b),
    ensures
        a == b,
{
    reveal_strlit("LMB");
    reveal_strlit("RMB");
    reveal_strlit("MMB");
    reveal_strlit("Wheel↑");
    reveal_strlit("Wheel↓");
    assert("LMB"@[0] == 'L' && "RMB"@[0] == 'R' && "MMB"@[0] == 'M');
    assert("Wheel↑"@[0] == 'W' && "Wheel↓"@[0] == 'W');
    assert("Wheel↑"@[5] == '↑' && "Wheel↓"@[5] == '↓');
}

/// `name` is `base` with a number behind it, from two up to `n`.
pub open spec fn counted_up_to(base: Seq<char>, n: int, name: Seq<char>) -> bool {
    exists|k: int| 2 <= k <= n && name == base + " "@ + #[trigger] crate::text::decimal(k as nat)
}

/// A name that is taken gets the lowest number from two on that makes it free.
pub proof fn law_a_taken_name_gets_the_lowest_number(
    taken: Set<Seq<char>>,
    base: Seq<char>,
    name: Seq<char>,
    n: int,
)
    requires
        first_free_name(taken, base, name),
        taken.contains(base),
        2 <= n,
        !taken.contains(base + " "@ + crate::text::decimal(n as nat)),
    ensures
        counted_up_to(base, n, name),
        !taken.contains(name),
{
    let k = choose|k: int|
        2 <= k && #[trigger] numbered(base, k) == name && !taken.contains(name) && forall|j: int|
            2 <= j < k ==> taken.contains(#[trigger] numbered(base, j));
    assert(numbered(base, n) == base + " "@ + crate::text::decimal(n as nat));
    assert(k <= n);
    assert(name == base + " "@ + crate::text::decimal(k as nat));
}

} // verus!
