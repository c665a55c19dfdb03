//! Per-game key mapping profile.
//!
//! Coordinates are kept normalized (0..1) so a profile is independent of
//! resolution and window size. Using a profile on another machine needs no
//! editing.

use crate::num::{Num, HALF_BITS, ZERO_BITS};
use crate::by_name::ByName;
use crate::touch::Norm;
use vstd::prelude::*;
use vstd::string::*;

verus! {

/// A trigger on the keyboard or mouse.
#[derive(Clone, Copy, Debug, PartialEq, Eq, Hash, Structural)]
pub enum Trigger {
    /// evdev key code. The raw code is stored so it stays layout-independent:
    /// not the letter "W", but that physical key.
    Key(u16),
    MouseLeft,
    MouseRight,
    MouseMiddle,
    WheelUp,
    WheelDown,
}

/// Velocity curve of a swipe.
///
/// Games recognise a swipe direction once a distance threshold is crossed. On a
/// linear curve that happens mid-gesture; on a front-loaded curve much earlier.
#[derive(Clone, Copy, Debug, PartialEq, Eq, Structural)]
pub enum Easing {
    /// Constant speed.
    Linear,
    /// Fast start, slowing down (quadratic ease-out).
    EaseOut,
    /// Even more front-loaded (cubic).
    EaseOutStrong,
}

impl Default for Easing {
    fn default() -> (r: Easing)
        ensures
            r == Easing::Linear,
    {
        Easing::Linear
    }
}

/// Behaviour of a binding.
#[derive(Debug)]
pub enum Binding {
    /// The finger stays down while the key is held.
    Tap { trigger: Trigger, at: Norm },
    /// One tap on press-and-release (holding does not repeat).
    Toggle { trigger: Trigger, at: Norm },
    /// A four-way virtual joystick such as WASD.
    /// A single finger moving within `radius` around the centre.
    Joystick {
        up: Trigger,
        down: Trigger,
        left: Trigger,
        right: Trigger,
        center: Norm,
        radius: Num,
    },
    /// FPS aiming: relative mouse motion becomes a continuous drag.
    ///
    /// Without `toggle`, aim is always active: in an FPS the mouse look must be
    /// continuous and should not require holding a key.
    Aim {
        toggle: Option<Trigger>,
        origin: Norm,
        /// Converts a mouse pixel into normalized distance.
        sensitivity: Num,
        /// Motion below this threshold is ignored (mouse noise).
        deadzone: Num,
        /// When the finger gets this close to the screen edge it is lifted and
        /// placed back at the centre: a finger cannot be dragged forever.
        recenter_margin: Num,
        /// When on, a second finger goes down at the far side before the first
        /// reaches the edge and both move together; the first is released only
        /// afterwards, so a moving finger is on screen at every instant.
        handoff: bool,
        /// Sensitivity falls off as the finger moves away from the centre.
        nonlinear: bool,
        /// Delay inserted between the lift and the press (ms). Sending them in
        /// the same frame makes the game see a teleport.
        reset_delay_ms: u32,
        /// Whether the finger may travel off-screen. When on, the whole
        /// recentring mechanism is disabled: the finger goes down once and
        /// roams an unbounded plane until aim is released. Only valid on
        /// backends that do not clamp.
        unbounded: bool,
        /// Half-width of the safety box (in screens): the only numeric limit of
        /// unbounded mode.
        safety_span: Num,
    },
    /// Swipe gesture.
    ///
    /// With `group` set, this gesture is cancelled when another gesture in the
    /// same group starts.
    Swipe {
        trigger: Trigger,
        from: Norm,
        to: Norm,
        duration_ms: u32,
        group: Option<String>,
        easing: Easing,
    },
}

impl Binding {
    /// The exclusive group of a swipe.
    pub open spec fn group_spec(self) -> Option<Seq<char>> {
        match self {
            Binding::Swipe { group: Some(g), .. } => Some(g@),
            _ => None,
        }
    }

    /// The two behave alike: they differ at most in where a group name is stored.
    pub open spec fn alike(self, other: Binding) -> bool {
        match (self, other) {
            (
                Binding::Swipe { trigger: t1, from: f1, to: o1, duration_ms: d1, easing: e1, .. },
                Binding::Swipe { trigger: t2, from: f2, to: o2, duration_ms: d2, easing: e2, .. },
            ) => t1 == t2 && f1 == f2 && o1 == o2 && d1 == d2 && e1 == e2 && self.group_spec()
                == other.group_spec(),
            _ => self == other,
        }
    }
}

impl Clone for Binding {
    fn clone(&self) -> (r: Binding)
        ensures
            r.alike(*self),
    {
        match self {
            Binding::Tap { trigger, at } => Binding::Tap { trigger: *trigger, at: *at },
            Binding::Toggle { trigger, at } => Binding::Toggle { trigger: *trigger, at: *at },
            Binding::Joystick { up, down, left, right, center, radius } => Binding::Joystick {
                up: *up,
                down: *down,
                left: *left,
                right: *right,
                center: *center,
                radius: *radius,
            },
            Binding::Aim {
                toggle,
                origin,
                sensitivity,
                deadzone,
                recenter_margin,
                handoff,
                nonlinear,
                reset_delay_ms,
                unbounded,
                safety_span,
            } => Binding::Aim {
                toggle: *toggle,
                origin: *origin,
                sensitivity: *sensitivity,
                deadzone: *deadzone,
                recenter_margin: *recenter_margin,
                handoff: *handoff,
                nonlinear: *nonlinear,
                reset_delay_ms: *reset_delay_ms,
                unbounded: *unbounded,
                safety_span: *safety_span,
            },
            Binding::Swipe { trigger, from, to, duration_ms, group, easing } => Binding::Swipe {
                trigger: *trigger,
                from: *from,
                to: *to,
                duration_ms: *duration_ms,
                group: match group {
                    Some(g) => Some(g.clone()),
                    None => None,
                },
                easing: *easing,
            },
        }
    }
}

/// Handoff is off by default: some games track the two fingers separately.
pub fn default_true_handoff() -> (r: bool)
    ensures
        !r,
{
    false
}

/// Non-linear scaling is on by default.
pub fn default_true_nonlinear() -> (r: bool)
    ensures
        r,
{
    true
}

/// The default pause between a lift and the press that follows it.
pub fn default_reset_delay_ms() -> (r: u32)
    ensures
        r == 12,
{
    12
}

/// Unbounded aim is on by default; a backend that clamps falls back by itself.
pub fn default_unbounded() -> (r: bool)
    ensures
        r,
{
    true
}

impl Binding {
    /// The inputs that trigger this binding, in order.
    pub open spec fn triggers_spec(self) -> Seq<Trigger> {
        match self {
            Binding::Tap { trigger, .. } => seq![trigger],
            Binding::Toggle { trigger, .. } => seq![trigger],
            Binding::Swipe { trigger, .. } => seq![trigger],
            Binding::Joystick { up, down, left, right, .. } => seq![up, down, left, right],
            Binding::Aim { toggle, .. } => match toggle {
                Some(t) => seq![t],
                None => Seq::empty(),
            },
        }
    }

    /// The inputs that trigger this binding.
    pub fn triggers(&self) -> (r: Vec<Trigger>)
        ensures
            r@ == self.triggers_spec(),
    {
        let mut v: Vec<Trigger> = Vec::new();
        match self {
            Binding::Tap { trigger, .. } => {
                v.push(*trigger);
            },
            Binding::Toggle { trigger, .. } => {
                v.push(*trigger);
            },
            Binding::Swipe { trigger, .. } => {
                v.push(*trigger);
            },
            Binding::Joystick { up, down, left, right, .. } => {
                v.push(*up);
                v.push(*down);
                v.push(*left);
                v.push(*right);
            },
            Binding::Aim { toggle, .. } => {
                if let Some(t) = toggle {
                    v.push(*t);
                }
            },
        }
        v
    }

    /// A joystick whose radius is out of range.
    pub open spec fn bad_radius(self) -> bool {
        match self {
            Binding::Joystick { radius, .. } => !((Num { bits: ZERO_BITS }).le(radius) && radius.le(
                Num { bits: HALF_BITS },
            )),
            _ => false,
        }
    }
}

/// Bindings by name, kept in name order. The name is the key for pointer
/// allocation.
pub type Bindings = ByName<Binding>;

/// The same names with the same behaviour, in the same order.
pub open spec fn same_bindings(a: Seq<(String, Binding)>, b: Seq<(String, Binding)>) -> bool {
    &&& a.len() == b.len()
    &&& forall|i: int|
        0 <= i < a.len() ==> (#[trigger] a[i]).0@ == b[i].0@ && a[i].1.alike(b[i].1)
}

impl Clone for Bindings {
    fn clone(&self) -> (r: Bindings)
        ensures
            same_bindings(r@, self@),
            self.wf() ==> r.wf(),
    {
        let mut items: Vec<(String, Binding)> = Vec::new();
        let mut i: usize = 0;
        while i < self.len()
            invariant
                i <= self@.len(),
                items@.len() == i,
                forall|k: int|
                    0 <= k < i ==> (#[trigger] items@[k]).0@ == self@[k].0@ && items@[k].1.alike(
                        self@[k].1,
                    ),
            decreases self@.len() - i,
        {
            let item: &(String, Binding) = self.at(i);
            items.push((item.0.clone(), item.1.clone()));
            i = i + 1;
        }
        let r = ByName::from_items(items);
        proof {
            if self.wf() {
                assert forall|p: int, q: int| 0 <= p < q < r@.len() implies crate::text::precedes(
                    (#[trigger] r@[p]).0@,
                    (#[trigger] r@[q]).0@,
                ) by {
                    assert(crate::text::precedes(self@[p].0@, self@[q].0@));
                }
            }
        }
        r
    }
}

impl Clone for Profile {
    fn clone(&self) -> (r: Profile)
        ensures
            r.name@ == self.name@,
            r.package@ == self.package@,
            same_bindings(r.bindings@, self.bindings@),
            self.bindings.wf() ==> r.bindings.wf(),
    {
        Profile {
            name: self.name.clone(),
            package: self.package.clone(),
            bindings: self.bindings.clone(),
        }
    }
}

/// A key mapping profile.
#[derive(Debug)]
pub struct Profile {
    pub name: String,
    /// Android package name, so the profile can be applied automatically.
    pub package: String,
    /// Binding name and behaviour.
    pub bindings: Bindings,
}

/// What is wrong with a profile, or with a request made about one.
#[derive(Debug)]
pub enum Flaw {
    /// There is nothing to map.
    NoBindings,
    /// Two bindings (or one of them twice) claim the same trigger.
    DuplicateTrigger { first: String, second: String },
    /// A joystick reaches too far, or its radius is no length at all.
    Radius { name: String, radius: Num },
    /// Only user profiles can be deleted.
    NotUserProfile { package: String },
    /// Nothing is known about the package.
    NoProfile { package: String },
}

/// What a flaw says, with names as plain text.
pub enum FlawView {
    NoBindings,
    DuplicateTrigger { first: Seq<char>, second: Seq<char> },
    Radius { name: Seq<char>, radius: Num },
    NotUserProfile { package: Seq<char> },
    NoProfile { package: Seq<char> },
}

impl View for Flaw {
    type V = FlawView;

    open spec fn view(&self) -> FlawView {
        match self {
            Flaw::NoBindings => FlawView::NoBindings,
            Flaw::DuplicateTrigger { first, second } => FlawView::DuplicateTrigger {
                first: first@,
                second: second@,
            },
            Flaw::Radius { name, radius } => FlawView::Radius { name: name@, radius: *radius },
            Flaw::NotUserProfile { package } => FlawView::NotUserProfile { package: package@ },
            Flaw::NoProfile { package } => FlawView::NoProfile { package: package@ },
        }
    }
}

/// Why a profile could not be read, accepted or written.
#[derive(Debug)]
pub enum ProfileError {
    Io(String),
    Parse(String),
    Invalid(Flaw),
    Edit(String),
}

/// A trigger together with the position of the binding that claims it.
pub type Claim = (Trigger, int);

/// The triggers of one binding, claimed by position `owner`.
pub open spec fn claims_of(b: Binding, owner: int) -> Seq<Claim> {
    b.triggers_spec().map_values(|t: Trigger| (t, owner))
}

/// Every trigger the first `n` bindings claim, in order.
pub open spec fn claims(s: Seq<(String, Binding)>, n: int) -> Seq<Claim>
    decreases n,
{
    if n <= 0 {
        Seq::empty()
    } else {
        claims(s, n - 1) + claims_of(s[n - 1].1, n - 1)
    }
}

/// The claim at `q` repeats the trigger of the earlier claim at `p`.
pub open spec fn repeats(c: Seq<Claim>, p: int, q: int) -> bool {
    0 <= p < q < c.len() && c[p].0 == c[q].0
}

/// No trigger is claimed twice.
pub open spec fn no_repeats(c: Seq<Claim>) -> bool {
    forall|p: int, q: int| !#[trigger] repeats(c, p, q)
}

/// The flaw of the binding at `i`, when all bindings before it are sound.
pub open spec fn flaw_of(s: Seq<(String, Binding)>, i: int, f: FlawView) -> bool {
    let c = claims(s, i + 1);
    if no_repeats(c) {
        s[i].1.bad_radius() && f == (FlawView::Radius {
            name: s[i].0@,
            radius: match s[i].1 {
                Binding::Joystick { radius, .. } => radius,
                _ => arbitrary(),
            },
        })
    } else {
        exists|p: int, q: int|
            {
                &&& #[trigger] repeats(c, p, q)
                &&& no_repeats(c.take(q))
                &&& f == (FlawView::DuplicateTrigger { first: s[c[p].1].0@, second: s[i].0@ })
            }
    }
}

/// The first `n` bindings are sound.
pub open spec fn sound(s: Seq<(String, Binding)>, n: int) -> bool {
    &&& no_repeats(claims(s, n))
    &&& forall|i: int| 0 <= i < n ==> !(#[trigger] s[i]).1.bad_radius()
}

/// The first flaw found, walking the bindings in name order.
pub open spec fn flawed(s: Seq<(String, Binding)>, f: FlawView) -> bool {
    if s.len() == 0 {
        f == FlawView::NoBindings
    } else {
        exists|i: int| 0 <= i < s.len() && sound(s, i) && #[trigger] flaw_of(s, i, f)
    }
}

/// Fewer bindings claim a prefix of what more bindings claim.
pub proof fn lemma_claims_prefix(s: Seq<(String, Binding)>, n: int, m: int)
    requires
        0 <= n <= m,
    ensures
        claims(s, n).len() <= claims(s, m).len(),
        claims(s, m).take(claims(s, n).len() as int) == claims(s, n),
    decreases m,
{
    if n < m {
        lemma_claims_prefix(s, n, m - 1);
        assert(claims(s, m).take(claims(s, n).len() as int) =~= claims(s, m - 1).take(
            claims(s, n).len() as int,
        ));
    } else {
        assert(claims(s, m).take(claims(s, n).len() as int) =~= claims(s, n));
    }
}

/// Each claim belongs to one of the bindings, which has that trigger.
pub proof fn lemma_claim_owner(s: Seq<(String, Binding)>, n: int, p: int)
    requires
        0 <= n <= s.len(),
        0 <= p < claims(s, n).len(),
    ensures
        0 <= claims(s, n)[p].1 < n,
        s[claims(s, n)[p].1].1.triggers_spec().contains(claims(s, n)[p].0),
    decreases n,
{
    let before = claims(s, n - 1);
    if p < before.len() {
        lemma_claim_owner(s, n - 1, p);
    } else {
        let t = s[n - 1].1.triggers_spec();
        assert(claims(s, n)[p] == claims_of(s[n - 1].1, n - 1)[p - before.len()]);
        assert(t[p - before.len()] == claims(s, n)[p].0);
    }
}

/// Each trigger of each binding is among the claims.
pub proof fn lemma_claim_of(s: Seq<(String, Binding)>, n: int, i: int, j: int) -> (p: int)
    requires
        0 <= i < n <= s.len(),
        0 <= j < s[i].1.triggers_spec().len(),
    ensures
        0 <= p < claims(s, n).len(),
        claims(s, n)[p] == (s[i].1.triggers_spec()[j], i),
        p == claims(s, i).len() + j,
{
    lemma_claims_prefix(s, i + 1, n);
    let p = claims(s, i).len() + j;
    assert(claims(s, i + 1)[p as int] == claims_of(s[i].1, i)[j]);
    assert(claims(s, n).take(claims(s, i + 1).len() as int)[p as int] == claims(s, n)[p as int]);
    p as int
}

impl Profile {
    /// Sound from end to end, and not empty.
    pub open spec fn valid(&self) -> bool {
        self.bindings@.len() > 0 && sound(self.bindings@, self.bindings@.len() as int)
    }

    /// Checks the profile's consistency before loading it.
    ///
    /// There is no limit on the number of bindings: a profile may have twenty
    /// buttons of which only a few are pressed at once.
    ///
    /// Most important: the same trigger cannot be used twice. If it were, which
    /// binding runs would be undefined.
    pub fn validate(&self) -> (r: Result<(), ProfileError>)
        requires
            self.bindings.wf(),
        ensures
            r is Ok <==> self.valid(),
            match r {
                Ok(_) => true,
                Err(ProfileError::Invalid(f)) => flawed(self.bindings@, f@),
                Err(_) => false,
            },
    {
        let n: usize = self.bindings.len();
        if n == 0 {
            return Err(ProfileError::Invalid(Flaw::NoBindings));
        }
        let ghost s = self.bindings@;
        let mut seen: Vec<(Trigger, usize)> = Vec::new();
        let mut i: usize = 0;
        while i < n
            invariant
                s == self.bindings@,
                n == s.len(),
                i <= n,
                sound(s, i as int),
                seen@.len() == claims(s, i as int).len(),
                forall|k: int|
                    0 <= k < seen@.len() ==> (#[trigger] seen@[k]).0 == claims(s, i as int)[k].0
                        && seen@[k].1 == claims(s, i as int)[k].1,
            decreases n - i,
        {
            let item: &(String, Binding) = self.bindings.at(i);
            let ts: Vec<Trigger> = item.1.triggers();
            let ghost c = claims(s, i + 1);
            let ghost base = claims(s, i as int);
            proof {
                lemma_claims_prefix(s, i as int, i + 1);
                assert(c.len() == base.len() + ts@.len());
                assert forall|k: int| 0 <= k < base.len() implies c[k] == #[trigger] base[k] by {
                    assert(c.take(base.len() as int)[k] == c[k]);
                }
                assert forall|k: int| 0 <= k < ts@.len() implies #[trigger] c[base.len() + k] == (
                    ts@[k],
                    i as int,
                ) by {
                    assert(c[base.len() + k] == claims_of(s[i as int].1, i as int)[k]);
                }
                assert(c.take(base.len() as int) =~= base);
            }
            let mut j: usize = 0;
            while j < ts.len()
                invariant
                    i < n,
                    n == s.len(),
                    s == self.bindings@,
                    item == s[i as int],
                    sound(s, i as int),
                    c == claims(s, i + 1),
                    base == claims(s, i as int),
                    ts@ == item.1.triggers_spec(),
                    c.len() == base.len() + ts@.len(),
                    forall|k: int| 0 <= k < ts@.len() ==> #[trigger] c[base.len() + k] == (ts@[k], i as int),
                    j <= ts@.len(),
                    seen@.len() == base.len() + j,
                    forall|k: int|
                        0 <= k < seen@.len() ==> (#[trigger] seen@[k]).0 == c[k].0 && seen@[k].1
                            == c[k].1,
                    no_repeats(c.take(base.len() + j)),
                decreases ts@.len() - j,
            {
                let t: Trigger = ts[j];
                let ghost q = base.len() + j;
                assert(c[q] == (ts@[j as int], i as int));
                let mut k: usize = 0;
                while k < seen.len()
                    invariant
                        k <= seen@.len(),
                        i < n,
                        n == s.len(),
                        s == self.bindings@,
                        item == s[i as int],
                        sound(s, i as int),
                        c == claims(s, i + 1),
                        q == seen@.len(),
                        q < c.len(),
                        c[q as int].0 == t,
                        forall|k: int|
                            0 <= k < seen@.len() ==> (#[trigger] seen@[k]).0 == c[k].0 && seen@[k].1
                                == c[k].1,
                        no_repeats(c.take(q as int)),
                        forall|m: int| 0 <= m < k ==> (#[trigger] seen@[m]).0 != t,
                    decreases seen@.len() - k,
                {
                    if seen[k].0 == t {
                        let first: usize = seen[k].1;
                        proof {
                            assert(repeats(c, k as int, q as int));
                            lemma_claim_owner(s, i + 1, k as int);
                        }
                        let f = Flaw::DuplicateTrigger {
                            first: self.bindings.at(first).0.clone(),
                            second: item.0.clone(),
                        };
                        proof {
                            assert(flaw_of(s, i as int, f@));
                            lemma_claims_prefix(s, i + 1, s.len() as int);
                            let all = claims(s, s.len() as int);
                            assert(all.take(c.len() as int)[k as int] == all[k as int]);
                            assert(all.take(c.len() as int)[q as int] == all[q as int]);
                            assert(repeats(all, k as int, q as int));
                        }
                        return Err(ProfileError::Invalid(f));
                    }
                    k = k + 1;
                }
                proof {
                    let more = c.take(q + 1);
                    assert forall|p: int, r: int| !(#[trigger] repeats(more, p, r)) by {
                        if repeats(more, p, r) {
                            if r < q {
                                assert(repeats(c.take(q as int), p, r));
                            } else {
                                assert(seen@[p].0 == c[p].0);
                            }
                        }
                    }
                }
                seen.push((t, i));
                j = j + 1;
            }
            assert(c.take(c.len() as int) =~= c);
            if let Binding::Joystick { radius, .. } = &item.1 {
                if !(Num::of(ZERO_BITS).at_most(*radius) && radius.at_most(Num::of(HALF_BITS))) {
                    let f = Flaw::Radius { name: item.0.clone(), radius: *radius };
                    assert(flaw_of(s, i as int, f@));
                    return Err(ProfileError::Invalid(f));
                }
            }
            i = i + 1;
        }
        Ok(())
    }
}

/// In a valid profile a trigger belongs to one binding only, so which binding
/// an input runs is never in doubt.
pub proof fn law_a_trigger_has_one_owner(p: Profile, t: Trigger, i: int, j: int)
    requires
        p.valid(),
        0 <= i < p.bindings@.len(),
        0 <= j < p.bindings@.len(),
        p.bindings@[i].1.triggers_spec().contains(t),
        p.bindings@[j].1.triggers_spec().contains(t),
    ensures
        i == j,
{
    let s = p.bindings@;
    let n = s.len() as int;
    let a = choose|a: int| 0 <= a < s[i].1.triggers_spec().len() && s[i].1.triggers_spec()[a] == t;
    let b = choose|b: int| 0 <= b < s[j].1.triggers_spec().len() && s[j].1.triggers_spec()[b] == t;
    let x = lemma_claim_of(s, n, i, a);
    let y = lemma_claim_of(s, n, j, b);
    if x < y {
        assert(repeats(claims(s, n), x, y));
    } else if y < x {
        assert(repeats(claims(s, n), y, x));
    }
}

/// What the user is told of a flaw. `radius` is the decimal text of the radius.
pub open spec fn flaw_text(f: FlawView, radius: Seq<char>) -> Seq<char> {
    match f {
        FlawView::NoBindings => "profile has no bindings"@,
        FlawView::DuplicateTrigger { first, second } => "duplicate trigger in two bindings: '"@
            + first + "' and '"@ + second + "'"@,
        FlawView::Radius { name, .. } => "joystick radius of '"@ + name
            + "' must be within 0..0.5, got "@ + radius,
        FlawView::NotUserProfile { package } => "'"@ + package
            + "' is not a user profile; only user profiles can be deleted"@,
        FlawView::NoProfile { package } => "no profile for '"@ + package + "'"@,
    }
}

impl Flaw {
    /// What the user is told. `radius` is the decimal text of the radius; only a
    /// radius flaw uses it.
    pub fn message(&self, radius: &str) -> (r: String)
        ensures
            r@ == flaw_text(self@, radius@),
    {
        let mut s: String = String::new();
        match self {
            Flaw::NoBindings => {
                s.append("profile has no bindings");
            },
            Flaw::DuplicateTrigger { first, second } => {
                s.append("duplicate trigger in two bindings: '");
                s.append(first.as_str());
                s.append("' and '");
                s.append(second.as_str());
                s.append("'");
            },
            Flaw::Radius { name, .. } => {
                s.append("joystick radius of '");
                s.append(name.as_str());
                s.append("' must be within 0..0.5, got ");
                s.append(radius);
            },
            Flaw::NotUserProfile { package } => {
                s.append("'");
                s.append(package.as_str());
                s.append("' is not a user profile; only user profiles can be deleted");
            },
            Flaw::NoProfile { package } => {
                s.append("no profile for '");
                s.append(package.as_str());
                s.append("'");
            },
        }
        proof {
            crate::text::lemma_after_nothing();
        }
        s
    }
}

impl ProfileError {
    pub open spec fn text(self, radius: Seq<char>) -> Seq<char> {
        match self {
            ProfileError::Io(m) => "could not read profile: "@ + m@,
            ProfileError::Parse(m) => "could not parse profile: "@ + m@,
            ProfileError::Invalid(f) => "invalid profile: "@ + flaw_text(f@, radius),
            ProfileError::Edit(m) => m@,
        }
    }

    /// What the user is told. `radius` is the decimal text of the radius; only a
    /// radius flaw uses it.
    pub fn message(&self, radius: &str) -> (r: String)
        ensures
            r@ == self.text(radius@),
    {
        match self {
            ProfileError::Io(m) => crate::say::cat2("could not read profile: ", m.as_str()),
            ProfileError::Parse(m) => crate::say::cat2("could not parse profile: ", m.as_str()),
            ProfileError::Invalid(f) => {
                let m: String = f.message(radius);
                crate::say::cat2("invalid profile: ", m.as_str())
            },
            ProfileError::Edit(m) => m.clone(),
        }
    }
}

/// A binding listens to a trigger.
pub open spec fn listens(b: Binding, t: Trigger) -> bool {
    match b {
        Binding::Tap { trigger, .. } => trigger == t,
        Binding::Toggle { trigger, .. } => trigger == t,
        Binding::Swipe { trigger, .. } => trigger == t,
        Binding::Joystick { up, down, left, right, .. } => up == t || down == t || left == t
            || right == t,
        Binding::Aim { toggle, .. } => toggle == Some(t),
    }
}

/// The triggers of a binding are those it listens to.
proof fn lemma_listens(b: Binding, t: Trigger)
    ensures
        b.triggers_spec().contains(t) <==> listens(b, t),
{
    let s = b.triggers_spec();
    match b {
        Binding::Joystick { up, down, left, right, .. } => {
            assert(s[0] == up && s[1] == down && s[2] == left && s[3] == right);
        },
        Binding::Aim { toggle, .. } => {
            if toggle is Some {
                assert(s[0] == toggle->0);
            }
        },
        _ => {
            assert(listens(b, s[0]));
        },
    }
}

/// The four directions of a joystick have four triggers, and its radius lies
/// between nothing and half the screen.
pub open spec fn fit_joystick(b: Binding) -> bool {
    match b {
        Binding::Joystick { up, down, left, right, radius, .. } => {
            &&& up != down && up != left && up != right
            &&& down != left && down != right && left != right
            &&& (Num { bits: 0 }).le(radius) && radius.le(Num { bits: 0x3f00_0000 })
        },
        _ => true,
    }
}

/// A profile is valid exactly if it has bindings, no two of them listen to one
/// trigger, and every joystick is fit: four triggers for four directions, and a
/// radius between nothing and half the screen.
pub proof fn law_what_makes_a_profile_valid(p: Profile)
    ensures
        p.valid() <==> {
            let s = p.bindings@;
            &&& s.len() > 0
            &&& forall|i: int, j: int, t: Trigger|
                0 <= i < j < s.len() ==> !(#[trigger] listens(s[i].1, t) && #[trigger] listens(
                    s[j].1,
                    t,
                ))
            &&& forall|i: int| 0 <= i < s.len() ==> fit_joystick((#[trigger] s[i]).1)
        },
{
    let s = p.bindings@;
    let n = s.len() as int;
    let c = claims(s, n);
    if p.valid() {
        assert forall|i: int, j: int, t: Trigger| 0 <= i < j < s.len() implies !(#[trigger] listens(
            s[i].1,
            t,
        ) && #[trigger] listens(s[j].1, t)) by {
            lemma_listens(s[i].1, t);
            lemma_listens(s[j].1, t);
            if listens(s[i].1, t) && listens(s[j].1, t) {
                law_a_trigger_has_one_owner(p, t, i, j);
            }
        }
        assert forall|i: int| 0 <= i < s.len() implies fit_joystick((#[trigger] s[i]).1) by {
            assert(!s[i].1.bad_radius());
            let ts = s[i].1.triggers_spec();
            if s[i].1 is Joystick {
                assert(ts.len() == 4);
                assert forall|a: int, b: int| 0 <= a < b < 4 implies #[trigger] ts[a] != #[trigger] ts[b] by {
                    let x = lemma_claim_of(s, n, i, a);
                    let y = lemma_claim_of(s, n, i, b);
                    lemma_claims_apart(s, n, i, a, b);
                    if ts[a] == ts[b] {
                        if x < y {
                            assert(repeats(c, x, y));
                        } else if y < x {
                            assert(repeats(c, y, x));
                        } else {
                            lemma_same_claim(s, n, i, a, b);
                        }
                    }
                }
                assert(ts[0] != ts[1] && ts[0] != ts[2] && ts[0] != ts[3]);
                assert(ts[1] != ts[2] && ts[1] != ts[3] && ts[2] != ts[3]);
            }
        }
    } else if s.len() > 0 && (forall|i: int, j: int, t: Trigger|
        0 <= i < j < s.len() ==> !(#[trigger] listens(s[i].1, t) && #[trigger] listens(s[j].1, t)))
        && (forall|i: int| 0 <= i < s.len() ==> fit_joystick((#[trigger] s[i]).1)) {
        assert forall|x: int, y: int| !(#[trigger] repeats(c, x, y)) by {
            if repeats(c, x, y) {
                lemma_claim_place(s, n, x);
                lemma_claim_place(s, n, y);
                let (i, a) = choose|i: int, a: int| #[trigger] claim_stands(s, n, x, i, a);
                let (j, b) = choose|j: int, b: int| #[trigger] claim_stands(s, n, y, j, b);
                let t = c[x].0;
                assert(s[i].1.triggers_spec().contains(t));
                assert(s[j].1.triggers_spec().contains(t));
                lemma_listens(s[i].1, t);
                lemma_listens(s[j].1, t);
                if i == j {
                    assert(fit_joystick(s[i].1));
                    assert(a < b);
                } else if i < j {
                    assert(!(listens(s[i].1, t) && listens(s[j].1, t)));
                } else {
                    assert(!(listens(s[j].1, t) && listens(s[i].1, t)));
                }
            }
        }
        assert forall|i: int| 0 <= i < n implies !(#[trigger] s[i]).1.bad_radius() by {
            assert(fit_joystick(s[i].1));
        }
    }
}

/// The claim at `x` is the `a`th trigger of the binding at `i`.
spec fn claim_stands(s: Seq<(String, Binding)>, n: int, x: int, i: int, a: int) -> bool {
    &&& 0 <= i < n
    &&& 0 <= a < s[i].1.triggers_spec().len()
    &&& x == claims(s, i).len() + a
    &&& claims(s, n)[x] == (s[i].1.triggers_spec()[a], i)
}

proof fn lemma_claim_place(s: Seq<(String, Binding)>, n: int, x: int)
    requires
        0 <= n <= s.len(),
        0 <= x < claims(s, n).len(),
    ensures
        exists|i: int, a: int| #[trigger] claim_stands(s, n, x, i, a),
    decreases n,
{
    let before = claims(s, n - 1);
    if x < before.len() {
        lemma_claim_place(s, n - 1, x);
        let (i, a) = choose|i: int, a: int| #[trigger] claim_stands(s, n - 1, x, i, a);
        assert(claim_stands(s, n, x, i, a));
    } else {
        assert(claim_stands(s, n, x, n - 1, x - before.len()));
    }
}

/// Two triggers of one binding are two claims.
proof fn lemma_claims_apart(s: Seq<(String, Binding)>, n: int, i: int, a: int, b: int)
    requires
        0 <= i < n <= s.len(),
        0 <= a < b < s[i].1.triggers_spec().len(),
    ensures
        ({
            let k = claims(s, i).len();
            &&& k + b < claims(s, n).len()
            &&& claims(s, n)[k + a].0 == s[i].1.triggers_spec()[a]
            &&& claims(s, n)[k + b].0 == s[i].1.triggers_spec()[b]
        }),
    decreases n,
{
    if i < n - 1 {
        lemma_claims_apart(s, n - 1, i, a, b);
    }
}

proof fn lemma_same_claim(s: Seq<(String, Binding)>, n: int, i: int, a: int, b: int)
    requires
        0 <= i < n <= s.len(),
        0 <= a < b < s[i].1.triggers_spec().len(),
        no_repeats(claims(s, n)),
    ensures
        s[i].1.triggers_spec()[a] != s[i].1.triggers_spec()[b],
{
    lemma_claims_apart(s, n, i, a, b);
    let k = claims(s, i).len();
    if s[i].1.triggers_spec()[a] == s[i].1.triggers_spec()[b] {
        assert(repeats(claims(s, n), k + a, k + b));
    }
}

/// A flaw that is told is there: two bindings named for a shared trigger do share
/// one, and a radius told is that of the joystick named and is too large or none.
pub proof fn law_a_flaw_told_is_there(s: Seq<(String, Binding)>, f: FlawView)
    requires
        flawed(s, f),
    ensures
        match f {
            FlawView::NoBindings => s.len() == 0,
            FlawView::DuplicateTrigger { first, second } => exists|i: int, j: int, t: Trigger|
                0 <= i <= j < s.len() && s[i].0@ == first && s[j].0@ == second && #[trigger] listens(
                    s[i].1,
                    t,
                ) && #[trigger] listens(s[j].1, t),
            FlawView::Radius { name, radius } => exists|i: int|
                0 <= i < s.len() && (#[trigger] s[i]).0@ == name && s[i].1 is Joystick && s[i].1->radius
                    == radius && !((Num { bits: 0 }).le(radius) && radius.le(
                    Num { bits: 0x3f00_0000 },
                )),
            _ => false,
        },
{
    if s.len() > 0 {
        let i = choose|i: int| 0 <= i < s.len() && sound(s, i) && #[trigger] flaw_of(s, i, f);
        let c = claims(s, i + 1);
        if no_repeats(c) {
            assert(s[i].0@ == f->name);
        } else {
            let (p, q) = choose|p: int, q: int|
                {
                    &&& #[trigger] repeats(c, p, q)
                    &&& no_repeats(c.take(q))
                    &&& f == (FlawView::DuplicateTrigger { first: s[c[p].1].0@, second: s[i].0@ })
                };
            lemma_claim_place(s, i + 1, p);
            lemma_claim_place(s, i + 1, q);
            let (x, a) = choose|x: int, a: int| #[trigger] claim_stands(s, i + 1, p, x, a);
            let (y, b) = choose|y: int, b: int| #[trigger] claim_stands(s, i + 1, q, y, b);
            let t = c[p].0;
            assert(s[x].1.triggers_spec().contains(t));
            assert(s[y].1.triggers_spec().contains(t));
            lemma_listens(s[x].1, t);
            lemma_listens(s[y].1, t);
            if y < i {
                assert(no_repeats(claims(s, i)));
                lemma_claims_prefix(s, i, i + 1);
                assert(claims(s, y + 1).len() > q);
                lemma_claims_prefix(s, y + 1, i);
                let before = claims(s, i);
                assert(c.take(before.len() as int)[p] == before[p]);
                assert(c.take(before.len() as int)[q] == before[q]);
                assert(repeats(before, p, q));
            }
            assert(y == i);
            assert(listens(s[x].1, t) && listens(s[i].1, t));
        }
    }
}

/// What the user is told of a flaw names what has it.
pub proof fn law_a_flaw_names_the_culprit(f: FlawView, radius: Seq<char>)
    ensures
        ({
            let told = flaw_text(f, radius);
            match f {
                FlawView::NoBindings => true,
                FlawView::DuplicateTrigger { first, second } => crate::text::occurs(told, first)
                    && crate::text::occurs(told, second),
                FlawView::Radius { name, .. } => crate::text::occurs(told, name)
                    && crate::text::occurs(told, radius),
                FlawView::NotUserProfile { package } => crate::text::occurs(told, package),
                FlawView::NoProfile { package } => crate::text::occurs(told, package),
            }
        }),
{
    match f {
        FlawView::NoBindings => {},
        FlawView::DuplicateTrigger { first, second } => {
            let a = "duplicate trigger in two bindings: '"@;
            crate::text::lemma_occurs_between(a, first, "' and '"@ + second + "'"@);
            assert(a + first + ("' and '"@ + second + "'"@) =~= flaw_text(f, radius));
            crate::text::lemma_occurs_between(a + first + "' and '"@, second, "'"@);
        },
        FlawView::Radius { name, .. } => {
            let a = "joystick radius of '"@;
            let b = "' must be within 0..0.5, got "@;
            crate::text::lemma_occurs_between(a, name, b + radius);
            assert(a + name + (b + radius) =~= flaw_text(f, radius));
            crate::text::lemma_occurs_behind(a + name + b, radius);
        },
        FlawView::NotUserProfile { package } => {
            crate::text::lemma_occurs_between(
                "'"@,
                package,
                "' is not a user profile; only user profiles can be deleted"@,
            );
        },
        FlawView::NoProfile { package } => {
            crate::text::lemma_occurs_between("no profile for '"@, package, "'"@);
        },
    }
}

} // verus!
