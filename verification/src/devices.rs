//! Keyboards and mice: listing them, telling them apart, picking one.
//!
//! A list and a measurement rather than auto-detection. A gaming keyboard
//! presents several interfaces that all claim letter keys and only one of them
//! sends anything; the score is a hint, not an answer.

use crate::engine::{InputEvent, TriggerKind};
use vstd::prelude::*;
use vstd::string::*;

verus! {

/// The score of a full typing keyboard.
pub const FULL_SCORE: u32 = 22;

/// What a device can do.
#[derive(Clone, Copy, Debug, PartialEq, Eq, Structural)]
pub enum DeviceKind {
    Keyboard,
    Pointer,
    /// Keys and a pointer on one node.
    Combo,
    Other,
}

impl DeviceKind {
    pub open spec fn text(self) -> Seq<char> {
        match self {
            DeviceKind::Keyboard => "Keyboard"@,
            DeviceKind::Pointer => "Pointer"@,
            DeviceKind::Combo => "Combo"@,
            DeviceKind::Other => "Other"@,
        }
    }

    pub fn name(self) -> (r: &'static str)
        ensures
            r@ == self.text(),
    {
        match self {
            DeviceKind::Keyboard => "Keyboard",
            DeviceKind::Pointer => "Pointer",
            DeviceKind::Combo => "Combo",
            DeviceKind::Other => "Other",
        }
    }

    /// Whether the device moves a pointer.
    pub open spec fn points(self) -> bool {
        self == DeviceKind::Pointer || self == DeviceKind::Combo
    }

    /// Whether the device types.
    pub open spec fn types(self) -> bool {
        self == DeviceKind::Keyboard || self == DeviceKind::Combo
    }
}

/// One input device.
#[derive(Debug)]
pub struct InputDevice {
    pub path: String,
    pub name: String,
    /// The short name of its node.
    pub node: String,
    /// The path to write into the configuration: a stable one where there is
    /// one. Node numbers change across reboots.
    pub config_path: String,
    pub kind: DeviceKind,
    /// How likely it is a real typing keyboard, out of 22.
    pub typing_score: u32,
    /// How likely it is a real mouse, out of 15.
    pub pointer_score: u32,
    pub is_virtual: bool,
    /// It is the configured keyboard, symbolic links resolved.
    pub is_keyboard: bool,
    /// It is the configured mouse, symbolic links resolved.
    pub is_mouse: bool,
}

// ---------------------------------------------------------------- picking

/// A real device that the panel for keyboards, or for mice, lists.
pub open spec fn usable(d: InputDevice, want_keyboard: bool) -> bool {
    !d.is_virtual && (if want_keyboard {
        d.kind.types()
    } else {
        d.kind.points()
    })
}

/// A real device that calibration listens to.
pub open spec fn candidate(d: InputDevice, mouse_mode: bool) -> bool {
    !d.is_virtual && (if mouse_mode {
        d.kind.points()
    } else {
        d.kind != DeviceKind::Pointer
    })
}

/// The indices among the first `n` devices that calibration listens to.
pub open spec fn candidates_of(d: Seq<InputDevice>, mouse_mode: bool, n: int) -> Seq<int>
    decreases n,
{
    if n <= 0 {
        Seq::empty()
    } else if candidate(d[n - 1], mouse_mode) {
        candidates_of(d, mouse_mode, n - 1).push(n - 1)
    } else {
        candidates_of(d, mouse_mode, n - 1)
    }
}

fn is_pointing(k: DeviceKind) -> (r: bool)
    ensures
        r == k.points(),
{
    match k {
        DeviceKind::Pointer => true,
        DeviceKind::Combo => true,
        _ => false,
    }
}

fn is_typing(k: DeviceKind) -> (r: bool)
    ensures
        r == k.types(),
{
    match k {
        DeviceKind::Keyboard => true,
        DeviceKind::Combo => true,
        _ => false,
    }
}

/// The devices that calibration listens to: in mouse mode whatever points, else
/// whatever is not a plain pointer. Watching for keys listens to the latter.
pub fn candidates(devs: &Vec<InputDevice>, mouse_mode: bool) -> (r: Vec<usize>)
    ensures
        crate::order::places(r@) == candidates_of(devs@, mouse_mode, devs@.len() as int),
        forall|k: int| 0 <= k < r@.len() ==> #[trigger] r@[k] < devs@.len(),
{
    let mut out: Vec<usize> = Vec::new();
    let mut i: usize = 0;
    assert(crate::order::places(out@) =~= Seq::<int>::empty());
    while i < devs.len()
        invariant
            i <= devs@.len(),
            crate::order::places(out@) == candidates_of(devs@, mouse_mode, i as int),
            forall|k: int| 0 <= k < out@.len() ==> #[trigger] out@[k] < devs@.len(),
        decreases devs@.len() - i,
    {
        let d: &InputDevice = &devs[i];
        let fits: bool = if mouse_mode {
            is_pointing(d.kind)
        } else {
            match d.kind {
                DeviceKind::Pointer => false,
                _ => true,
            }
        };
        if !d.is_virtual && fits {
            let ghost before = crate::order::places(out@);
            out.push(i);
            assert(crate::order::places(out@) =~= before.push(i as int));
        }
        i = i + 1;
    }
    out
}

/// What calibration prints before it listens.
pub open spec fn invitation_lines(n: int, mouse_mode: bool, hotkey_mode: bool) -> Seq<Seq<char>> {
    let count = crate::text::decimal(n as nat);
    if n == 0 {
        seq!["No candidate keyboard. Are you in the 'input' group?  ->  groups"@]
    } else if mouse_mode {
        seq!["Listening to "@ + count + " candidates. MOVE YOUR MOUSE NOW..."@]
    } else if hotkey_mode {
        seq![
            "listening on "@ + count + " candidates."@,
            "PRESS THE KEY YOU WANT AS THE GAME-MODE HOTKEY NOW..."@,
            "(pick a key you do not use in the game)"@,
        ]
    } else {
        seq!["Listening to "@ + count + " candidates. PRESS A KEY NOW..."@]
    }
}

/// What calibration prints before it listens to `n` devices.
pub fn invitation(n: usize, mouse_mode: bool, hotkey_mode: bool) -> (r: Vec<String>)
    ensures
        crate::text::texts(r@) == invitation_lines(n as int, mouse_mode, hotkey_mode),
{
    let mut out: Vec<String> = crate::say::page();
    let count: String = crate::say::count(n as u64);
    if n == 0 {
        crate::say::say(
            &mut out,
            "No candidate keyboard. Are you in the 'input' group?  ->  groups",
        );
    } else if mouse_mode {
        crate::say::put(
            &mut out,
            crate::say::cat3("Listening to ", count.as_str(), " candidates. MOVE YOUR MOUSE NOW..."),
        );
    } else if hotkey_mode {
        crate::say::put(&mut out, crate::say::cat3("listening on ", count.as_str(), " candidates."));
        crate::say::say(&mut out, "PRESS THE KEY YOU WANT AS THE GAME-MODE HOTKEY NOW...");
        crate::say::say(&mut out, "(pick a key you do not use in the game)");
    } else {
        crate::say::put(
            &mut out,
            crate::say::cat3("Listening to ", count.as_str(), " candidates. PRESS A KEY NOW..."),
        );
    }
    assert(crate::text::texts(out@) =~= invitation_lines(n as int, mouse_mode, hotkey_mode));
    out
}

/// What an event tells calibration: the code of the key, or zero for motion. In
/// mouse mode only motion counts: a key press does not identify a mouse, most
/// have keys too. `far` says whether the motion is more than jitter.
pub open spec fn answer(ev: InputEvent, far: bool, mouse_mode: bool) -> Option<u16> {
    match ev {
        InputEvent::MouseMove { .. } => if mouse_mode && far {
            Some(0)
        } else {
            None
        },
        InputEvent::Press(TriggerKind::Key(k)) => if !mouse_mode {
            Some(k)
        } else {
            None
        },
        _ => None,
    }
}

/// What an event tells calibration.
pub fn identifies(ev: InputEvent, far: bool, mouse_mode: bool) -> (r: Option<u16>)
    ensures
        r == answer(ev, far, mouse_mode),
{
    match ev {
        InputEvent::MouseMove { .. } => if mouse_mode && far {
            Some(0)
        } else {
            None
        },
        InputEvent::Press(TriggerKind::Key(k)) => if !mouse_mode {
            Some(k)
        } else {
            None
        },
        _ => None,
    }
}

/// How long calibration waits for a device, in seconds.
pub const DETECT_SECONDS: u64 = 20;

/// How the wait for a device ended without one.
#[derive(Clone, Copy, Debug, PartialEq, Eq, Structural)]
pub enum Unheard {
    TimedOut,
    Cancelled,
    /// Every device stopped talking.
    Closed,
}

/// What is said when no device was heard.
pub open spec fn unheard_line(how: Unheard) -> Option<Seq<char>> {
    match how {
        Unheard::TimedOut => Some("Timed out — no key detected."@),
        Unheard::Cancelled => Some("cancelled"@),
        Unheard::Closed => None,
    }
}

/// What is said when no device was heard.
pub fn unheard(how: Unheard) -> (r: Option<&'static str>)
    ensures
        match r {
            Some(l) => unheard_line(how) == Some(l@),
            None => unheard_line(how) is None,
        },
{
    match how {
        Unheard::TimedOut => Some("Timed out — no key detected."),
        Unheard::Cancelled => Some("cancelled"),
        Unheard::Closed => None,
    }
}

/// Whether a device is the configured one. `device` and `configured` are the two
/// paths with symbolic links resolved, where that could be done: the configuration
/// holds a stable link, and compared as text it would never match a node.
pub fn is_configured(device: Option<&str>, configured: Option<&str>) -> (r: bool)
    ensures
        r == (device is Some && crate::text::maybe(device) == crate::text::maybe(configured)),
{
    match (device, configured) {
        (Some(d), Some(c)) => crate::text::same(d, c),
        _ => false,
    }
}

/// The devices and the hotkey that the configuration names.
#[derive(Debug)]
pub struct Choice {
    pub keyboard: Option<String>,
    pub mouse: Option<String>,
    pub hotkey: Option<u16>,
}

/// The choice as plain text.
#[verifier::ext_equal]
pub struct ChoiceView {
    pub keyboard: Option<Seq<char>>,
    pub mouse: Option<Seq<char>>,
    pub hotkey: Option<u16>,
}

impl View for Choice {
    type V = ChoiceView;

    open spec fn view(&self) -> ChoiceView {
        ChoiceView {
            keyboard: crate::text::some_text(self.keyboard),
            mouse: crate::text::some_text(self.mouse),
            hotkey: self.hotkey,
        }
    }
}

impl ChoiceView {
    /// What calibration changes: the one thing it was asked for.
    pub open spec fn calibrated(
        self,
        path: Seq<char>,
        code: u16,
        mouse_mode: bool,
        hotkey_mode: bool,
    ) -> ChoiceView {
        if mouse_mode {
            ChoiceView { mouse: Some(path), ..self }
        } else if hotkey_mode {
            ChoiceView { hotkey: Some(code), ..self }
        } else {
            ChoiceView { keyboard: Some(path), ..self }
        }
    }
}

impl Choice {
    /// Takes over what calibration found.
    pub fn calibrate(&mut self, path: &str, code: u16, mouse_mode: bool, hotkey_mode: bool)
        ensures
            final(self)@ == old(self)@.calibrated(path@, code, mouse_mode, hotkey_mode),
    {
        if mouse_mode {
            self.mouse = Some(path.to_owned());
        } else if hotkey_mode {
            self.hotkey = Some(code);
        } else {
            self.keyboard = Some(path.to_owned());
        }
    }
}

/// What calibration prints about what it found.
pub open spec fn outcome_lines(
    path: Seq<char>,
    name: Seq<char>,
    code: u16,
    mouse_mode: bool,
    hotkey_mode: bool,
) -> Seq<Seq<char>> {
    if mouse_mode {
        seq!["Fare   : "@ + path + "  ("@ + name + ")"@]
    } else if hotkey_mode {
        seq![
            "Hotkey code: "@ + crate::text::decimal(code as nat) + "   (device: "@ + path + ")"@,
        ]
    } else {
        seq![
            "Klavye : "@ + path + "  ("@ + name + ")"@,
            "First key code: "@ + crate::text::decimal(code as nat),
        ]
    }
}

/// What calibration prints about what it found.
pub fn outcome(path: &str, name: &str, code: u16, mouse_mode: bool, hotkey_mode: bool) -> (r: Vec<
    String,
>)
    ensures
        crate::text::texts(r@) == outcome_lines(path@, name@, code, mouse_mode, hotkey_mode),
{
    let mut out: Vec<String> = crate::say::page();
    let number: String = crate::say::count(code as u64);
    if mouse_mode {
        crate::say::put(&mut out, crate::say::cat5("Fare   : ", path, "  (", name, ")"));
    } else if hotkey_mode {
        crate::say::put(
            &mut out,
            crate::say::cat5("Hotkey code: ", number.as_str(), "   (device: ", path, ")"),
        );
    } else {
        crate::say::put(&mut out, crate::say::cat5("Klavye : ", path, "  (", name, ")"));
        crate::say::put(&mut out, crate::say::cat2("First key code: ", number.as_str()));
    }
    assert(crate::text::texts(out@) =~= outcome_lines(path@, name@, code, mouse_mode, hotkey_mode));
    out
}

/// The path that calibration writes down: the stable one where there is one. The
/// numbers of event nodes change across reboots, and a configured keyboard then
/// becomes whatever took its number.
pub open spec fn lasting(path: Seq<char>, stable: Option<Seq<char>>) -> Seq<char> {
    match stable {
        Some(p) => p,
        None => path,
    }
}

/// What is said of the path that is written down.
pub open spec fn lasting_line(stable: Option<Seq<char>>) -> Seq<char> {
    match stable {
        Some(p) => "Stable path: "@ + p,
        None => "WARNING: no stable link under /dev/input/by-id for this device; eventN may change across reboots."@,
    }
}

/// The path that calibration writes down, and what is said of it.
pub fn lasting_path(path: &str, stable: Option<&str>) -> (r: (String, String))
    ensures
        r.0@ == lasting(path@, crate::text::maybe(stable)),
        r.1@ == lasting_line(crate::text::maybe(stable)),
{
    match stable {
        Some(p) => (p.to_owned(), crate::say::cat2("Stable path: ", p)),
        None => (
            path.to_owned(),
            "WARNING: no stable link under /dev/input/by-id for this device; eventN may change across reboots.".to_owned(),
        ),
    }
}

/// What calibration ends with, given the file it was saved to.
pub open spec fn closing_lines(saved: Option<Seq<char>>) -> Seq<Seq<char>> {
    match saved {
        Some(p) => seq!["Kaydedildi: "@ + p, "The keymapper will now use this device."@],
        None => seq!["(to save: liw keymap detect --save)"@],
    }
}

/// What calibration ends with, given the file it was saved to.
pub fn closing(saved: Option<&str>) -> (r: Vec<String>)
    ensures
        crate::text::texts(r@) == closing_lines(crate::text::maybe(saved)),
{
    let mut out: Vec<String> = crate::say::page();
    match saved {
        Some(p) => {
            crate::say::put(&mut out, crate::say::cat2("Kaydedildi: ", p));
            crate::say::say(&mut out, "The keymapper will now use this device.");
        },
        None => {
            crate::say::say(&mut out, "(to save: liw keymap detect --save)");
        },
    }
    assert(crate::text::texts(out@) =~= closing_lines(crate::text::maybe(saved)));
    out
}

// ---------------------------------------------------------------- listing

/// The first device among those from `i` on that has the path.
pub open spec fn device_at(d: Seq<InputDevice>, path: Seq<char>, i: int) -> int
    decreases d.len() - i,
{
    if i >= d.len() || d[i].path@ == path {
        i
    } else {
        device_at(d, path, i + 1)
    }
}

/// The name of the device with the path, or nothing.
pub open spec fn name_at(d: Seq<InputDevice>, path: Seq<char>) -> Seq<char> {
    let i = device_at(d, path, 0);
    if i < d.len() {
        d[i].name@
    } else {
        Seq::empty()
    }
}

/// The name of the device with the path, or nothing.
pub fn name_of(devs: &Vec<InputDevice>, path: &str) -> (r: String)
    ensures
        r@ == name_at(devs@, path@),
{
    let mut i: usize = 0;
    while i < devs.len()
        invariant
            i <= devs@.len(),
            device_at(devs@, path@, 0) == device_at(devs@, path@, i as int),
        decreases devs@.len() - i,
    {
        if crate::text::same(devs[i].path.as_str(), path) {
            return devs[i].name.clone();
        }
        i = i + 1;
    }
    let r: String = String::new();
    assert(r@ =~= Seq::<char>::empty());
    r
}

/// What a device is marked as.
pub open spec fn mark(d: InputDevice) -> Seq<char> {
    if d.is_keyboard {
        "  <- CONFIGURED keyboard"@
    } else if d.is_mouse {
        "  <- CONFIGURED mouse"@
    } else {
        ""@
    }
}

/// One line of the table.
pub open spec fn table_line(
    a: Seq<char>,
    b: Seq<char>,
    c: Seq<char>,
    d: Seq<char>,
    rest: Seq<char>,
) -> Seq<char> {
    crate::say::padded(a, 20) + " "@ + crate::say::padded(b, 9) + " "@ + (crate::say::padded(c, 5)
        + " "@ + crate::say::padded(d, 7) + " "@ + rest)
}

fn table_row(a: &str, b: &str, c: &str, d: &str, rest: &str) -> (r: String)
    ensures
        r@ == table_line(a@, b@, c@, d@, rest@),
{
    let a: String = crate::say::pad(a, 20);
    let b: String = crate::say::pad(b, 9);
    let c: String = crate::say::pad(c, 5);
    let d: String = crate::say::pad(d, 7);
    let tail: String = crate::say::cat5(c.as_str(), " ", d.as_str(), " ", rest);
    crate::say::cat5(a.as_str(), " ", b.as_str(), " ", tail.as_str())
}

pub open spec fn device_line(d: InputDevice) -> Seq<char> {
    table_line(
        d.path@,
        d.kind.text(),
        crate::text::decimal(d.typing_score as nat),
        if d.is_virtual {
            "yes"@
        } else {
            "no"@
        },
        d.name@ + mark(d),
    )
}

/// A real device with a full score.
pub open spec fn top(d: InputDevice) -> bool {
    !d.is_virtual && d.typing_score >= FULL_SCORE
}

/// How many of the first `n` devices have a full score.
pub open spec fn tops(d: Seq<InputDevice>, n: int) -> nat
    decreases n,
{
    if n <= 0 {
        0
    } else {
        tops(d, n - 1) + (if top(d[n - 1]) {
            1nat
        } else {
            0
        })
    }
}

/// The list of devices for a terminal.
pub open spec fn list_lines(d: Seq<InputDevice>, keyboard_set: bool) -> Seq<Seq<char>> {
    if d.len() == 0 {
        seq![
            "No input device found."@,
            "Is the user in the 'input' group?  ->  groups | grep input"@,
        ]
    } else {
        let n = tops(d, d.len() as int);
        let head = seq![table_line("PATH"@, "KIND"@, "SCORE"@, "VIRTUAL"@, "NAME"@)];
        let score = seq![
            ""@,
            "SCORE = likelihood of being a real typing keyboard (out of 22)."@,
        ];
        let unset: Seq<Seq<char>> = if keyboard_set {
            Seq::empty()
        } else {
            seq!["WARNING: no keyboard configured — auto-selection will be used."@]
        };
        let tied: Seq<Seq<char>> = if n > 1 {
            seq![
                ""@,
                crate::text::decimal(n)
                    + " devices tied on score — the score does not say which one"@,
                "ACTUALLY sends keys. To measure:  liw keymap detect --save"@,
            ]
        } else {
            Seq::empty()
        };
        head + d.map_values(|x: InputDevice| device_line(x)) + score + unset + tied
    }
}

/// The list of devices for a terminal. What is marked is the device actually in
/// use, not a guess.
pub fn list_devices(devs: &Vec<InputDevice>, keyboard_set: bool) -> (r: Vec<String>)
    ensures
        crate::text::texts(r@) == list_lines(devs@, keyboard_set),
{
    let mut out: Vec<String> = crate::say::page();
    if devs.len() == 0 {
        crate::say::say(&mut out, "No input device found.");
        crate::say::say(&mut out, "Is the user in the 'input' group?  ->  groups | grep input");
        assert(crate::text::texts(out@) =~= list_lines(devs@, keyboard_set));
        return out;
    }
    crate::say::put(&mut out, table_row("PATH", "KIND", "SCORE", "VIRTUAL", "NAME"));
    let ghost head = crate::text::texts(out@);
    let ghost all = devs@.map_values(|x: InputDevice| device_line(x));
    let mut n: usize = 0;
    let mut i: usize = 0;
    assert(head + all.take(0) =~= head);
    while i < devs.len()
        invariant
            i <= devs@.len(),
            n <= i,
            n == tops(devs@, i as int),
            all == devs@.map_values(|x: InputDevice| device_line(x)),
            crate::text::texts(out@) == head + all.take(i as int),
        decreases devs@.len() - i,
    {
        let d: &InputDevice = &devs[i];
        let score: String = crate::say::count(d.typing_score as u64);
        let mark: &str = if d.is_keyboard {
            "  <- CONFIGURED keyboard"
        } else if d.is_mouse {
            "  <- CONFIGURED mouse"
        } else {
            ""
        };
        let rest: String = crate::say::cat2(d.name.as_str(), mark);
        let line: String = table_row(
            d.path.as_str(),
            d.kind.name(),
            score.as_str(),
            if d.is_virtual {
                "yes"
            } else {
                "no"
            },
            rest.as_str(),
        );
        assert(all[i as int] == device_line(*d));
        crate::say::put(&mut out, line);
        assert(head + all.take(i + 1) =~= (head + all.take(i as int)).push(all[i as int]));
        if !d.is_virtual && d.typing_score >= FULL_SCORE {
            n = n + 1;
        }
        i = i + 1;
    }
    assert(all.take(i as int) =~= all);
    crate::say::say(&mut out, "");
    crate::say::say(&mut out, "SCORE = likelihood of being a real typing keyboard (out of 22).");
    if !keyboard_set {
        crate::say::say(
            &mut out,
            "WARNING: no keyboard configured — auto-selection will be used.",
        );
    }
    if n > 1 {
        crate::say::say(&mut out, "");
        let count: String = crate::say::count(n as u64);
        crate::say::put(
            &mut out,
            crate::say::cat2(
                count.as_str(),
                " devices tied on score — the score does not say which one",
            ),
        );
        crate::say::say(&mut out, "ACTUALLY sends keys. To measure:  liw keymap detect --save");
    }
    assert(crate::text::texts(out@) =~= list_lines(devs@, keyboard_set));
    out
}

// ---------------------------------------------------------------- watching

/// The paths that the key watch listens to: the one asked for, or those of all
/// real devices but plain pointers.
pub open spec fn targets_of(d: Seq<InputDevice>, device: Option<Seq<char>>) -> Seq<Seq<char>> {
    match device {
        Some(p) => seq![p],
        None => candidates_of(d, false, d.len() as int).map_values(|i: int| d[i].path@),
    }
}

/// The paths that the key watch listens to.
pub fn watch_targets(devs: &Vec<InputDevice>, device: Option<&str>) -> (r: Vec<String>)
    ensures
        crate::text::texts(r@) == targets_of(devs@, crate::text::maybe(device)),
{
    let mut out: Vec<String> = crate::say::page();
    if let Some(p) = device {
        crate::say::say(&mut out, p);
        assert(crate::text::texts(out@) =~= targets_of(devs@, Some(p@)));
        return out;
    }
    let c: Vec<usize> = candidates(devs, false);
    let ghost all = targets_of(devs@, None);
    let mut i: usize = 0;
    assert(all.take(0) =~= Seq::<Seq<char>>::empty());
    assert(all.len() == c@.len());
    while i < c.len()
        invariant
            i <= c@.len(),
            all == targets_of(devs@, None),
            all.len() == c@.len(),
            crate::order::places(c@) == candidates_of(devs@, false, devs@.len() as int),
            forall|k: int| 0 <= k < c@.len() ==> #[trigger] c@[k] < devs@.len(),
            crate::text::texts(out@) == all.take(i as int),
        decreases c@.len() - i,
    {
        assert(crate::order::places(c@)[i as int] == c@[i as int] as int);
        assert(all[i as int] == devs@[c@[i as int] as int].path@);
        crate::say::say(&mut out, devs[c[i]].path.as_str());
        assert(all.take(i as int).push(all[i as int]) =~= all.take(i + 1));
        i = i + 1;
    }
    assert(all.take(i as int) =~= all);
    out
}

/// A device that the key watch listens to: its path and its name, or a question
/// mark for a path that no device has.
pub open spec fn target_line(d: Seq<InputDevice>, path: Seq<char>) -> Seq<char> {
    "  "@ + path + "  "@ + (if device_at(d, path, 0) < d.len() {
        name_at(d, path)
    } else {
        "?"@
    })
}

/// What the key watch opens with.
pub open spec fn watch_opening_lines(d: Seq<InputDevice>, t: Seq<Seq<char>>) -> Seq<Seq<char>> {
    if t.len() == 0 {
        seq!["No device to listen to."@]
    } else {
        seq!["Dinlenen cihazlar:"@] + t.map_values(|p: Seq<char>| target_line(d, p)) + seq![
            ""@,
            "Press keys — you will see which device produces which code."@,
            "The 'code' column is the value to use in a profile. Ctrl+C to quit."@,
            ""@,
            watch_row("DEVICE"@, "CODE"@, "STATE"@, "NAME"@),
        ]
    }
}

/// What the key watch opens with.
pub fn watch_opening(devs: &Vec<InputDevice>, targets: &Vec<String>) -> (r: Vec<String>)
    ensures
        crate::text::texts(r@) == watch_opening_lines(devs@, crate::text::texts(targets@)),
{
    let mut out: Vec<String> = crate::say::page();
    let ghost t = crate::text::texts(targets@);
    if targets.len() == 0 {
        crate::say::say(&mut out, "No device to listen to.");
        assert(crate::text::texts(out@) =~= watch_opening_lines(devs@, t));
        return out;
    }
    crate::say::say(&mut out, "Dinlenen cihazlar:");
    let ghost head = crate::text::texts(out@);
    let ghost all = t.map_values(|p: Seq<char>| target_line(devs@, p));
    let mut i: usize = 0;
    assert(head + all.take(0) =~= head);
    while i < targets.len()
        invariant
            i <= targets@.len(),
            t == crate::text::texts(targets@),
            all == t.map_values(|p: Seq<char>| target_line(devs@, p)),
            crate::text::texts(out@) == head + all.take(i as int),
        decreases targets@.len() - i,
    {
        let path: &str = targets[i].as_str();
        let name: String = shown_name(devs, path);
        crate::say::put(&mut out, crate::say::cat4("  ", path, "  ", name.as_str()));
        assert(all[i as int] == target_line(devs@, path@));
        assert(head + all.take(i + 1) =~= (head + all.take(i as int)).push(all[i as int]));
        i = i + 1;
    }
    assert(all.take(i as int) =~= all);
    crate::say::say(&mut out, "");
    crate::say::say(&mut out, "Press keys — you will see which device produces which code.");
    crate::say::say(
        &mut out,
        "The 'code' column is the value to use in a profile. Ctrl+C to quit.",
    );
    crate::say::say(&mut out, "");
    crate::say::put(&mut out, watch_text("DEVICE", "CODE", "STATE", "NAME"));
    assert(head =~= seq!["Dinlenen cihazlar:"@]);
    assert(crate::text::texts(out@) =~= watch_opening_lines(devs@, t));
    out
}

/// The name of the device with the path, or a question mark.
fn shown_name(devs: &Vec<InputDevice>, path: &str) -> (r: String)
    ensures
        r@ == (if device_at(devs@, path@, 0) < devs@.len() {
            name_at(devs@, path@)
        } else {
            "?"@
        }),
{
    let mut i: usize = 0;
    while i < devs.len()
        invariant
            i <= devs@.len(),
            device_at(devs@, path@, 0) == device_at(devs@, path@, i as int),
        decreases devs@.len() - i,
    {
        if crate::text::same(devs[i].path.as_str(), path) {
            return devs[i].name.clone();
        }
        i = i + 1;
    }
    "?".to_owned()
}

/// One line of the key watch: what a device sent. Motion says nothing here.
pub open spec fn watch_line(
    device: Seq<char>,
    name: Seq<char>,
    ev: InputEvent,
) -> Option<Seq<char>> {
    match ev {
        InputEvent::Press(t) => Some(watch_row(device, trigger_code(t), "BASILDI"@, name)),
        InputEvent::Release(t) => Some(watch_row(device, trigger_code(t), "released"@, name)),
        InputEvent::MouseMove { .. } => None,
    }
}

pub open spec fn watch_row(a: Seq<char>, b: Seq<char>, c: Seq<char>, d: Seq<char>) -> Seq<char> {
    crate::say::padded(a, 20) + " "@ + crate::say::padded(b, 8) + " "@ + (crate::say::padded(c, 10)
        + " "@ + d)
}

/// What to write into a profile for a trigger, or its name.
pub open spec fn trigger_code(t: TriggerKind) -> Seq<char> {
    match t {
        TriggerKind::Key(k) => crate::text::decimal(k as nat),
        TriggerKind::MouseLeft => "MouseLeft"@,
        TriggerKind::MouseRight => "MouseRight"@,
        TriggerKind::MouseMiddle => "MouseMiddle"@,
        TriggerKind::WheelUp => "WheelUp"@,
        TriggerKind::WheelDown => "WheelDown"@,
    }
}

fn code_text(t: TriggerKind) -> (r: String)
    ensures
        r@ == trigger_code(t),
{
    match t {
        TriggerKind::Key(k) => crate::say::count(k as u64),
        TriggerKind::MouseLeft => "MouseLeft".to_owned(),
        TriggerKind::MouseRight => "MouseRight".to_owned(),
        TriggerKind::MouseMiddle => "MouseMiddle".to_owned(),
        TriggerKind::WheelUp => "WheelUp".to_owned(),
        TriggerKind::WheelDown => "WheelDown".to_owned(),
    }
}

fn watch_text(a: &str, b: &str, c: &str, d: &str) -> (r: String)
    ensures
        r@ == watch_row(a@, b@, c@, d@),
{
    let a: String = crate::say::pad(a, 20);
    let b: String = crate::say::pad(b, 8);
    let c: String = crate::say::pad(c, 10);
    let tail: String = crate::say::cat3(c.as_str(), " ", d);
    crate::say::cat5(a.as_str(), " ", b.as_str(), " ", tail.as_str())
}

/// One line of the key watch: what a device sent.
pub fn watched(device: &str, name: &str, ev: InputEvent) -> (r: Option<String>)
    ensures
        crate::text::some_text(r) == watch_line(device@, name@, ev),
{
    let (code, state): (String, &str) = match ev {
        InputEvent::Press(t) => (code_text(t), "BASILDI"),
        InputEvent::Release(t) => (code_text(t), "released"),
        InputEvent::MouseMove { .. } => {
            return None;
        },
    };
    Some(watch_text(device, code.as_str(), state, name))
}

// ---------------------------------------------------------------- panel

/// One row of the settings panel.
#[derive(Debug)]
pub struct DeviceRow {
    pub name: String,
    /// Shown because one keyboard appears several times under one name and with
    /// one score.
    pub node: String,
    pub selected: bool,
    pub score: Option<String>,
    /// What choosing the row writes into the configuration.
    pub config_path: String,
}

/// A row as plain text.
#[verifier::ext_equal]
pub struct RowView {
    pub name: Seq<char>,
    pub node: Seq<char>,
    pub selected: bool,
    pub score: Option<Seq<char>>,
    pub config_path: Seq<char>,
}

impl View for DeviceRow {
    type V = RowView;

    open spec fn view(&self) -> RowView {
        RowView {
            name: self.name@,
            node: self.node@,
            selected: self.selected,
            score: crate::text::some_text(self.score),
            config_path: self.config_path@,
        }
    }
}

/// Rows as plain text.
pub open spec fn rows_of(v: Seq<DeviceRow>) -> Seq<RowView> {
    v.map_values(|r: DeviceRow| r@)
}

/// The score of a device in the panel it stands in, if it has one.
pub open spec fn score_of(d: InputDevice, want_keyboard: bool) -> Option<Seq<char>> {
    if want_keyboard && d.typing_score > 0 {
        Some(crate::text::decimal(d.typing_score as nat) + "/22 keys"@)
    } else if !want_keyboard && d.pointer_score > 0 {
        Some("mouse "@ + crate::text::decimal(d.pointer_score as nat) + "/15"@)
    } else {
        None
    }
}

pub open spec fn row_of(d: InputDevice, want_keyboard: bool) -> RowView {
    RowView {
        name: d.name@,
        node: d.node@,
        selected: if want_keyboard {
            d.is_keyboard
        } else {
            d.is_mouse
        },
        score: score_of(d, want_keyboard),
        config_path: d.config_path@,
    }
}

/// The rows of the first `n` devices.
pub open spec fn panel_rows(d: Seq<InputDevice>, want_keyboard: bool, n: int) -> Seq<RowView>
    decreases n,
{
    if n <= 0 {
        Seq::empty()
    } else if usable(d[n - 1], want_keyboard) {
        panel_rows(d, want_keyboard, n - 1).push(row_of(d[n - 1], want_keyboard))
    } else {
        panel_rows(d, want_keyboard, n - 1)
    }
}

/// What the panel says about its list.
pub open spec fn panel_note(rows: int, want_keyboard: bool) -> Seq<char> {
    if rows == 0 {
        "None found. Is the user in the `input` group?"@
    } else if want_keyboard {
        "Multi-interface keyboards claim letter keys on interfaces that never send any — the score is a hint, not an answer."@
    } else {
        "The device the aim binding reads relative motion from."@
    }
}

/// The panel that picks the keyboard, or the mouse: its note and its rows.
pub fn devices_panel(devs: &Vec<InputDevice>, want_keyboard: bool) -> (r: (
    &'static str,
    Vec<DeviceRow>,
))
    ensures
        rows_of(r.1@) == panel_rows(devs@, want_keyboard, devs@.len() as int),
        r.0@ == panel_note(r.1@.len() as int, want_keyboard),
{
    let mut rows: Vec<DeviceRow> = Vec::new();
    let mut i: usize = 0;
    assert(rows_of(rows@) =~= Seq::<RowView>::empty());
    while i < devs.len()
        invariant
            i <= devs@.len(),
            rows_of(rows@) == panel_rows(devs@, want_keyboard, i as int),
        decreases devs@.len() - i,
    {
        let d: &InputDevice = &devs[i];
        let fits: bool = if want_keyboard {
            is_typing(d.kind)
        } else {
            is_pointing(d.kind)
        };
        if !d.is_virtual && fits {
            let score: Option<String> = if want_keyboard && d.typing_score > 0 {
                let n: String = crate::say::count(d.typing_score as u64);
                Some(crate::say::cat2(n.as_str(), "/22 keys"))
            } else if !want_keyboard && d.pointer_score > 0 {
                let n: String = crate::say::count(d.pointer_score as u64);
                Some(crate::say::cat3("mouse ", n.as_str(), "/15"))
            } else {
                None
            };
            let row = DeviceRow {
                name: d.name.clone(),
                node: d.node.clone(),
                selected: if want_keyboard {
                    d.is_keyboard
                } else {
                    d.is_mouse
                },
                score,
                config_path: d.config_path.clone(),
            };
            let ghost before = rows_of(rows@);
            assert(row@ =~= row_of(*d, want_keyboard));
            rows.push(row);
            assert(rows_of(rows@) =~= before.push(row_of(*d, want_keyboard)));
        }
        i = i + 1;
    }
    let note: &'static str = if rows.len() == 0 {
        "None found. Is the user in the `input` group?"
    } else if want_keyboard {
        "Multi-interface keyboards claim letter keys on interfaces that never send any — the score is a hint, not an answer."
    } else {
        "The device the aim binding reads relative motion from."
    };
    (note, rows)
}

/// What the hotkey setting shows.
pub open spec fn hotkey_text(capturing: bool, code: Option<u16>) -> Seq<char> {
    match (capturing, code) {
        (true, _) => "Press the key you want…"@,
        (false, Some(c)) => crate::keys::label_of(c),
        (false, None) => "Not set — the mapper will grab as soon as a game opens"@,
    }
}

/// What the hotkey setting shows: the key's name, not its number.
pub fn hotkey(capturing: bool, code: Option<u16>) -> (r: String)
    ensures
        r@ == hotkey_text(capturing, code),
{
    match (capturing, code) {
        (true, _) => "Press the key you want…".to_owned(),
        (false, Some(c)) => crate::keys::label(c),
        (false, None) => "Not set — the mapper will grab as soon as a game opens".to_owned(),
    }
}

proof fn lemma_candidates(d: Seq<InputDevice>, mouse_mode: bool, n: int)
    requires
        0 <= n <= d.len(),
    ensures
        forall|k: int|
            0 <= k < candidates_of(d, mouse_mode, n).len() ==> {
                let i = #[trigger] candidates_of(d, mouse_mode, n)[k];
                0 <= i < n && candidate(d[i], mouse_mode)
            },
        forall|i: int|
            0 <= i < n && candidate(#[trigger] d[i], mouse_mode) ==> candidates_of(
                d,
                mouse_mode,
                n,
            ).contains(i),
    decreases n,
{
    if n > 0 {
        lemma_candidates(d, mouse_mode, n - 1);
        let before = candidates_of(d, mouse_mode, n - 1);
        let after = candidates_of(d, mouse_mode, n);
        assert forall|i: int| 0 <= i < n && candidate(#[trigger] d[i], mouse_mode) implies
            after.contains(i) by {
            if i < n - 1 {
                assert(before.contains(i));
                let k = choose|k: int| 0 <= k < before.len() && before[k] == i;
                assert(after[k] == i);
            } else {
                assert(after[before.len() as int] == i);
            }
        }
    }
}

/// Calibration never listens to a virtual device, and in key mode it leaves out
/// nothing else but plain pointers.
pub proof fn law_calibration_listens_to_every_real_device(
    d: Seq<InputDevice>,
    mouse_mode: bool,
    i: int,
)
    requires
        0 <= i < d.len(),
    ensures
        candidates_of(d, mouse_mode, d.len() as int).contains(i) ==> !d[i].is_virtual,
        !mouse_mode && !d[i].is_virtual && d[i].kind != DeviceKind::Pointer ==> candidates_of(
            d,
            mouse_mode,
            d.len() as int,
        ).contains(i),
{
    lemma_candidates(d, mouse_mode, d.len() as int);
    let c = candidates_of(d, mouse_mode, d.len() as int);
    if c.contains(i) {
        let k = choose|k: int| 0 <= k < c.len() && c[k] == i;
        let j = c[k];
        assert(candidate(d[j], mouse_mode));
    }
}

/// Calibrating one thing leaves the others as they were.
pub proof fn law_calibration_changes_one_thing(
    c: ChoiceView,
    path: Seq<char>,
    code: u16,
    mouse_mode: bool,
    hotkey_mode: bool,
)
    ensures
        ({
            let d = c.calibrated(path, code, mouse_mode, hotkey_mode);
            &&& mouse_mode ==> d.keyboard == c.keyboard && d.hotkey == c.hotkey
            &&& !mouse_mode && hotkey_mode ==> d.keyboard == c.keyboard && d.mouse == c.mouse
            &&& !mouse_mode && !hotkey_mode ==> d.mouse == c.mouse && d.hotkey == c.hotkey
        }),
{
}

/// Calibration listens to exactly the real devices of the kind asked for: those
/// that point, for the mouse; all but the plain pointers, for keys. In order.
pub proof fn law_calibration_listens_to_the_right_devices(d: Seq<InputDevice>, mouse_mode: bool)
    ensures
        ({
            let c = candidates_of(d, mouse_mode, d.len() as int);
            &&& forall|i: int|
                0 <= i < d.len() ==> (c.contains(i) <==> !(#[trigger] d[i]).is_virtual && (
                if mouse_mode {
                    d[i].kind == DeviceKind::Pointer || d[i].kind == DeviceKind::Combo
                } else {
                    d[i].kind != DeviceKind::Pointer
                }))
            &&& forall|a: int, b: int| 0 <= a < b < c.len() ==> #[trigger] c[a] < #[trigger] c[b]
            &&& forall|a: int| 0 <= a < c.len() ==> 0 <= #[trigger] c[a] < d.len()
        }),
{
    lemma_listened(d, mouse_mode, d.len() as int);
}

proof fn lemma_listened(d: Seq<InputDevice>, mouse_mode: bool, n: int)
    requires
        0 <= n <= d.len(),
    ensures
        ({
            let c = candidates_of(d, mouse_mode, n);
            &&& forall|i: int|
                0 <= i < n ==> (c.contains(i) <==> candidate(#[trigger] d[i], mouse_mode))
            &&& forall|a: int, b: int| 0 <= a < b < c.len() ==> #[trigger] c[a] < #[trigger] c[b]
            &&& forall|a: int| 0 <= a < c.len() ==> 0 <= #[trigger] c[a] < n
        }),
    decreases n,
{
    if n > 0 {
        lemma_listened(d, mouse_mode, n - 1);
        let before = candidates_of(d, mouse_mode, n - 1);
        let c = candidates_of(d, mouse_mode, n);
        assert forall|i: int| 0 <= i < n implies (c.contains(i) <==> candidate(
            #[trigger] d[i],
            mouse_mode,
        )) by {
            if before.contains(i) {
                let k = choose|k: int| 0 <= k < before.len() && before[k] == i;
                assert(c[k] == i);
            }
            if c.contains(i) {
                let k = choose|k: int| 0 <= k < c.len() && c[k] == i;
                if k < before.len() {
                    assert(before[k] == i);
                }
            }
            if i == n - 1 && candidate(d[i], mouse_mode) {
                assert(c.last() == i);
            }
        }
    }
}

/// What calibration found is kept where it belongs: the path of a mouse or of a
/// keyboard, or the code of the hotkey.
pub proof fn law_calibration_keeps_what_it_found(
    c: ChoiceView,
    path: Seq<char>,
    code: u16,
    mouse_mode: bool,
    hotkey_mode: bool,
)
    ensures
        ({
            let d = c.calibrated(path, code, mouse_mode, hotkey_mode);
            &&& mouse_mode ==> d.mouse == Some(path)
            &&& !mouse_mode && hotkey_mode ==> d.hotkey == Some(code)
            &&& !mouse_mode && !hotkey_mode ==> d.keyboard == Some(path)
        }),
{
}

/// Only what was asked for identifies a device: a mouse by moving far, a keyboard
/// by a key going down, whose code it is.
pub proof fn law_a_device_is_known_by_what_was_asked(ev: InputEvent, far: bool, mouse_mode: bool)
    ensures
        answer(ev, far, mouse_mode) is Some <==> if mouse_mode {
            ev is MouseMove && far
        } else {
            ev matches InputEvent::Press(TriggerKind::Key(_))
        },
        !mouse_mode ==> (ev matches InputEvent::Press(TriggerKind::Key(k)) ==> answer(
            ev,
            far,
            mouse_mode,
        ) == Some(k)),
{
}

/// A device is found by its path, the first where several have it; its name is
/// then its own.
pub proof fn law_a_device_is_found_by_its_path(d: Seq<InputDevice>, path: Seq<char>)
    ensures
        ({
            let i = device_at(d, path, 0);
            &&& 0 <= i <= d.len()
            &&& i < d.len() ==> d[i].path@ == path && name_at(d, path) == d[i].name@
            &&& forall|j: int| 0 <= j < i ==> (#[trigger] d[j]).path@ != path
            &&& i == d.len() ==> name_at(d, path).len() == 0
        }),
{
    lemma_device_at(d, path, 0);
}

proof fn lemma_device_at(d: Seq<InputDevice>, path: Seq<char>, k: int)
    requires
        0 <= k <= d.len(),
    ensures
        ({
            let i = device_at(d, path, k);
            &&& k <= i <= d.len()
            &&& i < d.len() ==> d[i].path@ == path
            &&& forall|j: int| k <= j < i ==> (#[trigger] d[j]).path@ != path
        }),
    decreases d.len() - k,
{
    if k < d.len() && d[k].path@ != path {
        lemma_device_at(d, path, k + 1);
    }
}

/// The path that is kept is the stable one, where there is one.
pub proof fn law_the_stable_path_is_kept(path: Seq<char>, stable: Option<Seq<char>>)
    ensures
        stable is Some ==> lasting(path, stable) == stable->0,
        stable is None ==> lasting(path, stable) == path,
{
}

/// Without a device given, the watch listens to all that calibration for keys would
/// listen to; with one, to that alone.
pub proof fn law_the_watch_listens_to_keys(d: Seq<InputDevice>, device: Option<Seq<char>>)
    ensures
        ({
            let c = candidates_of(d, false, d.len() as int);
            let t = targets_of(d, device);
            &&& device is Some ==> t == seq![device->0]
            &&& device is None ==> t.len() == c.len() && forall|k: int|
                0 <= k < c.len() ==> #[trigger] t[k] == d[c[k]].path@
        }),
{
}

/// The panel shows, in order, the real devices of its kind, each with what is its
/// own; the one in use is marked by the role asked for.
pub proof fn law_the_panel_shows_usable_devices(d: Seq<InputDevice>, want_keyboard: bool)
    ensures
        panel_rows(d, want_keyboard, d.len() as int) == d.filter(
            |x: InputDevice| usable(x, want_keyboard),
        ).map_values(|x: InputDevice| row_of(x, want_keyboard)),
        forall|x: InputDevice| #[trigger]
            usable(x, want_keyboard) <==> !x.is_virtual && (if want_keyboard {
                x.kind == DeviceKind::Keyboard || x.kind == DeviceKind::Combo
            } else {
                x.kind == DeviceKind::Pointer || x.kind == DeviceKind::Combo
            }),
        forall|x: InputDevice|
            (#[trigger] row_of(x, want_keyboard)).name == x.name@ && row_of(x, want_keyboard).node
                == x.node@ && row_of(x, want_keyboard).config_path == x.config_path@ && row_of(
                x,
                want_keyboard,
            ).selected == (if want_keyboard {
                x.is_keyboard
            } else {
                x.is_mouse
            }),
{
    lemma_panel(d, want_keyboard, d.len() as int);
    assert(d.take(d.len() as int) =~= d);
}

proof fn lemma_panel(d: Seq<InputDevice>, want_keyboard: bool, n: int)
    requires
        0 <= n <= d.len(),
    ensures
        panel_rows(d, want_keyboard, n) == d.take(n).filter(
            |x: InputDevice| usable(x, want_keyboard),
        ).map_values(|x: InputDevice| row_of(x, want_keyboard)),
    decreases n,
{
    let fit = |x: InputDevice| usable(x, want_keyboard);
    let row = |x: InputDevice| row_of(x, want_keyboard);
    reveal(Seq::filter);
    if n == 0 {
        assert(d.take(0).filter(fit) =~= Seq::<InputDevice>::empty());
        assert(panel_rows(d, want_keyboard, 0) =~= d.take(0).filter(fit).map_values(row));
    } else {
        lemma_panel(d, want_keyboard, n - 1);
        assert(d.take(n).drop_last() =~= d.take(n - 1));
        assert(d.take(n).last() == d[n - 1]);
        let before = d.take(n - 1).filter(fit);
        if usable(d[n - 1], want_keyboard) {
            assert(before.push(d[n - 1]).map_values(row) =~= before.map_values(row).push(
                row_of(d[n - 1], want_keyboard),
            ));
        }
    }
}

/// The devices that tie are counted: the real ones with the full score.
pub proof fn law_tied_devices_are_counted(d: Seq<InputDevice>)
    ensures
        tops(d, d.len() as int) == d.filter(
            |x: InputDevice| !x.is_virtual && x.typing_score >= 22,
        ).len(),
{
    lemma_tops(d, d.len() as int);
    assert(d.take(d.len() as int) =~= d);
}

proof fn lemma_tops(d: Seq<InputDevice>, n: int)
    requires
        0 <= n <= d.len(),
    ensures
        tops(d, n) == d.take(n).filter(
            |x: InputDevice| !x.is_virtual && x.typing_score >= 22,
        ).len(),
    decreases n,
{
    let full = |x: InputDevice| !x.is_virtual && x.typing_score >= 22;
    reveal(Seq::filter);
    if n == 0 {
        assert(d.take(0).filter(full) =~= Seq::<InputDevice>::empty());
    } else {
        lemma_tops(d, n - 1);
        assert(d.take(n).drop_last() =~= d.take(n - 1));
        assert(d.take(n).last() == d[n - 1]);
    }
}

/// A press and a release are told apart, each with the device, what was pressed and the
/// name; motion is not told.
pub proof fn law_a_watched_event_is_told(device: Seq<char>, name: Seq<char>, t: TriggerKind)
    ensures
        ({
            let down = watch_line(device, name, InputEvent::Press(t));
            let up = watch_line(device, name, InputEvent::Release(t));
            &&& down is Some && up is Some
            &&& crate::text::opens_with(down->0, device) && crate::text::opens_with(up->0, device)
            &&& crate::text::closes_with(down->0, name) && crate::text::closes_with(up->0, name)
            &&& crate::text::occurs(down->0, "BASILDI"@)
            &&& crate::text::occurs(up->0, "released"@)
            &&& crate::text::occurs(down->0, trigger_code(t))
            &&& crate::text::occurs(up->0, trigger_code(t))
        }),
{
    lemma_watch_row(device, trigger_code(t), "BASILDI"@, name);
    lemma_watch_row(device, trigger_code(t), "released"@, name);
}

proof fn lemma_watch_parts(
    a: Seq<char>,
    p: Seq<char>,
    b: Seq<char>,
    q: Seq<char>,
    c: Seq<char>,
    r: Seq<char>,
    d: Seq<char>,
    gap: Seq<char>,
)
    ensures
        (a + p) + gap + (b + q) + gap + ((c + r) + gap + d) == (a + p + gap) + b + (q + gap + c + r
            + gap + d),
        (a + p) + gap + (b + q) + gap + ((c + r) + gap + d) == (a + p + gap + b + q + gap) + c + (r
            + gap + d),
{
    assert((a + p) + gap + (b + q) + gap + ((c + r) + gap + d) =~= (a + p + gap) + b + (q + gap + c
        + r + gap + d));
    assert((a + p) + gap + (b + q) + gap + ((c + r) + gap + d) =~= (a + p + gap + b + q + gap) + c
        + (r + gap + d));
}

proof fn lemma_watch_row(a: Seq<char>, b: Seq<char>, c: Seq<char>, d: Seq<char>)
    ensures
        crate::text::opens_with(watch_row(a, b, c, d), a),
        crate::text::closes_with(watch_row(a, b, c, d), d),
        crate::text::occurs(watch_row(a, b, c, d), b),
        crate::text::occurs(watch_row(a, b, c, d), c),
{
    let p = crate::say::repeated(' ', 20 - a.len());
    let q = crate::say::repeated(' ', 8 - b.len());
    let r = crate::say::repeated(' ', 10 - c.len());
    let gap = " "@;
    let l = watch_row(a, b, c, d);
    lemma_watch_parts(a, p, b, q, c, r, d, gap);
    crate::text::lemma_occurs_between(a + p + gap, b, q + gap + c + r + gap + d);
    crate::text::lemma_occurs_between(a + p + gap + b + q + gap, c, r + gap + d);
    assert(l.subrange(0, a.len() as int) =~= a);
    let k = l.len() - d.len();
    assert(l.subrange(k, k + d.len()) =~= d);
}

} // verus!
