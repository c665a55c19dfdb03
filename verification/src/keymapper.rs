//! The key mapper inside the session daemon: when it starts, what it listens
//! to, and who has the focus.

use crate::runner::RunnerConfig;
use vstd::prelude::*;
use vstd::string::*;

verus! {

/// How often the touch pipe is asked for, a second apart. A full start of the
/// session takes about that long.
pub const PIPE_TRIES: u32 = 15;

/// The size assumed until the window reports one.
pub const USUAL_WIDTH: u32 = 2560;

pub const USUAL_HEIGHT: u32 = 1440;

/// Window classes that mean that Android's screen has the focus.
///
/// There are two ways to be looking at Android: its own window, and the game
/// window that renders it through the embedded compositor. The launcher's own
/// class is deliberately absent: it shows a library, not a game, and grabbing
/// the keyboard there would stop the user typing.
pub open spec fn android_class(class: Seq<char>) -> bool {
    let c = crate::text::lower(class);
    c == crate::text::lower("waydroid"@) || c == crate::text::lower("liwinux-game"@)
}

/// Whether a focused window of this class shows Android. Case is ignored.
pub fn is_android(class: &str) -> (r: bool)
    ensures
        r == android_class(class@),
{
    crate::text::same_ignoring_case(class, "waydroid") || crate::text::same_ignoring_case(
        class,
        "liwinux-game",
    )
}

/// What asking for the touch pipe once led to.
#[derive(Clone, Copy, Debug, PartialEq, Eq, Structural)]
pub enum PipeWait {
    /// The pipe is there.
    Acquired { attempt: u32 },
    /// Not ready: wait and ask again. The first time it is worth a note.
    Wait { note: bool },
    /// It did not come. Aim runs bounded: the finger is reset at the edge.
    GaveUp,
}

/// What asking for the `i`th time, counting from zero, led to.
pub open spec fn pipe_wait(i: u32, acquired: bool) -> PipeWait {
    if acquired {
        PipeWait::Acquired { attempt: (i + 1) as u32 }
    } else if i + 1 < PIPE_TRIES {
        PipeWait::Wait { note: i == 0 }
    } else {
        PipeWait::GaveUp
    }
}

/// What asking for the `i`th time, counting from zero, led to. One attempt is
/// not enough: right after a session start the display is not published yet.
pub fn acquire_pipe(i: u32, acquired: bool) -> (r: PipeWait)
    requires
        i < PIPE_TRIES,
    ensures
        r == pipe_wait(i, acquired),
{
    if acquired {
        PipeWait::Acquired { attempt: i + 1 }
    } else if i + 1 < PIPE_TRIES {
        PipeWait::Wait { note: i == 0 }
    } else {
        PipeWait::GaveUp
    }
}

/// What a request to start comes to.
#[derive(Debug)]
pub enum Start {
    /// It runs already; nothing to do.
    Already,
    /// No keyboard is configured and none could be guessed.
    NoKeyboard,
    /// Start on this keyboard. Without a hotkey the devices are grabbed as soon
    /// as a profile activates, which deserves a warning.
    On { device: String, warn: bool },
}

/// The same, as plain text.
pub enum StartView {
    Already,
    NoKeyboard,
    On { device: Seq<char>, warn: bool },
}

impl View for Start {
    type V = StartView;

    open spec fn view(&self) -> StartView {
        match self {
            Start::Already => StartView::Already,
            Start::NoKeyboard => StartView::NoKeyboard,
            Start::On { device, warn } => StartView::On { device: device@, warn: *warn },
        }
    }
}

/// What a missing keyboard is answered.
pub open spec fn no_keyboard_text() -> Seq<char> {
    "no keyboard — calibrate with 'liw keymap detect --save'"@
}

impl Start {
    /// What a missing keyboard is answered.
    pub fn no_keyboard() -> (r: String)
        ensures
            r@ == no_keyboard_text(),
    {
        "no keyboard — calibrate with 'liw keymap detect --save'".to_owned()
    }
}

/// The state of the mapper in the daemon: whether it runs, whether the window
/// in focus is Android's, and the size of the window.
#[derive(Clone, Copy, Debug)]
pub struct Handle {
    /// The focus last told to the running mapper.
    pub running: Option<bool>,
    pub screen_px: (u32, u32),
}

impl Default for Handle {
    fn default() -> (r: Handle)
        ensures
            r == Handle::idle(),
    {
        Handle { running: None, screen_px: (USUAL_WIDTH, USUAL_HEIGHT) }
    }
}

impl Handle {
    pub open spec fn idle() -> Handle {
        Handle { running: None, screen_px: (USUAL_WIDTH, USUAL_HEIGHT) }
    }

    /// The size once the window reported one. An empty window says nothing.
    pub open spec fn sized(self, w: u32, h: u32) -> Handle {
        if w > 0 && h > 0 {
            Handle { screen_px: (w, h), ..self }
        } else {
            self
        }
    }

    /// The focus once a window of the class was activated, and what is to be
    /// told to the mapper: only changes.
    pub open spec fn focused(self, class: Seq<char>) -> (Handle, Option<bool>) {
        match self.running {
            Some(was) => {
                let now = android_class(class);
                if now != was {
                    (Handle { running: Some(now), ..self }, Some(now))
                } else {
                    (self, None)
                }
            },
            None => (self, None),
        }
    }

    /// What a request to start comes to.
    pub open spec fn start_spec(
        self,
        keyboard: Option<Seq<char>>,
        guess: Option<Seq<char>>,
        grab: bool,
        hotkey: Option<u16>,
    ) -> StartView {
        if self.running is Some {
            StartView::Already
        } else {
            let warn = grab && hotkey is None;
            match (keyboard, guess) {
                (Some(k), _) => StartView::On { device: k, warn },
                (None, Some(g)) => StartView::On { device: g, warn },
                (None, None) => StartView::NoKeyboard,
            }
        }
    }

    pub fn new() -> (r: Handle)
        ensures
            r == Handle::idle(),
    {
        Handle::default()
    }

    /// Updated as the window geometry changes.
    pub fn set_screen_px(&mut self, w: u32, h: u32)
        ensures
            *final(self) == old(self).sized(w, h),
    {
        if w > 0 && h > 0 {
            self.screen_px = (w, h);
        }
    }

    /// A window of class `class` got the focus. Returns what the mapper is to
    /// be told, if anything: repeating the same value makes it work for
    /// nothing.
    pub fn set_active_window(&mut self, class: &str) -> (r: Option<bool>)
        ensures
            (*final(self), r) == old(self).focused(class@),
    {
        match self.running {
            Some(was) => {
                let now: bool = is_android(class);
                if now != was {
                    self.running = Some(now);
                    Some(now)
                } else {
                    None
                }
            },
            None => None,
        }
    }

    /// Decides what a request to start comes to: the configured keyboard wins
    /// over a guess.
    pub fn plan_start(
        &self,
        keyboard: Option<&str>,
        guess: Option<&str>,
        grab: bool,
        hotkey: Option<u16>,
    ) -> (r: Start)
        ensures
            r@ == self.start_spec(
                crate::text::maybe(keyboard),
                crate::text::maybe(guess),
                grab,
                hotkey,
            ),
    {
        if self.running.is_some() {
            return Start::Already;
        }
        let warn: bool = grab && hotkey.is_none();
        match keyboard {
            Some(k) => Start::On { device: k.to_owned(), warn },
            None => match guess {
                Some(g) => Start::On { device: g.to_owned(), warn },
                None => Start::NoKeyboard,
            },
        }
    }

    /// The mapper starts on `device`. `pipe` is the size of the Android display
    /// where the touch pipe was acquired: coordinates go there, not to the host
    /// window. Focus is unknown at startup and taken to be off until the first
    /// report: a false positive would inject touches into the desktop.
    pub fn start(
        &mut self,
        device: String,
        mouse: Option<String>,
        grab: bool,
        hotkey: Option<u16>,
        pipe: Option<(u32, u32)>,
    ) -> (r: RunnerConfig)
        requires
            old(self).running is None,
        ensures
            *final(self) == (Handle { running: Some(false), ..*old(self) }),
            r.device == device,
            r.mouse == mouse,
            r.grab == grab,
            r.hotkey == hotkey,
            r.screen_px == (match pipe {
                Some(px) => px,
                None => old(self).screen_px,
            }),
    {
        self.running = Some(false);
        let screen_px: (u32, u32) = match pipe {
            Some(px) => px,
            None => self.screen_px,
        };
        RunnerConfig { device, mouse, grab, hotkey, screen_px }
    }

    /// Stops the mapper. Returns whether it ran.
    pub fn stop(&mut self) -> (r: bool)
        ensures
            r == (old(self).running is Some),
            *final(self) == (Handle { running: None, ..*old(self) }),
    {
        let was: bool = self.running.is_some();
        self.running = None;
        was
    }
}

/// Whether a polled foreground package is worth passing on.
pub fn worth_telling(package: &str) -> (r: bool)
    ensures
        r == (package@.len() > 0),
{
    package.unicode_len() > 0
}

/// Mapping stays off until Android's window is reported in focus.
pub proof fn law_focus_starts_off(h: Handle, class: Seq<char>)
    requires
        h.running == Some(false),
    ensures
        h.focused(class).1 == (if android_class(class) {
            Some(true)
        } else {
            None
        }),
{
}

/// The same report twice tells the mapper nothing new.
pub proof fn law_focus_is_told_once(h: Handle, class: Seq<char>)
    ensures
        h.focused(class).0.focused(class) == (h.focused(class).0, None::<bool>),
{
}

/// Waiting for the pipe ends after the last try, and never before.
pub proof fn law_waiting_for_the_pipe_ends(i: u32)
    requires
        i < PIPE_TRIES,
    ensures
        pipe_wait(i, false) is Wait <==> i + 1 < PIPE_TRIES,
{
}

/// Waiting for the pipe says which try got it; before the last it waits on, and
/// tells of it on the first; after that it gives up.
pub proof fn law_a_pipe_is_waited_for(i: u32, acquired: bool)
    requires
        i < PIPE_TRIES,
    ensures
        acquired ==> pipe_wait(i, acquired) == (PipeWait::Acquired { attempt: (i + 1) as u32 }),
        !acquired && i < 14 ==> pipe_wait(i, acquired) == (PipeWait::Wait { note: i == 0 }),
        !acquired && i == 14 ==> pipe_wait(i, acquired) == PipeWait::GaveUp,
{
}

/// The size of the screen is taken over unless it has none, and nothing else
/// changes with it.
pub proof fn law_an_empty_screen_is_ignored(h: Handle, w: u32, y: u32)
    ensures
        w > 0 && y > 0 ==> h.sized(w, y).screen_px == (w, y),
        w == 0 || y == 0 ==> h.sized(w, y) == h,
        h.sized(w, y).running == h.running,
{
}

/// A running mapper is told when the focus moves to Android's window or away from
/// it, and only then; one that does not run is told nothing.
pub proof fn law_the_mapper_hears_of_focus(h: Handle, class: Seq<char>)
    ensures
        ({
            let (n, told) = h.focused(class);
            &&& h.running is None ==> n == h && told is None
            &&& h.running is Some ==> n.running == Some(android_class(class))
            &&& h.running is Some ==> (told is Some <==> h.running != Some(android_class(class)))
            &&& told is Some ==> told == Some(android_class(class))
            &&& n.screen_px == h.screen_px
        }),
{
}

/// Mapping starts on the keyboard that is configured, else on the one guessed; it
/// does not start twice, nor without any. Holding the devices with no key to let go
/// of them is warned of.
pub proof fn law_mapping_starts_on_a_keyboard(
    h: Handle,
    keyboard: Option<Seq<char>>,
    guess: Option<Seq<char>>,
    grab: bool,
    hotkey: Option<u16>,
)
    ensures
        ({
            let s = h.start_spec(keyboard, guess, grab, hotkey);
            &&& s is Already <==> h.running is Some
            &&& s is NoKeyboard <==> h.running is None && keyboard is None && guess is None
            &&& s is On <==> h.running is None && (keyboard is Some || guess is Some)
            &&& s is On ==> s->device == (if keyboard is Some {
                keyboard->0
            } else {
                guess->0
            }) && s->warn == (grab && hotkey is None)
        }),
{
}

/// Android's window is known by its class, in whatever case it is written.
pub proof fn law_the_case_of_a_class_does_not_matter(a: Seq<char>, b: Seq<char>)
    requires
        crate::text::lower(a) == crate::text::lower(b),
    ensures
        android_class(a) == android_class(b),
        android_class("waydroid"@),
        android_class("liwinux-game"@),
{
}

} // verus!
