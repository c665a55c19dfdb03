//! The game window: the picture Android draws, the rail beside it, and the keys
//! the control editor takes.

use crate::mapper::Mapper;
use crate::store::Store;
use vstd::prelude::*;
use vstd::string::*;

verus! {

/// The socket Waydroid is pointed at. A fixed name: it is what stands in front of
/// `waydroid session start`.
pub const SOCKET: &'static str = "wayland-liw";

/// Width of the strip that is always there, in pixels.
pub const RAIL_W: u32 = 44;

/// Width of the panel when it is open, in pixels.
pub const PANEL_W: u32 = 248;

/// How much horizontal room the sidebar takes. The picture's size is computed
/// from this, so a second opinion about the rail's width would put every control
/// a few pixels from where it was clicked.
pub fn sidebar_width(open: bool) -> (r: u32)
    ensures
        r == (if open {
            RAIL_W + PANEL_W
        } else {
            RAIL_W as int
        }),
{
    if open {
        RAIL_W + PANEL_W
    } else {
        RAIL_W
    }
}

/// The room the sidebar takes from the picture; none while Android fills the
/// window.
pub fn taken(immersive: bool, open: bool) -> (r: u32)
    ensures
        r == (if immersive {
            0
        } else if open {
            RAIL_W + PANEL_W
        } else {
            RAIL_W as int
        }),
{
    if immersive {
        0
    } else {
        sidebar_width(open)
    }
}

/// A frame the compositor left: its serial number, its size, and how many bytes
/// it holds.
#[derive(Clone, Copy, Debug, PartialEq, Eq, Structural)]
pub struct Frame {
    pub serial: u64,
    pub width: u32,
    pub height: u32,
    pub bytes: usize,
}

/// Whether the bytes are enough for a picture of four bytes a pixel.
pub open spec fn whole(f: Frame) -> bool {
    f.width * f.height * 4 <= f.bytes
}

/// Whether a frame is worth taking while the one numbered `shown` is on screen.
pub open spec fn fresh(shown: Option<u64>, f: Frame) -> bool {
    shown != Some(f.serial) && whole(f)
}

/// What the embedded view remembers between frames.
#[derive(Debug)]
pub struct Android {
    /// A compositor has been started. It may have ended since.
    pub started: bool,
    /// The serial number of the frame on screen.
    pub shown: Option<u64>,
    /// Chrome hidden, Android filling the window.
    pub immersive: bool,
    pub error: Option<String>,
}

impl Default for Android {
    fn default() -> (r: Android)
        ensures
            !r.started,
            r.shown is None,
            !r.immersive,
            r.error is None,
    {
        Android { started: false, shown: None, immersive: false, error: None }
    }
}

impl Android {
    /// Whether Android is drawing; `alive` is what the compositor, where there is
    /// one, says of itself.
    pub fn running(&self, alive: bool) -> (r: bool)
        ensures
            r == (self.started && alive),
    {
        self.started && alive
    }

    /// Whether the compositor is to be started: not while Android is drawing.
    pub fn wants_start(&self, alive: bool) -> (r: bool)
        ensures
            r == !(self.started && alive),
    {
        !self.running(alive)
    }

    /// Takes in the outcome of starting the compositor.
    pub fn start(&mut self, outcome: Result<(), String>)
        ensures
            match outcome {
                Ok(_) => *final(self) == (Android { started: true, error: None, ..*old(self) }),
                Err(e) => *final(self) == (Android { error: Some(e), ..*old(self) }),
            },
    {
        match outcome {
            Ok(_) => {
                self.started = true;
                self.error = None;
            },
            Err(e) => {
                self.error = Some(e);
            },
        }
    }

    /// Picks up a new frame, if there is one. Says whether the picture changed:
    /// converting costs a copy, and a frame already on screen would pay it for
    /// nothing.
    pub fn poll(&mut self, frame: Option<Frame>) -> (r: bool)
        ensures
            r == match frame {
                Some(f) => old(self).started && fresh(old(self).shown, f),
                None => false,
            },
            *final(self) == (if r {
                Android { shown: Some(frame->0.serial), ..*old(self) }
            } else {
                *old(self)
            }),
    {
        if !self.started {
            return false;
        }
        let f: Frame = match frame {
            Some(f) => f,
            None => {
                return false;
            },
        };
        match self.shown {
            Some(s) => {
                if s == f.serial {
                    return false;
                }
            },
            None => {},
        }
        assert(f.width * f.height <= 0xffff_ffff * 0xffff_ffff) by (nonlinear_arith)
            requires
                f.width <= 0xffff_ffff,
                f.height <= 0xffff_ffff,
        ;
        let pixels: u128 = f.width as u128 * f.height as u128;
        if pixels * 4 > f.bytes as u128 {
            return false;
        }
        self.shown = Some(f.serial);
        true
    }

    /// How big the compositor is to draw, where there is one; `width` and
    /// `height` are the view's, cut to whole pixels. Never less than one.
    pub fn resize(&self, width: i32, height: i32) -> (r: Option<(i32, i32)>)
        ensures
            r == (if self.started {
                Some(
                    (
                        if width < 1 {
                            1
                        } else {
                            width
                        },
                        if height < 1 {
                            1
                        } else {
                            height
                        },
                    ),
                )
            } else {
                None
            }),
    {
        if !self.started {
            return None;
        }
        let w: i32 = if width < 1 {
            1
        } else {
            width
        };
        let h: i32 = if height < 1 {
            1
        } else {
            height
        };
        Some((w, h))
    }
}

/// What fills the picture.
#[derive(Debug)]
pub enum Body {
    Image,
    /// A title and a detail in its place.
    Message(&'static str, String),
}

/// What stands in for the picture until something connects.
pub open spec fn waiting_text() -> Seq<char> {
    "Nothing has connected yet. Start a session against this window:\nWAYLAND_DISPLAY="@ + SOCKET@
        + " waydroid session start"@
}

/// What fills the picture: why the compositor did not start, the last frame, or
/// how to bring one.
pub fn picture(a: &Android) -> (r: Body)
    ensures
        match r {
            Body::Image => a.error is None && a.shown is Some,
            Body::Message(title, detail) => match a.error {
                Some(why) => title@ == "The compositor did not start"@ && detail@ == why@,
                None => a.shown is None && title@ == "Waiting for Android"@ && detail@
                    == waiting_text(),
            },
        },
{
    match &a.error {
        Some(why) => Body::Message("The compositor did not start", why.clone()),
        None => match a.shown {
            Some(_) => Body::Image,
            None => {
                let detail: String = crate::say::cat3(
                    "Nothing has connected yet. Start a session against this window:\nWAYLAND_DISPLAY=",
                    SOCKET,
                    " waydroid session start",
                );
                Body::Message("Waiting for Android", detail)
            },
        },
    }
}

/// What a key does while the control editor is open.
#[derive(Clone, Copy, Debug, PartialEq, Eq, Structural)]
pub enum Command {
    /// Moves the selection by a step.
    Up,
    Down,
    Left,
    Right,
    /// Changes the size of the selection by a step.
    Smaller,
    Larger,
    Remove,
    /// Clears the selection and stops waiting for a key.
    Deselect,
    /// Becomes the binding.
    Bind,
}

/// What a key does in the editor.
pub open spec fn command_of(key: Seq<char>) -> Command {
    if key == "up"@ {
        Command::Up
    } else if key == "down"@ {
        Command::Down
    } else if key == "left"@ {
        Command::Left
    } else if key == "right"@ {
        Command::Right
    } else if key == "["@ || key == "leftbracket"@ {
        Command::Smaller
    } else if key == "]"@ || key == "rightbracket"@ {
        Command::Larger
    } else if key == "delete"@ || key == "backspace"@ {
        Command::Remove
    } else if key == "escape"@ {
        Command::Deselect
    } else {
        Command::Bind
    }
}

/// What a key does; nothing while the editor is closed.
///
/// The arrows are deliberately not bindable: they are how a control is put
/// exactly on a game button, and a click is only as accurate as the pointer.
pub fn on_key(editing: bool, key: &str) -> (r: Option<Command>)
    ensures
        r == (if editing {
            Some(command_of(key@))
        } else {
            None
        }),
{
    if !editing {
        return None;
    }
    let c: Command = if crate::text::same(key, "up") {
        Command::Up
    } else if crate::text::same(key, "down") {
        Command::Down
    } else if crate::text::same(key, "left") {
        Command::Left
    } else if crate::text::same(key, "right") {
        Command::Right
    } else if crate::text::same(key, "[") || crate::text::same(key, "leftbracket") {
        Command::Smaller
    } else if crate::text::same(key, "]") || crate::text::same(key, "rightbracket") {
        Command::Larger
    } else if crate::text::same(key, "delete") || crate::text::same(key, "backspace") {
        Command::Remove
    } else if crate::text::same(key, "escape") {
        Command::Deselect
    } else {
        Command::Bind
    };
    Some(c)
}

/// The game window.
#[derive(Debug)]
pub struct GameView {
    pub android: Android,
    pub mapper: Mapper,
    pub sidebar_open: bool,
    /// The package this window is showing, for the profile being edited.
    pub package: String,
    pub title: String,
}

impl GameView {
    pub fn new(package: String, title: String) -> (r: GameView)
        ensures
            !r.android.started,
            r.android.shown is None,
            !r.android.immersive,
            r.android.error is None,
            r.mapper.wf(),
            r.mapper.editing == crate::mapper::Editing::Off,
            r.mapper.profile is None,
            r.mapper.error is None,
            !r.mapper.saved,
            r.sidebar_open,
            r.package == package,
            r.title == title,
    {
        GameView {
            android: Android::default(),
            mapper: Mapper::default(),
            sidebar_open: true,
            package,
            title,
        }
    }

    /// Opens the control editor, and the panel with it, or closes the editor.
    pub fn toggle_mapping(&mut self, store: &Store)
        requires
            old(self).mapper.wf(),
            store.wf(),
            store@.known.contains_key(old(self).package@)
                ==> store@.known[old(self).package@].profile.bindings.wf(),
        ensures
            final(self).mapper.wf(),
            final(self).android == old(self).android,
            final(self).package == old(self).package,
            final(self).title == old(self).title,
            ({
                let was_on = old(self).mapper.editing != crate::mapper::Editing::Off;
                &&& final(self).mapper.editing == (if was_on {
                    crate::mapper::Editing::Off
                } else {
                    crate::mapper::Editing::Placing
                })
                &&& final(self).sidebar_open == (!was_on || old(self).sidebar_open)
                &&& was_on ==> final(self).mapper.profile is None && final(self).mapper.error
                    == old(self).mapper.error && final(self).mapper.saved == old(self).mapper.saved
                &&& !was_on ==> final(self).mapper.error is None && !final(self).mapper.saved
                &&& !was_on ==> match final(self).mapper.profile {
                    Some(p) => if store@.known.contains_key(old(self).package@) {
                        let known = store@.known[old(self).package@].profile;
                        &&& p.name@ == known.name@
                        &&& p.package@ == known.package@
                        &&& crate::profile::same_bindings(p.bindings@, known.bindings@)
                    } else {
                        &&& p.name@ == old(self).title@
                        &&& p.package@ == old(self).package@
                        &&& p.bindings@.len() == 0
                    },
                    None => false,
                }
            }),
    {
        if self.mapper.is_on() {
            self.mapper.end();
        } else {
            self.mapper.begin(store, self.package.as_str(), self.title.as_str());
            self.sidebar_open = true;
        }
    }
}

/// What the closed editor's panel says.
pub fn idle(running: bool) -> (r: &'static str)
    ensures
        r@ == (if running {
            "Android is drawing into this window."@
        } else {
            "Nothing is hosted yet."@
        }),
{
    if running {
        "Android is drawing into this window."
    } else {
        "Nothing is hosted yet."
    }
}

/// A frame is converted once: once it is on screen it is not worth taking.
pub proof fn law_a_frame_is_taken_once(shown: Option<u64>, f: Frame)
    requires
        fresh(shown, f),
    ensures
        !fresh(Some(f.serial), f),
{
}

/// A frame is shown once, and only if all of it is there: four bytes for each of
/// its points.
pub proof fn law_only_a_whole_new_frame_is_shown(shown: Option<u64>, f: Frame)
    ensures
        fresh(shown, f) <==> shown != Some(f.serial) && 4 * (f.width * f.height) <= f.bytes,
{
    assert(f.width * f.height * 4 == 4 * (f.width * f.height)) by (nonlinear_arith);
}

/// Each arrow key moves its own way, the brackets change the size each its own
/// way, delete and backspace remove, escape lets go, and any other key is bound.
pub proof fn law_keys_have_their_commands(key: Seq<char>)
    ensures
        command_of(key) == Command::Up <==> key == "up"@,
        command_of(key) == Command::Down <==> key == "down"@,
        command_of(key) == Command::Left <==> key == "left"@,
        command_of(key) == Command::Right <==> key == "right"@,
        command_of(key) == Command::Smaller <==> key == "["@ || key == "leftbracket"@,
        command_of(key) == Command::Larger <==> key == "]"@ || key == "rightbracket"@,
        command_of(key) == Command::Remove <==> key == "delete"@ || key == "backspace"@,
        command_of(key) == Command::Deselect <==> key == "escape"@,
{
    reveal_strlit("up");
    reveal_strlit("down");
    reveal_strlit("left");
    reveal_strlit("right");
    reveal_strlit("[");
    reveal_strlit("]");
    reveal_strlit("leftbracket");
    reveal_strlit("rightbracket");
    reveal_strlit("delete");
    reveal_strlit("backspace");
    reveal_strlit("escape");
    assert("up"@.len() == 2 && "down"@.len() == 4 && "left"@.len() == 4 && "right"@.len() == 5);
    assert("["@.len() == 1 && "]"@.len() == 1 && "leftbracket"@.len() == 11);
    assert("rightbracket"@.len() == 12 && "delete"@.len() == 6 && "backspace"@.len() == 9);
    assert("escape"@.len() == 6);
    assert("down"@[0] == 'd' && "left"@[0] == 'l' && "["@[0] == '[' && "]"@[0] == ']');
    assert("delete"@[0] == 'd' && "escape"@[0] == 'e');
}

} // verus!
