//! The mouse, as a finger.
//!
//! A click in the game window reaches Android through the touch pipe: a press
//! becomes a finger down, a drag a move, a release a finger up. Each action is a
//! frame of its own. What became of a frame is told with `sent`.

use crate::backend::BackendError;
use crate::num::{Num, ZERO_BITS};
use crate::touch::{Norm, TouchAction};
use crate::wl_touch::WlTouchBackend;
use vstd::prelude::*;
use vstd::string::*;

verus! {

/// The pointer id the mouse uses.
///
/// The engine's pool allocates from zero upward, so the highest id is the last
/// it will ever hand out. A profile holding ten bindings at once would still
/// take it.
pub const MOUSE_ID: u8 = 9;

/// Sends mouse presses into Android as touches.
#[derive(Debug)]
pub struct Touch {
    /// The pipe is open.
    ready: bool,
    /// A finger is currently down.
    down: bool,
    /// Why it is not working, if it is not. Shown rather than logged: a click
    /// that silently goes nowhere is the worst outcome here.
    pub error: Option<String>,
}

/// The state of the mouse as plain values.
#[verifier::ext_equal]
pub struct TouchView {
    pub ready: bool,
    pub down: bool,
    pub error: Option<Seq<char>>,
}

impl View for Touch {
    type V = TouchView;

    closed spec fn view(&self) -> TouchView {
        TouchView {
            ready: self.ready,
            down: self.down,
            error: crate::text::some_text(self.error),
        }
    }
}

impl TouchView {
    /// No finger is down without a pipe.
    pub open spec fn ok(self) -> bool {
        self.down ==> self.ready
    }

    /// What is sent for a press, and what follows. A finger that is still down
    /// is lifted first: Android holds a slot until it is lifted.
    pub open spec fn press(self, at: Norm) -> (TouchView, Seq<TouchAction>) {
        let down = TouchAction::Down { id: MOUSE_ID, at };
        if !self.ready {
            (
                TouchView {
                    error: match self.error {
                        Some(e) => Some(e),
                        None => Some("the touch pipe is not open — is the session running?"@),
                    },
                    ..self
                },
                Seq::empty(),
            )
        } else if self.down {
            (TouchView { down: false, ..self }, seq![TouchAction::Up { id: MOUSE_ID }, down])
        } else {
            (self, seq![down])
        }
    }

    /// What is sent for a drag. Android has no hover.
    pub open spec fn drag(self, at: Norm) -> Seq<TouchAction> {
        if self.down {
            seq![TouchAction::Move { id: MOUSE_ID, at }]
        } else {
            Seq::empty()
        }
    }

    /// What is sent for a release, and what follows.
    pub open spec fn release(self) -> (TouchView, Seq<TouchAction>) {
        if self.down {
            (TouchView { down: false, ..self }, seq![TouchAction::Up { id: MOUSE_ID }])
        } else {
            (self, Seq::empty())
        }
    }

    /// A frame was sent, or failed for a reason.
    pub open spec fn sent(self, a: TouchAction, failed: Option<Seq<char>>) -> TouchView {
        match failed {
            Some(why) => TouchView { error: Some(why), ..self },
            None => TouchView { down: self.down || (self.ready && a is Down), ..self },
        }
    }
}

impl Default for Touch {
    fn default() -> (r: Touch)
        ensures
            r@ == (TouchView { ready: false, down: false, error: None }),
    {
        Touch { ready: false, down: false, error: None }
    }
}

impl Touch {
    pub fn is_ready(&self) -> (r: bool)
        ensures
            r == self@.ready,
    {
        self.ready
    }

    pub fn is_down(&self) -> (r: bool)
        ensures
            r == self@.down,
    {
        self.down
    }

    /// Takes an already opened pipe to a display of `w` by `h` pixels. Gives the
    /// writer to use from now on, or keeps the one there was and says why.
    pub fn attach(&mut self, w: u32, h: u32) -> (r: Option<WlTouchBackend>)
        requires
            old(self)@.ok(),
        ensures
            final(self)@.ok(),
            r is Some <==> w > 0 && h > 0,
            match r {
                Some(b) => {
                    &&& b.wf()
                    &&& b.size_spec() == (w, h)
                    &&& final(self)@ == (TouchView { ready: true, error: None, ..old(self)@ })
                },
                None => final(self)@ == (TouchView {
                    error: Some(
                        "backend init failed: "@
                            + "display size is 0 — could not read waydroid.display_width/height"@,
                    ),
                    ..old(self)@
                }),
            },
    {
        match WlTouchBackend::with_size(w, h) {
            Ok(b) => {
                self.ready = true;
                self.error = None;
                Some(b)
            },
            Err(e) => {
                self.error = Some(e.message());
                None
            },
        }
    }

    /// Press at a position: the frames to send, in order.
    pub fn press(&mut self, at: Norm) -> (r: Vec<TouchAction>)
        requires
            old(self)@.ok(),
        ensures
            final(self)@.ok(),
            (final(self)@, r@) == old(self)@.press(at),
    {
        let mut out: Vec<TouchAction> = Vec::new();
        if !self.ready {
            match &self.error {
                Some(_) => {},
                None => {
                    self.error =
                    Some("the touch pipe is not open — is the session running?".to_owned());
                },
            }
            assert(self@ =~= old(self)@.press(at).0);
            return out;
        }
        if self.down {
            out.push(TouchAction::Up { id: MOUSE_ID });
            self.down = false;
        }
        out.push(TouchAction::Down { id: MOUSE_ID, at });
        assert(self@ =~= old(self)@.press(at).0);
        assert(out@ =~= old(self)@.press(at).1);
        out
    }

    /// Drag. Ignored when nothing is pressed.
    pub fn drag(&self, at: Norm) -> (r: Vec<TouchAction>)
        ensures
            r@ == self@.drag(at),
    {
        let mut out: Vec<TouchAction> = Vec::new();
        if self.down {
            out.push(TouchAction::Move { id: MOUSE_ID, at });
        }
        assert(out@ =~= self@.drag(at));
        out
    }

    pub fn release(&mut self) -> (r: Vec<TouchAction>)
        requires
            old(self)@.ok(),
        ensures
            final(self)@.ok(),
            (final(self)@, r@) == old(self)@.release(),
    {
        let mut out: Vec<TouchAction> = Vec::new();
        if self.down {
            out.push(TouchAction::Up { id: MOUSE_ID });
            self.down = false;
        }
        assert(self@ =~= old(self)@.release().0);
        assert(out@ =~= old(self)@.release().1);
        out
    }

    /// The window lost the game: the finger counts as lifted, whatever becomes of
    /// the lifts that the pipe's writer sends.
    pub fn release_all(&mut self)
        requires
            old(self)@.ok(),
        ensures
            final(self)@.ok(),
            final(self)@ == (TouchView { down: false, ..old(self)@ }),
    {
        self.down = false;
    }

    /// What became of a frame. A press holds only once it went out.
    pub fn sent(&mut self, a: &TouchAction, outcome: &Result<(), BackendError>)
        requires
            old(self)@.ok(),
        ensures
            final(self)@.ok(),
            final(self)@ == old(self)@.sent(
                *a,
                match outcome {
                    Ok(_) => None,
                    Err(e) => Some(e.text()),
                },
            ),
    {
        match outcome {
            Ok(_) => match a {
                TouchAction::Down { .. } => {
                    if self.ready {
                        self.down = true;
                    }
                },
                _ => {},
            },
            Err(e) => {
                self.error = Some(e.message());
            },
        }
    }
}

/// A click in the picture as a position on the Android screen.
///
/// `width` and `height` are what the picture is shown at, `x` and `y` the click
/// relative to its top-left corner, divided by them. A click in the letterboxing
/// is beside the game, not on it: clamping would send a touch to the edge of the
/// screen.
pub fn to_norm(width: Num, height: Num, x: Num, y: Num) -> (r: Option<Norm>)
    ensures
        r == (if crate::mapper::Mapper::on_picture(width, height, x, y) {
            Some(Norm::new_spec(x, y))
        } else {
            None
        }),
{
    let zero: Num = Num::of(ZERO_BITS);
    if width.at_most(zero) || height.at_most(zero) {
        return None;
    }
    if Norm::unclamped(x, y).is_offscreen() {
        return None;
    }
    Some(Norm::new(x, y))
}

/// The fingers the mouse has put down on a screen after the frames of a press,
/// a release or a drag that all went out.
pub open spec fn mouse_down(v: TouchView) -> Set<u8> {
    if v.down {
        set![MOUSE_ID]
    } else {
        Set::empty()
    }
}

/// As long as every frame goes out, the finger the mouse thinks is down is the
/// one Android sees, through presses and releases in any order.
pub proof fn law_the_mouse_holds_what_android_sees(v: TouchView, at: Norm)
    requires
        v.ok(),
        v.ready,
    ensures
        ({
            let (after, acts) = v.press(at);
            let told = after.sent(acts.last(), None);
            crate::touch::fingers_after(mouse_down(v), acts) =~= mouse_down(told)
        }),
        ({
            let (after, acts) = v.release();
            crate::touch::fingers_after(mouse_down(v), acts) =~= mouse_down(after)
        }),
        crate::touch::fingers_after(mouse_down(v), v.drag(at)) =~= mouse_down(v),
{
    reveal_with_fuel(crate::touch::fingers_after, 3);
    let acts = v.press(at).1;
    assert(acts.len() <= 2);
    if v.down {
        assert(acts.drop_last() =~= seq![TouchAction::Up { id: MOUSE_ID }]);
        assert(acts.drop_last().drop_last() =~= Seq::<TouchAction>::empty());
        assert(v.release().1.drop_last() =~= Seq::<TouchAction>::empty());
        assert(v.drag(at).drop_last() =~= Seq::<TouchAction>::empty());
    } else {
        assert(acts.drop_last() =~= Seq::<TouchAction>::empty());
    }
}

/// A press puts the mouse's finger down where it was made; one that is still down
/// is lifted first. Without an open pipe nothing goes out, and that is said, unless
/// there is something to say already.
pub proof fn law_a_press_lands_where_it_was_made(v: TouchView, at: Norm)
    ensures
        ({
            let (w, acts) = v.press(at);
            &&& v.ready ==> acts.len() == (if v.down {
                2int
            } else {
                1
            }) && acts.last() == (TouchAction::Down { id: 9, at }) && w.error == v.error
            &&& v.ready && v.down ==> acts[0] == (TouchAction::Up { id: 9 })
            &&& !v.ready ==> acts.len() == 0 && w.down == v.down && w.error is Some && (
            v.error is Some ==> w.error == v.error)
            &&& v.ready ==> !w.down
            &&& w.ready == v.ready
        }),
{
}

/// A drag moves a finger that is down to where the mouse is, and nothing else. A
/// release lifts it, and a second one does nothing.
pub proof fn law_a_drag_follows_and_a_release_lifts(v: TouchView, at: Norm)
    ensures
        v.down ==> v.drag(at) == seq![TouchAction::Move { id: 9, at }],
        !v.down ==> v.drag(at).len() == 0,
        v.down ==> v.release().1 == seq![TouchAction::Up { id: 9u8 }],
        !v.down ==> v.release().1.len() == 0,
        !v.release().0.down,
        v.release().0.ready == v.ready,
        v.release().0.error == v.error,
        v.release().0.release() == (v.release().0, Seq::<TouchAction>::empty()),
{
}

/// The mouse's finger counts as down once a press went out, and not before. What
/// did not go out leaves its reason and changes nothing else.
pub proof fn law_only_what_went_out_counts(v: TouchView, a: TouchAction, why: Option<Seq<char>>)
    ensures
        why is Some ==> v.sent(a, why) == (TouchView { error: why, ..v }),
        why is None ==> v.sent(a, why).error == v.error && v.sent(a, why).ready == v.ready,
        why is None && v.ready && a is Down ==> v.sent(a, why).down,
        why is None && !(v.ready && a is Down) ==> v.sent(a, why).down == v.down,
{
}

} // verus!
