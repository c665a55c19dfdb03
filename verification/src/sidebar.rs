//! The rail beside the game, and the panel that opens from it.

use crate::mapper::{Editing, Mapper};
use crate::touch::Norm;
use vstd::prelude::*;
use vstd::string::*;

verus! {

/// Width of the always-visible strip, in pixels.
pub const RAIL_W: u32 = 44;

/// Width of the panel when it is open, in pixels.
pub const PANEL_W: u32 = 232;

/// How much horizontal room the sidebar takes from the picture.
pub fn width(open: bool) -> (r: u32)
    ensures
        r == (if open {
            RAIL_W + PANEL_W
        } else {
            RAIL_W as int
        }),
{
    if open {
        RAIL_W + PANEL_W
    } else {
        RAIL_W
    }
}

/// The glyph of the button that opens the panel, or closes it.
pub fn handle(open: bool) -> (r: &'static str)
    ensures
        r@ == (if open {
            "›"@
        } else {
            "‹"@
        }),
{
    if open {
        "›"
    } else {
        "‹"
    }
}

/// What the panel shows while nothing is being mapped.
pub fn idle_panel(running: bool) -> (r: Vec<String>)
    ensures
        crate::text::texts(r@) == seq![
            "GAME"@,
            if running {
                "Android is hosted in this window."@
            } else {
                "Nothing is hosted yet."@
            },
            "KEYS"@,
            "Press the keyboard button to place bindings on the picture: click where a button is, then press the key that should press it."@,
        ],
{
    let mut out: Vec<String> = crate::say::page();
    crate::say::say(&mut out, "GAME");
    let hosted: &'static str = if running {
        "Android is hosted in this window."
    } else {
        "Nothing is hosted yet."
    };
    crate::say::say(&mut out, hosted);
    crate::say::say(&mut out, "KEYS");
    crate::say::say(
        &mut out,
        "Press the keyboard button to place bindings on the picture: click where a button is, then press the key that should press it.",
    );
    assert(crate::text::texts(out@) =~= seq![
        "GAME"@,
        if running {
            "Android is hosted in this window."@
        } else {
            "Nothing is hosted yet."@
        },
        "KEYS"@,
        "Press the keyboard button to place bindings on the picture: click where a button is, then press the key that should press it."@,
    ]);
    out
}

/// What the panel shows while bindings are being placed.
#[derive(Debug)]
pub struct MappingPanel {
    pub note: &'static str,
    /// The bindings that stand at one place: name, place and key.
    pub rows: Vec<(String, Norm, String)>,
    /// What stands in place of the rows where there are none.
    pub empty: Option<&'static str>,
    pub error: Option<String>,
    /// What follows a save that went well.
    pub saved: Option<&'static str>,
}

pub fn mapping_panel(m: &Mapper) -> (r: MappingPanel)
    ensures
        r.note@ == (if m.editing is AwaitingKey {
            "Now press the key for that spot."@
        } else {
            "Click a button on the picture."@
        }),
        crate::mapper::shown(r.rows@) == (match m.profile {
            Some(p) => crate::mapper::markers_of(p.bindings@, p.bindings@.len() as int),
            None => Seq::empty(),
        }),
        crate::text::maybe(r.empty) == (if r.rows@.len() == 0 {
            Some("No bindings yet."@)
        } else {
            None
        }),
        crate::text::some_text(r.error) == crate::text::some_text(m.error),
        crate::text::maybe(r.saved) == (if m.saved {
            Some("Saved."@)
        } else {
            None
        }),
{
    let note: &'static str = match m.editing {
        Editing::AwaitingKey(_) => "Now press the key for that spot.",
        _ => "Click a button on the picture.",
    };
    let rows: Vec<(String, Norm, String)> = m.markers();
    let empty: Option<&'static str> = if rows.len() == 0 {
        Some("No bindings yet.")
    } else {
        None
    };
    let error: Option<String> = match &m.error {
        Some(e) => Some(e.clone()),
        None => None,
    };
    let saved: Option<&'static str> = if m.saved {
        Some("Saved.")
    } else {
        None
    };
    MappingPanel { note, rows, empty, error, saved }
}

} // verus!
