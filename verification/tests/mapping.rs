use liwinux::by_name::ByName;
use liwinux::game::{
    idle, on_key, picture, sidebar_width, taken, Android, Body, Command, Frame, GameView, PANEL_W,
    RAIL_W, SOCKET,
};
use liwinux::mapper::{trigger_label, unique_name, Editing, Mapper};
use liwinux::mouse::{to_norm, Touch, MOUSE_ID};
use liwinux::num::Num;
use liwinux::profile::{Binding, Profile, Trigger};
use liwinux::sidebar;
use liwinux::store::Store;
use liwinux::touch::{Norm, TouchAction, MAX_POINTERS};

fn n(v: f32) -> Num {
    Num::of(v.to_bits())
}

fn norm(x: f32, y: f32) -> Norm {
    Norm::new(n(x), n(y))
}

/// A click given in pixels, the way a view reports it.
fn place(m: &mut Mapper, p: (f32, f32), shown: (f32, f32)) -> bool {
    m.place(n(shown.0), n(shown.1), n(p.0 / shown.0), n(p.1 / shown.1))
}

fn click(p: (f32, f32), shown: (f32, f32)) -> Option<Norm> {
    to_norm(n(shown.0), n(shown.1), n(p.0 / shown.0), n(p.1 / shown.1))
}

fn editing_profile() -> Mapper {
    Mapper {
        editing: Editing::Placing,
        profile: Some(Profile {
            name: "t".into(),
            package: "com.x".into(),
            bindings: ByName::new(),
        }),
        ..Default::default()
    }
}

// ------------------------------------------------------------------ editor

#[test]
fn a_click_becomes_a_normalised_point() {
    let mut m = editing_profile();
    assert!(place(&mut m, (640.0, 360.0), (1280.0, 720.0)));
    assert_eq!(m.editing, Editing::AwaitingKey(norm(0.5, 0.5)));
}

#[test]
fn a_click_outside_the_picture_is_ignored() {
    let mut m = editing_profile();
    assert!(!place(&mut m, (1400.0, 360.0), (1280.0, 720.0)));
    assert_eq!(m.editing, Editing::Placing, "still waiting for a real click");
}

#[test]
fn nothing_is_placed_while_not_editing() {
    let mut m = Mapper::default();
    assert!(!place(&mut m, (10.0, 10.0), (100.0, 100.0)));
}

#[test]
fn a_key_binds_to_the_placed_point() {
    let mut m = editing_profile();
    place(&mut m, (320.0, 180.0), (1280.0, 720.0));
    let name = m.assign("w").expect("w is mappable");
    assert_eq!(name, "W");
    let b = m.profile.as_ref().unwrap().bindings.get("W").unwrap();
    assert!(matches!(b, Binding::Tap { trigger: Trigger::Key(17), .. }));
}

#[test]
fn binding_returns_to_placing() {
    let mut m = editing_profile();
    place(&mut m, (10.0, 10.0), (100.0, 100.0));
    m.assign("a");
    assert_eq!(m.editing, Editing::Placing);
}

#[test]
fn an_unmappable_key_leaves_the_point_waiting() {
    let mut m = editing_profile();
    place(&mut m, (10.0, 10.0), (100.0, 100.0));
    assert_eq!(m.assign("printscreen"), None);
    assert!(matches!(m.editing, Editing::AwaitingKey(_)));
}

#[test]
fn a_key_with_nothing_placed_does_nothing() {
    let mut m = editing_profile();
    assert_eq!(m.assign("w"), None);
}

#[test]
fn the_same_key_twice_gets_a_second_name() {
    let mut m = editing_profile();
    place(&mut m, (10.0, 10.0), (100.0, 100.0));
    assert_eq!(m.assign("w").unwrap(), "W");
    place(&mut m, (20.0, 20.0), (100.0, 100.0));
    assert_eq!(m.assign("w").unwrap(), "W 2");
    assert_eq!(m.profile.unwrap().bindings.len(), 2);
}

#[test]
fn removing_forgets_the_binding() {
    let mut m = editing_profile();
    place(&mut m, (10.0, 10.0), (100.0, 100.0));
    let name = m.assign("w").unwrap();
    m.remove(&name);
    assert!(m.profile.unwrap().bindings.is_empty());
}

fn aim() -> Binding {
    Binding::Aim {
        toggle: None,
        origin: norm(0.5, 0.5),
        sensitivity: n(1.0),
        deadzone: n(0.0),
        recenter_margin: n(0.08),
        handoff: false,
        nonlinear: true,
        reset_delay_ms: 20,
        unbounded: true,
        safety_span: n(1.0),
    }
}

#[test]
fn only_positioned_buttons_get_markers() {
    let mut m = editing_profile();
    let p = m.profile.as_mut().unwrap();
    p.bindings.insert("W", Binding::Tap { trigger: Trigger::Key(17), at: norm(0.1, 0.2) });
    p.bindings.insert("aim", aim());
    let m = m.markers();
    assert_eq!(m.len(), 1);
    assert_eq!(m[0].0, "W");
    assert_eq!(m[0].2, "W");
}

#[test]
fn editing_is_off_until_it_begins() {
    let m = Mapper::default();
    assert!(!m.is_on());
    assert!(m.markers().is_empty());
}

#[test]
fn names_are_numbered_past_the_taken_ones() {
    let mut m = editing_profile();
    let p = m.profile.as_mut().unwrap();
    p.bindings.insert("W", aim());
    p.bindings.insert("W 2", aim());
    assert_eq!(unique_name(p, "W"), "W 3");
    assert_eq!(unique_name(p, "A"), "A");
    assert_eq!(trigger_label(&Trigger::Key(17)), "W");
}

#[test]
fn a_failed_save_says_why() {
    let mut m = editing_profile();
    m.on_saved(Err("disk full".into()));
    assert_eq!(m.error.as_deref(), Some("could not save: disk full"));
    assert!(!m.saved);
    m.on_saved(Ok(()));
    assert!(m.saved && m.error.is_none());
}

// ------------------------------------------------------------------ mouse

#[test]
fn a_click_in_the_picture_becomes_a_position() {
    let at = click((640.0, 360.0), (1280.0, 720.0)).unwrap();
    assert_eq!(at, norm(0.5, 0.5));
}

#[test]
fn a_click_in_the_letterboxing_is_not_a_touch() {
    assert!(click((1400.0, 10.0), (1280.0, 720.0)).is_none());
    assert!(click((10.0, -5.0), (1280.0, 720.0)).is_none());
}

#[test]
fn a_picture_with_no_size_yields_nothing() {
    assert!(click((1.0, 1.0), (0.0, 0.0)).is_none());
}

#[test]
fn the_corners_are_inside() {
    assert_eq!(click((0.0, 0.0), (100.0, 100.0)), Some(norm(0.0, 0.0)));
    assert_eq!(click((100.0, 100.0), (100.0, 100.0)), Some(norm(1.0, 1.0)));
}

#[test]
fn the_mouse_uses_the_id_the_pool_reaches_last() {
    assert_eq!(MOUSE_ID as usize, MAX_POINTERS - 1);
}

#[test]
fn a_press_without_a_pipe_reports_why() {
    let mut t = Touch::default();
    assert!(t.press(norm(0.5, 0.5)).is_empty());
    assert!(!t.is_down(), "no finger can be down without a pipe");
    assert!(t.error.is_some());
    assert_eq!(
        t.error.as_deref(),
        Some("the touch pipe is not open — is the session running?")
    );
}

#[test]
fn dragging_without_a_press_does_nothing() {
    let t = Touch::default();
    assert!(t.drag(norm(0.5, 0.5)).is_empty());
    assert!(!t.is_down());
}

#[test]
fn releasing_what_was_never_pressed_is_harmless() {
    let mut t = Touch::default();
    assert!(t.release().is_empty());
    assert!(!t.is_down());
}

#[test]
fn nothing_is_ready_before_a_pipe_arrives() {
    assert!(!Touch::default().is_ready());
}

#[test]
fn a_press_holds_once_it_went_out() {
    let at = norm(0.25, 0.75);
    let mut t = Touch::default();
    assert!(t.attach(0, 720).is_none());
    assert_eq!(
        t.error.as_deref(),
        Some(
            "backend init failed: display size is 0 — could not read \
             waydroid.display_width/height"
        )
    );
    assert!(t.attach(1280, 720).is_some());
    assert!(t.is_ready() && t.error.is_none());

    let acts = t.press(at);
    assert_eq!(acts, vec![TouchAction::Down { id: MOUSE_ID, at }]);
    assert!(!t.is_down());
    t.sent(&acts[0], &Ok(()));
    assert!(t.is_down());
    assert_eq!(t.drag(at), vec![TouchAction::Move { id: MOUSE_ID, at }]);

    let again = t.press(at);
    assert_eq!(
        again,
        vec![TouchAction::Up { id: MOUSE_ID }, TouchAction::Down { id: MOUSE_ID, at }]
    );
    t.sent(&again[0], &Ok(()));
    t.sent(&again[1], &Err(liwinux::backend::BackendError::Dispatch("gone".into())));
    assert!(!t.is_down());
    assert_eq!(t.error.as_deref(), Some("touch dispatch failed: gone"));
    assert!(t.release().is_empty());
}

// ------------------------------------------------------------------ game window

#[test]
fn nothing_is_running_before_it_starts() {
    let a = Android::default();
    assert!(!a.running(true));
    assert!(a.shown.is_none());
}

#[test]
fn polling_without_a_compositor_is_quiet() {
    let mut a = Android::default();
    assert!(!a.poll(None));
    assert!(!a.poll(Some(Frame { serial: 1, width: 1, height: 1, bytes: 4 })));
}

#[test]
fn resizing_before_start_is_harmless() {
    let a = Android::default();
    assert_eq!(a.resize(800, 600), None);
}

#[test]
fn the_socket_name_matches_what_the_view_tells_people_to_type() {
    assert_eq!(SOCKET, "wayland-liw");
    match picture(&Android::default()) {
        Body::Message(title, detail) => {
            assert_eq!(title, "Waiting for Android");
            assert_eq!(
                detail,
                "Nothing has connected yet. Start a session against this window:\n\
                 WAYLAND_DISPLAY=wayland-liw waydroid session start"
            );
        }
        other => panic!("{other:?}"),
    }
}

#[test]
fn the_panel_widens_the_sidebar() {
    assert_eq!(sidebar_width(false), RAIL_W);
    assert_eq!(sidebar_width(true), RAIL_W + PANEL_W);
    assert_eq!(taken(true, true), 0);
}

#[test]
fn the_rail_never_disappears() {
    assert!(sidebar_width(false) > 0);
}

#[test]
fn the_open_panel_is_wider_than_the_rail_alone() {
    assert_eq!(sidebar::width(false), sidebar::RAIL_W);
    assert_eq!(sidebar::width(true), sidebar::RAIL_W + sidebar::PANEL_W);
    assert!(sidebar::width(true) > sidebar::width(false));
}

#[test]
fn collapsing_leaves_the_rail_reachable() {
    assert!(sidebar::width(false) > 0);
    assert_eq!((sidebar::handle(true), sidebar::handle(false)), ("›", "‹"));
}

#[test]
fn a_frame_on_screen_is_not_taken_again() {
    let mut a = Android::default();
    a.start(Err("socket in use".into()));
    assert_eq!(a.error.as_deref(), Some("socket in use"));
    assert!(matches!(
        picture(&a),
        Body::Message("The compositor did not start", ref why) if why == "socket in use"
    ));
    a.start(Ok(()));
    assert!(a.running(true) && !a.running(false) && a.error.is_none());
    let f = Frame { serial: 7, width: 2, height: 3, bytes: 24 };
    assert!(!a.poll(Some(Frame { bytes: 23, ..f })), "too few bytes for the picture");
    assert!(a.poll(Some(f)));
    assert!(!a.poll(Some(f)));
    assert!(a.poll(Some(Frame { serial: 8, ..f })));
    assert!(matches!(picture(&a), Body::Image));
    assert_eq!(a.resize(0, -5), Some((1, 1)));
    assert_eq!(a.resize(1280, 720), Some((1280, 720)));
    assert_eq!(idle(true), "Android is drawing into this window.");
}

#[test]
fn editor_keys_nudge_size_and_bind() {
    assert_eq!(on_key(false, "up"), None);
    for (key, c) in [
        ("up", Command::Up),
        ("down", Command::Down),
        ("left", Command::Left),
        ("right", Command::Right),
        ("[", Command::Smaller),
        ("leftbracket", Command::Smaller),
        ("]", Command::Larger),
        ("delete", Command::Remove),
        ("backspace", Command::Remove),
        ("escape", Command::Deselect),
        ("w", Command::Bind),
    ] {
        assert_eq!(on_key(true, key), Some(c), "{key}");
    }
}

#[test]
fn toggling_the_editor_opens_its_panel() {
    let store = Store::new();
    let mut v = GameView::new("com.x".into(), "X".into());
    v.sidebar_open = false;
    v.toggle_mapping(&store);
    assert!(v.mapper.is_on() && v.sidebar_open);
    assert_eq!(v.mapper.profile.as_ref().unwrap().name, "X");
    v.mapper.error = Some("disk full".into());
    v.mapper.saved = true;
    v.toggle_mapping(&store);
    assert!(!v.mapper.is_on());
    assert_eq!(v.mapper.error.as_deref(), Some("disk full"), "closing forgets nothing");
    assert!(v.mapper.saved);
    v.toggle_mapping(&store);
    assert_eq!(v.mapper.error, None, "opening starts afresh");
    assert!(!v.mapper.saved);
}

#[test]
fn the_panel_lists_what_is_bound() {
    let mut m = editing_profile();
    let p = sidebar::mapping_panel(&m);
    assert_eq!(p.note, "Click a button on the picture.");
    assert_eq!(p.empty, Some("No bindings yet."));
    place(&mut m, (10.0, 10.0), (100.0, 100.0));
    assert_eq!(sidebar::mapping_panel(&m).note, "Now press the key for that spot.");
    m.assign("w");
    m.saved = true;
    let p = sidebar::mapping_panel(&m);
    assert_eq!(p.rows.len(), 1);
    assert_eq!((p.empty, p.saved), (None, Some("Saved.")));
    assert_eq!(sidebar::idle_panel(false)[1], "Nothing is hosted yet.");
}

#[test]
fn android_is_not_started_twice() {
    let mut a = Android::default();
    assert!(a.wants_start(false) && a.wants_start(true));
    a.start(Ok(()));
    assert!(!a.wants_start(true));
    assert!(a.wants_start(false));
}
