use liwinux::by_name::ByName;
use liwinux::num::Num;
use liwinux::profile::{Binding, Easing, Flaw, Profile, ProfileError, Trigger};
use liwinux::render::{fields, numbers, plan_render, render, Edit, Shape};
use liwinux::store::{
    bundled_candidates, default_dirs, is_profile_file, join_path, user_profile_dir, BadProfile,
    Entry, Load, Origin, Store,
};
use liwinux::touch::Norm;

fn n(v: f32) -> Num {
    Num::of(v.to_bits())
}

fn f(v: Num) -> f32 {
    f32::from_bits(v.bits)
}

fn norm(x: f32, y: f32) -> Norm {
    Norm::new(n(x), n(y))
}

fn tap(code: u16, x: f32, y: f32) -> Binding {
    Binding::Tap { trigger: Trigger::Key(code), at: norm(x, y) }
}

fn swipe(code: u16) -> Binding {
    Binding::Swipe {
        trigger: Trigger::Key(code),
        from: norm(0.5, 0.5),
        to: norm(0.2, 0.5),
        duration_ms: 80,
        group: None,
        easing: Easing::default(),
    }
}

fn profile(name: &str, package: &str, bindings: Vec<(&str, Binding)>) -> Profile {
    let mut b = ByName::new();
    for (k, v) in bindings {
        b.insert(k, v);
    }
    Profile { name: name.into(), package: package.into(), bindings: b }
}

/// The shortest text a number reads back from.
fn short(v: Num) -> String {
    let d: f64 = f(v).to_string().parse().unwrap();
    toml_edit::Value::from(d).to_string()
}

fn shown(p: &Profile) -> Vec<Vec<String>> {
    (0..p.bindings.len())
        .map(|i| numbers(&p.bindings.at(i).1).into_iter().map(short).collect())
        .collect()
}

fn rendered(existing: Option<&str>, p: &Profile) -> Result<String, ProfileError> {
    render(existing, p, &shown(p))
}

fn message(e: ProfileError) -> String {
    let radius = match &e {
        ProfileError::Invalid(Flaw::Radius { radius, .. }) => f(*radius).to_string(),
        _ => String::new(),
    };
    e.message(&radius)
}

// ------------------------------------------------------------------ profiles

fn sample() -> Profile {
    profile("Subway Surfers", "com.kiloo.subwaysurf", vec![("sol", swipe(30)), ("zipla", swipe(57))])
}

#[test]
fn parses_a_real_profile() {
    let p = sample();
    assert!(p.validate().is_ok());
    assert_eq!(p.package, "com.kiloo.subwaysurf");
    assert_eq!(p.bindings.len(), 2);
}

#[test]
fn rejects_duplicate_trigger() {
    let p = profile("S", "com.kiloo.subwaysurf", vec![("sol", swipe(30)), ("zipla", swipe(30))]);
    let err = message(p.validate().unwrap_err());
    assert!(err.contains("duplicate trigger"), "{err}");
    assert_eq!(err, "invalid profile: duplicate trigger in two bindings: 'sol' and 'zipla'");
}

#[test]
fn accepts_profile_with_more_bindings_than_pointers() {
    let names: Vec<String> = (0..15).map(|i| format!("b{i}")).collect();
    let b = names.iter().enumerate().map(|(i, s)| (s.as_str(), tap(100 + i as u16, 0.5, 0.5)));
    let p = profile("many", "p", b.collect());
    assert!(p.validate().is_ok(), "15 bindings must not be rejected");
    assert_eq!(p.bindings.len(), 15);
}

#[test]
fn rejects_empty_profile() {
    let err = message(profile("x", "y", vec![]).validate().unwrap_err());
    assert!(err.contains("no bindings"));
}

fn joystick(radius: f32) -> Binding {
    Binding::Joystick {
        up: Trigger::Key(17),
        down: Trigger::Key(31),
        left: Trigger::Key(30),
        right: Trigger::Key(32),
        center: norm(0.2, 0.7),
        radius: n(radius),
    }
}

#[test]
fn rejects_out_of_range_joystick_radius() {
    for bad in [0.9, -0.1, 0.51, f32::NAN] {
        let err = message(profile("t", "p", vec![("hareket", joystick(bad))]).validate().unwrap_err());
        assert!(err.contains("radius"), "{err}");
    }
    for fine in [0.0, 0.1, 0.5] {
        assert!(profile("t", "p", vec![("hareket", joystick(fine))]).validate().is_ok());
    }
    let err = message(profile("t", "p", vec![("hareket", joystick(0.9))]).validate().unwrap_err());
    assert_eq!(err, "invalid profile: joystick radius of 'hareket' must be within 0..0.5, got 0.9");
}

#[test]
fn easing_defaults_to_linear_when_absent() {
    match sample().bindings.get("sol").unwrap() {
        Binding::Swipe { easing, .. } => assert_eq!(*easing, Easing::Linear),
        other => panic!("a swipe was expected: {other:?}"),
    }
}

#[test]
fn joystick_reports_all_four_triggers() {
    assert_eq!(joystick(0.1).triggers().len(), 4);
    assert_eq!(joystick(0.1).triggers()[2], Trigger::Key(30));
}

// ------------------------------------------------------------------ the store

fn entry(path: &str, package: &str, code: u16, origin: Origin) -> Entry {
    Entry {
        profile: profile(path, package, vec![("zipla", tap(code, 0.5, 0.5))]),
        path: path.into(),
        origin,
    }
}

#[test]
fn finds_profile_by_package() {
    let mut s = Store::new();
    s.add(entry("/sys/x.toml", "com.example.game", 17, Origin::System));
    assert!(s.for_package("com.example.game").is_some());
    assert!(s.for_package("com.absent").is_none());
}

#[test]
fn user_profile_shadows_system() {
    let mut s = Store::new();
    s.add(entry("/usr/g.toml", "com.example.game", 30, Origin::User));
    s.add(entry("/sys/g.toml", "com.example.game", 17, Origin::System));
    assert_eq!(s.for_package("com.example.game").unwrap().origin, Origin::User);
}

#[test]
fn precedence_independent_of_scan_order() {
    let mut s = Store::new();
    s.add(entry("/sys/g.toml", "com.example.game", 17, Origin::System));
    s.add(entry("/usr/g.toml", "com.example.game", 30, Origin::User));
    assert_eq!(s.for_package("com.example.game").unwrap().origin, Origin::User);
    assert!(s.problems().is_empty(), "shadowing is no problem");
}

#[test]
fn broken_profile_is_reported_and_others_still_load() {
    let mut s = Store::new();
    s.add(entry("/d/good.toml", "com.example.good", 17, Origin::System));
    s.reject("/d/broken.toml", "not valid");
    assert!(s.for_package("com.example.good").is_some(), "the good profile must load");
    assert_eq!(s.problems().len(), 1, "the broken profile must be reported");
    assert!(s.problems()[0].path.ends_with("broken.toml"));
}

#[test]
fn same_package_collision_is_reported_deterministically() {
    let a = || entry("/d/a-wasd.toml", "com.example.game", 17, Origin::System);
    let b = || entry("/d/b-arrows.toml", "com.example.game", 103, Origin::System);
    let mut s1 = Store::new();
    s1.add(a());
    s1.add(b());
    let mut s2 = Store::new();
    s2.add(b());
    s2.add(a());
    assert_eq!(s1.len(), 1);
    assert_eq!(s1.problems().len(), 1, "the collision must be reported");
    assert_eq!(s1.for_package("com.example.game").unwrap().path, "/d/a-wasd.toml");
    assert_eq!(
        s1.for_package("com.example.game").unwrap().path,
        s2.for_package("com.example.game").unwrap().path,
        "the choice must be reproducible"
    );
}

/// Paths are ordered by their components, not by their characters.
#[test]
fn collisions_follow_path_order() {
    let mut s = Store::new();
    s.add(entry("/d/x-y/a.toml", "p", 17, Origin::System));
    s.add(entry("/d/x/b.toml", "p", 18, Origin::System));
    assert_eq!(s.for_package("p").unwrap().path, "/d/x/b.toml");
    assert!("/d/x-y/a.toml" < "/d/x/b.toml", "characters would say otherwise");
}

#[test]
fn non_toml_files_are_ignored() {
    assert!(is_profile_file("g.toml"));
    assert!(!is_profile_file("notes.txt"));
    assert!(!is_profile_file(".toml"));
    assert!(!is_profile_file("toml"));
}

#[test]
fn user_dir_has_highest_priority_in_defaults() {
    let u = user_profile_dir(None, Some("/home/me"));
    assert_eq!(u.as_deref(), Some("/home/me/.config/liwinux/profiles"));
    let dirs = default_dirs(u.clone(), Some("/repo/profiles".into()), Some("/extra".into()));
    assert_eq!(dirs.first().map(|(p, _)| p.clone()), u, "the user directory must come first");
    assert_eq!(
        dirs[1..],
        [
            ("/usr/share/liwinux/profiles".to_string(), Origin::System),
            ("/repo/profiles".to_string(), Origin::Bundled),
            ("/extra".to_string(), Origin::User),
        ]
    );
    assert_eq!(user_profile_dir(Some("/x"), Some("/home/me")).as_deref(), Some("/x/liwinux/profiles"));
    assert_eq!(user_profile_dir(None, None), None);
}

#[test]
fn missing_directory_is_not_an_error() {
    // `/olmayan/dizin` is not there, so there is no listing of it.
    let s = Store::from_dirs(vec![None]);
    assert!(s.is_empty());
    assert!(s.problems().is_empty());
}

#[test]
fn the_order_of_reading_does_not_choose() {
    let good = |path: &str, code: u16, o: Origin| Load::Good(entry(path, "com.x", code, o));
    let bad = || Load::Bad(BadProfile { path: "/u/broken.toml".into(), error: "no".into() });
    let forward = Store::from_dirs(vec![
        Some(vec![good("/u/b.toml", 1, Origin::User), bad(), good("/u/a.toml", 2, Origin::User)]),
        None,
        Some(vec![good("/s/0.toml", 3, Origin::System)]),
    ]);
    let backward = Store::from_dirs(vec![
        Some(vec![good("/s/0.toml", 3, Origin::System)]),
        Some(vec![good("/u/a.toml", 2, Origin::User), bad(), good("/u/b.toml", 1, Origin::User)]),
    ]);
    for s in [&forward, &backward] {
        assert_eq!(s.for_package("com.x").unwrap().path, "/u/a.toml");
        assert!(s.problems().iter().any(|b| b.path == "/u/broken.toml" && b.error == "no"));
        assert!(s.problems().iter().any(|b| b.path == "/u/b.toml"));
        assert!(!s.problems().iter().any(|b| b.path == "/u/a.toml"));
    }
}

#[test]
fn joining_agrees_with_the_standard_library() {
    for d in ["", "/", "/a", "/a/", "b"] {
        for x in ["c", "c.toml", "/abs", "d/e"] {
            assert_eq!(join_path(d, x), std::path::Path::new(d).join(x).to_str().unwrap());
        }
    }
    let near = bundled_candidates("/opt/liw/target/release/liw");
    assert_eq!(near[0], "/opt/liw/target/release/profiles");
    assert_eq!(near[1], "/opt/liw/target/profiles");
}

#[test]
fn saves_shadow_what_is_not_the_users() {
    let mut s = Store::new();
    s.add(entry("/usr/share/g.toml", "com.sys", 17, Origin::System));
    s.add(entry("/home/me/mine.toml", "com.mine", 18, Origin::User));
    assert_eq!(s.save_target("com.mine", Some("/u")).as_deref(), Some("/home/me/mine.toml"));
    assert_eq!(s.save_target("com.sys", Some("/u")).as_deref(), Some("/u/com.sys.toml"));
    assert_eq!(s.save_target("com.new", Some("/u")).as_deref(), Some("/u/com.new.toml"));
    assert_eq!(s.save_target("com.new", None), None);
    assert_eq!(s.save_seed("com.sys").as_deref(), Some("/usr/share/g.toml"));
    assert_eq!(s.save_seed("com.new"), None);
}

#[test]
fn only_user_profiles_are_deleted() {
    let mut s = Store::new();
    s.add(entry("/usr/share/g.toml", "com.sys", 17, Origin::System));
    s.add(entry("/home/me/mine.toml", "com.mine", 18, Origin::User));
    assert_eq!(s.delete("com.mine").unwrap(), "/home/me/mine.toml");
    assert_eq!(
        message(s.delete("com.sys").unwrap_err()),
        "invalid profile: 'com.sys' is not a user profile; only user profiles can be deleted"
    );
    assert_eq!(
        message(s.delete("com.none").unwrap_err()),
        "invalid profile: no profile for 'com.none'"
    );
}

// ------------------------------------------------------------------ saving

fn jump() -> Profile {
    profile("T", "com.x", vec![("jump", tap(57, 0.9, 0.8))])
}

/// The file as a plain table, for reading back what was written.
fn read(text: &str) -> toml::Table {
    toml::from_str(text).expect("must still parse")
}

#[test]
fn comments_survive_a_round_trip() {
    let src = "# top of file\nname = \"T\"\npackage = \"com.x\"\n\n\
               # the jump button\n[bindings.jump]\ntype = \"tap\"\n\
               trigger = { Key = 57 }   # SPACE\n\
               at = { x = 0.9, y = 0.8 }\n";
    let out = rendered(Some(src), &jump()).unwrap();
    assert!(out.contains("# top of file"), "{out}");
    assert!(out.contains("# the jump button"), "{out}");
    assert!(out.contains("# SPACE"), "end-of-line comment lost:\n{out}");
    assert_eq!(out, src, "nothing changed, so nothing is rewritten");
}

#[test]
fn comments_of_a_changed_and_of_an_inline_binding_survive() {
    let src = "# top of file\r\nname = \"Old\"   # shown in the list\r\npackage = \"com.x\"\r\n\
               # every button\r\n[bindings]\r\n# the jump button\r\n\
               jump = { type = \"tap\", trigger = { Key = 30 }, at = { x = 0.1, y = 0.1 } }  # big\r\n";
    let out = rendered(Some(src), &jump()).unwrap();
    for c in ["# top of file\n", "# shown in the list\n", "# every button\n", "# the jump button\n", "  # big\n"] {
        assert!(out.contains(c), "'{c}' lost:\n{out}");
    }
    assert!(out.contains("Key = 57") && !out.contains("Key = 30"), "{out}");
}

#[test]
fn floats_do_not_grow_noise() {
    let mut j = joystick(0.085);
    if let Binding::Joystick { center, .. } = &mut j {
        *center = norm(0.148, 0.738);
    }
    let out = rendered(None, &profile("T", "com.x", vec![("move", j)])).unwrap();
    assert!(out.contains("0.148"), "{out}");
    assert!(!out.contains("0.1480000"), "float noise:\n{out}");
}

#[test]
fn deleted_bindings_are_removed() {
    let src = "name = \"T\"\npackage = \"com.x\"\n\
               [bindings.jump]\ntype = \"tap\"\ntrigger = { Key = 57 }\n\
               at = { x = 0.9, y = 0.8 }\n\
               [bindings.gone]\ntype = \"tap\"\ntrigger = { Key = 30 }\n\
               at = { x = 0.1, y = 0.1 }\n";
    let out = rendered(Some(src), &jump()).unwrap();
    assert!(!out.contains("bindings.gone"), "{out}");
    assert!(out.contains("bindings.jump"), "{out}");
}

#[test]
fn switching_type_drops_the_old_keys() {
    let src = "name = \"T\"\npackage = \"com.x\"\n\
               [bindings.jump]\ntype = \"swipe\"\ntrigger = { Key = 57 }\n\
               from = { x = 0.5, y = 0.5 }\nto = { x = 0.5, y = 0.2 }\n\
               duration_ms = 45\n";
    let out = rendered(Some(src), &jump()).unwrap();
    assert!(!out.contains("duration_ms"), "stale key left:\n{out}");
    let back = read(&out);
    assert_eq!(back["bindings"]["jump"]["type"].as_str(), Some("tap"));
    assert_eq!(back["bindings"]["jump"].as_table().unwrap().len(), 3);
}

#[test]
fn duplicate_trigger_is_refused() {
    let mut p = jump();
    p.bindings.insert("other", tap(57, 0.1, 0.1));
    assert!(rendered(None, &p).is_err());
}

#[test]
fn a_fresh_document_round_trips() {
    let out = rendered(None, &jump()).unwrap();
    let back = read(&out);
    assert_eq!(back["package"].as_str(), Some("com.x"));
    assert_eq!(back["bindings"].as_table().unwrap().len(), 1);
    assert_eq!(
        out,
        "name = \"T\"\npackage = \"com.x\"\n\n[bindings.jump]\ntype = \"tap\"\n\
         trigger = { Key = 57 }\nat = { x = 0.9, y = 0.8 }\n"
    );
}

const BASE: &str = r#"name = "T"
package = "p"

# --- fire button ---
# Bu yorum KORUNMALI.
[bindings.ates]
type = "tap"
trigger = "MouseLeft"
# coordinate measured from the screenshot
at = { x = 0.9, y = 0.2 }
"#;

fn fire(x: f32, y: f32) -> Binding {
    Binding::Tap { trigger: Trigger::MouseLeft, at: norm(x, y) }
}

#[test]
fn saving_preserves_comments() {
    let out = rendered(Some(BASE), &profile("T", "p", vec![("ates", fire(0.5, 0.5))])).unwrap();
    assert!(out.contains("# --- fire button ---"), "{out}");
    assert!(out.contains("# Bu yorum KORUNMALI."), "{out}");
    assert!(out.contains("# coordinate measured from the screenshot"), "{out}");
    assert!(out.contains("0.5"), "the new coordinate must be written: {out}");
}

#[test]
fn saving_adds_and_removes_bindings() {
    let out = rendered(Some(BASE), &profile("T", "p", vec![("zipla", tap(57, 0.8, 0.9))])).unwrap();
    assert!(out.contains("[bindings.zipla]"), "not added: {out}");
    assert!(!out.contains("[bindings.ates]"), "not removed: {out}");
    assert_eq!(read(&out)["bindings"].as_table().unwrap().len(), 1);
}

#[test]
fn changing_type_drops_stale_fields() {
    let src = r#"name = "T"
package = "p"
[bindings.hareket]
type = "joystick"
up = { Key = 17 }
down = { Key = 31 }
left = { Key = 30 }
right = { Key = 32 }
center = { x = 0.2, y = 0.7 }
radius = 0.1
"#;
    let out = rendered(Some(src), &profile("T", "p", vec![("hareket", tap(17, 0.3, 0.4))])).unwrap();
    assert!(!out.contains("radius"), "an old field remained: {out}");
    assert!(!out.contains("center"), "an old field remained: {out}");
    read(&out);
}

#[test]
fn duplicate_trigger_is_rejected_without_touching_the_file() {
    let p = profile("T", "p", vec![("a", tap(17, 0.1, 0.1)), ("b", tap(17, 0.2, 0.2))]);
    let e = message(rendered(Some(BASE), &p).unwrap_err());
    assert!(e.contains("duplicate trigger"), "{e}");
}

#[test]
fn saving_preserves_trailing_comments() {
    let src = r#"name = "T"
package = "p"
[bindings.hareket]
type = "joystick"
up    = { Key = 17 }             # W
down  = { Key = 31 }             # S
left  = { Key = 30 }             # A
right = { Key = 32 }             # D
center = { x = 0.148, y = 0.738 }
radius = 0.085
"#;
    let out = rendered(Some(src), &profile("T", "p", vec![("hareket", joystick(0.09))])).unwrap();
    for c in ["# W", "# S", "# A", "# D"] {
        assert!(out.contains(c), "trailing comment '{c}' was lost:\n{out}");
    }
    assert!(out.contains("0.2"), "the new coordinate must be written: {out}");
}

#[test]
fn floats_are_written_in_short_form() {
    let out = rendered(Some(BASE), &profile("T", "p", vec![("ates", fire(0.148, 0.738))])).unwrap();
    assert!(out.contains("0.148"), "{out}");
    assert!(out.contains("0.738"), "{out}");
    assert!(!out.contains("0.14800000"), "f32 noise leaked:\n{out}");
    let back = read(&out);
    let at = &back["bindings"]["ates"]["at"];
    assert_eq!(at["x"].as_float().unwrap() as f32, 0.148f32);
    assert_eq!(at["y"].as_float().unwrap() as f32, 0.738f32);
}

/// Everything a binding holds is written, and only that.
#[test]
fn every_kind_of_binding_is_written() {
    let p = profile(
        "All",
        "p",
        vec![
            (
                "aim",
                Binding::Aim {
                    toggle: Some(Trigger::MouseRight),
                    origin: norm(0.72, 0.5),
                    sensitivity: n(0.001),
                    deadzone: n(0.5),
                    recenter_margin: n(0.12),
                    handoff: false,
                    nonlinear: true,
                    reset_delay_ms: 12,
                    unbounded: true,
                    safety_span: n(32.0),
                },
            ),
            ("stick", joystick(0.1)),
            (
                "swipe",
                Binding::Swipe {
                    trigger: Trigger::WheelUp,
                    from: norm(0.5, 0.5),
                    to: norm(0.2, 0.5),
                    duration_ms: 80,
                    group: Some("a \"b\"".into()),
                    easing: Easing::EaseOutStrong,
                },
            ),
            ("turn", Binding::Toggle { trigger: Trigger::WheelDown, at: norm(1.0, 0.0) }),
        ],
    );
    let out = rendered(None, &p).unwrap();
    assert_eq!(
        out,
        r#"name = "All"
package = "p"

[bindings.aim]
type = "aim"
toggle = "MouseRight"
origin = { x = 0.72, y = 0.5 }
sensitivity = 0.001
deadzone = 0.5
recenter_margin = 0.12
handoff = false
nonlinear = true
reset_delay_ms = 12
unbounded = true
safety_span = 32.0

[bindings.stick]
type = "joystick"
up = { Key = 17 }
down = { Key = 31 }
left = { Key = 30 }
right = { Key = 32 }
center = { x = 0.2, y = 0.7 }
radius = 0.1

[bindings.swipe]
type = "swipe"
trigger = "WheelUp"
from = { x = 0.5, y = 0.5 }
to = { x = 0.2, y = 0.5 }
duration_ms = 80
group = 'a "b"'
easing = "ease_out_strong"

[bindings.turn]
type = "toggle"
trigger = "WheelDown"
at = { x = 1.0, y = 0.0 }
"#
    );
}

#[test]
fn files_that_cannot_be_edited_are_refused() {
    assert_eq!(
        message(rendered(Some("bindings = 3\n"), &jump()).unwrap_err()),
        "[bindings] is not a table"
    );
    let broken = "this is not valid [[[";
    let why = broken.parse::<toml_edit::DocumentMut>().unwrap_err().to_string();
    assert_eq!(message(rendered(Some(broken), &jump()).unwrap_err()), why);
    let bad = render(None, &jump(), &vec![vec!["x y".to_string(), "0.5".to_string()]]);
    assert!(message(bad.unwrap_err()).starts_with("'jump': not a value: "));
}

#[test]
fn a_row_that_is_no_table_is_written_anew() {
    let src = "[bindings]\njump = 3\nwalk = { type = \"tap\", trigger = { Key = 5 } }\n";
    let mut p = jump();
    p.bindings.insert("walk", tap(5, 0.1, 0.2));
    let back = read(&rendered(Some(src), &p).unwrap());
    assert_eq!(back["bindings"]["jump"]["trigger"]["Key"].as_integer(), Some(57));
    assert_eq!(back["bindings"]["walk"]["at"]["y"].as_float(), Some(0.2));
    assert_eq!(back["name"].as_str(), Some("T"));
}

#[test]
fn a_plan_edits_in_place() {
    let p = jump();
    let fresh = vec![fields(&p.bindings.at(0).1, &shown(&p)[0])];
    let keys = vec!["type".to_string(), "radius".to_string()];
    let shape = Shape::Table(vec![
        ("jump".to_string(), Some(keys)),
        ("gone".to_string(), None),
    ]);
    let plan = plan_render(&shape, &p, &fresh).unwrap();
    assert_eq!(plan.len(), 7);
    assert!(matches!(&plan[2], Edit::DropBinding { name } if name == "gone"));
    assert!(matches!(&plan[3], Edit::Replace { key, value, .. } if key == "type" && value == "\"tap\""));
    assert!(matches!(&plan[4], Edit::Insert { key, .. } if key == "trigger"));
    assert!(matches!(&plan[6], Edit::DropKey { key, .. } if key == "radius"));
    let fresh_file = plan_render(&Shape::Missing, &p, &fresh).unwrap();
    assert!(matches!(fresh_file[2], Edit::AddBindings));
    assert!(matches!(fresh_file[3], Edit::NewTable { .. }));
    assert_eq!(fresh_file.len(), 7);
}

#[test]
fn profile_errors_say_what_went_wrong() {
    assert_eq!(ProfileError::Io("denied".into()).message(""), "could not read profile: denied");
    assert_eq!(ProfileError::Parse("eof".into()).message(""), "could not parse profile: eof");
    assert_eq!(
        ProfileError::Invalid(Flaw::NoBindings).message(""),
        "invalid profile: profile has no bindings"
    );
    assert_eq!(
        ProfileError::Invalid(Flaw::Radius { name: "move".into(), radius: n(0.75) })
            .message("0.75"),
        "invalid profile: joystick radius of 'move' must be within 0..0.5, got 0.75"
    );
    assert_eq!(
        ProfileError::Invalid(Flaw::DuplicateTrigger { first: "a".into(), second: "b".into() })
            .message(""),
        "invalid profile: duplicate trigger in two bindings: 'a' and 'b'"
    );
    assert_eq!(
        ProfileError::Invalid(Flaw::NotUserProfile { package: "p".into() }).message(""),
        "invalid profile: 'p' is not a user profile; only user profiles can be deleted"
    );
    assert_eq!(
        ProfileError::Invalid(Flaw::NoProfile { package: "p".into() }).message(""),
        "invalid profile: no profile for 'p'"
    );
    assert_eq!(
        ProfileError::Edit("[bindings] is not a table".into()).message(""),
        "[bindings] is not a table"
    );
}

#[test]
fn the_winner_is_the_same_in_every_order_of_three() {
    let make = |i: usize| match i {
        0 => entry("/d/b.toml", "com.example.game", 17, Origin::System),
        1 => entry("/d/a.toml", "com.example.game", 30, Origin::System),
        _ => entry("/b/a.toml", "com.example.game", 31, Origin::Bundled),
    };
    for order in [[0, 1, 2], [0, 2, 1], [1, 0, 2], [1, 2, 0], [2, 0, 1], [2, 1, 0]] {
        let mut s = Store::new();
        for i in order {
            s.add(make(i));
        }
        assert_eq!(s.for_package("com.example.game").unwrap().path, "/d/a.toml", "{order:?}");
    }
}

#[test]
fn a_new_name_keeps_what_stands_around_it() {
    let src = "# top\nname = \"Old\"  # shown\npackage = \"com.x\"\n";
    let out = rendered(Some(src), &jump()).unwrap();
    assert!(out.starts_with("# top\nname = \"T\"  # shown\npackage = \"com.x\"\n"), "{out}");
    let fresh = rendered(Some("package = \"com.x\"\n"), &jump()).unwrap();
    assert!(fresh.contains("name = \"T\""), "{fresh}");
    let table = rendered(Some("package = \"com.x\"\n[name]\nx = 1\n"), &jump()).unwrap();
    assert!(table.contains("name = \"T\"") && !table.contains("x = 1"), "{table}");
}
