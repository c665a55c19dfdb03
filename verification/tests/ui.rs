use liwinux::by_name::ByName;
use liwinux::library::{caption, entries, hero, hero_side, initial, page_of, render, sources, Act, Empty};
use liwinux::num::Num;
use liwinux::session::Signals;
use liwinux::shell::{
    actions, content, latency_panel, settings_note, signals, status, verdict, Content, Tone,
};
use liwinux::state::{visible_among, App, AppState, Busy, Link, Listed, Loaded, Nav, Snapshot};
use liwinux::tint::{counts, from_bytes, pixels_of, Pixel, Tint};

fn n(v: f32) -> Num {
    Num::of(v.to_bits())
}

fn f(v: Num) -> f32 {
    f32::from_bits(v.bits)
}

fn app(name: &str, package: &str, system: bool) -> App {
    App { name: name.into(), package: package.into(), system, icon: None }
}

fn listed(package: &str, bindings: u64) -> Listed {
    Listed { package: package.into(), name: format!("{package} keys"), bindings }
}

fn window() -> AppState {
    let mut s = AppState::new();
    s.loaded(Ok(Loaded {
        apps: vec![
            app("Settings", "com.android.settings", true),
            app("Play Store", "com.android.vending", false),
            app("Subway", "com.kiloo.subwaysurf", false),
            app("Forge", "com.ForgeGames.Group2", false),
            app("Calculator", "com.android.calculator", true),
        ],
        profiles: vec![listed("com.ForgeGames.Group2", 12), listed("com.gone.game", 3)],
        snapshot: Snapshot::default(),
        tints: ByName::new(),
    }));
    s
}

// ------------------------------------------------------------------ state

#[test]
fn pages_have_names() {
    let names: Vec<&str> = Nav::all().into_iter().map(|p| p.label()).collect();
    assert_eq!(names, vec!["Library", "Key mapping", "Diagnostics", "Settings"]);
}

#[test]
fn the_search_looks_at_names_and_packages() {
    let mut s = window();
    assert_eq!(s.visible_apps(), vec![1, 2, 3]);
    s.search = "  SUBWAY ".into();
    assert_eq!(s.visible_apps(), vec![2]);
    s.search = "forgegames".into();
    assert_eq!(s.visible_apps(), vec![3]);
    s.search = "android".into();
    assert_eq!(s.visible_apps(), vec![1]);
    s.show_system = true;
    assert_eq!(s.visible_apps(), vec![0, 1, 4]);
    s.search = "İSTANBUL".into();
    s.apps[2].name = "i̇stanbul".into();
    assert_eq!(s.visible_apps(), vec![2], "small letters are Unicode's");
}

#[test]
fn a_filter_takes_lowered_text() {
    let apps = vec![app("A", "x", false), app("B", "y", true)];
    let low = vec![("alpha".to_string(), "x".to_string()), ("beta".to_string(), "y".to_string())];
    assert_eq!(visible_among(&apps, &low, "", false), vec![0]);
    assert_eq!(visible_among(&apps, &low, "et", true), vec![1]);
    assert_eq!(visible_among(&apps, &low, "x", true), vec![0]);
}

#[test]
fn the_hero_follows_the_foreground() {
    let mut s = window();
    assert_eq!(s.hero(), Some(3), "the first app with a key mapping");
    s.launch("com.kiloo.subwaysurf".into());
    assert_eq!(s.busy, Some(Busy::Launch));
    assert_eq!(s.hero(), Some(2));
    s.snapshot.foreground = Some("com.android.settings".into());
    assert_eq!(s.hero(), Some(0));
    s.snapshot.foreground = Some("com.not.installed".into());
    assert_eq!(s.hero(), Some(2));
    s.profiles.clear();
    s.featured = None;
    assert_eq!(s.hero(), Some(1), "then the first user app");
    s.apps.retain(|a| a.system);
    assert_eq!(s.hero(), None);
}

#[test]
fn calls_in_flight_and_their_ends() {
    let mut s = window();
    s.session(true);
    assert_eq!(s.busy, Some(Busy::SessionStart));
    s.finished(Some("no".into()));
    assert!(s.busy.is_none());
    assert_eq!(s.error.as_deref(), Some("no"));
    s.session(false);
    assert_eq!(s.busy, Some(Busy::SessionStop));
    assert!(s.error.is_none());
    s.loaded(Err("bus gone".into()));
    assert!(matches!(s.link, Link::Down(ref why) if why == "bus gone"));
    assert_eq!(s.apps.len(), 5, "what was known stays");
}

#[test]
fn an_unchanged_snapshot_is_not_redrawn() {
    let mut s = window();
    assert!(!s.announced(Snapshot::default()));
    let mut next = Snapshot::default();
    next.active_profile = Some("P".into());
    assert!(s.announced(next.clone()));
    assert!(!s.announced(next));
}

// ------------------------------------------------------------------ library

#[test]
fn the_store_is_not_a_game() {
    let s = window();
    let p = render(&s);
    assert_eq!(p.hero, Some(3));
    assert_eq!(p.games, vec![2, 3]);
    assert_eq!(p.store, Some(1));
    assert!(p.system.is_empty());
    assert_eq!(p.section, Some((2, "Show 2".to_string())));
    assert!(p.empty.is_none());

    let mut s = window();
    s.show_system = true;
    let p = render(&s);
    assert_eq!(p.system, vec![0, 4]);
    assert_eq!(p.section, Some((2, "Hide".to_string())));
}

#[test]
fn an_empty_library_says_why() {
    let mut s = window();
    s.search = "nothing like it".into();
    assert_eq!(render(&s).empty, Some(Empty::NoMatch));
    assert_eq!(Empty::NoMatch.lines(), vec!["Nothing matches that"]);
    let s = AppState::new();
    let p = page_of(&s, &vec![]);
    assert_eq!(p.empty, Some(Empty::NoGames));
    assert_eq!(p.section, None);
    assert_eq!(Empty::NoGames.lines()[0], "No games yet");
}

#[test]
fn the_hero_has_words_for_each_state() {
    let mut s = window();
    let h = hero(&s, 3);
    assert_eq!((h.title.as_str(), h.subtitle.as_str()), ("Forge", "Key mapping ready"));
    assert_eq!((h.button, h.enabled, h.note), ("Play", true, None));
    let h = hero(&s, 2);
    assert_eq!(h.subtitle, "com.kiloo.subwaysurf");
    assert_eq!(h.note, Some("No key mapping yet"));
    s.snapshot.foreground = Some("com.kiloo.subwaysurf".into());
    let h = hero(&s, 2);
    assert_eq!((h.subtitle.as_str(), h.button), ("Running now", "Bring to front"));
    s.session(true);
    let h = hero(&s, 2);
    assert_eq!((h.button, h.enabled), ("working…", false));
}

#[test]
fn the_side_list_needs_a_handful() {
    let mut apps: Vec<App> =
        (0..4).map(|i| app("G", &format!("com.game{i}"), false)).collect();
    assert!(hero_side(&apps, "com.game0").is_empty(), "three others are too few");
    apps.push(app("G", "com.game4", false));
    assert_eq!(hero_side(&apps, "com.game0"), vec![1, 2, 3, 4]);
    apps.insert(0, app("S", "com.android.vending", false));
    apps.insert(0, app("S", "com.system", true));
    for i in 5..9 {
        apps.push(app("G", &format!("com.game{i}"), false));
    }
    assert_eq!(hero_side(&apps, "com.game2"), vec![2, 3, 5, 6, 7]);
}

#[test]
fn mappings_play_or_point_at_the_store() {
    let mut s = window();
    let rows = entries(&s);
    assert_eq!(rows.len(), 2);
    assert_eq!(rows[0].bindings, "12 bindings");
    assert_eq!((rows[0].installed, rows[0].app), (true, Some(3)));
    assert_eq!((rows[0].button, rows[0].act), ("Play", Act::Launch));
    assert_eq!((rows[1].installed, rows[1].app), (false, None));
    assert_eq!((rows[1].button, rows[1].act), ("Install", Act::OpenStore));
    s.session(false);
    let rows = entries(&s);
    assert_eq!((rows[0].button, rows[0].act), ("…", Act::Wait));
}

#[test]
fn small_words_of_the_library() {
    assert_eq!((caption(true), caption(false)), ("key mapping", "—"));
    assert_eq!(initial("subway"), "S");
    assert_eq!(initial("ßeta"), "SS", "capitals are Unicode's");
    assert_eq!(initial(""), "?");
    let ((play, can_play), (aurora, can_aurora)) = sources(&window());
    assert_eq!((play, can_play), ("Installed — browse and install there", true));
    assert!(!can_aurora && aurora.starts_with("Not installed — get the APK"));
}

// ------------------------------------------------------------------ frame

#[test]
fn the_strip_says_what_the_daemon_said() {
    let mut s = window();
    let (pills, button) = status(&s);
    assert_eq!(pills, vec![("Android stopped".to_string(), Tone::Faint)]);
    let b = button.unwrap();
    assert_eq!((b.label, b.start), ("Start Android", Some(true)));

    s.snapshot.state = "DEGRADED".into();
    s.snapshot.keymapper_running = true;
    s.snapshot.game_mode = true;
    s.snapshot.active_profile = Some("Forge".into());
    let (pills, button) = status(&s);
    assert_eq!(
        pills,
        vec![
            ("game mode".to_string(), Tone::Accent),
            ("Forge".to_string(), Tone::Muted),
            ("degraded".to_string(), Tone::Warn),
        ]
    );
    assert_eq!(button.unwrap().start, Some(false));
    s.session(false);
    assert_eq!(status(&s).1.unwrap().label, "working…");
    assert_eq!(status(&s).1.unwrap().start, None);

    s.link = Link::Down("x".into());
    let (pills, button) = status(&s);
    assert_eq!(pills.last().unwrap(), &("liwd not running".to_string(), Tone::Bad));
    assert!(button.is_none());
    assert_eq!(status(&AppState::new()).0, vec![("connecting…".to_string(), Tone::Faint)]);
}

#[test]
fn the_page_says_which_thing_is_missing() {
    let mut s = window();
    assert!(matches!(content(&s), Content::Library));
    s.nav = Nav::Settings;
    match content(&s) {
        Content::Placeholder(l) => assert_eq!(l, vec!["Settings", "Not built yet."]),
        other => panic!("{other:?}"),
    }
    s.link = Link::Down("no such name".into());
    match content(&s) {
        Content::Offline(l) => assert_eq!(
            l,
            vec!["liwd is not reachable", "no such name", "systemctl --user start liwd"]
        ),
        other => panic!("{other:?}"),
    }
}

#[test]
fn each_signal_has_its_own_row() {
    let mut s = window();
    s.snapshot.health = Signals {
        session_running: true,
        container_running: true,
        composer_alive: true,
        composer_stale: true,
        boot_completed: true,
        has_ip: false,
    };
    let rows = signals(&s).unwrap();
    assert_eq!(rows.len(), 6);
    assert_eq!((rows[2].0, rows[2].1), ("Network", false));
    assert_eq!((rows[5].0, rows[5].1), ("Composer fresh", false));
    assert_eq!((verdict(true), verdict(false)), ("ok", "no"));
    s.link = Link::Down(String::new());
    assert_eq!(signals(&s), Err("liwd is not running, so nothing can be measured."));
    assert_eq!(actions(&s).unwrap_err(), "systemctl --user start liwd");
}

#[test]
fn latency_has_three_colours() {
    let mut s = Snapshot::default();
    assert!(latency_panel(&s).unwrap_err().starts_with("No samples yet."));
    s.latency_samples = 5;
    for (us, tone) in [
        (0, Tone::Fine),
        (1999, Tone::Fine),
        (2000, Tone::Warn),
        (5999, Tone::Warn),
        (6000, Tone::Bad),
    ] {
        s.latency_p99_us = us;
        assert_eq!(latency_panel(&s), Ok(tone), "{us}");
        let ms = us as f32 / 1000.0;
        let drawn = if ms < 2.0 {
            Tone::Fine
        } else if ms < 6.0 {
            Tone::Warn
        } else {
            Tone::Bad
        };
        assert_eq!(drawn, tone, "{us}");
    }
}

#[test]
fn settings_wait_for_the_daemon() {
    assert_eq!(settings_note(&Link::Up, true), None);
    assert_eq!(settings_note(&Link::Connecting, false), Some("Loading…"));
    assert_eq!(
        settings_note(&Link::Down(String::new()), true),
        Some("liwd is not running, so there is nothing to edit.")
    );
    let mut s = window();
    s.snapshot.state = "RUNNING".into();
    let b = actions(&s).unwrap();
    assert_eq!((b.label, b.start), ("Stop Android", Some(false)));
    s.session(true);
    assert_eq!(actions(&s).unwrap().label, "…");
}

// ------------------------------------------------------------------ tint

fn rgb_to_hsl(p: Pixel) -> (f32, f32, f32) {
    let (r, g, b) = (p.r as f32 / 255.0, p.g as f32 / 255.0, p.b as f32 / 255.0);
    let max = r.max(g).max(b);
    let min = r.min(g).min(b);
    let l = (max + min) / 2.0;
    let d = max - min;
    if d <= f32::EPSILON {
        return (0.0, 0.0, l);
    }
    let s = if l > 0.5 { d / (2.0 - max - min) } else { d / (max + min) };
    let h = if max == r {
        ((g - b) / d + if g < b { 6.0 } else { 0.0 }) / 6.0
    } else if max == g {
        ((b - r) / d + 2.0) / 6.0
    } else {
        ((r - g) / d + 4.0) / 6.0
    };
    (h, s, l)
}

/// The averaging that a caller does between picking pixels and settling.
fn average(px: &[Pixel]) -> Tint {
    let (mut x, mut y, mut sat_sum, mut weight) = (0.0f32, 0.0f32, 0.0f32, 0.0f32);
    for p in px {
        let a = p.a as f32 / 255.0;
        let (h, s, l) = rgb_to_hsl(*p);
        if !counts(n(a), n(l), n(s)) {
            continue;
        }
        let w = s * a;
        let ang = h * std::f32::consts::TAU;
        x += ang.cos() * w;
        y += ang.sin() * w;
        sat_sum += s * w;
        weight += w;
    }
    let turn = y.atan2(x) / std::f32::consts::TAU;
    Tint::settle(n(weight), n(turn), n(turn + 1.0), n(sat_sum / weight))
}

fn from_rgba(px: &[u8], stride: usize) -> (f32, f32) {
    let t = average(&pixels_of(&px.to_vec(), stride));
    (f(t.hue), f(t.sat))
}

const NEUTRAL: (f32, f32) = (0.62, 0.0);

fn solid(r: u8, g: u8, b: u8, k: usize) -> Vec<u8> {
    [r, g, b, 255].repeat(k)
}

#[test]
fn a_solid_colour_yields_its_own_hue() {
    let t = from_rgba(&solid(220, 30, 30, 64), 4);
    assert!(t.0 < 0.03 || t.0 > 0.97, "red should stay red: {t:?}");
    assert!(t.1 > 0.5, "{t:?}");

    let t = from_rgba(&solid(30, 60, 220, 64), 4);
    assert!((t.0 - 0.666).abs() < 0.05, "{t:?}");
}

#[test]
fn hue_averages_around_the_circle() {
    let mut px = solid(255, 0, 10, 32);
    px.extend(solid(255, 10, 0, 32));
    let t = from_rgba(&px, 4);
    assert!(t.0 < 0.06 || t.0 > 0.94, "wrapped hues must average to red, got {t:?}");
}

#[test]
fn greyscale_is_neutral() {
    assert_eq!(from_rgba(&solid(128, 128, 128, 64), 4), NEUTRAL);
    assert_eq!(from_rgba(&solid(255, 255, 255, 64), 4), NEUTRAL);
    assert_eq!(from_rgba(&solid(0, 0, 0, 64), 4), NEUTRAL);
}

#[test]
fn transparent_pixels_are_skipped() {
    let mut px = [0u8, 0, 255, 0].repeat(200);
    px.extend(solid(220, 30, 30, 8));
    let t = from_rgba(&px, 4);
    assert!(t.0 < 0.05 || t.0 > 0.95, "transparent blue must not win: {t:?}");
}

#[test]
fn empty_input_is_neutral() {
    assert_eq!(from_rgba(&[], 4), NEUTRAL);
    assert!(from_bytes(&b"not an image".to_vec()).is_empty());
    let t = average(&from_bytes(&b"not an image".to_vec()));
    assert_eq!((f(t.hue), f(t.sat)), NEUTRAL);
}

#[test]
fn the_wash_stays_readable() {
    let vivid = Tint { hue: n(0.0), sat: n(1.0) };
    let w = vivid.wash(n(1.0 * 0.55), n(1.0));
    assert!(f(w.l) <= 0.35, "too light behind text: {w:?}");
    assert!(f(w.s) <= 0.5, "too saturated behind text: {w:?}");
    assert_eq!(f(w.l), 0.30);
    let a = vivid.accent(n(1.0 * 0.9));
    assert_eq!((f(a.s), f(a.l), f(a.a)), (0.85, 0.62, 1.0));
}

/// Which pixels count, at the bounds.
#[test]
fn pixel_bounds_are_exact() {
    for a in [0.0f32, 0.49, 0.5, 1.0] {
        for l in [0.0f32, 0.119999, 0.12, 0.5, 0.92, 0.920001, 1.0] {
            for s in [0.0f32, 0.149999, 0.15, 1.0] {
                let skipped = a < 0.5 || !(0.12..=0.92).contains(&l) || s < 0.15;
                assert_eq!(counts(n(a), n(l), n(s)), !skipped, "{a} {l} {s}");
            }
        }
    }
}

/// An encoded image comes back as its pixels.
#[test]
fn an_icon_is_decoded() {
    let raw: Vec<u8> = vec![220, 30, 30, 255, 30, 60, 220, 128];
    let img = image::RgbaImage::from_raw(2, 1, raw).unwrap();
    let mut png = std::io::Cursor::new(Vec::new());
    img.write_to(&mut png, image::ImageFormat::Png).unwrap();
    assert_eq!(
        from_bytes(&png.into_inner()),
        vec![Pixel { r: 220, g: 30, b: 30, a: 255 }, Pixel { r: 30, g: 60, b: 220, a: 128 }]
    );
    assert_eq!(
        pixels_of(&vec![1, 2, 3, 4, 5, 6, 7], 3),
        vec![Pixel { r: 1, g: 2, b: 3, a: 255 }, Pixel { r: 4, g: 5, b: 6, a: 255 }]
    );
    let s = window();
    assert_eq!(s.tint("com.x"), Tint::neutral());
}
