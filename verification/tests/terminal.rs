use liwinux::art;
use liwinux::bench::{self, layer_candidates, layer_fits, no_layer, Meter, Meters, Timing};
use liwinux::by_name::ByName;
use liwinux::devices::{
    candidates, closing, devices_panel, hotkey, identifies, invitation, is_configured,
    lasting_path, list_devices, name_of, outcome, unheard, watch_opening, watch_targets, watched,
    Choice, DeviceKind, InputDevice, Unheard, DETECT_SECONDS,
};
use liwinux::engine::{InputEvent, TriggerKind};
use liwinux::num::Num;
use liwinux::order::{by_size, by_text, sorted_set};
use liwinux::perf::{self, process_age, process_pid, virgl_clients, VirglClient};
use liwinux::profile::{Binding, Easing, Profile, Trigger};
use liwinux::runner::{RunnerEvent, RunnerState};
use liwinux::session::{absent, after_look, health, status, Signals, Started};
use liwinux::shelf::{
    backup_name, installed, kind, list, origin_label, poke_binding, report_problems, show, step,
    which, Step, Target,
};
use liwinux::store::{Entry, Origin, Store};
use liwinux::touch::{Norm, TouchAction};
use liwinux::trial::{
    daemon_status, event_line, opening, poke, print_action, sweep_line, sweep_opening,
    sweep_point, Escape, Spot, Trial,
};

fn n(v: f32) -> Num {
    Num::of(v.to_bits())
}

fn norm(x: f32, y: f32) -> Norm {
    Norm::new(n(x), n(y))
}

fn strings(v: &[&str]) -> Vec<String> {
    v.iter().map(|s| s.to_string()).collect()
}

fn tap(key: u16, x: f32, y: f32) -> Binding {
    Binding::Tap { trigger: Trigger::Key(key), at: norm(x, y) }
}

fn profile(package: &str) -> Profile {
    let mut b = ByName::new();
    b.insert("jump", tap(57, 0.9, 0.8));
    b.insert(
        "move",
        Binding::Joystick {
            up: Trigger::Key(17),
            down: Trigger::Key(31),
            left: Trigger::Key(30),
            right: Trigger::Key(32),
            center: norm(0.2, 0.7),
            radius: n(0.1),
        },
    );
    b.insert(
        "peek",
        Binding::Swipe {
            trigger: Trigger::WheelUp,
            from: norm(0.1, 0.1),
            to: norm(0.3, 0.1),
            duration_ms: 120,
            easing: Easing::Linear,
            group: None,
        },
    );
    Profile { name: "Forge".into(), package: package.into(), bindings: b }
}

// ---------------------------------------------------------------- devices

fn device(path: &str, name: &str, kind: DeviceKind, score: u32, is_virtual: bool) -> InputDevice {
    InputDevice {
        path: path.into(),
        name: name.into(),
        node: "event3".into(),
        config_path: "/dev/input/by-id/x".into(),
        kind,
        typing_score: score,
        pointer_score: 9,
        is_virtual,
        is_keyboard: false,
        is_mouse: false,
    }
}

#[test]
fn the_device_list_marks_what_is_configured() {
    let mut k = device("/dev/input/event3", "Keys", DeviceKind::Keyboard, 22, false);
    k.is_keyboard = true;
    let mut m = device("/dev/input/event4", "Mouse", DeviceKind::Pointer, 0, false);
    m.is_mouse = true;
    let v = device("/dev/input/event5", "Ours", DeviceKind::Other, 22, true);
    let c = device("/dev/input/event6", "Both", DeviceKind::Combo, 22, false);
    let row = |p: &str, k: &str, s: &str, v: &str, n: &str| {
        format!("{p:<20} {k:<9} {s:<5} {v:<7} {n}")
    };
    assert_eq!(
        list_devices(&vec![k, m, v, c], false),
        vec![
            row("PATH", "KIND", "SCORE", "VIRTUAL", "NAME"),
            row("/dev/input/event3", "Keyboard", "22", "no", "Keys  <- CONFIGURED keyboard"),
            row("/dev/input/event4", "Pointer", "0", "no", "Mouse  <- CONFIGURED mouse"),
            row("/dev/input/event5", "Other", "22", "yes", "Ours"),
            row("/dev/input/event6", "Combo", "22", "no", "Both"),
            "".to_string(),
            "SCORE = likelihood of being a real typing keyboard (out of 22).".to_string(),
            "WARNING: no keyboard configured — auto-selection will be used.".to_string(),
            "".to_string(),
            "2 devices tied on score — the score does not say which one".to_string(),
            "ACTUALLY sends keys. To measure:  liw keymap detect --save".to_string(),
        ]
    );
    assert_eq!(
        list_devices(&vec![], true),
        strings(&[
            "No input device found.",
            "Is the user in the 'input' group?  ->  groups | grep input",
        ])
    );
}

#[test]
fn calibration_listens_to_real_devices_only() {
    let devs = vec![
        device("a", "Keys", DeviceKind::Keyboard, 22, false),
        device("b", "Mouse", DeviceKind::Pointer, 0, false),
        device("c", "Both", DeviceKind::Combo, 3, false),
        device("d", "Ours", DeviceKind::Combo, 22, true),
        device("e", "Lid", DeviceKind::Other, 0, false),
    ];
    assert_eq!(candidates(&devs, false), vec![0, 2, 4]);
    assert_eq!(candidates(&devs, true), vec![1, 2]);
    assert_eq!(name_of(&devs, "b"), "Mouse");
    assert_eq!(name_of(&devs, "z"), "");
}

#[test]
fn calibration_says_what_to_do() {
    assert_eq!(
        invitation(0, true, false),
        strings(&["No candidate keyboard. Are you in the 'input' group?  ->  groups"])
    );
    assert_eq!(
        invitation(2, true, false),
        strings(&["Listening to 2 candidates. MOVE YOUR MOUSE NOW..."])
    );
    assert_eq!(
        invitation(2, false, true),
        strings(&[
            "listening on 2 candidates.",
            "PRESS THE KEY YOU WANT AS THE GAME-MODE HOTKEY NOW...",
            "(pick a key you do not use in the game)",
        ])
    );
    assert_eq!(
        invitation(2, false, false),
        strings(&["Listening to 2 candidates. PRESS A KEY NOW..."])
    );
    assert_eq!(outcome("/d", "Keys", 0, true, false), strings(&["Fare   : /d  (Keys)"]));
    assert_eq!(
        outcome("/d", "Keys", 68, false, true),
        strings(&["Hotkey code: 68   (device: /d)"])
    );
    assert_eq!(
        outcome("/d", "Keys", 30, false, false),
        strings(&["Klavye : /d  (Keys)", "First key code: 30"])
    );
}

#[test]
fn a_mouse_is_told_by_motion_and_a_keyboard_by_keys() {
    let key = InputEvent::Press(TriggerKind::Key(30));
    let motion = InputEvent::MouseMove { dx: n(3.0), dy: n(0.0) };
    assert_eq!(identifies(key, false, false), Some(30));
    assert_eq!(identifies(key, false, true), None);
    assert_eq!(identifies(motion, true, true), Some(0));
    assert_eq!(identifies(motion, false, true), None, "jitter");
    assert_eq!(identifies(motion, true, false), None);
    assert_eq!(identifies(InputEvent::Release(TriggerKind::Key(30)), false, false), None);
}

#[test]
fn calibration_changes_the_one_thing_it_was_asked_for() {
    let mut c = Choice { keyboard: Some("k".into()), mouse: None, hotkey: None };
    c.calibrate("/m", 0, true, false);
    assert_eq!(c.mouse.as_deref(), Some("/m"));
    assert_eq!(c.keyboard.as_deref(), Some("k"));
    c.calibrate("/h", 68, false, true);
    assert_eq!(c.hotkey, Some(68));
    assert_eq!(c.keyboard.as_deref(), Some("k"));
    c.calibrate("/k", 30, false, false);
    assert_eq!(c.keyboard.as_deref(), Some("/k"));
}

#[test]
fn the_key_watch_names_device_code_and_state() {
    assert_eq!(
        watched("event3", "Keys", InputEvent::Press(TriggerKind::Key(30))),
        Some(format!("{:<20} {:<8} {:<10} {}", "event3", "30", "BASILDI", "Keys"))
    );
    assert_eq!(
        watched("event3", "Keys", InputEvent::Release(TriggerKind::WheelDown)),
        Some(format!("{:<20} {:<8} {:<10} {}", "event3", "WheelDown", "released", "Keys"))
    );
    assert_eq!(
        watched("event3", "Keys", InputEvent::MouseMove { dx: n(1.0), dy: n(1.0) }),
        None
    );
}

#[test]
fn the_device_panel_lists_what_fits() {
    let mut k = device("a", "Keys", DeviceKind::Keyboard, 22, false);
    k.is_keyboard = true;
    let devs = vec![
        k,
        device("b", "Mouse", DeviceKind::Pointer, 0, false),
        device("c", "Ours", DeviceKind::Keyboard, 22, true),
    ];
    let (note, rows) = devices_panel(&devs, true);
    assert!(note.starts_with("Multi-interface keyboards claim letter keys"));
    assert_eq!(rows.len(), 1);
    assert_eq!(rows[0].name, "Keys");
    assert!(rows[0].selected);
    assert_eq!(rows[0].score.as_deref(), Some("22/22 keys"));
    let (note, rows) = devices_panel(&devs, false);
    assert_eq!(note, "The device the aim binding reads relative motion from.");
    assert_eq!(rows[0].score.as_deref(), Some("mouse 9/15"));
    assert_eq!(devices_panel(&vec![], true).0, "None found. Is the user in the `input` group?");
}

#[test]
fn the_hotkey_is_shown_by_name() {
    assert_eq!(hotkey(true, Some(68)), "Press the key you want…");
    assert_eq!(hotkey(false, Some(68)), "F10");
    assert_eq!(
        hotkey(false, None),
        "Not set — the mapper will grab as soon as a game opens"
    );
}

// ---------------------------------------------------------------- trying

#[test]
fn a_grabbed_trial_is_left_by_three_escapes_in_a_row() {
    let esc = InputEvent::Press(TriggerKind::Key(1));
    let other = InputEvent::Press(TriggerKind::Key(30));
    let mut t = Trial::new(profile("p"), true);
    assert!(matches!(t.press(esc), Escape::Counted(1)));
    assert!(matches!(t.press(esc), Escape::Counted(2)));
    assert!(matches!(t.press(other), Escape::Pass));
    assert!(matches!(t.press(esc), Escape::Counted(1)));
    assert!(matches!(t.press(InputEvent::Release(TriggerKind::Key(1))), Escape::Pass));
    assert!(matches!(t.press(esc), Escape::Counted(2)));
    match t.press(esc) {
        Escape::Leave(acts) => assert!(acts.is_empty()),
        other => panic!("{other:?}"),
    }
    let mut t = Trial::new(profile("p"), false);
    for _ in 0..5 {
        assert!(matches!(t.press(esc), Escape::Pass));
    }
}

#[test]
fn a_trial_warns_before_it_takes_the_keyboard() {
    let p = profile("com.game");
    assert_eq!(
        opening(&p, "/dev/input/event3", "Keys", true, (1920, 1080)),
        strings(&[
            "Profil : Forge (com.game)",
            "Bindings: 3",
            "Cihaz  : /dev/input/event3 (Keys)",
            "",
            "!! GRAB ON: keys will NOT reach the desktop.",
            "!! Ctrl+C therefore DOES NOT REACH THE TERMINAL.",
            "!! ESCAPE KEY: ESC  (three times in a row)",
            "!! If the program dies the kernel releases the grab anyway.",
            "Ekran  : 1920x1080",
            "---- press keys (Ctrl+C to quit) ----",
        ])
    );
    assert_eq!(
        opening(&p, "d", "k", false, (1, 2))[3],
        "Grab   : off (keys also reach the desktop; use --grab to grab)"
    );
}

#[test]
fn touches_are_printed_in_pixels_and_fractions() {
    let s = Spot { x: 960, y: -5, nx: "0.500".into(), ny: "-0.005".into() };
    let at = norm(0.5, 0.0);
    assert_eq!(
        print_action(&TouchAction::Down { id: 2, at }, &s),
        "  DOWN  p2  (  960,   -5)   norm(0.500,-0.005)"
    );
    assert_eq!(
        print_action(&TouchAction::Move { id: 0, at }, &s),
        "  MOVE  p0  (  960,   -5)   norm(0.500,-0.005)"
    );
    assert_eq!(print_action(&TouchAction::Up { id: 11 }, &s), "  UP    p11");
}

#[test]
fn runner_events_are_told_in_words() {
    let pkg = || "com.game".to_string();
    for (e, want) in [
        (
            RunnerEvent::ProfileActivated { package: pkg(), profile: "Forge".into() },
            "[com.game] profile ACTIVE: Forge",
        ),
        (RunnerEvent::ProfileCleared { package: pkg() }, "[com.game] no profile — mapping off"),
        (
            RunnerEvent::OverlayPaused { package: pkg() },
            "\n  ⏸  com.game came over the game — mapping paused.\n     \
             The mouse is free; it returns by itself when the layer closes.\n",
        ),
        (RunnerEvent::Grabbed, "  grab taken"),
        (RunnerEvent::Ungrabbed, "  grab released"),
        (RunnerEvent::GameModeOn, "  GAME MODE ON (grab + mapping)"),
        (RunnerEvent::GameModeOff, "  game mode off (mouse free)"),
        (RunnerEvent::FocusGained, "  Waydroid odakta"),
        (RunnerEvent::FocusLost, "  Waydroid is not focused"),
        (RunnerEvent::EscapeRequested, "ESC x3 — exiting"),
    ] {
        assert_eq!(event_line(&e), want);
    }
}

#[test]
fn the_mapper_state_is_told_in_words() {
    let mut s = RunnerState::default();
    assert_eq!(
        daemon_status(&s, "", ""),
        strings(&[
            "Running      : no",
            "Foreground   : -",
            "Active profile : none",
            "Game mode    : off (mouse free)",
            "Host focus   : another window",
            "Grab         : off",
            "",
            "To start: liw keymap start",
        ])
    );
    s.running = true;
    s.foreground = Some("com.game".into());
    s.active_profile = Some("Forge".into());
    s.game_mode = true;
    s.host_focused = true;
    s.grabbed = true;
    s.latency_p99_us = 170;
    assert_eq!(
        daemon_status(&s, "0.08", "0.17"),
        strings(&[
            "Running      : yes",
            "Foreground   : com.game",
            "Active profile : Forge",
            "Game mode    : ON",
            "Host focus   : Waydroid",
            "Grab         : on",
            "Latency      : p50 0.08 ms   p99 0.17 ms  (liwinux layer only)",
        ])
    );
}

#[test]
fn a_single_touch_goes_down_waits_and_comes_up() {
    let b = poke(n(1.5), n(0.5), &vec![], 120, true);
    assert_eq!(b.len(), 2);
    assert_eq!(
        b[0].act,
        TouchAction::Down { id: 0, at: Norm::unclamped(n(1.5), n(0.5)) }
    );
    assert_eq!(b[0].pause_ms, 120);
    assert_eq!(b[1].act, TouchAction::Up { id: 0 });
    assert_eq!(b[1].pause_ms, 200);
    // A path that clamps is given clamped points.
    assert_eq!(
        poke(n(1.5), n(0.5), &vec![], 120, false)[0].act,
        TouchAction::Down { id: 0, at: norm(1.0, 0.5) }
    );
    let b = poke(n(0.1), n(0.1), &vec![(n(0.2), n(0.1)), (n(0.3), n(0.1))], 120, false);
    assert_eq!(b.len(), 4);
    assert_eq!(b[0].pause_ms, 0);
    assert_eq!(b[1].act, TouchAction::Move { id: 0, at: norm(0.2, 0.1) });
    assert_eq!(b[1].pause_ms, 10);
    assert_eq!(poke(n(0.1), n(0.1), &vec![(n(0.2), n(0.1))], 1, false)[1].pause_ms, 4);
}

#[test]
fn a_sweep_crosses_the_middle() {
    assert_eq!(sweep_point('x', n(0.25)), norm(0.25, 0.5));
    assert_eq!(sweep_point('y', n(0.25)), norm(0.5, 0.25));
}

// ---------------------------------------------------------------- session

#[test]
fn a_start_is_believed_only_when_seen() {
    assert_eq!(after_look(false, 1, true), Started::Refused);
    assert_eq!(after_look(true, 1, true), Started::Up);
    assert_eq!(after_look(true, 29, false), Started::Wait);
    assert_eq!(after_look(true, 30, false), Started::Absent);
    assert_eq!(absent(None, Some("6.9")), strings(&["the session did not come up"]));
    assert_eq!(
        absent(Some("modules gone"), Some("6.9")),
        strings(&[
            "the session did not come up",
            "\n  The host explains it: modules gone\n",
            "  Waydroid's NAT rule needs nft_masq. That module is",
            "  not loaded and can no longer be loaded, so the rule",
            "  fails and the bridge is never created.\n",
            "  Reboot into 6.9, then start the session again.\n",
        ])
    );
    assert_eq!(
        absent(Some("x"), None)[5],
        "  Reboot into the new kernel, then start the session again.\n"
    );
}

#[test]
fn health_names_what_is_down() {
    let mut s = Signals {
        session_running: true,
        container_running: true,
        composer_alive: true,
        composer_stale: false,
        boot_completed: true,
        has_ip: true,
    };
    assert_eq!(
        health(s, true, &vec![]),
        strings(&[
            "  OK   session running",
            "  OK   container running",
            "  OK   composer HAL alive",
            "  OK   composer connection fresh",
            "  OK   Android boot completed",
            "  OK   IP assigned",
            "",
            "session healthy",
        ])
    );
    s.composer_alive = false;
    s.composer_stale = true;
    s.has_ip = false;
    assert_eq!(
        health(s, false, &strings(&["composer", "no address"])),
        strings(&[
            "  OK   session running",
            "  OK   container running",
            "  HATA composer HAL alive",
            "  HATA composer connection fresh",
            "  OK   Android boot completed",
            "  HATA IP assigned",
            "",
            "SORUNLAR:",
            "  - composer",
            "  - no address",
            "",
            "composer restarted after the session. The processes look",
            "alive but the binder connection is stale: no window appears",
            "and 'waydroid app launch' returns 'Sending reply failed'.",
            "To recover: liw session restart",
            "",
            "composer death is the root of the crash chain:",
            "  composer -> SurfaceFlinger SIGABRT -> system_server -> every app",
            "To recover: liw session restart",
        ])
    );
}

#[test]
fn the_session_is_summed_up() {
    assert_eq!(
        status("RUNNING", "RUNNING", None, false, None),
        strings(&[
            "Session   : RUNNING",
            "Container : RUNNING",
            "IP        : -",
            "liwd      : not running",
        ])
    );
    assert_eq!(
        status("STOPPED", "FROZEN", Some("10.0.0.2"), true, Some("degraded"))[2..],
        strings(&["IP        : 10.0.0.2", "liwd      : degraded"])
    );
    assert_eq!(status("a", "b", None, true, None).len(), 3);
}

// ---------------------------------------------------------------- profiles

fn entry(package: &str, origin: Origin, path: &str) -> Entry {
    Entry { profile: profile(package), path: path.into(), origin }
}

#[test]
fn the_shelf_lists_profiles_and_what_failed() {
    let mut s = Store::new();
    assert_eq!(
        list(&s, Some("/home/u/.config/liwinux/profiles")),
        strings(&[
            "No profiles found.",
            "Aranan yerler:",
            "  /home/u/.config/liwinux/profiles",
            "  /usr/share/liwinux/profiles",
            "  ./profiles",
        ])
    );
    s.add(entry("com.game", Origin::User, "/u/com.game.toml"));
    s.add(entry("com.other", Origin::Bundled, "/r/com.other.toml"));
    s.reject("/u/bad.toml", "expected a table");
    let page = list(&s, None);
    assert_eq!(page[0], format!("{:<34} {:<10} {:<5} {}", "PACKAGE", "SOURCE", "BIND", "NAME"));
    assert_eq!(page[1], format!("{:<34} {:<10} {:<5} {}", "com.game", "user", "3", "Forge"));
    assert_eq!(page[2], format!("{:<34} {:<10} {:<5} {}", "com.other", "depo", "3", "Forge"));
    assert_eq!(page.len(), 3);
    assert_eq!(
        report_problems(s.problems()),
        strings(&["", "PROFILES THAT FAILED TO LOAD (1):", "  /u/bad.toml", "    expected a table"])
    );
    assert!(report_problems(&vec![]).is_empty());
    assert_eq!(origin_label(Origin::System), "sistem");
}

#[test]
fn a_profile_is_shown_in_full() {
    let e = entry("com.game", Origin::System, "/s/g.toml");
    let details = strings(&["(0.90, 0.80)", "merkez (0.20, 0.70) r=0.10", "d"]);
    assert_eq!(
        show(&e, &details),
        vec![
            "Ad     : Forge".to_string(),
            "Paket  : com.game".to_string(),
            "Kaynak : sistem (/s/g.toml)".to_string(),
            "".to_string(),
            format!("{:<14} {:<10} {}", "BINDING", "TYPE", "DETAIL"),
            format!("{:<14} {:<10} {}", "jump", "tap", "(0.90, 0.80)"),
            format!("{:<14} {:<10} {}", "move", "joystick", "merkez (0.20, 0.70) r=0.10"),
            format!("{:<14} {:<10} {}", "peek", "swipe", "d"),
        ]
    );
    assert_eq!(
        kind(&Binding::Toggle { trigger: Trigger::Key(1), at: norm(0.0, 0.0) }),
        "toggle"
    );
}

#[test]
fn the_profile_in_front_is_found() {
    let mut s = Store::new();
    s.add(entry("com.game", Origin::User, "/u/g.toml"));
    assert_eq!(
        which(&s, "com.game", None),
        strings(&["Foreground: com.game", "Profil  : Forge (user)", "Dosya   : /u/g.toml"])
    );
    assert_eq!(
        which(&s, "com.new", Some("/u")),
        strings(&[
            "Foreground: com.new",
            "Profile   : NONE",
            "",
            "To create a profile for this game:",
            "  /u/com.new.toml",
        ])
    );
    assert_eq!(which(&s, "com.new", None).len(), 4);
    assert_eq!(
        which(&s, "", None),
        strings(&[
            "Could not determine the foreground app.",
            "Is Waydroid open with an app in the foreground?",
        ])
    );
}

#[test]
fn installing_backs_up_before_it_overwrites() {
    assert_eq!(step("a.toml", false, false), Step::Copy);
    assert_eq!(step("a.toml", true, false), Step::Skip);
    assert_eq!(step("a.toml", true, true), Step::BackUpAndCopy);
    assert_eq!(step("a.toml", false, true), Step::Copy);
    assert_eq!(step("a.txt", false, true), Step::Ignore);
    assert_eq!(step(".toml", false, true), Step::Ignore);
    assert_eq!(backup_name("a.toml", 1700000000), "a.toml.bak-1700000000");
    assert_eq!(
        installed(2, 1, "/u"),
        strings(&[
            "",
            "2 profiles installed, 1 skipped -> /u",
            "To overwrite: liw profile install --force",
        ])
    );
    assert_eq!(installed(2, 0, "/u").len(), 2);
}

#[test]
fn a_binding_is_touched_where_it_is() {
    let p = profile("p");
    assert_eq!(poke_binding(&p.bindings, "jump"), Some(Target::Spot(norm(0.9, 0.8))));
    assert_eq!(
        poke_binding(&p.bindings, "move"),
        Some(Target::Stick { center: norm(0.2, 0.7), radius: n(0.1) })
    );
    assert_eq!(
        poke_binding(&p.bindings, "peek"),
        Some(Target::Drag { from: norm(0.1, 0.1), to: norm(0.3, 0.1) })
    );
    assert_eq!(poke_binding(&p.bindings, "none"), None);
}

// ---------------------------------------------------------------- artwork

fn candidate(width: u32, height: u32, bytes: u64, entry: &str) -> art::Candidate {
    art::Candidate { width, height, bytes, entry: entry.into() }
}

#[test]
fn the_extension_comes_from_the_entry() {
    assert_eq!(art::extension("res/a.WEBP"), "webp");
    assert_eq!(art::extension("res/a.webp.png"), "png");
    assert_eq!(art::extension_of("a.webp"), "webp");
    assert_eq!(art::dump_name(3, &candidate(640, 360, 0, "x/Y.WebP")), "3-640x360.webp");
}

#[test]
fn a_number_picks_a_candidate_and_anything_else_is_a_file() {
    assert!(matches!(art::choice("7"), art::Choice::Candidate(7)));
    assert!(matches!(art::choice("+7"), art::Choice::Candidate(7)));
    match art::choice("7.png") {
        art::Choice::File(f) => assert_eq!(f, "7.png"),
        other => panic!("{other:?}"),
    }
    assert!(matches!(art::choice("-1"), art::Choice::File(_)));
    assert_eq!(art::no_candidate(9, "com.game"), "no candidate [9] — `liw art list com.game`");
}

#[test]
fn artwork_is_listed_for_a_look() {
    assert_eq!(
        art::list("com.game", 0, None, &vec![]),
        strings(&[
            "No APK found for 'com.game'.",
            "Waydroid keeps them under ~/.local/share/waydroid/data/app —",
            "a system app that ships with the image has none there.",
        ])
    );
    assert_eq!(
        art::list("com.game", 2, Some("/a.png"), &vec![]),
        strings(&[
            "APKs   : 2",
            "Current: /a.png",
            "",
            "No plausible artwork inside. Point at your own image instead:",
            "  liw art use com.game /path/to/picture.png",
        ])
    );
    let c: Vec<art::Candidate> =
        (0..13).map(|i| candidate(640, 360, 2048 + i, &format!("e{i}.png"))).collect();
    let page = art::list("com.game", 1, None, &c);
    assert_eq!(page[2], "Candidates — LOOK before choosing; APKs are full of ad assets:");
    assert_eq!(page[3], "  [0]   640x360         2 KB  e0.png");
    assert_eq!(page[14], "  [11]   640x360         2 KB  e11.png");
    assert_eq!(page[15], "");
    assert_eq!(page[17], "  liw art dump com.game /tmp/com.game-art");
    assert_eq!(page[18], "  liw art use  com.game 0");
    assert_eq!(page.len(), 19);
}

// ---------------------------------------------------------------- measuring

#[test]
fn layers_that_games_present_to_come_first() {
    let l = "  com.Game/Main#0\n\nDim com.game\nSurfaceView[com.game/x](BLAST)#1\n\
             ActivityRecord{1 com.game}\ncom.other#2\nSplash Screen com.game\nBlur com.game\n";
    assert_eq!(
        layer_candidates(l, "com.GAME"),
        strings(&["SurfaceView[com.game/x](BLAST)#1", "com.Game/Main#0"])
    );
    assert!(layer_fits("com.game#0", "com.game#0", "com.game"));
    assert!(!layer_fits("", "com.game", "com.game"));
    assert!(!layer_fits("Dim com.game", "dim com.game", "com.game"));
    assert!(bench::is_on_screen(6));
    assert!(!bench::is_on_screen(5));
    assert_eq!(
        no_layer("com.game"),
        "'com.game' için kare verisi dönen katman yok.\n\
         Oyun ön planda ve HAREKETLİ mi? Durgun ekran kare üretmez."
    );
}

fn timing(intervals: usize) -> Timing {
    Timing {
        intervals,
        frames: 301,
        p50: "16.67".into(),
        p50_fps: "60.0".into(),
        p95: "17.00".into(),
        p99: "22.10".into(),
        p999: "30.00".into(),
        worst: "81.00".into(),
        mean: "16.80".into(),
        mean_fps: "59.5".into(),
        refresh: "5.56".into(),
        hz: "180.0".into(),
        jank15: 11,
        jank15_pct: "1.83".into(),
        jank2: 2,
        jank2_pct: "0.33".into(),
        coverage: "55".into(),
        low_coverage: true,
    }
}

#[test]
fn the_measurement_is_laid_out() {
    let rule = "=".repeat(58);
    let meter = |mean: &str, peak: &str| Meter { mean: mean.into(), peak: peak.into() };
    let m = Meters {
        gpu: meter("50.0", "96.0"),
        vram: meter("2048.0", "3000.5"),
        cpu: meter("31.5", "80.0"),
        ram: meter("9000.0", "9100.0"),
        pressure: meter("0.0", "0.2"),
    };
    assert_eq!(
        bench::report(12, &timing(300), 4, &m),
        vec![
            "12 anlık görüntü alındı".to_string(),
            "".to_string(),
            rule.clone(),
            "KARE ZAMANLAMASI   (300 aralık, 301 tekil kare)".to_string(),
            "  p50            :   16.67 ms   ->   60.0 FPS".to_string(),
            "  p95            :   17.00 ms".to_string(),
            "  p99            :   22.10 ms".to_string(),
            "  p99.9          :   30.00 ms".to_string(),
            "  en kötü        :   81.00 ms".to_string(),
            "  ortalama       :   16.80 ms   ->   59.5 FPS".to_string(),
            "  refresh        :    5.56 ms   ->  180.0 Hz".to_string(),
            "  jank >1.5x     :    11  (%1.83)".to_string(),
            "  jank >2x       :     2  (%0.33)".to_string(),
            "  yakalama kapsamı: %55".to_string(),
            "  UYARI: kapsam düşük — sayılar temsili olmayabilir".to_string(),
            "".to_string(),
            "HOST KAYNAK KULLANIMI (4 örnek)".to_string(),
            "  GPU           : ort     50.0%   tepe     96.0%".to_string(),
            "  VRAM          : ort   2048.0MB   tepe   3000.5MB".to_string(),
            "  CPU (sistem)  : ort     31.5%   tepe     80.0%".to_string(),
            "  RAM           : ort   9000.0MB   tepe   9100.0MB".to_string(),
            "  mem.pressure  : ort      0.0   tepe      0.2".to_string(),
            rule.clone(),
        ]
    );
    assert_eq!(
        bench::report(1, &timing(29), 0, &m)[3..],
        ["Yeterli veri yok (29 aralık).".to_string(), "Oyun ön planda ve hareketli miydi?".to_string(), rule]
    );
}

#[test]
fn only_direct_children_of_the_server_are_clients() {
    let ps = "  100     1   500 /usr/bin/virgl_test_server --use-egl\n\
                101   100   400 virgl_test_server\n\
                102   101   300 virgl_test_server render\n\
                103   100   200 virgl_test_server\n\
                104   100   100 something else\n\
                x     100   100 virgl_test_server\n";
    assert_eq!(
        virgl_clients(ps),
        vec![VirglClient { pid: 101, age_s: 400 }, VirglClient { pid: 103, age_s: 200 }]
    );
}

#[test]
fn a_process_that_is_not_there_has_no_age() {
    assert_eq!(process_pid(" 123 \n456\n").as_deref(), Some("123"));
    assert_eq!(process_pid(""), None);
    assert_eq!(process_age(Some("  789\n")), 789);
    assert_eq!(process_age(Some("")), 0);
    assert_eq!(process_age(None), 0);
}

#[test]
fn levers_are_reported_with_what_they_lack() {
    let f = |status, measured| perf::Finding {
        title: "Governor".into(),
        current: "powersave".into(),
        target: "performance".into(),
        note: "It costs power.".into(),
        status,
        measured,
    };
    let bar = "─".repeat(60);
    assert_eq!(
        perf::report(
            &vec![
                f(perf::Status::Improvable, false),
                f(perf::Status::Optimal, false),
                f(perf::Status::Unavailable, true),
            ],
            1,
            1,
            1
        ),
        vec![
            format!("\n  Performance diagnosis\n  {bar}"),
            "\n  ! Governor  [improvable]".to_string(),
            "      current: powersave".to_string(),
            "      hedef : performance".to_string(),
            "      impact : NOT MEASURED".to_string(),
            "      It costs power.".to_string(),
            "\n  ✓ Governor  [hedefte]".to_string(),
            "      current: powersave".to_string(),
            "      It costs power.".to_string(),
            "\n  · Governor  [not available here]".to_string(),
            "      current: powersave".to_string(),
            "      It costs power.".to_string(),
            format!("\n  {bar}"),
            "  1 on target · 1 improvable · 1 unavailable\n".to_string(),
            "  None of these has been MEASURED on this system. Take a".to_string(),
            "  baseline before applying anything:\n".to_string(),
            "      liw bench <paket> --duration 60\n".to_string(),
        ]
    );
    assert_eq!(perf::report(&vec![], 0, 0, 0).len(), 3);
}

// ---------------------------------------------------------------- order

#[test]
fn sorting_keeps_equals_in_their_order() {
    assert_eq!(by_size(&vec![3, 9, 3, 1]), vec![1, 0, 2, 3]);
    assert_eq!(by_text(&strings(&["b", "a", "b", "B"])), vec![3, 1, 0, 2]);
    assert_eq!(sorted_set(&strings(&["b", "a", "b"])), strings(&["a", "b"]));
}

#[test]
fn entries_are_kept_by_name() {
    let mut m: ByName<u8> = ByName::new();
    assert!(!m.insert("b", 1));
    assert!(!m.insert("a", 2));
    assert!(m.insert("b", 3));
    assert_eq!(m.len(), 2);
    assert_eq!(m.at(0).0, "a");
    assert_eq!(m.get("b"), Some(&3));
    assert!(m.remove("a"));
    assert!(!m.remove("a"));
    assert_eq!(m.position("b"), Some(0));
}

#[test]
fn calibration_writes_the_stable_path() {
    let link = "/dev/input/by-id/usb-kbd";
    assert_eq!(
        lasting_path("/dev/input/event3", Some(link)),
        (link.to_string(), "Stable path: /dev/input/by-id/usb-kbd".to_string())
    );
    let (path, line) = lasting_path("/dev/input/event3", None);
    assert_eq!(path, "/dev/input/event3");
    assert_eq!(
        line,
        "WARNING: no stable link under /dev/input/by-id for this device; eventN may change \
         across reboots."
    );
    assert_eq!(
        closing(Some("/c/config.toml")),
        strings(&["Kaydedildi: /c/config.toml", "The keymapper will now use this device."])
    );
    assert_eq!(closing(None), strings(&["(to save: liw keymap detect --save)"]));
}

#[test]
fn the_key_watch_opens_with_its_devices() {
    let devs = vec![
        device("/dev/input/event1", "Pad", DeviceKind::Pointer, 0, false),
        device("/dev/input/event3", "Keys", DeviceKind::Keyboard, 90, false),
        device("/dev/input/event9", "Ours", DeviceKind::Keyboard, 90, true),
    ];
    assert_eq!(watch_targets(&devs, None), strings(&["/dev/input/event3"]));
    assert_eq!(watch_targets(&devs, Some("/dev/input/event7")), strings(&["/dev/input/event7"]));
    let t = strings(&["/dev/input/event3", "/dev/input/event7"]);
    assert_eq!(
        watch_opening(&devs, &t),
        strings(&[
            "Dinlenen cihazlar:",
            "  /dev/input/event3  Keys",
            "  /dev/input/event7  ?",
            "",
            "Press keys — you will see which device produces which code.",
            "The 'code' column is the value to use in a profile. Ctrl+C to quit.",
            "",
            "DEVICE               CODE     STATE      NAME",
        ])
    );
    assert_eq!(watch_opening(&devs, &Vec::new()), strings(&["No device to listen to."]));
}

#[test]
fn a_sweep_says_where_it_is() {
    assert_eq!(
        sweep_opening('y', 5, 700),
        strings(&[
            "Sweep: y axis, 5 points, 700ms apart",
            "Watch the Android screen — note which numbers appear.",
            "",
        ])
    );
    assert_eq!(
        sweep_line(3, 'x', "0.75", "0.750", "0.500"),
        format!("  #{:<2}  {} = {:.2}   ({:.3}, {:.3})", 3, 'x', 0.75, 0.75, 0.5)
    );
}

#[test]
fn calibration_ends_without_a_device() {
    assert_eq!(DETECT_SECONDS, 20);
    assert_eq!(unheard(Unheard::TimedOut), Some("Timed out — no key detected."));
    assert_eq!(unheard(Unheard::Cancelled), Some("cancelled"));
    assert_eq!(unheard(Unheard::Closed), None);
}

#[test]
fn the_configured_device_is_known_by_its_node() {
    assert!(is_configured(Some("/dev/input/event3"), Some("/dev/input/event3")));
    assert!(!is_configured(Some("/dev/input/event3"), Some("/dev/input/event4")));
    assert!(!is_configured(Some("/dev/input/event3"), None));
    assert!(!is_configured(None, None), "two links that lead nowhere are not one device");
}
