use liwinux::backend::BackendError;
use liwinux::by_name::ByName;
use liwinux::engine::{AimFigures, EventFigures, Figures, InputEvent, TriggerKind};
use liwinux::latency::LatencyStats;
use liwinux::num::Num;
use liwinux::profile::{Binding, Profile, Trigger};
use liwinux::runner::{
    is_system_overlay, pipe_is_dead, Effect, Repair, Route, Runner, RunnerConfig, RunnerError,
    RunnerEvent, RunnerState, ESC_STREAK, KEY_ESC,
};
use liwinux::touch::{Norm, TouchAction};

fn n(v: f32) -> Num {
    Num::of(v.to_bits())
}

fn norm(x: f32, y: f32) -> Norm {
    Norm::new(n(x), n(y))
}

fn profile() -> Profile {
    let mut b = ByName::new();
    b.insert("jump", Binding::Tap { trigger: Trigger::Key(57), at: norm(0.9, 0.8) });
    Profile { name: "Forge".into(), package: "com.game".into(), bindings: b }
}

fn runner(hotkey: Option<u16>, focused: bool) -> Runner {
    let cfg = RunnerConfig {
        device: "/dev/input/event3".into(),
        mouse: None,
        grab: true,
        hotkey,
        screen_px: (2560, 1440),
    };
    Runner::new(cfg, n(2560.0 / 1440.0), true, focused)
}

fn press(k: u16) -> InputEvent {
    InputEvent::Press(TriggerKind::Key(k))
}

fn figures() -> EventFigures {
    EventFigures { stick: norm(0.0, 0.0), total: liwinux::engine::Motion::none() }
}

fn no_aim() -> Figures {
    let z = n(0.0);
    let p = norm(0.0, 0.0);
    let aim = AimFigures {
        travel: z,
        hi: n(1.0),
        next: p,
        plain: p,
        free: p,
        drift: z,
        reach: z,
        seat: p,
        second: p,
        edge_gap_x: z,
        edge_gap_y: z,
        idle_limit: z,
    };
    Figures { stick: p, aim, swipes: vec![] }
}

/// The effects of a step, in words.
fn words(effects: &[Effect]) -> Vec<String> {
    effects
        .iter()
        .map(|e| match e {
            Effect::Touch(a) => format!("touch {}", a.len()),
            Effect::ReleaseAll => "release all".to_string(),
            Effect::Ungrab => "ungrab".to_string(),
            Effect::Report(r) => format!("{r:?}"),
        })
        .collect()
}

#[test]
fn only_a_real_break_counts_as_dead() {
    let dead = BackendError::Dispatch("could not write to pipe: Broken pipe (os error 32)".into());
    assert!(pipe_is_dead(&dead));
    let misaligned =
        BackendError::Dispatch("partial write: 12/24 bytes — pipe alignment broken".into());
    assert!(pipe_is_dead(&misaligned), "a misaligned pipe is dead too");
    let busy = BackendError::Dispatch("invalid pointer id 12".into());
    assert!(!pipe_is_dead(&busy));
}

#[test]
fn default_state_is_idle() {
    let s = RunnerState::default();
    assert!(!s.running);
    assert!(s.active_profile.is_none());
    assert!(!s.grabbed);
    assert!(!s.game_mode);
    assert!(!s.host_focused);
}

#[test]
fn escape_requires_repeated_presses() {
    assert!(ESC_STREAK > 1);
}

#[test]
fn assistant_and_systemui_are_overlays() {
    assert!(is_system_overlay("com.google.android.googlequicksearchbox"));
    assert!(is_system_overlay("com.android.systemui"));
}

#[test]
fn real_apps_are_not_overlays() {
    for p in [
        "com.ForgeGames.SpecialForcesGroup2",
        "com.android.settings",
        "com.android.permissioncontroller",
        "com.android.vending",
    ] {
        assert!(!is_system_overlay(p), "{p} must not count as a layer");
    }
}

#[test]
fn errors_say_what_broke() {
    assert_eq!(RunnerError::Device("busy".into()).message(), "could not open device: busy");
    assert_eq!(
        RunnerError::Backend(BackendError::Init("no".into())).message(),
        "could not set up the touch backend: backend init failed: no"
    );
    assert_eq!(RunnerError::Stream("eof".into()).message(), "event stream broke: eof");
}

/// Without a hotkey a profile takes the devices as soon as it activates.
#[test]
fn a_profile_takes_the_devices() {
    let p = profile();
    let mut r = runner(None, true);
    assert!(r.foreground_wants_grab("com.game", true));
    let out = r.on_foreground("com.game", Some(&p), true);
    assert_eq!(
        words(&out),
        vec![
            "release all",
            "ProfileActivated { package: \"com.game\", profile: \"Forge\" }",
            "Grabbed"
        ]
    );
    assert!(r.state().grabbed);
    assert!(r.on_foreground("com.game", Some(&p), true).is_empty(), "nothing changed");

    let acts = r.feed_event(press(57), &figures());
    assert_eq!(acts.len(), 1);
    let out = r.on_foreground("com.other", None, false);
    assert_eq!(
        words(&out),
        vec![
            "touch 1",
            "release all",
            "ProfileCleared { package: \"com.other\" }",
            "ungrab",
            "Ungrabbed"
        ]
    );
    assert!(r.engine().is_none());
}

#[test]
fn nothing_is_mapped_without_focus() {
    let p = profile();
    let mut r = runner(None, false);
    let out = r.on_foreground("com.game", Some(&p), true);
    assert_eq!(words(&out).len(), 2, "no grab without focus");
    assert!(r.engine().is_none());
    assert!(r.feed_event(press(57), &figures()).is_empty());
    assert!(r.focus_wants_grab(true));
    assert_eq!(words(&r.on_focus(true, true)), vec!["Grabbed", "FocusGained"]);
    assert!(r.engine().is_some());
    assert_eq!(
        words(&r.on_focus(false, false)),
        vec!["touch 0", "release all", "ungrab", "Ungrabbed", "FocusLost"]
    );
    assert!(r.on_focus(false, false).is_empty());
}

#[test]
fn the_hotkey_toggles_game_mode() {
    let p = profile();
    let mut r = runner(Some(40), true);
    r.on_foreground("com.game", Some(&p), true);
    assert!(r.engine().is_none(), "game mode starts off with a hotkey");
    assert!(r.key_wants_grab(press(40)));
    let (out, route) = r.on_key(press(40), true);
    assert_eq!((words(&out), route), (vec!["Grabbed".into(), "GameModeOn".into()], Route::Taken));
    let (out, _) = r.on_key(press(40), true);
    assert_eq!(words(&out).last().unwrap(), "GameModeOff");
    assert!(!r.state().grabbed);
}

#[test]
fn escape_needs_a_streak() {
    let p = profile();
    let mut r = runner(None, true);
    r.on_foreground("com.game", Some(&p), true);
    assert_eq!(r.on_key(press(KEY_ESC), true).1, Route::Taken);
    assert_eq!(r.on_key(press(KEY_ESC), true).1, Route::Taken);
    assert_eq!(r.on_key(press(57), true).1, Route::Feed, "another key starts the count anew");
    assert_eq!(r.on_key(press(KEY_ESC), true).1, Route::Taken);
    assert_eq!(r.on_key(press(KEY_ESC), true).1, Route::Taken);
    let (out, route) = r.on_key(press(KEY_ESC), true);
    assert_eq!(route, Route::Stop);
    assert!(matches!(out[0], Effect::Report(RunnerEvent::EscapeRequested)));
}

#[test]
fn a_layer_pauses_and_the_game_resumes() {
    let p = profile();
    let mut r = runner(None, true);
    r.on_foreground("com.game", Some(&p), true);
    let out = r.on_foreground("com.android.systemui", None, false);
    assert_eq!(
        words(&out).last().unwrap(),
        "OverlayPaused { package: \"com.android.systemui\" }"
    );
    assert!(r.engine().is_none() && !r.state().grabbed);
    assert_eq!(r.state().active_profile.as_deref(), Some("Forge"));
    let out = r.on_foreground("com.game", Some(&p), true);
    assert_eq!(words(&out).last().unwrap(), "Grabbed");
    assert!(r.engine().is_some());
}

#[test]
fn a_broken_pipe_is_renewed_with_a_fresh_engine() {
    let p = profile();
    let mut r = runner(None, true);
    r.on_foreground("com.game", Some(&p), true);
    let acts = r.feed_event(press(57), &figures());
    assert!(matches!(acts[..], [TouchAction::Down { .. }]));
    assert!(!r.wants_pipe());
    assert!(!r.dispatched(&Err(BackendError::Dispatch("Broken pipe".into()))));
    assert!(r.wants_pipe());
    r.on_repair(Repair::NotYet);
    assert!(r.wants_pipe());
    r.on_repair(Repair::Renewed);
    assert!(!r.wants_pipe());
    assert_eq!(r.engine().unwrap().active_pointers(), 0, "Android has forgotten every touch");
    assert!(r.feed_tick(5, &no_aim()).is_empty());
    assert!(!r.wants_ticks());
}

#[test]
fn the_loop_ends_with_everything_given_back() {
    let p = profile();
    let mut r = runner(None, true);
    r.on_foreground("com.game", Some(&p), true);
    r.feed_event(press(57), &figures());
    let mut lat = LatencyStats::new();
    lat.record_duration(80);
    let out = r.finish(&lat);
    assert_eq!(words(&out), vec!["touch 1", "release all", "ungrab"]);
    let s = r.state();
    assert!(!s.running && !s.grabbed && s.active_profile.is_none());
    assert_eq!((s.latency_p50_us, s.latency_p99_us), (80, 80));
}

#[test]
fn a_closed_foreground_ends_the_loop() {
    let mut r = runner(None, true);
    let p = profile();
    let _ = r.on_foreground("com.game", Some(&p), true);
    assert_eq!(r.on_foreground_closed(), Route::Stop);
    let _ = r.finish(&LatencyStats::new());
    let s = r.state();
    assert!(!s.running && !s.grabbed && s.active_profile.is_none());
}
