use liwinux::runner::{RunnerEvent, RunnerState};
use liwinux::supervise::{
    app_request, autostart, changes, embedded_display, install_request, is_package_file,
    kernel_note, signal_of, still_owner, Autostart, Duty, KernelNote, Limits, Property, Pulse,
    Refusal, SessionState, Watchdog,
};

const LIMITS: Limits =
    Limits { auto_recover: true, unhealthy_threshold: 3, max_recovery_attempts: 2 };

fn pulse(session_running: bool, healthy: bool) -> Pulse {
    Pulse {
        session_running,
        healthy,
        health_changed: false,
        fullscreen_attempted: true,
        fullscreen_on_start: true,
    }
}

#[test]
fn a_session_that_comes_up_goes_fullscreen_once() {
    let mut w = Watchdog::default();
    assert_eq!(w.tick(pulse(false, false), LIMITS), vec![Duty::CheckKernel]);
    assert_eq!(
        w.tick(pulse(true, true), LIMITS),
        vec![Duty::GoFullscreen, Duty::Announce(SessionState::Running)]
    );
    assert_eq!(w.tick(pulse(true, true), LIMITS), vec![]);
    assert_eq!(
        w.tick(pulse(false, false), LIMITS),
        vec![Duty::ResetWindow, Duty::Announce(SessionState::Stopped)]
    );
}

#[test]
fn a_run_of_bad_ticks_is_answered_a_limited_number_of_times() {
    let mut w = Watchdog::default();
    w.tick(pulse(true, true), LIMITS);
    let bad = pulse(true, false);
    assert_eq!(
        w.tick(bad, LIMITS),
        vec![Duty::SayUnhealthy { strike: 1 }, Duty::Announce(SessionState::Degraded)]
    );
    assert_eq!(w.tick(bad, LIMITS), vec![Duty::SayUnhealthy { strike: 2 }]);
    assert_eq!(
        w.tick(bad, LIMITS),
        vec![
            Duty::SayUnhealthy { strike: 3 },
            Duty::Announce(SessionState::Recovering),
            Duty::Recover { attempt: 1 },
        ]
    );
    assert_eq!(
        w.tick(bad, LIMITS),
        vec![Duty::SayUnhealthy { strike: 1 }, Duty::Announce(SessionState::Degraded)]
    );
    w.tick(bad, LIMITS);
    assert!(w.tick(bad, LIMITS).contains(&Duty::Recover { attempt: 2 }));
    for _ in 0..10 {
        let duties = w.tick(bad, LIMITS);
        assert!(duties.contains(&Duty::SayExhausted), "{duties:?}");
        assert!(!duties.iter().any(|d| matches!(d, Duty::Recover { .. })), "{duties:?}");
    }
    // A healthy tick gives the attempts back.
    assert_eq!(
        w.tick(pulse(true, true), LIMITS),
        vec![Duty::SayRecovered, Duty::Announce(SessionState::Running)]
    );
    assert_eq!(w.attempts, 0);
}

#[test]
fn recovery_can_be_switched_off() {
    let mut w = Watchdog::default();
    let off = Limits { auto_recover: false, ..LIMITS };
    for _ in 0..20 {
        let duties = w.tick(pulse(true, false), off);
        assert!(!duties.iter().any(|d| matches!(d, Duty::Recover { .. })));
    }
}

#[test]
fn the_window_is_looked_at_rarely() {
    let mut w = Watchdog::default();
    let mut polls = Vec::new();
    for i in 1..=13 {
        if w.tick(pulse(true, true), LIMITS).contains(&Duty::PollWindow) {
            polls.push(i);
        }
    }
    assert_eq!(polls, vec![6, 12]);
}

#[test]
fn the_kernel_note_is_about_changes() {
    assert_eq!(kernel_note(true, Some(true)), KernelNote::Removed);
    assert_eq!(kernel_note(true, None), KernelNote::Quiet);
    assert_eq!(kernel_note(false, None), KernelNote::Quiet);
    assert_eq!(kernel_note(false, Some(false)), KernelNote::InPlace);
}

#[test]
fn the_mapper_starts_by_itself_only_with_a_keyboard() {
    assert_eq!(autostart(false, true), Autostart::Disabled);
    assert_eq!(autostart(true, false), Autostart::NoKeyboard);
    assert_eq!(autostart(true, true), Autostart::Start);
    assert!(still_owner(Some(":1.5"), Some(":1.5")));
    assert!(!still_owner(Some(":1.5"), Some(":1.6")));
    assert!(!still_owner(None, None));
}

#[test]
fn requests_are_refused_with_a_reason() {
    match app_request("\"a b\"", false, false, "launching apps") {
        Err(Refusal::Invalid(m)) => assert_eq!(m, "not a package name: \"a b\""),
        other => panic!("{other:?}"),
    }
    match app_request("\"a.b\"", true, false, "launching apps") {
        Err(Refusal::NoSession(m)) => {
            assert_eq!(m, "the session is stopped — start it before launching apps")
        }
        other => panic!("{other:?}"),
    }
    assert!(app_request("\"a.b\"", true, true, "x").is_ok());
    match install_request("/x.apk", false, true) {
        Err(Refusal::Invalid(m)) => assert_eq!(m, "no such file: /x.apk"),
        other => panic!("{other:?}"),
    }
    match install_request("/x.zip", true, true) {
        Err(Refusal::Invalid(m)) => assert_eq!(m, "not an .apk"),
        other => panic!("{other:?}"),
    }
    match install_request("/x.APK", true, false) {
        Err(Refusal::NoSession(m)) => {
            assert_eq!(m, "the session is stopped — start it before installing")
        }
        other => panic!("{other:?}"),
    }
    assert!(install_request("/x.Apk", true, true).is_ok());
    assert!(!is_package_file("/dir.d/.apk"));
    assert!(is_package_file("a.apk"));
}

#[test]
fn an_empty_display_restores_the_default() {
    assert_eq!(embedded_display("  "), None);
    assert_eq!(embedded_display(" wayland-liw\n").as_deref(), Some("wayland-liw"));
}

#[test]
fn events_go_out_by_kind_and_detail() {
    assert_eq!(
        signal_of(&RunnerEvent::ProfileActivated { package: "p".into(), profile: "n".into() }),
        ("profile-activated", "p\tn".to_string())
    );
    assert_eq!(
        signal_of(&RunnerEvent::ProfileCleared { package: "p".into() }),
        ("profile-cleared", "p".to_string())
    );
    assert_eq!(
        signal_of(&RunnerEvent::OverlayPaused { package: "p".into() }),
        ("overlay-paused", "p".to_string())
    );
    for (e, kind) in [
        (RunnerEvent::Grabbed, "grabbed"),
        (RunnerEvent::Ungrabbed, "ungrabbed"),
        (RunnerEvent::GameModeOn, "game-mode-on"),
        (RunnerEvent::GameModeOff, "game-mode-off"),
        (RunnerEvent::FocusGained, "focus-gained"),
        (RunnerEvent::FocusLost, "focus-lost"),
        (RunnerEvent::EscapeRequested, "escape-requested"),
    ] {
        assert_eq!(signal_of(&e), (kind, String::new()));
    }
}

#[test]
fn only_what_changed_is_announced() {
    let a = RunnerState::default();
    assert_eq!(changes(&a, &a), vec![]);
    let mut b = RunnerState::default();
    b.latency_p50_us = 80;
    assert_eq!(changes(&a, &b), vec![], "latency moves all the time");
    b.running = true;
    b.foreground = Some("p".into());
    b.grabbed = true;
    assert_eq!(
        changes(&a, &b),
        vec![Property::Running, Property::Grabbed, Property::Foreground]
    );
}
