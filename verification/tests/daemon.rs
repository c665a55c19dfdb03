use liwinux::helper::{
    bad_buffer, boot_completed, clamp_log_lines, clean_output, container_pid, display_px,
    extract_pkg, logcat, parse_foreground, property, restart_audio, touch_pipe_path, valid_layer,
    valid_log_buffer, AudioOutcome, DisplayFlaw,
};
use liwinux::keymapper::{acquire_pipe, is_android, worth_telling, Handle, PipeWait, Start, PIPE_TRIES};
use liwinux::net::{
    active_firewall, adds_rules, diagnose, find_hijacks, net_repair, rule_to_add, Probe,
};
use liwinux::window::{after_attempt, script_path, Attempt, WindowGeometry, WindowState};

// ------------------------------------------------------------------ helper

#[test]
fn log_buffer_allowlist_rejects_injection() {
    for bad in ["main; rm -rf /", "--help", "", "MAIN", "main main", "-b", "../etc/passwd"] {
        assert!(valid_log_buffer(bad).is_none(), "{bad:?} must be refused");
    }
    for good in ["main", "crash", "system", "events", "all"] {
        assert_eq!(valid_log_buffer(good), Some(good));
    }
}

#[test]
fn log_lines_are_bounded() {
    assert_eq!(clamp_log_lines(0), 1);
    assert_eq!(clamp_log_lines(500), 500);
    assert_eq!(clamp_log_lines(u32::MAX), 2000);
}

const REAL: &str = "  mResumedActivity: ActivityRecord{ef108a1 u0 com.kiloo.subwaysurf/com.sybogames.chili.multidex.ChiliMultidexSupportActivity t42}";

#[test]
fn parses_resumed_activity() {
    assert_eq!(parse_foreground(REAL).as_deref(), Some("com.kiloo.subwaysurf"));
}

#[test]
fn parses_top_resumed_variant() {
    let s = "topResumedActivity=ActivityRecord{abc u0 com.android.vending/.AssistActivity t9}";
    assert_eq!(parse_foreground(s).as_deref(), Some("com.android.vending"));
}

#[test]
fn unknown_format_yields_none() {
    assert!(parse_foreground("unrelated output\nanother line").is_none());
}

#[test]
fn ignores_tokens_without_package_shape() {
    assert!(extract_pkg(" u0 t42}").is_none());
}

#[test]
fn the_log_command_names_only_known_words() {
    assert_eq!(logcat("main; rm", 10, false), None);
    assert_eq!(
        logcat("crash", 99999, false).unwrap(),
        vec!["logcat", "-d", "-b", "crash", "-t", "2000"]
    );
    assert_eq!(
        logcat("all", 0, true).unwrap(),
        vec![
            "logcat", "-d", "-b", "all", "-v", "monotonic", "-v", "threadtime", "-t", "1",
            "hwcomposer:S", "*:I",
        ]
    );
    assert_eq!(bad_buffer("\"x\""), "invalid buffer: \"x\" (main|crash|system|events|all)");
}

#[test]
fn layer_names_are_bounded_and_printable() {
    assert!(valid_layer("SurfaceView[com.x/.Main](BLAST)#123"));
    assert!(!valid_layer(""));
    assert!(!valid_layer("a\nb"));
    assert!(!valid_layer("a\u{85}b"));
    assert!(valid_layer(&"x".repeat(512)));
    assert!(!valid_layer(&"x".repeat(513)));
    assert!(!valid_layer(&"é".repeat(257)));
    assert!(valid_layer(&"é".repeat(256)));
}

#[test]
fn killing_audio_has_three_outcomes() {
    assert_eq!(restart_audio(Some(0)), AudioOutcome::Killed);
    assert_eq!(restart_audio(Some(1)), AudioOutcome::NotRunning);
    assert_eq!(restart_audio(Some(2)), AudioOutcome::Failed);
    assert_eq!(restart_audio(None), AudioOutcome::Failed);
}

#[test]
fn tool_noise_is_dropped() {
    let out = "[13:14:15] % lxc-info -P /var\n[13:14:15] RUNNING  \n2560\n";
    assert_eq!(clean_output(out, "\n"), "2560");
    assert_eq!(property(out), "2560");
    assert_eq!(clean_output("a\nb\n", "|"), "a|b");
    assert!(boot_completed(" 1\n"));
    assert!(!boot_completed("0"));
}

#[test]
fn a_display_needs_two_positive_numbers() {
    assert_eq!(display_px(" 2560\n", "1440"), Ok((2560, 1440)));
    assert_eq!(display_px("x", "1440"), Err(DisplayFlaw::Width));
    assert_eq!(display_px("2560", ""), Err(DisplayFlaw::Height));
    assert_eq!(display_px("0", "1440"), Err(DisplayFlaw::Zero));
    assert_eq!(
        DisplayFlaw::Width.message("\"x\""),
        "waydroid.display_width is not a number: \"x\" — hwcomposer may not have hotplugged yet"
    );
    assert_eq!(
        DisplayFlaw::Zero.message(""),
        "display size is 0 — hwcomposer has not hotplugged yet"
    );
}

#[test]
fn the_container_is_seen_through_its_first_process() {
    assert_eq!(container_pid("4321\n77\n"), Some(4321));
    assert_eq!(container_pid(""), None);
    assert_eq!(container_pid("abc"), None);
    assert_eq!(touch_pipe_path(4321), "/proc/4321/root/dev/input/wl_touch_events");
}

// ------------------------------------------------------------------ network

const RULES: &str = r#"
table ip unwall {
	chain dns_redirect {
		iifname != "enp3s0" udp dport 53 dnat to 127.0.0.53:53
	}
}
table inet lxc {
	chain input {
		iifname "waydroid0" udp dport { 53, 67 } accept
	}
}
"#;

#[test]
fn finds_the_unwall_dns_hijack() {
    let h = find_hijacks(RULES);
    assert_eq!(h.len(), 1);
    assert_eq!(h[0].table, "ip unwall");
    assert!(h[0].rule.contains("dnat to 127.0.0.53"));
}

#[test]
fn waydroid_own_rules_are_not_hijacks() {
    let only_lxc = "table inet lxc {\n\tiifname \"waydroid0\" udp dport { 53, 67 } accept\n}\n";
    assert!(find_hijacks(only_lxc).is_empty());
}

#[test]
fn clean_ruleset_reports_nothing() {
    assert!(find_hijacks("table ip filter {\n\tchain input {\n\t}\n}\n").is_empty());
}

#[test]
fn every_missing_piece_is_a_problem() {
    let p = Probe {
        addresses: String::new(),
        dnsmasq_running: false,
        forwarding: None,
        lease_present: false,
        firewall: "none".into(),
        ruleset: RULES.into(),
    };
    let d = diagnose(&p);
    assert!(!d.bridge_up && d.bridge_addr.is_none() && !d.ip_forward && !d.waydroid_nat);
    assert_eq!(
        d.problems,
        vec![
            "no waydroid0 bridge",
            "dnsmasq is not running",
            "ip_forward is off",
            "no NAT/masquerade rule",
            "no DHCP lease — the container got no IP",
            "a rule in table 'ip unwall' hijacks DNS: iifname != \"enp3s0\" udp dport 53 dnat to \
             127.0.0.53:53",
        ]
    );
}

#[test]
fn a_sound_network_has_no_problems() {
    let p = Probe {
        addresses: "5: waydroid0    inet 192.168.240.1/24 brd 192.168.240.255\n".into(),
        dnsmasq_running: true,
        forwarding: Some("1\n".into()),
        lease_present: true,
        firewall: "ufw".into(),
        ruleset: "masquerade".into(),
    };
    let d = diagnose(&p);
    assert_eq!(d.bridge_addr.as_deref(), Some("192.168.240.1/24"));
    assert!(d.problems.is_empty());
    assert!(adds_rules(&d.active_firewall));
    assert_eq!(
        net_repair(&d, &vec![true, false, true]),
        "ufw allow in on waydroid0 to any port 67 proto udp comment liwinux dhcp\n\
         ufw route allow in on waydroid0 comment liwinux outbound"
    );
    assert_eq!(rule_to_add(1).join(" "), "allow in on waydroid0 to any port 53 comment liwinux dns");
}

#[test]
fn a_repair_leaves_foreign_tables_alone() {
    let p = Probe {
        addresses: String::new(),
        dnsmasq_running: true,
        forwarding: None,
        lease_present: true,
        firewall: "nftables".into(),
        ruleset: RULES.into(),
    };
    let d = diagnose(&p);
    assert_eq!(
        net_repair(&d, &vec![]),
        "WARNING: 1 foreign rules hijack DNS; they were NOT TOUCHED. We do not silently change \
         another tool's configuration. Tables: ip unwall"
    );
}

#[test]
fn the_first_active_firewall_counts() {
    assert_eq!(active_firewall(true, true, false, false), "ufw");
    assert_eq!(active_firewall(false, true, true, true), "firewalld");
    assert_eq!(active_firewall(false, false, true, true), "nftables");
    assert_eq!(active_firewall(false, false, false, true), "iptables");
    assert_eq!(active_firewall(false, false, false, false), "none");
}

// ------------------------------------------------------------------ mapper

#[test]
fn android_has_the_focus_in_its_own_window_and_in_ours() {
    assert!(is_android("waydroid"));
    assert!(is_android("liwinux-game"));
}

#[test]
fn the_launcher_is_not_android() {
    assert!(!is_android("liwinux"));
}

#[test]
fn the_class_is_matched_regardless_of_case() {
    assert!(is_android("Waydroid"));
    assert!(is_android("liwinux-Game"));
}

#[test]
fn nothing_focused_is_not_android() {
    assert!(!is_android(""));
}

#[test]
fn focus_is_told_only_when_it_changes() {
    let mut h = Handle::new();
    assert_eq!(h.set_active_window("waydroid"), None, "nothing runs yet");
    let cfg = h.start("/dev/input/event3".into(), None, true, Some(40), Some((1920, 1080)));
    assert_eq!(cfg.screen_px, (1920, 1080));
    assert_eq!(h.set_active_window("liwinux"), None, "focus starts off");
    assert_eq!(h.set_active_window("waydroid"), Some(true));
    assert_eq!(h.set_active_window("Waydroid"), None);
    assert_eq!(h.set_active_window(""), Some(false));
    assert!(h.stop());
    assert!(!h.stop());
}

#[test]
fn a_start_needs_a_keyboard() {
    let mut h = Handle::new();
    assert!(matches!(h.plan_start(None, None, true, None), Start::NoKeyboard));
    match h.plan_start(Some("/dev/kb"), Some("/dev/guess"), true, None) {
        Start::On { device, warn } => assert_eq!((device.as_str(), warn), ("/dev/kb", true)),
        other => panic!("{other:?}"),
    }
    match h.plan_start(None, Some("/dev/guess"), true, Some(1)) {
        Start::On { device, warn } => assert_eq!((device.as_str(), warn), ("/dev/guess", false)),
        other => panic!("{other:?}"),
    }
    h.set_screen_px(0, 900);
    let cfg = h.start("/dev/kb".into(), None, false, None, None);
    assert_eq!(cfg.screen_px, (2560, 1440), "an empty window says nothing");
    assert!(matches!(h.plan_start(Some("/dev/kb"), None, true, None), Start::Already));
    assert_eq!(Start::no_keyboard(), "no keyboard — calibrate with 'liw keymap detect --save'");
}

#[test]
fn the_pipe_is_asked_for_until_it_comes() {
    assert_eq!(acquire_pipe(0, false), PipeWait::Wait { note: true });
    assert_eq!(acquire_pipe(3, false), PipeWait::Wait { note: false });
    assert_eq!(acquire_pipe(3, true), PipeWait::Acquired { attempt: 4 });
    assert_eq!(acquire_pipe(PIPE_TRIES - 1, false), PipeWait::GaveUp);
    assert!(worth_telling("com.x"));
    assert!(!worth_telling(""));
}

// ------------------------------------------------------------------ window

#[test]
fn reset_clears_attempt_flag() {
    let mut s = WindowState::new();
    s.mark_fullscreen_attempted();
    assert!(s.fullscreen_attempted());
    s.reset();
    assert!(!s.fullscreen_attempted());
    assert!(!s.get().found);
}

#[test]
fn geometry_starts_empty_and_updates() {
    let mut s = WindowState::new();
    assert!(!s.get().found);
    s.set(WindowGeometry { found: true, x: 0, y: 0, width: 2560, height: 1440, fullscreen: true });
    let g = s.get();
    assert!(g.found && g.fullscreen);
    assert_eq!((g.width, g.height), (2560, 1440));
}

#[test]
fn closed_window_reenables_fullscreen_attempt() {
    let mut s = WindowState::new();
    s.set(WindowGeometry { found: true, x: 0, y: 0, width: 2560, height: 1440, fullscreen: true });
    s.mark_fullscreen_attempted();

    assert!(!s.note_window_gone(), "must not reset while the window exists");
    assert!(s.fullscreen_attempted());

    s.set(WindowGeometry::default());
    assert!(s.note_window_gone(), "the closure must be reported");
    assert!(!s.fullscreen_attempted(), "the flag must be cleared");
}

#[test]
fn user_leaving_fullscreen_is_not_fought() {
    let mut s = WindowState::new();
    s.set(WindowGeometry { found: true, x: 100, y: 100, width: 1280, height: 720, fullscreen: false });
    s.mark_fullscreen_attempted();
    assert!(!s.note_window_gone());
    assert!(s.fullscreen_attempted(), "the user decision must be kept");
}

#[test]
fn nothing_to_report_when_never_attempted() {
    let mut s = WindowState::new();
    assert!(!s.note_window_gone());
}

#[test]
fn closure_is_reported_once() {
    let mut s = WindowState::new();
    s.set(WindowGeometry { found: true, ..Default::default() });
    s.mark_fullscreen_attempted();
    s.set(WindowGeometry::default());
    assert!(s.note_window_gone());
    assert!(!s.note_window_gone(), "not a second time");
}

#[test]
fn a_focused_window_is_made_fullscreen_once() {
    let mut s = WindowState::new();
    assert!(s.wants_fullscreen("Waydroid", true));
    assert!(!s.wants_fullscreen("Waydroid", false));
    assert!(!s.wants_fullscreen("konsole", true));
    s.mark_fullscreen_attempted();
    assert!(!s.wants_fullscreen("Waydroid", true));
}

#[test]
fn attempts_end() {
    let there = WindowGeometry { found: true, ..Default::default() };
    let full = WindowGeometry { found: true, fullscreen: true, ..Default::default() };
    assert_eq!(after_attempt(1, 3, full), Attempt::Done);
    assert_eq!(after_attempt(1, 3, there), Attempt::Again);
    assert_eq!(after_attempt(3, 3, there), Attempt::Refused);
    assert_eq!(after_attempt(3, 3, WindowGeometry::default()), Attempt::NoWindow);
}

#[test]
fn scripts_are_looked_for_near_the_user_first() {
    let places = script_path(None, Some("/home/me"), Some("/opt/liw/bin/liwd"));
    assert_eq!(
        places[..4],
        [
            "/home/me/.local/share/liwinux/kwin/fullscreen.js",
            "/usr/share/liwinux/kwin/fullscreen.js",
            "/usr/local/share/liwinux/kwin/fullscreen.js",
            "/opt/liw/bin/scripts/kwin/fullscreen.js",
        ]
    );
    assert_eq!(
        script_path(Some("/data"), Some("/home/me"), None)[0],
        "/data/liwinux/kwin/fullscreen.js"
    );
}
