use liwinux::trace::{new_lines, LogEvent, LogSink, Sight, Stall, Watch};
use liwinux::trace_report::{
    host_facts, opening, report, window_ms, Findings, Frames, Gap, Hitch, HostFacts, HostRow, Meters, Noise,
    Spread, Verdict,
};

fn gc(at_us: u64) -> LogEvent {
    LogEvent {
        at_us,
        pid: 7,
        tag: "art".into(),
        label: "garbage collection".into(),
        input: false,
        msg: "GC freed".into(),
    }
}

#[test]
fn overlapping_log_fetches_are_deduplicated() {
    let mut s = LogSink::default();
    assert_eq!(s.add(&vec![gc(1000), gc(2000)]).len(), 2);
    // Second pull: one old line, one new.
    assert_eq!(s.add(&vec![gc(2000), gc(3000)]).len(), 1);
    assert_eq!(s.events.len(), 3);
}

#[test]
fn an_event_is_told_by_moment_process_and_words() {
    let mut s = LogSink::default();
    let other_pid = LogEvent { pid: 8, ..gc(1000) };
    let other_msg = LogEvent { msg: "GC failed".into(), ..gc(1000) };
    let other_tag = LogEvent { tag: "dalvik".into(), ..gc(1000) };
    let fresh = s.add(&vec![gc(1000), other_pid, other_msg, other_tag]);
    assert_eq!(fresh.len(), 3);
    assert_eq!(fresh[1].pid, 8);
    assert_eq!(fresh[2].msg, "GC failed");
}

#[test]
fn events_from_before_the_run_are_dropped() {
    let mut s = LogSink::default();
    s.add(&vec![gc(749_999), gc(750_000), gc(2_000_000)]);
    s.keep_from(1_000_000);
    let kept: Vec<u64> = s.events.iter().map(|e| e.at_us).collect();
    assert_eq!(kept, vec![750_000, 2_000_000]);
}

#[test]
fn a_freeze_is_seen_while_it_happens_and_keeps_its_log() {
    let mut w = Watch::new(0);
    assert_eq!(w.look(Some(10), 100_000), Sight::Nothing);
    assert!(w.hear(&vec![gc(90_000)]).is_empty(), "nothing to show outside a freeze");
    // Exactly the limit is no freeze yet.
    assert_eq!(w.look(Some(10), 1_000_000), Sight::Nothing);
    assert_eq!(w.look(Some(10), 1_000_001), Sight::Froze);
    assert!(w.in_stall());
    assert!(!w.shows_figures(100));
    assert_eq!(w.look(Some(10), 1_200_000), Sight::Nothing, "it begins once");
    assert_eq!(
        w.hear(&vec![gc(90_000), gc(1_100_000)]),
        vec!["      \u{1b}[2mgarbage collection\u{1b}[0m art: GC freed".to_string()]
    );
    assert_eq!(w.look(Some(20), 2_500_000), Sight::Thawed { start_us: 100_000 });
    assert!(!w.in_stall());
    assert!(w.shows_figures(5));
    assert!(!w.shows_figures(4));
    let (stalls, events) = w.finish(0);
    assert_eq!(stalls.len(), 1);
    assert_eq!(stalls[0].start_us, 100_000);
    assert_eq!(stalls[0].end_us, Some(2_500_000));
    assert_eq!(stalls[0].log.len(), 1);
    assert_eq!(stalls[0].log[0].at_us, 1_100_000);
    assert_eq!(events.len(), 2);
}

#[test]
fn a_freeze_under_way_at_the_end_has_no_end() {
    let mut w = Watch::new(0);
    assert_eq!(w.look(None, 900_001), Sight::Froze);
    let (stalls, _) = w.finish(0);
    assert_eq!(stalls[0].end_us, None);
}

#[test]
fn only_what_the_second_pull_adds_is_counted() {
    assert_eq!(new_lines("a\nb\n", "b\nc\r\na\nd\nc"), "c\nd\nc");
    assert_eq!(new_lines("", ""), "");
    assert_eq!(new_lines("a", "a"), "");
}

fn spread(mean: &str, peak: &str) -> Spread {
    Spread { mean: mean.into(), peak: peak.into() }
}

fn findings() -> Findings {
    Findings {
        frames: Frames {
            intervals: 600,
            frames: 601,
            coverage: "99".into(),
            locked: Some(("60".into(), "180".into())),
            jank: "25.0".into(),
            period: "16.67".into(),
            p50: "16.67".into(),
            fps: "60".into(),
            p99: "22.10".into(),
            worst: "81.00".into(),
            jank_pct: "1.83".into(),
        },
        stalls: vec![],
        lasted: vec![],
        gaps: vec![],
        hitches: vec![],
        events: vec![],
        host: vec![],
        meters: Meters {
            gpu: spread("   50.0", "   96.0"),
            cpu: spread("   20.0", "   30.0"),
            mem: spread("    0.1", "    0.4"),
            vram: spread("   4000", "   4094"),
            vram_total: Some(("12288".into(), "33".into())),
        },
        noise: None,
        verdicts: vec![Verdict { headline: "Smooth".into(), detail: "Nothing stands out.".into() }],
        host_verdict: None,
        mono: true,
    }
}

#[test]
fn too_few_frames_are_said_to_be_too_few() {
    let mut f = findings();
    f.frames.intervals = 29;
    let rule = "=".repeat(64);
    assert_eq!(
        report(&f),
        vec![
            rule.clone(),
            "Not enough frame data (29 intervals).".to_string(),
            "Was the game in the foreground and MOVING? A static screen produces no frames."
                .to_string(),
            rule,
        ]
    );
}

#[test]
fn a_smooth_run_gives_frames_and_a_verdict() {
    let rule = "=".repeat(64);
    assert_eq!(
        report(&findings()),
        vec![
            rule.clone(),
            "FRAMES 600 intervals, 601 unique frames, coverage 99%".to_string(),
            "       the game is locked to 60 FPS (display 180 Hz)".to_string(),
            "       jank threshold >25.0 ms (1.5x the game period of 16.67 ms)".to_string(),
            "  p50 16.67 ms (60 FPS)   p99 22.10 ms   worst 81.00 ms   jank>1.5x %1.83"
                .to_string(),
            "".to_string(),
            "VERDICT".to_string(),
            "  ▸ Smooth".to_string(),
            "    Nothing stands out.".to_string(),
            rule,
        ]
    );
}

#[test]
fn freezes_are_listed_with_their_evidence() {
    let mut f = findings();
    f.stalls = vec![
        Stall { start_us: 1_000_000, end_us: Some(3_000_000), log: vec![gc(1_500_000)] },
        Stall { start_us: 9_000_000, end_us: None, log: vec![] },
    ];
    f.lasted = vec!["2.0".into(), "".into()];
    f.gaps = vec![
        Gap { at_us: 2_999_999, len_us: 1_000_000, shown: "1.0".into() },
        Gap { at_us: 5_000_000, len_us: 1_500_000, shown: "1.5".into() },
    ];
    f.events = vec![gc(4_499_999), gc(4_500_000), gc(7_000_000), gc(7_000_001)];
    let page = report(&f);
    let at = page.iter().position(|l| l == "DONMALAR").unwrap();
    assert_eq!(page[at - 1], "");
    let line = format!("      {:<24} art: GC freed", "garbage collection");
    assert_eq!(
        page[at + 1..at + 9],
        [
            "  2.0 sn".to_string(),
            line.clone(),
            "  (still ongoing when the trace ended)".to_string(),
            "      No event at all on the Android side — the cause is most likely OUTSIDE the \
             container."
                .to_string(),
            "  1.5 sn (kare verisinden)".to_string(),
            line.clone(),
            line,
            "".to_string(),
        ]
    );
}

fn sample(at_us: u64, gpu: u64, mem: u64, vram: u64, shown: &str) -> HostRow {
    HostRow { at_us, gpu_centi: gpu, mem_centi: mem, vram_mb: vram, shown: shown.into() }
}

fn hitch(at_us: u64, len_us: u64, evidence: Vec<LogEvent>) -> Hitch {
    Hitch { at_us, len_us, shown: format!("{}.0", len_us / 1000), evidence }
}

#[test]
fn the_longest_stutters_come_first_with_the_closest_sample() {
    let mut f = findings();
    f.hitches = vec![hitch(1_000_000, 30_000, vec![]), hitch(2_000_000, 81_000, vec![gc(2_000_000)])];
    f.host = vec![
        sample(900_000, 0, 0, 0, "GPU 10%  CPU 5%  mem.pressure 0.00"),
        sample(1_900_000, 0, 0, 0, "GPU 90%  CPU 6%  mem.pressure 0.10"),
    ];
    let page = report(&f);
    let at = page.iter().position(|l| l == "EN UZUN TAKILMALAR").unwrap();
    assert_eq!(page[at + 1], "  81.0 ms");
    assert_eq!(page[at + 2], format!("      {:<24} art: GC freed", "garbage collection"));
    assert_eq!(page[at + 3], "      host: GPU 90%  CPU 6%  mem.pressure 0.10");
    assert_eq!(page[at + 4], "  30.0 ms");
    assert_eq!(page[at + 5], "      (no concurrent event on the Android side)");
    assert_eq!(page[at + 6], "      host: GPU 10%  CPU 5%  mem.pressure 0.00");
    let at = page.iter().position(|l| l == "HOST (2 samples)").unwrap();
    assert_eq!(page[at + 1], "  GPU        mean    50.0%   peak    96.0%");
    assert_eq!(page[at + 2], "  CPU        mean    20.0%   peak    30.0%");
    assert_eq!(page[at + 3], "  mem.pressure mean     0.1   peak     0.4");
    assert!(page[at + 4].starts_with("  VRAM       mean    4000MB   peak    4094MB  / 12288MB"));
    assert!(page[at + 4].ends_with("(peak 33%)"));
    assert!(page.contains(&"  ▸ Host resources are not saturated either".to_string()));
}

#[test]
fn signatures_are_counted_and_a_lost_input_path_is_warned_of() {
    let mut f = findings();
    let lost = LogEvent { label: "input".into(), input: true, ..gc(3) };
    f.events = vec![lost, gc(1), gc(2)];
    let page = report(&f);
    let at = page
        .iter()
        .position(|l| l == "LOG SIGNATURES (3 events, within the trace window)")
        .unwrap();
    assert_eq!(page[at + 1], format!("  {:<26} 2", "garbage collection"));
    assert_eq!(page[at + 2], format!("  {:<26} 1", "input"));
    assert_eq!(page[at + 3], "");
    assert_eq!(page[at + 4], "  WARNING: Android lost and re-created our touch device. When");
}

#[test]
fn an_old_helper_is_named_as_the_reason() {
    let mut f = findings();
    f.mono = false;
    f.noise = Some(Noise { tag: "Adreno".into(), rate_milli: 50_001, shown: "50".into() });
    let page = report(&f);
    assert!(page.contains(
        &"No events came out of the log. Because the helper is old the time alignment is \
          approximate;"
            .to_string()
    ));
    assert!(page.contains(&"LOG NOISE".to_string()));
    assert!(page.contains(&"  'Adreno' writes 50 lines per second.".to_string()));
    let n = page.len();
    assert_eq!(page[n - 4], "  NOTE: the helper is old — the log arrives on wall clock and");
    f.noise = Some(Noise { tag: "Adreno".into(), rate_milli: 50_000, shown: "50".into() });
    assert!(!report(&f).contains(&"LOG NOISE".to_string()));
}

#[test]
fn the_host_is_asked_about_unexplained_stutters_only() {
    let host = vec![sample(0, 9500, 1000, 920, ""), sample(10_000_000, 9499, 999, 919, "")];
    let hitches = vec![
        hitch(1, 1, vec![]),
        hitch(2, 1, vec![gc(2)]),
        hitch(9_000_000, 1, vec![]),
    ];
    assert_eq!(
        host_facts(&hitches, &host, 1000),
        HostFacts { unexplained: 2, gpu_saturated: 1, vram_saturated: 1, mem_pressed: 1 }
    );
    // Without a total, memory cannot be said to be full.
    assert_eq!(host_facts(&hitches, &host, 0).vram_saturated, 0);
    assert_eq!(host_facts(&hitches, &vec![], 1000).gpu_saturated, 0);
    assert_eq!(host_facts(&hitches, &vec![], 1000).unexplained, 2);
}

#[test]
fn the_opening_says_what_will_be_measured() {
    let noise = Some(Noise { tag: "x".into(), rate_milli: 61_000, shown: "61".into() });
    assert_eq!(
        opening("SurfaceView", "5.56", "180.0", 350, None, true, 20, &noise),
        vec![
            "Katman : SurfaceView",
            "Refresh: 5.56 ms (180.0 Hz)  ->  sampling every 350 ms",
            "Thresholds: freeze >900 ms — the jank threshold will be derived from the measured \
             cadence",
            "Log    : monotonic (fully aligned)",
            "Length : 20s — DO THE THING THAT GOES WRONG",
            "Noise  : 'x' writes 61 lines/second                            — it narrows the \
             diagnostic window",
        ]
    );
    let page = opening("L", "5.56", "180.0", 350, Some("20.0"), false, 20, &None);
    assert_eq!(page[2], "Thresholds: jank >20.0 ms   freeze >900 ms");
    assert_eq!(page[3], "Log    : wall clock (old helper — alignment approximate)");
    assert_eq!(page.len(), 5);
}

#[test]
fn a_worse_clock_gets_a_wider_window() {
    assert_eq!(window_ms(true), (150, 80));
    assert_eq!(window_ms(false), (1500, 1500));
}
