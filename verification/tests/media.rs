use liwinux::video::{
    child_cpu_fields, clip_name, codec_files, cost_cases, cost_row, cost_sizes, decode_args,
    encode_args, fixtures, guest_codecs, guest_source, list_guest, probe,
    probe_host, va_drivers, Codec, CodecKind, Cost, CostRow, HostCaps, Part, Source, Trial,
};
use liwinux::video_report::{
    names_in, registered, status, switch, verify, Dead, Finding, Severity, Shortfall, Tally,
};

fn codec(name: &str, mime: &str, label: &str, kind: CodecKind, encoder: bool) -> Codec {
    Codec {
        name: name.to_string(),
        mime: mime.to_string(),
        label: label.to_string(),
        kind,
        encoder,
    }
}

fn strings(v: &[&str]) -> Vec<String> {
    v.iter().map(|s| s.to_string()).collect()
}

#[test]
fn partitions_map_to_the_right_host_paths() {
    assert_eq!(
        Part::Vendor.mounted("/etc/media_codecs.xml"),
        "/var/lib/waydroid/rootfs/vendor/etc/media_codecs.xml"
    );
    assert_eq!(
        Part::System.mounted("/system/apex/x/etc/media_codecs.xml"),
        "/var/lib/waydroid/rootfs/system/apex/x/etc/media_codecs.xml"
    );
}

#[test]
fn leading_slash_does_not_escape_the_rootfs() {
    let p = Part::Vendor.mounted("/etc/x.xml");
    assert!(
        p.starts_with("/var/lib/waydroid/rootfs"),
        "a leading slash must not make the join absolute: {p:?}"
    );
}

#[test]
fn images_are_named_per_partition() {
    assert!(Part::Vendor.image().ends_with("vendor.img"));
    assert!(Part::System.image().ends_with("system.img"));
}

#[test]
fn fixtures_cover_distinct_formats() {
    let mut m: Vec<&str> = fixtures().iter().map(|f| f.mime).collect();
    let n = m.len();
    m.sort_unstable();
    m.dedup();
    assert_eq!(m.len(), n, "duplicate MIME in the fixture table");
    assert!(n > 0);
}

/// What the kernel writes of a process whose name holds blanks and brackets.
const STAT: &str = "4711 (a (b) c) S 1 4711 4711 0 -1 4194304 100 0 0 0 7 3 120 35 20 0 1 0 99";

/// The seconds that the two fields come to, the way a caller reads them.
fn child_cpu_seconds(stat: &str) -> Option<f64> {
    let (user, system) = child_cpu_fields(stat)?;
    let (user, system): (f64, f64) = (user.parse().ok()?, system.parse().ok()?);
    Some((user + system) / 100.0)
}

#[test]
fn child_cpu_time_parses_real_proc_stat() {
    assert!(child_cpu_seconds(STAT).is_some(), "/proc/self/stat could not be parsed");
    assert_eq!(child_cpu_fields(STAT), Some(("120".to_string(), "35".to_string())));
    assert_eq!(child_cpu_seconds(STAT), Some(1.55));
}

#[test]
fn child_cpu_time_never_goes_backwards() {
    let a = child_cpu_seconds(STAT).unwrap();
    let later = STAT.replace(" 120 35 ", " 121 35 ");
    let b = child_cpu_seconds(&later).unwrap();
    assert!(b >= a, "CPU accounting must be monotonic: {a} then {b}");
}

#[test]
fn processor_time_that_cannot_be_read_is_not_zero() {
    assert_eq!(child_cpu_fields(""), None);
    assert_eq!(child_cpu_fields("1 name S 1 2 3"), None);
    assert_eq!(child_cpu_fields("1 (name) S 1 2 3"), None);
    assert_eq!(child_cpu_seconds(&STAT.replace(" 120 ", " many ")), None);
    assert_eq!(child_cpu_seconds(&STAT.replace(" 35 ", " -35.5 ")), Some(0.845));
}

#[test]
fn an_image_listing_gives_the_last_word_of_each_line() {
    let out = "  2 40755 (2) 0 0 4096 1-Jan-2009 .\n  2 40755 (2) 0 0 4096 1-Jan-2009 ..\n\n \
               12 100644 (1) 0 0 512 1-Jan-2009 media_codecs.xml\r\n 13 x y.xml";
    assert_eq!(list_guest(out), strings(&["media_codecs.xml", "y.xml"]));
    assert_eq!(list_guest(""), Vec::<String>::new());
}

#[test]
fn the_mounted_system_is_preferred_to_the_images() {
    assert_eq!(guest_source(true, true), Source::Live);
    assert_eq!(guest_source(true, false), Source::Live);
    assert_eq!(guest_source(false, true), Source::Image);
    assert_eq!(guest_source(false, false), Source::Unreadable);
}

#[test]
fn only_video_codecs_stay_sorted_and_once() {
    let all = vec![
        codec("c2.vp9", "video/x-vnd.on2.vp9", "VP9", CodecKind::Software, false),
        codec("c2.aac", "audio/mp4a-latm", "AAC", CodecKind::Software, false),
        codec("c2.avc", "video/avc", "H.264", CodecKind::Software, false),
        codec("c2.vp9", "video/x-vnd.on2.vp9", "VP9", CodecKind::Software, false),
        codec("c2.vp9", "video/x-vnd.on2.vp8", "VP8", CodecKind::Software, false),
    ];
    let got: Vec<(String, String)> =
        guest_codecs(&all).into_iter().map(|c| (c.name, c.mime)).collect();
    assert_eq!(
        got,
        vec![
            ("c2.avc".to_string(), "video/avc".to_string()),
            ("c2.vp9".to_string(), "video/x-vnd.on2.vp9".to_string()),
            ("c2.vp9".to_string(), "video/x-vnd.on2.vp8".to_string()),
        ]
    );
}

#[test]
fn a_probe_that_never_ran_is_unknown_and_not_nothing() {
    let f = fixtures();
    let none = vec![Trial::NotRun; f.len()];
    assert!(matches!(probe_host(true, &f, &none), HostCaps::Unknown));
    let failed = vec![Trial::Failed; f.len()];
    match probe_host(true, &f, &failed) {
        HostCaps::Measured(m) => assert!(m.is_empty()),
        HostCaps::Unknown => panic!("failing is a measurement"),
    }
    assert!(matches!(probe_host(false, &f, &failed), HostCaps::Unknown));
    let mut some = failed.clone();
    some[0] = Trial::Decoded;
    some[4] = Trial::Decoded;
    match probe_host(true, &f, &some) {
        HostCaps::Measured(m) => assert_eq!(m, strings(&["video/avc", "video/av01"])),
        HostCaps::Unknown => panic!("two formats decoded"),
    }
}

#[test]
fn drivers_are_told_by_their_file_names() {
    let names = strings(&[
        "nouveau_drv_video.so",
        "libgallium.so",
        "iHD_drv_video.so",
        "nouveau_drv_video.so",
        "i965_drv_video.so.bak",
    ]);
    assert_eq!(va_drivers(&names), strings(&["iHD_drv_video.so", "nouveau_drv_video.so"]));
}

fn row(cost: Cost) -> CostRow {
    CostRow { label: "H.264".to_string(), size: "1280x720".to_string(), cost }
}

#[test]
fn the_cost_table_lines_up() {
    assert_eq!(cost_row(&row(Cost::NoEncoder)), "  H.264      1280x720          no encoder");
    assert_eq!(cost_row(&row(Cost::Failed)), "  H.264      1280x720       decode failed");
    assert_eq!(
        cost_row(&row(Cost::SoftwareOnly { seconds: "0.64".into(), share: "6.4".into() })),
        "  H.264      1280x720       0.64s    6.4%       not available"
    );
    assert_eq!(
        cost_row(&row(Cost::Both {
            sw_seconds: "0.64".into(),
            sw_share: "6.4".into(),
            hw_seconds: "0.20".into(),
            hw_share: "2.0".into(),
        })),
        "  H.264      1280x720       0.64s    6.4%       0.20s    2.0%"
    );
}

#[test]
fn the_cost_report_says_what_it_does_not_measure() {
    let rows = vec![row(Cost::NoEncoder)];
    let page = probe(&rows, 3, "0.0", true);
    assert_eq!(page[0], format!("\n  Decode cost — host measurement\n  {}", "─".repeat(70)));
    assert_eq!(page[1], "  10s of video per clip, 3 pass(es) per decoder.\n");
    assert_eq!(
        page[2],
        format!("  {:<8} {:>10}  {:>18}  {:>18}", "format", "size", "software", "hardware")
    );
    assert_eq!(page[3], format!("  {}", "─".repeat(60)));
    assert_eq!(page[4], cost_row(&rows[0]));
    assert_eq!(page[5], format!("\n  {}", "─".repeat(70)));
    assert_eq!(page[6], "  Nothing could be measured.\n");
    assert_eq!(page.len(), 7);

    let rows = vec![row(Cost::SoftwareOnly { seconds: "4.00".into(), share: "40.0".into() })];
    let page = probe(&rows, 1, "31.5", false);
    assert_eq!(
        page[6],
        "  The percentage is the share of ONE core used for as long as the"
    );
    assert_eq!(
        page[10],
        "  Biggest saving hardware decode would buy: 31.5% of one core.\n"
    );
    assert_eq!(
        page[11],
        "  What this does NOT measure: Android's own decoders, the binder"
    );
    assert_eq!(page.len(), 14);
    let page = probe(&rows, 1, "3.5", true);
    assert_eq!(page[11], "  That is a SMALL prize. Carrying frames from a host decoder");
    assert_eq!(page.len(), 19);
}

#[test]
fn component_names_are_picked_out_of_a_dump() {
    let dump = "Decoder \"c2.android.avc.decoder\" (OMX.google.h264.decoder) c3.x é2.y \
                xc2.android.no c2.android.avc.decoder, c2.ünlaut.decoder";
    assert_eq!(
        names_in(dump),
        strings(&[
            "c2.android.avc.decoder",
            "OMX.google.h264.decoder",
            "c2.android.avc.decoder",
            "c2.ünlaut.decoder",
        ])
    );
    assert_eq!(
        registered(dump),
        strings(&["OMX.google.h264.decoder", "c2.android.avc.decoder", "c2.ünlaut.decoder"])
    );
}

#[test]
fn a_blank_switch_says_nothing() {
    assert_eq!(switch(None), None);
    assert_eq!(switch(Some(" \n")), None);
    assert_eq!(switch(Some(" 0\n")), Some("0".to_string()));
}

#[test]
fn everything_registered_is_said_in_one_line() {
    let declared =
        vec![codec("c2.android.avc.decoder", "video/avc", "H.264", CodecKind::Software, false)];
    let names = strings(&["c2.android.avc.decoder"]);
    let s = Shortfall {
        complete: true,
        codec2_disabled: false,
        domain_gated: vec![],
        unexplained: vec![],
    };
    assert_eq!(
        verify(&declared, &names, None, &s, &vec![]),
        vec![
            format!("\n  Registered vs declared\n  {}", "─".repeat(66)),
            "  registered by a running Android : 1".to_string(),
            "  declared in the image           : 1".to_string(),
            "  video decoders actually live    : 1".to_string(),
            "      c2.android.avc.decoder       H.264".to_string(),
            "\n  ✓ Every declared component was registered.".to_string(),
            "".to_string(),
        ]
    );
}

#[test]
fn a_shortfall_is_told_by_its_cause() {
    let declared = vec![
        codec("c2.tv", "video/avc", "H.264", CodecKind::Software, false),
        codec("c2.enc", "video/avc", "H.264", CodecKind::Software, true),
    ];
    let names = strings(&["c2.enc"]);
    let s = Shortfall {
        complete: false,
        codec2_disabled: true,
        domain_gated: vec![("c2.tv".to_string(), "tv".to_string())],
        unexplained: (0..21).map(|i| format!("c2.lost{i}")).collect(),
    };
    let dead = vec![
        Dead { label: "H.264".to_string(), gated: false },
        Dead { label: "MPEG-2".to_string(), gated: true },
        Dead { label: "VP9".to_string(), gated: false },
    ];
    let page = verify(&declared, &names, Some("the gralloc is missing"), &s, &dead);
    assert_eq!(page[3], "\n  ✗ WARNING");
    assert_eq!(page[4], "      the gralloc is missing");
    assert_eq!(page[5], "  video decoders actually live    : 0");
    assert_eq!(page[6], "\n  ✗ Codec2 is switched OFF: debug.stagefright.ccodec=0");
    assert_eq!(page[7], "");
    assert_eq!(
        page[8],
        "      Every c2.android.* component the image declares is absent, and"
    );
    assert!(page.contains(
        &"\n  · 1 component(s) gated on the device type, absent by design:".to_string()
    ));
    assert!(page.contains(&"      c2.tv  (domain=\"tv\")".to_string()));
    assert!(page.contains(
        &"\n  ✗ 21 declared component(s) did not register, and nothing here explains why:"
            .to_string()
    ));
    assert!(page.contains(&"      c2.lost19".to_string()));
    assert!(!page.contains(&"      c2.lost20".to_string()), "only the first twenty are listed");
    assert!(page.contains(&"\n  ✗ No decoder at all for: H.264, VP9".to_string()));
    assert!(page.contains(&"\n  · No decoder for MPEG-2 either.".to_string()));
    assert!(!page.contains(&"\n  ✓ Every declared component was registered.".to_string()));
}

#[test]
fn the_status_page_shows_both_sides() {
    let codecs = vec![
        codec("c2.hw", "video/avc", "H.264", CodecKind::Hardware, false),
        codec("c2.sw", "video/hevc", "HEVC", CodecKind::Software, false),
        codec("c2.what", "video/av01", "AV1", CodecKind::Unknown, false),
        codec("c2.enc", "video/avc", "H.264", CodecKind::Software, true),
    ];
    let f = vec![Finding {
        severity: Severity::Gap,
        title: "HEVC on the processor".to_string(),
        detail: "The host decodes it.".to_string(),
    }];
    let t = Tally { fine: 1, gaps: 1, broken: 0, no_lever: 2, undetermined: 3 };
    let page =
        status(&codecs, &strings(&["iHD_drv_video.so", "x"]), true, &strings(&["H.264", "AV1"]), &f, t);
    let bar = "─".repeat(64);
    assert_eq!(
        page,
        vec![
            format!("\n  Video decode\n  {bar}"),
            "\n  IN ANDROID".to_string(),
            "      3 video decoders, 1 of them hardware\n".to_string(),
            format!("        {:<28} {:<14} {}", "c2.hw", "H.264", "hardware"),
            format!("        {:<28} {:<14} {}", "c2.sw", "HEVC", "CPU"),
            format!("        {:<28} {:<14} {}", "c2.what", "AV1", "?"),
            "\n  ON THE HOST".to_string(),
            "      VA-API drivers : iHD_drv_video.so, x".to_string(),
            "      hardware decode: H.264, AV1".to_string(),
            "      (measured by decoding a clip through each decoder)".to_string(),
            format!("\n  {bar}"),
            "\n  ! HEVC on the processor".to_string(),
            "      The host decodes it.".to_string(),
            format!("\n  {bar}"),
            "  1 fine · 1 gaps · 0 broken · 2 no lever · 3 undetermined\n".to_string(),
            "  A gap is a FACT: the format is decoded on the CPU while the".to_string(),
            "  host was measured to decode it in hardware. What that COSTS".to_string(),
            "  is a separate question:\n".to_string(),
            "      liw video probe\n".to_string(),
        ]
    );
}

#[test]
fn an_unread_machine_claims_nothing() {
    let t = Tally { fine: 0, gaps: 0, broken: 0, no_lever: 0, undetermined: 0 };
    let page = status(&vec![], &vec![], false, &vec![], &vec![], t);
    let bar = "─".repeat(64);
    assert_eq!(
        page,
        vec![
            format!("\n  Video decode\n  {bar}"),
            "\n  IN ANDROID".to_string(),
            "      no codec declaration could be read".to_string(),
            "\n  ON THE HOST".to_string(),
            "      no VA-API driver installed".to_string(),
            "      hardware decode: NOT DETERMINED".to_string(),
            "      ffmpeg is needed to probe this. Nothing is claimed".to_string(),
            "      about the host until it can be measured.".to_string(),
            format!("\n  {bar}"),
            format!("\n  {bar}"),
            "  0 fine · 0 gaps · 0 broken · 0 no lever · 0 undetermined\n".to_string(),
        ]
    );
    let page = status(&vec![], &vec![], true, &vec![], &vec![], t);
    assert_eq!(page[5], "      hardware decode: none — measured, not assumed");
}

#[test]
fn the_software_codecs_are_read_too() {
    assert_eq!(
        codec_files(&strings(&["media_codecs_google.xml"])),
        vec![
            (Part::Vendor, "/etc/media_codecs.xml".to_string()),
            (Part::Vendor, "/etc/media_codecs_google.xml".to_string()),
            (
                Part::System,
                "/system/apex/com.android.media.swcodec/etc/media_codecs.xml".to_string()
            ),
        ]
    );
}

#[test]
fn a_cost_case_is_encoded_and_decoded() {
    let c = cost_cases();
    assert_eq!(cost_sizes(), vec![(1280, 720), (1920, 1080)]);
    assert_eq!(clip_name(&c[1], 1280, 720), "liw-cost-vp9-1280x720.webm");
    assert_eq!(
        encode_args(&c[0], 1920, 1080, "/tmp/x.mp4").join(" "),
        "-hide_banner -loglevel error -f lavfi -i \
         testsrc=size=1920x1080:rate=30:duration=10 -c:v libx264 -pix_fmt yuv420p \
         -preset veryfast -b:v 2M -y /tmp/x.mp4"
    );
    assert_eq!(
        decode_args(c[0].cuvid, "/tmp/x.mp4").join(" "),
        "-hide_banner -loglevel error -c:v h264_cuvid -i /tmp/x.mp4 -f null -"
    );
}
