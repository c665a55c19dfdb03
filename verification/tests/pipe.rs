use liwinux::backend::{BackendError, DebugBackend, TouchBackend};
use liwinux::num::Num;
use liwinux::touch::{Norm, TouchAction};
use liwinux::wl_touch::{
    push_event, WlTouchBackend, Written, ABS_MT_SLOT, ABS_MT_TRACKING_ID, EVENT_SIZE, EV_ABS,
    EV_SYN, SYN_REPORT,
};

fn norm(x: f32, y: f32) -> Norm {
    Norm::new(Num::of(x.to_bits()), Num::of(y.to_bits()))
}

/// The pixel of a position, the way a caller converts it.
fn to_px(b: &WlTouchBackend, at: Norm) -> (i32, i32) {
    let (w, h) = b.size();
    let f = |v: Num| f32::from_bits(v.bits);
    ((f(at.x) * w as f32).round() as i32, (f(at.y) * h as f32).round() as i32)
}

fn frame(b: &mut WlTouchBackend, acts: Vec<TouchAction>) -> Result<Vec<u8>, BackendError> {
    let px = acts
        .iter()
        .map(|a| match a {
            TouchAction::Down { at, .. } | TouchAction::Move { at, .. } => to_px(b, *at),
            TouchAction::Up { .. } => (0, 0),
        })
        .collect();
    b.frame(&acts, &px, 7, 9)
}

#[test]
fn event_record_is_24_bytes() {
    let mut b = Vec::new();
    push_event(&mut b, 1, 2, EV_ABS, ABS_MT_SLOT, 3);
    assert_eq!(b.len(), EVENT_SIZE);
    assert_eq!(
        std::mem::size_of::<libc::timeval>() + 8,
        EVENT_SIZE,
        "must match the wire size of timeval + type/code/value"
    );
    let mut expected = Vec::new();
    expected.extend_from_slice(&1i64.to_le_bytes());
    expected.extend_from_slice(&2i64.to_le_bytes());
    expected.extend_from_slice(&EV_ABS.to_le_bytes());
    expected.extend_from_slice(&ABS_MT_SLOT.to_le_bytes());
    expected.extend_from_slice(&3i32.to_le_bytes());
    assert_eq!(b, expected);
    let mut c = Vec::new();
    push_event(&mut c, -1, i64::MIN, 0, 0, -5);
    assert_eq!(c[..8], (-1i64).to_le_bytes());
    assert_eq!(c[8..16], i64::MIN.to_le_bytes());
    assert_eq!(c[20..], (-5i32).to_le_bytes());
}

#[test]
fn pipe_path_reaches_into_the_container() {
    assert_eq!(WlTouchBackend::pipe_path(1234), "/proc/1234/root/dev/input/wl_touch_events");
}

#[test]
fn offscreen_coordinates_survive_conversion() {
    let mut b = WlTouchBackend::with_size(2560, 1440).unwrap();
    let far = |x: f32, y: f32| Norm::unclamped(Num::of(x.to_bits()), Num::of(y.to_bits()));
    assert_eq!(to_px(&b, far(1.5, 0.5)), (3840, 720));
    assert_eq!(to_px(&b, far(-0.25, 0.5)), (-640, 720));
    let raw = frame(&mut b, vec![TouchAction::Move { id: 0, at: far(-0.25, 0.5) }]).unwrap();
    let x = &raw[2 * EVENT_SIZE..3 * EVENT_SIZE];
    assert_eq!(i32::from_ne_bytes([x[20], x[21], x[22], x[23]]), -640);
}

#[test]
fn zero_screen_is_rejected_loudly() {
    let e = WlTouchBackend::with_size(0, 1440).unwrap_err().message();
    assert!(e.contains("display_width"), "{e}");
}

#[test]
fn a_frame_ends_with_one_syn_report() {
    let mut b = WlTouchBackend::with_size(2560, 1440).unwrap();
    let raw = frame(
        &mut b,
        vec![
            TouchAction::Down { id: 0, at: norm(0.5, 0.5) },
            TouchAction::Move { id: 1, at: norm(0.2, 0.3) },
        ],
    )
    .unwrap();
    assert_eq!(raw.len() % EVENT_SIZE, 0, "record alignment must hold");
    let n = raw.len() / EVENT_SIZE;
    assert_eq!(n, 11, "2 actions × 5 events + 1 SYN");
    let last = &raw[(n - 1) * EVENT_SIZE..];
    assert_eq!(u16::from_ne_bytes([last[16], last[17]]), EV_SYN);
    assert_eq!(u16::from_ne_bytes([last[18], last[19]]), SYN_REPORT);
}

#[test]
fn up_writes_tracking_id_minus_one() {
    let mut b = WlTouchBackend::with_size(2560, 1440).unwrap();
    let raw = frame(&mut b, vec![TouchAction::Up { id: 3 }]).unwrap();
    assert_eq!(raw.len() / EVENT_SIZE, 3);
    let tid = &raw[EVENT_SIZE..2 * EVENT_SIZE];
    assert_eq!(u16::from_ne_bytes([tid[18], tid[19]]), ABS_MT_TRACKING_ID);
    assert_eq!(i32::from_ne_bytes([tid[20], tid[21], tid[22], tid[23]]), -1);
}

#[test]
fn release_all_lifts_only_active_slots() {
    let mut b = WlTouchBackend::with_size(2560, 1440).unwrap();
    frame(&mut b, vec![TouchAction::Down { id: 2, at: norm(0.5, 0.5) }]).unwrap();

    let lifts = b.release_all();
    assert_eq!(lifts, vec![TouchAction::Up { id: 2 }]);
    let raw = frame(&mut b, lifts).unwrap();
    assert_eq!(raw.len() / EVENT_SIZE, 3, "one finger: slot + tracking_id + syn");

    assert!(b.release_all().is_empty(), "the second call must produce no new events");
}

#[test]
fn unknown_fingers_and_huge_frames_are_refused() {
    let mut b = WlTouchBackend::with_size(100, 100).unwrap();
    let lift = frame(&mut b, vec![TouchAction::Up { id: 12 }]).unwrap();
    assert_eq!(lift.len(), EVENT_SIZE, "lifting what is not there writes only the sync");
    let down = TouchAction::Down { id: 12, at: norm(0.5, 0.5) };
    let e = frame(&mut b, vec![down]).unwrap_err().message();
    assert_eq!(e, "touch dispatch failed: invalid pointer id 12");
    let many = vec![TouchAction::Move { id: 0, at: norm(0.5, 0.5) }; 40];
    let e = frame(&mut b, many).unwrap_err().message();
    assert_eq!(
        e,
        "touch dispatch failed: frame is 4824 bytes — exceeds PIPE_BUF (4096), atomicity would be lost"
    );
}

#[test]
fn a_full_pipe_costs_a_frame_and_a_partial_write_the_pipe() {
    let mut b = WlTouchBackend::with_size(100, 100).unwrap();
    assert!(b.written(24, &Written::Bytes(24)).is_ok());
    assert!(b.written(24, &Written::WouldBlock).is_ok());
    assert_eq!(b.dropped(), 1);
    assert_eq!(
        b.written(24, &Written::Bytes(12)).unwrap_err().message(),
        "touch dispatch failed: partial write: 12/24 bytes — pipe alignment broken"
    );
    assert_eq!(
        b.written(24, &Written::Failed("Broken pipe (os error 32)".into())).unwrap_err().message(),
        "touch dispatch failed: could not write to pipe: Broken pipe (os error 32)"
    );
    assert_eq!(b.name(), "wl_touch");
}

#[test]
fn debug_backend_records_in_order() {
    let mut b = DebugBackend::default();
    b.dispatch(&vec![
        TouchAction::Down { id: 0, at: norm(0.1, 0.2) },
        TouchAction::Move { id: 0, at: norm(0.3, 0.4) },
    ])
    .unwrap();
    b.dispatch(&vec![TouchAction::Up { id: 0 }]).unwrap();
    assert_eq!(b.log.len(), 3);
    assert!(matches!(b.log[2], TouchAction::Up { id: 0 }));
    b.release_all().unwrap();
    assert_eq!(b.name(), "debug");
}

#[test]
fn nothing_is_written_for_no_actions() {
    let mut b = WlTouchBackend::with_size(1920, 1080).unwrap();
    assert!(frame(&mut b, Vec::new()).unwrap().is_empty());
    let both = vec![
        TouchAction::Down { id: 0, at: norm(0.5, 0.5) },
        TouchAction::Up { id: 0 },
    ];
    assert_eq!(frame(&mut b, both).unwrap().len(), 24 * (5 + 2 + 1));
}
