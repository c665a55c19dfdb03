use liwinux::coord::{changed, obstacle, set_coord, CoordFlaw};
use liwinux::editor::{
    answer, content_length, default_hold, find, place, png_size, reload, reload_keymapper,
    response_head, route, window_geometry, GeometryFlaw, Outcome, Place, Progress, Reload, Request,
    Route, ShotInfo,
};

#[test]
fn png_header_gives_real_size() {
    let mut b = Vec::new();
    b.extend_from_slice(b"\x89PNG\r\n\x1a\n");
    b.extend_from_slice(&13u32.to_be_bytes());
    b.extend_from_slice(b"IHDR");
    b.extend_from_slice(&2560u32.to_be_bytes());
    b.extend_from_slice(&1440u32.to_be_bytes());
    b.extend_from_slice(&[8, 6, 0, 0, 0]);
    assert_eq!(png_size(&b), Some((2560, 1440)));
}

#[test]
fn non_png_is_rejected_not_guessed() {
    assert_eq!(png_size(&b"this is not a png".to_vec()), None);
}

#[test]
fn a_png_that_ends_early_has_no_size() {
    let mut b = Vec::new();
    b.extend_from_slice(b"\x89PNG\r\n\x1a\n\0\0\0\rIHDR\0\0\x0a\0\0\0\x05");
    assert_eq!(b.len(), 23);
    assert_eq!(png_size(&b), None);
    b.push(0xa0);
    assert_eq!(png_size(&b), Some((2560, 1440)));
    b[12] = b'X';
    assert_eq!(png_size(&b), None);
}

#[test]
fn a_needle_is_found_at_its_first_place() {
    assert_eq!(find(&b"abcabc".to_vec(), &b"bc".to_vec()), Some(1));
    assert_eq!(find(&b"abc".to_vec(), &b"cb".to_vec()), None);
    assert_eq!(find(&b"a".to_vec(), &b"abc".to_vec()), None);
}

#[test]
fn the_announced_length_is_read_from_the_headers() {
    assert_eq!(content_length("POST /save\r\ncontent-LENGTH:  12 \r\nContent-Length: 7\r\n"), 12);
    assert_eq!(content_length("POST /save\r\nContent-Length: x\r\nContent-Length: 7\r\n"), 7);
    assert_eq!(content_length("GET / HTTP/1.1\r\nX-Content-Length: 4\r\n"), 0);
    assert_eq!(content_length(""), 0);
}

#[test]
fn a_request_is_put_together_from_its_pieces() {
    let mut r = Request::new();
    assert!(r.parts().is_none());
    assert_eq!(r.feed(&b"POST /save HTTP/1.1\r\nContent-Length: 6\r\n\r".to_vec()), Progress::More);
    assert_eq!(r.feed(&b"\nab".to_vec()), Progress::More);
    assert_eq!(r.feed(&b"cdef".to_vec()), Progress::Done);
    let (head, body) = r.parts().unwrap();
    assert_eq!(head, "POST /save HTTP/1.1\r\nContent-Length: 6\r\n\r\n");
    assert_eq!(body, "abcdef");
}

#[test]
fn headers_without_an_end_are_given_up() {
    let mut r = Request::new();
    assert_eq!(r.feed(&vec![b'a'; 1 << 20]), Progress::More);
    assert_eq!(r.feed(&vec![b'a'; 1]), Progress::TooLarge);
}

#[test]
fn bytes_that_are_no_text_are_replaced_not_lost() {
    let mut r = Request::new();
    assert_eq!(r.feed(&b"POST /save\r\n\r\na\xffb".to_vec()), Progress::Done);
    assert_eq!(r.parts().unwrap().1, "a\u{fffd}b");
}

#[test]
fn each_address_leads_to_its_route() {
    for (line, want) in [
        ("GET / HTTP/1.1", Route::Page),
        ("GET /index.html HTTP/1.1", Route::Page),
        ("GET /state.json HTTP/1.1", Route::State),
        ("GET /shot.png?v=3 HTTP/1.1", Route::Shot),
        ("POST /reshot HTTP/1.1", Route::Reshot),
        ("POST /save HTTP/1.1", Route::Save),
        ("POST /apply HTTP/1.1", Route::Apply),
        ("POST /poke HTTP/1.1", Route::Poke),
        ("GET /save HTTP/1.1", Route::NotFound),
        ("GET /", Route::NotFound),
        ("", Route::NotFound),
    ] {
        assert_eq!(route(&format!("{line}\r\nHost: x\r\n\r\n")), want, "{line}");
    }
}

#[test]
fn answers_carry_their_status_and_kind() {
    assert_eq!(answer(Route::Page, Outcome::Fine), ("200 OK", "text/html; charset=utf-8"));
    assert_eq!(answer(Route::State, Outcome::Fine), ("200 OK", "application/json"));
    assert_eq!(answer(Route::Shot, Outcome::Fine), ("200 OK", "image/png"));
    assert_eq!(answer(Route::Reshot, Outcome::Fine), ("200 OK", "application/json"));
    assert_eq!(
        answer(Route::Reshot, Outcome::Failed),
        ("500 Internal Server Error", "text/plain")
    );
    assert_eq!(answer(Route::Save, Outcome::Fine), ("200 OK", "text/plain"));
    assert_eq!(answer(Route::Save, Outcome::Bad), ("400 Bad Request", "text/plain"));
    assert_eq!(answer(Route::Apply, Outcome::Failed), ("500 Internal Server Error", "text/plain"));
    assert_eq!(answer(Route::Poke, Outcome::Bad), ("400 Bad Request", "text/plain"));
    assert_eq!(answer(Route::NotFound, Outcome::Fine), ("404 Not Found", "text/plain"));
    assert_eq!(
        response_head("200 OK", "text/plain", 2),
        "HTTP/1.1 200 OK\r\nContent-Type: text/plain\r\nContent-Length: 2\r\n\
         Cache-Control: no-store\r\nConnection: close\r\n\r\n"
    );
}

#[test]
fn a_new_screenshot_has_a_new_version() {
    let mut s = ShotInfo { width: 1, height: 2, version: 1 };
    assert_eq!(s.retaken(2560, 1440), "{\"width\":2560,\"height\":1440,\"shot\":2}");
    assert_eq!(s, ShotInfo { width: 2560, height: 1440, version: 2 });
    assert_eq!(default_hold(), 250);
}

#[test]
fn a_mapper_that_is_off_is_left_alone() {
    assert_eq!(reload_keymapper("{\"running\":false,\"grabbed\":true}"), Reload::LeftAlone);
    assert_eq!(reload_keymapper("{\"grabbed\":true}"), Reload::LeftAlone);
    assert_eq!(reload_keymapper("{\"running\":1}"), Reload::LeftAlone);
    assert_eq!(reload_keymapper("no json"), Reload::LeftAlone);
    assert_eq!(reload_keymapper("[true]"), Reload::LeftAlone);
    assert_eq!(reload_keymapper("{\"running\":true}"), Reload::RestartUngrabbed);
    assert_eq!(reload_keymapper("{\"running\":true,\"grabbed\":true}"), Reload::Restart);
    assert_eq!(reload(Some(true), Some(false)), Reload::RestartUngrabbed);
    assert_eq!(reload(None, Some(true)), Reload::LeftAlone);
    assert_eq!(
        Reload::LeftAlone.message(),
        "the keymapper was already off — left it alone"
    );
    assert_eq!(Reload::Restart.message(), "keymapper restarted");
    assert_eq!(
        Reload::RestartUngrabbed.message(),
        "keymapper restarted (the grab is taken in game mode)"
    );
}

#[test]
fn the_window_is_where_the_reply_says() {
    let p = window_geometry(
        "{\"found\":true,\"x\":-5,\"y\":7,\"width\":2560,\"height\":1440,\"fullscreen\":true}",
    )
    .unwrap();
    assert_eq!(p, Place { x: -5, y: 7, width: 2560, height: 1440 });
    let p = window_geometry("{\"found\":true,\"width\":-1,\"x\":4294967298}").unwrap();
    assert_eq!(p, Place { x: 2, y: 0, width: 0, height: 0 });
    match window_geometry("{\"found\":false}") {
        Err(GeometryFlaw::NoWindow) => {}
        other => panic!("{other:?}"),
    }
    match window_geometry("{") {
        Err(f @ GeometryFlaw::Unreadable(_)) => assert_eq!(
            f.message(),
            "EOF while parsing an object at line 1 column 1"
        ),
        other => panic!("{other:?}"),
    }
    assert_eq!(
        GeometryFlaw::NoWindow.message(),
        "Waydroid window not found — is the game open?"
    );
    assert!(matches!(
        place(None, None, Some(1), None, None, None),
        Err(GeometryFlaw::NoWindow)
    ));
}

const FILE: &str = r#"name = "T"
package = "p"

# --- fire button ---
[bindings.ates]
type = "tap"
trigger = "MouseLeft"
# measured from the screenshot
at = { x = 0.9, y = 0.2 }

[bindings.kosu]
type = "tap"
trigger = { Key = 42 }
at = { x = 0.1, y = 0.1 }
"#;

#[test]
fn setting_a_coordinate_changes_that_coordinate_only() {
    let out = set_coord(FILE, "ates", "at", "0.5", "0.25").unwrap();
    assert_eq!(out, FILE.replace("{ x = 0.9, y = 0.2 }", "{ x = 0.5, y = 0.25 }"));
}

#[test]
fn setting_a_coordinate_keeps_the_comment_behind_it() {
    let file = FILE.replace("y = 0.2 }", "y = 0.2 }   # tuned by hand");
    let out = set_coord(&file, "ates", "at", "0.5", "0.25").unwrap();
    assert_eq!(out, file.replace("{ x = 0.9, y = 0.2 }", "{ x = 0.5, y = 0.25 }"));
}

#[test]
fn setting_adds_nothing() {
    assert!(matches!(
        set_coord(FILE, "zipla", "at", "0.5", "0.5"),
        Err(CoordFlaw::NoBinding)
    ));
    assert!(matches!(
        set_coord(FILE, "ates", "center", "0.5", "0.5"),
        Err(CoordFlaw::NoField)
    ));
    assert!(matches!(
        set_coord("name = \"T\"\n", "ates", "at", "0.5", "0.5"),
        Err(CoordFlaw::NoBinding)
    ));
    assert!(matches!(
        set_coord(FILE, "ates", "at", "half", "0.5"),
        Err(CoordFlaw::NotAValue)
    ));
    match set_coord("name = ", "ates", "at", "0.5", "0.5") {
        Err(f @ CoordFlaw::Unreadable(_)) => {
            assert!(f.message("/p/a.toml", "", "").starts_with("could not parse TOML: /p/a.toml: "))
        }
        other => panic!("{other:?}"),
    }
    assert_eq!(CoordFlaw::NoBinding.message("", "ates", "at"), "no binding named 'ates'");
    assert_eq!(
        CoordFlaw::NoField.message("", "ates", "at"),
        "binding 'ates' has no field 'at'"
    );
    assert!(obstacle(Some(true), true).is_none());
    assert!(matches!(obstacle(None, true), Some(CoordFlaw::NoBinding)));
}

#[test]
fn a_changed_coordinate_is_said_with_its_file() {
    assert_eq!(
        changed("ates", "at", "0.500", "0.250", "/p/a.toml"),
        vec![
            "ates.at = (0.500, 0.250)",
            "dosya: /p/a.toml",
            "",
            "Restart the keymapper for the change to take effect:",
            "  liw keymap stop && liw keymap start --grab",
        ]
    );
}
