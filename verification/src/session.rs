//! Starting the Android session from a terminal, and saying how it is.

use vstd::prelude::*;
use vstd::string::*;

verus! {

/// How often a start is looked for, half a second apart.
pub const START_LOOKS: u32 = 30;

/// What a start comes to.
#[derive(Clone, Copy, Debug, PartialEq, Eq, Structural)]
pub enum Started {
    Up,
    /// Look again after the pause.
    Wait,
    /// The request itself failed.
    Refused,
    /// The request was accepted, but no session came up.
    Absent,
}

/// What a start comes to after `looks` looks, the last of which saw the session
/// running or not.
pub open spec fn started_spec(requested: bool, looks: u32, running: bool) -> Started {
    if !requested {
        Started::Refused
    } else if running {
        Started::Up
    } else if looks < START_LOOKS {
        Started::Wait
    } else {
        Started::Absent
    }
}

/// What a start comes to. Asking for a start is not starting: the request is
/// answered as soon as it is accepted, and the session fails afterwards in its
/// own process.
pub fn after_look(requested: bool, looks: u32, running: bool) -> (r: Started)
    ensures
        r == started_spec(requested, looks, running),
{
    if !requested {
        Started::Refused
    } else if running {
        Started::Up
    } else if looks < START_LOOKS {
        Started::Wait
    } else {
        Started::Absent
    }
}

/// What is said of a session that did not come up. `host` is what the host says
/// of its kernel modules, if they are gone, and `kernel` the kernel to reboot
/// into.
pub open spec fn absent_lines(host: Option<Seq<char>>, kernel: Option<Seq<char>>) -> Seq<Seq<char>> {
    let why: Seq<Seq<char>> = match host {
        Some(s) => seq![
            "\n  The host explains it: "@ + s + "\n"@,
            "  Waydroid's NAT rule needs nft_masq. That module is"@,
            "  not loaded and can no longer be loaded, so the rule"@,
            "  fails and the bridge is never created.\n"@,
            "  Reboot into "@ + (match kernel {
                Some(k) => k,
                None => "the new kernel"@,
            }) + ", then start the session again.\n"@,
        ],
        None => Seq::empty(),
    };
    seq!["the session did not come up"@] + why
}

/// What is said of a session that did not come up. The host is looked at first:
/// an update that removed the running kernel's modules produces exactly this,
/// and nothing in the visible error mentions modules.
pub fn absent(host: Option<&str>, kernel: Option<&str>) -> (r: Vec<String>)
    ensures
        crate::text::texts(r@) == absent_lines(crate::text::maybe(host), crate::text::maybe(kernel)),
{
    let mut out: Vec<String> = crate::say::page();
    crate::say::say(&mut out, "the session did not come up");
    if let Some(s) = host {
        crate::say::put(&mut out, crate::say::cat3("\n  The host explains it: ", s, "\n"));
        crate::say::say(&mut out, "  Waydroid's NAT rule needs nft_masq. That module is");
        crate::say::say(&mut out, "  not loaded and can no longer be loaded, so the rule");
        crate::say::say(&mut out, "  fails and the bridge is never created.\n");
        let into: &str = match kernel {
            Some(k) => k,
            None => "the new kernel",
        };
        crate::say::put(
            &mut out,
            crate::say::cat3("  Reboot into ", into, ", then start the session again.\n"),
        );
    }
    assert(crate::text::texts(out@) =~= absent_lines(
        crate::text::maybe(host),
        crate::text::maybe(kernel),
    ));
    out
}

/// The signals of a session.
#[derive(Clone, Copy, Debug, PartialEq, Eq, Structural)]
pub struct Signals {
    pub session_running: bool,
    pub container_running: bool,
    pub composer_alive: bool,
    /// The composer restarted after the session: it looks alive, but its
    /// connection is stale.
    pub composer_stale: bool,
    pub boot_completed: bool,
    pub has_ip: bool,
}

pub open spec fn signal_line(ok: bool, what: Seq<char>) -> Seq<char> {
    "  "@ + (if ok {
        "OK  "@
    } else {
        "HATA"@
    }) + " "@ + what
}

fn signal(ok: bool, what: &str) -> (r: String)
    ensures
        r@ == signal_line(ok, what@),
{
    crate::say::cat4("  ", if ok { "OK  " } else { "HATA" }, " ", what)
}

/// The signals, a line each.
pub open spec fn signal_lines(s: Signals) -> Seq<Seq<char>> {
    seq![
        signal_line(s.session_running, "session running"@),
        signal_line(s.container_running, "container running"@),
        signal_line(s.composer_alive, "composer HAL alive"@),
        signal_line(!s.composer_stale, "composer connection fresh"@),
        signal_line(s.boot_completed, "Android boot completed"@),
        signal_line(s.has_ip, "IP assigned"@),
        ""@,
    ]
}

fn signals(s: Signals) -> (r: Vec<String>)
    ensures
        crate::text::texts(r@) == signal_lines(s),
{
    let mut out: Vec<String> = crate::say::page();
    crate::say::put(&mut out, signal(s.session_running, "session running"));
    crate::say::put(&mut out, signal(s.container_running, "container running"));
    crate::say::put(&mut out, signal(s.composer_alive, "composer HAL alive"));
    crate::say::put(&mut out, signal(!s.composer_stale, "composer connection fresh"));
    crate::say::put(&mut out, signal(s.boot_completed, "Android boot completed"));
    crate::say::put(&mut out, signal(s.has_ip, "IP assigned"));
    crate::say::say(&mut out, "");
    assert(crate::text::texts(out@) =~= signal_lines(s));
    out
}

/// What a stale composer means.
pub open spec fn stale_lines(s: Signals) -> Seq<Seq<char>> {
    if s.composer_stale {
        seq![
            ""@,
            "composer restarted after the session. The processes look"@,
            "alive but the binder connection is stale: no window appears"@,
            "and 'waydroid app launch' returns 'Sending reply failed'."@,
            "To recover: liw session restart"@,
        ]
    } else {
        Seq::empty()
    }
}

fn say_stale(out: &mut Vec<String>, s: Signals)
    ensures
        crate::text::texts(final(out)@) == crate::text::texts(old(out)@) + stale_lines(s),
{
    let ghost before = crate::text::texts(out@);
    if s.composer_stale {
        crate::say::say(out, "");
        crate::say::say(out, "composer restarted after the session. The processes look");
        crate::say::say(out, "alive but the binder connection is stale: no window appears");
        crate::say::say(out, "and 'waydroid app launch' returns 'Sending reply failed'.");
        crate::say::say(out, "To recover: liw session restart");
    }
    assert(crate::text::texts(out@) =~= before + stale_lines(s));
}

/// What a dead composer means.
pub open spec fn dead_lines(s: Signals) -> Seq<Seq<char>> {
    if !s.composer_alive {
        seq![
            ""@,
            "composer death is the root of the crash chain:"@,
            "  composer -> SurfaceFlinger SIGABRT -> system_server -> every app"@,
            "To recover: liw session restart"@,
        ]
    } else {
        Seq::empty()
    }
}

fn say_dead(out: &mut Vec<String>, s: Signals)
    ensures
        crate::text::texts(final(out)@) == crate::text::texts(old(out)@) + dead_lines(s),
{
    let ghost before = crate::text::texts(out@);
    if !s.composer_alive {
        crate::say::say(out, "");
        crate::say::say(out, "composer death is the root of the crash chain:");
        crate::say::say(out, "  composer -> SurfaceFlinger SIGABRT -> system_server -> every app");
        crate::say::say(out, "To recover: liw session restart");
    }
    assert(crate::text::texts(out@) =~= before + dead_lines(s));
}

/// The health of a session: its signals, and what is wrong. `failures` names
/// what is down.
pub open spec fn health_lines(s: Signals, healthy: bool, failures: Seq<Seq<char>>) -> Seq<Seq<char>> {
    if healthy {
        signal_lines(s) + seq!["session healthy"@]
    } else {
        signal_lines(s) + seq!["SORUNLAR:"@] + crate::say::indented("  - "@, failures)
            + stale_lines(s) + dead_lines(s)
    }
}

/// The health of a session: its signals, and what is wrong.
pub fn health(s: Signals, healthy: bool, failures: &Vec<String>) -> (r: Vec<String>)
    ensures
        crate::text::texts(r@) == health_lines(s, healthy, crate::text::texts(failures@)),
{
    let mut out: Vec<String> = signals(s);
    let ghost head = crate::text::texts(out@);
    if healthy {
        crate::say::say(&mut out, "session healthy");
        assert(crate::text::texts(out@) =~= head + seq!["session healthy"@]);
        return out;
    }
    crate::say::say(&mut out, "SORUNLAR:");
    assert(crate::text::texts(out@) =~= head + seq!["SORUNLAR:"@]);
    crate::say::put_indented(&mut out, "  - ", failures);
    say_stale(&mut out, s);
    say_dead(&mut out, s);
    out
}

/// The state of a session in short. `daemon` is the state the daemon tells, if
/// it runs and tells one.
pub open spec fn status_lines(
    session: Seq<char>,
    container: Seq<char>,
    ip: Option<Seq<char>>,
    running: bool,
    daemon: Option<Seq<char>>,
) -> Seq<Seq<char>> {
    let told: Seq<Seq<char>> = if !running {
        seq!["liwd      : not running"@]
    } else {
        match daemon {
            Some(d) => seq!["liwd      : "@ + d],
            None => Seq::empty(),
        }
    };
    seq![
        "Session   : "@ + session,
        "Container : "@ + container,
        "IP        : "@ + (match ip {
            Some(a) => a,
            None => "-"@,
        }),
    ] + told
}

/// The state of a session in short.
pub fn status(
    session: &str,
    container: &str,
    ip: Option<&str>,
    running: bool,
    daemon: Option<&str>,
) -> (r: Vec<String>)
    ensures
        crate::text::texts(r@) == status_lines(
            session@,
            container@,
            crate::text::maybe(ip),
            running,
            crate::text::maybe(daemon),
        ),
{
    let mut out: Vec<String> = crate::say::page();
    crate::say::put(&mut out, crate::say::cat2("Session   : ", session));
    crate::say::put(&mut out, crate::say::cat2("Container : ", container));
    let addr: &str = match ip {
        Some(a) => a,
        None => "-",
    };
    crate::say::put(&mut out, crate::say::cat2("IP        : ", addr));
    if !running {
        crate::say::say(&mut out, "liwd      : not running");
    } else if let Some(d) = daemon {
        crate::say::put(&mut out, crate::say::cat2("liwd      : ", d));
    }
    assert(crate::text::texts(out@) =~= status_lines(
        session@,
        container@,
        crate::text::maybe(ip),
        running,
        crate::text::maybe(daemon),
    ));
    out
}

/// A session is never called up without having been seen running, and looking
/// for it ends.
pub proof fn law_a_request_is_not_a_start(requested: bool, looks: u32)
    ensures
        started_spec(requested, looks, false) != Started::Up,
        looks >= START_LOOKS ==> started_spec(requested, looks, false) != Started::Wait,
{
}

/// A start that was refused is told so; a session that runs is up; one that does
/// not is waited for thirty times, and then it is absent.
pub proof fn law_a_start_is_waited_for(requested: bool, looks: u32, running: bool)
    ensures
        started_spec(requested, looks, running) == Started::Refused <==> !requested,
        started_spec(requested, looks, running) == Started::Up <==> requested && running,
        started_spec(requested, looks, running) == Started::Wait <==> requested && !running && looks
            < 30,
        started_spec(requested, looks, running) == Started::Absent <==> requested && !running && looks
            >= 30,
{
}

/// A line of the report shows its signal as it is: good and bad never look the
/// same, and only the connection counts as bad where its flag is set.
pub proof fn law_a_signal_is_shown_as_it_is(s: Signals, t: Signals)
    requires
        signal_lines(s) == signal_lines(t),
    ensures
        s == t,
{
    let (a, b) = (signal_lines(s), signal_lines(t));
    lemma_signal(s.session_running, t.session_running, "session running"@);
    lemma_signal(s.container_running, t.container_running, "container running"@);
    lemma_signal(s.composer_alive, t.composer_alive, "composer HAL alive"@);
    lemma_signal(!s.composer_stale, !t.composer_stale, "composer connection fresh"@);
    lemma_signal(s.boot_completed, t.boot_completed, "Android boot completed"@);
    lemma_signal(s.has_ip, t.has_ip, "IP assigned"@);
    assert(a[0] == b[0] && a[1] == b[1] && a[2] == b[2] && a[3] == b[3] && a[4] == b[4] && a[5]
        == b[5]);
}

/// A good signal reads differently from a bad one.
proof fn lemma_signal(a: bool, b: bool, what: Seq<char>)
    ensures
        signal_line(a, what) == signal_line(b, what) ==> a == b,
        signal_line(true, what)[2] == 'O',
        signal_line(false, what)[2] == 'H',
{
    reveal_strlit("  ");
    reveal_strlit("OK  ");
    reveal_strlit("HATA");
    reveal_strlit(" ");
    assert("OK  "@[0] == 'O' && "HATA"@[0] == 'H');
    assert(signal_line(true, what)[2] == 'O');
    assert(signal_line(false, what)[2] == 'H');
}

/// The report opens with the signals. A healthy session is said to be so and
/// nothing more; of an unhealthy one every failure is listed, and a stale or dead
/// composer is explained.
pub proof fn law_the_report_lists_every_failure(
    s: Signals,
    healthy: bool,
    failures: Seq<Seq<char>>,
    k: int,
)
    requires
        0 <= k < failures.len(),
    ensures
        ({
            let r = health_lines(s, healthy, failures);
            &&& r.len() >= 8
            &&& r.take(7) == signal_lines(s)
            &&& healthy ==> r.len() == 8
            &&& !healthy ==> r.len() == 8 + failures.len() + (if s.composer_stale {
                5int
            } else {
                0
            }) + (if s.composer_alive {
                0int
            } else {
                4
            }) && r[8 + k] == "  - "@ + failures[k]
        }),
{
    let r = health_lines(s, healthy, failures);
    assert(r.take(7) =~= signal_lines(s));
    if !healthy {
        let head = signal_lines(s) + seq!["SORUNLAR:"@];
        assert(r[8 + k] == crate::say::indented("  - "@, failures)[k]);
    }
}

/// The state of the session, the container and the address stand each under its own
/// name; a missing address is a dash, and of the daemon it is told what it says, or that
/// it does not run.
pub proof fn law_every_state_stands_by_its_name(
    session: Seq<char>,
    container: Seq<char>,
    ip: Option<Seq<char>>,
    running: bool,
    daemon: Option<Seq<char>>,
)
    ensures
        ({
            let l = status_lines(session, container, ip, running, daemon);
            &&& l[0] == "Session   : "@ + session
            &&& l[1] == "Container : "@ + container
            &&& ip matches Some(a) ==> l[2] == "IP        : "@ + a
            &&& ip is None ==> l[2] == "IP        : "@ + "-"@
            &&& !running ==> l.len() == 4 && l[3] == "liwd      : not running"@
            &&& running && daemon is Some ==> l.len() == 4 && l[3] == "liwd      : "@ + daemon->0
            &&& running && daemon is None ==> l.len() == 3
        }),
{
}

} // verus!
