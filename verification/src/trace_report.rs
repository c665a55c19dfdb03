//! The report at the end of a traced run.
//!
//! Fractions arrive as text: whoever measured them also rounds them. What is
//! decided here is which lines the report has, from counts and times.

use crate::trace::{LogEvent, Said, Stall, StallView};
use vstd::prelude::*;
use vstd::string::*;

verus! {

/// Fewer intervals than this say nothing about a run.
pub const ENOUGH_INTERVALS: usize = 30;

/// Two accounts of a freeze that begin this close together are one freeze.
pub const SAME_FREEZE_US: u64 = 2000000;

/// How far around a gap in the frames its evidence may lie.
pub const AROUND_US: u64 = 500000;

/// A tag above this many lines per thousand seconds narrows the log's reach.
pub const LOUD_MILLI: u64 = 50000;

/// From here on the graphics processor has no room left (hundredths of a
/// percent).
pub const GPU_FULL_CENTI: u64 = 9500;

/// From here on memory is under pressure (hundredths).
pub const MEM_PRESSED_CENTI: u64 = 1000;

/// The width of the report's rule.
pub const RULE: usize = 64;

/// The width that running text is wrapped to.
pub const TEXT_WIDTH: usize = 62;

/// The frame figures of a run, as shown.
#[derive(Debug)]
pub struct Frames {
    pub intervals: usize,
    pub frames: usize,
    pub coverage: String,
    /// The rate the game is locked to and that of the display, if it is below.
    pub locked: Option<(String, String)>,
    pub jank: String,
    pub period: String,
    pub p50: String,
    pub fps: String,
    pub p99: String,
    pub worst: String,
    pub jank_pct: String,
}

/// A gap found in the frame times.
#[derive(Debug)]
pub struct Gap {
    pub at_us: u64,
    pub len_us: u64,
    /// Its length in seconds, as shown.
    pub shown: String,
}

/// A stutter, with the events that fell into it.
#[derive(Debug)]
pub struct Hitch {
    pub at_us: u64,
    pub len_us: u64,
    /// Its length in milliseconds, as shown.
    pub shown: String,
    pub evidence: Vec<LogEvent>,
}

/// One sample of the host.
#[derive(Debug)]
pub struct HostRow {
    pub at_us: u64,
    /// Load of the graphics processor in hundredths of a percent.
    pub gpu_centi: u64,
    /// Memory pressure in hundredths.
    pub mem_centi: u64,
    pub vram_mb: u64,
    /// The sample as shown.
    pub shown: String,
}

/// A mean and a peak, as shown.
#[derive(Debug)]
pub struct Spread {
    pub mean: String,
    pub peak: String,
}

/// The host over the whole run, as shown.
#[derive(Debug)]
pub struct Meters {
    pub gpu: Spread,
    pub cpu: Spread,
    pub mem: Spread,
    pub vram: Spread,
    /// The total and the peak's share of it, where the total can be read.
    pub vram_total: Option<(String, String)>,
}

/// The tag that writes most.
#[derive(Debug)]
pub struct Noise {
    pub tag: String,
    /// Lines per thousand seconds, rounded up.
    pub rate_milli: u64,
    /// Lines per second, as shown.
    pub shown: String,
}

/// One conclusion.
#[derive(Debug)]
pub struct Verdict {
    pub headline: String,
    pub detail: String,
}

/// What the host was doing during the stutters that nothing in the log
/// explains.
#[derive(Clone, Copy, Debug, PartialEq, Eq, Structural)]
pub struct HostFacts {
    pub unexplained: usize,
    pub gpu_saturated: usize,
    pub vram_saturated: usize,
    pub mem_pressed: usize,
}

/// Everything the report speaks of.
#[derive(Debug)]
pub struct Findings {
    pub frames: Frames,
    pub stalls: Vec<Stall>,
    /// How long each freeze lasted, in seconds, as shown.
    pub lasted: Vec<String>,
    pub gaps: Vec<Gap>,
    pub hitches: Vec<Hitch>,
    pub events: Vec<LogEvent>,
    pub host: Vec<HostRow>,
    pub meters: Meters,
    pub noise: Option<Noise>,
    pub verdicts: Vec<Verdict>,
    pub host_verdict: Option<Verdict>,
    /// Whether the log has exact times.
    pub mono: bool,
}

// ---------------------------------------------------------------- events

/// One line of evidence.
pub open spec fn event_line(e: Said) -> Seq<char> {
    "      "@ + crate::say::padded(e.label, 24) + " "@ + e.tag + (": "@ + e.msg)
}

/// The first `most` events, a line each.
pub open spec fn event_lines(evs: Seq<Said>, most: int) -> Seq<Seq<char>> {
    Seq::new(
        if evs.len() < most {
            evs.len()
        } else {
            most as nat
        },
        |i: int| event_line(evs[i]),
    )
}

fn say_events(out: &mut Vec<String>, evs: &Vec<LogEvent>, most: usize)
    ensures
        crate::text::texts(final(out)@) == crate::text::texts(old(out)@) + event_lines(
            crate::trace::said(evs@),
            most as int,
        ),
{
    let ghost before = crate::text::texts(out@);
    let ghost all = event_lines(crate::trace::said(evs@), most as int);
    let mut i: usize = 0;
    assert(before + all.take(0) =~= before);
    while i < evs.len() && i < most
        invariant
            i <= evs@.len(),
            i <= most,
            all == event_lines(crate::trace::said(evs@), most as int),
            crate::text::texts(out@) == before + all.take(i as int),
        decreases evs@.len() - i,
    {
        let e: &LogEvent = &evs[i];
        let label: String = crate::say::pad(e.label.as_str(), 24);
        let tail: String = crate::say::cat2(": ", e.msg.as_str());
        let line: String = crate::say::cat5(
            "      ",
            label.as_str(),
            " ",
            e.tag.as_str(),
            tail.as_str(),
        );
        assert(all[i as int] == event_line(e@));
        crate::say::put(out, line);
        assert(before + all.take(i + 1) =~= (before + all.take(i as int)).push(all[i as int]));
        i = i + 1;
    }
    assert(all.take(i as int) =~= all);
}

// ---------------------------------------------------------------- frames

pub open spec fn frame_lines(f: Frames) -> Seq<Seq<char>> {
    let counted = "FRAMES "@ + crate::text::decimal(f.intervals as nat) + " intervals, "@
        + crate::text::decimal(f.frames as nat) + (" unique frames, coverage "@ + f.coverage@ + "%"@);
    let locked = match f.locked {
        Some((fps, hz)) => seq![
            "       the game is locked to "@ + fps@ + " FPS (display "@ + hz@ + " Hz)"@,
        ],
        None => Seq::empty(),
    };
    seq![counted] + locked + seq![
        "       jank threshold >"@ + f.jank@ + " ms (1.5x the game period of "@ + f.period@
            + " ms)"@,
        "  p50 "@ + f.p50@ + " ms ("@ + f.fps@ + (" FPS)   p99 "@ + f.p99@ + " ms   worst "@
            + f.worst@ + (" ms   jank>1.5x %"@ + f.jank_pct@)),
    ]
}

fn say_frames(out: &mut Vec<String>, f: &Frames)
    ensures
        crate::text::texts(final(out)@) == crate::text::texts(old(out)@) + frame_lines(*f),
{
    let ghost before = crate::text::texts(out@);
    let a: String = crate::say::count(f.intervals as u64);
    let b: String = crate::say::count(f.frames as u64);
    let tail: String = crate::say::cat3(" unique frames, coverage ", f.coverage.as_str(), "%");
    crate::say::put(
        out,
        crate::say::cat5("FRAMES ", a.as_str(), " intervals, ", b.as_str(), tail.as_str()),
    );
    if let Some(l) = &f.locked {
        crate::say::put(
            out,
            crate::say::cat5(
                "       the game is locked to ",
                l.0.as_str(),
                " FPS (display ",
                l.1.as_str(),
                " Hz)",
            ),
        );
    }
    crate::say::put(
        out,
        crate::say::cat5(
            "       jank threshold >",
            f.jank.as_str(),
            " ms (1.5x the game period of ",
            f.period.as_str(),
            " ms)",
        ),
    );
    let last: String = crate::say::cat2(" ms   jank>1.5x %", f.jank_pct.as_str());
    let tail: String = crate::say::cat5(
        " FPS)   p99 ",
        f.p99.as_str(),
        " ms   worst ",
        f.worst.as_str(),
        last.as_str(),
    );
    crate::say::put(
        out,
        crate::say::cat5("  p50 ", f.p50.as_str(), " ms (", f.fps.as_str(), tail.as_str()),
    );
    assert(crate::text::texts(out@) =~= before + frame_lines(*f));
}

// ---------------------------------------------------------------- freezes

pub open spec fn stall_lines(s: StallView, lasted: Seq<char>) -> Seq<Seq<char>> {
    let head = if s.end_us is Some {
        "  "@ + lasted + " sn"@
    } else {
        "  (still ongoing when the trace ended)"@
    };
    let silent: Seq<Seq<char>> = if s.log.len() == 0 {
        seq![
            "      No event at all on the Android side — the cause is most likely OUTSIDE the container."@,
        ]
    } else {
        Seq::empty()
    };
    seq![head] + silent + event_lines(s.log, 6)
}

/// The lines on the first `n` freezes.
pub open spec fn stalls_lines(s: Seq<StallView>, lasted: Seq<Seq<char>>, n: int) -> Seq<Seq<char>>
    decreases n,
{
    if n <= 0 {
        Seq::empty()
    } else {
        stalls_lines(s, lasted, n - 1) + stall_lines(s[n - 1], lasted[n - 1])
    }
}

/// How far apart two moments are.
pub open spec fn apart(a: u64, b: u64) -> int {
    if a >= b {
        a - b
    } else {
        b - a
    }
}

fn distance(a: u64, b: u64) -> (r: u64)
    ensures
        r == apart(a, b),
{
    if a >= b {
        a - b
    } else {
        b - a
    }
}

/// A freeze was seen live that begins where the gap does.
pub open spec fn seen_live(s: Seq<StallView>, at_us: u64) -> bool {
    exists|i: int| 0 <= i < s.len() && apart((#[trigger] s[i]).start_us, at_us) < SAME_FREEZE_US
}

fn was_seen_live(s: &Vec<Stall>, at_us: u64) -> (r: bool)
    ensures
        r == seen_live(crate::trace::stalls_of(s@), at_us),
{
    let ghost t = crate::trace::stalls_of(s@);
    let mut i: usize = 0;
    while i < s.len()
        invariant
            i <= s@.len(),
            t == crate::trace::stalls_of(s@),
            forall|k: int|
                0 <= k < i ==> apart((#[trigger] t[k]).start_us, at_us) >= SAME_FREEZE_US,
        decreases s@.len() - i,
    {
        assert(t[i as int].start_us == s@[i as int].start_us);
        if distance(s[i].start_us, at_us) < SAME_FREEZE_US {
            return true;
        }
        i = i + 1;
    }
    false
}

/// The event lies in the gap or close to it.
pub open spec fn around(e: Said, at_us: u64, len_us: u64) -> bool {
    e.at_us + AROUND_US >= at_us && e.at_us <= at_us + len_us + AROUND_US
}

/// The events among the first `n` that lie around the gap.
pub open spec fn events_around(evs: Seq<Said>, at_us: u64, len_us: u64, n: int) -> Seq<Said>
    decreases n,
{
    if n <= 0 {
        Seq::empty()
    } else if around(evs[n - 1], at_us, len_us) {
        events_around(evs, at_us, len_us, n - 1).push(evs[n - 1])
    } else {
        events_around(evs, at_us, len_us, n - 1)
    }
}

pub open spec fn gap_lines(g: Gap, live: Seq<StallView>, evs: Seq<Said>) -> Seq<Seq<char>> {
    if seen_live(live, g.at_us) {
        Seq::empty()
    } else {
        seq!["  "@ + g.shown@ + " sn (kare verisinden)"@] + event_lines(
            events_around(evs, g.at_us, g.len_us, evs.len() as int),
            4,
        )
    }
}

/// The lines on the first `n` gaps.
pub open spec fn gaps_lines(
    g: Seq<Gap>,
    live: Seq<StallView>,
    evs: Seq<Said>,
    n: int,
) -> Seq<Seq<char>>
    decreases n,
{
    if n <= 0 {
        Seq::empty()
    } else {
        gaps_lines(g, live, evs, n - 1) + gap_lines(g[n - 1], live, evs)
    }
}

pub open spec fn freeze_section(f: Findings) -> Seq<Seq<char>> {
    let live = crate::trace::stalls_of(f.stalls@);
    let evs = crate::trace::said(f.events@);
    if live.len() == 0 && f.gaps@.len() == 0 {
        Seq::empty()
    } else {
        seq![""@, "DONMALAR"@] + stalls_lines(
            live,
            crate::text::texts(f.lasted@),
            live.len() as int,
        ) + gaps_lines(f.gaps@, live, evs, f.gaps@.len() as int)
    }
}

fn say_stall(out: &mut Vec<String>, s: &Stall, lasted: &str)
    ensures
        crate::text::texts(final(out)@) == crate::text::texts(old(out)@) + stall_lines(s@, lasted@),
{
    let ghost before = crate::text::texts(out@);
    match s.end_us {
        Some(_) => {
            crate::say::put(out, crate::say::cat3("  ", lasted, " sn"));
        },
        None => {
            crate::say::say(out, "  (still ongoing when the trace ended)");
        },
    }
    if s.log.len() == 0 {
        crate::say::say(
            out,
            "      No event at all on the Android side — the cause is most likely OUTSIDE the container.",
        );
    }
    say_events(out, &s.log, 6);
    assert(crate::text::texts(out@) =~= before + stall_lines(s@, lasted@));
}

fn pick_around(evs: &Vec<LogEvent>, at_us: u64, len_us: u64) -> (r: Vec<LogEvent>)
    ensures
        crate::trace::said(r@) == events_around(
            crate::trace::said(evs@),
            at_us,
            len_us,
            evs@.len() as int,
        ),
{
    let ghost t = crate::trace::said(evs@);
    let mut out: Vec<LogEvent> = Vec::new();
    let mut i: usize = 0;
    assert(crate::trace::said(out@) =~= Seq::<Said>::empty());
    while i < evs.len()
        invariant
            i <= evs@.len(),
            t == crate::trace::said(evs@),
            crate::trace::said(out@) == events_around(t, at_us, len_us, i as int),
        decreases evs@.len() - i,
    {
        let e: &LogEvent = &evs[i];
        assert(t[i as int] == e@);
        if e.at_us as u128 + AROUND_US as u128 >= at_us as u128 && e.at_us as u128 <= at_us as u128
            + len_us as u128 + AROUND_US as u128 {
            let ghost got = crate::trace::said(out@);
            out.push(e.clone());
            assert(crate::trace::said(out@) =~= got.push(e@));
        }
        i = i + 1;
    }
    out
}

fn say_gap(out: &mut Vec<String>, g: &Gap, live: &Vec<Stall>, evs: &Vec<LogEvent>)
    ensures
        crate::text::texts(final(out)@) == crate::text::texts(old(out)@) + gap_lines(
            *g,
            crate::trace::stalls_of(live@),
            crate::trace::said(evs@),
        ),
{
    let ghost before = crate::text::texts(out@);
    if was_seen_live(live, g.at_us) {
        assert(before + Seq::<Seq<char>>::empty() =~= before);
        return;
    }
    crate::say::put(out, crate::say::cat3("  ", g.shown.as_str(), " sn (kare verisinden)"));
    let near: Vec<LogEvent> = pick_around(evs, g.at_us, g.len_us);
    say_events(out, &near, 4);
    assert(crate::text::texts(out@) =~= before + gap_lines(
        *g,
        crate::trace::stalls_of(live@),
        crate::trace::said(evs@),
    ));
}

fn say_freezes(out: &mut Vec<String>, f: &Findings)
    requires
        f.lasted@.len() == f.stalls@.len(),
    ensures
        crate::text::texts(final(out)@) == crate::text::texts(old(out)@) + freeze_section(*f),
{
    let ghost before = crate::text::texts(out@);
    let ghost live = crate::trace::stalls_of(f.stalls@);
    let ghost evs = crate::trace::said(f.events@);
    let ghost lasted = crate::text::texts(f.lasted@);
    if f.stalls.len() == 0 && f.gaps.len() == 0 {
        assert(before + Seq::<Seq<char>>::empty() =~= before);
        return;
    }
    crate::say::say(out, "");
    crate::say::say(out, "DONMALAR");
    let ghost head = before + seq![""@, "DONMALAR"@];
    assert(crate::text::texts(out@) =~= head + stalls_lines(live, lasted, 0));
    let mut i: usize = 0;
    while i < f.stalls.len()
        invariant
            i <= f.stalls@.len(),
            f.lasted@.len() == f.stalls@.len(),
            live == crate::trace::stalls_of(f.stalls@),
            lasted == crate::text::texts(f.lasted@),
            crate::text::texts(out@) == head + stalls_lines(live, lasted, i as int),
        decreases f.stalls@.len() - i,
    {
        say_stall(out, &f.stalls[i], f.lasted[i].as_str());
        assert(crate::text::texts(out@) =~= head + stalls_lines(live, lasted, i + 1));
        i = i + 1;
    }
    let ghost upto = head + stalls_lines(live, lasted, live.len() as int);
    let mut i: usize = 0;
    assert(crate::text::texts(out@) =~= upto + gaps_lines(f.gaps@, live, evs, 0));
    while i < f.gaps.len()
        invariant
            i <= f.gaps@.len(),
            live == crate::trace::stalls_of(f.stalls@),
            evs == crate::trace::said(f.events@),
            crate::text::texts(out@) == upto + gaps_lines(f.gaps@, live, evs, i as int),
        decreases f.gaps@.len() - i,
    {
        say_gap(out, &f.gaps[i], &f.stalls, &f.events);
        assert(crate::text::texts(out@) =~= upto + gaps_lines(f.gaps@, live, evs, i + 1));
        i = i + 1;
    }
    assert(crate::text::texts(out@) =~= before + freeze_section(*f));
}

// ---------------------------------------------------------------- stutters

/// The sample closest to a moment among the first `n`; of two as close, the
/// earlier in the list.
pub open spec fn closest(host: Seq<HostRow>, at_us: u64, n: int) -> int
    decreases n,
{
    if n <= 1 {
        0
    } else {
        let best = closest(host, at_us, n - 1);
        if apart(host[n - 1].at_us, at_us) < apart(host[best].at_us, at_us) {
            n - 1
        } else {
            best
        }
    }
}

proof fn lemma_closest(host: Seq<HostRow>, at_us: u64, n: int)
    requires
        1 <= n <= host.len(),
    ensures
        0 <= closest(host, at_us, n) < n,
        forall|k: int|
            0 <= k < n ==> apart(host[closest(host, at_us, n)].at_us, at_us) <= apart(
                (#[trigger] host[k]).at_us,
                at_us,
            ),
    decreases n,
{
    if n > 1 {
        lemma_closest(host, at_us, n - 1);
    }
}

/// No sample lies closer to a moment than the one picked for it.
pub proof fn law_the_closest_sample_is_picked(host: Seq<HostRow>, at_us: u64, k: int)
    requires
        0 <= k < host.len(),
    ensures
        0 <= closest(host, at_us, host.len() as int) < host.len(),
        apart(host[closest(host, at_us, host.len() as int)].at_us, at_us) <= apart(
            host[k].at_us,
            at_us,
        ),
{
    lemma_closest(host, at_us, host.len() as int);
}

fn pick_closest(host: &Vec<HostRow>, at_us: u64) -> (r: usize)
    requires
        host@.len() > 0,
    ensures
        r == closest(host@, at_us, host@.len() as int),
        r < host@.len(),
{
    let mut best: usize = 0;
    let mut i: usize = 1;
    while i < host.len()
        invariant
            1 <= i <= host@.len(),
            best < i,
            best == closest(host@, at_us, i as int),
        decreases host@.len() - i,
    {
        if distance(host[i].at_us, at_us) < distance(host[best].at_us, at_us) {
            best = i;
        }
        i = i + 1;
    }
    best
}

pub open spec fn hitch_lines(h: Hitch, host: Seq<HostRow>) -> Seq<Seq<char>> {
    let evs = crate::trace::said(h.evidence@);
    let alone: Seq<Seq<char>> = if evs.len() == 0 {
        seq!["      (no concurrent event on the Android side)"@]
    } else {
        Seq::empty()
    };
    let beside: Seq<Seq<char>> = if host.len() == 0 {
        Seq::empty()
    } else {
        seq!["      host: "@ + host[closest(host, h.at_us, host.len() as int)].shown@]
    };
    seq!["  "@ + h.shown@ + " ms"@] + alone + event_lines(evs, evs.len() as int) + beside
}

/// The lengths of the stutters.
pub open spec fn lengths(h: Seq<Hitch>) -> Seq<u64> {
    h.map_values(|x: Hitch| x.len_us)
}

/// The lines on the first `n` of the ranked stutters.
pub open spec fn ranked_lines(h: Seq<Hitch>, order: Seq<int>, host: Seq<HostRow>, n: int) -> Seq<
    Seq<char>,
>
    decreases n,
{
    if n <= 0 {
        Seq::empty()
    } else {
        ranked_lines(h, order, host, n - 1) + hitch_lines(h[order[n - 1]], host)
    }
}

/// The longest stutters, at most six.
pub open spec fn hitch_section(f: Findings) -> Seq<Seq<char>> {
    let n = f.hitches@.len();
    if n == 0 {
        Seq::empty()
    } else {
        seq![""@, "EN UZUN TAKILMALAR"@] + ranked_lines(
            f.hitches@,
            crate::order::largest_first(lengths(f.hitches@)),
            f.host@,
            if n < 6 {
                n as int
            } else {
                6
            },
        )
    }
}

fn say_hitch(out: &mut Vec<String>, h: &Hitch, host: &Vec<HostRow>)
    ensures
        crate::text::texts(final(out)@) == crate::text::texts(old(out)@) + hitch_lines(*h, host@),
{
    let ghost before = crate::text::texts(out@);
    crate::say::put(out, crate::say::cat3("  ", h.shown.as_str(), " ms"));
    if h.evidence.len() == 0 {
        crate::say::say(out, "      (no concurrent event on the Android side)");
    }
    say_events(out, &h.evidence, h.evidence.len());
    if host.len() > 0 {
        let k: usize = pick_closest(host, h.at_us);
        crate::say::put(out, crate::say::cat2("      host: ", host[k].shown.as_str()));
    }
    assert(crate::text::texts(out@) =~= before + hitch_lines(*h, host@));
}

fn say_hitches(out: &mut Vec<String>, f: &Findings)
    ensures
        crate::text::texts(final(out)@) == crate::text::texts(old(out)@) + hitch_section(*f),
{
    let ghost before = crate::text::texts(out@);
    if f.hitches.len() == 0 {
        assert(before + Seq::<Seq<char>>::empty() =~= before);
        return;
    }
    let mut sizes: Vec<u64> = Vec::new();
    let mut i: usize = 0;
    while i < f.hitches.len()
        invariant
            i <= f.hitches@.len(),
            sizes@ == lengths(f.hitches@).take(i as int),
        decreases f.hitches@.len() - i,
    {
        sizes.push(f.hitches[i].len_us);
        assert(sizes@ =~= lengths(f.hitches@).take(i + 1));
        i = i + 1;
    }
    assert(sizes@ =~= lengths(f.hitches@));
    let order: Vec<usize> = crate::order::by_size(&sizes);
    let ghost ranks = crate::order::largest_first(lengths(f.hitches@));
    crate::say::say(out, "");
    crate::say::say(out, "EN UZUN TAKILMALAR");
    let ghost head = before + seq![""@, "EN UZUN TAKILMALAR"@];
    assert(crate::text::texts(out@) =~= head + ranked_lines(f.hitches@, ranks, f.host@, 0));
    let mut i: usize = 0;
    while i < order.len() && i < 6
        invariant
            i <= order@.len(),
            i <= 6,
            order@.len() == f.hitches@.len(),
            ranks == crate::order::places(order@),
            forall|k: int| 0 <= k < order@.len() ==> #[trigger] order@[k] < f.hitches@.len(),
            crate::text::texts(out@) == head + ranked_lines(f.hitches@, ranks, f.host@, i as int),
        decreases order@.len() - i,
    {
        let k: usize = order[i];
        assert(ranks[i as int] == k);
        say_hitch(out, &f.hitches[k], &f.host);
        assert(crate::text::texts(out@) =~= head + ranked_lines(f.hitches@, ranks, f.host@, i + 1));
        i = i + 1;
    }
    assert(crate::text::texts(out@) =~= before + hitch_section(*f));
}

// ---------------------------------------------------------------- signatures

/// How often each kind of event was seen, in the order of first sight.
pub open spec fn tally(evs: Seq<Said>, n: int) -> Seq<(Seq<char>, u64)>
    decreases n,
{
    if n <= 0 {
        Seq::empty()
    } else {
        counted(tally(evs, n - 1), evs[n - 1].label)
    }
}

/// The index of a label in a tally, looking from `i` on.
pub open spec fn label_at(t: Seq<(Seq<char>, u64)>, label: Seq<char>, i: int) -> int
    decreases t.len() - i,
{
    if i >= t.len() || t[i].0 == label {
        i
    } else {
        label_at(t, label, i + 1)
    }
}

/// The tally with one more of `label`.
pub open spec fn counted(t: Seq<(Seq<char>, u64)>, label: Seq<char>) -> Seq<(Seq<char>, u64)> {
    let i = label_at(t, label, 0);
    if i < t.len() {
        t.update(i, (label, (t[i].1 + 1) as u64))
    } else {
        t.push((label, 1))
    }
}

/// A tally as plain text.
pub open spec fn tally_of(v: Seq<(String, u64)>) -> Seq<(Seq<char>, u64)> {
    v.map_values(|x: (String, u64)| (x.0@, x.1))
}

proof fn lemma_label_at(t: Seq<(Seq<char>, u64)>, label: Seq<char>, i: int)
    requires
        0 <= i <= t.len(),
    ensures
        i <= label_at(t, label, i) <= t.len(),
        label_at(t, label, i) < t.len() ==> t[label_at(t, label, i)].0 == label,
        forall|k: int| i <= k < label_at(t, label, i) ==> (#[trigger] t[k]).0 != label,
    decreases t.len() - i,
{
    if i < t.len() && t[i].0 != label {
        lemma_label_at(t, label, i + 1);
    }
}

/// No count is larger than the number of events.
proof fn lemma_tally_bound(evs: Seq<Said>, n: int)
    requires
        0 <= n <= evs.len(),
        n < u64::MAX,
    ensures
        forall|k: int| 0 <= k < tally(evs, n).len() ==> (#[trigger] tally(evs, n)[k]).1 <= n,
    decreases n,
{
    if n > 0 {
        lemma_tally_bound(evs, n - 1);
        lemma_label_at(tally(evs, n - 1), evs[n - 1].label, 0);
    }
}

fn count_label(t: &mut Vec<(String, u64)>, label: &str)
    requires
        forall|k: int| 0 <= k < old(t)@.len() ==> (#[trigger] old(t)@[k]).1 < u64::MAX,
    ensures
        tally_of(final(t)@) == counted(tally_of(old(t)@), label@),
{
    let ghost was = tally_of(t@);
    let mut i: usize = 0;
    while i < t.len()
        invariant
            i <= t@.len(),
            *t == *old(t),
            was == tally_of(t@),
            forall|k: int| 0 <= k < t@.len() ==> (#[trigger] t@[k]).1 < u64::MAX,
            label_at(was, label@, 0) == label_at(was, label@, i as int),
        decreases t@.len() - i,
    {
        assert(was[i as int].0 == t@[i as int].0@);
        if crate::text::same(t[i].0.as_str(), label) {
            let n: u64 = t[i].1;
            assert(t@[i as int].1 < u64::MAX);
            let name: String = label.to_owned();
            t.set(i, (name, n + 1));
            assert(tally_of(t@) =~= was.update(i as int, (label@, (n + 1) as u64)));
            return;
        }
        i = i + 1;
    }
    let name: String = label.to_owned();
    t.push((name, 1));
    assert(tally_of(t@) =~= was.push((label@, 1)));
}

fn tally_events(evs: &Vec<LogEvent>) -> (r: Vec<(String, u64)>)
    requires
        evs@.len() < u64::MAX,
    ensures
        tally_of(r@) == tally(crate::trace::said(evs@), evs@.len() as int),
{
    let ghost t = crate::trace::said(evs@);
    let mut out: Vec<(String, u64)> = Vec::new();
    let mut i: usize = 0;
    assert(tally_of(out@) =~= Seq::<(Seq<char>, u64)>::empty());
    while i < evs.len()
        invariant
            i <= evs@.len() < u64::MAX,
            t == crate::trace::said(evs@),
            tally_of(out@) == tally(t, i as int),
        decreases evs@.len() - i,
    {
        proof {
            lemma_tally_bound(t, i as int);
            assert forall|k: int| 0 <= k < out@.len() implies (#[trigger] out@[k]).1 < u64::MAX by {
                assert(tally_of(out@)[k].1 == out@[k].1);
            }
            assert(t[i as int].label == evs@[i as int].label@);
        }
        count_label(&mut out, evs[i].label.as_str());
        i = i + 1;
    }
    out
}

/// The counts of a tally.
pub open spec fn counts(t: Seq<(Seq<char>, u64)>) -> Seq<u64> {
    t.map_values(|x: (Seq<char>, u64)| x.1)
}

/// The lines of a tally, in the given order.
pub open spec fn tally_lines(t: Seq<(Seq<char>, u64)>, order: Seq<int>) -> Seq<Seq<char>> {
    order.map_values(
        |k: int|
            "  "@ + crate::say::padded(t[k].0, 26) + " "@ + crate::text::decimal(t[k].1 as nat),
    )
}

/// Some event is about the input path.
pub open spec fn input_lost(evs: Seq<Said>) -> bool {
    exists|i: int| 0 <= i < evs.len() && (#[trigger] evs[i]).input
}

pub open spec fn input_warning() -> Seq<char> {
    "WARNING: Android lost and re-created our touch device. When that happens the pipe handle we hold dies and injection stops. `liw keymap stop && liw keymap start --grab` brings it back."@
}

/// What the log holds, most frequent first.
pub open spec fn signature_section(f: Findings) -> Seq<Seq<char>> {
    let evs = crate::trace::said(f.events@);
    let t = tally(evs, evs.len() as int);
    if evs.len() > 0 {
        let head = seq![
            ""@,
            "LOG SIGNATURES ("@ + crate::text::decimal(evs.len())
                + " events, within the trace window)"@,
        ];
        let warning: Seq<Seq<char>> = if input_lost(evs) {
            seq![""@] + crate::say::indented(
                "  "@,
                crate::words::wrapped(input_warning(), TEXT_WIDTH as int),
            )
        } else {
            Seq::empty()
        };
        head + tally_lines(t, crate::order::largest_first(counts(t))) + warning
    } else if !f.mono {
        seq![
            ""@,
            "No events came out of the log. Because the helper is old the time alignment is approximate;"@,
            "diagnosis sharpens noticeably after `sudo bash dist/install-helper.sh`."@,
        ]
    } else {
        Seq::empty()
    }
}

fn lost_input(evs: &Vec<LogEvent>) -> (r: bool)
    ensures
        r == input_lost(crate::trace::said(evs@)),
{
    let ghost t = crate::trace::said(evs@);
    let mut i: usize = 0;
    while i < evs.len()
        invariant
            i <= evs@.len(),
            t == crate::trace::said(evs@),
            forall|k: int| 0 <= k < i ==> !(#[trigger] t[k]).input,
        decreases evs@.len() - i,
    {
        assert(t[i as int].input == evs@[i as int].input);
        if evs[i].input {
            return true;
        }
        i = i + 1;
    }
    false
}

fn say_signatures(out: &mut Vec<String>, f: &Findings)
    requires
        f.events@.len() < u64::MAX,
    ensures
        crate::text::texts(final(out)@) == crate::text::texts(old(out)@) + signature_section(*f),
{
    let ghost before = crate::text::texts(out@);
    let ghost evs = crate::trace::said(f.events@);
    let ghost t = tally(evs, evs.len() as int);
    if f.events.len() == 0 {
        if !f.mono {
            crate::say::say(out, "");
            crate::say::say(
                out,
                "No events came out of the log. Because the helper is old the time alignment is approximate;",
            );
            crate::say::say(
                out,
                "diagnosis sharpens noticeably after `sudo bash dist/install-helper.sh`.",
            );
        }
        assert(crate::text::texts(out@) =~= before + signature_section(*f));
        return;
    }
    crate::say::say(out, "");
    let n: String = crate::say::count(f.events.len() as u64);
    crate::say::put(
        out,
        crate::say::cat3("LOG SIGNATURES (", n.as_str(), " events, within the trace window)"),
    );
    let seen: Vec<(String, u64)> = tally_events(&f.events);
    let mut sizes: Vec<u64> = Vec::new();
    let mut i: usize = 0;
    while i < seen.len()
        invariant
            i <= seen@.len(),
            t == tally_of(seen@),
            sizes@ == counts(t).take(i as int),
        decreases seen@.len() - i,
    {
        assert(t[i as int].1 == seen@[i as int].1);
        sizes.push(seen[i].1);
        assert(sizes@ =~= counts(t).take(i + 1));
        i = i + 1;
    }
    assert(sizes@ =~= counts(t));
    let order: Vec<usize> = crate::order::by_size(&sizes);
    let ghost all = tally_lines(t, crate::order::largest_first(counts(t)));
    let ghost head = crate::text::texts(out@);
    let mut i: usize = 0;
    assert(head + all.take(0) =~= head);
    while i < order.len()
        invariant
            i <= order@.len(),
            order@.len() == seen@.len(),
            t == tally_of(seen@),
            forall|k: int| 0 <= k < order@.len() ==> #[trigger] order@[k] < seen@.len(),
            all == tally_lines(t, crate::order::places(order@)),
            crate::text::texts(out@) == head + all.take(i as int),
        decreases order@.len() - i,
    {
        let k: usize = order[i];
        let label: String = crate::say::pad(seen[k].0.as_str(), 26);
        let n: String = crate::say::count(seen[k].1);
        assert(t[k as int] == (seen@[k as int].0@, seen@[k as int].1));
        crate::say::put(out, crate::say::cat4("  ", label.as_str(), " ", n.as_str()));
        assert(all[i as int] == "  "@ + crate::say::padded(t[k as int].0, 26) + " "@
            + crate::text::decimal(t[k as int].1 as nat));
        assert(head + all.take(i + 1) =~= (head + all.take(i as int)).push(all[i as int]));
        i = i + 1;
    }
    assert(all.take(i as int) =~= all);
    if lost_input(&f.events) {
        crate::say::say(out, "");
        let w: Vec<String> = crate::words::wrap(
            "WARNING: Android lost and re-created our touch device. When that happens the pipe handle we hold dies and injection stops. `liw keymap stop && liw keymap start --grab` brings it back.",
            TEXT_WIDTH,
        );
        crate::say::put_indented(out, "  ", &w);
    }
    assert(crate::text::texts(out@) =~= before + signature_section(*f));
}

// ---------------------------------------------------------------- host

pub open spec fn meter_line(label: Seq<char>, s: Spread, unit: Seq<char>) -> Seq<char> {
    "  "@ + crate::say::padded(label, 10) + (" mean "@ + crate::say::padded_left(s.mean@, 7) + unit)
        + ("   peak "@ + crate::say::padded_left(s.peak@, 7) + unit)
}

pub open spec fn host_section(f: Findings) -> Seq<Seq<char>> {
    if f.host@.len() == 0 {
        Seq::empty()
    } else {
        let m = f.meters;
        let vram = meter_line("VRAM"@, m.vram, "MB"@);
        seq![
            ""@,
            "HOST ("@ + crate::text::decimal(f.host@.len()) + " samples)"@,
            meter_line("GPU"@, m.gpu, "%"@),
            meter_line("CPU"@, m.cpu, "%"@),
            meter_line("mem.pressure"@, m.mem, ""@),
            match m.vram_total {
                Some((total, pct)) => vram + "  / "@ + total@ + "MB                       (peak "@
                    + (pct@ + "%)"@),
                None => vram + "                        (total unreadable)"@,
            },
        ]
    }
}

fn meter(label: &str, s: &Spread, unit: &str) -> (r: String)
    ensures
        r@ == meter_line(label@, *s, unit@),
{
    let name: String = crate::say::pad(label, 10);
    let mean: String = crate::say::pad_left(s.mean.as_str(), 7);
    let peak: String = crate::say::pad_left(s.peak.as_str(), 7);
    let a: String = crate::say::cat3(" mean ", mean.as_str(), unit);
    let b: String = crate::say::cat3("   peak ", peak.as_str(), unit);
    crate::say::cat4("  ", name.as_str(), a.as_str(), b.as_str())
}

fn say_host(out: &mut Vec<String>, f: &Findings)
    ensures
        crate::text::texts(final(out)@) == crate::text::texts(old(out)@) + host_section(*f),
{
    let ghost before = crate::text::texts(out@);
    if f.host.len() == 0 {
        assert(before + Seq::<Seq<char>>::empty() =~= before);
        return;
    }
    crate::say::say(out, "");
    let n: String = crate::say::count(f.host.len() as u64);
    crate::say::put(out, crate::say::cat3("HOST (", n.as_str(), " samples)"));
    crate::say::put(out, meter("GPU", &f.meters.gpu, "%"));
    crate::say::put(out, meter("CPU", &f.meters.cpu, "%"));
    crate::say::put(out, meter("mem.pressure", &f.meters.mem, ""));
    let vram: String = meter("VRAM", &f.meters.vram, "MB");
    match &f.meters.vram_total {
        Some(t) => {
            let tail: String = crate::say::cat2(t.1.as_str(), "%)");
            crate::say::put(
                out,
                crate::say::cat5(
                    vram.as_str(),
                    "  / ",
                    t.0.as_str(),
                    "MB                       (peak ",
                    tail.as_str(),
                ),
            );
        },
        None => {
            crate::say::put(
                out,
                crate::say::cat2(vram.as_str(), "                        (total unreadable)"),
            );
        },
    }
    assert(crate::text::texts(out@) =~= before + host_section(*f));
}

// ---------------------------------------------------------------- noise

pub open spec fn noise_note(tag: Seq<char>) -> Seq<char> {
    "This costs two things: the diagnostic tail covers milliseconds instead of seconds (events drop before they are seen), and every line is copied to logd. To silence it: waydroid prop set log.tag."@
        + tag + " S"@
}

/// A tag writes so much that it narrows the log's reach.
pub open spec fn loud(n: Option<Noise>) -> bool {
    n matches Some(x) && x.rate_milli > LOUD_MILLI
}

pub open spec fn noise_section(f: Findings) -> Seq<Seq<char>> {
    match f.noise {
        Some(n) => if n.rate_milli > LOUD_MILLI {
            seq![
                ""@,
                "LOG NOISE"@,
                "  '"@ + n.tag@ + "' writes "@ + n.shown@ + " lines per second."@,
            ] + crate::say::indented(
                "  "@,
                crate::words::wrapped(noise_note(n.tag@), TEXT_WIDTH as int),
            )
        } else {
            Seq::empty()
        },
        None => Seq::empty(),
    }
}

fn say_noise(out: &mut Vec<String>, f: &Findings)
    ensures
        crate::text::texts(final(out)@) == crate::text::texts(old(out)@) + noise_section(*f),
{
    let ghost before = crate::text::texts(out@);
    if let Some(n) = &f.noise {
        if n.rate_milli > LOUD_MILLI {
            crate::say::say(out, "");
            crate::say::say(out, "LOG NOISE");
            crate::say::put(
                out,
                crate::say::cat5(
                    "  '",
                    n.tag.as_str(),
                    "' writes ",
                    n.shown.as_str(),
                    " lines per second.",
                ),
            );
            let note: String = crate::say::cat3(
                "This costs two things: the diagnostic tail covers milliseconds instead of seconds (events drop before they are seen), and every line is copied to logd. To silence it: waydroid prop set log.tag.",
                n.tag.as_str(),
                " S",
            );
            let w: Vec<String> = crate::words::wrap(note.as_str(), TEXT_WIDTH);
            crate::say::put_indented(out, "  ", &w);
        }
    }
    assert(crate::text::texts(out@) =~= before + noise_section(*f));
}

// ---------------------------------------------------------------- verdict

pub open spec fn verdict_lines(v: Verdict) -> Seq<Seq<char>> {
    seq!["  ▸ "@ + v.headline@] + crate::say::indented(
        "    "@,
        crate::words::wrapped(v.detail@, TEXT_WIDTH as int),
    )
}

/// The lines of the first `n` verdicts.
pub open spec fn verdicts_lines(v: Seq<Verdict>, n: int) -> Seq<Seq<char>>
    decreases n,
{
    if n <= 0 {
        Seq::empty()
    } else {
        verdicts_lines(v, n - 1) + verdict_lines(v[n - 1])
    }
}

fn say_verdict(out: &mut Vec<String>, v: &Verdict)
    ensures
        crate::text::texts(final(out)@) == crate::text::texts(old(out)@) + verdict_lines(*v),
{
    let ghost before = crate::text::texts(out@);
    crate::say::put(out, crate::say::cat2("  ▸ ", v.headline.as_str()));
    let w: Vec<String> = crate::words::wrap(v.detail.as_str(), TEXT_WIDTH);
    crate::say::put_indented(out, "    ", &w);
    assert(crate::text::texts(out@) =~= before + verdict_lines(*v));
}

impl HostFacts {
    pub open spec fn none() -> HostFacts {
        HostFacts { unexplained: 0, gpu_saturated: 0, vram_saturated: 0, mem_pressed: 0 }
    }
}

/// Video memory is full, to 92 percent of the total or beyond.
pub open spec fn vram_full(row: HostRow, total_mb: u64) -> bool {
    total_mb > 0 && 100 * row.vram_mb >= 92 * total_mb
}

/// The facts over the first `n` stutters.
pub open spec fn facts_of(h: Seq<Hitch>, host: Seq<HostRow>, total_mb: u64, n: int) -> HostFacts
    decreases n,
{
    if n <= 0 {
        HostFacts::none()
    } else {
        let f = facts_of(h, host, total_mb, n - 1);
        let x = h[n - 1];
        if x.evidence@.len() > 0 {
            f
        } else if host.len() == 0 {
            HostFacts { unexplained: (f.unexplained + 1) as usize, ..f }
        } else {
            let row = host[closest(host, x.at_us, host.len() as int)];
            HostFacts {
                unexplained: (f.unexplained + 1) as usize,
                gpu_saturated: if row.gpu_centi >= GPU_FULL_CENTI {
                    (f.gpu_saturated + 1) as usize
                } else {
                    f.gpu_saturated
                },
                vram_saturated: if vram_full(row, total_mb) {
                    (f.vram_saturated + 1) as usize
                } else {
                    f.vram_saturated
                },
                mem_pressed: if row.mem_centi >= MEM_PRESSED_CENTI {
                    (f.mem_pressed + 1) as usize
                } else {
                    f.mem_pressed
                },
            }
        }
    }
}

proof fn lemma_facts_bound(h: Seq<Hitch>, host: Seq<HostRow>, total_mb: u64, n: int)
    requires
        0 <= n <= h.len(),
        n <= usize::MAX,
    ensures
        facts_of(h, host, total_mb, n).unexplained <= n,
        facts_of(h, host, total_mb, n).gpu_saturated <= n,
        facts_of(h, host, total_mb, n).vram_saturated <= n,
        facts_of(h, host, total_mb, n).mem_pressed <= n,
    decreases n,
{
    if n > 0 {
        lemma_facts_bound(h, host, total_mb, n - 1);
    }
}

/// No fact is counted more often than there are unexplained stutters.
pub proof fn law_facts_count_unexplained_stutters(
    h: Seq<Hitch>,
    host: Seq<HostRow>,
    total_mb: u64,
    n: int,
)
    requires
        0 <= n <= h.len(),
        n <= usize::MAX,
    ensures
        ({
            let f = facts_of(h, host, total_mb, n);
            &&& f.unexplained <= n
            &&& f.gpu_saturated <= f.unexplained
            &&& f.vram_saturated <= f.unexplained
            &&& f.mem_pressed <= f.unexplained
        }),
    decreases n,
{
    lemma_facts_bound(h, host, total_mb, n);
    if n > 0 {
        lemma_facts_bound(h, host, total_mb, n - 1);
        law_facts_count_unexplained_stutters(h, host, total_mb, n - 1);
    }
}

/// What the host was doing during the stutters without evidence.
/// `vram_total_mb` is the largest total that any sample read.
pub fn host_facts(hitches: &Vec<Hitch>, host: &Vec<HostRow>, vram_total_mb: u64) -> (r: HostFacts)
    ensures
        r == facts_of(hitches@, host@, vram_total_mb, hitches@.len() as int),
{
    let mut f = HostFacts {
        unexplained: 0,
        gpu_saturated: 0,
        vram_saturated: 0,
        mem_pressed: 0,
    };
    let mut i: usize = 0;
    while i < hitches.len()
        invariant
            i <= hitches@.len(),
            f == facts_of(hitches@, host@, vram_total_mb, i as int),
        decreases hitches@.len() - i,
    {
        let h: &Hitch = &hitches[i];
        proof {
            lemma_facts_bound(hitches@, host@, vram_total_mb, i as int);
        }
        if h.evidence.len() == 0 {
            f.unexplained = f.unexplained + 1;
            if host.len() > 0 {
                let k: usize = pick_closest(host, h.at_us);
                let row: &HostRow = &host[k];
                if row.gpu_centi >= GPU_FULL_CENTI {
                    f.gpu_saturated = f.gpu_saturated + 1;
                }
                if vram_total_mb > 0 && 100 * (row.vram_mb as u128) >= 92 * (vram_total_mb as u128) {
                    f.vram_saturated = f.vram_saturated + 1;
                }
                if row.mem_centi >= MEM_PRESSED_CENTI {
                    f.mem_pressed = f.mem_pressed + 1;
                }
            }
        }
        i = i + 1;
    }
    f
}

/// Some stutter has no evidence.
pub open spec fn some_unexplained(h: Seq<Hitch>) -> bool {
    exists|i: int| 0 <= i < h.len() && (#[trigger] h[i]).evidence@.len() == 0
}

pub open spec fn unsaturated_note() -> Seq<char> {
    "No event on the Android side and no saturation on the host. That leaves the compositor/presentation path and power management: look at `liw perf status`. If the log alignment is approximate (old helper), evidence may also have been missed."@
}

pub open spec fn verdict_section(f: Findings) -> Seq<Seq<char>> {
    let host: Seq<Seq<char>> = match f.host_verdict {
        Some(v) => verdict_lines(v),
        None => if some_unexplained(f.hitches@) {
            seq!["  ▸ Host resources are not saturated either"@] + crate::say::indented(
                "    "@,
                crate::words::wrapped(unsaturated_note(), TEXT_WIDTH as int),
            )
        } else {
            Seq::empty()
        },
    };
    let note: Seq<Seq<char>> = if f.mono {
        Seq::empty()
    } else {
        seq![
            ""@,
            "  NOTE: the helper is old — the log arrives on wall clock and"@,
            "  matching is ±1 s uncertain. After `sudo bash dist/install-helper.sh`"@,
            "  correlation drops to frame precision."@,
        ]
    };
    seq![""@, "VERDICT"@] + verdicts_lines(f.verdicts@, f.verdicts@.len() as int) + host + note
}

fn any_unexplained(h: &Vec<Hitch>) -> (r: bool)
    ensures
        r == some_unexplained(h@),
{
    let mut i: usize = 0;
    while i < h.len()
        invariant
            i <= h@.len(),
            forall|k: int| 0 <= k < i ==> (#[trigger] h@[k]).evidence@.len() != 0,
        decreases h@.len() - i,
    {
        if h[i].evidence.len() == 0 {
            return true;
        }
        i = i + 1;
    }
    false
}

fn say_verdicts(out: &mut Vec<String>, f: &Findings)
    ensures
        crate::text::texts(final(out)@) == crate::text::texts(old(out)@) + verdict_section(*f),
{
    let ghost before = crate::text::texts(out@);
    crate::say::say(out, "");
    crate::say::say(out, "VERDICT");
    let ghost head = before + seq![""@, "VERDICT"@];
    assert(crate::text::texts(out@) =~= head + verdicts_lines(f.verdicts@, 0));
    let mut i: usize = 0;
    while i < f.verdicts.len()
        invariant
            i <= f.verdicts@.len(),
            crate::text::texts(out@) == head + verdicts_lines(f.verdicts@, i as int),
        decreases f.verdicts@.len() - i,
    {
        say_verdict(out, &f.verdicts[i]);
        assert(crate::text::texts(out@) =~= head + verdicts_lines(f.verdicts@, i + 1));
        i = i + 1;
    }
    match &f.host_verdict {
        Some(v) => {
            say_verdict(out, v);
        },
        None => {
            if any_unexplained(&f.hitches) {
                crate::say::say(out, "  ▸ Host resources are not saturated either");
                let w: Vec<String> = crate::words::wrap(
                    "No event on the Android side and no saturation on the host. That leaves the compositor/presentation path and power management: look at `liw perf status`. If the log alignment is approximate (old helper), evidence may also have been missed.",
                    TEXT_WIDTH,
                );
                crate::say::put_indented(out, "    ", &w);
            }
        },
    }
    if !f.mono {
        crate::say::say(out, "");
        crate::say::say(out, "  NOTE: the helper is old — the log arrives on wall clock and");
        crate::say::say(out, "  matching is ±1 s uncertain. After `sudo bash dist/install-helper.sh`");
        crate::say::say(out, "  correlation drops to frame precision.");
    }
    assert(crate::text::texts(out@) =~= before + verdict_section(*f));
}

// ---------------------------------------------------------------- opening

/// What a run says before it starts.
pub open spec fn opening_lines(
    layer: Seq<char>,
    refresh: Seq<char>,
    hz: Seq<char>,
    interval_ms: u64,
    jank: Option<Seq<char>>,
    mono: bool,
    seconds: u64,
    noise: Option<Noise>,
) -> Seq<Seq<char>> {
    let freeze = crate::text::decimal((crate::trace::STALL_US / 1000) as nat);
    let head = seq![
        "Katman : "@ + layer,
        "Refresh: "@ + refresh + " ms ("@ + hz + (" Hz)  ->  sampling every "@
            + crate::text::decimal(interval_ms as nat) + " ms"@),
        match jank {
            Some(j) => "Thresholds: jank >"@ + j + " ms   freeze >"@ + freeze + " ms"@,
            None => "Thresholds: freeze >"@ + freeze
                + " ms — the jank threshold will be derived from the measured cadence"@,
        },
        "Log    : "@ + (if mono {
            "monotonic (fully aligned)"@
        } else {
            "wall clock (old helper — alignment approximate)"@
        }),
        "Length : "@ + crate::text::decimal(seconds as nat) + "s — DO THE THING THAT GOES WRONG"@,
    ];
    let noisy: Seq<Seq<char>> = if loud(noise) {
        seq![
            "Noise  : '"@ + noise->0.tag@ + "' writes "@ + noise->0.shown@
                + " lines/second                            — it narrows the diagnostic window"@,
        ]
    } else {
        Seq::empty()
    };
    head + noisy
}

/// What a run says before it starts.
pub fn opening(
    layer: &str,
    refresh: &str,
    hz: &str,
    interval_ms: u64,
    jank: Option<&str>,
    mono: bool,
    seconds: u64,
    noise: &Option<Noise>,
) -> (r: Vec<String>)
    ensures
        crate::text::texts(r@) == opening_lines(
            layer@,
            refresh@,
            hz@,
            interval_ms,
            match jank {
                Some(j) => Some(j@),
                None => None,
            },
            mono,
            seconds,
            *noise,
        ),
{
    let mut out: Vec<String> = crate::say::page();
    crate::say::put(&mut out, crate::say::cat2("Katman : ", layer));
    let every: String = crate::say::count(interval_ms);
    let tail: String = crate::say::cat3(" Hz)  ->  sampling every ", every.as_str(), " ms");
    crate::say::put(&mut out, crate::say::cat5("Refresh: ", refresh, " ms (", hz, tail.as_str()));
    let freeze: String = crate::say::count(crate::trace::STALL_US / 1000);
    match jank {
        Some(j) => {
            crate::say::put(
                &mut out,
                crate::say::cat5("Thresholds: jank >", j, " ms   freeze >", freeze.as_str(), " ms"),
            );
        },
        None => {
            crate::say::put(
                &mut out,
                crate::say::cat3(
                    "Thresholds: freeze >",
                    freeze.as_str(),
                    " ms — the jank threshold will be derived from the measured cadence",
                ),
            );
        },
    }
    crate::say::put(
        &mut out,
        crate::say::cat2(
            "Log    : ",
            if mono {
                "monotonic (fully aligned)"
            } else {
                "wall clock (old helper — alignment approximate)"
            },
        ),
    );
    let long: String = crate::say::count(seconds);
    crate::say::put(
        &mut out,
        crate::say::cat3("Length : ", long.as_str(), "s — DO THE THING THAT GOES WRONG"),
    );
    if let Some(n) = noise {
        if n.rate_milli > LOUD_MILLI {
            crate::say::put(
                &mut out,
                crate::say::cat5(
                    "Noise  : '",
                    n.tag.as_str(),
                    "' writes ",
                    n.shown.as_str(),
                    " lines/second                            — it narrows the diagnostic window",
                ),
            );
        }
    }
    assert(crate::text::texts(out@) =~= opening_lines(
        layer@,
        refresh@,
        hz@,
        interval_ms,
        match jank {
            Some(j) => Some(j@),
            None => None,
        },
        mono,
        seconds,
        *noise,
    ));
    out
}

// ---------------------------------------------------------------- report

/// The whole report.
pub open spec fn report_lines(f: Findings) -> Seq<Seq<char>> {
    let rule = seq![crate::say::repeated('=', RULE as int)];
    if f.frames.intervals < ENOUGH_INTERVALS {
        rule + seq![
            "Not enough frame data ("@ + crate::text::decimal(f.frames.intervals as nat)
                + " intervals)."@,
            "Was the game in the foreground and MOVING? A static screen produces no frames."@,
        ] + rule
    } else {
        rule + frame_lines(f.frames) + freeze_section(f) + hitch_section(f) + signature_section(f)
            + host_section(f) + noise_section(f) + verdict_section(f) + rule
    }
}

/// How far from a stutter an event of the log may lie and still count as
/// concurrent, in milliseconds before and after it.
///
/// It depends on how well the clocks agree. A log on the monotonic clock is exact
/// and a narrow window matches correctly; on the wall clock the error reaches a
/// second, and a narrow window would match nothing and blame the wrong side.
pub fn window_ms(mono: bool) -> (r: (u64, u64))
    ensures
        r == (if mono {
            (150u64, 80u64)
        } else {
            (1500u64, 1500u64)
        }),
{
    if mono {
        (150, 80)
    } else {
        (1500, 1500)
    }
}

/// The report on a traced run.
pub fn report(f: &Findings) -> (r: Vec<String>)
    requires
        f.lasted@.len() == f.stalls@.len(),
        f.events@.len() < u64::MAX,
    ensures
        crate::text::texts(r@) == report_lines(*f),
{
    let mut out: Vec<String> = crate::say::page();
    let rule: String = crate::say::repeat('=', RULE);
    crate::say::put(&mut out, rule);
    if f.frames.intervals < ENOUGH_INTERVALS {
        let n: String = crate::say::count(f.frames.intervals as u64);
        crate::say::put(
            &mut out,
            crate::say::cat3("Not enough frame data (", n.as_str(), " intervals)."),
        );
        crate::say::say(
            &mut out,
            "Was the game in the foreground and MOVING? A static screen produces no frames.",
        );
    } else {
        say_frames(&mut out, &f.frames);
        say_freezes(&mut out, f);
        say_hitches(&mut out, f);
        say_signatures(&mut out, f);
        say_host(&mut out, f);
        say_noise(&mut out, f);
        say_verdicts(&mut out, f);
    }
    let rule: String = crate::say::repeat('=', RULE);
    crate::say::put(&mut out, rule);
    assert(crate::text::texts(out@) =~= report_lines(*f));
    out
}

/// The distance of two moments is the same from either side.
pub proof fn law_distance_has_no_direction(a: u64, b: u64)
    ensures
        apart(a, b) == apart(b, a),
        a <= b ==> apart(a, b) == b - a,
{
}

/// The events around a gap are those from half a second before it to half a second
/// behind it, in order.
pub proof fn law_evidence_is_around_the_gap(evs: Seq<Said>, at_us: u64, len_us: u64)
    ensures
        events_around(evs, at_us, len_us, evs.len() as int) == evs.filter(
            |e: Said| at_us - 500_000 <= e.at_us <= at_us + len_us + 500_000,
        ),
{
    lemma_around(evs, at_us, len_us, evs.len() as int);
    assert(evs.take(evs.len() as int) =~= evs);
}

proof fn lemma_around(evs: Seq<Said>, at_us: u64, len_us: u64, n: int)
    requires
        0 <= n <= evs.len(),
    ensures
        events_around(evs, at_us, len_us, n) == evs.take(n).filter(
            |e: Said| at_us - 500_000 <= e.at_us <= at_us + len_us + 500_000,
        ),
    decreases n,
{
    let near = |e: Said| at_us - 500_000 <= e.at_us <= at_us + len_us + 500_000;
    reveal(Seq::filter);
    if n == 0 {
        assert(evs.take(0).filter(near) =~= Seq::<Said>::empty());
    } else {
        lemma_around(evs, at_us, len_us, n - 1);
        assert(evs.take(n).drop_last() =~= evs.take(n - 1));
        assert(evs.take(n).last() == evs[n - 1]);
    }
}

/// A freeze counts as seen while it happened if one seen then began within two
/// seconds of it.
pub proof fn law_a_freeze_seen_live_began_near(s: Seq<StallView>, at_us: u64)
    ensures
        seen_live(s, at_us) <==> exists|i: int|
            0 <= i < s.len() && -2_000_000 < (#[trigger] s[i]).start_us - at_us < 2_000_000,
{
    if seen_live(s, at_us) {
        let i = choose|i: int|
            0 <= i < s.len() && apart((#[trigger] s[i]).start_us, at_us) < SAME_FREEZE_US;
        assert(-2_000_000 < s[i].start_us - at_us < 2_000_000);
    }
    if exists|i: int|
        0 <= i < s.len() && -2_000_000 < (#[trigger] s[i]).start_us - at_us < 2_000_000 {
        let i = choose|i: int|
            0 <= i < s.len() && -2_000_000 < (#[trigger] s[i]).start_us - at_us < 2_000_000;
        assert(apart(s[i].start_us, at_us) < SAME_FREEZE_US);
    }
}

/// Every freeze stands in the report: how long it lasted or that it lasts, that
/// nothing was logged where nothing was, and the first six events of its log.
pub proof fn law_every_freeze_is_reported(f: Findings, k: int, j: int)
    requires
        0 <= k < f.stalls@.len(),
        f.lasted@.len() == f.stalls@.len(),
        f.frames.intervals >= 30,
        0 <= j < f.stalls@[k].log@.len(),
        j < 6,
    ensures
        ({
            let s = f.stalls@[k]@;
            let own = stall_lines(s, f.lasted@[k]@);
            &&& crate::say::carries(report_lines(f), own)
            &&& own.len() == 1 + (if s.log.len() < 6 {
                s.log.len() as int
            } else {
                6
            })
            &&& own[1 + j] == event_line(s.log[j])
            &&& s.end_us is Some ==> crate::text::occurs(own[0], f.lasted@[k]@)
        }),
{
    let live = crate::trace::stalls_of(f.stalls@);
    let lasted = crate::text::texts(f.lasted@);
    let s = f.stalls@[k]@;
    assert(live[k] == s);
    assert(lasted[k] == f.lasted@[k]@);
    let own = stall_lines(s, lasted[k]);
    lemma_stalls(live, lasted, live.len() as int, k);
    crate::text::lemma_occurs_between("  "@, lasted[k], " sn"@);
    assert(s.log[j] == f.stalls@[k].log@[j]@);
    lemma_freezes_carried(f, own);
}

/// What stands in the freeze section stands in the report.
proof fn lemma_freezes_carried(f: Findings, own: Seq<Seq<char>>)
    requires
        f.frames.intervals >= 30,
        f.stalls@.len() > 0,
        ({
            let live = crate::trace::stalls_of(f.stalls@);
            crate::say::carries(
                stalls_lines(live, crate::text::texts(f.lasted@), live.len() as int),
                own,
            )
        }),
    ensures
        crate::say::carries(report_lines(f), own),
{
    let live = crate::trace::stalls_of(f.stalls@);
    let evs = crate::trace::said(f.events@);
    let head = seq![""@, "DONMALAR"@];
    let mid = stalls_lines(live, crate::text::texts(f.lasted@), live.len() as int);
    let gaps = gaps_lines(f.gaps@, live, evs, f.gaps@.len() as int);
    crate::say::lemma_carries(head, mid, own);
    crate::say::lemma_carries(head + mid, gaps, own);
    assert(freeze_section(f) == head + mid + gaps);
    let rule = seq![crate::say::repeated('=', RULE as int)];
    crate::say::lemma_carries(rule + frame_lines(f.frames), freeze_section(f), own);
    let a = rule + frame_lines(f.frames) + freeze_section(f);
    crate::say::lemma_carries(a, hitch_section(f), own);
    let b = a + hitch_section(f);
    crate::say::lemma_carries(b, signature_section(f), own);
    let c = b + signature_section(f);
    crate::say::lemma_carries(c, host_section(f), own);
    let d = c + host_section(f);
    crate::say::lemma_carries(d, noise_section(f), own);
    let e = d + noise_section(f);
    crate::say::lemma_carries(e, verdict_section(f), own);
    crate::say::lemma_carries(e + verdict_section(f), rule, own);
}

proof fn lemma_stalls(s: Seq<StallView>, lasted: Seq<Seq<char>>, n: int, k: int)
    requires
        0 <= k < n <= s.len(),
    ensures
        crate::say::carries(stalls_lines(s, lasted, n), stall_lines(s[k], lasted[k])),
    decreases n,
{
    let before = stalls_lines(s, lasted, n - 1);
    let own = stall_lines(s[n - 1], lasted[n - 1]);
    crate::say::lemma_carries(before, own, stall_lines(s[k], lasted[k]));
    crate::say::lemma_carries(own, own, own);
    if k < n - 1 {
        lemma_stalls(s, lasted, n - 1, k);
    }
}

/// A freeze without any log says that the cause is likely elsewhere; one that did
/// not end says that it lasts.
pub proof fn law_a_silent_freeze_is_told(s: StallView, lasted: Seq<char>)
    ensures
        s.log.len() == 0 ==> stall_lines(s, lasted).len() == 2,
        s.end_us is None ==> stall_lines(s, lasted)[0] == "  (still ongoing when the trace ended)"@,
{
}

/// A gap in the frames is listed unless it was seen as a freeze while it happened,
/// with up to four events around it.
pub proof fn law_a_gap_is_listed_once(g: Gap, live: Seq<StallView>, evs: Seq<Said>)
    ensures
        ({
            let r = gap_lines(g, live, evs);
            let near = events_around(evs, g.at_us, g.len_us, evs.len() as int);
            &&& seen_live(live, g.at_us) ==> r.len() == 0
            &&& !seen_live(live, g.at_us) ==> {
                &&& r.len() == 1 + (if near.len() < 4 {
                    near.len() as int
                } else {
                    4
                })
                &&& crate::text::occurs(r[0], g.shown@)
                &&& forall|i: int| 0 <= i < r.len() - 1 ==> #[trigger] r[1 + i] == event_line(near[i])
            }
        }),
{
    crate::text::lemma_occurs_between("  "@, g.shown@, " sn (kare verisinden)"@);
}

/// Every gap has its place in the list.
pub proof fn law_every_gap_has_its_lines(
    g: Seq<Gap>,
    live: Seq<StallView>,
    evs: Seq<Said>,
    k: int,
)
    requires
        0 <= k < g.len(),
    ensures
        crate::say::carries(gaps_lines(g, live, evs, g.len() as int), gap_lines(g[k], live, evs)),
{
    lemma_gaps(g, live, evs, g.len() as int, k);
}

proof fn lemma_gaps(g: Seq<Gap>, live: Seq<StallView>, evs: Seq<Said>, n: int, k: int)
    requires
        0 <= k < n <= g.len(),
    ensures
        crate::say::carries(gaps_lines(g, live, evs, n), gap_lines(g[k], live, evs)),
    decreases n,
{
    let before = gaps_lines(g, live, evs, n - 1);
    let own = gap_lines(g[n - 1], live, evs);
    crate::say::lemma_carries(before, own, gap_lines(g[k], live, evs));
    crate::say::lemma_carries(own, own, own);
    if k < n - 1 {
        lemma_gaps(g, live, evs, n - 1, k);
    }
}

/// A stutter is told with all that was logged around it, or that nothing was, and
/// with the sample of the host that is closest to it.
pub proof fn law_a_stutter_is_told_with_its_evidence(h: Hitch, host: Seq<HostRow>)
    ensures
        ({
            let r = hitch_lines(h, host);
            let n = h.evidence@.len() as int;
            &&& r.len() == 1 + (if n == 0 {
                1
            } else {
                n
            }) + (if host.len() > 0 {
                1int
            } else {
                0
            })
            &&& crate::text::occurs(r[0], h.shown@)
            &&& forall|i: int| 0 <= i < n ==> #[trigger] r[1 + i] == event_line(h.evidence@[i]@)
            &&& host.len() > 0 ==> crate::text::occurs(
                r.last(),
                host[closest(host, h.at_us, host.len() as int)].shown@,
            )
        }),
{
    crate::text::lemma_occurs_between("  "@, h.shown@, " ms"@);
    if host.len() > 0 {
        crate::text::lemma_occurs_behind(
            "      host: "@,
            host[closest(host, h.at_us, host.len() as int)].shown@,
        );
    }
}

/// A count has an entry for a label.
pub open spec fn has_label(t: Seq<(Seq<char>, u64)>, label: Seq<char>) -> bool {
    exists|k: int| 0 <= k < t.len() && (#[trigger] t[k]).0 == label
}

/// How many of the events have a label.
pub open spec fn labelled(evs: Seq<Said>, label: Seq<char>, n: int) -> int
    decreases n,
{
    if n <= 0 {
        0
    } else {
        labelled(evs, label, n - 1) + if evs[n - 1].label == label {
            1int
        } else {
            0
        }
    }
}

/// Every label is counted once, and its count is the number of events that have it.
pub proof fn law_signatures_are_counted(evs: Seq<Said>)
    requires
        evs.len() < u64::MAX,
    ensures
        ({
            let t = tally(evs, evs.len() as int);
            &&& forall|k: int|
                0 <= k < t.len() ==> (#[trigger] t[k]).1 == labelled(
                    evs,
                    t[k].0,
                    evs.len() as int,
                )
            &&& forall|a: int, b: int|
                0 <= a < b < t.len() ==> (#[trigger] t[a]).0 != (#[trigger] t[b]).0
            &&& forall|i: int|
                0 <= i < evs.len() ==> has_label(t, (#[trigger] evs[i]).label)
        }),
{
    lemma_tally(evs, evs.len() as int);
}

proof fn lemma_tally(evs: Seq<Said>, n: int)
    requires
        0 <= n <= evs.len() < u64::MAX,
    ensures
        ({
            let t = tally(evs, n);
            &&& forall|k: int|
                0 <= k < t.len() ==> (#[trigger] t[k]).1 == labelled(evs, t[k].0, n)
            &&& forall|a: int, b: int|
                0 <= a < b < t.len() ==> (#[trigger] t[a]).0 != (#[trigger] t[b]).0
            &&& forall|i: int|
                0 <= i < n ==> has_label(t, (#[trigger] evs[i]).label)
        }),
    decreases n,
{
    if n > 0 {
        lemma_tally(evs, n - 1);
        let before = tally(evs, n - 1);
        let t = tally(evs, n);
        let l = evs[n - 1].label;
        lemma_label_at(before, l, 0);
        let p = label_at(before, l, 0);
        lemma_labelled_range(evs, l, n - 1);
        assert forall|k: int| 0 <= k < t.len() implies (#[trigger] t[k]).1 == labelled(
            evs,
            t[k].0,
            n,
        ) by {
            if k < before.len() {
                assert(before[k].1 == labelled(evs, before[k].0, n - 1));
                if k != p && p < before.len() {
                    if k < p {
                        assert(before[k].0 != before[p].0);
                    } else {
                        assert(before[p].0 != before[k].0);
                    }
                }
            } else {
                lemma_not_labelled(evs, l, n - 1, before);
            }
        }
        assert forall|i: int| 0 <= i < n implies has_label(t, (#[trigger] evs[i]).label) by {
            if i < n - 1 {
                assert(has_label(before, evs[i].label));
                let k = choose|k: int|
                    0 <= k < before.len() && (#[trigger] before[k]).0 == evs[i].label;
                assert(t[k].0 == before[k].0);
            } else if p < before.len() {
                assert(t[p].0 == l);
            } else {
                assert(t[before.len() as int].0 == l);
            }
        }
    }
}

proof fn lemma_labelled_range(evs: Seq<Said>, label: Seq<char>, n: int)
    requires
        0 <= n <= evs.len(),
    ensures
        0 <= labelled(evs, label, n) <= n,
    decreases n,
{
    if n > 0 {
        lemma_labelled_range(evs, label, n - 1);
    }
}

proof fn lemma_not_labelled(evs: Seq<Said>, label: Seq<char>, n: int, t: Seq<(Seq<char>, u64)>)
    requires
        0 <= n <= evs.len(),
        forall|k: int| 0 <= k < t.len() ==> (#[trigger] t[k]).0 != label,
        forall|i: int|
            0 <= i < n ==> has_label(t, (#[trigger] evs[i]).label),
    ensures
        labelled(evs, label, n) == 0,
    decreases n,
{
    if n > 0 {
        lemma_not_labelled(evs, label, n - 1, t);
        assert(has_label(t, evs[n - 1].label));
        let k = choose|k: int| 0 <= k < t.len() && (#[trigger] t[k]).0 == evs[n - 1].label;
        assert(t[k].0 != label);
    }
}

/// Stutters that nothing was logged around and that fell on a host under strain.
pub open spec fn strained(
    h: Seq<Hitch>,
    host: Seq<HostRow>,
    under: spec_fn(HostRow) -> bool,
    n: int,
) -> int
    decreases n,
{
    if n <= 0 {
        0
    } else {
        strained(h, host, under, n - 1) + if h[n - 1].evidence@.len() == 0 && host.len() > 0
            && under(host[closest(host, h[n - 1].at_us, host.len() as int)]) {
            1int
        } else {
            0
        }
    }
}

/// Of the stutters that nothing explains, those are counted at which the host was
/// saturated: the processor of the graphics at ninety-five hundredths, its memory at
/// ninety-two, the pressure on memory at ten.
pub proof fn law_strain_is_counted_where_it_is(h: Seq<Hitch>, host: Seq<HostRow>, total_mb: u64)
    requires
        h.len() <= usize::MAX,
    ensures
        ({
            let n = h.len() as int;
            let f = facts_of(h, host, total_mb, n);
            &&& f.gpu_saturated == strained(h, host, |r: HostRow| r.gpu_centi >= 9500, n)
            &&& f.vram_saturated == strained(
                h,
                host,
                |r: HostRow| total_mb > 0 && 100 * r.vram_mb >= 92 * total_mb,
                n,
            )
            &&& f.mem_pressed == strained(h, host, |r: HostRow| r.mem_centi >= 1000, n)
        }),
{
    lemma_strained(h, host, total_mb, h.len() as int);
}

proof fn lemma_strained(h: Seq<Hitch>, host: Seq<HostRow>, total_mb: u64, n: int)
    requires
        0 <= n <= h.len() <= usize::MAX,
    ensures
        ({
            let f = facts_of(h, host, total_mb, n);
            &&& f.gpu_saturated == strained(h, host, |r: HostRow| r.gpu_centi >= 9500, n)
            &&& f.vram_saturated == strained(
                h,
                host,
                |r: HostRow| total_mb > 0 && 100 * r.vram_mb >= 92 * total_mb,
                n,
            )
            &&& f.mem_pressed == strained(h, host, |r: HostRow| r.mem_centi >= 1000, n)
            &&& f.gpu_saturated <= n && f.vram_saturated <= n && f.mem_pressed <= n
        }),
    decreases n,
{
    if n > 0 {
        lemma_strained(h, host, total_mb, n - 1);
    }
}

/// A report needs thirty intervals; with fewer it says so and nothing more.
pub proof fn law_too_few_frames_are_no_report(f: Findings)
    requires
        f.frames.intervals < 30,
    ensures
        report_lines(f).len() == 4,
        crate::text::occurs(report_lines(f)[1], crate::text::decimal(f.frames.intervals as nat)),
{
    crate::text::lemma_occurs_between(
        "Not enough frame data ("@,
        crate::text::decimal(f.frames.intervals as nat),
        " intervals)."@,
    );
}

/// The log is called noisy above fifty lines a second, and then the tag at fault is
/// named.
pub proof fn law_noise_is_named(f: Findings)
    ensures
        noise_section(f).len() > 0 <==> f.noise is Some && f.noise->0.rate_milli > 50_000,
        f.noise is Some && f.noise->0.rate_milli > 50_000 ==> crate::text::occurs(
            noise_section(f)[2],
            f.noise->0.tag@,
        ),
{
    if let Some(n) = f.noise {
        let a = "  '"@;
        let rest = "' writes "@ + n.shown@ + " lines per second."@;
        crate::text::lemma_occurs_between(a, n.tag@, rest);
        assert(a + n.tag@ + rest =~= "  '"@ + n.tag@ + "' writes "@ + n.shown@
            + " lines per second."@);
    }
}

} // verus!
