//! Following a run to find out why it stutters.
//!
//! Everything is put on one clock: frame times, log lines and host samples are
//! all microseconds since boot, so "what was happening during the stutter"
//! becomes measurable.
//!
//! A drop in the frame rate and a freeze are different things. If no frame
//! arrives for a minute there is no long interval; there are no intervals at
//! all. So the watch separately tracks when a new frame was last seen and keeps
//! the log while the freeze is happening: looking afterwards is usually too
//! late, because the ring fills and drops the evidence.

use vstd::prelude::*;
use vstd::string::*;

verus! {

/// How long without a frame before it counts as a freeze.
pub const STALL_US: u64 = 900000;

/// How far before the start of a run a log event may still belong to it.
pub const LEAD_US: u64 = 250000;

/// One event from the log.
#[derive(Debug)]
pub struct LogEvent {
    pub at_us: u64,
    pub pid: u32,
    pub tag: String,
    /// What kind of event it is, in words.
    pub label: String,
    /// Whether it is about the input path.
    pub input: bool,
    pub msg: String,
}

/// What an event says.
#[verifier::ext_equal]
pub struct Said {
    pub at_us: u64,
    pub pid: u32,
    pub tag: Seq<char>,
    pub label: Seq<char>,
    pub input: bool,
    pub msg: Seq<char>,
}

impl View for LogEvent {
    type V = Said;

    open spec fn view(&self) -> Said {
        Said {
            at_us: self.at_us,
            pid: self.pid,
            tag: self.tag@,
            label: self.label@,
            input: self.input,
            msg: self.msg@,
        }
    }
}

impl Clone for LogEvent {
    fn clone(&self) -> (r: LogEvent)
        ensures
            r@ == self@,
    {
        LogEvent {
            at_us: self.at_us,
            pid: self.pid,
            tag: self.tag.clone(),
            label: self.label.clone(),
            input: self.input,
            msg: self.msg.clone(),
        }
    }
}

/// What a list of events says.
pub open spec fn said(v: Seq<LogEvent>) -> Seq<Said> {
    v.map_values(|e: LogEvent| e@)
}

/// Two lines are one event: same moment, same process, same words.
pub open spec fn same_event(a: Said, b: Said) -> bool {
    a.at_us == b.at_us && a.pid == b.pid && a.msg == b.msg
}

/// The event is in the list already.
pub open spec fn known(list: Seq<Said>, e: Said) -> bool {
    exists|i: int| 0 <= i < list.len() && same_event(#[trigger] list[i], e)
}

/// The events among the first `n` that neither `list` nor an earlier one holds.
pub open spec fn fresh(list: Seq<Said>, evs: Seq<Said>, n: int) -> Seq<Said>
    decreases n,
{
    if n <= 0 {
        Seq::empty()
    } else {
        let before = fresh(list, evs, n - 1);
        if known(list + before, evs[n - 1]) {
            before
        } else {
            before.push(evs[n - 1])
        }
    }
}

/// Accumulates log events without duplicates.
///
/// Every pull of the log returns its last lines, so consecutive pulls overlap
/// heavily. Counting the same event dozens of times would wreck the verdict.
#[derive(Debug)]
pub struct LogSink {
    pub events: Vec<LogEvent>,
}

impl Default for LogSink {
    fn default() -> (r: LogSink)
        ensures
            said(r.events@) == Seq::<Said>::empty(),
    {
        let r = LogSink { events: Vec::new() };
        assert(said(r.events@) =~= Seq::<Said>::empty());
        r
    }
}

impl LogSink {
    fn knows(&self, e: &LogEvent) -> (r: bool)
        ensures
            r == known(said(self.events@), e@),
    {
        let mut i: usize = 0;
        while i < self.events.len()
            invariant
                i <= self.events@.len(),
                forall|k: int| 0 <= k < i ==> !same_event(#[trigger] said(self.events@)[k], e@),
            decreases self.events@.len() - i,
        {
            let o: &LogEvent = &self.events[i];
            if o.at_us == e.at_us && o.pid == e.pid && crate::text::same(
                o.msg.as_str(),
                e.msg.as_str(),
            ) {
                assert(same_event(said(self.events@)[i as int], e@));
                return true;
            }
            assert(!same_event(said(self.events@)[i as int], e@));
            i = i + 1;
        }
        false
    }

    /// Takes in a pull of the log and returns what was new in it.
    pub fn add(&mut self, evs: &Vec<LogEvent>) -> (r: Vec<LogEvent>)
        ensures
            said(r@) == fresh(said(old(self).events@), said(evs@), evs@.len() as int),
            said(final(self).events@) == said(old(self).events@) + said(r@),
    {
        let mut out: Vec<LogEvent> = Vec::new();
        let ghost list = said(self.events@);
        let ghost t = said(evs@);
        let mut i: usize = 0;
        assert(said(out@) =~= Seq::<Said>::empty());
        assert(list + said(out@) =~= list);
        while i < evs.len()
            invariant
                i <= evs@.len(),
                t == said(evs@),
                said(out@) == fresh(list, t, i as int),
                said(self.events@) == list + said(out@),
            decreases evs@.len() - i,
        {
            let e: &LogEvent = &evs[i];
            assert(t[i as int] == e@);
            if !self.knows(e) {
                let ghost held = said(self.events@);
                let ghost got = said(out@);
                self.events.push(e.clone());
                out.push(e.clone());
                assert(said(self.events@) =~= held.push(e@));
                assert(said(out@) =~= got.push(e@));
                assert(held.push(e@) =~= list + got.push(e@));
            }
            i = i + 1;
        }
        out
    }

    /// Drops what was written before the run began.
    pub fn keep_from(&mut self, start_us: u64)
        ensures
            said(final(self).events@) == since(
                said(old(self).events@),
                start_us,
                old(self).events@.len() as int,
            ),
    {
        let mut kept: Vec<LogEvent> = Vec::new();
        let ghost t = said(self.events@);
        let mut i: usize = 0;
        assert(said(kept@) =~= Seq::<Said>::empty());
        while i < self.events.len()
            invariant
                i <= self.events@.len(),
                t == said(self.events@),
                said(kept@) == since(t, start_us, i as int),
            decreases self.events@.len() - i,
        {
            let e: &LogEvent = &self.events[i];
            assert(t[i as int] == e@);
            if (e.at_us as u128) + (LEAD_US as u128) >= start_us as u128 {
                let ghost got = said(kept@);
                kept.push(e.clone());
                assert(said(kept@) =~= got.push(e@));
            }
            i = i + 1;
        }
        self.events = kept;
    }
}

/// The events among the first `n` that are no older than the run. A pull
/// returns the last lines of the ring, which on a quiet system spans minutes.
pub open spec fn since(evs: Seq<Said>, start_us: u64, n: int) -> Seq<Said>
    decreases n,
{
    if n <= 0 {
        Seq::empty()
    } else if evs[n - 1].at_us + LEAD_US >= start_us {
        since(evs, start_us, n - 1).push(evs[n - 1])
    } else {
        since(evs, start_us, n - 1)
    }
}

/// One freeze, with the log written while it lasted.
#[derive(Debug)]
pub struct Stall {
    pub start_us: u64,
    pub end_us: Option<u64>,
    pub log: Vec<LogEvent>,
}

#[verifier::ext_equal]
pub struct StallView {
    pub start_us: u64,
    pub end_us: Option<u64>,
    pub log: Seq<Said>,
}

impl View for Stall {
    type V = StallView;

    open spec fn view(&self) -> StallView {
        StallView { start_us: self.start_us, end_us: self.end_us, log: said(self.log@) }
    }
}

/// A list of freezes.
pub open spec fn stalls_of(v: Seq<Stall>) -> Seq<StallView> {
    v.map_values(|s: Stall| s@)
}

/// What a look at the frames told.
#[derive(Clone, Copy, Debug, PartialEq, Eq, Structural)]
pub enum Sight {
    /// Nothing to report.
    Nothing,
    /// A freeze began.
    Froze,
    /// The freeze that began at `start_us` is over.
    Thawed { start_us: u64 },
}

/// The state of a watch.
#[verifier::ext_equal]
pub struct WatchView {
    pub last_seen: Option<u64>,
    pub last_frame_us: u64,
    pub in_stall: bool,
    pub stalls: Seq<StallView>,
    pub events: Seq<Said>,
}

impl WatchView {
    pub open spec fn fresh(now_us: u64) -> WatchView {
        WatchView {
            last_seen: None,
            last_frame_us: now_us,
            in_stall: false,
            stalls: Seq::empty(),
            events: Seq::empty(),
        }
    }

    /// A freeze is under way exactly while the last one has no end, and no
    /// other freeze is without one.
    pub open spec fn ok(self) -> bool {
        &&& self.in_stall ==> self.stalls.len() > 0 && self.stalls.last().end_us is None
        &&& forall|i: int|
            0 <= i < self.stalls.len() && (self.in_stall ==> i < self.stalls.len() - 1) ==> (
            #[trigger] self.stalls[i]).end_us is Some
    }

    /// A look at the frames: `newest` is the time of the newest frame. Whether
    /// a frame arrived is whether that time moved on.
    pub open spec fn look(self, newest: Option<u64>, now_us: u64) -> (WatchView, Sight) {
        if newest != self.last_seen {
            let seen = WatchView { last_seen: newest, last_frame_us: now_us, ..self };
            if self.in_stall {
                let last = self.stalls.last();
                let ended = StallView { end_us: Some(now_us), ..last };
                (
                    WatchView {
                        in_stall: false,
                        stalls: self.stalls.drop_last().push(ended),
                        ..seen
                    },
                    Sight::Thawed { start_us: last.start_us },
                )
            } else {
                (seen, Sight::Nothing)
            }
        } else if !self.in_stall && now_us - self.last_frame_us > STALL_US {
            let begun = StallView {
                start_us: self.last_frame_us,
                end_us: None,
                log: Seq::empty(),
            };
            (
                WatchView { in_stall: true, stalls: self.stalls.push(begun), ..self },
                Sight::Froze,
            )
        } else {
            (self, Sight::Nothing)
        }
    }

    /// A pull of the log. What is new belongs to the freeze under way, if any.
    pub open spec fn hear(self, evs: Seq<Said>) -> (WatchView, Seq<Said>) {
        let new = fresh(self.events, evs, evs.len() as int);
        let heard = WatchView { events: self.events + new, ..self };
        if self.in_stall {
            let last = self.stalls.last();
            let fuller = StallView { log: last.log + new, ..last };
            (WatchView { stalls: self.stalls.drop_last().push(fuller), ..heard }, new)
        } else {
            (heard, Seq::empty())
        }
    }
}

/// Watches the frames and the log of a run.
#[derive(Debug)]
pub struct Watch {
    last_seen: Option<u64>,
    last_frame_us: u64,
    in_stall: bool,
    pub(crate) stalls: Vec<Stall>,
    pub(crate) sink: LogSink,
}

impl View for Watch {
    type V = WatchView;

    closed spec fn view(&self) -> WatchView {
        WatchView {
            last_seen: self.last_seen,
            last_frame_us: self.last_frame_us,
            in_stall: self.in_stall,
            stalls: stalls_of(self.stalls@),
            events: said(self.sink.events@),
        }
    }
}

/// One line of evidence while a freeze lasts.
pub open spec fn live_line(e: Said) -> Seq<char> {
    "      \u{1b}[2m"@ + e.label + "\u{1b}[0m "@ + e.tag + (": "@ + e.msg)
}

impl Watch {
    pub fn new(now_us: u64) -> (r: Watch)
        ensures
            r@ == WatchView::fresh(now_us),
            r@.ok(),
    {
        let r = Watch {
            last_seen: None,
            last_frame_us: now_us,
            in_stall: false,
            stalls: Vec::new(),
            sink: LogSink::default(),
        };
        assert(r@ =~= WatchView::fresh(now_us));
        r
    }

    /// A look at the frames: `newest` is the time of the newest frame.
    pub fn look(&mut self, newest: Option<u64>, now_us: u64) -> (r: Sight)
        requires
            old(self)@.ok(),
        ensures
            final(self)@.ok(),
            (final(self)@, r) == old(self)@.look(newest, now_us),
    {
        let ghost was = self@;
        let moved: bool = match (newest, self.last_seen) {
            (Some(a), Some(b)) => a != b,
            (None, None) => false,
            _ => true,
        };
        if moved {
            self.last_seen = newest;
            self.last_frame_us = now_us;
            if self.in_stall {
                self.in_stall = false;
                let ghost before = stalls_of(self.stalls@);
                assert(was.stalls.len() == self.stalls@.len());
                match self.stalls.pop() {
                    Some(last) => {
                        let start_us: u64 = last.start_us;
                        assert(last@ == before.last());
                        self.stalls.push(
                            Stall { start_us, end_us: Some(now_us), log: last.log },
                        );
                        assert(stalls_of(self.stalls@) =~= before.drop_last().push(
                            StallView { end_us: Some(now_us), ..before.last() },
                        ));
                        return Sight::Thawed { start_us };
                    },
                    None => {
                        assert(false);
                    },
                }
            }
            Sight::Nothing
        } else if !self.in_stall && now_us > self.last_frame_us && now_us - self.last_frame_us
            > STALL_US {
            self.in_stall = true;
            let ghost before = stalls_of(self.stalls@);
            let stall = Stall { start_us: self.last_frame_us, end_us: None, log: Vec::new() };
            assert(said(stall.log@) =~= Seq::<Said>::empty());
            self.stalls.push(stall);
            assert(stalls_of(self.stalls@) =~= before.push(stall@));
            Sight::Froze
        } else {
            Sight::Nothing
        }
    }

    /// A pull of the log. Returns the lines to show at once: the evidence of a
    /// freeze under way.
    pub fn hear(&mut self, evs: &Vec<LogEvent>) -> (r: Vec<String>)
        requires
            old(self)@.ok(),
        ensures
            final(self)@.ok(),
            final(self)@ == old(self)@.hear(said(evs@)).0,
            crate::text::texts(r@) == old(self)@.hear(said(evs@)).1.map_values(
                |e: Said| live_line(e),
            ),
    {
        let ghost was = self@;
        let ghost before = stalls_of(self.stalls@);
        let new: Vec<LogEvent> = self.sink.add(evs);
        let mut out: Vec<String> = crate::say::page();
        let ghost shown = said(new@).map_values(|e: Said| live_line(e));
        if self.in_stall {
            match self.stalls.pop() {
                Some(last) => {
                    assert(last@ == before.last());
                    let mut log: Vec<LogEvent> = last.log;
                    let ghost held = said(log@);
                    let mut i: usize = 0;
                    assert(held + said(new@).take(0) =~= held);
                    assert(crate::text::texts(out@) =~= shown.take(0));
                    while i < new.len()
                        invariant
                            i <= new@.len(),
                            said(log@) == held + said(new@).take(i as int),
                            shown == said(new@).map_values(|e: Said| live_line(e)),
                            crate::text::texts(out@) == shown.take(i as int),
                        decreases new@.len() - i,
                    {
                        let e: &LogEvent = &new[i];
                        let tail: String = crate::say::cat2(": ", e.msg.as_str());
                        let line: String = crate::say::cat5(
                            "      \u{1b}[2m",
                            e.label.as_str(),
                            "\u{1b}[0m ",
                            e.tag.as_str(),
                            tail.as_str(),
                        );
                        assert(shown[i as int] == live_line(e@));
                        crate::say::put(&mut out, line);
                        assert(shown.take(i + 1) =~= shown.take(i as int).push(shown[i as int]));
                        let ghost so_far = said(log@);
                        log.push(e.clone());
                        assert(said(log@) =~= so_far.push(e@));
                        assert(said(new@).take(i + 1) =~= said(new@).take(i as int).push(e@));
                        assert(said(log@) =~= held + said(new@).take(i + 1));
                        i = i + 1;
                    }
                    assert(said(new@).take(i as int) =~= said(new@));
                    assert(shown.take(i as int) =~= shown);
                    self.stalls.push(
                        Stall { start_us: last.start_us, end_us: last.end_us, log },
                    );
                    assert(stalls_of(self.stalls@) =~= before.drop_last().push(
                        StallView { log: held + said(new@), ..before.last() },
                    ));
                },
                None => {
                    assert(before.len() == 0);
                    assert(false);
                },
            }
        } else {
            assert(crate::text::texts(out@) =~= Seq::<Said>::empty().map_values(
                |e: Said| live_line(e),
            ));
        }
        out
    }

    /// Whether a freeze is under way.
    pub fn in_stall(&self) -> (r: bool)
        ensures
            r == self@.in_stall,
    {
        self.in_stall
    }

    /// Whether the running figures are worth showing: not during a freeze, and
    /// not before there are a few intervals.
    pub fn shows_figures(&self, intervals: usize) -> (r: bool)
        ensures
            r == (!self@.in_stall && intervals >= 5),
    {
        !self.in_stall && intervals >= 5
    }

    /// Ends the run that began at `start_us`: what is left is its freezes and
    /// the events that belong to it.
    pub fn finish(self, start_us: u64) -> (r: (Vec<Stall>, Vec<LogEvent>))
        ensures
            stalls_of(r.0@) == self@.stalls,
            said(r.1@) == since(self@.events, start_us, self@.events.len() as int),
    {
        let mut sink: LogSink = self.sink;
        sink.keep_from(start_us);
        (self.stalls, sink.events)
    }
}

/// The lines among the first `n` of `b` that `a` does not have.
pub open spec fn added(a: Seq<Seq<char>>, b: Seq<Seq<char>>, n: int) -> Seq<Seq<char>>
    decreases n,
{
    if n <= 0 {
        Seq::empty()
    } else if a.contains(b[n - 1]) {
        added(a, b, n - 1)
    } else {
        added(a, b, n - 1).push(b[n - 1])
    }
}

/// What a second pull of the log has that the first did not. A single pull only
/// says what is in the ring, not how fast it is filling.
pub fn new_lines(first: &str, second: &str) -> (r: String)
    ensures
        r@ == crate::words::joined(
            added(
                crate::words::lines_of(first@),
                crate::words::lines_of(second@),
                crate::words::lines_of(second@).len() as int,
            ),
            "\n"@,
        ),
{
    let a: Vec<String> = crate::words::lines(first);
    let b: Vec<String> = crate::words::lines(second);
    let ghost x = crate::words::lines_of(first@);
    let ghost y = crate::words::lines_of(second@);
    let mut out: Vec<String> = crate::say::page();
    let mut i: usize = 0;
    while i < b.len()
        invariant
            i <= b@.len(),
            x == crate::text::texts(a@),
            y == crate::text::texts(b@),
            crate::text::texts(out@) == added(x, y, i as int),
        decreases b@.len() - i,
    {
        assert(y[i as int] == b@[i as int]@);
        if !crate::render::listed(&a, b[i].as_str()) {
            crate::say::put(&mut out, b[i].clone());
        }
        i = i + 1;
    }
    crate::words::join(&out, "\n")
}

/// Every event of a pull is known afterwards.
proof fn lemma_fresh(list: Seq<Said>, evs: Seq<Said>, n: int)
    requires
        0 <= n <= evs.len(),
    ensures
        forall|i: int| 0 <= i < n ==> known(list + fresh(list, evs, n), #[trigger] evs[i]),
        forall|i: int, j: int|
            0 <= i < fresh(list, evs, n).len() && 0 <= j < list.len() ==> !same_event(
                #[trigger] list[j],
                #[trigger] fresh(list, evs, n)[i],
            ),
        forall|i: int, j: int|
            0 <= j < i < fresh(list, evs, n).len() ==> !same_event(
                #[trigger] fresh(list, evs, n)[j],
                #[trigger] fresh(list, evs, n)[i],
            ),
    decreases n,
{
    if n > 0 {
        lemma_fresh(list, evs, n - 1);
        let before = fresh(list, evs, n - 1);
        let after = fresh(list, evs, n);
        let e = evs[n - 1];
        assert forall|i: int| 0 <= i < n implies known(list + after, #[trigger] evs[i]) by {
            if i < n - 1 || known(list + before, e) {
                assert(known(list + before, evs[i]));
                let k = choose|k: int|
                    0 <= k < (list + before).len() && same_event(
                        #[trigger] (list + before)[k],
                        evs[i],
                    );
                assert((list + after)[k] == (list + before)[k]);
            } else {
                assert((list + after)[(list + before).len() as int] == e);
            }
        }
        if !known(list + before, e) {
            assert forall|j: int| 0 <= j < list.len() implies !same_event(
                #[trigger] list[j],
                e,
            ) by {
                assert((list + before)[j] == list[j]);
            }
            assert forall|j: int| 0 <= j < before.len() implies !same_event(
                #[trigger] before[j],
                e,
            ) by {
                assert((list + before)[list.len() + j] == before[j]);
            }
        }
    }
}

/// Overlapping pulls count an event once: pulling the same lines again adds
/// nothing.
pub proof fn law_a_second_pull_adds_nothing(list: Seq<Said>, evs: Seq<Said>)
    ensures
        ({
            let n = evs.len() as int;
            let held = list + fresh(list, evs, n);
            fresh(held, evs, n) == Seq::<Said>::empty()
        }),
{
    let n = evs.len() as int;
    lemma_fresh(list, evs, n);
    lemma_nothing_new(list + fresh(list, evs, n), evs, n);
}

proof fn lemma_nothing_new(list: Seq<Said>, evs: Seq<Said>, n: int)
    requires
        0 <= n <= evs.len(),
        forall|i: int| 0 <= i < n ==> known(list, #[trigger] evs[i]),
    ensures
        fresh(list, evs, n) == Seq::<Said>::empty(),
    decreases n,
{
    if n > 0 {
        lemma_nothing_new(list, evs, n - 1);
        assert(list + Seq::<Said>::empty() =~= list);
        assert(known(list, evs[n - 1]));
    }
}

/// No event is held twice.
pub open spec fn once_each(list: Seq<Said>) -> bool {
    forall|i: int, j: int|
        0 <= j < i < list.len() ==> !same_event(#[trigger] list[j], #[trigger] list[i])
}

/// What is held once each stays so, whatever is pulled.
pub proof fn law_no_event_is_held_twice(list: Seq<Said>, evs: Seq<Said>)
    requires
        once_each(list),
    ensures
        once_each(list + fresh(list, evs, evs.len() as int)),
{
    let new = fresh(list, evs, evs.len() as int);
    lemma_fresh(list, evs, evs.len() as int);
    let all = list + new;
    assert forall|i: int, j: int| 0 <= j < i < all.len() implies !same_event(
        #[trigger] all[j],
        #[trigger] all[i],
    ) by {
        if i < list.len() {
            assert(!same_event(list[j], list[i]));
        } else if j < list.len() {
            assert(!same_event(list[j], new[i - list.len()]));
        } else {
            assert(!same_event(new[j - list.len()], new[i - list.len()]));
        }
    }
}

/// Looking and listening keep at most one freeze open, the last.
pub proof fn law_only_the_last_freeze_is_open(
    w: WatchView,
    newest: Option<u64>,
    now_us: u64,
    evs: Seq<Said>,
)
    requires
        w.ok(),
    ensures
        w.look(newest, now_us).0.ok(),
        w.hear(evs).0.ok(),
{
}

/// A freeze ends with the next frame and begins at the last one before it.
pub proof fn law_a_freeze_spans_the_gap(w: WatchView, now_us: u64, next: u64, later_us: u64)
    requires
        w.ok(),
        !w.in_stall,
        now_us - w.last_frame_us > STALL_US,
        Some(next) != w.last_seen,
    ensures
        ({
            let (frozen, a) = w.look(w.last_seen, now_us);
            let (thawed, b) = frozen.look(Some(next), later_us);
            &&& a == Sight::Froze
            &&& frozen.in_stall
            &&& b == Sight::Thawed { start_us: w.last_frame_us }
            &&& !thawed.in_stall
            &&& thawed.stalls == w.stalls.push(
                StallView {
                    start_us: w.last_frame_us,
                    end_us: Some(later_us),
                    log: Seq::empty(),
                },
            )
        }),
{
    let (frozen, a) = w.look(w.last_seen, now_us);
    let (thawed, b) = frozen.look(Some(next), later_us);
    assert(frozen.stalls.drop_last() =~= w.stalls);
}

/// A pull of the log during a freeze adds to the freeze's log and takes nothing
/// from it: what it held stays in front, in order, and behind it stands every
/// event of the pull that was not known before. Earlier freezes are left alone.
pub proof fn law_a_freeze_keeps_all_its_evidence(w: WatchView, evs: Seq<Said>)
    requires
        w.ok(),
        w.in_stall,
    ensures
        ({
            let (h, shown) = w.hear(evs);
            let was = w.stalls.last();
            let now = h.stalls.last();
            let k = was.log.len() as int;
            &&& h.stalls.len() == w.stalls.len()
            &&& forall|i: int| 0 <= i < w.stalls.len() - 1 ==> #[trigger] h.stalls[i] == w.stalls[i]
            &&& now.start_us == was.start_us && now.end_us is None
            &&& now.log.len() >= k
            &&& forall|i: int| 0 <= i < k ==> #[trigger] now.log[i] == was.log[i]
            &&& forall|i: int|
                k <= i < now.log.len() ==> evs.contains(#[trigger] now.log[i]) && !known(
                    w.events,
                    now.log[i],
                )
            &&& forall|i: int|
                0 <= i < evs.len() && !known(w.events, #[trigger] evs[i]) ==> known(
                    now.log.skip(k),
                    evs[i],
                )
            &&& shown == now.log.skip(k)
        }),
{
    let n = evs.len() as int;
    let new = fresh(w.events, evs, n);
    lemma_fresh(w.events, evs, n);
    lemma_fresh_from(w.events, evs, n);
    let (h, shown) = w.hear(evs);
    let was = w.stalls.last();
    let now = h.stalls.last();
    let k = was.log.len() as int;
    assert(now.log.skip(k) =~= new);
    assert forall|i: int| k <= i < now.log.len() implies evs.contains(#[trigger] now.log[i]) && !known(
        w.events,
        now.log[i],
    ) by {
        assert(now.log[i] == new[i - k]);
    }
    assert forall|i: int| 0 <= i < evs.len() && !known(w.events, #[trigger] evs[i]) implies known(
        new,
        evs[i],
    ) by {
        assert(known(w.events + new, evs[i]));
        let all = w.events + new;
        let j = choose|j: int| 0 <= j < all.len() && same_event(#[trigger] all[j], evs[i]);
        if j < w.events.len() {
            assert(same_event(w.events[j], evs[i]));
        } else {
            assert(same_event(new[j - w.events.len()], evs[i]));
        }
    }
}

/// What is new in a pull comes from it and was not known.
proof fn lemma_fresh_from(list: Seq<Said>, evs: Seq<Said>, n: int)
    requires
        0 <= n <= evs.len(),
    ensures
        forall|i: int|
            0 <= i < fresh(list, evs, n).len() ==> evs.contains(#[trigger] fresh(list, evs, n)[i])
                && !known(list, fresh(list, evs, n)[i]),
    decreases n,
{
    if n > 0 {
        lemma_fresh_from(list, evs, n - 1);
        let before = fresh(list, evs, n - 1);
        let e = evs[n - 1];
        if !known(list + before, e) {
            assert(!known(list, e)) by {
                if known(list, e) {
                    let j = choose|j: int| 0 <= j < list.len() && same_event(#[trigger] list[j], e);
                    assert((list + before)[j] == list[j]);
                }
            }
        }
    }
}

/// Every pull adds to what is held: nothing is lost, whatever was pulled is known
/// from then on, and without a freeze nothing else happens.
pub proof fn law_every_event_is_held(w: WatchView, evs: Seq<Said>)
    ensures
        ({
            let (h, shown) = w.hear(evs);
            &&& h.events.len() >= w.events.len()
            &&& forall|i: int| 0 <= i < w.events.len() ==> #[trigger] h.events[i] == w.events[i]
            &&& forall|i: int| 0 <= i < evs.len() ==> known(h.events, #[trigger] evs[i])
            &&& forall|i: int|
                w.events.len() <= i < h.events.len() ==> evs.contains(#[trigger] h.events[i])
            &&& h.last_seen == w.last_seen && h.last_frame_us == w.last_frame_us
            &&& h.in_stall == w.in_stall
            &&& !w.in_stall ==> h.stalls == w.stalls && shown.len() == 0
        }),
{
    let n = evs.len() as int;
    lemma_fresh(w.events, evs, n);
    lemma_fresh_from(w.events, evs, n);
    let new = fresh(w.events, evs, n);
    let h = w.hear(evs).0;
    assert forall|i: int| w.events.len() <= i < h.events.len() implies evs.contains(
        #[trigger] h.events[i],
    ) by {
        assert(h.events[i] == new[i - w.events.len()]);
    }
}

/// Two pulls, one after the other, bring what one pull of both would have brought,
/// in the same order.
pub proof fn law_two_pulls_are_as_good_as_one(list: Seq<Said>, a: Seq<Said>, b: Seq<Said>)
    ensures
        ({
            let first = fresh(list, a, a.len() as int);
            let second = fresh(list + first, b, b.len() as int);
            fresh(list, a + b, (a + b).len() as int) == first + second
        }),
{
    lemma_pull_prefix(list, a, b, a.len() as int);
    lemma_pull_rest(list, a, b, b.len() as int);
}

proof fn lemma_pull_prefix(list: Seq<Said>, a: Seq<Said>, b: Seq<Said>, n: int)
    requires
        0 <= n <= a.len(),
    ensures
        fresh(list, a + b, n) == fresh(list, a, n),
    decreases n,
{
    if n > 0 {
        lemma_pull_prefix(list, a, b, n - 1);
        assert((a + b)[n - 1] == a[n - 1]);
    }
}

proof fn lemma_pull_rest(list: Seq<Said>, a: Seq<Said>, b: Seq<Said>, n: int)
    requires
        0 <= n <= b.len(),
    ensures
        ({
            let first = fresh(list, a, a.len() as int);
            fresh(list, a + b, a.len() + n) == first + fresh(list + first, b, n)
        }),
    decreases n,
{
    let first = fresh(list, a, a.len() as int);
    if n == 0 {
        lemma_pull_prefix(list, a, b, a.len() as int);
        assert(first + Seq::<Said>::empty() =~= first);
    } else {
        lemma_pull_rest(list, a, b, n - 1);
        let before = fresh(list + first, b, n - 1);
        assert((a + b)[a.len() + n - 1] == b[n - 1]);
        assert(list + (first + before) =~= (list + first) + before);
        assert((first + before).push(b[n - 1]) =~= first + before.push(b[n - 1]));
    }
}

/// A look notes when the newest frame moved on. A frame ends the freeze under way,
/// which keeps its beginning and its log. Without one a freeze begins once more
/// than nine tenths of a second have gone by since the last, and it counts from
/// there.
pub proof fn law_a_look_tells_frozen_from_moving(w: WatchView, newest: Option<u64>, now_us: u64)
    requires
        w.ok(),
    ensures
        ({
            let (n, s) = w.look(newest, now_us);
            let moved = newest != w.last_seen;
            let froze = !moved && !w.in_stall && now_us - w.last_frame_us > 900_000;
            &&& n.events == w.events
            &&& moved ==> n.last_seen == newest && n.last_frame_us == now_us && !n.in_stall
            &&& !moved ==> n.last_seen == w.last_seen && n.last_frame_us == w.last_frame_us
                && n.in_stall == (w.in_stall || froze)
            &&& s == Sight::Froze <==> froze
            &&& s is Thawed <==> moved && w.in_stall
            &&& moved && w.in_stall ==> {
                &&& s->start_us == w.stalls.last().start_us
                &&& n.stalls.len() == w.stalls.len()
                &&& forall|i: int| 0 <= i < w.stalls.len() - 1 ==> #[trigger] n.stalls[i] == w.stalls[i]
                &&& n.stalls.last().start_us == w.stalls.last().start_us
                &&& n.stalls.last().end_us == Some(now_us)
                &&& n.stalls.last().log == w.stalls.last().log
            }
            &&& froze ==> {
                &&& n.stalls.len() == w.stalls.len() + 1
                &&& forall|i: int| 0 <= i < w.stalls.len() ==> #[trigger] n.stalls[i] == w.stalls[i]
                &&& n.stalls.last().start_us == w.last_frame_us
                &&& n.stalls.last().end_us is None
                &&& n.stalls.last().log.len() == 0
            }
            &&& !(moved && w.in_stall) && !froze ==> n.stalls == w.stalls
        }),
{
}

/// Of the events held, a run keeps in order those that are no older than a quarter
/// of a second before it began.
pub proof fn law_a_run_keeps_its_own_events(evs: Seq<Said>, start_us: u64)
    ensures
        since(evs, start_us, evs.len() as int) == evs.filter(
            |e: Said| e.at_us + 250_000 >= start_us,
        ),
{
    let own = |e: Said| e.at_us + 250_000 >= start_us;
    lemma_since(evs, start_us, evs.len() as int);
    assert(evs.take(evs.len() as int) =~= evs);
}

proof fn lemma_since(evs: Seq<Said>, start_us: u64, n: int)
    requires
        0 <= n <= evs.len(),
    ensures
        since(evs, start_us, n) == evs.take(n).filter(|e: Said| e.at_us + 250_000 >= start_us),
    decreases n,
{
    let own = |e: Said| e.at_us + 250_000 >= start_us;
    reveal(Seq::filter);
    if n == 0 {
        assert(evs.take(0).filter(own) =~= Seq::<Said>::empty());
    } else {
        lemma_since(evs, start_us, n - 1);
        assert(evs.take(n).drop_last() =~= evs.take(n - 1));
        assert(evs.take(n).last() == evs[n - 1]);
    }
}

/// The new lines of a second pull are, in order, those that the first did not have.
pub proof fn law_new_lines_are_those_not_seen(a: Seq<Seq<char>>, b: Seq<Seq<char>>)
    ensures
        added(a, b, b.len() as int) == b.filter(|l: Seq<char>| !a.contains(l)),
{
    lemma_added(a, b, b.len() as int);
    assert(b.take(b.len() as int) =~= b);
}

proof fn lemma_added(a: Seq<Seq<char>>, b: Seq<Seq<char>>, n: int)
    requires
        0 <= n <= b.len(),
    ensures
        added(a, b, n) == b.take(n).filter(|l: Seq<char>| !a.contains(l)),
    decreases n,
{
    let unseen = |l: Seq<char>| !a.contains(l);
    reveal(Seq::filter);
    if n == 0 {
        assert(b.take(0).filter(unseen) =~= Seq::<Seq<char>>::empty());
    } else {
        lemma_added(a, b, n - 1);
        assert(b.take(n).drop_last() =~= b.take(n - 1));
        assert(b.take(n).last() == b[n - 1]);
    }
}

/// Two lines are one event if moment, process and words agree, whatever else they
/// carry.
pub proof fn law_an_event_is_its_moment_process_and_words(a: Said, b: Said)
    ensures
        same_event(a, b) <==> a.at_us == b.at_us && a.pid == b.pid && a.msg == b.msg,
{
}

/// A line shown live has the label of its event, and behind it the tag and the words.
pub proof fn law_a_live_line_tells_its_event(e: Said)
    ensures
        crate::text::occurs(live_line(e), e.label),
        crate::text::closes_with(live_line(e), e.tag + ": "@ + e.msg),
{
    let head = "      \u{1b}[2m"@;
    let reset = "\u{1b}[0m "@;
    let tail = e.tag + ": "@ + e.msg;
    let l = live_line(e);
    crate::text::lemma_occurs_between(head, e.label, reset + tail);
    assert(l =~= head + e.label + (reset + tail));
    let k = l.len() - tail.len();
    assert(l.subrange(k, k + tail.len()) =~= tail);
}

} // verus!
