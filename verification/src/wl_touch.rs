//! Frames for Waydroid's touch pipe.
//!
//! Waydroid patches Android's event hub to listen on a named pipe inside the
//! container. Writing to it directly skips the compositor, and nothing on that
//! path squeezes coordinates into the screen. The pipe carries raw input event
//! records; this module builds them, one write per frame, and keeps track of
//! which fingers are down.

use crate::backend::BackendError;
use crate::touch::{TouchAction, MAX_POINTERS};
use vstd::prelude::*;
use vstd::string::*;

verus! {

/// Path of the touch pipe inside the container.
pub const TOUCH_PIPE: &'static str = "dev/input/wl_touch_events";

/// The pressure the compositor writes for every touch. A different one changes
/// pressure-sensitive behaviour in some games.
pub const PRESSURE: i32 = 50;

pub const EV_SYN: u16 = 0x00;

pub const EV_ABS: u16 = 0x03;

pub const SYN_REPORT: u16 = 0;

pub const ABS_MT_SLOT: u16 = 0x2f;

pub const ABS_MT_POSITION_X: u16 = 0x35;

pub const ABS_MT_POSITION_Y: u16 = 0x36;

pub const ABS_MT_TRACKING_ID: u16 = 0x39;

pub const ABS_MT_PRESSURE: u16 = 0x3a;

/// The tracking id that lifts a finger; any other value strands it on screen.
pub const LIFTED: i32 = -1;

/// Size of an input event record on the wire: two 64-bit time fields, type,
/// code and value.
pub const EVENT_SIZE: usize = 24;

/// Writes up to this size are atomic. The compositor writes to the same pipe; a
/// frame split in two would let its record slip in between.
pub const PIPE_BUF: usize = 4096;

/// One input event, without its time stamp.
#[derive(Clone, Copy, Debug, PartialEq, Eq, Structural)]
pub struct Record {
    pub kind: u16,
    pub code: u16,
    pub value: i32,
}

/// `v` in `n` bytes, least significant first.
pub open spec fn le_bytes(v: nat, n: nat) -> Seq<u8>
    decreases n,
{
    if n == 0 {
        Seq::empty()
    } else {
        seq![(v % 256) as u8] + le_bytes(v / 256, (n - 1) as nat)
    }
}

/// A signed number as the pattern that stands for it in 32 bits.
pub open spec fn pattern32(v: int) -> nat {
    if v < 0 {
        (v + 0x1_0000_0000) as nat
    } else {
        v as nat
    }
}

/// A signed number as the pattern that stands for it in 64 bits.
pub open spec fn pattern64(v: int) -> nat {
    if v < 0 {
        (v + 0x1_0000_0000_0000_0000) as nat
    } else {
        v as nat
    }
}

/// A record in wire format.
pub open spec fn encoded(sec: i64, usec: i64, r: Record) -> Seq<u8> {
    le_bytes(pattern64(sec as int), 8) + le_bytes(pattern64(usec as int), 8) + le_bytes(
        r.kind as nat,
        2,
    ) + le_bytes(r.code as nat, 2) + le_bytes(pattern32(r.value as int), 4)
}

/// Records in wire format, one after the other.
pub open spec fn encoded_all(sec: i64, usec: i64, r: Seq<Record>) -> Seq<u8>
    decreases r.len(),
{
    if r.len() == 0 {
        Seq::empty()
    } else {
        encoded_all(sec, usec, r.drop_last()) + encoded(sec, usec, r.last())
    }
}

fn push_le(buf: &mut Vec<u8>, v: u64, n: usize)
    ensures
        final(buf)@ == old(buf)@ + le_bytes(v as nat, n as nat),
    decreases n,
{
    if n > 0 {
        buf.push((v % 256) as u8);
        push_le(buf, v / 256, n - 1);
    }
    assert(buf@ =~= old(buf)@ + le_bytes(v as nat, n as nat));
}

/// Writes a single input event record in wire format.
pub fn push_event(buf: &mut Vec<u8>, sec: i64, usec: i64, kind: u16, code: u16, value: i32)
    ensures
        final(buf)@ == old(buf)@ + encoded(sec, usec, (Record { kind, code, value })),
{
    let s: u64 = sec as u64;
    let u: u64 = usec as u64;
    let v: u32 = value as u32;
    proof {
        assert(sec < 0 ==> s == sec + 0x1_0000_0000_0000_0000) by (bit_vector)
            requires
                s == sec as u64,
        ;
        assert(sec >= 0 ==> s == sec) by (bit_vector)
            requires
                s == sec as u64,
        ;
        assert(usec < 0 ==> u == usec + 0x1_0000_0000_0000_0000) by (bit_vector)
            requires
                u == usec as u64,
        ;
        assert(usec >= 0 ==> u == usec) by (bit_vector)
            requires
                u == usec as u64,
        ;
        assert(value < 0 ==> v == value + 0x1_0000_0000) by (bit_vector)
            requires
                v == value as u32,
        ;
        assert(value >= 0 ==> v == value) by (bit_vector)
            requires
                v == value as u32,
        ;
    }
    push_le(buf, s, 8);
    push_le(buf, u, 8);
    push_le(buf, kind as u64, 2);
    push_le(buf, code as u64, 2);
    push_le(buf, v as u64, 4);
    assert(buf@ =~= old(buf)@ + encoded(sec, usec, (Record { kind, code, value })));
}

/// The records of one action, its position in pixels being `px`. Press and move
/// are the same sequence: repeating a tracking id means a move.
pub open spec fn records_of(a: TouchAction, px: (i32, i32)) -> Seq<Record> {
    match a {
        TouchAction::Down { id, .. } => touch_records(id, px),
        TouchAction::Move { id, .. } => touch_records(id, px),
        TouchAction::Up { id } => if id < MAX_POINTERS {
            seq![
                Record { kind: EV_ABS, code: ABS_MT_SLOT, value: id as i32 },
                Record { kind: EV_ABS, code: ABS_MT_TRACKING_ID, value: LIFTED },
            ]
        } else {
            Seq::empty()
        },
    }
}

/// The records of a finger at `px`.
pub open spec fn touch_records(id: u8, px: (i32, i32)) -> Seq<Record> {
    seq![
        Record { kind: EV_ABS, code: ABS_MT_SLOT, value: id as i32 },
        Record { kind: EV_ABS, code: ABS_MT_TRACKING_ID, value: id as i32 },
        Record { kind: EV_ABS, code: ABS_MT_POSITION_X, value: px.0 },
        Record { kind: EV_ABS, code: ABS_MT_POSITION_Y, value: px.1 },
        Record { kind: EV_ABS, code: ABS_MT_PRESSURE, value: PRESSURE },
    ]
}

/// The records of the first `n` actions.
pub open spec fn records_upto(acts: Seq<TouchAction>, px: Seq<(i32, i32)>, n: int) -> Seq<Record>
    decreases n,
{
    if n <= 0 {
        Seq::empty()
    } else {
        records_upto(acts, px, n - 1) + records_of(acts[n - 1], px[n - 1])
    }
}

/// The record that ends a frame.
pub open spec fn syn_record() -> Record {
    Record { kind: EV_SYN, code: SYN_REPORT, value: 0 }
}

/// The records of a whole frame. Without actions there is no frame.
pub open spec fn frame_records(acts: Seq<TouchAction>, px: Seq<(i32, i32)>) -> Seq<Record> {
    if acts.len() == 0 {
        Seq::empty()
    } else {
        records_upto(acts, px, acts.len() as int).push(syn_record())
    }
}

/// How many records an action takes.
pub open spec fn record_count(a: TouchAction) -> nat {
    match a {
        TouchAction::Up { id } => if id < MAX_POINTERS {
            2
        } else {
            0
        },
        _ => 5,
    }
}

/// How many records the first `n` actions take.
pub open spec fn records_count(acts: Seq<TouchAction>, n: int) -> nat
    decreases n,
{
    if n <= 0 {
        0
    } else {
        records_count(acts, n - 1) + record_count(acts[n - 1])
    }
}

/// An action that puts or keeps a finger down.
pub open spec fn holds_finger(a: TouchAction) -> Option<u8> {
    match a {
        TouchAction::Down { id, .. } => Some(id),
        TouchAction::Move { id, .. } => Some(id),
        TouchAction::Up { .. } => None,
    }
}

/// An action for a finger that does not exist.
pub open spec fn out_of_range(a: TouchAction) -> bool {
    holds_finger(a) is Some && holds_finger(a)->0 >= MAX_POINTERS
}

/// Which slots are down after one more action.
pub open spec fn slots_after_one(slots: Seq<bool>, a: TouchAction) -> Seq<bool> {
    match a {
        TouchAction::Down { id, .. } => slots.update(id as int, true),
        TouchAction::Move { id, .. } => slots.update(id as int, true),
        TouchAction::Up { id } => if id < MAX_POINTERS {
            slots.update(id as int, false)
        } else {
            slots
        },
    }
}

/// Which slots are down after the first `n` actions.
pub open spec fn slots_after(slots: Seq<bool>, acts: Seq<TouchAction>, n: int) -> Seq<bool>
    decreases n,
{
    if n <= 0 {
        slots
    } else {
        slots_after_one(slots_after(slots, acts, n - 1), acts[n - 1])
    }
}

/// One lift for each slot below `n` that is down.
pub open spec fn slot_lifts(slots: Seq<bool>, n: int) -> Seq<TouchAction>
    decreases n,
{
    if n <= 0 {
        Seq::empty()
    } else if slots[n - 1] {
        slot_lifts(slots, n - 1).push(TouchAction::Up { id: (n - 1) as u8 })
    } else {
        slot_lifts(slots, n - 1)
    }
}

/// What became of a write.
#[derive(Debug)]
pub enum Written {
    /// This many bytes went out.
    Bytes(usize),
    /// The pipe is full: Android is behind.
    WouldBlock,
    /// The write failed, for this reason.
    Failed(String),
}

/// The state of the touch pipe's writer.
#[derive(Debug)]
pub struct WlTouchBackend {
    /// Android display resolution, the coordinate space of the pipe.
    w: u32,
    h: u32,
    /// Which slots are in use. Needed by `release_all` on shutdown.
    slots: Vec<bool>,
    /// Frames dropped because the pipe was full (diagnostics).
    dropped: u64,
}

impl WlTouchBackend {
    pub closed spec fn wf(&self) -> bool {
        self.slots@.len() == MAX_POINTERS && self.w > 0 && self.h > 0
    }

    /// What well-formedness says of the slots.
    pub proof fn lemma_wf(&self)
        requires
            self.wf(),
        ensures
            self.down().len() == MAX_POINTERS,
    {
    }

    /// Which slots are down.
    pub closed spec fn down(&self) -> Seq<bool> {
        self.slots@
    }

    /// The display size.
    pub closed spec fn size_spec(&self) -> (u32, u32) {
        (self.w, self.h)
    }

    /// How many frames were dropped.
    pub closed spec fn dropped_spec(&self) -> u64 {
        self.dropped
    }

    /// A writer for a display of `w` by `h` pixels. A display without pixels is
    /// refused.
    pub fn with_size(w: u32, h: u32) -> (r: Result<WlTouchBackend, BackendError>)
        ensures
            r is Err <==> w == 0 || h == 0,
            match r {
                Ok(b) => b.wf() && b.size_spec() == (w, h) && b.dropped_spec() == 0 && b.down()
                    == Seq::new(MAX_POINTERS as nat, |i: int| false),
                Err(e) => e.text() == "backend init failed: "@
                    + "display size is 0 — could not read waydroid.display_width/height"@,
            },
    {
        if w == 0 || h == 0 {
            return Err(
                BackendError::Init(
                    "display size is 0 — could not read waydroid.display_width/height".to_owned(),
                ),
            );
        }
        let mut slots: Vec<bool> = Vec::new();
        let mut i: usize = 0;
        while i < MAX_POINTERS
            invariant
                i <= MAX_POINTERS,
                slots@ == Seq::new(i as nat, |j: int| false),
            decreases MAX_POINTERS - i,
        {
            slots.push(false);
            i = i + 1;
        }
        Ok(WlTouchBackend { w, h, slots, dropped: 0 })
    }

    /// Host-visible path of the container's touch pipe.
    pub fn pipe_path(container_pid: u32) -> (r: String)
        ensures
            r@ == "/proc/"@ + crate::text::decimal(container_pid as nat) + "/root/"@ + TOUCH_PIPE@,
    {
        let mut s: String = "/proc/".to_owned();
        crate::text::push_decimal(&mut s, container_pid as u64);
        s.append("/root/");
        s.append(TOUCH_PIPE);
        s
    }

    /// Number of dropped frames (diagnostics).
    pub fn dropped(&self) -> (r: u64)
        ensures
            r == self.dropped_spec(),
    {
        self.dropped
    }

    pub fn size(&self) -> (r: (u32, u32))
        ensures
            r == self.size_spec(),
    {
        (self.w, self.h)
    }

    /// The bytes of one frame: the records of every action, ended by one sync
    /// record; nothing for no actions. `px` holds the pixel position of each action; it is not clamped,
    /// so off-screen values pass through untouched.
    ///
    /// A finger that does not exist is refused, and so is a frame that would
    /// lose its atomicity; the fingers seen up to then count.
    pub fn frame(
        &mut self,
        actions: &Vec<TouchAction>,
        px: &Vec<(i32, i32)>,
        sec: i64,
        usec: i64,
    ) -> (r: Result<Vec<u8>, BackendError>)
        requires
            old(self).wf(),
            px@.len() == actions@.len(),
        ensures
            final(self).wf(),
            final(self).size_spec() == old(self).size_spec(),
            final(self).dropped_spec() == old(self).dropped_spec(),
            ({
                let bytes = encoded_all(sec, usec, frame_records(actions@, px@));
                let fits = bytes.len() <= PIPE_BUF;
                let bad = |k: int|
                    {
                        &&& 0 <= k < actions@.len()
                        &&& out_of_range(actions@[k])
                        &&& forall|j: int| 0 <= j < k ==> !out_of_range(#[trigger] actions@[j])
                    };
                match r {
                    Ok(buf) => {
                        &&& forall|j: int|
                            0 <= j < actions@.len() ==> !out_of_range(#[trigger] actions@[j])
                        &&& fits
                        &&& buf@ == bytes
                        &&& final(self).down() == slots_after(
                            old(self).down(),
                            actions@,
                            actions@.len() as int,
                        )
                    },
                    Err(e) => {
                        ||| exists|k: int|
                            #![trigger actions@[k]]
                            {
                                &&& bad(k)
                                &&& e.text() == "touch dispatch failed: "@ + ("invalid pointer id "@
                                    + crate::text::decimal(holds_finger(actions@[k])->0 as nat))
                                &&& final(self).down() == slots_after(
                                    old(self).down(),
                                    actions@,
                                    k,
                                )
                            }
                        ||| {
                            &&& forall|j: int|
                                0 <= j < actions@.len() ==> !out_of_range(#[trigger] actions@[j])
                            &&& !fits
                            &&& e.text() == "touch dispatch failed: "@ + ("frame is "@
                                + crate::text::decimal(bytes.len())
                                + " bytes — exceeds PIPE_BUF (4096), atomicity would be lost"@)
                            &&& final(self).down() == slots_after(
                                old(self).down(),
                                actions@,
                                actions@.len() as int,
                            )
                        }
                    },
                }
            }),
    {
        let mut buf: Vec<u8> = Vec::new();
        let mut i: usize = 0;
        assert(encoded_all(sec, usec, records_upto(actions@, px@, 0)) =~= buf@);
        if actions.len() == 0 {
            assert(frame_records(actions@, px@) =~= Seq::<Record>::empty());
            return Ok(buf);
        }
        while i < actions.len()
            invariant
                self.wf(),
                self.size_spec() == old(self).size_spec(),
                self.dropped_spec() == old(self).dropped_spec(),
                px@.len() == actions@.len(),
                i <= actions@.len(),
                forall|j: int| 0 <= j < i ==> !out_of_range(#[trigger] actions@[j]),
                self.down() == slots_after(old(self).down(), actions@, i as int),
                buf@ == encoded_all(sec, usec, records_upto(actions@, px@, i as int)),
            decreases actions@.len() - i,
        {
            let ghost done = records_upto(actions@, px@, i as int);
            let ghost before = buf@;
            let (x, y) = px[i];
            let finger: Option<u8> = match actions[i] {
                TouchAction::Down { id, .. } => Some(id),
                TouchAction::Move { id, .. } => Some(id),
                TouchAction::Up { .. } => None,
            };
            if let Some(id) = finger {
                if (id as usize) >= MAX_POINTERS {
                    let mut m: String = "invalid pointer id ".to_owned();
                    crate::text::push_decimal(&mut m, id as u64);
                    assert(out_of_range(actions@[i as int]));
                    return Err(BackendError::Dispatch(m));
                }
                self.slots.set(id as usize, true);
                push_event(&mut buf, sec, usec, EV_ABS, ABS_MT_SLOT, id as i32);
                push_event(&mut buf, sec, usec, EV_ABS, ABS_MT_TRACKING_ID, id as i32);
                push_event(&mut buf, sec, usec, EV_ABS, ABS_MT_POSITION_X, x);
                push_event(&mut buf, sec, usec, EV_ABS, ABS_MT_POSITION_Y, y);
                push_event(&mut buf, sec, usec, EV_ABS, ABS_MT_PRESSURE, PRESSURE);
                proof {
                    let r = touch_records(id, px@[i as int]);
                    lemma_encoded_five(sec, usec, done, r);
                    assert(buf@ =~= encoded_all(sec, usec, done + r));
                }
            } else if let TouchAction::Up { id } = actions[i] {
                if (id as usize) < MAX_POINTERS {
                    self.slots.set(id as usize, false);
                    push_event(&mut buf, sec, usec, EV_ABS, ABS_MT_SLOT, id as i32);
                    push_event(&mut buf, sec, usec, EV_ABS, ABS_MT_TRACKING_ID, LIFTED);
                    proof {
                        let r = records_of(actions@[i as int], px@[i as int]);
                        lemma_encoded_two(sec, usec, done, r);
                        assert(buf@ =~= encoded_all(sec, usec, done + r));
                    }
                } else {
                    assert(done + Seq::<Record>::empty() =~= done);
                }
            }
            i = i + 1;
        }
        // One sync record: the actions in this call belong to the same frame.
        let ghost done = records_upto(actions@, px@, actions@.len() as int);
        push_event(&mut buf, sec, usec, EV_SYN, SYN_REPORT, 0);
        assert(done.push(syn_record()).drop_last() =~= done);
        if buf.len() > PIPE_BUF {
            // A corrupt record knocks Android's input reader out of alignment,
            // and afterwards no touch works at all.
            let mut m: String = "frame is ".to_owned();
            crate::text::push_decimal(&mut m, buf.len() as u64);
            m.append(" bytes — exceeds PIPE_BUF (4096), atomicity would be lost");
            return Err(BackendError::Dispatch(m));
        }
        Ok(buf)
    }

    /// Judges a write of a frame of `len` bytes. A full pipe costs one frame and
    /// is no error; a partial write breaks the alignment of the pipe.
    pub fn written(&mut self, len: usize, w: &Written) -> (r: Result<(), BackendError>)
        requires
            old(self).wf(),
            old(self).dropped_spec() < u64::MAX,
        ensures
            final(self).wf(),
            final(self).size_spec() == old(self).size_spec(),
            final(self).down() == old(self).down(),
            final(self).dropped_spec() == old(self).dropped_spec() + if *w is WouldBlock {
                1int
            } else {
                0
            },
            match (*w, r) {
                (Written::Bytes(n), Ok(_)) => n == len,
                (Written::Bytes(n), Err(e)) => n != len && e.text() == "touch dispatch failed: "@ + (
                "partial write: "@ + crate::text::decimal(n as nat) + "/"@ + crate::text::decimal(
                    len as nat,
                ) + " bytes — pipe alignment broken"@),
                (Written::WouldBlock, Ok(_)) => true,
                (Written::WouldBlock, Err(_)) => false,
                (Written::Failed(_), Ok(_)) => false,
                (Written::Failed(m), Err(e)) => e.text() == "touch dispatch failed: "@ + (
                "could not write to pipe: "@ + m@),
            },
    {
        match w {
            Written::Bytes(n) => {
                if *n == len {
                    Ok(())
                } else {
                    let mut m: String = "partial write: ".to_owned();
                    crate::text::push_decimal(&mut m, *n as u64);
                    m.append("/");
                    crate::text::push_decimal(&mut m, len as u64);
                    m.append(" bytes — pipe alignment broken");
                    Err(BackendError::Dispatch(m))
                }
            },
            Written::WouldBlock => {
                self.dropped = self.dropped + 1;
                Ok(())
            },
            Written::Failed(why) => {
                let mut m: String = "could not write to pipe: ".to_owned();
                m.append(why.as_str());
                Err(BackendError::Dispatch(m))
            },
        }
    }

    /// The lifts that take every finger off the screen: one for each slot that
    /// is actually down, none for the others.
    pub fn release_all(&self) -> (acts: Vec<TouchAction>)
        requires
            self.wf(),
        ensures
            acts@ == slot_lifts(self.down(), MAX_POINTERS as int),
    {
        let mut acts: Vec<TouchAction> = Vec::new();
        let mut i: usize = 0;
        while i < MAX_POINTERS
            invariant
                self.wf(),
                i <= MAX_POINTERS,
                acts@ == slot_lifts(self.down(), i as int),
            decreases MAX_POINTERS - i,
        {
            if self.slots[i] {
                acts.push(TouchAction::Up { id: i as u8 });
            }
            i = i + 1;
        }
        acts
    }

    pub fn name(&self) -> (r: &'static str)
        ensures
            r@ == "wl_touch"@,
    {
        "wl_touch"
    }
}

proof fn lemma_encoded_push(sec: i64, usec: i64, a: Seq<Record>, r: Record)
    ensures
        encoded_all(sec, usec, a.push(r)) == encoded_all(sec, usec, a) + encoded(sec, usec, r),
{
    assert(a.push(r).drop_last() =~= a);
}

proof fn lemma_encoded_two(sec: i64, usec: i64, a: Seq<Record>, r: Seq<Record>)
    requires
        r.len() == 2,
    ensures
        encoded_all(sec, usec, a + r) == encoded_all(sec, usec, a) + encoded(sec, usec, r[0])
            + encoded(sec, usec, r[1]),
{
    assert(a + r =~= a.push(r[0]).push(r[1]));
    lemma_encoded_push(sec, usec, a, r[0]);
    lemma_encoded_push(sec, usec, a.push(r[0]), r[1]);
}

proof fn lemma_encoded_five(sec: i64, usec: i64, a: Seq<Record>, r: Seq<Record>)
    requires
        r.len() == 5,
    ensures
        encoded_all(sec, usec, a + r) == encoded_all(sec, usec, a) + encoded(sec, usec, r[0])
            + encoded(sec, usec, r[1]) + encoded(sec, usec, r[2]) + encoded(sec, usec, r[3])
            + encoded(sec, usec, r[4]),
{
    assert(a + r =~= a.push(r[0]).push(r[1]).push(r[2]).push(r[3]).push(r[4]));
    let a1 = a.push(r[0]);
    let a2 = a1.push(r[1]);
    let a3 = a2.push(r[2]);
    let a4 = a3.push(r[3]);
    lemma_encoded_push(sec, usec, a, r[0]);
    lemma_encoded_push(sec, usec, a1, r[1]);
    lemma_encoded_push(sec, usec, a2, r[2]);
    lemma_encoded_push(sec, usec, a3, r[3]);
    lemma_encoded_push(sec, usec, a4, r[4]);
}

/// `v` in `n` bytes takes `n` bytes.
proof fn lemma_le_len(v: nat, n: nat)
    ensures
        le_bytes(v, n).len() == n,
    decreases n,
{
    if n > 0 {
        lemma_le_len(v / 256, (n - 1) as nat);
    }
}

/// The number that bytes stand for, least significant first.
pub open spec fn le_value(s: Seq<u8>) -> nat
    decreases s.len(),
{
    if s.len() == 0 {
        0
    } else {
        s[0] as nat + 256 * le_value(s.drop_first())
    }
}

/// The reader gets back the number that was written, as far as the bytes reach.
pub proof fn law_numbers_survive_the_wire(v: nat, n: nat)
    requires
        v < vstd::arithmetic::power::pow(256, n),
    ensures
        le_value(le_bytes(v, n)) == v,
    decreases n,
{
    reveal(vstd::arithmetic::power::pow);
    if n > 0 {
        let rest = le_bytes(v / 256, (n - 1) as nat);
        assert(le_bytes(v, n).drop_first() =~= rest);
        assert(v / 256 < vstd::arithmetic::power::pow(256, (n - 1) as nat)) by (nonlinear_arith)
            requires
                v < vstd::arithmetic::power::pow(256, n),
                vstd::arithmetic::power::pow(256, n) == 256 * vstd::arithmetic::power::pow(
                    256,
                    (n - 1) as nat,
                ),
        ;
        law_numbers_survive_the_wire(v / 256, (n - 1) as nat);
    }
}

/// Every record takes the same number of bytes, so a reader that divides by the
/// record size stays aligned.
pub proof fn law_records_stay_aligned(sec: i64, usec: i64, r: Seq<Record>)
    ensures
        encoded_all(sec, usec, r).len() == r.len() * EVENT_SIZE,
    decreases r.len(),
{
    if r.len() > 0 {
        law_records_stay_aligned(sec, usec, r.drop_last());
        let x = r.last();
        lemma_le_len(pattern64(sec as int), 8);
        lemma_le_len(pattern64(usec as int), 8);
        lemma_le_len(x.kind as nat, 2);
        lemma_le_len(x.code as nat, 2);
        lemma_le_len(pattern32(x.value as int), 4);
        assert(r.len() * EVENT_SIZE == (r.len() - 1) * EVENT_SIZE + EVENT_SIZE)
            by (nonlinear_arith);
    }
}

/// A frame takes five records for each finger that goes or stays down, two for
/// each that lifts, and one more; without actions it takes nothing.
pub proof fn law_a_frame_has_a_fixed_size(
    sec: i64,
    usec: i64,
    acts: Seq<TouchAction>,
    px: Seq<(i32, i32)>,
)
    requires
        acts.len() == px.len(),
    ensures
        acts.len() == 0 ==> encoded_all(sec, usec, frame_records(acts, px)).len() == 0,
        acts.len() > 0 ==> encoded_all(sec, usec, frame_records(acts, px)).len() == (records_count(
            acts,
            acts.len() as int,
        ) + 1) * EVENT_SIZE,
{
    law_records_stay_aligned(sec, usec, frame_records(acts, px));
    lemma_records_count(acts, px, acts.len() as int);
}

proof fn lemma_records_count(acts: Seq<TouchAction>, px: Seq<(i32, i32)>, n: int)
    requires
        n <= acts.len(),
    ensures
        records_upto(acts, px, n).len() == records_count(acts, n),
    decreases n,
{
    if n > 0 {
        lemma_records_count(acts, px, n - 1);
    }
}

/// A frame ends with one sync record and holds no other.
pub proof fn law_a_frame_ends_with_one_sync(
    acts: Seq<TouchAction>,
    px: Seq<(i32, i32)>,
    k: int,
)
    requires
        acts.len() == px.len(),
        0 <= k < frame_records(acts, px).len(),
    ensures
        frame_records(acts, px)[k].kind == EV_SYN <==> k == frame_records(acts, px).len() - 1,
        frame_records(acts, px).last() == syn_record(),
{
    lemma_no_sync(acts, px, acts.len() as int);
}

proof fn lemma_no_sync(acts: Seq<TouchAction>, px: Seq<(i32, i32)>, n: int)
    requires
        n <= acts.len(),
    ensures
        forall|k: int|
            0 <= k < records_upto(acts, px, n).len() ==> (#[trigger] records_upto(
                acts,
                px,
                n,
            )[k]).kind == EV_ABS,
    decreases n,
{
    if n > 0 {
        lemma_no_sync(acts, px, n - 1);
        let a = records_upto(acts, px, n - 1);
        let b = records_of(acts[n - 1], px[n - 1]);
        assert forall|k: int| 0 <= k < (a + b).len() implies (#[trigger] (a + b)[k]).kind == EV_ABS by {
            if k < a.len() {
                assert(a[k].kind == EV_ABS);
            } else {
                assert((a + b)[k] == b[k - a.len()]);
            }
        }
    }
}

/// Lifting every finger that is down leaves none, so lifting again is silent.
pub proof fn law_releasing_twice_is_silent(slots: Seq<bool>)
    requires
        slots.len() == MAX_POINTERS,
    ensures
        ({
            let acts = slot_lifts(slots, MAX_POINTERS as int);
            let then_ = slots_after(slots, acts, acts.len() as int);
            slot_lifts(then_, MAX_POINTERS as int).len() == 0
        }),
{
    lemma_lifts_clear(slots, MAX_POINTERS as int);
    let acts = slot_lifts(slots, MAX_POINTERS as int);
    lemma_nothing_to_lift(slots_after(slots, acts, acts.len() as int), MAX_POINTERS as int);
}

proof fn lemma_nothing_to_lift(slots: Seq<bool>, n: int)
    requires
        0 <= n <= slots.len(),
        forall|i: int| 0 <= i < n ==> !#[trigger] slots[i],
    ensures
        slot_lifts(slots, n).len() == 0,
    decreases n,
{
    if n > 0 {
        lemma_nothing_to_lift(slots, n - 1);
    }
}

/// The lifts of the first `n` slots clear exactly those.
proof fn lemma_lifts_clear(slots: Seq<bool>, n: int)
    requires
        slots.len() == MAX_POINTERS,
        0 <= n <= MAX_POINTERS,
    ensures
        ({
            let acts = slot_lifts(slots, n);
            let s = slots_after(slots, acts, acts.len() as int);
            &&& s.len() == MAX_POINTERS
            &&& forall|i: int| 0 <= i < n ==> !#[trigger] s[i]
            &&& forall|i: int| n <= i < MAX_POINTERS ==> #[trigger] s[i] == slots[i]
        }),
    decreases n,
{
    if n > 0 {
        lemma_lifts_clear(slots, n - 1);
        let a0 = slot_lifts(slots, n - 1);
        let a1 = slot_lifts(slots, n);
        if slots[n - 1] {
            lemma_slots_prefix(slots, a0, a1, a0.len() as int);
        }
    }
}

/// Slots depend only on the actions counted.
proof fn lemma_slots_prefix(slots: Seq<bool>, a: Seq<TouchAction>, b: Seq<TouchAction>, n: int)
    requires
        0 <= n <= a.len(),
        n <= b.len(),
        forall|i: int| 0 <= i < n ==> a[i] == b[i],
    ensures
        slots_after(slots, a, n) == slots_after(slots, b, n),
    decreases n,
{
    if n > 0 {
        lemma_slots_prefix(slots, a, b, n - 1);
    }
}

/// What the reader of the pipe knows of a finger.
pub struct Seen {
    pub x: i32,
    pub y: i32,
    pub pressure: i32,
}

/// The reader of the pipe: the slot in question, and the finger in each slot.
pub struct Reader {
    pub slot: i32,
    pub fingers: Map<i32, Seen>,
}

/// The reader takes in a record, as the kernel's protocol for touch screens has it.
pub open spec fn read_one(s: Reader, r: Record) -> Reader {
    let own = s.fingers[s.slot];
    if r.kind != 3 {
        s
    } else if r.code == 0x2f {
        Reader { slot: r.value, ..s }
    } else if r.code == 0x39 && r.value < 0 {
        Reader { fingers: s.fingers.remove(s.slot), ..s }
    } else if r.code == 0x39 && !s.fingers.contains_key(s.slot) {
        Reader { fingers: s.fingers.insert(s.slot, Seen { x: 0, y: 0, pressure: 0 }), ..s }
    } else if !s.fingers.contains_key(s.slot) {
        s
    } else if r.code == 0x35 {
        Reader { fingers: s.fingers.insert(s.slot, Seen { x: r.value, ..own }), ..s }
    } else if r.code == 0x36 {
        Reader { fingers: s.fingers.insert(s.slot, Seen { y: r.value, ..own }), ..s }
    } else if r.code == 0x3a {
        Reader { fingers: s.fingers.insert(s.slot, Seen { pressure: r.value, ..own }), ..s }
    } else {
        s
    }
}

/// The reader takes in records, one after the other.
pub open spec fn read_all(s: Reader, r: Seq<Record>) -> Reader
    decreases r.len(),
{
    if r.len() == 0 {
        s
    } else {
        read_one(read_all(s, r.drop_last()), r.last())
    }
}

/// The fingers a reader should see after the first `n` actions.
pub open spec fn screen_after(
    fingers: Map<i32, Seen>,
    acts: Seq<TouchAction>,
    px: Seq<(i32, i32)>,
    n: int,
) -> Map<i32, Seen>
    decreases n,
{
    if n <= 0 {
        fingers
    } else {
        let before = screen_after(fingers, acts, px, n - 1);
        let there = Seen { x: px[n - 1].0, y: px[n - 1].1, pressure: 50 };
        match acts[n - 1] {
            TouchAction::Down { id, .. } => before.insert(id as i32, there),
            TouchAction::Move { id, .. } => before.insert(id as i32, there),
            TouchAction::Up { id } => before.remove(id as i32),
        }
    }
}

/// The reader of the pipe sees what the actions say: each finger that goes down or
/// moves stands, pressed, at its pixel; each that is lifted is gone; no other
/// changes.
pub proof fn law_the_reader_sees_the_fingers(
    s: Reader,
    acts: Seq<TouchAction>,
    px: Seq<(i32, i32)>,
)
    requires
        acts.len() == px.len(),
        forall|k: int|
            0 <= k < acts.len() ==> match #[trigger] acts[k] {
                TouchAction::Down { id, .. } => id < MAX_POINTERS,
                TouchAction::Move { id, .. } => id < MAX_POINTERS,
                TouchAction::Up { id } => id < MAX_POINTERS,
            },
    ensures
        read_all(s, frame_records(acts, px)).fingers == screen_after(
            s.fingers,
            acts,
            px,
            acts.len() as int,
        ),
{
    let n = acts.len() as int;
    lemma_read_upto(s, acts, px, n);
    if n > 0 {
        let r = records_upto(acts, px, n);
        assert(r.push(syn_record()).drop_last() =~= r);
    }
}

proof fn lemma_read_upto(s: Reader, acts: Seq<TouchAction>, px: Seq<(i32, i32)>, n: int)
    requires
        acts.len() == px.len(),
        0 <= n <= acts.len(),
        forall|k: int|
            0 <= k < acts.len() ==> match #[trigger] acts[k] {
                TouchAction::Down { id, .. } => id < MAX_POINTERS,
                TouchAction::Move { id, .. } => id < MAX_POINTERS,
                TouchAction::Up { id } => id < MAX_POINTERS,
            },
    ensures
        read_all(s, records_upto(acts, px, n)).fingers == screen_after(s.fingers, acts, px, n),
    decreases n,
{
    if n > 0 {
        lemma_read_upto(s, acts, px, n - 1);
        let a = records_upto(acts, px, n - 1);
        let b = records_of(acts[n - 1], px[n - 1]);
        lemma_read_concat(s, a, b);
        lemma_read_action(read_all(s, a), acts[n - 1], px[n - 1]);
    }
}

proof fn lemma_read_concat(s: Reader, a: Seq<Record>, b: Seq<Record>)
    ensures
        read_all(s, a + b) == read_all(read_all(s, a), b),
    decreases b.len(),
{
    if b.len() == 0 {
        assert(a + b =~= a);
    } else {
        assert((a + b).drop_last() =~= a + b.drop_last());
        lemma_read_concat(s, a, b.drop_last());
    }
}

proof fn lemma_read_action(s: Reader, a: TouchAction, px: (i32, i32))
    requires
        match a {
            TouchAction::Down { id, .. } => id < MAX_POINTERS,
            TouchAction::Move { id, .. } => id < MAX_POINTERS,
            TouchAction::Up { id } => id < MAX_POINTERS,
        },
    ensures
        ({
            let there = Seen { x: px.0, y: px.1, pressure: 50 };
            read_all(s, records_of(a, px)).fingers == match a {
                TouchAction::Down { id, .. } => s.fingers.insert(id as i32, there),
                TouchAction::Move { id, .. } => s.fingers.insert(id as i32, there),
                TouchAction::Up { id } => s.fingers.remove(id as i32),
            }
        }),
{
    let r = records_of(a, px);
    let there = Seen { x: px.0, y: px.1, pressure: 50 };
    if a is Up {
        assert(r.drop_last() =~= seq![r[0]]);
        assert(r.drop_last().drop_last() =~= Seq::<Record>::empty());
        reveal_with_fuel(read_all, 3);
    } else {
        let r4 = r.drop_last();
        let r3 = r4.drop_last();
        let r2 = r3.drop_last();
        let r1 = r2.drop_last();
        let r0 = r1.drop_last();
        assert(r4.last() == r[3] && r3.last() == r[2] && r2.last() == r[1] && r1.last() == r[0]);
        assert(r0 =~= Seq::<Record>::empty());
        assert(read_all(s, r0) == s);
        let s1 = read_one(s, r[0]);
        let s2 = read_one(s1, r[1]);
        let s3 = read_one(s2, r[2]);
        let s4 = read_one(s3, r[3]);
        let s5 = read_one(s4, r[4]);
        assert(read_all(s, r1) == s1);
        assert(read_all(s, r2) == s2);
        assert(read_all(s, r3) == s3);
        assert(read_all(s, r4) == s4);
        assert(read_all(s, r) == s5);
        let id = r[0].value;
        assert(s5.fingers =~= s.fingers.insert(id, there));
    }
}

/// A record can be read back: the two parts of the time, then kind and code, then
/// the value, each least significant byte first.
pub proof fn law_a_record_can_be_read_back(sec: i64, usec: i64, r: Record)
    ensures
        ({
            let e = encoded(sec, usec, r);
            &&& e.len() == 24
            &&& le_value(e.subrange(0, 8)) == pattern64(sec as int)
            &&& le_value(e.subrange(8, 16)) == pattern64(usec as int)
            &&& le_value(e.subrange(16, 18)) == r.kind
            &&& le_value(e.subrange(18, 20)) == r.code
            &&& le_value(e.subrange(20, 24)) == pattern32(r.value as int)
        }),
{
    let e = encoded(sec, usec, r);
    let (a, b) = (pattern64(sec as int), pattern64(usec as int));
    let v = pattern32(r.value as int);
    lemma_le_len(a, 8);
    lemma_le_len(b, 8);
    lemma_le_len(r.kind as nat, 2);
    lemma_le_len(r.code as nat, 2);
    lemma_le_len(v, 4);
    assert(e.subrange(0, 8) =~= le_bytes(a, 8));
    assert(e.subrange(8, 16) =~= le_bytes(b, 8));
    assert(e.subrange(16, 18) =~= le_bytes(r.kind as nat, 2));
    assert(e.subrange(18, 20) =~= le_bytes(r.code as nat, 2));
    assert(e.subrange(20, 24) =~= le_bytes(v, 4));
    reveal_with_fuel(vstd::arithmetic::power::pow, 9);
    assert(vstd::arithmetic::power::pow(256, 2) == 0x1_0000);
    assert(vstd::arithmetic::power::pow(256, 4) == 0x1_0000_0000);
    assert(vstd::arithmetic::power::pow(256, 8) == 0x1_0000_0000_0000_0000);
    law_numbers_survive_the_wire(a, 8);
    law_numbers_survive_the_wire(b, 8);
    law_numbers_survive_the_wire(r.kind as nat, 2);
    law_numbers_survive_the_wire(r.code as nat, 2);
    law_numbers_survive_the_wire(v, 4);
}

/// A negative number is written as its two's complement, any other as it is.
pub proof fn law_negative_numbers_wrap(v: int)
    ensures
        0 <= v < 0x8000_0000 ==> pattern32(v) == v,
        -0x8000_0000 <= v < 0 ==> pattern32(v) == 0x1_0000_0000 + v,
        0 <= v < 0x8000_0000_0000_0000 ==> pattern64(v) == v,
        -0x8000_0000_0000_0000 <= v < 0 ==> pattern64(v) == 0x1_0000_0000_0000_0000 + v,
{
}

/// Records are written one behind the other, in order.
pub proof fn law_records_follow_each_other(sec: i64, usec: i64, r: Seq<Record>, k: int)
    requires
        0 <= k < r.len(),
    ensures
        encoded_all(sec, usec, r).len() == 24 * r.len(),
        encoded_all(sec, usec, r).subrange(24 * k, 24 * k + 24) == encoded(sec, usec, r[k]),
    decreases r.len(),
{
    law_records_stay_aligned(sec, usec, r);
    law_records_stay_aligned(sec, usec, r.drop_last());
    law_a_record_can_be_read_back(sec, usec, r.last());
    let all = encoded_all(sec, usec, r);
    let before = encoded_all(sec, usec, r.drop_last());
    if k == r.len() - 1 {
        assert(all.subrange(24 * k, 24 * k + 24) =~= encoded(sec, usec, r[k]));
    } else {
        law_records_follow_each_other(sec, usec, r.drop_last(), k);
        assert(all.subrange(24 * k, 24 * k + 24) =~= before.subrange(24 * k, 24 * k + 24));
    }
}

/// A slot holds a finger from the time one goes down or moves in it until it is
/// lifted; actions on other slots leave it as it is.
pub proof fn law_a_slot_follows_its_finger(slots: Seq<bool>, a: TouchAction, k: int)
    requires
        slots.len() == MAX_POINTERS,
        0 <= k < MAX_POINTERS,
        !out_of_range(a),
    ensures
        slots_after_one(slots, a).len() == slots.len(),
        slots_after_one(slots, a)[k] == match a {
            TouchAction::Down { id, .. } => id == k || slots[k],
            TouchAction::Move { id, .. } => id == k || slots[k],
            TouchAction::Up { id } => id != k && slots[k],
        },
{
}

/// What is lifted at the end is every slot that holds a finger, and nothing else,
/// in ascending order.
pub proof fn law_every_held_slot_is_lifted(slots: Seq<bool>)
    requires
        slots.len() == MAX_POINTERS,
    ensures
        ({
            let acts = slot_lifts(slots, MAX_POINTERS as int);
            &&& forall|k: int|
                0 <= k < MAX_POINTERS ==> (#[trigger] slots[k] <==> acts.contains(
                    TouchAction::Up { id: k as u8 },
                ))
            &&& forall|i: int| 0 <= i < acts.len() ==> #[trigger] acts[i] is Up
            &&& forall|i: int, j: int|
                0 <= i < j < acts.len() ==> (#[trigger] acts[i])->Up_id < (#[trigger] acts[j])->Up_id
        }),
{
    lemma_slot_lifts(slots, MAX_POINTERS as int);
    let acts = slot_lifts(slots, MAX_POINTERS as int);
    assert forall|k: int| 0 <= k < MAX_POINTERS implies (#[trigger] slots[k] <==> acts.contains(
        TouchAction::Up { id: k as u8 },
    )) by {
        if acts.contains(TouchAction::Up { id: k as u8 }) {
            let i = choose|i: int| 0 <= i < acts.len() && acts[i] == (TouchAction::Up { id: k as u8 });
            assert(acts[i]->Up_id == k);
        }
    }
}

proof fn lemma_slot_lifts(slots: Seq<bool>, n: int)
    requires
        slots.len() == MAX_POINTERS,
        0 <= n <= MAX_POINTERS,
    ensures
        ({
            let acts = slot_lifts(slots, n);
            &&& forall|k: int|
                0 <= k < n && #[trigger] slots[k] ==> acts.contains(TouchAction::Up { id: k as u8 })
            &&& forall|i: int|
                0 <= i < acts.len() ==> #[trigger] acts[i] is Up && acts[i]->Up_id < n
                    && slots[acts[i]->Up_id as int]
            &&& forall|i: int, j: int|
                0 <= i < j < acts.len() ==> (#[trigger] acts[i])->Up_id < (#[trigger] acts[j])->Up_id
        }),
    decreases n,
{
    if n > 0 {
        lemma_slot_lifts(slots, n - 1);
        let before = slot_lifts(slots, n - 1);
        let acts = slot_lifts(slots, n);
        assert forall|k: int| 0 <= k < n && #[trigger] slots[k] implies acts.contains(
            TouchAction::Up { id: k as u8 },
        ) by {
            if k < n - 1 {
                assert(before.contains(TouchAction::Up { id: k as u8 }));
                let i = choose|i: int|
                    0 <= i < before.len() && before[i] == (TouchAction::Up { id: k as u8 });
                assert(acts[i] == before[i]);
            } else {
                assert(acts.last() == (TouchAction::Up { id: k as u8 }));
            }
        }
    }
}

} // verus!
