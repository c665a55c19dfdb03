//! The video reports: what is declared, what is registered, and where the two
//! fail to meet.

use crate::video::{Codec, CodecKind, CodecView, WIDTH};
use vstd::prelude::*;
use vstd::string::*;

verus! {

// ---------------------------------------------------------------- registered

/// Whether a character belongs to a component name, given whether it is a
/// letter or a digit.
pub fn joins(c: char, alphanumeric: bool) -> (r: bool)
    ensures
        r == (alphanumeric || c == '.' || c == '_'),
{
    alphanumeric || c == '.' || c == '_'
}

/// A character that belongs to a component name.
pub open spec fn name_char(c: char) -> bool {
    crate::text::alphanumeric(c) || c == '.' || c == '_'
}

/// The end of the piece that `i` stands in.
pub open spec fn piece_end(s: Seq<char>, i: int) -> int
    decreases s.len() - i,
{
    if i >= s.len() || !name_char(s[i]) {
        i
    } else {
        piece_end(s, i + 1)
    }
}

proof fn lemma_piece_end(s: Seq<char>, i: int)
    requires
        0 <= i <= s.len(),
    ensures
        i <= piece_end(s, i) <= s.len(),
    decreases s.len() - i,
{
    if i < s.len() && name_char(s[i]) {
        lemma_piece_end(s, i + 1);
    }
}

/// A piece that names a component.
pub open spec fn component_name(w: Seq<char>) -> bool {
    crate::text::opens_with(w, "c2."@) || crate::text::opens_with(w, "OMX."@)
}

/// The component names in `s` from `i` on, where a piece starts.
pub open spec fn named_from(s: Seq<char>, i: int) -> Seq<Seq<char>>
    decreases s.len() - i,
    when 0 <= i <= s.len()
    via named_from_ends
{
    let e = piece_end(s, i);
    let w = s.subrange(i, e);
    let here: Seq<Seq<char>> = if component_name(w) {
        seq![w]
    } else {
        Seq::empty()
    };
    if e >= s.len() {
        here
    } else {
        here + named_from(s, e + 1)
    }
}

#[via_fn]
proof fn named_from_ends(s: Seq<char>, i: int) {
    lemma_piece_end(s, i);
}

/// The component names that a dump holds, in the order they stand.
pub fn names_in(dump: &str) -> (r: Vec<String>)
    ensures
        crate::text::texts(r@) == named_from(dump@, 0),
{
    let cs: Vec<char> = crate::text::chars_of(dump);
    let mut out: Vec<String> = crate::say::page();
    let mut i: usize = 0;
    assert(crate::text::texts(out@) + named_from(dump@, 0) =~= named_from(dump@, 0));
    loop
        invariant_except_break
            i <= cs@.len(),
            crate::text::texts(out@) + named_from(dump@, i as int) == named_from(dump@, 0),
        invariant
            cs@ == dump@,
        ensures
            crate::text::texts(out@) == named_from(dump@, 0),
        decreases cs@.len() - i,
    {
        let from: usize = i;
        proof {
            lemma_piece_end(dump@, from as int);
        }
        while i < cs.len() && joins(cs[i], crate::text::is_alphanumeric(cs[i]))
            invariant
                cs@ == dump@,
                from <= i <= cs@.len(),
                piece_end(dump@, from as int) == piece_end(dump@, i as int),
            decreases cs@.len() - i,
        {
            i = i + 1;
        }
        let w: String = crate::text::string_of(&cs, from, i);
        let ghost before = crate::text::texts(out@);
        let ghost here: Seq<Seq<char>> = if component_name(w@) {
            seq![w@]
        } else {
            Seq::empty()
        };
        if crate::text::starts_with(w.as_str(), "c2.") || crate::text::starts_with(
            w.as_str(),
            "OMX.",
        ) {
            crate::say::put(&mut out, w);
        }
        assert(crate::text::texts(out@) =~= before + here);
        if i >= cs.len() {
            break;
        }
        i = i + 1;
        assert(before + (here + named_from(dump@, i as int)) =~= (before + here) + named_from(
            dump@,
            i as int,
        ));
    }
    out
}

/// The components that a running Android has registered: the names in its dump,
/// each once, in order.
pub fn registered(dump: &str) -> (r: Vec<String>)
    ensures
        crate::order::ascending(crate::text::texts(r@)),
        forall|x: Seq<char>|
            crate::text::texts(r@).contains(x) <==> named_from(dump@, 0).contains(x),
{
    let v: Vec<String> = names_in(dump);
    crate::order::sorted_set(&v)
}

/// The switch that decides whether the newer components exist at all: what the
/// property says, or nothing where it says nothing.
pub fn switch(value: Option<&str>) -> (r: Option<String>)
    ensures
        crate::text::some_text(r) == (match value {
            Some(v) => if crate::words::trimmed(v@).len() == 0 {
                None
            } else {
                Some(crate::words::trimmed(v@))
            },
            None => None,
        }),
{
    match value {
        Some(v) => {
            let t: String = crate::words::trim(v);
            if t.as_str().unicode_len() == 0 {
                None
            } else {
                Some(t)
            }
        },
        None => None,
    }
}

// ---------------------------------------------------------------- verify

/// What explains declared components that did not register.
#[derive(Debug)]
pub struct Shortfall {
    /// Nothing is missing.
    pub complete: bool,
    pub codec2_disabled: bool,
    /// Components gated on the device type, with their domain.
    pub domain_gated: Vec<(String, String)>,
    pub unexplained: Vec<String>,
}

/// A format without any decoder.
#[derive(Debug)]
pub struct Dead {
    pub label: String,
    /// Its only component is gated on the device type.
    pub gated: bool,
}

/// A decoder that is declared and registered.
pub open spec fn live(c: CodecView, names: Seq<Seq<char>>) -> bool {
    !c.encoder && names.contains(c.name)
}

/// The live decoders among the first `n` declared.
pub open spec fn live_decoders(v: Seq<CodecView>, names: Seq<Seq<char>>, n: int) -> Seq<CodecView>
    decreases n,
{
    if n <= 0 {
        Seq::empty()
    } else if live(v[n - 1], names) {
        live_decoders(v, names, n - 1).push(v[n - 1])
    } else {
        live_decoders(v, names, n - 1)
    }
}

/// The labels of the dead formats among the first `n` that are gated, or not.
pub open spec fn dead_labels(d: Seq<Dead>, gated: bool, n: int) -> Seq<Seq<char>>
    decreases n,
{
    if n <= 0 {
        Seq::empty()
    } else if d[n - 1].gated == gated {
        dead_labels(d, gated, n - 1).push(d[n - 1].label@)
    } else {
        dead_labels(d, gated, n - 1)
    }
}

/// A wrapped note, indented.
pub open spec fn note(text: Seq<char>) -> Seq<Seq<char>> {
    crate::say::indented("      "@, crate::words::wrapped(text, WIDTH as int))
}

fn say_note(out: &mut Vec<String>, text: &str)
    ensures
        crate::text::texts(final(out)@) == crate::text::texts(old(out)@) + note(text@),
{
    let w: Vec<String> = crate::words::wrap(text, WIDTH);
    crate::say::put_indented(out, "      ", &w);
}

pub open spec fn codec_line(c: CodecView) -> Seq<char> {
    "      "@ + crate::say::padded(c.name, 28) + " "@ + c.label
}

pub open spec fn disabled_note() -> Seq<char> {
    "Every c2.android.* component the image declares is absent, and this one setting accounts for all of them. Waydroid sets it itself when it finds no HAL gralloc: Codec2's software components allocate graphic buffers through gralloc, and on the fallback path that allocation fails. The switch trades newer decoders for ones that work."@
}

pub open spec fn gated_note() -> Seq<char> {
    "AOSP registers these only where the domain applies — a TV, or a device with telephony. Their absence here is the design working, not a fault."@
}

pub open spec fn lost_note() -> Seq<char> {
    "This is not a slow path, it is an absent one. Content in these formats does not play. The image declares a component for each of them, which is why reading the image alone does not show it."@
}

pub open spec fn expected_note() -> Seq<char> {
    "Its only component is gated on the device type, so the absence is expected here rather than a fault."@
}

/// Lines, if there is something to say.
pub open spec fn lines_if(there: bool, lines: Seq<Seq<char>>) -> Seq<Seq<char>> {
    if there {
        lines
    } else {
        Seq::empty()
    }
}

/// A domain-gated component in words.
pub open spec fn gate_line(g: (String, String)) -> Seq<char> {
    "      "@ + g.0@ + "  (domain=\""@ + g.1@ + "\")"@
}

/// The first twenty texts, indented.
pub open spec fn first_twenty(v: Seq<Seq<char>>) -> Seq<Seq<char>> {
    crate::say::indented(
        "      "@,
        if v.len() < 20 {
            v
        } else {
            v.take(20)
        },
    )
}

pub open spec fn complete_lines(s: Shortfall) -> Seq<Seq<char>> {
    lines_if(s.complete, seq!["\n  ✓ Every declared component was registered."@])
}

pub open spec fn disabled_lines(s: Shortfall) -> Seq<Seq<char>> {
    lines_if(
        s.codec2_disabled,
        seq!["\n  ✗ Codec2 is switched OFF: debug.stagefright.ccodec=0"@, ""@] + note(
            disabled_note(),
        ),
    )
}

pub open spec fn gated_lines(s: Shortfall) -> Seq<Seq<char>> {
    lines_if(
        s.domain_gated@.len() > 0,
        seq![
            "\n  · "@ + crate::text::decimal(s.domain_gated@.len())
                + " component(s) gated on the device type, absent by design:"@,
        ] + s.domain_gated@.map_values(|g: (String, String)| gate_line(g)) + note(gated_note()),
    )
}

pub open spec fn unexplained_lines(s: Shortfall) -> Seq<Seq<char>> {
    lines_if(
        s.unexplained@.len() > 0,
        seq![
            "\n  ✗ "@ + crate::text::decimal(s.unexplained@.len())
                + " declared component(s) did not register, and nothing here explains why:"@,
        ] + first_twenty(crate::text::texts(s.unexplained@)),
    )
}

/// What is said about components that did not register.
pub open spec fn shortfall_lines(s: Shortfall) -> Seq<Seq<char>> {
    complete_lines(s) + disabled_lines(s) + gated_lines(s) + unexplained_lines(s)
}

/// What is said about formats without any decoder.
pub open spec fn dead_lines(d: Seq<Dead>) -> Seq<Seq<char>> {
    let lost = dead_labels(d, false, d.len() as int);
    let gated = dead_labels(d, true, d.len() as int);
    lines_if(
        lost.len() > 0,
        seq!["\n  ✗ No decoder at all for: "@ + crate::words::joined(lost, ", "@)] + note(
            lost_note(),
        ),
    ) + lines_if(
        gated.len() > 0,
        seq!["\n  · No decoder for "@ + crate::words::joined(gated, ", "@) + " either."@] + note(
            expected_note(),
        ),
    )
}

/// What is declared against what is registered. The warning stands before the
/// list of decoders: a list of live decoders reads as good news, and on that
/// path it is not.
pub open spec fn verify_lines(
    declared: Seq<CodecView>,
    names: Seq<Seq<char>>,
    risk: Option<Seq<char>>,
    s: Shortfall,
    d: Seq<Dead>,
) -> Seq<Seq<char>> {
    let alive = live_decoders(declared, names, declared.len() as int);
    let warning: Seq<Seq<char>> = match risk {
        Some(w) => seq!["\n  ✗ WARNING"@] + note(w),
        None => Seq::empty(),
    };
    seq![
        "\n  Registered vs declared\n  "@ + crate::say::repeated('─', 66),
        "  registered by a running Android : "@ + crate::text::decimal(names.len()),
        "  declared in the image           : "@ + crate::text::decimal(declared.len()),
    ] + warning + seq![
        "  video decoders actually live    : "@ + crate::text::decimal(alive.len()),
    ] + alive.map_values(|c: CodecView| codec_line(c)) + shortfall_lines(s) + dead_lines(d) + seq![
        ""@,
    ]
}

fn pick_live(declared: &Vec<Codec>, names: &Vec<String>) -> (r: Vec<Codec>)
    ensures
        crate::video::codecs_of(r@) == live_decoders(
            crate::video::codecs_of(declared@),
            crate::text::texts(names@),
            declared@.len() as int,
        ),
{
    let ghost v = crate::video::codecs_of(declared@);
    let ghost t = crate::text::texts(names@);
    let mut out: Vec<Codec> = Vec::new();
    let mut i: usize = 0;
    assert(crate::video::codecs_of(out@) =~= Seq::<CodecView>::empty());
    while i < declared.len()
        invariant
            i <= declared@.len(),
            v == crate::video::codecs_of(declared@),
            t == crate::text::texts(names@),
            crate::video::codecs_of(out@) == live_decoders(v, t, i as int),
        decreases declared@.len() - i,
    {
        let c: &Codec = &declared[i];
        assert(v[i as int] == c@);
        if !c.encoder && crate::render::listed(names, c.name.as_str()) {
            let ghost before = crate::video::codecs_of(out@);
            out.push(c.clone());
            assert(crate::video::codecs_of(out@) =~= before.push(c@));
        }
        i = i + 1;
    }
    out
}

fn pick_dead(d: &Vec<Dead>, gated: bool) -> (r: Vec<String>)
    ensures
        crate::text::texts(r@) == dead_labels(d@, gated, d@.len() as int),
{
    let mut out: Vec<String> = crate::say::page();
    let mut i: usize = 0;
    while i < d.len()
        invariant
            i <= d@.len(),
            crate::text::texts(out@) == dead_labels(d@, gated, i as int),
        decreases d@.len() - i,
    {
        if d[i].gated == gated {
            crate::say::put(&mut out, d[i].label.clone());
        }
        i = i + 1;
    }
    out
}

fn say_codecs(out: &mut Vec<String>, v: &Vec<Codec>)
    ensures
        crate::text::texts(final(out)@) == crate::text::texts(old(out)@)
            + crate::video::codecs_of(v@).map_values(|c: CodecView| codec_line(c)),
{
    let ghost before = crate::text::texts(out@);
    let ghost all = crate::video::codecs_of(v@).map_values(|c: CodecView| codec_line(c));
    let mut i: usize = 0;
    assert(before + all.take(0) =~= before);
    while i < v.len()
        invariant
            i <= v@.len(),
            all == crate::video::codecs_of(v@).map_values(|c: CodecView| codec_line(c)),
            crate::text::texts(out@) == before + all.take(i as int),
        decreases v@.len() - i,
    {
        let c: &Codec = &v[i];
        let name: String = crate::say::pad(c.name.as_str(), 28);
        assert(all[i as int] == codec_line(c@));
        crate::say::put(
            out,
            crate::say::cat4("      ", name.as_str(), " ", c.label.as_str()),
        );
        assert(before + all.take(i + 1) =~= (before + all.take(i as int)).push(all[i as int]));
        i = i + 1;
    }
    assert(all.take(i as int) =~= all);
}

fn say_gates(out: &mut Vec<String>, v: &Vec<(String, String)>)
    ensures
        crate::text::texts(final(out)@) == crate::text::texts(old(out)@) + v@.map_values(
            |g: (String, String)| gate_line(g),
        ),
{
    let ghost before = crate::text::texts(out@);
    let ghost all = v@.map_values(|g: (String, String)| gate_line(g));
    let mut i: usize = 0;
    assert(before + all.take(0) =~= before);
    while i < v.len()
        invariant
            i <= v@.len(),
            all == v@.map_values(|g: (String, String)| gate_line(g)),
            crate::text::texts(out@) == before + all.take(i as int),
        decreases v@.len() - i,
    {
        let g: &(String, String) = &v[i];
        assert(all[i as int] == gate_line(*g));
        crate::say::put(
            out,
            crate::say::cat5("      ", g.0.as_str(), "  (domain=\"", g.1.as_str(), "\")"),
        );
        assert(before + all.take(i + 1) =~= (before + all.take(i as int)).push(all[i as int]));
        i = i + 1;
    }
    assert(all.take(i as int) =~= all);
}

fn say_twenty(out: &mut Vec<String>, v: &Vec<String>)
    ensures
        crate::text::texts(final(out)@) == crate::text::texts(old(out)@) + first_twenty(
            crate::text::texts(v@),
        ),
{
    let ghost before = crate::text::texts(out@);
    let ghost all = first_twenty(crate::text::texts(v@));
    let mut i: usize = 0;
    assert(before + all.take(0) =~= before);
    while i < v.len() && i < 20
        invariant
            i <= v@.len(),
            i <= 20,
            all == first_twenty(crate::text::texts(v@)),
            crate::text::texts(out@) == before + all.take(i as int),
        decreases v@.len() - i,
    {
        assert(crate::text::texts(v@)[i as int] == v@[i as int]@);
        assert(all[i as int] == "      "@ + v@[i as int]@);
        crate::say::put(out, crate::say::cat2("      ", v[i].as_str()));
        assert(before + all.take(i + 1) =~= (before + all.take(i as int)).push(all[i as int]));
        i = i + 1;
    }
    assert(all.take(i as int) =~= all);
}

fn say_disabled(out: &mut Vec<String>, s: &Shortfall)
    ensures
        crate::text::texts(final(out)@) == crate::text::texts(old(out)@) + disabled_lines(*s),
{
    let ghost before = crate::text::texts(out@);
    if s.codec2_disabled {
        crate::say::say(out, "\n  ✗ Codec2 is switched OFF: debug.stagefright.ccodec=0");
        crate::say::say(out, "");
        say_note(
            out,
            "Every c2.android.* component the image declares is absent, and this one setting accounts for all of them. Waydroid sets it itself when it finds no HAL gralloc: Codec2's software components allocate graphic buffers through gralloc, and on the fallback path that allocation fails. The switch trades newer decoders for ones that work.",
        );
    }
    assert(crate::text::texts(out@) =~= before + disabled_lines(*s));
}

fn say_gated(out: &mut Vec<String>, s: &Shortfall)
    ensures
        crate::text::texts(final(out)@) == crate::text::texts(old(out)@) + gated_lines(*s),
{
    let ghost before = crate::text::texts(out@);
    if s.domain_gated.len() > 0 {
        let n: String = crate::say::count(s.domain_gated.len() as u64);
        crate::say::put(
            out,
            crate::say::cat3(
                "\n  · ",
                n.as_str(),
                " component(s) gated on the device type, absent by design:",
            ),
        );
        say_gates(out, &s.domain_gated);
        say_note(
            out,
            "AOSP registers these only where the domain applies — a TV, or a device with telephony. Their absence here is the design working, not a fault.",
        );
    }
    assert(crate::text::texts(out@) =~= before + gated_lines(*s));
}

fn say_unexplained(out: &mut Vec<String>, s: &Shortfall)
    ensures
        crate::text::texts(final(out)@) == crate::text::texts(old(out)@) + unexplained_lines(*s),
{
    let ghost before = crate::text::texts(out@);
    if s.unexplained.len() > 0 {
        let n: String = crate::say::count(s.unexplained.len() as u64);
        crate::say::put(
            out,
            crate::say::cat3(
                "\n  ✗ ",
                n.as_str(),
                " declared component(s) did not register, and nothing here explains why:",
            ),
        );
        say_twenty(out, &s.unexplained);
    }
    assert(crate::text::texts(out@) =~= before + unexplained_lines(*s));
}

fn say_shortfall(out: &mut Vec<String>, s: &Shortfall)
    ensures
        crate::text::texts(final(out)@) == crate::text::texts(old(out)@) + shortfall_lines(*s),
{
    let ghost before = crate::text::texts(out@);
    if s.complete {
        crate::say::say(out, "\n  ✓ Every declared component was registered.");
    }
    assert(crate::text::texts(out@) =~= before + complete_lines(*s));
    say_disabled(out, s);
    say_gated(out, s);
    say_unexplained(out, s);
    assert(crate::text::texts(out@) =~= before + shortfall_lines(*s));
}

fn say_dead(out: &mut Vec<String>, d: &Vec<Dead>)
    ensures
        crate::text::texts(final(out)@) == crate::text::texts(old(out)@) + dead_lines(d@),
{
    let ghost before = crate::text::texts(out@);
    let lost: Vec<String> = pick_dead(d, false);
    let gated: Vec<String> = pick_dead(d, true);
    assert(lost@.len() == crate::text::texts(lost@).len());
    assert(gated@.len() == crate::text::texts(gated@).len());
    if lost.len() > 0 {
        let list: String = crate::words::join(&lost, ", ");
        crate::say::put(out, crate::say::cat2("\n  ✗ No decoder at all for: ", list.as_str()));
        say_note(
            out,
            "This is not a slow path, it is an absent one. Content in these formats does not play. The image declares a component for each of them, which is why reading the image alone does not show it.",
        );
    }
    if gated.len() > 0 {
        let list: String = crate::words::join(&gated, ", ");
        crate::say::put(
            out,
            crate::say::cat3("\n  · No decoder for ", list.as_str(), " either."),
        );
        say_note(
            out,
            "Its only component is gated on the device type, so the absence is expected here rather than a fault.",
        );
    }
    assert(crate::text::texts(out@) =~= before + dead_lines(d@));
}

/// What is declared against what is registered.
pub fn verify(
    declared: &Vec<Codec>,
    names: &Vec<String>,
    risk: Option<&str>,
    s: &Shortfall,
    d: &Vec<Dead>,
) -> (r: Vec<String>)
    ensures
        crate::text::texts(r@) == verify_lines(
            crate::video::codecs_of(declared@),
            crate::text::texts(names@),
            crate::text::maybe(risk),
            *s,
            d@,
        ),
{
    let mut out: Vec<String> = crate::say::page();
    let bar: String = crate::say::repeat('─', 66);
    crate::say::put(&mut out, crate::say::cat2("\n  Registered vs declared\n  ", bar.as_str()));
    let n: String = crate::say::count(names.len() as u64);
    crate::say::put(
        &mut out,
        crate::say::cat2("  registered by a running Android : ", n.as_str()),
    );
    let n: String = crate::say::count(declared.len() as u64);
    crate::say::put(
        &mut out,
        crate::say::cat2("  declared in the image           : ", n.as_str()),
    );
    if let Some(w) = risk {
        crate::say::say(&mut out, "\n  ✗ WARNING");
        say_note(&mut out, w);
    }
    let alive: Vec<Codec> = pick_live(declared, names);
    let n: String = crate::say::count(alive.len() as u64);
    crate::say::put(
        &mut out,
        crate::say::cat2("  video decoders actually live    : ", n.as_str()),
    );
    say_codecs(&mut out, &alive);
    say_shortfall(&mut out, s);
    say_dead(&mut out, d);
    crate::say::say(&mut out, "");
    assert(names@.len() == crate::text::texts(names@).len());
    assert(declared@.len() == crate::video::codecs_of(declared@).len());
    assert(alive@.len() == crate::video::codecs_of(alive@).len());
    assert(crate::text::texts(out@) =~= verify_lines(
        crate::video::codecs_of(declared@),
        crate::text::texts(names@),
        crate::text::maybe(risk),
        *s,
        d@,
    ));
    out
}

// ---------------------------------------------------------------- status

/// How bad a finding is.
#[derive(Clone, Copy, Debug, PartialEq, Eq, Structural)]
pub enum Severity {
    Fine,
    Gap,
    Broken,
    NoLever,
    Undetermined,
}

impl Severity {
    pub open spec fn mark(self) -> Seq<char> {
        match self {
            Severity::Fine => "✓"@,
            Severity::Gap => "!"@,
            Severity::Broken => "✗"@,
            Severity::NoLever => "-"@,
            Severity::Undetermined => "·"@,
        }
    }

    fn sign(self) -> (r: &'static str)
        ensures
            r@ == self.mark(),
    {
        match self {
            Severity::Fine => "✓",
            Severity::Gap => "!",
            Severity::Broken => "✗",
            Severity::NoLever => "-",
            Severity::Undetermined => "·",
        }
    }
}

/// One finding.
#[derive(Debug)]
pub struct Finding {
    pub severity: Severity,
    pub title: String,
    pub detail: String,
}

/// How many findings of each kind there are.
#[derive(Clone, Copy, Debug, PartialEq, Eq, Structural)]
pub struct Tally {
    pub fine: u64,
    pub gaps: u64,
    pub broken: u64,
    pub no_lever: u64,
    pub undetermined: u64,
}

pub open spec fn kind_text(k: CodecKind) -> Seq<char> {
    match k {
        CodecKind::Hardware => "hardware"@,
        CodecKind::Software => "CPU"@,
        CodecKind::Unknown => "?"@,
    }
}

/// The decoders among the first `n`.
pub open spec fn decoders(v: Seq<CodecView>, n: int) -> Seq<CodecView>
    decreases n,
{
    if n <= 0 {
        Seq::empty()
    } else if v[n - 1].encoder {
        decoders(v, n - 1)
    } else {
        decoders(v, n - 1).push(v[n - 1])
    }
}

/// How many of the first `n` run in hardware.
pub open spec fn hardware(v: Seq<CodecView>, n: int) -> nat
    decreases n,
{
    if n <= 0 {
        0
    } else {
        hardware(v, n - 1) + (if v[n - 1].kind == CodecKind::Hardware {
            1nat
        } else {
            0
        })
    }
}

pub open spec fn decoder_line(c: CodecView) -> Seq<char> {
    "        "@ + crate::say::padded(c.name, 28) + " "@ + crate::say::padded(c.label, 14) + (" "@
        + kind_text(c.kind))
}

pub open spec fn guest_lines(v: Seq<CodecView>) -> Seq<Seq<char>> {
    if v.len() == 0 {
        seq!["      no codec declaration could be read"@]
    } else {
        let d = decoders(v, v.len() as int);
        seq![
            "      "@ + crate::text::decimal(d.len()) + " video decoders, "@ + crate::text::decimal(
                hardware(d, d.len() as int),
            ) + " of them hardware\n"@,
        ] + d.map_values(|c: CodecView| decoder_line(c))
    }
}

/// What is said about the host. `labels` are the names of the formats it was
/// measured to decode, in order.
pub open spec fn host_lines(
    drivers: Seq<Seq<char>>,
    measured: bool,
    labels: Seq<Seq<char>>,
) -> Seq<Seq<char>> {
    let installed = if drivers.len() == 0 {
        "      no VA-API driver installed"@
    } else {
        "      VA-API drivers : "@ + crate::words::joined(drivers, ", "@)
    };
    let decodes: Seq<Seq<char>> = if !measured {
        seq![
            "      hardware decode: NOT DETERMINED"@,
            "      ffmpeg is needed to probe this. Nothing is claimed"@,
            "      about the host until it can be measured."@,
        ]
    } else if labels.len() == 0 {
        seq!["      hardware decode: none — measured, not assumed"@]
    } else {
        seq![
            "      hardware decode: "@ + crate::words::joined(labels, ", "@),
            "      (measured by decoding a clip through each decoder)"@,
        ]
    };
    seq![installed] + decodes
}

pub open spec fn finding_lines(f: Finding) -> Seq<Seq<char>> {
    seq!["\n  "@ + f.severity.mark() + " "@ + f.title@] + note(f.detail@)
}

/// The lines of the first `n` findings.
pub open spec fn findings_lines(f: Seq<Finding>, n: int) -> Seq<Seq<char>>
    decreases n,
{
    if n <= 0 {
        Seq::empty()
    } else {
        findings_lines(f, n - 1) + finding_lines(f[n - 1])
    }
}

pub open spec fn tally_line(t: Tally) -> Seq<char> {
    "  "@ + crate::text::decimal(t.fine as nat) + " fine · "@ + crate::text::decimal(
        t.gaps as nat,
    ) + (" gaps · "@ + crate::text::decimal(t.broken as nat) + " broken · "@
        + crate::text::decimal(t.no_lever as nat) + (" no lever · "@ + crate::text::decimal(
        t.undetermined as nat,
    ) + " undetermined\n"@))
}

/// The report on both sides of the container boundary.
pub open spec fn status_lines(
    codecs: Seq<CodecView>,
    drivers: Seq<Seq<char>>,
    measured: bool,
    labels: Seq<Seq<char>>,
    f: Seq<Finding>,
    t: Tally,
) -> Seq<Seq<char>> {
    let bar = crate::say::repeated('─', 64);
    let gap: Seq<Seq<char>> = if t.gaps > 0 {
        seq![
            "  A gap is a FACT: the format is decoded on the CPU while the"@,
            "  host was measured to decode it in hardware. What that COSTS"@,
            "  is a separate question:\n"@,
            "      liw video probe\n"@,
        ]
    } else {
        Seq::empty()
    };
    seq!["\n  Video decode\n  "@ + bar, "\n  IN ANDROID"@] + guest_lines(codecs) + seq![
        "\n  ON THE HOST"@,
    ] + host_lines(drivers, measured, labels) + seq!["\n  "@ + bar] + findings_lines(
        f,
        f.len() as int,
    ) + seq!["\n  "@ + bar, tally_line(t)] + gap
}

fn kind_name(k: CodecKind) -> (r: &'static str)
    ensures
        r@ == kind_text(k),
{
    match k {
        CodecKind::Hardware => "hardware",
        CodecKind::Software => "CPU",
        CodecKind::Unknown => "?",
    }
}

fn say_guest(out: &mut Vec<String>, codecs: &Vec<Codec>)
    ensures
        crate::text::texts(final(out)@) == crate::text::texts(old(out)@) + guest_lines(
            crate::video::codecs_of(codecs@),
        ),
{
    let ghost before = crate::text::texts(out@);
    let ghost v = crate::video::codecs_of(codecs@);
    if codecs.len() == 0 {
        crate::say::say(out, "      no codec declaration could be read");
        assert(crate::text::texts(out@) =~= before + guest_lines(v));
        return;
    }
    let mut d: Vec<Codec> = Vec::new();
    let mut i: usize = 0;
    assert(crate::video::codecs_of(d@) =~= Seq::<CodecView>::empty());
    while i < codecs.len()
        invariant
            i <= codecs@.len(),
            v == crate::video::codecs_of(codecs@),
            crate::video::codecs_of(d@) == decoders(v, i as int),
        decreases codecs@.len() - i,
    {
        assert(v[i as int] == codecs@[i as int]@);
        if !codecs[i].encoder {
            let ghost was = crate::video::codecs_of(d@);
            d.push(codecs[i].clone());
            assert(crate::video::codecs_of(d@) =~= was.push(v[i as int]));
        }
        i = i + 1;
    }
    let ghost dv = crate::video::codecs_of(d@);
    let mut hw: u64 = 0;
    let mut i: usize = 0;
    while i < d.len()
        invariant
            i <= d@.len(),
            dv == crate::video::codecs_of(d@),
            hw == hardware(dv, i as int),
            hw <= i,
        decreases d@.len() - i,
    {
        assert(dv[i as int] == d@[i as int]@);
        if d[i].kind == CodecKind::Hardware {
            hw = hw + 1;
        }
        i = i + 1;
    }
    let a: String = crate::say::count(d.len() as u64);
    let b: String = crate::say::count(hw);
    crate::say::put(
        out,
        crate::say::cat5(
            "      ",
            a.as_str(),
            " video decoders, ",
            b.as_str(),
            " of them hardware\n",
        ),
    );
    let ghost head = crate::text::texts(out@);
    let ghost all = dv.map_values(|c: CodecView| decoder_line(c));
    let mut i: usize = 0;
    assert(head + all.take(0) =~= head);
    while i < d.len()
        invariant
            i <= d@.len(),
            dv == crate::video::codecs_of(d@),
            all == dv.map_values(|c: CodecView| decoder_line(c)),
            crate::text::texts(out@) == head + all.take(i as int),
        decreases d@.len() - i,
    {
        let c: &Codec = &d[i];
        let name: String = crate::say::pad(c.name.as_str(), 28);
        let label: String = crate::say::pad(c.label.as_str(), 14);
        let tail: String = crate::say::cat2(" ", kind_name(c.kind));
        assert(dv[i as int] == c@);
        crate::say::put(
            out,
            crate::say::cat5("        ", name.as_str(), " ", label.as_str(), tail.as_str()),
        );
        assert(all[i as int] == decoder_line(c@));
        assert(head + all.take(i + 1) =~= (head + all.take(i as int)).push(all[i as int]));
        i = i + 1;
    }
    assert(all.take(i as int) =~= all);
    assert(crate::text::texts(out@) =~= before + guest_lines(v));
}

fn say_host(out: &mut Vec<String>, drivers: &Vec<String>, measured: bool, labels: &Vec<String>)
    ensures
        crate::text::texts(final(out)@) == crate::text::texts(old(out)@) + host_lines(
            crate::text::texts(drivers@),
            measured,
            crate::text::texts(labels@),
        ),
{
    let ghost before = crate::text::texts(out@);
    assert(drivers@.len() == crate::text::texts(drivers@).len());
    assert(labels@.len() == crate::text::texts(labels@).len());
    if drivers.len() == 0 {
        crate::say::say(out, "      no VA-API driver installed");
    } else {
        let list: String = crate::words::join(drivers, ", ");
        crate::say::put(out, crate::say::cat2("      VA-API drivers : ", list.as_str()));
    }
    if !measured {
        crate::say::say(out, "      hardware decode: NOT DETERMINED");
        crate::say::say(out, "      ffmpeg is needed to probe this. Nothing is claimed");
        crate::say::say(out, "      about the host until it can be measured.");
    } else if labels.len() == 0 {
        crate::say::say(out, "      hardware decode: none — measured, not assumed");
    } else {
        let list: String = crate::words::join(labels, ", ");
        crate::say::put(out, crate::say::cat2("      hardware decode: ", list.as_str()));
        crate::say::say(out, "      (measured by decoding a clip through each decoder)");
    }
    assert(crate::text::texts(out@) =~= before + host_lines(
        crate::text::texts(drivers@),
        measured,
        crate::text::texts(labels@),
    ));
}

fn say_finding(out: &mut Vec<String>, f: &Finding)
    ensures
        crate::text::texts(final(out)@) == crate::text::texts(old(out)@) + finding_lines(*f),
{
    let ghost before = crate::text::texts(out@);
    crate::say::put(
        out,
        crate::say::cat4("\n  ", f.severity.sign(), " ", f.title.as_str()),
    );
    say_note(out, f.detail.as_str());
    assert(crate::text::texts(out@) =~= before + finding_lines(*f));
}

fn tally_text(t: Tally) -> (r: String)
    ensures
        r@ == tally_line(t),
{
    let a: String = crate::say::count(t.fine);
    let b: String = crate::say::count(t.gaps);
    let c: String = crate::say::count(t.broken);
    let d: String = crate::say::count(t.no_lever);
    let e: String = crate::say::count(t.undetermined);
    let last: String = crate::say::cat3(" no lever · ", e.as_str(), " undetermined\n");
    let tail: String = crate::say::cat5(
        " gaps · ",
        c.as_str(),
        " broken · ",
        d.as_str(),
        last.as_str(),
    );
    crate::say::cat5("  ", a.as_str(), " fine · ", b.as_str(), tail.as_str())
}

/// The report on both sides of the container boundary.
pub fn status(
    codecs: &Vec<Codec>,
    drivers: &Vec<String>,
    measured: bool,
    labels: &Vec<String>,
    f: &Vec<Finding>,
    t: Tally,
) -> (r: Vec<String>)
    ensures
        crate::text::texts(r@) == status_lines(
            crate::video::codecs_of(codecs@),
            crate::text::texts(drivers@),
            measured,
            crate::text::texts(labels@),
            f@,
            t,
        ),
{
    let mut out: Vec<String> = crate::say::page();
    let bar: String = crate::say::repeat('─', 64);
    crate::say::put(&mut out, crate::say::cat2("\n  Video decode\n  ", bar.as_str()));
    crate::say::say(&mut out, "\n  IN ANDROID");
    say_guest(&mut out, codecs);
    crate::say::say(&mut out, "\n  ON THE HOST");
    say_host(&mut out, drivers, measured, labels);
    crate::say::put(&mut out, crate::say::cat2("\n  ", bar.as_str()));
    let ghost head = crate::text::texts(out@);
    let mut i: usize = 0;
    assert(head + findings_lines(f@, 0) =~= head);
    while i < f.len()
        invariant
            i <= f@.len(),
            crate::text::texts(out@) == head + findings_lines(f@, i as int),
        decreases f@.len() - i,
    {
        say_finding(&mut out, &f[i]);
        assert(crate::text::texts(out@) =~= head + findings_lines(f@, i + 1));
        i = i + 1;
    }
    crate::say::put(&mut out, crate::say::cat2("\n  ", bar.as_str()));
    crate::say::put(&mut out, tally_text(t));
    if t.gaps > 0 {
        crate::say::say(&mut out, "  A gap is a FACT: the format is decoded on the CPU while the");
        crate::say::say(&mut out, "  host was measured to decode it in hardware. What that COSTS");
        crate::say::say(&mut out, "  is a separate question:\n");
        crate::say::say(&mut out, "      liw video probe\n");
    }
    assert(crate::text::texts(out@) =~= status_lines(
        crate::video::codecs_of(codecs@),
        crate::text::texts(drivers@),
        measured,
        crate::text::texts(labels@),
        f@,
        t,
    ));
    out
}

/// A decoder is live if it is declared, is no encoder and was registered; all of
/// those are shown, in order, and no other.
pub proof fn law_live_decoders_are_registered(v: Seq<CodecView>, names: Seq<Seq<char>>)
    ensures
        live_decoders(v, names, v.len() as int) == v.filter(
            |c: CodecView| !c.encoder && names.contains(c.name),
        ),
{
    lemma_live(v, names, v.len() as int);
    assert(v.take(v.len() as int) =~= v);
}

proof fn lemma_live(v: Seq<CodecView>, names: Seq<Seq<char>>, n: int)
    requires
        0 <= n <= v.len(),
    ensures
        live_decoders(v, names, n) == v.take(n).filter(
            |c: CodecView| !c.encoder && names.contains(c.name),
        ),
    decreases n,
{
    let alive = |c: CodecView| !c.encoder && names.contains(c.name);
    reveal(Seq::filter);
    if n == 0 {
        assert(v.take(0).filter(alive) =~= Seq::<CodecView>::empty());
    } else {
        lemma_live(v, names, n - 1);
        assert(v.take(n).drop_last() =~= v.take(n - 1));
        assert(v.take(n).last() == v[n - 1]);
    }
}

/// Decoders are the codecs that are no encoders; those in hardware are counted as
/// they are.
pub proof fn law_decoders_are_counted(v: Seq<CodecView>)
    ensures
        decoders(v, v.len() as int) == v.filter(|c: CodecView| !c.encoder),
        hardware(v, v.len() as int) == v.filter(
            |c: CodecView| c.kind == CodecKind::Hardware,
        ).len(),
{
    lemma_decoders(v, v.len() as int);
    assert(v.take(v.len() as int) =~= v);
}

proof fn lemma_decoders(v: Seq<CodecView>, n: int)
    requires
        0 <= n <= v.len(),
    ensures
        decoders(v, n) == v.take(n).filter(|c: CodecView| !c.encoder),
        hardware(v, n) == v.take(n).filter(|c: CodecView| c.kind == CodecKind::Hardware).len(),
    decreases n,
{
    let own = |c: CodecView| !c.encoder;
    let hard = |c: CodecView| c.kind == CodecKind::Hardware;
    reveal(Seq::filter);
    if n == 0 {
        assert(v.take(0).filter(own) =~= Seq::<CodecView>::empty());
        assert(v.take(0).filter(hard) =~= Seq::<CodecView>::empty());
    } else {
        lemma_decoders(v, n - 1);
        assert(v.take(n).drop_last() =~= v.take(n - 1));
        assert(v.take(n).last() == v[n - 1]);
    }
}

/// The formats without a decoder are told apart by whether that is expected.
pub proof fn law_dead_formats_are_sorted(d: Seq<Dead>, gated: bool)
    ensures
        dead_labels(d, gated, d.len() as int) == d.filter(
            |x: Dead| x.gated == gated,
        ).map_values(|x: Dead| x.label@),
{
    lemma_dead(d, gated, d.len() as int);
    assert(d.take(d.len() as int) =~= d);
}

proof fn lemma_dead(d: Seq<Dead>, gated: bool, n: int)
    requires
        0 <= n <= d.len(),
    ensures
        dead_labels(d, gated, n) == d.take(n).filter(|x: Dead| x.gated == gated).map_values(
            |x: Dead| x.label@,
        ),
    decreases n,
{
    let own = |x: Dead| x.gated == gated;
    let name = |x: Dead| x.label@;
    reveal(Seq::filter);
    if n == 0 {
        assert(d.take(0).filter(own) =~= Seq::<Dead>::empty());
        assert(dead_labels(d, gated, 0) =~= d.take(0).filter(own).map_values(name));
    } else {
        lemma_dead(d, gated, n - 1);
        assert(d.take(n).drop_last() =~= d.take(n - 1));
        assert(d.take(n).last() == d[n - 1]);
        let before = d.take(n - 1).filter(own);
        if d[n - 1].gated == gated {
            assert(before.push(d[n - 1]).map_values(name) =~= before.map_values(name).push(
                d[n - 1].label@,
            ));
        }
    }
}

/// The marks of the findings are told apart.
pub proof fn law_severities_look_different(a: Severity, b: Severity)
    requires
        a.mark() == b.mark(),
    ensures
        a == b,
{
    reveal_strlit("✓");
    reveal_strlit("!");
    reveal_strlit("✗");
    reveal_strlit("-");
    reveal_strlit("·");
    assert("✓"@[0] == '✓' && "!"@[0] == '!' && "✗"@[0] == '✗' && "-"@[0] == '-' && "·"@[0] == '·');
}

/// Every finding stands in the report, with its mark, its title and its detail.
pub proof fn law_every_finding_is_reported(f: Seq<Finding>, k: int)
    requires
        0 <= k < f.len(),
    ensures
        crate::say::carries(findings_lines(f, f.len() as int), finding_lines(f[k])),
        crate::text::occurs(finding_lines(f[k])[0], f[k].title@),
        crate::text::occurs(finding_lines(f[k])[0], f[k].severity.mark()),
{
    lemma_findings(f, f.len() as int, k);
    let x = f[k];
    crate::text::lemma_occurs_behind("\n  "@ + x.severity.mark() + " "@, x.title@);
    crate::text::lemma_occurs_between("\n  "@, x.severity.mark(), " "@ + x.title@);
    assert("\n  "@ + x.severity.mark() + (" "@ + x.title@) =~= finding_lines(x)[0]);
}

proof fn lemma_findings(f: Seq<Finding>, n: int, k: int)
    requires
        0 <= k < n <= f.len(),
    ensures
        crate::say::carries(findings_lines(f, n), finding_lines(f[k])),
    decreases n,
{
    let before = findings_lines(f, n - 1);
    let own = finding_lines(f[n - 1]);
    crate::say::lemma_carries(before, own, finding_lines(f[k]));
    crate::say::lemma_carries(own, own, own);
    if k < n - 1 {
        lemma_findings(f, n - 1, k);
    }
}

/// What is named in a dump is a component's name and made of a name's letters.
pub proof fn law_names_are_component_names(s: Seq<char>, i: int, k: int)
    requires
        0 <= i <= s.len(),
        0 <= k < named_from(s, i).len(),
    ensures
        ({
            let w = named_from(s, i)[k];
            &&& crate::text::opens_with(w, "c2."@) || crate::text::opens_with(w, "OMX."@)
            &&& forall|j: int|
                0 <= j < w.len() ==> (crate::text::alphanumeric(#[trigger] w[j]) || w[j] == '.'
                    || w[j] == '_')
        }),
    decreases s.len() - i,
{
    lemma_piece(s, i);
    let e = piece_end(s, i);
    let w = s.subrange(i, e);
    let here: Seq<Seq<char>> = if component_name(w) {
        seq![w]
    } else {
        Seq::empty()
    };
    if k < here.len() {
        assert(named_from(s, i)[k] == w);
        assert forall|j: int| 0 <= j < w.len() implies (crate::text::alphanumeric(#[trigger] w[j])
            || w[j] == '.' || w[j] == '_') by {
            assert(name_char(s[i + j]));
        }
    } else {
        law_names_are_component_names(s, e + 1, k - here.len());
        assert(named_from(s, i)[k] == named_from(s, e + 1)[k - here.len()]);
    }
}

proof fn lemma_piece(s: Seq<char>, i: int)
    requires
        0 <= i <= s.len(),
    ensures
        i <= piece_end(s, i) <= s.len(),
        forall|j: int| i <= j < piece_end(s, i) ==> name_char(#[trigger] s[j]),
        piece_end(s, i) < s.len() ==> !name_char(s[piece_end(s, i)]),
    decreases s.len() - i,
{
    if i < s.len() && name_char(s[i]) {
        lemma_piece(s, i + 1);
    }
}

/// A component's name that stands by itself in a dump, with no letter of a name on
/// either side, is found.
pub proof fn law_every_component_is_found(s: Seq<char>, i: int, a: int, b: int)
    requires
        0 <= i <= a <= b <= s.len(),
        forall|j: int| a <= j < b ==> name_char(#[trigger] s[j]),
        a > i ==> !name_char(s[a - 1]),
        b < s.len() ==> !name_char(s[b]),
        component_name(s.subrange(a, b)),
    ensures
        named_from(s, i).contains(s.subrange(a, b)),
    decreases s.len() - i,
{
    lemma_piece(s, i);
    let e = piece_end(s, i);
    let w = s.subrange(i, e);
    let here: Seq<Seq<char>> = if component_name(w) {
        seq![w]
    } else {
        Seq::empty()
    };
    let x = s.subrange(a, b);
    reveal_strlit("c2.");
    reveal_strlit("OMX.");
    assert(x.len() > 0);
    if a == i {
        assert(e == b) by {
            if e < b {
                assert(name_char(s[e]));
            }
            if b < e {
                assert(name_char(s[b]));
            }
        }
        assert(named_from(s, i)[0] == x);
    } else {
        assert(e < a) by {
            if e >= a {
                assert(name_char(s[a - 1]));
            }
        }
        law_every_component_is_found(s, e + 1, a, b);
        let rest = named_from(s, e + 1);
        let k = choose|k: int| 0 <= k < rest.len() && rest[k] == x;
        assert(named_from(s, i)[here.len() + k] == x);
    }
}

/// Of the host nothing is claimed that was not measured: what it decodes is told only
/// where it was, and that it decodes nothing only where nothing was found.
pub proof fn law_only_what_was_measured_is_claimed(
    drivers: Seq<Seq<char>>,
    measured: bool,
    labels: Seq<Seq<char>>,
)
    ensures
        ({
            let l = host_lines(drivers, measured, labels);
            &&& drivers.len() == 0 ==> l[0] == "      no VA-API driver installed"@
            &&& drivers.len() > 0 ==> l[0] == "      VA-API drivers : "@ + crate::words::joined(
                drivers,
                ", "@,
            )
            &&& !measured ==> l[1] == "      hardware decode: NOT DETERMINED"@
            &&& measured && labels.len() == 0 ==> l.len() == 2 && l[1]
                == "      hardware decode: none — measured, not assumed"@
            &&& measured && labels.len() > 0 ==> l[1] == "      hardware decode: "@
                + crate::words::joined(labels, ", "@)
        }),
{
}

/// What a running Android registered and what its image declares are both counted, and
/// every decoder that lives is listed, each on its line.
pub proof fn law_what_lives_is_listed(
    declared: Seq<CodecView>,
    names: Seq<Seq<char>>,
    s: Shortfall,
    d: Seq<Dead>,
)
    ensures
        ({
            let l = verify_lines(declared, names, None, s, d);
            let alive = live_decoders(declared, names, declared.len() as int);
            let n = alive.len() as int;
            &&& crate::text::closes_with(l[1], crate::text::decimal(names.len()))
            &&& crate::text::closes_with(l[2], crate::text::decimal(declared.len()))
            &&& crate::text::closes_with(l[3], crate::text::decimal(alive.len()))
            &&& l.len() >= 4 + n
            &&& forall|i: int|
                0 <= i < n ==> crate::text::occurs(#[trigger] l[4 + i], alive[i].name)
                    && crate::text::closes_with(l[4 + i], alive[i].label)
        }),
{
    let l = verify_lines(declared, names, None, s, d);
    let alive = live_decoders(declared, names, declared.len() as int);
    let n = alive.len() as int;
    lemma_ends("  registered by a running Android : "@, crate::text::decimal(names.len()));
    lemma_ends("  declared in the image           : "@, crate::text::decimal(declared.len()));
    lemma_ends("  video decoders actually live    : "@, crate::text::decimal(alive.len()));
    assert forall|i: int| 0 <= i < n implies crate::text::occurs(#[trigger] l[4 + i], alive[i].name)
        && crate::text::closes_with(l[4 + i], alive[i].label) by {
        let c = alive[i];
        assert(l[4 + i] == codec_line(c));
        lemma_codec_line(c);
    }
}

proof fn lemma_ends(a: Seq<char>, b: Seq<char>)
    ensures
        crate::text::closes_with(a + b, b),
{
    let k = a.len() as int;
    assert((a + b).subrange(k, k + b.len()) =~= b);
}

proof fn lemma_codec_line(c: CodecView)
    ensures
        crate::text::occurs(codec_line(c), c.name),
        crate::text::closes_with(codec_line(c), c.label),
{
    let fill = crate::say::repeated(' ', 28 - c.name.len());
    let l = codec_line(c);
    crate::text::lemma_occurs_between("      "@, c.name, fill + " "@ + c.label);
    assert(l =~= "      "@ + c.name + (fill + " "@ + c.label));
    let k = l.len() - c.label.len();
    assert(l.subrange(k, k + c.label.len()) =~= c.label);
}

/// Every count of the tally stands before the word for it.
pub proof fn law_the_tally_counts_each_kind(t: Tally)
    ensures
        crate::text::occurs(tally_line(t), crate::text::decimal(t.fine as nat) + " fine · "@),
        crate::text::occurs(tally_line(t), crate::text::decimal(t.gaps as nat) + " gaps · "@),
        crate::text::occurs(tally_line(t), crate::text::decimal(t.broken as nat) + " broken · "@),
        crate::text::occurs(
            tally_line(t),
            crate::text::decimal(t.no_lever as nat) + " no lever · "@,
        ),
        crate::text::occurs(
            tally_line(t),
            crate::text::decimal(t.undetermined as nat) + " undetermined\n"@,
        ),
{
    let a = crate::text::decimal(t.fine as nat) + " fine · "@;
    let b = crate::text::decimal(t.gaps as nat) + " gaps · "@;
    let c = crate::text::decimal(t.broken as nat) + " broken · "@;
    let d = crate::text::decimal(t.no_lever as nat) + " no lever · "@;
    let e = crate::text::decimal(t.undetermined as nat) + " undetermined\n"@;
    let h = "  "@;
    let l = tally_line(t);
    assert(l =~= h + a + b + c + d + e);
    lemma_five_parts(h, a, b, c, d, e);
    crate::text::lemma_occurs_between(h, a, b + c + d + e);
    crate::text::lemma_occurs_between(h + a, b, c + d + e);
    crate::text::lemma_occurs_between(h + a + b, c, d + e);
    crate::text::lemma_occurs_between(h + a + b + c, d, e);
    crate::text::lemma_occurs_behind(h + a + b + c + d, e);
}

proof fn lemma_five_parts(
    h: Seq<char>,
    a: Seq<char>,
    b: Seq<char>,
    c: Seq<char>,
    d: Seq<char>,
    e: Seq<char>,
)
    ensures
        h + a + b + c + d + e == h + a + (b + c + d + e),
        h + a + b + c + d + e == (h + a) + b + (c + d + e),
        h + a + b + c + d + e == (h + a + b) + c + (d + e),
{
    assert(h + a + b + c + d + e =~= h + a + (b + c + d + e));
    assert(h + a + b + c + d + e =~= (h + a) + b + (c + d + e));
    assert(h + a + b + c + d + e =~= (h + a + b) + c + (d + e));
}

} // verus!
