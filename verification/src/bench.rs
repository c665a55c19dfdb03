//! Measuring frame timing: which layer to measure, and what to say about it.

use vstd::prelude::*;
use vstd::string::*;

verus! {

/// A layer that returned more frames than this is the one on screen.
pub const FEW_FRAMES: usize = 5;

/// Fewer intervals than this say nothing.
pub const ENOUGH_INTERVALS: usize = 30;

// ---------------------------------------------------------------- layer

/// A layer that no game draws into.
pub open spec fn not_a_surface(l: Seq<char>) -> bool {
    crate::text::occurs(l, "ActivityRecord"@) || crate::text::occurs(l, "Dim"@)
        || crate::text::occurs(l, "Blur"@) || crate::text::occurs(l, "Splash"@)
}

/// A layer that games present to.
pub open spec fn presents(l: Seq<char>) -> bool {
    crate::text::occurs(l, "BLAST"@) || crate::text::occurs(l, "SurfaceView"@)
}

/// Whether a layer may belong to the package, given both in small letters.
pub open spec fn fits_spec(layer: Seq<char>, low_layer: Seq<char>, low_package: Seq<char>) -> bool {
    layer.len() > 0 && crate::text::occurs(low_layer, low_package) && !not_a_surface(layer)
}

/// Whether a layer may belong to the package, given both in small letters.
pub fn layer_fits(layer: &str, low_layer: &str, low_package: &str) -> (r: bool)
    ensures
        r == fits_spec(layer@, low_layer@, low_package@),
{
    layer.unicode_len() > 0 && crate::text::contains(low_layer, low_package)
        && !crate::text::contains(layer, "ActivityRecord") && !crate::text::contains(layer, "Dim")
        && !crate::text::contains(layer, "Blur") && !crate::text::contains(layer, "Splash")
}

/// The layer of a line, if it may belong to the package.
pub open spec fn layer_of(line: Seq<char>, package: Seq<char>) -> Option<Seq<char>> {
    let l = crate::words::trimmed(line);
    if fits_spec(l, crate::text::lowercase(l), crate::text::lowercase(package)) {
        Some(l)
    } else {
        None
    }
}

/// The layers in the first `n` lines that may belong to the package, and that
/// games present to, or not.
pub open spec fn layers_in(l: Seq<Seq<char>>, package: Seq<char>, front: bool, n: int) -> Seq<
    Seq<char>,
>
    decreases n,
{
    if n <= 0 {
        Seq::empty()
    } else {
        let before = layers_in(l, package, front, n - 1);
        match layer_of(l[n - 1], package) {
            Some(x) => if presents(x) == front {
                before.push(x)
            } else {
                before
            },
            None => before,
        }
    }
}

/// The layers to try: those that games present to first.
pub open spec fn candidates_spec(list: Seq<char>, package: Seq<char>) -> Seq<Seq<char>> {
    let l = crate::words::lines_of(list);
    layers_in(l, package, true, l.len() as int) + layers_in(l, package, false, l.len() as int)
}

fn collect(l: &Vec<String>, package: &str, low_package: &str, front: bool) -> (r: Vec<String>)
    requires
        low_package@ == crate::text::lowercase(package@),
    ensures
        crate::text::texts(r@) == layers_in(
            crate::text::texts(l@),
            package@,
            front,
            l@.len() as int,
        ),
{
    let ghost t = crate::text::texts(l@);
    let mut out: Vec<String> = crate::say::page();
    let mut i: usize = 0;
    while i < l.len()
        invariant
            i <= l@.len(),
            t == crate::text::texts(l@),
            low_package@ == crate::text::lowercase(package@),
            crate::text::texts(out@) == layers_in(t, package@, front, i as int),
        decreases l@.len() - i,
    {
        assert(t[i as int] == l@[i as int]@);
        let x: String = crate::words::trim(l[i].as_str());
        let low: String = crate::text::to_lowercase(x.as_str());
        if layer_fits(x.as_str(), low.as_str(), low_package) {
            let shows: bool = crate::text::contains(x.as_str(), "BLAST") || crate::text::contains(
                x.as_str(),
                "SurfaceView",
            );
            if shows == front {
                crate::say::put(&mut out, x);
            }
        }
        i = i + 1;
    }
    out
}

/// The layers to try for a package, in what the compositor lists. Picking by
/// name alone gives the wrong one; each is probed for frames in this order.
pub fn layer_candidates(list: &str, package: &str) -> (r: Vec<String>)
    ensures
        crate::text::texts(r@) == candidates_spec(list@, package@),
{
    let l: Vec<String> = crate::words::lines(list);
    assert(crate::text::texts(l@).len() == l@.len());
    let low: String = crate::text::to_lowercase(package);
    let mut out: Vec<String> = collect(&l, package, low.as_str(), true);
    let rest: Vec<String> = collect(&l, package, low.as_str(), false);
    crate::say::put_all(&mut out, &rest);
    out
}

/// Whether a layer with so many frames is the one on screen.
pub fn is_on_screen(frames: usize) -> (r: bool)
    ensures
        r == (frames > FEW_FRAMES),
{
    frames > FEW_FRAMES
}

/// What is said when no layer had frames.
pub fn no_layer(package: &str) -> (r: String)
    ensures
        r@ == "'"@ + package@
            + "' için kare verisi dönen katman yok.\nOyun ön planda ve HAREKETLİ mi? Durgun ekran kare üretmez."@,
{
    crate::say::cat3(
        "'",
        package,
        "' için kare verisi dönen katman yok.\nOyun ön planda ve HAREKETLİ mi? Durgun ekran kare üretmez.",
    )
}

// ---------------------------------------------------------------- report

/// The frame figures of a run, as shown.
#[derive(Debug)]
pub struct Timing {
    pub intervals: usize,
    pub frames: usize,
    pub p50: String,
    pub p50_fps: String,
    pub p95: String,
    pub p99: String,
    pub p999: String,
    pub worst: String,
    pub mean: String,
    pub mean_fps: String,
    pub refresh: String,
    pub hz: String,
    pub jank15: usize,
    pub jank15_pct: String,
    pub jank2: usize,
    pub jank2_pct: String,
    pub coverage: String,
    /// The coverage is below sixty percent.
    pub low_coverage: bool,
}

/// A mean and a peak, as shown.
#[derive(Debug)]
pub struct Meter {
    pub mean: String,
    pub peak: String,
}

/// What the host's resources were used for.
#[derive(Debug)]
pub struct Meters {
    pub gpu: Meter,
    pub vram: Meter,
    pub cpu: Meter,
    pub ram: Meter,
    pub pressure: Meter,
}

/// A figure in milliseconds and the rate it means.
pub open spec fn rate_line(
    head: Seq<char>,
    ms: Seq<char>,
    rate: Seq<char>,
    unit: Seq<char>,
) -> Seq<char> {
    head + crate::say::padded_left(ms, 7) + " ms   -> "@ + crate::say::padded_left(rate, 6) + unit
}

pub open spec fn ms_line(head: Seq<char>, ms: Seq<char>) -> Seq<char> {
    head + crate::say::padded_left(ms, 7) + " ms"@
}

pub open spec fn jank_line(head: Seq<char>, n: usize, pct: Seq<char>) -> Seq<char> {
    head + crate::say::padded_left(crate::text::decimal(n as nat), 5) + "  (%"@ + pct + ")"@
}

pub open spec fn timing_lines(t: Timing) -> Seq<Seq<char>> {
    if t.intervals < ENOUGH_INTERVALS {
        seq![
            "Yeterli veri yok ("@ + crate::text::decimal(t.intervals as nat) + " aralık)."@,
            "Oyun ön planda ve hareketli miydi?"@,
        ]
    } else {
        let warning: Seq<Seq<char>> = if t.low_coverage {
            seq!["  UYARI: kapsam düşük — sayılar temsili olmayabilir"@]
        } else {
            Seq::empty()
        };
        seq![
            "KARE ZAMANLAMASI   ("@ + crate::text::decimal(t.intervals as nat) + " aralık, "@
                + crate::text::decimal(t.frames as nat) + " tekil kare)"@,
            rate_line("  p50            : "@, t.p50@, t.p50_fps@, " FPS"@),
            ms_line("  p95            : "@, t.p95@),
            ms_line("  p99            : "@, t.p99@),
            ms_line("  p99.9          : "@, t.p999@),
            ms_line("  en kötü        : "@, t.worst@),
            rate_line("  ortalama       : "@, t.mean@, t.mean_fps@, " FPS"@),
            rate_line("  refresh        : "@, t.refresh@, t.hz@, " Hz"@),
            jank_line("  jank >1.5x     : "@, t.jank15, t.jank15_pct@),
            jank_line("  jank >2x       : "@, t.jank2, t.jank2_pct@),
            "  yakalama kapsamı: %"@ + t.coverage@,
        ] + warning
    }
}

pub open spec fn meter_line(label: Seq<char>, m: Meter, unit: Seq<char>) -> Seq<char> {
    "  "@ + crate::say::padded(label, 14) + (": ort "@ + crate::say::padded_left(m.mean@, 8) + unit)
        + ("   tepe "@ + crate::say::padded_left(m.peak@, 8) + unit)
}

/// A line for each resource.
pub open spec fn meter_lines(m: Meters) -> Seq<Seq<char>> {
    seq![
        meter_line("GPU"@, m.gpu, "%"@),
        meter_line("VRAM"@, m.vram, "MB"@),
        meter_line("CPU (sistem)"@, m.cpu, "%"@),
        meter_line("RAM"@, m.ram, "MB"@),
        meter_line("mem.pressure"@, m.pressure, ""@),
    ]
}

/// The report of a run with `snaps` snapshots and `samples` host samples.
pub open spec fn report_lines(snaps: u32, t: Timing, samples: usize, meters: Meters) -> Seq<
    Seq<char>,
> {
    let rule = seq![crate::say::repeated('=', 58)];
    let host: Seq<Seq<char>> = if samples > 0 {
        seq![
            ""@,
            "HOST KAYNAK KULLANIMI ("@ + crate::text::decimal(samples as nat) + " örnek)"@,
        ] + meter_lines(meters)
    } else {
        Seq::empty()
    };
    seq![crate::text::decimal(snaps as nat) + " anlık görüntü alındı"@, ""@] + rule + timing_lines(t)
        + host + rule
}

fn rate(head: &str, ms: &str, per_second: &str, unit: &str) -> (r: String)
    ensures
        r@ == rate_line(head@, ms@, per_second@, unit@),
{
    let a: String = crate::say::pad_left(ms, 7);
    let b: String = crate::say::pad_left(per_second, 6);
    crate::say::cat5(head, a.as_str(), " ms   -> ", b.as_str(), unit)
}

fn millis(head: &str, ms: &str) -> (r: String)
    ensures
        r@ == ms_line(head@, ms@),
{
    let a: String = crate::say::pad_left(ms, 7);
    crate::say::cat3(head, a.as_str(), " ms")
}

fn jank(head: &str, n: usize, pct: &str) -> (r: String)
    ensures
        r@ == jank_line(head@, n, pct@),
{
    let count: String = crate::say::count(n as u64);
    let a: String = crate::say::pad_left(count.as_str(), 5);
    crate::say::cat5(head, a.as_str(), "  (%", pct, ")")
}

fn say_timing(out: &mut Vec<String>, t: &Timing)
    ensures
        crate::text::texts(final(out)@) == crate::text::texts(old(out)@) + timing_lines(*t),
{
    let ghost before = crate::text::texts(out@);
    let n: String = crate::say::count(t.intervals as u64);
    if t.intervals < ENOUGH_INTERVALS {
        crate::say::put(out, crate::say::cat3("Yeterli veri yok (", n.as_str(), " aralık)."));
        crate::say::say(out, "Oyun ön planda ve hareketli miydi?");
        assert(crate::text::texts(out@) =~= before + timing_lines(*t));
        return;
    }
    let f: String = crate::say::count(t.frames as u64);
    crate::say::put(
        out,
        crate::say::cat5(
            "KARE ZAMANLAMASI   (",
            n.as_str(),
            " aralık, ",
            f.as_str(),
            " tekil kare)",
        ),
    );
    crate::say::put(out, rate("  p50            : ", t.p50.as_str(), t.p50_fps.as_str(), " FPS"));
    crate::say::put(out, millis("  p95            : ", t.p95.as_str()));
    crate::say::put(out, millis("  p99            : ", t.p99.as_str()));
    crate::say::put(out, millis("  p99.9          : ", t.p999.as_str()));
    crate::say::put(out, millis("  en kötü        : ", t.worst.as_str()));
    crate::say::put(
        out,
        rate("  ortalama       : ", t.mean.as_str(), t.mean_fps.as_str(), " FPS"),
    );
    crate::say::put(out, rate("  refresh        : ", t.refresh.as_str(), t.hz.as_str(), " Hz"));
    crate::say::put(out, jank("  jank >1.5x     : ", t.jank15, t.jank15_pct.as_str()));
    crate::say::put(out, jank("  jank >2x       : ", t.jank2, t.jank2_pct.as_str()));
    crate::say::put(out, crate::say::cat2("  yakalama kapsamı: %", t.coverage.as_str()));
    if t.low_coverage {
        crate::say::say(out, "  UYARI: kapsam düşük — sayılar temsili olmayabilir");
    }
    assert(crate::text::texts(out@) =~= before + timing_lines(*t));
}

fn meter(label: &str, m: &Meter, unit: &str) -> (r: String)
    ensures
        r@ == meter_line(label@, *m, unit@),
{
    let label: String = crate::say::pad(label, 14);
    let mean: String = crate::say::pad_left(m.mean.as_str(), 8);
    let peak: String = crate::say::pad_left(m.peak.as_str(), 8);
    let a: String = crate::say::cat3(": ort ", mean.as_str(), unit);
    let b: String = crate::say::cat3("   tepe ", peak.as_str(), unit);
    crate::say::cat4("  ", label.as_str(), a.as_str(), b.as_str())
}

/// The report of a run.
pub fn report(snaps: u32, t: &Timing, samples: usize, meters: &Meters) -> (r: Vec<String>)
    ensures
        crate::text::texts(r@) == report_lines(snaps, *t, samples, *meters),
{
    let mut out: Vec<String> = crate::say::page();
    let n: String = crate::say::count(snaps as u64);
    crate::say::put(&mut out, crate::say::cat2(n.as_str(), " anlık görüntü alındı"));
    crate::say::say(&mut out, "");
    let rule: String = crate::say::repeat('=', 58);
    crate::say::say(&mut out, rule.as_str());
    say_timing(&mut out, t);
    if samples > 0 {
        crate::say::say(&mut out, "");
        let n: String = crate::say::count(samples as u64);
        crate::say::put(
            &mut out,
            crate::say::cat3("HOST KAYNAK KULLANIMI (", n.as_str(), " örnek)"),
        );
        crate::say::put(&mut out, meter("GPU", &meters.gpu, "%"));
        crate::say::put(&mut out, meter("VRAM", &meters.vram, "MB"));
        crate::say::put(&mut out, meter("CPU (sistem)", &meters.cpu, "%"));
        crate::say::put(&mut out, meter("RAM", &meters.ram, "MB"));
        crate::say::put(&mut out, meter("mem.pressure", &meters.pressure, ""));
    }
    crate::say::say(&mut out, rule.as_str());
    assert(crate::text::texts(out@) =~= report_lines(snaps, *t, samples, *meters));
    out
}

// ---------------------------------------------------------------- laws

/// A layer of the package that can hold its picture: named after it in any case, and
/// none of the layers that only stand around one.
pub open spec fn suits(layer: Seq<char>, package: Seq<char>) -> bool {
    &&& layer != Seq::<char>::empty()
    &&& crate::text::occurs(crate::text::lowercase(layer), crate::text::lowercase(package))
    &&& !crate::text::occurs(layer, "ActivityRecord"@)
    &&& !crate::text::occurs(layer, "Dim"@)
    &&& !crate::text::occurs(layer, "Blur"@)
    &&& !crate::text::occurs(layer, "Splash"@)
}

proof fn lemma_layers_in(l: Seq<Seq<char>>, package: Seq<char>, front: bool, n: int)
    requires
        0 <= n <= l.len(),
    ensures
        layers_in(l, package, front, n) == l.take(n).map_values(
            |x: Seq<char>| crate::words::trimmed(x),
        ).filter(|x: Seq<char>| suits(x, package) && presents(x) == front),
    decreases n,
{
    reveal(Seq::filter);
    let trim = |x: Seq<char>| crate::words::trimmed(x);
    let keep = |x: Seq<char>| suits(x, package) && presents(x) == front;
    if n > 0 {
        lemma_layers_in(l, package, front, n - 1);
        let t = l.take(n).map_values(trim);
        assert(t.drop_last() =~= l.take(n - 1).map_values(trim));
        let x = crate::words::trimmed(l[n - 1]);
        assert(t.last() == x);
        assert(x.len() > 0 <==> x != Seq::<char>::empty()) by {
            if x.len() == 0 {
                assert(x =~= Seq::<char>::empty());
            }
        }
        assert(layer_of(l[n - 1], package) == if suits(x, package) {
            Some(x)
        } else {
            None
        });
    } else {
        assert(l.take(n).map_values(trim) =~= Seq::<Seq<char>>::empty());
    }
}

/// The layers tried are those of the package, each line without the white space round it
/// and in the order of the list, but the ones that present frames before the others.
pub proof fn law_presenting_layers_are_tried_first(list: Seq<char>, package: Seq<char>)
    ensures
        ({
            let t = crate::words::lines_of(list).map_values(
                |x: Seq<char>| crate::words::trimmed(x),
            );
            candidates_spec(list, package) == t.filter(
                |x: Seq<char>|
                    suits(x, package) && (crate::text::occurs(x, "BLAST"@) || crate::text::occurs(
                        x,
                        "SurfaceView"@,
                    )),
            ) + t.filter(
                |x: Seq<char>|
                    suits(x, package) && !(crate::text::occurs(x, "BLAST"@) || crate::text::occurs(
                        x,
                        "SurfaceView"@,
                    )),
            )
        }),
{
    let l = crate::words::lines_of(list);
    let n = l.len() as int;
    lemma_layers_in(l, package, true, n);
    lemma_layers_in(l, package, false, n);
    assert(l.take(n) =~= l);
    let fore = |x: Seq<char>| suits(x, package) && presents(x) == true;
    let back = |x: Seq<char>| suits(x, package) && presents(x) == false;
    assert(fore =~= (|x: Seq<char>|
        suits(x, package) && (crate::text::occurs(x, "BLAST"@) || crate::text::occurs(
            x,
            "SurfaceView"@,
        ))));
    assert(back =~= (|x: Seq<char>|
        suits(x, package) && !(crate::text::occurs(x, "BLAST"@) || crate::text::occurs(
            x,
            "SurfaceView"@,
        ))));
}

proof fn lemma_opens(a: Seq<char>, b: Seq<char>)
    ensures
        crate::text::opens_with(a + b, a),
{
    assert((a + b).subrange(0, a.len() as int) =~= a);
}

proof fn lemma_one_by_one(
    a: Seq<char>,
    b: Seq<char>,
    c: Seq<char>,
    d: Seq<char>,
    e: Seq<char>,
    f: Seq<char>,
    g: Seq<char>,
)
    ensures
        a + (b + c) + d + (e + f) + g == (a + b) + (c + d) + (e + f + g),
        a + (b + c) + d + (e + f) + g == (a + b + c + d + e) + (f + g),
        a + (b + c) + d + (e + f) + g == a + (b + c + d + e + f + g),
{
    assert(a + (b + c) + d + (e + f) + g =~= (a + b) + (c + d) + (e + f + g));
    assert(a + (b + c) + d + (e + f) + g =~= (a + b + c + d + e) + (f + g));
    assert(a + (b + c) + d + (e + f) + g =~= a + (b + c + d + e + f + g));
}

proof fn lemma_rate_line(head: Seq<char>, ms: Seq<char>, rate: Seq<char>, unit: Seq<char>)
    ensures
        crate::text::opens_with(rate_line(head, ms, rate, unit), head),
        crate::text::occurs(rate_line(head, ms, rate, unit), ms + " ms   -> "@),
        crate::text::occurs(rate_line(head, ms, rate, unit), rate + unit),
{
    let mark = " ms   -> "@;
    let fill = crate::say::repeated(' ', 7 - ms.len());
    let gap = crate::say::repeated(' ', 6 - rate.len());
    lemma_one_by_one(head, fill, ms, mark, gap, rate, unit);
    crate::text::lemma_occurs_between(head + fill, ms + mark, gap + rate + unit);
    crate::text::lemma_occurs_behind(head + fill + ms + mark + gap, rate + unit);
    lemma_opens(head, fill + ms + mark + gap + rate + unit);
}

proof fn lemma_ms_parts(a: Seq<char>, b: Seq<char>, c: Seq<char>, d: Seq<char>)
    ensures
        a + (b + c) + d == (a + b) + (c + d),
        a + (b + c) + d == a + (b + c + d),
{
    assert(a + (b + c) + d =~= (a + b) + (c + d));
    assert(a + (b + c) + d =~= a + (b + c + d));
}

proof fn lemma_ms_line(head: Seq<char>, ms: Seq<char>)
    ensures
        crate::text::opens_with(ms_line(head, ms), head),
        crate::text::occurs(ms_line(head, ms), ms + " ms"@),
{
    let unit = " ms"@;
    let fill = crate::say::repeated(' ', 7 - ms.len());
    lemma_ms_parts(head, fill, ms, unit);
    crate::text::lemma_occurs_behind(head + fill, ms + unit);
    lemma_opens(head, fill + ms + unit);
}

proof fn lemma_jank_parts(
    a: Seq<char>,
    b: Seq<char>,
    c: Seq<char>,
    d: Seq<char>,
    e: Seq<char>,
    f: Seq<char>,
)
    ensures
        a + (b + c) + d + e + f == (a + b) + (c + d + e + f),
        a + (b + c) + d + e + f == a + (b + c + d + e + f),
{
    assert(a + (b + c) + d + e + f =~= (a + b) + (c + d + e + f));
    assert(a + (b + c) + d + e + f =~= a + (b + c + d + e + f));
}

proof fn lemma_jank_line(head: Seq<char>, n: usize, pct: Seq<char>)
    ensures
        crate::text::opens_with(jank_line(head, n, pct), head),
        crate::text::occurs(
            jank_line(head, n, pct),
            crate::text::decimal(n as nat) + "  (%"@ + pct + ")"@,
        ),
{
    let d = crate::text::decimal(n as nat);
    let fill = crate::say::repeated(' ', 5 - d.len());
    let open = "  (%"@;
    let close = ")"@;
    lemma_jank_parts(head, fill, d, open, pct, close);
    crate::text::lemma_occurs_behind(head + fill, d + open + pct + close);
    lemma_opens(head, fill + d + open + pct + close);
}

/// A line is headed so and has this in it.
pub open spec fn reads(line: Seq<char>, head: Seq<char>, value: Seq<char>) -> bool {
    crate::text::opens_with(line, head) && crate::text::occurs(line, value)
}

/// With thirty intervals or more every figure of the timing stands on the line that is
/// headed by its name; that the coverage is low is said exactly where it is.
pub proof fn law_every_figure_stands_by_its_name(t: Timing)
    requires
        t.intervals >= 30,
    ensures
        ({
            let l = timing_lines(t);
            &&& l.len() == if t.low_coverage {
                12int
            } else {
                11
            }
            &&& crate::text::occurs(l[0], crate::text::decimal(t.intervals as nat) + " aralık, "@)
            &&& crate::text::occurs(l[0], crate::text::decimal(t.frames as nat) + " tekil kare)"@)
            &&& reads(l[1], "  p50            : "@, t.p50@ + " ms   -> "@)
            &&& reads(l[1], "  p50            : "@, t.p50_fps@ + " FPS"@)
            &&& reads(l[2], "  p95            : "@, t.p95@ + " ms"@)
            &&& reads(l[3], "  p99            : "@, t.p99@ + " ms"@)
            &&& reads(l[4], "  p99.9          : "@, t.p999@ + " ms"@)
            &&& reads(l[5], "  en kötü        : "@, t.worst@ + " ms"@)
            &&& reads(l[6], "  ortalama       : "@, t.mean@ + " ms   -> "@)
            &&& reads(l[6], "  ortalama       : "@, t.mean_fps@ + " FPS"@)
            &&& reads(l[7], "  refresh        : "@, t.refresh@ + " ms   -> "@)
            &&& reads(l[7], "  refresh        : "@, t.hz@ + " Hz"@)
            &&& reads(
                l[8],
                "  jank >1.5x     : "@,
                crate::text::decimal(t.jank15 as nat) + "  (%"@ + t.jank15_pct@ + ")"@,
            )
            &&& reads(
                l[9],
                "  jank >2x       : "@,
                crate::text::decimal(t.jank2 as nat) + "  (%"@ + t.jank2_pct@ + ")"@,
            )
            &&& reads(l[10], "  yakalama kapsamı: %"@, t.coverage@)
        }),
{
    let l = timing_lines(t);
    let a = crate::text::decimal(t.intervals as nat);
    let b = crate::text::decimal(t.frames as nat);
    let first = "KARE ZAMANLAMASI   ("@;
    crate::text::lemma_occurs_between(first, a + " aralık, "@, b + " tekil kare)"@);
    assert(l[0] =~= first + (a + " aralık, "@) + (b + " tekil kare)"@));
    crate::text::lemma_occurs_behind(first + a + " aralık, "@, b + " tekil kare)"@);
    assert(l[0] =~= (first + a + " aralık, "@) + (b + " tekil kare)"@));
    lemma_rate_line("  p50            : "@, t.p50@, t.p50_fps@, " FPS"@);
    lemma_ms_line("  p95            : "@, t.p95@);
    lemma_ms_line("  p99            : "@, t.p99@);
    lemma_ms_line("  p99.9          : "@, t.p999@);
    lemma_ms_line("  en kötü        : "@, t.worst@);
    lemma_rate_line("  ortalama       : "@, t.mean@, t.mean_fps@, " FPS"@);
    lemma_rate_line("  refresh        : "@, t.refresh@, t.hz@, " Hz"@);
    lemma_jank_line("  jank >1.5x     : "@, t.jank15, t.jank15_pct@);
    lemma_jank_line("  jank >2x       : "@, t.jank2, t.jank2_pct@);
    lemma_opens("  yakalama kapsamı: %"@, t.coverage@);
    crate::text::lemma_occurs_behind("  yakalama kapsamı: %"@, t.coverage@);
}

/// With fewer than thirty intervals no figure is shown, only how many there were.
pub proof fn law_too_few_intervals_show_no_figure(t: Timing)
    requires
        t.intervals < 30,
    ensures
        timing_lines(t).len() == 2,
        crate::text::occurs(
            timing_lines(t)[0],
            crate::text::decimal(t.intervals as nat) + " aralık)."@,
        ),
{
    let a = crate::text::decimal(t.intervals as nat);
    let head = "Yeterli veri yok ("@;
    let tail = " aralık)."@;
    assert(timing_lines(t)[0] == head + a + tail);
    assert(head + a + tail == head + (a + tail)) by {
        assert(head + a + tail =~= head + (a + tail));
    }
    crate::text::lemma_occurs_behind(head, a + tail);
}

/// Every meter stands on the line of its own name: what it was on average, then at its
/// peak, both in its unit.
pub proof fn law_every_meter_stands_by_its_name(label: Seq<char>, m: Meter, unit: Seq<char>)
    ensures
        crate::text::opens_with(meter_line(label, m, unit), "  "@ + label),
        exists|a: Seq<char>, b: Seq<char>|
            meter_line(label, m, unit) == #[trigger] (a + (m.mean@ + unit + "   tepe "@) + b)
                && crate::text::closes_with(b, m.peak@ + unit),
{
    let l = meter_line(label, m, unit);
    let fill = crate::say::repeated(' ', 14 - label.len());
    let pad = crate::say::repeated(' ', 8 - m.mean@.len());
    let b = crate::say::padded_left(m.peak@, 8) + unit;
    let a = "  "@ + (label + fill) + ": ort "@ + pad;
    assert(l =~= a + (m.mean@ + unit + "   tepe "@) + b);
    let gap = crate::say::repeated(' ', 8 - m.peak@.len());
    let k = gap.len() as int;
    assert(b.subrange(k, k + (m.peak@ + unit).len()) =~= m.peak@ + unit);
    let head = "  "@ + label;
    lemma_opens(head, l.skip(head.len() as int));
    assert(l =~= head + l.skip(head.len() as int));
}

/// What the host used is told exactly where it was sampled, behind the timing; the five
/// meters stand under their own names.
pub proof fn law_the_host_is_told_where_it_was_sampled(
    snaps: u32,
    t: Timing,
    samples: usize,
    meters: Meters,
)
    ensures
        ({
            let l = report_lines(snaps, t, samples, meters);
            let n = timing_lines(t).len() as int;
            &&& crate::text::opens_with(l[0], crate::text::decimal(snaps as nat))
            &&& l.subrange(3, 3 + n) == timing_lines(t)
            &&& l.len() == n + 4 + if samples > 0 {
                7int
            } else {
                0
            }
            &&& samples > 0 ==> crate::text::occurs(
                l[n + 4],
                crate::text::decimal(samples as nat),
            )
            &&& samples > 0 ==> l.subrange(n + 5, n + 10) == seq![
                meter_line("GPU"@, meters.gpu, "%"@),
                meter_line("VRAM"@, meters.vram, "MB"@),
                meter_line("CPU (sistem)"@, meters.cpu, "%"@),
                meter_line("RAM"@, meters.ram, "MB"@),
                meter_line("mem.pressure"@, meters.pressure, ""@),
            ]
        }),
{
    let l = report_lines(snaps, t, samples, meters);
    let n = timing_lines(t).len() as int;
    lemma_opens(crate::text::decimal(snaps as nat), " anlık görüntü alındı"@);
    assert(l.subrange(3, 3 + n) =~= timing_lines(t));
    if samples > 0 {
        crate::text::lemma_occurs_between(
            "HOST KAYNAK KULLANIMI ("@,
            crate::text::decimal(samples as nat),
            " örnek)"@,
        );
        assert(l.subrange(n + 5, n + 10) =~= meter_lines(meters));
    }
}

} // verus!
