//! Picking artwork for a game.
//!
//! A package is a source of candidates, never an answer: the largest image in
//! it may well be a glyph or an advertisement. A person looks at the shortlist
//! and says which one is the game.

use vstd::prelude::*;
use vstd::string::*;

verus! {

/// The most candidates that are listed.
pub const SHORTLIST: usize = 12;

/// One image inside a package.
#[derive(Debug)]
pub struct Candidate {
    pub width: u32,
    pub height: u32,
    pub bytes: u64,
    /// Its place in the package.
    pub entry: String,
}

/// The extension of an entry, given its name in small letters.
pub open spec fn extension_spec(low: Seq<char>) -> Seq<char> {
    if crate::text::closes_with(low, ".webp"@) {
        "webp"@
    } else {
        "png"@
    }
}

/// The extension of an entry, given its name in small letters.
pub fn extension_of(low: &str) -> (r: &'static str)
    ensures
        r@ == extension_spec(low@),
{
    if crate::text::ends_with(low, ".webp") {
        "webp"
    } else {
        "png"
    }
}

/// The extension to extract an entry under. It comes from the entry, not from
/// the package name, which is full of dots.
pub fn extension(entry: &str) -> (r: &'static str)
    ensures
        r@ == extension_spec(crate::text::lowercase(entry@)),
{
    let low: String = crate::text::to_lowercase(entry);
    extension_of(low.as_str())
}

/// What is asked for: a candidate by its number, or a file.
#[derive(Debug)]
pub enum Choice {
    Candidate(usize),
    File(String),
}

/// What is asked for: a number is a candidate, anything else a file.
pub fn choice(what: &str) -> (r: Choice)
    ensures
        match crate::words::number_within(what@, usize::MAX as nat) {
            Some(n) => r matches Choice::Candidate(k) && k == n,
            None => r matches Choice::File(f) && f@ == what@,
        },
{
    match crate::words::parse_within(what, usize::MAX as u64) {
        Some(n) => Choice::Candidate(n as usize),
        None => Choice::File(what.to_owned()),
    }
}

/// What is said of a number that names no candidate.
pub fn no_candidate(n: usize, package: &str) -> (r: String)
    ensures
        r@ == "no candidate ["@ + crate::text::decimal(n as nat) + "] — `liw art list "@ + package@
            + "`"@,
{
    let k: String = crate::say::count(n as u64);
    crate::say::cat5("no candidate [", k.as_str(), "] — `liw art list ", package, "`")
}

pub open spec fn candidate_line(i: int, c: Candidate) -> Seq<char> {
    "  ["@ + crate::text::decimal(i as nat) + "] "@ + (crate::say::padded_left(
        crate::text::decimal(c.width as nat),
        5,
    ) + "x"@ + crate::say::padded(crate::text::decimal(c.height as nat), 5)) + (" "@
        + crate::say::padded_left(crate::text::decimal((c.bytes / 1024) as nat), 7) + " KB  "@
        + c.entry@)
}

fn candidate_text(i: usize, c: &Candidate) -> (r: String)
    ensures
        r@ == candidate_line(i as int, *c),
{
    let n: String = crate::say::count(i as u64);
    let w: String = crate::say::count(c.width as u64);
    let h: String = crate::say::count(c.height as u64);
    let k: String = crate::say::count(c.bytes / 1024);
    let w: String = crate::say::pad_left(w.as_str(), 5);
    let h: String = crate::say::pad(h.as_str(), 5);
    let k: String = crate::say::pad_left(k.as_str(), 7);
    let size: String = crate::say::cat3(w.as_str(), "x", h.as_str());
    let tail: String = crate::say::cat4(" ", k.as_str(), " KB  ", c.entry.as_str());
    crate::say::cat5("  [", n.as_str(), "] ", size.as_str(), tail.as_str())
}

/// The shortlist, a line each.
pub open spec fn shortlist(c: Seq<Candidate>) -> Seq<Seq<char>> {
    Seq::new(
        if c.len() < SHORTLIST {
            c.len()
        } else {
            SHORTLIST as nat
        },
        |i: int| candidate_line(i, c[i]),
    )
}

/// What is listed for a package with `apks` package files: the artwork it has,
/// and the candidates.
pub open spec fn list_lines(
    package: Seq<char>,
    apks: nat,
    current: Option<Seq<char>>,
    c: Seq<Candidate>,
) -> Seq<Seq<char>> {
    if apks == 0 {
        seq![
            "No APK found for '"@ + package + "'."@,
            "Waydroid keeps them under ~/.local/share/waydroid/data/app —"@,
            "a system app that ships with the image has none there."@,
        ]
    } else {
        let now: Seq<Seq<char>> = match current {
            Some(p) => seq!["Current: "@ + p],
            None => Seq::empty(),
        };
        let head = seq!["APKs   : "@ + crate::text::decimal(apks)] + now;
        if c.len() == 0 {
            head + seq![
                ""@,
                "No plausible artwork inside. Point at your own image instead:"@,
                "  liw art use "@ + package + " /path/to/picture.png"@,
            ]
        } else {
            head + seq![
                ""@,
                "Candidates — LOOK before choosing; APKs are full of ad assets:"@,
            ] + shortlist(c) + seq![
                ""@,
                "Preview them all, then pick one:"@,
                "  liw art dump "@ + package + " /tmp/"@ + package + "-art"@,
                "  liw art use  "@ + package + " 0"@,
            ]
        }
    }
}

/// What is listed for a package.
pub fn list(package: &str, apks: usize, current: Option<&str>, c: &Vec<Candidate>) -> (r: Vec<
    String,
>)
    ensures
        crate::text::texts(r@) == list_lines(
            package@,
            apks as nat,
            crate::text::maybe(current),
            c@,
        ),
{
    let mut out: Vec<String> = crate::say::page();
    if apks == 0 {
        crate::say::put(&mut out, crate::say::cat3("No APK found for '", package, "'."));
        crate::say::say(&mut out, "Waydroid keeps them under ~/.local/share/waydroid/data/app —");
        crate::say::say(&mut out, "a system app that ships with the image has none there.");
        assert(crate::text::texts(out@) =~= list_lines(
            package@,
            apks as nat,
            crate::text::maybe(current),
            c@,
        ));
        return out;
    }
    let n: String = crate::say::count(apks as u64);
    crate::say::put(&mut out, crate::say::cat2("APKs   : ", n.as_str()));
    if let Some(p) = current {
        crate::say::put(&mut out, crate::say::cat2("Current: ", p));
    }
    crate::say::say(&mut out, "");
    if c.len() == 0 {
        crate::say::say(&mut out, "No plausible artwork inside. Point at your own image instead:");
        crate::say::put(
            &mut out,
            crate::say::cat3("  liw art use ", package, " /path/to/picture.png"),
        );
    } else {
        crate::say::say(
            &mut out,
            "Candidates — LOOK before choosing; APKs are full of ad assets:",
        );
        let ghost head = crate::text::texts(out@);
        let ghost all = shortlist(c@);
        let mut i: usize = 0;
        assert(head + all.take(0) =~= head);
        while i < c.len() && i < SHORTLIST
            invariant
                i <= c@.len(),
                i <= SHORTLIST,
                all == shortlist(c@),
                crate::text::texts(out@) == head + all.take(i as int),
            decreases c@.len() - i,
        {
            assert(all[i as int] == candidate_line(i as int, c@[i as int]));
            crate::say::put(&mut out, candidate_text(i, &c[i]));
            assert(head + all.take(i + 1) =~= (head + all.take(i as int)).push(all[i as int]));
            i = i + 1;
        }
        assert(all.take(i as int) =~= all);
        crate::say::say(&mut out, "");
        crate::say::say(&mut out, "Preview them all, then pick one:");
        crate::say::put(
            &mut out,
            crate::say::cat5("  liw art dump ", package, " /tmp/", package, "-art"),
        );
        crate::say::put(&mut out, crate::say::cat3("  liw art use  ", package, " 0"));
    }
    assert(crate::text::texts(out@) =~= list_lines(
        package@,
        apks as nat,
        crate::text::maybe(current),
        c@,
    ));
    out
}

/// The name that candidate number `i` is extracted under.
pub fn dump_name(i: usize, c: &Candidate) -> (r: String)
    ensures
        r@ == crate::text::decimal(i as nat) + "-"@ + (crate::text::decimal(c.width as nat) + "x"@
            + crate::text::decimal(c.height as nat)) + "."@ + extension_spec(
            crate::text::lowercase(c.entry@),
        ),
{
    let n: String = crate::say::count(i as u64);
    let w: String = crate::say::count(c.width as u64);
    let h: String = crate::say::count(c.height as u64);
    let size: String = crate::say::cat3(w.as_str(), "x", h.as_str());
    crate::say::cat5(n.as_str(), "-", size.as_str(), ".", extension(c.entry.as_str()))
}

/// At most twelve candidates are listed, from the first on, and the number in front of
/// each is the one that chooses it.
pub proof fn law_a_listed_number_chooses_its_candidate(c: Seq<Candidate>, i: int)
    requires
        0 <= i < shortlist(c).len(),
        c.len() <= usize::MAX,
    ensures
        shortlist(c).len() <= 12,
        shortlist(c).len() < 12 ==> shortlist(c).len() == c.len(),
        i < c.len(),
        crate::text::occurs(shortlist(c)[i], crate::text::decimal(i as nat)),
        crate::text::occurs(shortlist(c)[i], crate::text::decimal(c[i].width as nat)),
        crate::text::occurs(shortlist(c)[i], crate::text::decimal(c[i].height as nat)),
        crate::text::occurs(shortlist(c)[i], crate::text::decimal((c[i].bytes / 1024) as nat)),
        crate::text::closes_with(shortlist(c)[i], c[i].entry@),
        crate::words::number_within(crate::text::decimal(i as nat), usize::MAX as nat) == Some(
            i as nat,
        ),
{
    let x = c[i];
    let line = shortlist(c)[i];
    let n = crate::text::decimal(i as nat);
    let w = crate::text::decimal(x.width as nat);
    let h = crate::text::decimal(x.height as nat);
    let kb = crate::text::decimal((x.bytes / 1024) as nat);
    let before_w = "  ["@ + n + "] "@ + crate::say::repeated(' ', 5 - w.len());
    let before_h = before_w + w + "x"@;
    let before_kb = before_h + crate::say::padded(h, 5) + " "@ + crate::say::repeated(
        ' ',
        7 - kb.len(),
    );
    let before_entry = before_kb + kb + " KB  "@;
    assert(line =~= before_entry + x.entry@);
    crate::text::lemma_occurs_between(before_kb, kb, " KB  "@ + x.entry@);
    assert(line =~= before_kb + kb + (" KB  "@ + x.entry@));
    let behind_h = crate::say::repeated(' ', 5 - h.len()) + (" "@ + crate::say::padded_left(kb, 7)
        + " KB  "@ + x.entry@);
    crate::text::lemma_occurs_between(before_h, h, behind_h);
    assert(line =~= before_h + h + behind_h);
    let behind_w = "x"@ + h + behind_h;
    crate::text::lemma_occurs_between(before_w, w, behind_w);
    assert(line =~= before_w + w + behind_w);
    let behind_n = "] "@ + crate::say::padded_left(w, 5) + behind_w;
    crate::text::lemma_occurs_between("  ["@, n, behind_n);
    assert(line =~= "  ["@ + n + behind_n);
    let e = before_entry.len() as int;
    assert(line.subrange(e, e + x.entry@.len()) =~= x.entry@);
    crate::words::law_a_written_number_is_read(i as nat);
}

} // verus!
