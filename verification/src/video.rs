//! What decodes video, where, and what it costs.
//!
//! Nothing is changed here. The codec configuration on both sides of the
//! container boundary is read and compared, and what was measured is told apart
//! from what was not.

use vstd::prelude::*;
use vstd::string::*;

verus! {

/// Where the container's system is mounted.
pub const ROOTFS: &'static str = "/var/lib/waydroid/rootfs";

/// Where the container's images are.
pub const IMAGES: &'static str = "/var/lib/waydroid/images";

/// How long a clip the cost measurement uses, in seconds. It has to be long
/// enough that decoding dominates start-up.
pub const CLIP_SECONDS: u64 = 10;

/// The width that running text is wrapped to.
pub const WIDTH: usize = 64;

// ---------------------------------------------------------------- guest

/// Which image a guest path lives in.
#[derive(Clone, Copy, Debug, PartialEq, Eq, Structural)]
pub enum Part {
    /// Mounted below the system.
    Vendor,
    /// The system itself.
    System,
}

/// A path without the slashes it starts with.
pub open spec fn without_slashes(s: Seq<char>) -> Seq<char>
    decreases s.len(),
{
    if s.len() > 0 && s[0] == '/' {
        without_slashes(s.drop_first())
    } else {
        s
    }
}

fn trim_slashes(s: &str) -> (r: String)
    ensures
        r@ == without_slashes(s@),
{
    let cs: Vec<char> = crate::text::chars_of(s);
    let mut i: usize = 0;
    assert(s@.skip(0) =~= s@);
    while i < cs.len() && cs[i] == '/'
        invariant
            cs@ == s@,
            i <= cs@.len(),
            without_slashes(s@) == without_slashes(s@.skip(i as int)),
        decreases cs@.len() - i,
    {
        assert(s@.skip(i as int).drop_first() =~= s@.skip(i + 1));
        i = i + 1;
    }
    let r: String = crate::text::string_of(&cs, i, cs.len());
    assert(r@ =~= s@.skip(i as int));
    r
}

impl Part {
    pub open spec fn image_path(self) -> Seq<char> {
        crate::store::joined(
            IMAGES@,
            match self {
                Part::Vendor => "vendor.img"@,
                Part::System => "system.img"@,
            },
        )
    }

    pub open spec fn mounted_path(self, inner: Seq<char>) -> Seq<char> {
        let inner = without_slashes(inner);
        match self {
            Part::Vendor => crate::store::joined(
                crate::store::joined(ROOTFS@, "vendor"@),
                inner,
            ),
            Part::System => crate::store::joined(ROOTFS@, inner),
        }
    }

    /// The image file.
    pub fn image(self) -> (r: String)
        ensures
            r@ == self.image_path(),
    {
        match self {
            Part::Vendor => crate::store::join_path(IMAGES, "vendor.img"),
            Part::System => crate::store::join_path(IMAGES, "system.img"),
        }
    }

    /// Where a path inside the image appears on the host when mounted.
    pub fn mounted(self, inner: &str) -> (r: String)
        ensures
            r@ == self.mounted_path(inner@),
    {
        let inner: String = trim_slashes(inner);
        match self {
            Part::Vendor => {
                let base: String = crate::store::join_path(ROOTFS, "vendor");
                crate::store::join_path(base.as_str(), inner.as_str())
            },
            Part::System => crate::store::join_path(ROOTFS, inner.as_str()),
        }
    }
}

/// The last word of a line, where there is one that names an entry.
pub open spec fn entry_of(line: Seq<char>) -> Option<Seq<char>> {
    let w = crate::words::words_of(line);
    if w.len() == 0 || w.last() == "."@ || w.last() == ".."@ {
        None
    } else {
        Some(w.last())
    }
}

/// The entries in the first `n` lines of a listing.
pub open spec fn entries_of(l: Seq<Seq<char>>, n: int) -> Seq<Seq<char>>
    decreases n,
{
    if n <= 0 {
        Seq::empty()
    } else {
        match entry_of(l[n - 1]) {
            Some(e) => entries_of(l, n - 1).push(e),
            None => entries_of(l, n - 1),
        }
    }
}

/// The entries in a directory listing read straight from an image.
pub fn list_guest(out: &str) -> (r: Vec<String>)
    ensures
        crate::text::texts(r@) == entries_of(
            crate::words::lines_of(out@),
            crate::words::lines_of(out@).len() as int,
        ),
{
    let l: Vec<String> = crate::words::lines(out);
    let ghost t = crate::words::lines_of(out@);
    let mut kept: Vec<String> = crate::say::page();
    let mut i: usize = 0;
    while i < l.len()
        invariant
            i <= l@.len(),
            t == crate::text::texts(l@),
            crate::text::texts(kept@) == entries_of(t, i as int),
        decreases l@.len() - i,
    {
        assert(t[i as int] == l@[i as int]@);
        let w: Vec<String> = crate::words::words(l[i].as_str());
        assert(crate::text::texts(w@).len() == w@.len());
        if w.len() > 0 {
            let last: &str = w[w.len() - 1].as_str();
            assert(crate::text::texts(w@).last() == last@);
            if !crate::text::same(last, ".") && !crate::text::same(last, "..") {
                crate::say::say(&mut kept, last);
            }
        }
        i = i + 1;
    }
    kept
}

/// How the guest's configuration can be read.
#[derive(Clone, Copy, Debug, PartialEq, Eq, Structural)]
pub enum Source {
    /// From the mounted system.
    Live,
    /// From the images.
    Image,
    Unreadable,
}

pub open spec fn source_spec(mounted: bool, image: bool) -> Source {
    if mounted {
        Source::Live
    } else if image {
        Source::Image
    } else {
        Source::Unreadable
    }
}

/// How the guest's configuration can be read: the mounted system is stronger
/// evidence than the images.
pub fn guest_source(mounted: bool, image: bool) -> (r: Source)
    ensures
        r == source_spec(mounted, image),
{
    if mounted {
        Source::Live
    } else if image {
        Source::Image
    } else {
        Source::Unreadable
    }
}

/// The file of the software codecs. Android prefers those, and the vendor's files
/// do not name them.
pub const SOFTWARE_CODECS: &'static str =
    "/system/apex/com.android.media.swcodec/etc/media_codecs.xml";

/// The files that declare codecs: the vendor's own, everything it pulls in, and
/// that of the software codecs.
pub open spec fn codec_files_of(pulled_in: Seq<Seq<char>>) -> Seq<(Part, Seq<char>)> {
    seq![(Part::Vendor, "/etc/media_codecs.xml"@)] + pulled_in.map_values(
        |f: Seq<char>| (Part::Vendor, "/etc/"@ + f),
    ) + seq![(Part::System, SOFTWARE_CODECS@)]
}

/// Files with their paths as plain text.
pub open spec fn files_of(v: Seq<(Part, String)>) -> Seq<(Part, Seq<char>)> {
    v.map_values(|f: (Part, String)| (f.0, f.1@))
}

/// The files that declare codecs, in the order they are read.
pub fn codec_files(pulled_in: &Vec<String>) -> (r: Vec<(Part, String)>)
    ensures
        files_of(r@) == codec_files_of(crate::text::texts(pulled_in@)),
{
    let mut out: Vec<(Part, String)> = Vec::new();
    out.push((Part::Vendor, "/etc/media_codecs.xml".to_owned()));
    let ghost t = crate::text::texts(pulled_in@);
    let ghost head = seq![(Part::Vendor, "/etc/media_codecs.xml"@)];
    let ghost all = t.map_values(|f: Seq<char>| (Part::Vendor, "/etc/"@ + f));
    let mut i: usize = 0;
    assert(files_of(out@) =~= head + all.take(0));
    while i < pulled_in.len()
        invariant
            i <= pulled_in@.len(),
            t == crate::text::texts(pulled_in@),
            all == t.map_values(|f: Seq<char>| (Part::Vendor, "/etc/"@ + f)),
            files_of(out@) == head + all.take(i as int),
        decreases pulled_in@.len() - i,
    {
        let ghost before = out@;
        let path: String = crate::say::cat2("/etc/", pulled_in[i].as_str());
        out.push((Part::Vendor, path));
        assert(all[i as int] == (Part::Vendor, path@));
        assert(files_of(out@) =~= files_of(before).push((Part::Vendor, path@)));
        assert(files_of(out@) =~= head + all.take(i + 1));
        i = i + 1;
    }
    assert(all.take(i as int) =~= all);
    let ghost before = out@;
    out.push((Part::System, SOFTWARE_CODECS.to_owned()));
    assert(files_of(out@) =~= files_of(before).push((Part::System, SOFTWARE_CODECS@)));
    assert(files_of(out@) =~= codec_files_of(t));
    out
}

// ---------------------------------------------------------------- codecs

/// Where a codec runs.
#[derive(Clone, Copy, Debug, PartialEq, Eq, Structural)]
pub enum CodecKind {
    Hardware,
    Software,
    Unknown,
}

/// One declared codec.
#[derive(Debug)]
pub struct Codec {
    pub name: String,
    pub mime: String,
    /// What the format is called.
    pub label: String,
    pub kind: CodecKind,
    pub encoder: bool,
}

/// A codec as plain text.
#[verifier::ext_equal]
pub struct CodecView {
    pub name: Seq<char>,
    pub mime: Seq<char>,
    pub label: Seq<char>,
    pub kind: CodecKind,
    pub encoder: bool,
}

impl View for Codec {
    type V = CodecView;

    open spec fn view(&self) -> CodecView {
        CodecView {
            name: self.name@,
            mime: self.mime@,
            label: self.label@,
            kind: self.kind,
            encoder: self.encoder,
        }
    }
}

impl Clone for Codec {
    fn clone(&self) -> (r: Codec)
        ensures
            r@ == self@,
    {
        Codec {
            name: self.name.clone(),
            mime: self.mime.clone(),
            label: self.label.clone(),
            kind: self.kind,
            encoder: self.encoder,
        }
    }
}

/// Codecs as plain text.
pub open spec fn codecs_of(v: Seq<Codec>) -> Seq<CodecView> {
    v.map_values(|c: Codec| c@)
}

/// The codecs among the first `n` that are about video.
pub open spec fn video_only(v: Seq<CodecView>, n: int) -> Seq<CodecView>
    decreases n,
{
    if n <= 0 {
        Seq::empty()
    } else if crate::text::opens_with(v[n - 1].mime, "video/"@) {
        video_only(v, n - 1).push(v[n - 1])
    } else {
        video_only(v, n - 1)
    }
}

/// The names of codecs.
pub open spec fn codec_names(v: Seq<CodecView>) -> Seq<Seq<char>> {
    v.map_values(|c: CodecView| c.name)
}

/// The codecs by name.
pub open spec fn by_codec_name(v: Seq<CodecView>) -> Seq<CodecView> {
    crate::order::named_order(codec_names(v), v.len() as int).map_values(|k: int| v[k])
}

/// The first `n` codecs, neighbours of one name and format taken once.
pub open spec fn without_repeats(v: Seq<CodecView>, n: int) -> Seq<CodecView>
    decreases n,
{
    if n <= 0 {
        Seq::empty()
    } else {
        let before = without_repeats(v, n - 1);
        let c = v[n - 1];
        if before.len() > 0 && before.last().name == c.name && before.last().mime == c.mime {
            before
        } else {
            before.push(c)
        }
    }
}

/// The video codecs, by name, each declaration once.
pub open spec fn tidied(v: Seq<CodecView>) -> Seq<CodecView> {
    let sorted = by_codec_name(video_only(v, v.len() as int));
    without_repeats(sorted, sorted.len() as int)
}

/// The video codecs among all that were declared, by name, each once. They are
/// declared in two places, so they come together in no order.
pub fn guest_codecs(all: &Vec<Codec>) -> (r: Vec<Codec>)
    ensures
        codecs_of(r@) == tidied(codecs_of(all@)),
{
    let ghost t = codecs_of(all@);
    let mut kept: Vec<Codec> = Vec::new();
    let mut i: usize = 0;
    assert(codecs_of(kept@) =~= Seq::<CodecView>::empty());
    while i < all.len()
        invariant
            i <= all@.len(),
            t == codecs_of(all@),
            codecs_of(kept@) == video_only(t, i as int),
        decreases all@.len() - i,
    {
        let c: &Codec = &all[i];
        assert(t[i as int] == c@);
        if crate::text::starts_with(c.mime.as_str(), "video/") {
            let ghost before = codecs_of(kept@);
            kept.push(c.clone());
            assert(codecs_of(kept@) =~= before.push(c@));
        }
        i = i + 1;
    }
    let ghost v = codecs_of(kept@);
    let mut names: Vec<String> = crate::say::page();
    let mut i: usize = 0;
    assert(crate::text::texts(names@) =~= codec_names(v).take(0));
    while i < kept.len()
        invariant
            i <= kept@.len(),
            v == codecs_of(kept@),
            crate::text::texts(names@) == codec_names(v).take(i as int),
        decreases kept@.len() - i,
    {
        assert(v[i as int] == kept@[i as int]@);
        crate::say::put(&mut names, kept[i].name.clone());
        assert(codec_names(v).take(i + 1) =~= codec_names(v).take(i as int).push(v[i as int].name));
        i = i + 1;
    }
    assert(codec_names(v).take(i as int) =~= codec_names(v));
    assert(names@.len() == crate::text::texts(names@).len());
    let order: Vec<usize> = crate::order::by_text(&names);
    let ghost sorted = by_codec_name(v);
    let mut out: Vec<Codec> = Vec::new();
    let mut i: usize = 0;
    assert(codecs_of(out@) =~= without_repeats(sorted, 0));
    while i < order.len()
        invariant
            i <= order@.len(),
            order@.len() == kept@.len(),
            v == codecs_of(kept@),
            forall|k: int| 0 <= k < order@.len() ==> #[trigger] order@[k] < kept@.len(),
            crate::order::places(order@) == crate::order::named_order(
                codec_names(v),
                v.len() as int,
            ),
            sorted == by_codec_name(v),
            codecs_of(out@) == without_repeats(sorted, i as int),
        decreases order@.len() - i,
    {
        let c: &Codec = &kept[order[i]];
        assert(crate::order::places(order@)[i as int] == order@[i as int] as int);
        assert(sorted[i as int] == v[order@[i as int] as int]);
        assert(v[order@[i as int] as int] == c@);
        let ghost before = codecs_of(out@);
        assert(before.len() == out@.len());
        let repeat: bool = if out.len() > 0 {
            let last: &Codec = &out[out.len() - 1];
            assert(before.last() == last@);
            crate::text::same(last.name.as_str(), c.name.as_str()) && crate::text::same(
                last.mime.as_str(),
                c.mime.as_str(),
            )
        } else {
            false
        };
        if !repeat {
            out.push(c.clone());
            assert(codecs_of(out@) =~= before.push(c@));
        }
        i = i + 1;
    }
    assert(sorted.len() == order@.len());
    out
}

// ---------------------------------------------------------------- host

/// One format and the hardware decoder that should handle it.
#[derive(Clone, Copy, Debug)]
pub struct Fixture {
    pub mime: &'static str,
    /// The name of its clip; the extension matters to the reader.
    pub file: &'static str,
    pub cuvid: &'static str,
}

impl Fixture {
    pub open spec fn is(self, mime: Seq<char>, file: Seq<char>, cuvid: Seq<char>) -> bool {
        self.mime@ == mime && self.file@ == file && self.cuvid@ == cuvid
    }
}

/// The formats the host is probed for.
pub fn fixtures() -> (r: Vec<Fixture>)
    ensures
        r@.len() == 6,
        r@[0].is("video/avc"@, "h264.mp4"@, "h264_cuvid"@),
        r@[1].is("video/hevc"@, "hevc.mp4"@, "hevc_cuvid"@),
        r@[2].is("video/x-vnd.on2.vp9"@, "vp9.webm"@, "vp9_cuvid"@),
        r@[3].is("video/x-vnd.on2.vp8"@, "vp8.webm"@, "vp8_cuvid"@),
        r@[4].is("video/av01"@, "av1.mp4"@, "av1_cuvid"@),
        r@[5].is("video/mp4v-es"@, "mpeg4.mp4"@, "mpeg4_cuvid"@),
{
    let mut v: Vec<Fixture> = Vec::new();
    v.push(Fixture { mime: "video/avc", file: "h264.mp4", cuvid: "h264_cuvid" });
    v.push(Fixture { mime: "video/hevc", file: "hevc.mp4", cuvid: "hevc_cuvid" });
    v.push(Fixture { mime: "video/x-vnd.on2.vp9", file: "vp9.webm", cuvid: "vp9_cuvid" });
    v.push(Fixture { mime: "video/x-vnd.on2.vp8", file: "vp8.webm", cuvid: "vp8_cuvid" });
    v.push(Fixture { mime: "video/av01", file: "av1.mp4", cuvid: "av1_cuvid" });
    v.push(Fixture { mime: "video/mp4v-es", file: "mpeg4.mp4", cuvid: "mpeg4_cuvid" });
    v
}

/// Which formats the host decodes in hardware.
#[derive(Debug)]
pub enum HostCaps {
    /// The probe could not run. That is not the same as decoding nothing.
    Unknown,
    Measured(Vec<String>),
}

/// The formats, if they were measured.
pub open spec fn caps_of(c: HostCaps) -> Option<Seq<Seq<char>>> {
    match c {
        HostCaps::Unknown => None,
        HostCaps::Measured(v) => Some(crate::text::texts(v@)),
    }
}

/// The outcome of probing one format.
#[derive(Clone, Copy, Debug, PartialEq, Eq, Structural)]
pub enum Trial {
    /// The clip could not be put in place.
    NotRun,
    Decoded,
    Failed,
}

/// The formats among the first `n` that were decoded.
pub open spec fn decoded(f: Seq<Fixture>, t: Seq<Trial>, n: int) -> Seq<Seq<char>>
    decreases n,
{
    if n <= 0 {
        Seq::empty()
    } else if t[n - 1] == Trial::Decoded {
        decoded(f, t, n - 1).push(f[n - 1].mime@)
    } else {
        decoded(f, t, n - 1)
    }
}

/// Some probe ran.
pub open spec fn some_ran(t: Seq<Trial>) -> bool {
    exists|i: int| 0 <= i < t.len() && #[trigger] t[i] != Trial::NotRun
}

/// What the probes of the formats come to. Without the tool nothing is known.
pub fn probe_host(have_tool: bool, formats: &Vec<Fixture>, trials: &Vec<Trial>) -> (r: HostCaps)
    requires
        formats@.len() == trials@.len(),
    ensures
        caps_of(r) == (if have_tool && some_ran(trials@) {
            Some(decoded(formats@, trials@, trials@.len() as int))
        } else {
            None
        }),
{
    if !have_tool {
        return HostCaps::Unknown;
    }
    let mut ok: Vec<String> = crate::say::page();
    let mut ran: bool = false;
    let mut i: usize = 0;
    while i < trials.len()
        invariant
            i <= trials@.len(),
            formats@.len() == trials@.len(),
            ran == (exists|k: int| 0 <= k < i && #[trigger] trials@[k] != Trial::NotRun),
            crate::text::texts(ok@) == decoded(formats@, trials@, i as int),
        decreases trials@.len() - i,
    {
        match trials[i] {
            Trial::NotRun => {},
            Trial::Decoded => {
                ran = true;
                crate::say::say(&mut ok, formats[i].mime);
            },
            Trial::Failed => {
                ran = true;
            },
        }
        i = i + 1;
    }
    if ran {
        HostCaps::Measured(ok)
    } else {
        HostCaps::Unknown
    }
}

/// A file name of a decode driver.
pub open spec fn driver_file(name: Seq<char>) -> bool {
    crate::text::closes_with(name, "_drv_video.so"@)
}

/// The drivers among the file names, each once, in order.
pub fn va_drivers(names: &Vec<String>) -> (r: Vec<String>)
    ensures
        crate::order::ascending(crate::text::texts(r@)),
        forall|x: Seq<char>|
            #![trigger crate::text::texts(r@).contains(x)]
            crate::text::texts(r@).contains(x) <==> driver_file(x) && crate::text::texts(
                names@,
            ).contains(x),
{
    let ghost t = crate::text::texts(names@);
    let mut kept: Vec<String> = crate::say::page();
    let mut i: usize = 0;
    while i < names.len()
        invariant
            i <= names@.len(),
            t == crate::text::texts(names@),
            forall|x: Seq<char>|
                #![trigger crate::text::texts(kept@).contains(x)]
                crate::text::texts(kept@).contains(x) <==> driver_file(x) && t.take(
                    i as int,
                ).contains(x),
        decreases names@.len() - i,
    {
        let ghost before = crate::text::texts(kept@);
        let ghost seen = t.take(i as int);
        let ghost more = t.take(i + 1);
        let ghost n = t[i as int];
        assert(n == names@[i as int]@);
        assert(more =~= seen.push(n));
        let fits: bool = crate::text::ends_with(names[i].as_str(), "_drv_video.so");
        if fits {
            crate::say::put(&mut kept, names[i].clone());
        }
        proof {
            let after = crate::text::texts(kept@);
            assert forall|x: Seq<char>| #![trigger after.contains(x)] after.contains(x) <==> driver_file(x) && more.contains(x) by {
                if after.contains(x) {
                    let k = choose|k: int| 0 <= k < after.len() && after[k] == x;
                    if k < before.len() {
                        assert(before[k] == x);
                        assert(before.contains(x));
                        let j = choose|j: int| 0 <= j < seen.len() && seen[j] == x;
                        assert(more[j] == x);
                    } else {
                        assert(x == n);
                        assert(more[i as int] == x);
                    }
                }
                if driver_file(x) && more.contains(x) {
                    let j = choose|j: int| 0 <= j < more.len() && more[j] == x;
                    if j < i {
                        assert(seen[j] == x);
                        assert(seen.contains(x));
                        assert(before.contains(x));
                        let k = choose|k: int| 0 <= k < before.len() && before[k] == x;
                        assert(after[k] == x);
                    } else {
                        assert(after[before.len() as int] == x);
                    }
                }
            }
        }
        i = i + 1;
    }
    assert(t.take(i as int) =~= t);
    let r: Vec<String> = crate::order::sorted_set(&kept);
    assert forall|x: Seq<char>|
        #![trigger crate::text::texts(r@).contains(x)]
        crate::text::texts(r@).contains(x) <==> driver_file(x) && crate::text::texts(
            names@,
        ).contains(x) by {
        assert(crate::text::texts(kept@).contains(x) <==> driver_file(x) && t.contains(x));
    }
    r
}

// ---------------------------------------------------------------- cost

/// Where a character last stands in the first `n`.
pub open spec fn last_at(s: Seq<char>, c: char, n: int) -> Option<int>
    decreases n,
{
    if n <= 0 {
        None
    } else if s[n - 1] == c {
        Some(n - 1)
    } else {
        last_at(s, c, n - 1)
    }
}

/// Where the kernel says of a process how long its reaped children ran: two
/// fields, of time in the program and in the kernel. The second field of all is a
/// name in brackets that may itself hold blanks, so fields are counted from behind
/// the last closing bracket.
pub open spec fn child_fields(stat: Seq<char>) -> Option<(Seq<char>, Seq<char>)> {
    match last_at(stat, ')', stat.len() as int) {
        Some(k) => {
            let w = crate::words::words_of(stat.skip(k + 1));
            if w.len() > 14 {
                Some((w[13], w[14]))
            } else {
                None
            }
        },
        None => None,
    }
}

/// The two fields that say how many ticks, a hundred to the second, this process's
/// reaped children have used so far, as they are written. They count every thread,
/// which wall time would hide.
pub fn child_cpu_fields(stat: &str) -> (r: Option<(String, String)>)
    ensures
        match r {
            Some((a, b)) => child_fields(stat@) == Some((a@, b@)),
            None => child_fields(stat@) is None,
        },
{
    let cs: Vec<char> = crate::text::chars_of(stat);
    let mut k: usize = cs.len();
    while k > 0 && cs[k - 1] != ')'
        invariant
            cs@ == stat@,
            k <= cs@.len(),
            last_at(stat@, ')', stat@.len() as int) == last_at(stat@, ')', k as int),
        decreases k,
    {
        k = k - 1;
    }
    if k == 0 {
        return None;
    }
    let tail: String = crate::text::string_of(&cs, k, cs.len());
    assert(tail@ =~= stat@.skip(k as int));
    let w: Vec<String> = crate::words::words(tail.as_str());
    assert(crate::text::texts(w@).len() == w@.len());
    if w.len() <= 14 {
        return None;
    }
    assert(crate::text::texts(w@)[13] == w@[13]@);
    assert(crate::text::texts(w@)[14] == w@[14]@);
    Some((w[13].clone(), w[14].clone()))
}

/// What the cost measurement encodes and then decodes both ways.
#[derive(Debug)]
pub struct CostCase {
    pub mime: &'static str,
    pub encoder: &'static str,
    pub software: &'static str,
    pub cuvid: &'static str,
    pub ext: &'static str,
    /// Encoder flags that keep the encode fast without changing the decode cost.
    pub flags: Vec<String>,
}

impl CostCase {
    pub open spec fn is(
        self,
        mime: Seq<char>,
        encoder: Seq<char>,
        software: Seq<char>,
        cuvid: Seq<char>,
        ext: Seq<char>,
        flags: Seq<Seq<char>>,
    ) -> bool {
        &&& self.mime@ == mime
        &&& self.encoder@ == encoder
        &&& self.software@ == software
        &&& self.cuvid@ == cuvid
        &&& self.ext@ == ext
        &&& crate::text::texts(self.flags@) == flags
    }
}

/// What the cost measurement runs on.
pub fn cost_cases() -> (r: Vec<CostCase>)
    ensures
        r@.len() == 2,
        r@[0].is(
            "video/avc"@,
            "libx264"@,
            "h264"@,
            "h264_cuvid"@,
            "mp4"@,
            seq!["-preset"@, "veryfast"@, "-b:v"@, "2M"@],
        ),
        r@[1].is(
            "video/x-vnd.on2.vp9"@,
            "libvpx-vp9"@,
            "vp9"@,
            "vp9_cuvid"@,
            "webm"@,
            seq!["-speed"@, "8"@, "-deadline"@, "realtime"@, "-b:v"@, "2M"@],
        ),
{
    let mut avc: Vec<String> = crate::say::page();
    crate::say::say(&mut avc, "-preset");
    crate::say::say(&mut avc, "veryfast");
    crate::say::say(&mut avc, "-b:v");
    crate::say::say(&mut avc, "2M");
    assert(crate::text::texts(avc@) =~= seq!["-preset"@, "veryfast"@, "-b:v"@, "2M"@]);
    let mut vp9: Vec<String> = crate::say::page();
    crate::say::say(&mut vp9, "-speed");
    crate::say::say(&mut vp9, "8");
    crate::say::say(&mut vp9, "-deadline");
    crate::say::say(&mut vp9, "realtime");
    crate::say::say(&mut vp9, "-b:v");
    crate::say::say(&mut vp9, "2M");
    assert(crate::text::texts(vp9@) =~= seq![
        "-speed"@,
        "8"@,
        "-deadline"@,
        "realtime"@,
        "-b:v"@,
        "2M"@,
    ]);
    let mut out: Vec<CostCase> = Vec::new();
    out.push(
        CostCase {
            mime: "video/avc",
            encoder: "libx264",
            software: "h264",
            cuvid: "h264_cuvid",
            ext: "mp4",
            flags: avc,
        },
    );
    out.push(
        CostCase {
            mime: "video/x-vnd.on2.vp9",
            encoder: "libvpx-vp9",
            software: "vp9",
            cuvid: "vp9_cuvid",
            ext: "webm",
            flags: vp9,
        },
    );
    out
}

/// The sizes the cost is measured at.
pub fn cost_sizes() -> (r: Vec<(u32, u32)>)
    ensures
        r@ == seq![(1280u32, 720u32), (1920u32, 1080u32)],
{
    vec![(1280, 720), (1920, 1080)]
}

/// A size as it is written.
pub open spec fn size_text(w: u32, h: u32) -> Seq<char> {
    crate::text::decimal(w as nat) + "x"@ + crate::text::decimal(h as nat)
}

/// The name of the clip that a case is measured with.
pub fn clip_name(c: &CostCase, w: u32, h: u32) -> (r: String)
    ensures
        r@ == "liw-cost-"@ + c.software@ + ("-"@ + size_text(w, h) + "."@ + c.ext@),
{
    let a: String = crate::say::count(w as u64);
    let b: String = crate::say::count(h as u64);
    let size: String = crate::say::cat3(a.as_str(), "x", b.as_str());
    let tail: String = crate::say::cat4("-", size.as_str(), ".", c.ext);
    crate::say::cat3("liw-cost-", c.software, tail.as_str())
}

/// What the encoder is called with.
pub open spec fn encode_args_of(c: CostCase, w: u32, h: u32, out: Seq<char>) -> Seq<Seq<char>> {
    seq![
        "-hide_banner"@,
        "-loglevel"@,
        "error"@,
        "-f"@,
        "lavfi"@,
        "-i"@,
        "testsrc=size="@ + size_text(w, h) + ":rate=30:duration="@ + crate::text::decimal(
            CLIP_SECONDS as nat,
        ),
        "-c:v"@,
        c.encoder@,
        "-pix_fmt"@,
        "yuv420p"@,
    ] + crate::text::texts(c.flags@) + seq!["-y"@, out]
}

/// What the encoder is called with to make the clip at `out`.
pub fn encode_args(c: &CostCase, w: u32, h: u32, out: &str) -> (r: Vec<String>)
    ensures
        crate::text::texts(r@) == encode_args_of(*c, w, h, out@),
{
    let a: String = crate::say::count(w as u64);
    let b: String = crate::say::count(h as u64);
    let size: String = crate::say::cat3(a.as_str(), "x", b.as_str());
    let length: String = crate::say::count(CLIP_SECONDS);
    let mut v: Vec<String> = crate::say::page();
    crate::say::say(&mut v, "-hide_banner");
    crate::say::say(&mut v, "-loglevel");
    crate::say::say(&mut v, "error");
    crate::say::say(&mut v, "-f");
    crate::say::say(&mut v, "lavfi");
    crate::say::say(&mut v, "-i");
    crate::say::put(
        &mut v,
        crate::say::cat4("testsrc=size=", size.as_str(), ":rate=30:duration=", length.as_str()),
    );
    crate::say::say(&mut v, "-c:v");
    crate::say::say(&mut v, c.encoder);
    crate::say::say(&mut v, "-pix_fmt");
    crate::say::say(&mut v, "yuv420p");
    crate::say::put_all(&mut v, &c.flags);
    crate::say::say(&mut v, "-y");
    crate::say::say(&mut v, out);
    assert(crate::text::texts(v@) =~= encode_args_of(*c, w, h, out@));
    v
}

/// What a decoder is called with to read a clip and write nothing.
pub fn decode_args(decoder: &str, clip: &str) -> (r: Vec<String>)
    ensures
        crate::text::texts(r@) == seq![
            "-hide_banner"@,
            "-loglevel"@,
            "error"@,
            "-c:v"@,
            decoder@,
            "-i"@,
            clip@,
            "-f"@,
            "null"@,
            "-"@,
        ],
{
    let mut v: Vec<String> = crate::say::page();
    crate::say::say(&mut v, "-hide_banner");
    crate::say::say(&mut v, "-loglevel");
    crate::say::say(&mut v, "error");
    crate::say::say(&mut v, "-c:v");
    crate::say::say(&mut v, decoder);
    crate::say::say(&mut v, "-i");
    crate::say::say(&mut v, clip);
    crate::say::say(&mut v, "-f");
    crate::say::say(&mut v, "null");
    crate::say::say(&mut v, "-");
    assert(crate::text::texts(v@) =~= seq![
        "-hide_banner"@,
        "-loglevel"@,
        "error"@,
        "-c:v"@,
        decoder@,
        "-i"@,
        clip@,
        "-f"@,
        "null"@,
        "-"@,
    ]);
    v
}

/// What measuring one clip came to: processor seconds and the share of one
/// core, as shown.
#[derive(Debug)]
pub enum Cost {
    NoEncoder,
    Failed,
    SoftwareOnly { seconds: String, share: String },
    Both { sw_seconds: String, sw_share: String, hw_seconds: String, hw_share: String },
}

/// One line of the cost table.
#[derive(Debug)]
pub struct CostRow {
    pub label: String,
    pub size: String,
    pub cost: Cost,
}

/// A figure and its share, in their columns.
pub open spec fn figure(seconds: Seq<char>, share: Seq<char>) -> Seq<char> {
    crate::say::padded_left(seconds, 9) + "s "@ + crate::say::padded_left(share, 6) + "%"@
}

pub open spec fn cost_line(r: CostRow) -> Seq<char> {
    let head = "  "@ + crate::say::padded(r.label@, 8) + " "@ + crate::say::padded_left(r.size@, 10)
        + "  "@;
    head + (match r.cost {
        Cost::NoEncoder => crate::say::padded_left("no encoder"@, 18),
        Cost::Failed => crate::say::padded_left("decode failed"@, 18),
        Cost::SoftwareOnly { seconds, share } => figure(seconds@, share@) + "  "@
            + crate::say::padded_left("not available"@, 18),
        Cost::Both { sw_seconds, sw_share, hw_seconds, hw_share } => figure(sw_seconds@, sw_share@)
            + "  "@ + figure(hw_seconds@, hw_share@),
    })
}

fn figure_text(seconds: &str, share: &str) -> (r: String)
    ensures
        r@ == figure(seconds@, share@),
{
    let a: String = crate::say::pad_left(seconds, 9);
    let b: String = crate::say::pad_left(share, 6);
    crate::say::cat4(a.as_str(), "s ", b.as_str(), "%")
}

/// One line of the cost table.
pub fn cost_row(r: &CostRow) -> (t: String)
    ensures
        t@ == cost_line(*r),
{
    let label: String = crate::say::pad(r.label.as_str(), 8);
    let size: String = crate::say::pad_left(r.size.as_str(), 10);
    let head: String = crate::say::cat5("  ", label.as_str(), " ", size.as_str(), "  ");
    match &r.cost {
        Cost::NoEncoder => {
            let x: String = crate::say::pad_left("no encoder", 18);
            crate::say::cat2(head.as_str(), x.as_str())
        },
        Cost::Failed => {
            let x: String = crate::say::pad_left("decode failed", 18);
            crate::say::cat2(head.as_str(), x.as_str())
        },
        Cost::SoftwareOnly { seconds, share } => {
            let a: String = figure_text(seconds.as_str(), share.as_str());
            let x: String = crate::say::pad_left("not available", 18);
            let tail: String = crate::say::cat3(a.as_str(), "  ", x.as_str());
            crate::say::cat2(head.as_str(), tail.as_str())
        },
        Cost::Both { sw_seconds, sw_share, hw_seconds, hw_share } => {
            let a: String = figure_text(sw_seconds.as_str(), sw_share.as_str());
            let b: String = figure_text(hw_seconds.as_str(), hw_share.as_str());
            let tail: String = crate::say::cat3(a.as_str(), "  ", b.as_str());
            crate::say::cat2(head.as_str(), tail.as_str())
        },
    }
}

/// Some row was measured.
pub open spec fn some_measured(rows: Seq<CostRow>) -> bool {
    exists|i: int|
        0 <= i < rows.len() && ((#[trigger] rows[i]).cost is Both || rows[i].cost is SoftwareOnly)
}

/// The cost report. `saving` is the largest share of one core that hardware
/// decoding would save, as shown, and `small` whether that is below a quarter.
pub open spec fn probe_lines(rows: Seq<CostRow>, loops: u32, saving: Seq<char>, small: bool) -> Seq<
    Seq<char>,
> {
    let bar = crate::say::repeated('─', 70);
    let n = if loops < 1 {
        1
    } else {
        loops as nat
    };
    let head = seq![
        "\n  Decode cost — host measurement\n  "@ + bar,
        "  "@ + crate::text::decimal(CLIP_SECONDS as nat) + "s of video per clip, "@
            + crate::text::decimal(n) + " pass(es) per decoder.\n"@,
        "  "@ + crate::say::padded("format"@, 8) + " "@ + crate::say::padded_left("size"@, 10) + (
        "  "@ + crate::say::padded_left("software"@, 18) + "  "@ + crate::say::padded_left(
            "hardware"@,
            18,
        )),
        "  "@ + crate::say::repeated('─', 60),
    ];
    let table = rows.map_values(|r: CostRow| cost_line(r));
    let end = seq!["\n  "@ + bar];
    if !some_measured(rows) {
        head + table + end + seq!["  Nothing could be measured.\n"@]
    } else {
        let meaning = seq![
            "  The percentage is the share of ONE core used for as long as the"@,
            "  video plays. CPU seconds are totalled across threads, read from"@,
            "  the kernel's accounting of reaped children — wall time would"@,
            "  hide how many cores a software decoder spreads over.\n"@,
            "  Biggest saving hardware decode would buy: "@ + saving + "% of one core.\n"@,
        ];
        let verdict: Seq<Seq<char>> = if small {
            seq![
                "  That is a SMALL prize. Carrying frames from a host decoder"@,
                "  into the container needs a Codec2 component on the Android"@,
                "  side, a decode daemon on the host and dmabuf plumbing"@,
                "  between them. This measurement does not justify that work,"@,
                "  and no amount of wanting it to changes the number.\n"@,
            ]
        } else {
            Seq::empty()
        };
        head + table + end + meaning + verdict + seq![
            "  What this does NOT measure: Android's own decoders, the binder"@,
            "  round-trip per frame, and gralloc allocation. Those need a"@,
            "  running session — `liw video verify` once it is up.\n"@,
        ]
    }
}

/// The cost report.
pub fn probe(rows: &Vec<CostRow>, loops: u32, saving: &str, small: bool) -> (r: Vec<String>)
    ensures
        crate::text::texts(r@) == probe_lines(rows@, loops, saving@, small),
{
    let mut out: Vec<String> = crate::say::page();
    let bar: String = crate::say::repeat('─', 70);
    crate::say::put(
        &mut out,
        crate::say::cat2("\n  Decode cost — host measurement\n  ", bar.as_str()),
    );
    let secs: String = crate::say::count(CLIP_SECONDS);
    let n: String = crate::say::count(
        if loops < 1 {
            1
        } else {
            loops as u64
        },
    );
    crate::say::put(
        &mut out,
        crate::say::cat5(
            "  ",
            secs.as_str(),
            "s of video per clip, ",
            n.as_str(),
            " pass(es) per decoder.\n",
        ),
    );
    let a: String = crate::say::pad("format", 8);
    let b: String = crate::say::pad_left("size", 10);
    let c: String = crate::say::pad_left("software", 18);
    let d: String = crate::say::pad_left("hardware", 18);
    let tail: String = crate::say::cat4("  ", c.as_str(), "  ", d.as_str());
    crate::say::put(&mut out, crate::say::cat5("  ", a.as_str(), " ", b.as_str(), tail.as_str()));
    let short: String = crate::say::repeat('─', 60);
    crate::say::put(&mut out, crate::say::cat2("  ", short.as_str()));
    let ghost head = crate::text::texts(out@);
    let ghost all = rows@.map_values(|r: CostRow| cost_line(r));
    let mut measured: bool = false;
    let mut i: usize = 0;
    assert(head + all.take(0) =~= head);
    while i < rows.len()
        invariant
            i <= rows@.len(),
            all == rows@.map_values(|r: CostRow| cost_line(r)),
            crate::text::texts(out@) == head + all.take(i as int),
            measured == (exists|k: int|
                0 <= k < i && ((#[trigger] rows@[k]).cost is Both || rows@[k].cost is SoftwareOnly)),
        decreases rows@.len() - i,
    {
        let line: String = cost_row(&rows[i]);
        assert(all[i as int] == cost_line(rows@[i as int]));
        crate::say::put(&mut out, line);
        assert(head + all.take(i + 1) =~= (head + all.take(i as int)).push(all[i as int]));
        match &rows[i].cost {
            Cost::Both { .. } => {
                measured = true;
            },
            Cost::SoftwareOnly { .. } => {
                measured = true;
            },
            _ => {},
        }
        i = i + 1;
    }
    assert(all.take(i as int) =~= all);
    crate::say::put(&mut out, crate::say::cat2("\n  ", bar.as_str()));
    if !measured {
        crate::say::say(&mut out, "  Nothing could be measured.\n");
        assert(crate::text::texts(out@) =~= probe_lines(rows@, loops, saving@, small));
        return out;
    }
    crate::say::say(
        &mut out,
        "  The percentage is the share of ONE core used for as long as the",
    );
    crate::say::say(
        &mut out,
        "  video plays. CPU seconds are totalled across threads, read from",
    );
    crate::say::say(&mut out, "  the kernel's accounting of reaped children — wall time would");
    crate::say::say(&mut out, "  hide how many cores a software decoder spreads over.\n");
    crate::say::put(
        &mut out,
        crate::say::cat3(
            "  Biggest saving hardware decode would buy: ",
            saving,
            "% of one core.\n",
        ),
    );
    if small {
        crate::say::say(&mut out, "  That is a SMALL prize. Carrying frames from a host decoder");
        crate::say::say(&mut out, "  into the container needs a Codec2 component on the Android");
        crate::say::say(&mut out, "  side, a decode daemon on the host and dmabuf plumbing");
        crate::say::say(&mut out, "  between them. This measurement does not justify that work,");
        crate::say::say(&mut out, "  and no amount of wanting it to changes the number.\n");
    }
    crate::say::say(&mut out, "  What this does NOT measure: Android's own decoders, the binder");
    crate::say::say(&mut out, "  round-trip per frame, and gralloc allocation. Those need a");
    crate::say::say(&mut out, "  running session — `liw video verify` once it is up.\n");
    assert(crate::text::texts(out@) =~= probe_lines(rows@, loops, saving@, small));
    out
}

// ---------------------------------------------------------------- laws

/// The clips of one format are never used for another: the formats differ.
pub proof fn law_fixtures_are_distinct(f: Seq<Fixture>, i: int, j: int)
    requires
        f.len() == 6,
        f[0].is("video/avc"@, "h264.mp4"@, "h264_cuvid"@),
        f[1].is("video/hevc"@, "hevc.mp4"@, "hevc_cuvid"@),
        f[2].is("video/x-vnd.on2.vp9"@, "vp9.webm"@, "vp9_cuvid"@),
        f[3].is("video/x-vnd.on2.vp8"@, "vp8.webm"@, "vp8_cuvid"@),
        f[4].is("video/av01"@, "av1.mp4"@, "av1_cuvid"@),
        f[5].is("video/mp4v-es"@, "mpeg4.mp4"@, "mpeg4_cuvid"@),
        0 <= i < j < 6,
    ensures
        f[i].mime@ != f[j].mime@,
{
    reveal_strlit("video/avc");
    reveal_strlit("video/hevc");
    reveal_strlit("video/x-vnd.on2.vp9");
    reveal_strlit("video/x-vnd.on2.vp8");
    reveal_strlit("video/av01");
    reveal_strlit("video/mp4v-es");
    assert(f[2].mime@[18] == '9' && f[3].mime@[18] == '8');
    assert(f[1].mime@[6] == 'h' && f[4].mime@[6] == 'a');
    assert(f[0].mime@.len() == 9);
    assert(f[1].mime@.len() == 10);
    assert(f[2].mime@.len() == 19);
    assert(f[3].mime@.len() == 19);
    assert(f[4].mime@.len() == 10);
    assert(f[5].mime@.len() == 13);
    assert(i == 0 || i == 1 || i == 2 || i == 3 || i == 4);
    assert(j == 1 || j == 2 || j == 3 || j == 4 || j == 5);
}

/// A path inside an image never leaves the mounted system, however many slashes
/// it starts with.
pub proof fn law_a_leading_slash_stays_inside(p: Part, inner: Seq<char>)
    ensures
        crate::text::opens_with(p.mounted_path(inner), ROOTFS@),
{
    reveal_strlit("/var/lib/waydroid/rootfs");
    reveal_strlit("vendor");
    lemma_no_leading_slash(inner);
    let m = p.mounted_path(inner);
    let v = crate::store::joined(ROOTFS@, "vendor"@);
    let n = ROOTFS@.len() as int;
    assert(v.subrange(0, n) =~= ROOTFS@);
    assert(m.subrange(0, n) =~= ROOTFS@);
}

proof fn lemma_no_leading_slash(s: Seq<char>)
    ensures
        without_slashes(s).len() > 0 ==> without_slashes(s)[0] != '/',
    decreases s.len(),
{
    if s.len() > 0 && s[0] == '/' {
        lemma_no_leading_slash(s.drop_first());
    }
}

/// Files are read from the live system where it is mounted, else from the image,
/// where there is one.
pub proof fn law_the_live_system_comes_first(mounted: bool, image: bool)
    ensures
        source_spec(mounted, image) == Source::Live <==> mounted,
        source_spec(mounted, image) == Source::Image <==> !mounted && image,
        source_spec(mounted, image) == Source::Unreadable <==> !mounted && !image,
{
}

/// An entry of a listing is the last word of its line, but for the two that stand
/// for the directory itself and the one above.
pub proof fn law_an_entry_is_the_last_word(line: Seq<char>)
    ensures
        ({
            let w = crate::words::words_of(line);
            &&& w.len() == 0 ==> entry_of(line) is None
            &&& w.len() > 0 && (w.last() == "."@ || w.last() == ".."@) ==> entry_of(line) is None
            &&& w.len() > 0 && w.last() != "."@ && w.last() != ".."@ ==> entry_of(line) == Some(
                w.last(),
            )
        }),
{
}

/// Every line of a listing that has an entry gives it, in order.
pub proof fn law_every_entry_is_listed(l: Seq<Seq<char>>)
    ensures
        entries_of(l, l.len() as int) == l.filter(|x: Seq<char>| entry_of(x) is Some).map_values(
            |x: Seq<char>| entry_of(x)->0,
        ),
{
    lemma_entries(l, l.len() as int);
    assert(l.take(l.len() as int) =~= l);
}

proof fn lemma_entries(l: Seq<Seq<char>>, n: int)
    requires
        0 <= n <= l.len(),
    ensures
        entries_of(l, n) == l.take(n).filter(|x: Seq<char>| entry_of(x) is Some).map_values(
            |x: Seq<char>| entry_of(x)->0,
        ),
    decreases n,
{
    let has = |x: Seq<char>| entry_of(x) is Some;
    let gives = |x: Seq<char>| entry_of(x)->0;
    reveal(Seq::filter);
    if n == 0 {
        assert(l.take(0).filter(has) =~= Seq::<Seq<char>>::empty());
        assert(entries_of(l, 0) =~= l.take(0).filter(has).map_values(gives));
    } else {
        lemma_entries(l, n - 1);
        assert(l.take(n).drop_last() =~= l.take(n - 1));
        assert(l.take(n).last() == l[n - 1]);
        let before = l.take(n - 1).filter(has);
        if entry_of(l[n - 1]) is Some {
            assert(before.push(l[n - 1]).map_values(gives) =~= before.map_values(gives).push(
                entry_of(l[n - 1])->0,
            ));
        }
    }
}

/// The declarations are read in order: the vendor's own, what it pulls in, and the
/// software codecs of the system.
pub proof fn law_declarations_are_read_in_order(pulled_in: Seq<Seq<char>>, k: int)
    requires
        0 <= k < pulled_in.len(),
    ensures
        ({
            let f = codec_files_of(pulled_in);
            &&& f.len() == pulled_in.len() + 2
            &&& f[0] == (Part::Vendor, "/etc/media_codecs.xml"@)
            &&& f[k + 1] == (Part::Vendor, "/etc/"@ + pulled_in[k])
            &&& f.last() == (Part::System, SOFTWARE_CODECS@)
        }),
{
}

/// Of the codecs declared those for video are kept, in order.
pub proof fn law_only_video_codecs_are_kept(v: Seq<CodecView>)
    ensures
        video_only(v, v.len() as int) == v.filter(
            |c: CodecView| crate::text::opens_with(c.mime, "video/"@),
        ),
{
    lemma_video_only(v, v.len() as int);
    assert(v.take(v.len() as int) =~= v);
}

proof fn lemma_video_only(v: Seq<CodecView>, n: int)
    requires
        0 <= n <= v.len(),
    ensures
        video_only(v, n) == v.take(n).filter(
            |c: CodecView| crate::text::opens_with(c.mime, "video/"@),
        ),
    decreases n,
{
    let own = |c: CodecView| crate::text::opens_with(c.mime, "video/"@);
    reveal(Seq::filter);
    if n == 0 {
        assert(v.take(0).filter(own) =~= Seq::<CodecView>::empty());
    } else {
        lemma_video_only(v, n - 1);
        assert(v.take(n).drop_last() =~= v.take(n - 1));
        assert(v.take(n).last() == v[n - 1]);
    }
}

/// Two codecs have one name and one format.
pub open spec fn same_codec(a: CodecView, b: CodecView) -> bool {
    a.name == b.name && a.mime == b.mime
}

/// A codec of the name and the format of `c` is in the list.
pub open spec fn represented(r: Seq<CodecView>, c: CodecView) -> bool {
    exists|k: int| 0 <= k < r.len() && same_codec(#[trigger] r[k], c)
}

/// A codec of the list is like the one before it.
pub open spec fn repeats_at(r: Seq<CodecView>, k: int) -> bool {
    0 < k < r.len() && same_codec(r[k - 1], r[k])
}

/// A codec that repeats the one before it, by name and format, is left out; of every
/// codec one of that name and format stays, and no two neighbours are alike.
pub proof fn law_repeats_are_left_out(v: Seq<CodecView>)
    ensures
        ({
            let r = without_repeats(v, v.len() as int);
            &&& forall|i: int| 0 <= i < v.len() ==> represented(r, #[trigger] v[i])
            &&& forall|k: int| 0 <= k < r.len() ==> v.contains(#[trigger] r[k])
            &&& forall|k: int| !#[trigger] repeats_at(r, k)
        }),
{
    lemma_repeats(v, v.len() as int);
}

proof fn lemma_repeats(v: Seq<CodecView>, n: int)
    requires
        0 <= n <= v.len(),
    ensures
        ({
            let r = without_repeats(v, n);
            &&& n > 0 ==> r.len() > 0 && same_codec(r.last(), v[n - 1])
            &&& forall|i: int| 0 <= i < n ==> represented(r, #[trigger] v[i])
            &&& forall|k: int| 0 <= k < r.len() ==> v.contains(#[trigger] r[k])
            &&& forall|k: int| !#[trigger] repeats_at(r, k)
        }),
    decreases n,
{
    if n > 0 {
        lemma_repeats(v, n - 1);
        let before = without_repeats(v, n - 1);
        let r = without_repeats(v, n);
        let c = v[n - 1];
        assert(same_codec(r[r.len() - 1], c));
        assert forall|i: int| 0 <= i < n implies represented(r, #[trigger] v[i]) by {
            if i < n - 1 {
                assert(represented(before, v[i]));
                let k = choose|k: int| 0 <= k < before.len() && same_codec(#[trigger] before[k], v[i]);
                assert(r[k] == before[k]);
            }
        }
        assert forall|k: int| !#[trigger] repeats_at(r, k) by {
            assert(!repeats_at(before, k));
            if repeats_at(r, k) && k == before.len() {
                assert(r[k - 1] == before.last());
            }
        }
        assert forall|k: int| 0 <= k < r.len() implies v.contains(#[trigger] r[k]) by {
            if k < before.len() {
                assert(r[k] == before[k]);
            } else {
                assert(r[k] == c);
            }
        }
    }
}

/// The formats the host decodes are those whose trial decoded, in order.
pub proof fn law_a_decoded_trial_names_its_format(f: Seq<Fixture>, t: Seq<Trial>, x: Seq<char>)
    requires
        f.len() == t.len(),
    ensures
        decoded(f, t, t.len() as int).contains(x) <==> exists|i: int|
            0 <= i < t.len() && (#[trigger] t[i]) == Trial::Decoded && f[i].mime@ == x,
        decoded(f, t, t.len() as int).len() <= t.len(),
{
    lemma_decoded(f, t, t.len() as int, x);
}

proof fn lemma_decoded(f: Seq<Fixture>, t: Seq<Trial>, n: int, x: Seq<char>)
    requires
        f.len() == t.len(),
        0 <= n <= t.len(),
    ensures
        decoded(f, t, n).contains(x) <==> exists|i: int|
            0 <= i < n && (#[trigger] t[i]) == Trial::Decoded && f[i].mime@ == x,
        decoded(f, t, n).len() <= n,
    decreases n,
{
    if n > 0 {
        lemma_decoded(f, t, n - 1, x);
        let before = decoded(f, t, n - 1);
        let all = decoded(f, t, n);
        if before.contains(x) {
            let k = choose|k: int| 0 <= k < before.len() && before[k] == x;
            assert(all[k] == x);
        }
        if all.contains(x) {
            let k = choose|k: int| 0 <= k < all.len() && all[k] == x;
            if k < before.len() {
                assert(before[k] == x);
                assert(before.contains(x));
            } else {
                assert(t[n - 1] == Trial::Decoded);
            }
        }
        if t[n - 1] == Trial::Decoded {
            assert(all.last() == f[n - 1].mime@);
        }
    }
}

/// The times of reaped children stand fourteenth and fifteenth behind the name of
/// the process, which ends with the last bracket.
pub proof fn law_the_childrens_time_is_behind_the_name(name: Seq<char>, rest: Seq<char>)
    requires
        !rest.contains(')'),
    ensures
        ({
            let stat = name + seq![')'] + rest;
            let w = crate::words::words_of(rest);
            &&& w.len() > 14 ==> child_fields(stat) == Some((w[13], w[14]))
            &&& w.len() <= 14 ==> child_fields(stat) is None
        }),
        child_fields(rest) is None,
{
    let stat = name + seq![')'] + rest;
    let k = name.len() as int;
    assert(stat[k] == ')');
    assert forall|j: int| k < j < stat.len() implies stat[j] != ')' by {
        assert(stat[j] == rest[j - k - 1]);
        assert(rest.contains(rest[j - k - 1]));
    }
    lemma_last_is(stat, ')', stat.len() as int, k);
    assert(stat.skip(k + 1) =~= rest);
    lemma_last_none(rest, ')', rest.len() as int);
}

proof fn lemma_last_is(s: Seq<char>, c: char, n: int, k: int)
    requires
        0 <= k < n <= s.len(),
        s[k] == c,
        forall|j: int| k < j < n ==> s[j] != c,
    ensures
        last_at(s, c, n) == Some(k),
    decreases n,
{
    if n - 1 > k {
        lemma_last_is(s, c, n - 1, k);
    }
}

proof fn lemma_last_none(s: Seq<char>, c: char, n: int)
    requires
        0 <= n <= s.len(),
        !s.contains(c),
    ensures
        last_at(s, c, n) is None,
    decreases n,
{
    if n > 0 {
        assert(s.contains(s[n - 1]));
        lemma_last_none(s, c, n - 1);
    }
}

/// A test clip is encoded by the encoder asked for with its flags, at the size asked
/// for, into the file asked for.
pub proof fn law_a_clip_is_encoded_as_asked(c: CostCase, w: u32, h: u32, out: Seq<char>)
    ensures
        ({
            let a = encode_args_of(c, w, h, out);
            let n = crate::text::texts(c.flags@).len() as int;
            &&& a.len() == 13 + n
            &&& a.last() == out
            &&& a[a.len() - 2] == "-y"@
            &&& a[7] == "-c:v"@
            &&& a[8] == c.encoder@
            &&& a.subrange(11, 11 + n) == crate::text::texts(c.flags@)
            &&& a[5] == "-i"@
            &&& crate::text::occurs(a[6], size_text(w, h))
        }),
{
    let a = encode_args_of(c, w, h, out);
    let n = crate::text::texts(c.flags@).len() as int;
    assert(a.subrange(11, 11 + n) =~= crate::text::texts(c.flags@));
    let tail = ":rate=30:duration="@ + crate::text::decimal(CLIP_SECONDS as nat);
    crate::text::lemma_occurs_between("testsrc=size="@, size_text(w, h), tail);
    assert(a[6] =~= "testsrc=size="@ + size_text(w, h) + tail);
}

} // verus!
