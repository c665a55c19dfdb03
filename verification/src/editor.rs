//! The visual profile editor: a local page over a screenshot of the game.
//!
//! The server answers one browser on the loopback address and edits a single
//! profile. What is decided here is how a request is read, what it asks for and
//! how it is answered, how large the screenshot is, and what the session daemon
//! meant by its replies.

use vstd::prelude::*;
use vstd::string::*;

verus! {

/// Headers beyond this many bytes are refused.
pub const MOST_HEADER_BYTES: usize = 1048576;

/// How long a touch from the browser is held unless it says otherwise.
pub fn default_hold() -> (r: u64)
    ensures
        r == 250,
{
    250
}

// ---------------------------------------------------------------- bytes

/// `n` stands in `h` at position `i`.
pub open spec fn bytes_at(h: Seq<u8>, n: Seq<u8>, i: int) -> bool {
    0 <= i && i + n.len() <= h.len() && h.subrange(i, i + n.len()) == n
}

fn is_bytes_at(h: &Vec<u8>, n: &Vec<u8>, i: usize) -> (r: bool)
    requires
        i <= h@.len(),
    ensures
        r == bytes_at(h@, n@, i as int),
{
    let total: usize = h.len();
    if n.len() > total - i {
        return false;
    }
    let mut k: usize = 0;
    while k < n.len()
        invariant
            k <= n@.len(),
            total == h@.len(),
            i + n@.len() <= h@.len(),
            forall|j: int| 0 <= j < k ==> h@[i + j] == n@[j],
        decreases n@.len() - k,
    {
        if h[i + k] != n[k] {
            assert(h@.subrange(i as int, i + n@.len())[k as int] != n@[k as int]);
            return false;
        }
        k = k + 1;
    }
    assert(h@.subrange(i as int, i + n@.len()) =~= n@);
    true
}

/// The first position where `n` stands in `h`. Looking for nothing makes no
/// sense.
pub fn find(h: &Vec<u8>, n: &Vec<u8>) -> (r: Option<usize>)
    requires
        n@.len() > 0,
    ensures
        match r {
            Some(i) => bytes_at(h@, n@, i as int) && forall|j: int|
                0 <= j < i ==> !bytes_at(h@, n@, j),
            None => forall|j: int| !bytes_at(h@, n@, j),
        },
{
    let mut i: usize = 0;
    while i < h.len()
        invariant
            i <= h@.len(),
            forall|j: int| 0 <= j < i ==> !bytes_at(h@, n@, j),
        decreases h@.len() - i,
    {
        if is_bytes_at(h, n, i) {
            return Some(i);
        }
        i = i + 1;
    }
    None
}

/// Four bytes as a number, the most significant first.
pub open spec fn big_endian(b: Seq<u8>, at: int) -> int {
    b[at] * 16777216 + b[at + 1] * 65536 + b[at + 2] * 256 + b[at + 3]
}

/// The bytes every image of this format starts with.
pub open spec fn png_magic() -> Seq<u8> {
    seq![0x89u8, 0x50, 0x4e, 0x47, 0x0d, 0x0a, 0x1a, 0x0a]
}

/// The name of the chunk with the size.
pub open spec fn size_chunk() -> Seq<u8> {
    seq![0x49u8, 0x48, 0x44, 0x52]
}

/// Width and height in the header of an image.
pub open spec fn size_in(b: Seq<u8>) -> Option<(int, int)> {
    if b.len() >= 24 && b.subrange(0, 8) == png_magic() && b.subrange(12, 16) == size_chunk() {
        Some((big_endian(b, 16), big_endian(b, 20)))
    } else {
        None
    }
}

fn word_at(b: &Vec<u8>, at: usize) -> (r: u32)
    requires
        at + 4 <= b@.len(),
    ensures
        r == big_endian(b@, at as int),
{
    let total: usize = b.len();
    assert(at + 4 <= total);
    let w: u64 = b[at] as u64 * 16777216 + b[at + 1] as u64 * 65536 + b[at + 2] as u64 * 256 + b[at
        + 3] as u64;
    w as u32
}

/// Width and height from the header of an image. The browser's scaling rests on
/// the image's own size: what the compositor reports is in logical pixels.
pub fn png_size(b: &Vec<u8>) -> (r: Option<(u32, u32)>)
    ensures
        match r {
            Some((w, h)) => size_in(b@) == Some((w as int, h as int)),
            None => size_in(b@) is None,
        },
{
    if b.len() < 24 {
        return None;
    }
    let ghost m = b@.subrange(0, 8);
    let ghost c = b@.subrange(12, 16);
    if b[0] == 0x89 && b[1] == 0x50 && b[2] == 0x4e && b[3] == 0x47 && b[4] == 0x0d && b[5] == 0x0a
        && b[6] == 0x1a && b[7] == 0x0a && b[12] == 0x49 && b[13] == 0x48 && b[14] == 0x44 && b[15]
        == 0x52 {
        assert(m =~= png_magic());
        assert(c =~= size_chunk());
        return Some((word_at(b, 16), word_at(b, 20)));
    }
    proof {
        if m == png_magic() && c == size_chunk() {
            assert(m[0] == b@[0] && m[1] == b@[1] && m[2] == b@[2] && m[3] == b@[3] && m[4] == b@[4]
                && m[5] == b@[5] && m[6] == b@[6] && m[7] == b@[7]);
            assert(c[0] == b@[12] && c[1] == b@[13] && c[2] == b@[14] && c[3] == b@[15]);
        }
    }
    None
}

// ---------------------------------------------------------------- request

/// Bytes as text, with a stand-in for what is not valid.
pub uninterp spec fn lossy(b: Seq<u8>) -> Seq<char>;

/// `String::from_utf8_lossy`: bytes as text. It depends on the bytes alone;
/// which text it is is not said here.
#[verifier::external_body]
fn text_of_bytes(b: &Vec<u8>) -> (r: String)
    ensures
        r@ == lossy(b@),
{
    String::from_utf8_lossy(b).into_owned()
}

/// The length that a header line announces, if it announces one.
pub open spec fn length_in(line: Seq<char>) -> Option<nat> {
    match crate::text::stripped(crate::text::lower(line), "content-length:"@) {
        Some(rest) => crate::words::number_within(crate::words::trimmed(rest), usize::MAX as nat),
        None => None,
    }
}

/// The length that the header lines from `i` on announce first. 0 if none does.
pub open spec fn length_from(l: Seq<Seq<char>>, i: int) -> nat
    decreases l.len() - i,
{
    if i >= l.len() {
        0
    } else {
        match length_in(l[i]) {
            Some(n) => n,
            None => length_from(l, i + 1),
        }
    }
}

/// The length of the body that the headers announce.
pub fn content_length(head: &str) -> (r: usize)
    ensures
        r == length_from(crate::words::lines_of(head@), 0),
{
    let l: Vec<String> = crate::words::lines(head);
    let ghost t = crate::words::lines_of(head@);
    let mut i: usize = 0;
    while i < l.len()
        invariant
            i <= l@.len(),
            t == crate::text::texts(l@),
            t == crate::words::lines_of(head@),
            length_from(t, 0) == length_from(t, i as int),
        decreases l@.len() - i,
    {
        assert(t[i as int] == l@[i as int]@);
        let low: Vec<char> = crate::text::lower_chars(l[i].as_str());
        let line: String = crate::text::string_of(&low, 0, low.len());
        assert(line@ =~= crate::text::lower(l@[i as int]@));
        if let Some(rest) = crate::text::strip_prefix(line.as_str(), "content-length:") {
            let v: String = crate::words::trim(rest.as_str());
            if let Some(n) = crate::words::parse_within(v.as_str(), usize::MAX as u64) {
                return n as usize;
            }
        }
        i = i + 1;
    }
    0
}

/// The bytes between the headers and the body.
pub open spec fn blank_line() -> Seq<u8> {
    seq![0x0du8, 0x0a, 0x0d, 0x0a]
}

/// The end of the headers, the blank line included.
pub open spec fn head_end(b: Seq<u8>, e: int) -> bool {
    bytes_at(b, blank_line(), e - 4) && forall|j: int|
        0 <= j < e - 4 ==> !bytes_at(b, blank_line(), j)
}

/// How far reading a request has come.
#[derive(Clone, Copy, Debug, PartialEq, Eq, Structural)]
pub enum Progress {
    /// Read on.
    More,
    /// The whole request is there.
    Done,
    /// The headers are too large.
    TooLarge,
}

/// A request as it comes in.
///
/// A single read is not enough: the body of a save can be several kilobytes and
/// may arrive in pieces. Taken for whole, the text would be half-formed and the
/// edit lost.
#[derive(Debug)]
pub struct Request {
    buf: Vec<u8>,
    /// Where the body starts, once the headers are there.
    body: Option<usize>,
    /// How long the body is to be.
    want: usize,
}

/// What is known of a request.
#[verifier::ext_equal]
pub struct RequestView {
    pub bytes: Seq<u8>,
    pub body: Option<int>,
    pub want: int,
}

impl View for Request {
    type V = RequestView;

    closed spec fn view(&self) -> RequestView {
        RequestView {
            bytes: self.buf@,
            body: match self.body {
                Some(e) => Some(e as int),
                None => None,
            },
            want: self.want as int,
        }
    }
}

impl RequestView {
    pub open spec fn empty() -> RequestView {
        RequestView { bytes: Seq::empty(), body: None, want: 0 }
    }

    /// Whether the body is whole.
    pub open spec fn whole(self) -> bool {
        self.body matches Some(e) && self.bytes.len() - e >= self.want
    }

    /// The body starts where the headers end, and is as long as they say.
    pub open spec fn ok(self) -> bool {
        match self.body {
            Some(e) => {
                &&& 4 <= e <= self.bytes.len()
                &&& head_end(self.bytes, e)
                &&& self.want == length_from(
                    crate::words::lines_of(lossy(self.bytes.take(e))),
                    0,
                )
            },
            None => self.want == 0 && forall|j: int| !bytes_at(self.bytes, blank_line(), j),
        }
    }

    /// `after` is the request once `chunk` came in.
    pub open spec fn fed(self, chunk: Seq<u8>, after: RequestView) -> bool {
        &&& after.bytes == self.bytes + chunk
        &&& after.ok()
        &&& self.body is Some ==> after.body == self.body && after.want == self.want
    }

    /// How far reading has come.
    pub open spec fn progress(self) -> Progress {
        match self.body {
            Some(_) => if self.whole() {
                Progress::Done
            } else {
                Progress::More
            },
            None => if self.bytes.len() > MOST_HEADER_BYTES {
                Progress::TooLarge
            } else {
                Progress::More
            },
        }
    }
}

impl Request {
    pub fn new() -> (r: Request)
        ensures
            r@ == RequestView::empty(),
            r@.ok(),
    {
        let r = Request { buf: Vec::new(), body: None, want: 0 };
        assert(r@ =~= RequestView::empty());
        r
    }

    /// Takes in a piece of the request.
    pub fn feed(&mut self, chunk: &Vec<u8>) -> (r: Progress)
        requires
            old(self)@.ok(),
            old(self)@.bytes.len() + chunk@.len() <= usize::MAX,
        ensures
            old(self)@.fed(chunk@, final(self)@),
            r == final(self)@.progress(),
    {
        let ghost was = self@;
        let mut i: usize = 0;
        assert(self.buf@ =~= was.bytes + chunk@.take(0));
        while i < chunk.len()
            invariant
                i <= chunk@.len(),
                self.buf@ == was.bytes + chunk@.take(i as int),
                self.body == old(self).body,
                self.want == old(self).want,
            decreases chunk@.len() - i,
        {
            self.buf.push(chunk[i]);
            assert(chunk@.take(i + 1) =~= chunk@.take(i as int).push(chunk@[i as int]));
            assert(self.buf@ =~= was.bytes + chunk@.take(i + 1));
            i = i + 1;
        }
        assert(chunk@.take(i as int) =~= chunk@);
        match self.body {
            Some(e) => {
                proof {
                    lemma_head_stays(was.bytes, chunk@, e as int);
                    assert(self.buf@.take(e as int) =~= was.bytes.take(e as int));
                }
                if self.buf.len() - e >= self.want {
                    Progress::Done
                } else {
                    Progress::More
                }
            },
            None => {
                let blank: Vec<u8> = blank();
                match find(&self.buf, &blank) {
                    Some(p) => {
                        let e: usize = p + 4;
                        let head: Vec<u8> = head_bytes(&self.buf, e);
                        let text: String = text_of_bytes(&head);
                        self.want = content_length(text.as_str());
                        self.body = Some(e);
                        if self.buf.len() - e >= self.want {
                            Progress::Done
                        } else {
                            Progress::More
                        }
                    },
                    None => if self.buf.len() > MOST_HEADER_BYTES {
                        Progress::TooLarge
                    } else {
                        Progress::More
                    },
                }
            },
        }
    }

    /// The headers and the body as text, once the headers are there. A request
    /// that ended early is answered with the body it has.
    pub fn parts(&self) -> (r: Option<(String, String)>)
        requires
            self@.ok(),
        ensures
            match r {
                Some((head, body)) => self@.body matches Some(e) && head@ == lossy(
                    self@.bytes.take(e),
                ) && body@ == lossy(self@.bytes.skip(e)),
                None => self@.body is None,
            },
    {
        match self.body {
            Some(e) => {
                let head: Vec<u8> = head_bytes(&self.buf, e);
                let mut tail: Vec<u8> = Vec::new();
                let mut i: usize = e;
                assert(tail@ =~= self.buf@.subrange(e as int, e as int));
                while i < self.buf.len()
                    invariant
                        e <= i <= self.buf@.len(),
                        tail@ == self.buf@.subrange(e as int, i as int),
                    decreases self.buf@.len() - i,
                {
                    tail.push(self.buf[i]);
                    assert(tail@ =~= self.buf@.subrange(e as int, i + 1));
                    i = i + 1;
                }
                assert(tail@ =~= self.buf@.skip(e as int));
                Some((text_of_bytes(&head), text_of_bytes(&tail)))
            },
            None => None,
        }
    }
}

fn blank() -> (r: Vec<u8>)
    ensures
        r@ == blank_line(),
{
    let mut v: Vec<u8> = Vec::new();
    v.push(0x0d);
    v.push(0x0a);
    v.push(0x0d);
    v.push(0x0a);
    assert(v@ =~= blank_line());
    v
}

fn head_bytes(b: &Vec<u8>, e: usize) -> (r: Vec<u8>)
    requires
        e <= b@.len(),
    ensures
        r@ == b@.take(e as int),
{
    let mut v: Vec<u8> = Vec::new();
    let mut i: usize = 0;
    while i < e
        invariant
            i <= e <= b@.len(),
            v@ == b@.take(i as int),
        decreases e - i,
    {
        v.push(b[i]);
        assert(v@ =~= b@.take(i + 1));
        i = i + 1;
    }
    v
}

/// More bytes do not move the end of the headers.
proof fn lemma_head_stays(b: Seq<u8>, more: Seq<u8>, e: int)
    requires
        4 <= e <= b.len(),
        head_end(b, e),
    ensures
        head_end(b + more, e),
{
    let c = b + more;
    assert(c.subrange(e - 4, e) =~= b.subrange(e - 4, e));
    assert forall|j: int| 0 <= j < e - 4 implies !bytes_at(c, blank_line(), j) by {
        assert(!bytes_at(b, blank_line(), j));
        assert(c.subrange(j, j + 4) =~= b.subrange(j, j + 4));
    }
}

/// However a request arrives, its headers end where they end: a later piece
/// never changes what was read as headers, nor how long the body is to be.
pub proof fn law_pieces_do_not_change_the_headers(
    r: RequestView,
    chunk: Seq<u8>,
    after: RequestView,
)
    requires
        r.ok(),
        r.body is Some,
        r.fed(chunk, after),
    ensures
        after.body == r.body,
        after.want == r.want,
        after.bytes.take(after.body->0) == r.bytes.take(r.body->0),
{
    assert(after.bytes.take(after.body->0) =~= r.bytes.take(r.body->0));
}

// ---------------------------------------------------------------- routes

/// What a request asks for.
#[derive(Clone, Copy, Debug, PartialEq, Eq, Structural)]
pub enum Route {
    Page,
    State,
    Shot,
    Reshot,
    Save,
    Apply,
    Poke,
    NotFound,
}

/// What the first line of a request asks for.
pub open spec fn route_spec(line: Seq<char>) -> Route {
    if crate::text::opens_with(line, "GET / "@) || crate::text::opens_with(line, "GET /index"@) {
        Route::Page
    } else if crate::text::opens_with(line, "GET /state.json"@) {
        Route::State
    } else if crate::text::opens_with(line, "GET /shot.png"@) {
        Route::Shot
    } else if crate::text::opens_with(line, "POST /reshot"@) {
        Route::Reshot
    } else if crate::text::opens_with(line, "POST /save"@) {
        Route::Save
    } else if crate::text::opens_with(line, "POST /apply"@) {
        Route::Apply
    } else if crate::text::opens_with(line, "POST /poke"@) {
        Route::Poke
    } else {
        Route::NotFound
    }
}

/// The first line of the headers.
pub open spec fn request_line(head: Seq<char>) -> Seq<char> {
    let l = crate::words::lines_of(head);
    if l.len() > 0 {
        l[0]
    } else {
        Seq::empty()
    }
}

/// What a request asks for.
pub fn route(head: &str) -> (r: Route)
    ensures
        r == route_spec(request_line(head@)),
{
    let l: Vec<String> = crate::words::lines(head);
    assert(l@.len() == crate::text::texts(l@).len());
    let line: String = if l.len() > 0 {
        assert(crate::text::texts(l@)[0] == l@[0]@);
        l[0].clone()
    } else {
        let e: String = String::new();
        assert(e@ =~= Seq::<char>::empty());
        e
    };
    let s: &str = line.as_str();
    if crate::text::starts_with(s, "GET / ") || crate::text::starts_with(s, "GET /index") {
        Route::Page
    } else if crate::text::starts_with(s, "GET /state.json") {
        Route::State
    } else if crate::text::starts_with(s, "GET /shot.png") {
        Route::Shot
    } else if crate::text::starts_with(s, "POST /reshot") {
        Route::Reshot
    } else if crate::text::starts_with(s, "POST /save") {
        Route::Save
    } else if crate::text::starts_with(s, "POST /apply") {
        Route::Apply
    } else if crate::text::starts_with(s, "POST /poke") {
        Route::Poke
    } else {
        Route::NotFound
    }
}

/// How a request ended.
#[derive(Clone, Copy, Debug, PartialEq, Eq, Structural)]
pub enum Outcome {
    Fine,
    /// The request itself was bad: the text does not parse, or the profile is
    /// not valid.
    Bad,
    /// Doing it failed.
    Failed,
}

/// The status line and the kind of content of an answer.
pub open spec fn answer_spec(route: Route, outcome: Outcome) -> (Seq<char>, Seq<char>) {
    match (route, outcome) {
        (Route::NotFound, _) => ("404 Not Found"@, "text/plain"@),
        (_, Outcome::Bad) => ("400 Bad Request"@, "text/plain"@),
        (_, Outcome::Failed) => ("500 Internal Server Error"@, "text/plain"@),
        (Route::Page, _) => ("200 OK"@, "text/html; charset=utf-8"@),
        (Route::State, _) => ("200 OK"@, "application/json"@),
        (Route::Reshot, _) => ("200 OK"@, "application/json"@),
        (Route::Shot, _) => ("200 OK"@, "image/png"@),
        _ => ("200 OK"@, "text/plain"@),
    }
}

/// The status line and the kind of content of an answer.
pub fn answer(route: Route, outcome: Outcome) -> (r: (&'static str, &'static str))
    ensures
        (r.0@, r.1@) == answer_spec(route, outcome),
{
    match (route, outcome) {
        (Route::NotFound, _) => ("404 Not Found", "text/plain"),
        (_, Outcome::Bad) => ("400 Bad Request", "text/plain"),
        (_, Outcome::Failed) => ("500 Internal Server Error", "text/plain"),
        (Route::Page, _) => ("200 OK", "text/html; charset=utf-8"),
        (Route::State, _) => ("200 OK", "application/json"),
        (Route::Reshot, _) => ("200 OK", "application/json"),
        (Route::Shot, _) => ("200 OK", "image/png"),
        _ => ("200 OK", "text/plain"),
    }
}

/// The headers of an answer with a body of so many bytes.
pub open spec fn answer_head(status: Seq<char>, kind: Seq<char>, len: nat) -> Seq<char> {
    "HTTP/1.1 "@ + status + "\r\nContent-Type: "@ + kind + ("\r\nContent-Length: "@
        + crate::text::decimal(len) + "\r\nCache-Control: no-store\r\nConnection: close\r\n\r\n"@)
}

/// The headers of an answer with a body of so many bytes.
pub fn response_head(status: &str, kind: &str, len: usize) -> (r: String)
    ensures
        r@ == answer_head(status@, kind@, len as nat),
{
    let n: String = crate::say::count(len as u64);
    let tail: String = crate::say::cat3(
        "\r\nContent-Length: ",
        n.as_str(),
        "\r\nCache-Control: no-store\r\nConnection: close\r\n\r\n",
    );
    crate::say::cat5("HTTP/1.1 ", status, "\r\nContent-Type: ", kind, tail.as_str())
}

/// The screenshot: its size, and how often it was taken.
#[derive(Clone, Copy, Debug, PartialEq, Eq, Structural)]
pub struct ShotInfo {
    pub width: u32,
    pub height: u32,
    /// Counted up on every capture, so the browser does not show an old one.
    pub version: u64,
}

impl ShotInfo {
    /// A new screenshot was taken. Returns what the browser is told.
    pub fn retaken(&mut self, width: u32, height: u32) -> (r: String)
        requires
            old(self).version < u64::MAX,
        ensures
            *final(self) == (ShotInfo { width, height, version: (old(self).version + 1) as u64 }),
            r@ == "{\"width\":"@ + crate::text::decimal(width as nat) + ",\"height\":"@
                + crate::text::decimal(height as nat) + (",\"shot\":"@ + crate::text::decimal(
                (old(self).version + 1) as nat,
            ) + "}"@),
    {
        self.width = width;
        self.height = height;
        self.version = self.version + 1;
        let w: String = crate::say::count(width as u64);
        let h: String = crate::say::count(height as u64);
        let v: String = crate::say::count(self.version);
        let tail: String = crate::say::cat3(",\"shot\":", v.as_str(), "}");
        crate::say::cat5("{\"width\":", w.as_str(), ",\"height\":", h.as_str(), tail.as_str())
    }
}

// ---------------------------------------------------------------- replies

/// Why a text is not JSON, if it is not.
pub uninterp spec fn json_fault(text: Seq<char>) -> Option<Seq<char>>;

/// `serde_json::from_str`, read as a plain value: why the text is not JSON, if
/// it is not. It depends on the text alone; which texts are is not said here.
#[verifier::external_body]
fn fault_of(text: &str) -> (r: Option<String>)
    ensures
        crate::text::some_text(r) == json_fault(text@),
{
    serde_json::from_str::<serde_json::Value>(text).err().map(|e| e.to_string())
}

/// The truth value under a key of a JSON object, if there is one.
pub uninterp spec fn json_bool(text: Seq<char>, key: Seq<char>) -> Option<bool>;

/// `serde_json::Value::as_bool` of what stands under a key: the truth value, if
/// the text is a JSON object and one stands there.
#[verifier::external_body]
fn bool_at(text: &str, key: &str) -> (r: Option<bool>)
    ensures
        r == json_bool(text@, key@),
{
    serde_json::from_str::<serde_json::Value>(text).ok().and_then(|v| v[key].as_bool())
}

/// The whole number under a key of a JSON object, if there is one.
pub uninterp spec fn json_i64(text: Seq<char>, key: Seq<char>) -> Option<i64>;

/// `serde_json::Value::as_i64` of what stands under a key: the number, if the
/// text is a JSON object and a whole number of this width stands there.
#[verifier::external_body]
fn i64_at(text: &str, key: &str) -> (r: Option<i64>)
    ensures
        r == json_i64(text@, key@),
{
    serde_json::from_str::<serde_json::Value>(text).ok().and_then(|v| v[key].as_i64())
}

/// The whole number that is not negative under a key of a JSON object, if there
/// is one.
pub uninterp spec fn json_u64(text: Seq<char>, key: Seq<char>) -> Option<u64>;

/// `serde_json::Value::as_u64` of what stands under a key: the number, if the
/// text is a JSON object and a whole number that is not negative stands there.
#[verifier::external_body]
fn u64_at(text: &str, key: &str) -> (r: Option<u64>)
    ensures
        r == json_u64(text@, key@),
{
    serde_json::from_str::<serde_json::Value>(text).ok().and_then(|v| v[key].as_u64())
}

/// What applying a saved profile does.
#[derive(Clone, Copy, Debug, PartialEq, Eq, Structural)]
pub enum Reload {
    /// The mapper is off. It is left alone: the user may have turned it off.
    LeftAlone,
    /// Stop it and start it again; it held the devices.
    Restart,
    /// Stop it and start it again; the devices are taken in game mode.
    RestartUngrabbed,
}

/// What applying does, given the two flags of the mapper's state.
pub open spec fn reload_spec(running: Option<bool>, grabbed: Option<bool>) -> Reload {
    if running != Some(true) {
        Reload::LeftAlone
    } else if grabbed == Some(true) {
        Reload::Restart
    } else {
        Reload::RestartUngrabbed
    }
}

/// What applying does, given the two flags of the mapper's state. A flag that
/// is missing counts as off.
pub fn reload(running: Option<bool>, grabbed: Option<bool>) -> (r: Reload)
    ensures
        r == reload_spec(running, grabbed),
{
    match running {
        Some(true) => match grabbed {
            Some(true) => Reload::Restart,
            _ => Reload::RestartUngrabbed,
        },
        _ => Reload::LeftAlone,
    }
}

/// What applying does, given what the mapper says of itself.
pub fn reload_keymapper(status: &str) -> (r: Reload)
    ensures
        r == reload_spec(
            json_bool(status@, "running"@),
            json_bool(status@, "grabbed"@),
        ),
{
    reload(bool_at(status, "running"), bool_at(status, "grabbed"))
}

impl Reload {
    pub open spec fn text(self) -> Seq<char> {
        match self {
            Reload::LeftAlone => "the keymapper was already off — left it alone"@,
            Reload::Restart => "keymapper restarted"@,
            Reload::RestartUngrabbed =>
            "keymapper restarted (the grab is taken in game mode)"@,
        }
    }

    /// What the browser is told.
    pub fn message(self) -> (r: &'static str)
        ensures
            r@ == self.text(),
    {
        match self {
            Reload::LeftAlone => "the keymapper was already off — left it alone",
            Reload::Restart => "keymapper restarted",
            Reload::RestartUngrabbed => "keymapper restarted (the grab is taken in game mode)",
        }
    }
}

/// Why the window's place is not known.
#[derive(Debug)]
pub enum GeometryFlaw {
    /// The reply makes no sense.
    Unreadable(String),
    /// There is no window.
    NoWindow,
}

/// Where the window is: left, top, width and height.
#[derive(Clone, Copy, Debug, PartialEq, Eq, Structural)]
pub struct Place {
    pub x: i32,
    pub y: i32,
    pub width: u32,
    pub height: u32,
}

/// The number, or zero.
pub open spec fn or_zero_i(n: Option<i64>) -> i64 {
    match n {
        Some(v) => v,
        None => 0,
    }
}

/// The number, or zero.
pub open spec fn or_zero_u(n: Option<u64>) -> u64 {
    match n {
        Some(v) => v,
        None => 0,
    }
}

/// What a reply about the window means, given its parts. A missing number
/// counts as zero, and one that is too wide loses its upper bits.
pub open spec fn place_spec(
    fault: Option<Seq<char>>,
    found: Option<bool>,
    x: Option<i64>,
    y: Option<i64>,
    width: Option<u64>,
    height: Option<u64>,
) -> Result<Place, Option<Seq<char>>> {
    match fault {
        Some(t) => Err(Some(t)),
        None => if found != Some(true) {
            Err(None)
        } else {
            Ok(
                Place {
                    x: or_zero_i(x) as i32,
                    y: or_zero_i(y) as i32,
                    width: or_zero_u(width) as u32,
                    height: or_zero_u(height) as u32,
                },
            )
        },
    }
}

/// A flaw as plain text: nothing where there is no window.
pub open spec fn place_of(r: Result<Place, GeometryFlaw>) -> Result<Place, Option<Seq<char>>> {
    match r {
        Ok(p) => Ok(p),
        Err(GeometryFlaw::Unreadable(t)) => Err(Some(t@)),
        Err(GeometryFlaw::NoWindow) => Err(None),
    }
}

/// What a reply about the window means, given its parts.
pub fn place(
    fault: Option<String>,
    found: Option<bool>,
    x: Option<i64>,
    y: Option<i64>,
    width: Option<u64>,
    height: Option<u64>,
) -> (r: Result<Place, GeometryFlaw>)
    ensures
        place_of(r) == place_spec(crate::text::some_text(fault), found, x, y, width, height),
{
    if let Some(t) = fault {
        return Err(GeometryFlaw::Unreadable(t));
    }
    match found {
        Some(true) => {},
        _ => {
            return Err(GeometryFlaw::NoWindow);
        },
    }
    let x: i64 = match x {
        Some(v) => v,
        None => 0,
    };
    let y: i64 = match y {
        Some(v) => v,
        None => 0,
    };
    let w: u64 = match width {
        Some(v) => v,
        None => 0,
    };
    let h: u64 = match height {
        Some(v) => v,
        None => 0,
    };
    Ok(
        Place {
            x: #[verifier::truncate]
            (x as i32),
            y: #[verifier::truncate]
            (y as i32),
            width: #[verifier::truncate]
            (w as u32),
            height: #[verifier::truncate]
            (h as u32),
        },
    )
}

/// What a reply about the window means.
pub fn window_geometry(reply: &str) -> (r: Result<Place, GeometryFlaw>)
    ensures
        place_of(r) == place_spec(
            json_fault(reply@),
            json_bool(reply@, "found"@),
            json_i64(reply@, "x"@),
            json_i64(reply@, "y"@),
            json_u64(reply@, "width"@),
            json_u64(reply@, "height"@),
        ),
{
    place(
        fault_of(reply),
        bool_at(reply, "found"),
        i64_at(reply, "x"),
        i64_at(reply, "y"),
        u64_at(reply, "width"),
        u64_at(reply, "height"),
    )
}

impl GeometryFlaw {
    pub open spec fn text(self) -> Seq<char> {
        match self {
            GeometryFlaw::Unreadable(t) => t@,
            GeometryFlaw::NoWindow => "Waydroid window not found — is the game open?"@,
        }
    }

    pub fn message(&self) -> (r: String)
        ensures
            r@ == self.text(),
    {
        match self {
            GeometryFlaw::Unreadable(t) => t.clone(),
            GeometryFlaw::NoWindow =>
            "Waydroid window not found — is the game open?".to_owned(),
        }
    }
}

// ---------------------------------------------------------------- laws

proof fn lemma_same_in_front(a: Seq<u8>, b: Seq<u8>, n: Seq<u8>, j: int)
    requires
        0 <= j,
        j + n.len() <= a.len(),
    ensures
        bytes_at(a + b, n, j) == bytes_at(a, n, j),
{
    assert((a + b).subrange(j, j + n.len()) =~= a.subrange(j, j + n.len()));
}

/// A request is done exactly once as many bytes have come behind its first blank line as
/// the headers announce, and is never refused for its size from there on.
pub proof fn law_a_request_is_done_once_its_body_is(v: RequestView, head: Seq<u8>, body: Seq<u8>)
    requires
        v.ok(),
        v.bytes == head + body,
        bytes_at(head, seq![13u8, 10, 13, 10], head.len() - 4),
        forall|j: int|
            0 <= j < head.len() - 4 ==> !bytes_at(head, seq![13u8, 10, 13, 10], j),
    ensures
        v.body == Some(head.len() as int),
        v.progress() == Progress::Done <==> body.len() >= length_from(
            crate::words::lines_of(lossy(head)),
            0,
        ),
        v.progress() == Progress::More <==> body.len() < length_from(
            crate::words::lines_of(lossy(head)),
            0,
        ),
{
    let n = seq![13u8, 10, 13, 10];
    assert(n =~= blank_line());
    let h = head.len() as int;
    lemma_same_in_front(head, body, n, h - 4);
    assert(bytes_at(v.bytes, blank_line(), h - 4));
    assert(v.body is Some);
    let e = v.body->0;
    if e < h {
        lemma_same_in_front(head, body, n, e - 4);
        assert(bytes_at(head, n, e - 4));
    }
    assert(e == h);
    assert(v.bytes.take(h) =~= head);
}

/// Without a blank line a request waits for more, up to a mebibyte of headers; a byte
/// more and it is refused.
pub proof fn law_headers_without_an_end_are_bounded(v: RequestView)
    requires
        v.ok(),
        forall|j: int| !bytes_at(v.bytes, seq![13u8, 10, 13, 10], j),
    ensures
        v.progress() == Progress::TooLarge <==> v.bytes.len() > 1048576,
        v.progress() == Progress::More <==> v.bytes.len() <= 1048576,
{
    let n = seq![13u8, 10, 13, 10];
    assert(n =~= blank_line());
    if v.body is Some {
        let e = v.body->0;
        assert(bytes_at(v.bytes, n, e - 4));
    }
}

proof fn lemma_first_length(l: Seq<Seq<char>>, i: int, k: int)
    requires
        0 <= i <= k < l.len(),
        length_in(l[k]) is Some,
        forall|j: int| i <= j < k ==> length_in(#[trigger] l[j]) is None,
    ensures
        length_from(l, i) == length_in(l[k])->0,
    decreases k - i,
{
    if i < k {
        assert(length_in(l[i]) is None);
        lemma_first_length(l, i + 1, k);
    }
}

proof fn lemma_no_length(l: Seq<Seq<char>>, i: int)
    requires
        0 <= i <= l.len(),
        forall|j: int| 0 <= j < l.len() ==> length_in(#[trigger] l[j]) is None,
    ensures
        length_from(l, i) == 0,
    decreases l.len() - i,
{
    if i < l.len() {
        assert(length_in(l[i]) is None);
        lemma_no_length(l, i + 1);
    }
}

/// The first header that announces a length decides; without one the body is empty.
pub proof fn law_the_first_announced_length_counts(l: Seq<Seq<char>>, k: int)
    ensures
        0 <= k < l.len() && length_in(l[k]) is Some && (forall|j: int|
            0 <= j < k ==> length_in(#[trigger] l[j]) is None) ==> length_from(l, 0) == length_in(
            l[k],
        )->0,
        (forall|j: int| 0 <= j < l.len() ==> length_in(#[trigger] l[j]) is None) ==> length_from(
            l,
            0,
        ) == 0,
{
    if 0 <= k < l.len() && length_in(l[k]) is Some && (forall|j: int|
        0 <= j < k ==> length_in(#[trigger] l[j]) is None) {
        lemma_first_length(l, 0, k);
    }
    if forall|j: int| 0 <= j < l.len() ==> length_in(#[trigger] l[j]) is None {
        lemma_no_length(l, 0);
    }
}

/// A header announces the number behind its name, in whatever case that is written and
/// with a space before it.
pub proof fn law_a_length_is_read_in_any_case(name: Seq<char>, n: nat)
    requires
        crate::text::lower(name) == "content-length:"@,
        n <= usize::MAX,
    ensures
        length_in(name.push(' ') + crate::text::decimal(n)) == Some(n),
{
    let d = crate::text::decimal(n);
    let line = name.push(' ') + d;
    let rest = seq![' '] + d;
    crate::text::law_a_number_reads_back(n);
    crate::words::law_a_written_number_is_read(n);
    let low = crate::text::lower(line);
    let h = name.len() as int;
    assert(low.len() == line.len());
    assert(low =~= crate::text::lower(name) + rest) by {
        assert forall|i: int| 0 <= i < low.len() implies low[i] == (crate::text::lower(name)
            + rest)[i] by {
            if i < h {
                assert(line[i] == name[i]);
            } else if i == h {
                assert(line[i] == ' ');
            } else {
                assert(line[i] == d[i - h - 1]);
                assert('0' <= d[i - h - 1] <= '9');
            }
        }
    }
    let key = "content-length:"@;
    assert(low.subrange(0, key.len() as int) =~= key);
    assert(low.skip(key.len() as int) =~= rest);
    crate::words::law_trimming_takes_only_the_edges(rest);
    let (i, j) = choose|i: int, j: int|
        crate::words::edges(rest, i, j) && crate::words::trimmed(rest) == #[trigger] rest.subrange(
            i,
            j,
        );
    assert(rest[1] == d[0] && rest[rest.len() - 1] == d.last());
    assert('0' <= d[0] <= '9' && '0' <= d[d.len() - 1] <= '9');
    assert(!crate::words::is_space(rest[1]) && !crate::words::is_space(rest[rest.len() - 1]));
    assert(i <= 1 && j == rest.len());
    assert(crate::words::trimmed(rest)[0] == rest[i]);
    assert(i == 1);
    assert(rest.subrange(1, j) =~= d);
}

/// A number of 32 bits as four bytes, the highest first.
pub open spec fn four_bytes(n: u32) -> Seq<u8> {
    seq![(n / 16777216) as u8, (n / 65536 % 256) as u8, (n / 256 % 256) as u8, (n % 256) as u8]
}

/// A picture that states its width and then its height, highest bytes first, behind the
/// mark of the format has that size, whatever follows.
pub proof fn law_a_picture_has_the_size_it_states(
    width: u32,
    height: u32,
    length: Seq<u8>,
    rest: Seq<u8>,
)
    requires
        length.len() == 4,
    ensures
        size_in(
            seq![137u8, 80, 78, 71, 13, 10, 26, 10] + length + seq![73u8, 72, 68, 82] + four_bytes(
                width,
            ) + four_bytes(height) + rest,
        ) == Some((width as int, height as int)),
{
    let m = seq![137u8, 80, 78, 71, 13, 10, 26, 10];
    let c = seq![73u8, 72, 68, 82];
    let b = m + length + c + four_bytes(width) + four_bytes(height) + rest;
    assert(b.subrange(0, 8) =~= png_magic());
    assert(b.subrange(12, 16) =~= size_chunk());
    let w = four_bytes(width);
    let h = four_bytes(height);
    assert(b[16] == w[0] && b[17] == w[1] && b[18] == w[2] && b[19] == w[3]);
    assert(b[20] == h[0] && b[21] == h[1] && b[22] == h[2] && b[23] == h[3]);
    lemma_four_bytes(width);
    lemma_four_bytes(height);
}

proof fn lemma_four_bytes(n: u32)
    ensures
        four_bytes(n)[0] * 16777216 + four_bytes(n)[1] * 65536 + four_bytes(n)[2] * 256
            + four_bytes(n)[3] == n,
{
    assert(n / 16777216 < 256);
    assert(n / 16777216 * 16777216 + n / 65536 % 256 * 65536 + n / 256 % 256 * 256 + n % 256 == n);
}

/// What does not begin as a picture of this format does has no size.
pub proof fn law_only_the_format_has_a_size(b: Seq<u8>)
    ensures
        size_in(b) is Some <==> b.len() >= 24 && b.take(8) == seq![
            137u8,
            80,
            78,
            71,
            13,
            10,
            26,
            10,
        ] && b.subrange(12, 16) == seq![73u8, 72, 68, 82],
{
    assert(png_magic() =~= seq![137u8, 80, 78, 71, 13, 10, 26, 10]);
    assert(size_chunk() =~= seq![73u8, 72, 68, 82]);
    if b.len() >= 24 {
        assert(b.take(8) =~= b.subrange(0, 8));
    }
}

proof fn lemma_one_opening(line: Seq<char>, a: Seq<char>, b: Seq<char>, i: int)
    requires
        0 <= i < a.len(),
        i < b.len(),
        a[i] != b[i],
    ensures
        !(crate::text::opens_with(line, a) && crate::text::opens_with(line, b)),
{
    if crate::text::opens_with(line, a) && crate::text::opens_with(line, b) {
        assert(line.subrange(0, a.len() as int)[i] == line[i]);
        assert(line.subrange(0, b.len() as int)[i] == line[i]);
    }
}

/// Every request goes where its method and path lead, and nowhere else; what leads
/// nowhere is not found.
pub proof fn law_a_request_goes_where_it_leads(line: Seq<char>)
    ensures
        route_spec(line) == Route::Page <==> crate::text::opens_with(line, "GET / "@)
            || crate::text::opens_with(line, "GET /index"@),
        route_spec(line) == Route::State <==> crate::text::opens_with(line, "GET /state.json"@),
        route_spec(line) == Route::Shot <==> crate::text::opens_with(line, "GET /shot.png"@),
        route_spec(line) == Route::Reshot <==> crate::text::opens_with(line, "POST /reshot"@),
        route_spec(line) == Route::Save <==> crate::text::opens_with(line, "POST /save"@),
        route_spec(line) == Route::Apply <==> crate::text::opens_with(line, "POST /apply"@),
        route_spec(line) == Route::Poke <==> crate::text::opens_with(line, "POST /poke"@),
{
    reveal_strlit("GET / ");
    reveal_strlit("GET /index");
    reveal_strlit("GET /state.json");
    reveal_strlit("GET /shot.png");
    reveal_strlit("POST /reshot");
    reveal_strlit("POST /save");
    reveal_strlit("POST /apply");
    reveal_strlit("POST /poke");
    let root = "GET / "@;
    let index = "GET /index"@;
    let state = "GET /state.json"@;
    let shot = "GET /shot.png"@;
    let reshot = "POST /reshot"@;
    let save = "POST /save"@;
    let apply = "POST /apply"@;
    let poke = "POST /poke"@;
    lemma_one_opening(line, root, state, 5);
    lemma_one_opening(line, root, shot, 5);
    lemma_one_opening(line, index, state, 5);
    lemma_one_opening(line, index, shot, 5);
    lemma_one_opening(line, state, shot, 6);
    lemma_one_opening(line, root, reshot, 0);
    lemma_one_opening(line, root, save, 0);
    lemma_one_opening(line, root, apply, 0);
    lemma_one_opening(line, root, poke, 0);
    lemma_one_opening(line, index, reshot, 0);
    lemma_one_opening(line, index, save, 0);
    lemma_one_opening(line, index, apply, 0);
    lemma_one_opening(line, index, poke, 0);
    lemma_one_opening(line, state, reshot, 0);
    lemma_one_opening(line, state, save, 0);
    lemma_one_opening(line, state, apply, 0);
    lemma_one_opening(line, state, poke, 0);
    lemma_one_opening(line, shot, reshot, 0);
    lemma_one_opening(line, shot, save, 0);
    lemma_one_opening(line, shot, apply, 0);
    lemma_one_opening(line, shot, poke, 0);
    lemma_one_opening(line, reshot, save, 6);
    lemma_one_opening(line, reshot, apply, 6);
    lemma_one_opening(line, reshot, poke, 6);
    lemma_one_opening(line, save, apply, 6);
    lemma_one_opening(line, save, poke, 6);
    lemma_one_opening(line, apply, poke, 6);
}

/// The status of an answer tells how it went: not found whatever happened where the path
/// leads nowhere, else fine, a bad request or a failure; only what went well has a kind
/// of its own.
pub proof fn law_the_status_tells_how_it_went(route: Route, outcome: Outcome)
    ensures
        route == Route::NotFound ==> answer_spec(route, outcome).0 == "404 Not Found"@,
        route != Route::NotFound && outcome is Fine ==> answer_spec(route, outcome).0
            == "200 OK"@,
        route != Route::NotFound && outcome is Bad ==> answer_spec(route, outcome).0
            == "400 Bad Request"@,
        route != Route::NotFound && outcome is Failed ==> answer_spec(route, outcome).0
            == "500 Internal Server Error"@,
        answer_spec(route, outcome).1 == if outcome is Fine && route == Route::Page {
            "text/html; charset=utf-8"@
        } else if outcome is Fine && (route == Route::State || route == Route::Reshot) {
            "application/json"@
        } else if outcome is Fine && route == Route::Shot {
            "image/png"@
        } else {
            "text/plain"@
        },
{
}

/// A mapper that is off is left off; one that runs is started again, and told to be
/// without the grab unless it holds it.
pub proof fn law_only_a_running_mapper_is_restarted(running: Option<bool>, grabbed: Option<bool>)
    ensures
        reload_spec(running, grabbed) == Reload::LeftAlone <==> running != Some(true),
        reload_spec(running, grabbed) == Reload::Restart <==> running == Some(true) && grabbed
            == Some(true),
        reload_spec(running, grabbed) == Reload::RestartUngrabbed <==> running == Some(true)
            && grabbed != Some(true),
{
}

/// A window is placed exactly if the reply can be read and one was found; then every
/// figure is the one that the reply gives under its name.
pub proof fn law_a_window_is_where_the_reply_says(
    fault: Option<Seq<char>>,
    found: Option<bool>,
    x: i32,
    y: i32,
    width: u32,
    height: u32,
)
    ensures
        ({
            let p = place_spec(
                fault,
                found,
                Some(x as i64),
                Some(y as i64),
                Some(width as u64),
                Some(height as u64),
            );
            &&& p is Ok <==> fault is None && found == Some(true)
            &&& p is Ok ==> p == Ok::<_, Option<Seq<char>>>(Place { x, y, width, height })
            &&& fault is Some ==> p == Err::<Place, _>(fault)
        }),
{
}

} // verus!
