//! The privileged helper: what it accepts and how it reads what Android says.
//!
//! The helper runs as root and offers narrow, named operations instead of a
//! shell. Every input is checked against a fixed list or a fixed shape before
//! anything is run; the string that reaches a command comes from the list, not
//! from the caller.

use vstd::prelude::*;
use vstd::string::*;

verus! {

/// The most log lines a call returns. An unbounded log exceeds the size of a
/// bus message and the call fails silently.
pub const MOST_LOG_LINES: u32 = 2000;

/// The longest layer name, in bytes.
pub const MOST_LAYER_BYTES: usize = 512;

// ---------------------------------------------------------------- requests

/// The log buffers there are.
pub open spec fn log_buffers() -> Seq<Seq<char>> {
    seq!["main"@, "crash"@, "system"@, "events"@, "all"@]
}

/// Validates a log buffer name against the fixed list. The string returned is
/// the one from the list; the caller's never reaches a command.
pub fn valid_log_buffer(b: &str) -> (r: Option<&'static str>)
    ensures
        r is Some == log_buffers().contains(b@),
        r matches Some(s) ==> s@ == b@,
{
    let ghost all = log_buffers();
    proof {
        assert(all[0] == "main"@ && all[1] == "crash"@ && all[2] == "system"@ && all[3]
            == "events"@ && all[4] == "all"@);
    }
    if crate::text::same(b, "main") {
        Some("main")
    } else if crate::text::same(b, "crash") {
        Some("crash")
    } else if crate::text::same(b, "system") {
        Some("system")
    } else if crate::text::same(b, "events") {
        Some("events")
    } else if crate::text::same(b, "all") {
        Some("all")
    } else {
        None
    }
}

/// A line count within bounds.
pub open spec fn bounded_lines(n: u32) -> u32 {
    if n < 1 {
        1
    } else if n > MOST_LOG_LINES {
        MOST_LOG_LINES
    } else {
        n
    }
}

/// Clamps the line count to a sensible range.
pub fn clamp_log_lines(n: u32) -> (r: u32)
    ensures
        r == bounded_lines(n),
        1 <= r <= MOST_LOG_LINES,
{
    if n < 1 {
        1
    } else if n > MOST_LOG_LINES {
        MOST_LOG_LINES
    } else {
        n
    }
}

/// The command that reads the log. With exact times one noisy tag is silenced:
/// it writes two lines per frame and would push the events out of the ring. Any
/// filter silences everything else, so the rest is named too.
pub open spec fn log_command(buffer: Seq<char>, lines: u32, monotonic: bool) -> Seq<Seq<char>> {
    let n = crate::text::decimal(bounded_lines(lines) as nat);
    if monotonic {
        seq![
            "logcat"@,
            "-d"@,
            "-b"@,
            buffer,
            "-v"@,
            "monotonic"@,
            "-v"@,
            "threadtime"@,
            "-t"@,
            n,
            "hwcomposer:S"@,
            "*:I"@,
        ]
    } else {
        seq!["logcat"@, "-d"@, "-b"@, buffer, "-t"@, n]
    }
}

/// The command that reads the log, or nothing for a buffer that there is not.
pub fn logcat(buffer: &str, lines: u32, monotonic: bool) -> (r: Option<Vec<String>>)
    ensures
        r is Some == log_buffers().contains(buffer@),
        r matches Some(v) ==> crate::text::texts(v@) == log_command(buffer@, lines, monotonic),
{
    let buf: &'static str = match valid_log_buffer(buffer) {
        Some(b) => b,
        None => {
            return None;
        },
    };
    let n: String = crate::say::count(clamp_log_lines(lines) as u64);
    let mut out: Vec<String> = crate::say::page();
    crate::say::say(&mut out, "logcat");
    crate::say::say(&mut out, "-d");
    crate::say::say(&mut out, "-b");
    crate::say::say(&mut out, buf);
    if monotonic {
        crate::say::say(&mut out, "-v");
        crate::say::say(&mut out, "monotonic");
        crate::say::say(&mut out, "-v");
        crate::say::say(&mut out, "threadtime");
    }
    crate::say::say(&mut out, "-t");
    crate::say::put(&mut out, n);
    if monotonic {
        crate::say::say(&mut out, "hwcomposer:S");
        crate::say::say(&mut out, "*:I");
    }
    assert(crate::text::texts(out@) =~= log_command(buffer@, lines, monotonic));
    Some(out)
}

/// What an unknown buffer is answered. `quoted` is the name in quotes.
pub fn bad_buffer(quoted: &str) -> (r: String)
    ensures
        r@ == "invalid buffer: "@ + quoted@ + " (main|crash|system|events|all)"@,
{
    crate::say::cat3("invalid buffer: ", quoted, " (main|crash|system|events|all)")
}

/// A control character.
pub open spec fn is_control(c: char) -> bool {
    c <= '\u{1f}' || '\u{7f}' <= c <= '\u{9f}'
}

/// A layer name that may go into a command: not empty, not too long, without
/// control characters.
pub open spec fn layer_name(s: Seq<char>) -> bool {
    &&& s.len() > 0
    &&& crate::text::bytes_len(s) <= MOST_LAYER_BYTES
    &&& forall|i: int| 0 <= i < s.len() ==> !is_control(#[trigger] s[i])
}

/// Whether a layer name may go into a command.
pub fn valid_layer(s: &str) -> (r: bool)
    ensures
        r == layer_name(s@),
{
    let cs: Vec<char> = crate::text::chars_of(s);
    if cs.len() == 0 || !crate::text::fits_in(s, MOST_LAYER_BYTES) {
        return false;
    }
    let mut i: usize = 0;
    while i < cs.len()
        invariant
            cs@ == s@,
            i <= cs@.len(),
            forall|k: int| 0 <= k < i ==> !is_control(#[trigger] cs@[k]),
        decreases cs@.len() - i,
    {
        let c: char = cs[i];
        if c <= '\u{1f}' || ('\u{7f}' <= c && c <= '\u{9f}') {
            assert(is_control(s@[i as int]));
            return false;
        }
        i = i + 1;
    }
    true
}

/// What killing the audio service came to, by the exit code of the tool.
#[derive(Clone, Copy, Debug, PartialEq, Eq, Structural)]
pub enum AudioOutcome {
    Killed,
    /// Nothing matched. That is no error, but nothing was restarted either.
    NotRunning,
    Failed,
}

pub open spec fn audio_spec(code: Option<i32>) -> AudioOutcome {
    match code {
        Some(0) => AudioOutcome::Killed,
        Some(1) => AudioOutcome::NotRunning,
        _ => AudioOutcome::Failed,
    }
}

/// What killing the audio service came to, by the exit code of the tool.
pub fn restart_audio(code: Option<i32>) -> (r: AudioOutcome)
    ensures
        r == audio_spec(code),
{
    match code {
        Some(0) => AudioOutcome::Killed,
        Some(1) => AudioOutcome::NotRunning,
        _ => AudioOutcome::Failed,
    }
}

// ---------------------------------------------------------------- output

/// A line that the container tool mixes into what a command says.
pub open spec fn noise(line: Seq<char>) -> bool {
    crate::text::occurs(line, "% lxc-info"@) || crate::text::closes_with(
        crate::words::end_trimmed(line),
        "] RUNNING"@,
    )
}

/// The lines among the first `n` that are not noise.
pub open spec fn quiet_lines(l: Seq<Seq<char>>, n: int) -> Seq<Seq<char>>
    decreases n,
{
    if n <= 0 {
        Seq::empty()
    } else if noise(l[n - 1]) {
        quiet_lines(l, n - 1)
    } else {
        quiet_lines(l, n - 1).push(l[n - 1])
    }
}

/// What a command said, without the tool's noise.
pub open spec fn cleaned(out: Seq<char>, sep: Seq<char>) -> Seq<char> {
    let l = crate::words::lines_of(out);
    crate::words::joined(quiet_lines(l, l.len() as int), sep)
}

/// What a command said, without the tool's noise, its lines joined by `sep`.
/// Left in, the noise silently breaks the parsing of numbers.
pub fn clean_output(out: &str, sep: &str) -> (r: String)
    ensures
        r@ == cleaned(out@, sep@),
{
    let l: Vec<String> = crate::words::lines(out);
    let ghost t = crate::words::lines_of(out@);
    let mut kept: Vec<String> = crate::say::page();
    let mut i: usize = 0;
    while i < l.len()
        invariant
            i <= l@.len(),
            t == crate::text::texts(l@),
            crate::text::texts(kept@) == quiet_lines(t, i as int),
        decreases l@.len() - i,
    {
        let line: &str = l[i].as_str();
        assert(t[i as int] == l@[i as int]@);
        let tail: String = crate::words::trim_end(line);
        if !crate::text::contains(line, "% lxc-info") && !crate::text::ends_with(
            tail.as_str(),
            "] RUNNING",
        ) {
            crate::say::put(&mut kept, l[i].clone());
        }
        i = i + 1;
    }
    crate::words::join(&kept, sep)
}

/// The value of a property, as a command printed it.
pub fn property(out: &str) -> (r: String)
    ensures
        r@ == crate::words::trimmed(cleaned(out@, ""@)),
{
    let t: String = clean_output(out, "");
    crate::words::trim(t.as_str())
}

/// Whether a property says that Android finished booting.
pub fn boot_completed(value: &str) -> (r: bool)
    ensures
        r == (crate::words::trimmed(value@) == "1"@),
{
    let t: String = crate::words::trim(value);
    crate::text::same(t.as_str(), "1")
}

/// Why the display size cannot be told.
#[derive(Clone, Copy, Debug, PartialEq, Eq, Structural)]
pub enum DisplayFlaw {
    /// The width is not a number.
    Width,
    /// The height is not a number.
    Height,
    /// A side is zero: the display is not plugged in yet.
    Zero,
}

/// The display size in what the two properties say.
pub open spec fn display_spec(w: Seq<char>, h: Seq<char>) -> Result<(u32, u32), DisplayFlaw> {
    match (
        crate::words::number_within(crate::words::trimmed(w), u32::MAX as nat),
        crate::words::number_within(crate::words::trimmed(h), u32::MAX as nat),
    ) {
        (None, _) => Err(DisplayFlaw::Width),
        (_, None) => Err(DisplayFlaw::Height),
        (Some(a), Some(b)) => if a == 0 || b == 0 {
            Err(DisplayFlaw::Zero)
        } else {
            Ok((a as u32, b as u32))
        },
    }
}

/// The size of the Android display in what the two properties say. Not the size
/// of the host window: touches go to the display.
pub fn display_px(w: &str, h: &str) -> (r: Result<(u32, u32), DisplayFlaw>)
    ensures
        r == display_spec(w@, h@),
{
    let tw: String = crate::words::trim(w);
    let th: String = crate::words::trim(h);
    let a: u64 = match crate::words::parse_within(tw.as_str(), u32::MAX as u64) {
        Some(a) => a,
        None => {
            return Err(DisplayFlaw::Width);
        },
    };
    let b: u64 = match crate::words::parse_within(th.as_str(), u32::MAX as u64) {
        Some(b) => b,
        None => {
            return Err(DisplayFlaw::Height);
        },
    };
    if a == 0 || b == 0 {
        return Err(DisplayFlaw::Zero);
    }
    Ok((a as u32, b as u32))
}

impl DisplayFlaw {
    /// The flaw in words. `quoted` is what the property said, in quotes.
    pub open spec fn text(self, quoted: Seq<char>) -> Seq<char> {
        let not_number = " is not a number: "@ + quoted
            + " — hwcomposer may not have hotplugged yet"@;
        match self {
            DisplayFlaw::Width => "waydroid.display_width"@ + not_number,
            DisplayFlaw::Height => "waydroid.display_height"@ + not_number,
            DisplayFlaw::Zero => "display size is 0 — hwcomposer has not hotplugged yet"@,
        }
    }

    /// The flaw in words. `quoted` is what the property said, in quotes.
    pub fn message(self, quoted: &str) -> (r: String)
        ensures
            r@ == self.text(quoted@),
    {
        let tail: String = crate::say::cat3(
            " is not a number: ",
            quoted,
            " — hwcomposer may not have hotplugged yet",
        );
        match self {
            DisplayFlaw::Width => crate::say::cat2("waydroid.display_width", tail.as_str()),
            DisplayFlaw::Height => crate::say::cat2("waydroid.display_height", tail.as_str()),
            DisplayFlaw::Zero =>
            "display size is 0 — hwcomposer has not hotplugged yet".to_owned(),
        }
    }
}

/// The process number that a search printed first.
pub open spec fn first_pid(out: Seq<char>) -> Option<u32> {
    let w = crate::words::words_of(out);
    if w.len() == 0 {
        None
    } else {
        match crate::words::number_within(w[0], u32::MAX as nat) {
            Some(n) => Some(n as u32),
            None => None,
        }
    }
}

/// A process through which the container is visible, in what a search printed.
pub fn container_pid(out: &str) -> (r: Option<u32>)
    ensures
        r == first_pid(out@),
{
    let w: Vec<String> = crate::words::words(out);
    if w.len() == 0 {
        return None;
    }
    assert(crate::text::texts(w@)[0] == w@[0]@);
    match crate::words::parse_within(w[0].as_str(), u32::MAX as u64) {
        Some(n) => Some(n as u32),
        None => None,
    }
}

/// Where the touch pipe is, seen from outside the container.
pub fn touch_pipe_path(pid: u32) -> (r: String)
    ensures
        r@ == "/proc/"@ + crate::text::decimal(pid as nat) + "/root/dev/input/wl_touch_events"@,
{
    let n: String = crate::say::count(pid as u64);
    crate::say::cat3("/proc/", n.as_str(), "/root/dev/input/wl_touch_events")
}

// ---------------------------------------------------------------- foreground

/// A word with a slash and a dot in it.
pub open spec fn component(w: Seq<char>) -> bool {
    w.contains('/') && w.contains('.')
}

/// The first word from `i` on that names a component.
pub open spec fn component_at(w: Seq<Seq<char>>, i: int) -> int
    decreases w.len() - i,
{
    if i >= w.len() || component(w[i]) {
        i
    } else {
        component_at(w, i + 1)
    }
}

/// Where a character first stands, looking from `i` on.
pub open spec fn char_at(s: Seq<char>, c: char, i: int) -> int
    decreases s.len() - i,
{
    if i >= s.len() || s[i] == c {
        i
    } else {
        char_at(s, c, i + 1)
    }
}

/// Where the run of opening braces that `i` stands in ends.
pub open spec fn after_braces(s: Seq<char>, i: int) -> int
    decreases s.len() - i,
{
    if i >= s.len() || s[i] != '{' {
        i
    } else {
        after_braces(s, i + 1)
    }
}

/// The package of a component: what stands before the slash, without braces
/// before it, if it has a dot.
pub open spec fn package_of(w: Seq<char>) -> Option<Seq<char>> {
    let head = w.take(char_at(w, '/', 0));
    let p = head.skip(after_braces(head, 0));
    if p.contains('.') {
        Some(p)
    } else {
        None
    }
}

/// The package named in a record such as
/// `... u0 com.kiloo.subwaysurf/com.sybogames...Activity t42}`.
pub open spec fn package_in(s: Seq<char>) -> Option<Seq<char>> {
    let w = crate::words::words_of(s);
    let i = component_at(w, 0);
    if i < w.len() {
        package_of(w[i])
    } else {
        None
    }
}

fn holds(cs: &Vec<char>, c: char) -> (r: bool)
    ensures
        r == cs@.contains(c),
{
    let mut i: usize = 0;
    while i < cs.len()
        invariant
            i <= cs@.len(),
            forall|k: int| 0 <= k < i ==> cs@[k] != c,
        decreases cs@.len() - i,
    {
        if cs[i] == c {
            assert(cs@[i as int] == c);
            return true;
        }
        i = i + 1;
    }
    false
}

fn component_package(w: &str) -> (r: Option<String>)
    ensures
        crate::text::some_text(r) == package_of(w@),
{
    let cs: Vec<char> = crate::text::chars_of(w);
    let mut e: usize = 0;
    while e < cs.len() && cs[e] != '/'
        invariant
            cs@ == w@,
            e <= cs@.len(),
            char_at(w@, '/', 0) == char_at(w@, '/', e as int),
        decreases cs@.len() - e,
    {
        e = e + 1;
    }
    let ghost head = w@.take(e as int);
    let mut b: usize = 0;
    while b < e && cs[b] == '{'
        invariant
            cs@ == w@,
            b <= e <= cs@.len(),
            head == w@.take(e as int),
            after_braces(head, 0) == after_braces(head, b as int),
        decreases e - b,
    {
        assert(head[b as int] == w@[b as int]);
        b = b + 1;
    }
    if b < e {
        assert(head[b as int] == w@[b as int]);
    }
    let p: String = crate::text::string_of(&cs, b, e);
    assert(p@ =~= head.skip(b as int));
    let ps: Vec<char> = crate::text::chars_of(p.as_str());
    if holds(&ps, '.') {
        Some(p)
    } else {
        None
    }
}

/// Extracts the package name from a record.
pub fn extract_pkg(s: &str) -> (r: Option<String>)
    ensures
        crate::text::some_text(r) == package_in(s@),
{
    let w: Vec<String> = crate::words::words(s);
    let ghost t = crate::words::words_of(s@);
    let mut i: usize = 0;
    while i < w.len()
        invariant
            i <= w@.len(),
            t == crate::text::texts(w@),
            t == crate::words::words_of(s@),
            component_at(t, 0) == component_at(t, i as int),
        decreases w@.len() - i,
    {
        assert(t[i as int] == w@[i as int]@);
        let cs: Vec<char> = crate::text::chars_of(w[i].as_str());
        if holds(&cs, '/') && holds(&cs, '.') {
            return component_package(w[i].as_str());
        }
        i = i + 1;
    }
    None
}

/// The package that stands behind `key` in a line, if the key stands in it.
pub open spec fn keyed(line: Seq<char>, key: Seq<char>) -> Option<Seq<char>> {
    match crate::text::after(line, key) {
        Some(rest) => package_in(rest),
        None => None,
    }
}

/// The package that a line names as being in front. The format varies between
/// Android versions, so several keys are tried, the most reliable first.
pub open spec fn front_in(line: Seq<char>) -> Option<Seq<char>> {
    let t = crate::words::trimmed(line);
    match keyed(t, "mResumedActivity:"@) {
        Some(p) => Some(p),
        None => match keyed(t, "topResumedActivity="@) {
            Some(p) => Some(p),
            None => keyed(t, "mFocusedActivity:"@),
        },
    }
}

/// The package that the lines from `i` on name first.
pub open spec fn front_from(l: Seq<Seq<char>>, i: int) -> Option<Seq<char>>
    decreases l.len() - i,
{
    if i >= l.len() {
        None
    } else {
        match front_in(l[i]) {
            Some(p) => Some(p),
            None => front_from(l, i + 1),
        }
    }
}

fn keyed_package(line: &str, key: &str) -> (r: Option<String>)
    ensures
        crate::text::some_text(r) == keyed(line@, key@),
{
    match crate::text::rest_after(line, key) {
        Some(rest) => extract_pkg(rest.as_str()),
        None => None,
    }
}

/// Extracts the foreground package from a dump of the activities. If no pattern
/// matches nothing is invented: the wrong package would load the wrong profile.
pub fn parse_foreground(dump: &str) -> (r: Option<String>)
    ensures
        crate::text::some_text(r) == front_from(crate::words::lines_of(dump@), 0),
{
    let l: Vec<String> = crate::words::lines(dump);
    let ghost t = crate::words::lines_of(dump@);
    let mut i: usize = 0;
    while i < l.len()
        invariant
            i <= l@.len(),
            t == crate::text::texts(l@),
            t == crate::words::lines_of(dump@),
            front_from(t, 0) == front_from(t, i as int),
        decreases l@.len() - i,
    {
        assert(t[i as int] == l@[i as int]@);
        let line: String = crate::words::trim(l[i].as_str());
        if let Some(p) = keyed_package(line.as_str(), "mResumedActivity:") {
            return Some(p);
        }
        if let Some(p) = keyed_package(line.as_str(), "topResumedActivity=") {
            return Some(p);
        }
        if let Some(p) = keyed_package(line.as_str(), "mFocusedActivity:") {
            return Some(p);
        }
        i = i + 1;
    }
    None
}

// ---------------------------------------------------------------- laws

/// Whatever the caller asks for, the log command names a buffer of the list and
/// a bounded number of lines.
pub proof fn law_the_log_command_is_fixed(buffer: Seq<char>, lines: u32, monotonic: bool)
    requires
        log_buffers().contains(buffer),
    ensures
        ({
            let c = log_command(buffer, lines, monotonic);
            &&& c[0] == "logcat"@
            &&& log_buffers().contains(c[3])
            &&& c.contains(crate::text::decimal(bounded_lines(lines) as nat))
            &&& 1 <= bounded_lines(lines) <= MOST_LOG_LINES
        }),
{
    let c = log_command(buffer, lines, monotonic);
    let n = crate::text::decimal(bounded_lines(lines) as nat);
    if monotonic {
        assert(c[9] == n);
    } else {
        assert(c[5] == n);
    }
}

/// A package is only ever read off a component: it has a dot, no slash and no
/// brace before it.
pub proof fn law_no_package_is_invented(s: Seq<char>)
    requires
        package_in(s) is Some,
    ensures
        package_in(s)->0.contains('.'),
        !package_in(s)->0.contains('/'),
        package_in(s)->0[0] != '{',
{
    let w = crate::words::words_of(s);
    let i = component_at(w, 0);
    let c = w[i];
    lemma_char_at(c, '/', 0);
    let head = c.take(char_at(c, '/', 0));
    lemma_after_braces(head, 0);
    let p = head.skip(after_braces(head, 0));
    assert(p.contains('.'));
    assert(!p.contains('/')) by {
        if p.contains('/') {
            let k = choose|k: int| 0 <= k < p.len() && p[k] == '/';
            assert(c[after_braces(head, 0) + k] == '/');
        }
    }
    assert(p.len() > 0);
    assert(p[0] == head[after_braces(head, 0)]);
}

proof fn lemma_char_at(s: Seq<char>, c: char, i: int)
    requires
        0 <= i <= s.len(),
    ensures
        i <= char_at(s, c, i) <= s.len(),
        forall|k: int| i <= k < char_at(s, c, i) ==> #[trigger] s[k] != c,
    decreases s.len() - i,
{
    if i < s.len() && s[i] != c {
        lemma_char_at(s, c, i + 1);
    }
}

proof fn lemma_after_braces(s: Seq<char>, i: int)
    requires
        0 <= i <= s.len(),
    ensures
        i <= after_braces(s, i) <= s.len(),
        after_braces(s, i) < s.len() ==> s[after_braces(s, i)] != '{',
    decreases s.len() - i,
{
    if i < s.len() && s[i] == '{' {
        lemma_after_braces(s, i + 1);
    }
}

/// The number of log lines is what was asked for, between one and two thousand.
pub proof fn law_log_lines_are_bounded(n: u32)
    ensures
        1 <= n <= 2000 ==> bounded_lines(n) == n,
        n < 1 ==> bounded_lines(n) == 1,
        n > 2000 ==> bounded_lines(n) == 2000,
{
}

/// The outcome of restarting the sound is read off the exit code: done, nothing to
/// do, or failed.
pub proof fn law_the_sound_outcome_is_the_code(code: Option<i32>)
    ensures
        audio_spec(code) == AudioOutcome::Killed <==> code == Some(0i32),
        audio_spec(code) == AudioOutcome::NotRunning <==> code == Some(1i32),
        audio_spec(code) == AudioOutcome::Failed <==> code != Some(0i32) && code != Some(1i32),
{
}

/// Cleaning takes the container tool's own chatter away and nothing else, in order.
pub proof fn law_cleaning_removes_only_noise(l: Seq<Seq<char>>)
    ensures
        quiet_lines(l, l.len() as int) == l.filter(|x: Seq<char>| !noise(x)),
{
    lemma_quiet(l, l.len() as int);
    assert(l.take(l.len() as int) =~= l);
}

proof fn lemma_quiet(l: Seq<Seq<char>>, n: int)
    requires
        0 <= n <= l.len(),
    ensures
        quiet_lines(l, n) == l.take(n).filter(|x: Seq<char>| !noise(x)),
    decreases n,
{
    let kept = |x: Seq<char>| !noise(x);
    reveal(Seq::filter);
    if n == 0 {
        assert(l.take(0).filter(kept) =~= Seq::<Seq<char>>::empty());
    } else {
        lemma_quiet(l, n - 1);
        assert(l.take(n).drop_last() =~= l.take(n - 1));
        assert(l.take(n).last() == l[n - 1]);
    }
}

/// A display has a size exactly if both parts are numbers and neither is zero; the
/// width comes first, also in what is found wrong.
pub proof fn law_a_display_has_two_sides(w: Seq<char>, h: Seq<char>)
    ensures
        ({
            let a = crate::words::number_within(crate::words::trimmed(w), 0xffff_ffff);
            let b = crate::words::number_within(crate::words::trimmed(h), 0xffff_ffff);
            &&& display_spec(w, h) is Ok <==> a is Some && b is Some && a->0 != 0 && b->0 != 0
            &&& match display_spec(w, h) {
                Ok(px) => px.0 == a->0 as u32 && px.1 == b->0 as u32,
                Err(DisplayFlaw::Width) => a is None,
                Err(DisplayFlaw::Height) => a is Some && b is None,
                Err(DisplayFlaw::Zero) => a is Some && b is Some && (a->0 == 0 || b->0 == 0),
            }
        }),
{
}

/// The process of a container is the first word of the answer, where that is a
/// number.
pub proof fn law_the_first_word_is_the_process(out: Seq<char>)
    ensures
        ({
            let w = crate::words::words_of(out);
            &&& w.len() == 0 ==> first_pid(out) is None
            &&& w.len() > 0 ==> {
                let n = crate::words::number_within(w[0], 0xffff_ffff);
                (first_pid(out) is Some <==> n is Some) && (n is Some ==> first_pid(out) == Some(
                    n->0 as u32,
                ))
            }
        }),
{
}

/// The package of a component is all that stands before its first slash, without
/// the braces in front.
pub proof fn law_the_package_stands_before_the_slash(w: Seq<char>)
    requires
        package_of(w) is Some,
    ensures
        exists|i: int, j: int|
            #![trigger w.subrange(i, j)]
            {
                &&& 0 <= i < j <= w.len()
                &&& package_of(w)->0 == w.subrange(i, j)
                &&& forall|k: int| 0 <= k < i ==> #[trigger] w[k] == '{'
                &&& w[i] != '{'
                &&& j < w.len() ==> w[j] == '/'
                &&& forall|k: int| i <= k < j ==> #[trigger] w[k] != '/'
            },
{
    lemma_char_at(w, '/', 0);
    lemma_char_stops(w, '/', 0);
    let j = char_at(w, '/', 0);
    let head = w.take(j);
    lemma_after_braces(head, 0);
    lemma_braces(head, 0);
    let i = after_braces(head, 0);
    let p = package_of(w)->0;
    assert(p.contains('.'));
    assert(p.len() > 0);
    assert(p =~= w.subrange(i, j));
    assert forall|k: int| 0 <= k < i implies #[trigger] w[k] == '{' by {
        assert(head[k] == '{');
    }
    assert(w[i] == head[i]);
}

proof fn lemma_char_stops(s: Seq<char>, c: char, i: int)
    requires
        0 <= i <= s.len(),
    ensures
        char_at(s, c, i) < s.len() ==> s[char_at(s, c, i)] == c,
    decreases s.len() - i,
{
    if i < s.len() && s[i] != c {
        lemma_char_stops(s, c, i + 1);
    }
}

proof fn lemma_braces(s: Seq<char>, i: int)
    requires
        0 <= i <= s.len(),
    ensures
        forall|k: int| i <= k < after_braces(s, i) ==> #[trigger] s[k] == '{',
    decreases s.len() - i,
{
    if i < s.len() && s[i] == '{' {
        lemma_braces(s, i + 1);
    }
}

/// The package in a text is that of its first word with a slash and a dot.
pub proof fn law_the_first_component_is_taken(s: Seq<char>)
    ensures
        ({
            let w = crate::words::words_of(s);
            match package_in(s) {
                Some(p) => exists|i: int|
                    0 <= i < w.len() && (#[trigger] w[i]).contains('/') && w[i].contains('.')
                        && package_of(w[i]) == Some(p) && forall|k: int|
                        0 <= k < i ==> !((#[trigger] w[k]).contains('/') && w[k].contains('.')),
                None => forall|i: int|
                    0 <= i < w.len() && (#[trigger] w[i]).contains('/') && w[i].contains('.') ==> (
                    package_of(w[i]) is None || exists|k: int|
                        0 <= k < i && (#[trigger] w[k]).contains('/') && w[k].contains('.')),
            }
        }),
{
    let w = crate::words::words_of(s);
    lemma_component(w, 0);
    let i = component_at(w, 0);
    if i < w.len() {
        assert(component(w[i]));
        if package_in(s) is None {
            assert forall|j: int|
                0 <= j < w.len() && (#[trigger] w[j]).contains('/') && w[j].contains('.') implies (
            package_of(w[j]) is None || exists|k: int|
                0 <= k < j && (#[trigger] w[k]).contains('/') && w[k].contains('.')) by {
                if j < i {
                    assert(!component(w[j]));
                } else if j > i {
                    assert(w[i].contains('/'));
                }
            }
        } else {
            assert forall|k: int| 0 <= k < i implies !((#[trigger] w[k]).contains('/')
                && w[k].contains('.')) by {
                assert(!component(w[k]));
            }
            assert(w[i].contains('/'));
        }
    } else {
        assert forall|j: int|
            0 <= j < w.len() && (#[trigger] w[j]).contains('/') && w[j].contains('.') implies (
        package_of(w[j]) is None || exists|k: int|
            0 <= k < j && (#[trigger] w[k]).contains('/') && w[k].contains('.')) by {
            assert(!component(w[j]));
        }
    }
}

proof fn lemma_component(w: Seq<Seq<char>>, i: int)
    requires
        0 <= i <= w.len(),
    ensures
        i <= component_at(w, i) <= w.len(),
        component_at(w, i) < w.len() ==> component(w[component_at(w, i)]),
        forall|k: int| i <= k < component_at(w, i) ==> !component(#[trigger] w[k]),
    decreases w.len() - i,
{
    if i < w.len() && !component(w[i]) {
        lemma_component(w, i + 1);
    }
}

/// The app in the foreground is told by the first line of the dump that tells one.
pub proof fn law_the_first_line_that_tells_decides(l: Seq<Seq<char>>)
    ensures
        match front_from(l, 0) {
            Some(p) => exists|i: int|
                0 <= i < l.len() && front_in(#[trigger] l[i]) == Some(p) && forall|k: int|
                    0 <= k < i ==> front_in(#[trigger] l[k]) is None,
            None => forall|k: int| 0 <= k < l.len() ==> front_in(#[trigger] l[k]) is None,
        },
{
    lemma_front(l, 0);
}

proof fn lemma_front(l: Seq<Seq<char>>, j: int)
    requires
        0 <= j <= l.len(),
    ensures
        match front_from(l, j) {
            Some(p) => exists|i: int|
                j <= i < l.len() && front_in(#[trigger] l[i]) == Some(p) && forall|k: int|
                    j <= k < i ==> front_in(#[trigger] l[k]) is None,
            None => forall|k: int| j <= k < l.len() ==> front_in(#[trigger] l[k]) is None,
        },
    decreases l.len() - j,
{
    if j < l.len() {
        if front_in(l[j]) is None {
            lemma_front(l, j + 1);
        } else {
            assert(front_in(l[j]) == front_from(l, j));
        }
    }
}

/// A line tells an app only behind one of three words, and the first of them that
/// is followed by a component counts.
pub proof fn law_a_line_tells_behind_three_words(line: Seq<char>)
    ensures
        ({
            let t = crate::words::trimmed(line);
            let a = keyed(t, "mResumedActivity:"@);
            let b = keyed(t, "topResumedActivity="@);
            let c = keyed(t, "mFocusedActivity:"@);
            &&& a is Some ==> front_in(line) == a
            &&& a is None && b is Some ==> front_in(line) == b
            &&& a is None && b is None ==> front_in(line) == c
        }),
        forall|key: Seq<char>| !crate::text::occurs(line, key) ==> #[trigger] keyed(line, key) is None,
{
    assert forall|key: Seq<char>| !crate::text::occurs(line, key) implies #[trigger] keyed(line, key) is None by {
        crate::text::law_what_follows_the_first_occurrence(line, key);
    }
}

} // verus!
