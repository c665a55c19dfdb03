//! Diagnosis of performance levers. Nothing is changed: the state of the system
//! is read and it is told where performance is being left behind.

use vstd::prelude::*;
use vstd::string::*;

verus! {

/// The width that notes are wrapped to.
pub const NOTE_WIDTH: usize = 66;

// ---------------------------------------------------------------- processes

/// The process to ask about: the first that a search printed.
pub fn process_pid(found: &str) -> (r: Option<String>)
    ensures
        crate::text::some_text(r) == first_line(found@),
{
    let l: Vec<String> = crate::words::lines(found);
    assert(l@.len() == crate::text::texts(l@).len());
    if l.len() == 0 {
        return None;
    }
    assert(crate::text::texts(l@)[0] == l@[0]@);
    Some(crate::words::trim(l[0].as_str()))
}

/// The first line, without blanks around it.
pub open spec fn first_line(s: Seq<char>) -> Option<Seq<char>> {
    let l = crate::words::lines_of(s);
    if l.len() == 0 {
        None
    } else {
        Some(crate::words::trimmed(l[0]))
    }
}

/// The age in seconds that a tool printed. 0 if it printed none.
pub open spec fn age_of(s: Option<Seq<char>>) -> nat {
    match s {
        Some(t) => match crate::words::number_within(crate::words::trimmed(t), u64::MAX as nat) {
            Some(n) => n,
            None => 0,
        },
        None => 0,
    }
}

/// Age of a process in seconds, as a tool printed it. 0 if there is no process.
pub fn process_age(printed: Option<&str>) -> (r: u64)
    ensures
        r == age_of(crate::text::maybe(printed)),
{
    match printed {
        Some(s) => {
            let t: String = crate::words::trim(s);
            match crate::words::parse_within(t.as_str(), u64::MAX) {
                Some(n) => n,
                None => 0,
            }
        },
        None => 0,
    }
}

/// A process, its parent and its age in seconds.
#[derive(Clone, Copy, Debug, PartialEq, Eq, Structural)]
pub struct ProcessRow {
    pub pid: u32,
    pub parent: u32,
    pub age_s: u64,
}

/// A client of the graphics server.
#[derive(Clone, Copy, Debug, PartialEq, Eq, Structural)]
pub struct VirglClient {
    pub pid: u32,
    pub age_s: u64,
}

/// The row that a line of the process list holds, if it is about the server.
pub open spec fn row_in(line: Seq<char>) -> Option<ProcessRow> {
    let w = crate::words::words_of(line);
    if !crate::text::occurs(line, "virgl_test_server"@) || w.len() < 3 {
        None
    } else {
        match (
            crate::words::number_within(w[0], u32::MAX as nat),
            crate::words::number_within(w[1], u32::MAX as nat),
            crate::words::number_within(w[2], u64::MAX as nat),
        ) {
            (Some(a), Some(b), Some(c)) => Some(
                ProcessRow { pid: a as u32, parent: b as u32, age_s: c as u64 },
            ),
            _ => None,
        }
    }
}

/// The rows in the first `n` lines.
pub open spec fn rows_in(l: Seq<Seq<char>>, n: int) -> Seq<ProcessRow>
    decreases n,
{
    if n <= 0 {
        Seq::empty()
    } else {
        match row_in(l[n - 1]) {
            Some(r) => rows_in(l, n - 1).push(r),
            None => rows_in(l, n - 1),
        }
    }
}

/// Some row is about this process.
pub open spec fn has_pid(rows: Seq<ProcessRow>, pid: u32) -> bool {
    exists|i: int| 0 <= i < rows.len() && (#[trigger] rows[i]).pid == pid
}

/// The process is a main one: something else started it.
pub open spec fn is_master(rows: Seq<ProcessRow>, pid: u32) -> bool {
    exists|i: int|
        0 <= i < rows.len() && (#[trigger] rows[i]).pid == pid && !has_pid(rows, rows[i].parent)
}

/// The clients among the first `n` rows: the direct children of a main process.
pub open spec fn clients_of(rows: Seq<ProcessRow>, n: int) -> Seq<VirglClient>
    decreases n,
{
    if n <= 0 {
        Seq::empty()
    } else if is_master(rows, rows[n - 1].parent) {
        clients_of(rows, n - 1).push(
            VirglClient { pid: rows[n - 1].pid, age_s: rows[n - 1].age_s },
        )
    } else {
        clients_of(rows, n - 1)
    }
}

fn parse_row(line: &str) -> (r: Option<ProcessRow>)
    ensures
        r == row_in(line@),
{
    if !crate::text::contains(line, "virgl_test_server") {
        return None;
    }
    let w: Vec<String> = crate::words::words(line);
    assert(w@.len() == crate::text::texts(w@).len());
    if w.len() < 3 {
        return None;
    }
    assert(crate::text::texts(w@)[0] == w@[0]@);
    assert(crate::text::texts(w@)[1] == w@[1]@);
    assert(crate::text::texts(w@)[2] == w@[2]@);
    match (
        crate::words::parse_within(w[0].as_str(), u32::MAX as u64),
        crate::words::parse_within(w[1].as_str(), u32::MAX as u64),
        crate::words::parse_within(w[2].as_str(), u64::MAX),
    ) {
        (Some(a), Some(b), Some(c)) => Some(
            ProcessRow { pid: a as u32, parent: b as u32, age_s: c },
        ),
        _ => None,
    }
}

fn holds_pid(rows: &Vec<ProcessRow>, pid: u32) -> (r: bool)
    ensures
        r == has_pid(rows@, pid),
{
    let mut i: usize = 0;
    while i < rows.len()
        invariant
            i <= rows@.len(),
            forall|k: int| 0 <= k < i ==> (#[trigger] rows@[k]).pid != pid,
        decreases rows@.len() - i,
    {
        if rows[i].pid == pid {
            return true;
        }
        i = i + 1;
    }
    false
}

fn holds_master(rows: &Vec<ProcessRow>, pid: u32) -> (r: bool)
    ensures
        r == is_master(rows@, pid),
{
    let mut i: usize = 0;
    while i < rows.len()
        invariant
            i <= rows@.len(),
            forall|k: int|
                0 <= k < i ==> !((#[trigger] rows@[k]).pid == pid && !has_pid(
                    rows@,
                    rows@[k].parent,
                )),
        decreases rows@.len() - i,
    {
        if rows[i].pid == pid && !holds_pid(rows, rows[i].parent) {
            return true;
        }
        i = i + 1;
    }
    false
}

/// Finds the clients of the graphics server in a process list.
///
/// The main process forks a child per client, and that child spawns further
/// ones. The number of clients is that of the main process's direct children,
/// not of all processes.
pub fn virgl_clients(list: &str) -> (r: Vec<VirglClient>)
    ensures
        ({
            let l = crate::words::lines_of(list@);
            let rows = rows_in(l, l.len() as int);
            r@ == clients_of(rows, rows.len() as int)
        }),
{
    let l: Vec<String> = crate::words::lines(list);
    let ghost t = crate::words::lines_of(list@);
    let mut rows: Vec<ProcessRow> = Vec::new();
    let mut i: usize = 0;
    while i < l.len()
        invariant
            i <= l@.len(),
            t == crate::text::texts(l@),
            rows@ == rows_in(t, i as int),
        decreases l@.len() - i,
    {
        assert(t[i as int] == l@[i as int]@);
        if let Some(r) = parse_row(l[i].as_str()) {
            rows.push(r);
        }
        i = i + 1;
    }
    let mut out: Vec<VirglClient> = Vec::new();
    let mut i: usize = 0;
    while i < rows.len()
        invariant
            i <= rows@.len(),
            out@ == clients_of(rows@, i as int),
        decreases rows@.len() - i,
    {
        if holds_master(&rows, rows[i].parent) {
            out.push(VirglClient { pid: rows[i].pid, age_s: rows[i].age_s });
        }
        i = i + 1;
    }
    assert(t.len() == l@.len());
    out
}

/// The process is the direct child of a main process.
pub open spec fn direct_child(rows: Seq<ProcessRow>, pid: u32) -> bool {
    exists|i: int|
        0 <= i < rows.len() && (#[trigger] rows[i]).pid == pid && is_master(rows, rows[i].parent)
}

/// Every client counted is the direct child of a main process.
pub proof fn law_clients_are_direct_children(rows: Seq<ProcessRow>, n: int, k: int)
    requires
        0 <= n <= rows.len(),
        0 <= k < clients_of(rows, n).len(),
    ensures
        direct_child(rows, clients_of(rows, n)[k].pid),
    decreases n,
{
    if n > 0 {
        let before = clients_of(rows, n - 1);
        if k < before.len() {
            law_clients_are_direct_children(rows, n - 1, k);
        } else {
            assert(rows[n - 1].pid == clients_of(rows, n)[k].pid);
        }
    }
}

// ---------------------------------------------------------------- report

/// How a lever stands.
#[derive(Clone, Copy, Debug, PartialEq, Eq, Structural)]
pub enum Status {
    Optimal,
    Improvable,
    Unavailable,
}

/// One lever.
#[derive(Debug)]
pub struct Finding {
    pub title: String,
    pub current: String,
    pub target: String,
    pub note: String,
    pub status: Status,
    /// Whether what it would bring was measured.
    pub measured: bool,
}

pub open spec fn mark(s: Status) -> Seq<char> {
    match s {
        Status::Optimal => "✓"@,
        Status::Improvable => "!"@,
        Status::Unavailable => "·"@,
    }
}

pub open spec fn label(s: Status) -> Seq<char> {
    match s {
        Status::Optimal => "hedefte"@,
        Status::Improvable => "improvable"@,
        Status::Unavailable => "not available here"@,
    }
}

pub open spec fn finding_lines(f: Finding) -> Seq<Seq<char>> {
    let goal: Seq<Seq<char>> = if f.status == Status::Improvable {
        seq!["      hedef : "@ + f.target@]
    } else {
        Seq::empty()
    };
    let unknown: Seq<Seq<char>> = if !f.measured && f.status == Status::Improvable {
        seq!["      impact : NOT MEASURED"@]
    } else {
        Seq::empty()
    };
    seq![
        "\n  "@ + mark(f.status) + " "@ + f.title@ + ("  ["@ + label(f.status) + "]"@),
        "      current: "@ + f.current@,
    ] + goal + unknown + crate::say::indented(
        "      "@,
        crate::words::wrapped(f.note@, NOTE_WIDTH as int),
    )
}

/// The lines of the first `n` levers.
pub open spec fn findings_lines(f: Seq<Finding>, n: int) -> Seq<Seq<char>>
    decreases n,
{
    if n <= 0 {
        Seq::empty()
    } else {
        findings_lines(f, n - 1) + finding_lines(f[n - 1])
    }
}

/// The report: the levers and how many stand how.
pub open spec fn report_lines(f: Seq<Finding>, ok: u64, imp: u64, na: u64) -> Seq<Seq<char>> {
    let bar = crate::say::repeated('─', 60);
    let advice: Seq<Seq<char>> = if imp > 0 {
        seq![
            "  None of these has been MEASURED on this system. Take a"@,
            "  baseline before applying anything:\n"@,
            "      liw bench <paket> --duration 60\n"@,
        ]
    } else {
        Seq::empty()
    };
    seq!["\n  Performance diagnosis\n  "@ + bar] + findings_lines(f, f.len() as int) + seq![
        "\n  "@ + bar,
        "  "@ + crate::text::decimal(ok as nat) + " on target · "@ + crate::text::decimal(imp as nat)
            + (" improvable · "@ + crate::text::decimal(na as nat) + " unavailable\n"@),
    ] + advice
}

fn say_finding(out: &mut Vec<String>, f: &Finding)
    ensures
        crate::text::texts(final(out)@) == crate::text::texts(old(out)@) + finding_lines(*f),
{
    let ghost before = crate::text::texts(out@);
    let (sign, word): (&str, &str) = match f.status {
        Status::Optimal => ("✓", "hedefte"),
        Status::Improvable => ("!", "improvable"),
        Status::Unavailable => ("·", "not available here"),
    };
    let tail: String = crate::say::cat3("  [", word, "]");
    crate::say::put(out, crate::say::cat5("\n  ", sign, " ", f.title.as_str(), tail.as_str()));
    crate::say::put(out, crate::say::cat2("      current: ", f.current.as_str()));
    if f.status == Status::Improvable {
        crate::say::put(out, crate::say::cat2("      hedef : ", f.target.as_str()));
    }
    if !f.measured && f.status == Status::Improvable {
        crate::say::say(out, "      impact : NOT MEASURED");
    }
    let w: Vec<String> = crate::words::wrap(f.note.as_str(), NOTE_WIDTH);
    crate::say::put_indented(out, "      ", &w);
    assert(crate::text::texts(out@) =~= before + finding_lines(*f));
}

/// The report: the levers and how many stand how.
pub fn report(f: &Vec<Finding>, ok: u64, imp: u64, na: u64) -> (r: Vec<String>)
    ensures
        crate::text::texts(r@) == report_lines(f@, ok, imp, na),
{
    let mut out: Vec<String> = crate::say::page();
    let bar: String = crate::say::repeat('─', 60);
    crate::say::put(&mut out, crate::say::cat2("\n  Performance diagnosis\n  ", bar.as_str()));
    let ghost head = crate::text::texts(out@);
    let mut i: usize = 0;
    assert(head + findings_lines(f@, 0) =~= head);
    while i < f.len()
        invariant
            i <= f@.len(),
            crate::text::texts(out@) == head + findings_lines(f@, i as int),
        decreases f@.len() - i,
    {
        say_finding(&mut out, &f[i]);
        assert(crate::text::texts(out@) =~= head + findings_lines(f@, i + 1));
        i = i + 1;
    }
    crate::say::put(&mut out, crate::say::cat2("\n  ", bar.as_str()));
    let a: String = crate::say::count(ok);
    let b: String = crate::say::count(imp);
    let c: String = crate::say::count(na);
    let tail: String = crate::say::cat3(" improvable · ", c.as_str(), " unavailable\n");
    crate::say::put(
        &mut out,
        crate::say::cat5("  ", a.as_str(), " on target · ", b.as_str(), tail.as_str()),
    );
    if imp > 0 {
        crate::say::say(&mut out, "  None of these has been MEASURED on this system. Take a");
        crate::say::say(&mut out, "  baseline before applying anything:\n");
        crate::say::say(&mut out, "      liw bench <paket> --duration 60\n");
    }
    assert(crate::text::texts(out@) =~= report_lines(f@, ok, imp, na));
    out
}

// ---------------------------------------------------------------- laws

/// The decimal digits of a number are one word.
proof fn lemma_decimal_is_a_word(n: nat)
    ensures
        crate::words::words_of(crate::text::decimal(n)) == seq![crate::text::decimal(n)],
{
    let d = crate::text::decimal(n);
    crate::text::law_a_number_reads_back(n);
    assert forall|k: int| 0 <= k < d.len() implies !crate::words::is_space(#[trigger] d[k]) by {
        assert('0' <= d[k] <= '9');
    }
    crate::words::law_nothing_else_parts_words(d);
}

/// A line of the process list, read: the process, its parent, its age and its command.
pub proof fn law_a_row_is_read_as_it_is_printed(
    pid: u32,
    parent: u32,
    age_s: u64,
    command: Seq<char>,
)
    ensures
        ({
            let line = (crate::text::decimal(pid as nat).push(' ') + crate::text::decimal(
                parent as nat,
            )).push(' ') + crate::text::decimal(age_s as nat);
            let row = row_in(line.push(' ') + command);
            &&& crate::text::occurs(line.push(' ') + command, "virgl_test_server"@) ==> row == Some(
                ProcessRow { pid, parent, age_s },
            )
            &&& !crate::text::occurs(line.push(' ') + command, "virgl_test_server"@) ==> row is None
        }),
{
    let a = crate::text::decimal(pid as nat);
    let b = crate::text::decimal(parent as nat);
    let c = crate::text::decimal(age_s as nat);
    let ab = a.push(' ') + b;
    let line = ab.push(' ') + c;
    lemma_decimal_is_a_word(pid as nat);
    lemma_decimal_is_a_word(parent as nat);
    lemma_decimal_is_a_word(age_s as nat);
    crate::words::law_white_space_parts_words(a, ' ', b);
    crate::words::law_white_space_parts_words(ab, ' ', c);
    crate::words::law_white_space_parts_words(line, ' ', command);
    crate::words::law_a_written_number_is_read(pid as nat);
    crate::words::law_a_written_number_is_read(parent as nat);
    crate::words::law_a_written_number_is_read(age_s as nat);
    let w = crate::words::words_of(line.push(' ') + command);
    assert(w == seq![a] + seq![b] + seq![c] + crate::words::words_of(command));
    assert(w[0] == a && w[1] == b && w[2] == c && w.len() >= 3);
}

/// Every row that can be read is kept, in the order of the lines, and nothing else.
pub proof fn law_every_row_is_kept(l: Seq<Seq<char>>, n: int)
    requires
        0 <= n <= l.len(),
    ensures
        rows_in(l, n).map_values(|r: ProcessRow| Some(r)) == l.take(n).map_values(
            |x: Seq<char>| row_in(x),
        ).filter(|r: Option<ProcessRow>| r is Some),
    decreases n,
{
    reveal(Seq::filter);
    let f = |x: Seq<char>| row_in(x);
    let keep = |r: Option<ProcessRow>| r is Some;
    let wrap = |r: ProcessRow| Some(r);
    if n > 0 {
        law_every_row_is_kept(l, n - 1);
        let t = l.take(n).map_values(f);
        assert(t.drop_last() =~= l.take(n - 1).map_values(f));
        assert(t.last() == row_in(l[n - 1]));
        if row_in(l[n - 1]) is Some {
            let r = row_in(l[n - 1])->0;
            assert(rows_in(l, n - 1).push(r).map_values(wrap) =~= rows_in(
                l,
                n - 1,
            ).map_values(wrap).push(Some(r)));
        }
        assert(rows_in(l, n).map_values(wrap) == t.filter(keep));
    } else {
        assert(l.take(n).map_values(f) =~= Seq::<Option<ProcessRow>>::empty());
        assert(rows_in(l, n).map_values(wrap) =~= Seq::<Option<ProcessRow>>::empty());
    }
}

/// `i` is the child of `j`, and the parent of `j` is not on the list.
pub open spec fn grandparent_missing(rows: Seq<ProcessRow>, i: int, j: int) -> bool {
    &&& 0 <= i < rows.len()
    &&& 0 <= j < rows.len()
    &&& rows[i].parent == rows[j].pid
    &&& forall|k: int| 0 <= k < rows.len() ==> (#[trigger] rows[k]).pid != rows[j].parent
}

/// `i` is the child of some process whose own parent is not on the list.
pub open spec fn serves(rows: Seq<ProcessRow>, i: int) -> bool {
    exists|j: int| grandparent_missing(rows, i, j)
}

proof fn lemma_serves(rows: Seq<ProcessRow>, i: int)
    requires
        0 <= i < rows.len(),
    ensures
        is_master(rows, rows[i].parent) <==> serves(rows, i),
{
    if is_master(rows, rows[i].parent) {
        let j = choose|j: int|
            0 <= j < rows.len() && (#[trigger] rows[j]).pid == rows[i].parent && !has_pid(
                rows,
                rows[j].parent,
            );
        assert(grandparent_missing(rows, i, j));
    }
    if serves(rows, i) {
        let j = choose|j: int| grandparent_missing(rows, i, j);
        assert(rows[j].pid == rows[i].parent && !has_pid(rows, rows[j].parent));
    }
}

/// The clients are the processes one step below a main one, each with its own number
/// and age: every one of them, once for each row, in the order of the rows.
pub proof fn law_every_direct_child_is_a_client(rows: Seq<ProcessRow>, n: int)
    requires
        0 <= n <= rows.len(),
    ensures
        clients_of(rows, n) == Seq::new(n as nat, |i: int| i).filter(
            |i: int| serves(rows, i),
        ).map_values(|i: int| VirglClient { pid: rows[i].pid, age_s: rows[i].age_s }),
    decreases n,
{
    reveal(Seq::filter);
    let places = Seq::new(n as nat, |i: int| i);
    let keep = |i: int| serves(rows, i);
    let made = |i: int| VirglClient { pid: rows[i].pid, age_s: rows[i].age_s };
    if n > 0 {
        law_every_direct_child_is_a_client(rows, n - 1);
        let before = Seq::new((n - 1) as nat, |i: int| i);
        assert(places.drop_last() =~= before);
        lemma_serves(rows, n - 1);
        assert(places.filter(keep).map_values(made) =~= if serves(rows, n - 1) {
            before.filter(keep).map_values(made).push(made(n - 1))
        } else {
            before.filter(keep).map_values(made)
        });
    } else {
        assert(places.filter(keep).map_values(made) =~= Seq::<VirglClient>::empty());
    }
}

/// A lever is shown with its title and what it is at; what it could be is shown exactly
/// where it can be improved, and that this was never measured where it was not.
pub proof fn law_a_lever_shows_what_is_known_of_it(f: Finding)
    ensures
        finding_lines(f).len() >= 2,
        crate::text::occurs(finding_lines(f)[0], f.title@),
        crate::text::closes_with(finding_lines(f)[1], f.current@),
        f.status == Status::Improvable ==> crate::text::closes_with(finding_lines(f)[2], f.target@),
        f.status == Status::Improvable && !f.measured ==> finding_lines(f)[3]
            == "      impact : NOT MEASURED"@,
        finding_lines(f).len() == 2 + (if f.status == Status::Improvable {
            1int
        } else {
            0
        }) + (if f.status == Status::Improvable && !f.measured {
            1int
        } else {
            0
        }) + crate::words::wrapped(f.note@, 66).len(),
        forall|k: int|
            0 <= k < crate::words::wrapped(f.note@, 66).len() ==> crate::text::closes_with(
                #[trigger] finding_lines(f)[finding_lines(f).len() - crate::words::wrapped(
                    f.note@,
                    66,
                ).len() + k],
                crate::words::wrapped(f.note@, 66)[k],
            ),
{
    let l = finding_lines(f);
    let title_before = "\n  "@ + mark(f.status) + " "@;
    crate::text::lemma_occurs_between(
        title_before,
        f.title@,
        "  ["@ + label(f.status) + "]"@,
    );
    assert(l[0] == title_before + f.title@ + ("  ["@ + label(f.status) + "]"@));
    lemma_closes("      current: "@, f.current@);
    lemma_closes("      hedef : "@, f.target@);
    let w = crate::words::wrapped(f.note@, 66);
    assert forall|k: int| 0 <= k < w.len() implies crate::text::closes_with(
        #[trigger] l[l.len() - w.len() + k],
        w[k],
    ) by {
        lemma_closes("      "@, w[k]);
        assert(l[l.len() - w.len() + k] == "      "@ + w[k]);
    }
}

proof fn lemma_closes(a: Seq<char>, b: Seq<char>)
    ensures
        crate::text::closes_with(a + b, b),
{
    let k = a.len() as int;
    assert((a + b).subrange(k, k + b.len()) =~= b);
}

/// The mark of a lever tells how it stands.
pub proof fn law_marks_tell_how_a_lever_stands(a: Status, b: Status)
    ensures
        mark(a) == mark(b) <==> a == b,
        label(a) == label(b) <==> a == b,
{
    reveal_strlit("✓");
    reveal_strlit("!");
    reveal_strlit("·");
    reveal_strlit("hedefte");
    reveal_strlit("improvable");
    reveal_strlit("not available here");
    assert("✓"@[0] != "!"@[0] && "!"@[0] != "·"@[0] && "✓"@[0] != "·"@[0]);
    assert("hedefte"@.len() == 7 && "improvable"@.len() == 10 && "not available here"@.len() == 18);
}

/// The report has every lever, whole, in the order in which they were found.
pub proof fn law_the_report_has_every_lever(f: Seq<Finding>, n: int, i: int)
    requires
        0 <= i < n <= f.len(),
    ensures
        crate::say::carries(findings_lines(f, n), finding_lines(f[i])),
    decreases n,
{
    crate::say::lemma_carries(
        findings_lines(f, n - 1),
        finding_lines(f[n - 1]),
        finding_lines(f[i]),
    );
    if i < n - 1 {
        law_the_report_has_every_lever(f, n - 1, i);
    } else {
        crate::say::lemma_carries(finding_lines(f[i]), Seq::empty(), finding_lines(f[i]));
    }
}

/// The report advises to measure first exactly where something can be improved, and
/// counts how many levers stand which way.
pub proof fn law_the_report_counts_and_advises(f: Seq<Finding>, ok: u64, imp: u64, na: u64)
    ensures
        ({
            let l = report_lines(f, ok, imp, na);
            let n = findings_lines(f, f.len() as int).len() as int;
            &&& l.subrange(1, n + 1) == findings_lines(f, f.len() as int)
            &&& l.len() == n + 3 + (if imp > 0 {
                3int
            } else {
                0
            })
            &&& crate::text::occurs(l[n + 2], crate::text::decimal(ok as nat) + " on target"@)
            &&& crate::text::occurs(l[n + 2], crate::text::decimal(imp as nat) + " improvable"@)
            &&& crate::text::occurs(l[n + 2], crate::text::decimal(na as nat) + " unavailable"@)
        }),
{
    let l = report_lines(f, ok, imp, na);
    let all = findings_lines(f, f.len() as int);
    let n = all.len() as int;
    assert(l.subrange(1, n + 1) =~= all);
    let a = crate::text::decimal(ok as nat);
    let b = crate::text::decimal(imp as nat);
    let c = crate::text::decimal(na as nat);
    reveal_strlit(" on target · ");
    reveal_strlit(" on target");
    reveal_strlit(" improvable · ");
    reveal_strlit(" improvable");
    reveal_strlit(" unavailable\n");
    reveal_strlit(" unavailable");
    let dot = seq![' ', '·', ' '];
    assert(" on target · "@ =~= " on target"@ + dot);
    assert(" improvable · "@ =~= " improvable"@ + dot);
    assert(" unavailable\n"@ =~= " unavailable"@ + seq!['\n']);
    let line = l[n + 2];
    crate::text::lemma_occurs_between(
        "  "@,
        a + " on target"@,
        dot + b + " improvable · "@ + c + " unavailable\n"@,
    );
    assert(line =~= "  "@ + (a + " on target"@) + (dot + b + " improvable · "@ + c
        + " unavailable\n"@));
    crate::text::lemma_occurs_between(
        "  "@ + a + " on target · "@,
        b + " improvable"@,
        dot + c + " unavailable\n"@,
    );
    assert(line =~= ("  "@ + a + " on target · "@) + (b + " improvable"@) + (dot + c
        + " unavailable\n"@));
    crate::text::lemma_occurs_between(
        "  "@ + a + " on target · "@ + b + " improvable · "@,
        c + " unavailable"@,
        seq!['\n'],
    );
    assert(line =~= ("  "@ + a + " on target · "@ + b + " improvable · "@) + (c
        + " unavailable"@) + seq!['\n']);
}

/// The number of a process is the first line printed, without the white space round it;
/// its age is the number printed, and none where there is no number.
pub proof fn law_a_process_is_read_from_what_is_printed(a: Seq<char>, b: Seq<char>, n: nat)
    requires
        forall|k: int| 0 <= k < a.len() ==> #[trigger] a[k] != '\n',
        a.len() > 0,
        a.last() != '\r',
        n <= u64::MAX,
    ensures
        first_line(a.push('\n') + b) == Some(crate::words::trimmed(a)),
        first_line(a) == Some(crate::words::trimmed(a)),
        first_line(Seq::empty()) is None,
        crate::words::trimmed(a) == crate::text::decimal(n) ==> age_of(Some(a)) == n,
        crate::words::number(crate::words::trimmed(a)) is None ==> age_of(Some(a)) == 0,
        age_of(None) == 0,
{
    crate::words::law_a_line_feed_ends_a_line(a, b);
    crate::words::law_a_last_line_needs_no_line_feed(a);
    crate::words::law_a_last_line_needs_no_line_feed(Seq::empty());
    crate::words::law_a_written_number_is_read(n);
}

} // verus!
