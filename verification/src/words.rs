//! Words, lines and numbers in text.

use vstd::prelude::*;
use vstd::string::*;

verus! {

/// White space, as Unicode has it.
pub open spec fn is_space(c: char) -> bool {
    ||| '\u{9}' <= c <= '\u{d}'
    ||| c == ' '
    ||| c == '\u{85}'
    ||| c == '\u{a0}'
    ||| c == '\u{1680}'
    ||| '\u{2000}' <= c <= '\u{200a}'
    ||| c == '\u{2028}'
    ||| c == '\u{2029}'
    ||| c == '\u{202f}'
    ||| c == '\u{205f}'
    ||| c == '\u{3000}'
}

pub fn space(c: char) -> (r: bool)
    ensures
        r == is_space(c),
{
    ('\u{9}' <= c && c <= '\u{d}') || c == ' ' || c == '\u{85}' || c == '\u{a0}' || c == '\u{1680}'
        || ('\u{2000}' <= c && c <= '\u{200a}') || c == '\u{2028}' || c == '\u{2029}' || c
        == '\u{202f}' || c == '\u{205f}' || c == '\u{3000}'
}

/// Where the word that `i` stands in ends.
pub open spec fn word_end(s: Seq<char>, i: int) -> int
    decreases s.len() - i,
{
    if i >= s.len() || is_space(s[i]) {
        i
    } else {
        word_end(s, i + 1)
    }
}

pub proof fn lemma_word_end(s: Seq<char>, i: int)
    requires
        0 <= i <= s.len(),
    ensures
        i <= word_end(s, i) <= s.len(),
        i < s.len() && !is_space(s[i]) ==> i < word_end(s, i),
        forall|k: int| i <= k < word_end(s, i) ==> !is_space(#[trigger] s[k]),
        word_end(s, i) < s.len() ==> is_space(s[word_end(s, i)]),
    decreases s.len() - i,
{
    if i < s.len() && !is_space(s[i]) {
        lemma_word_end(s, i + 1);
    }
}

/// The words of `s` from position `i` on.
pub open spec fn words_from(s: Seq<char>, i: int) -> Seq<Seq<char>>
    decreases s.len() - i,
    when 0 <= i <= s.len()
    via words_from_ends
{
    if i >= s.len() {
        Seq::empty()
    } else if is_space(s[i]) {
        words_from(s, i + 1)
    } else {
        seq![s.subrange(i, word_end(s, i))] + words_from(s, word_end(s, i))
    }
}

#[via_fn]
proof fn words_from_ends(s: Seq<char>, i: int) {
    lemma_word_end(s, i);
}

/// The words of `s`: its longest stretches without white space.
pub open spec fn words_of(s: Seq<char>) -> Seq<Seq<char>> {
    words_from(s, 0)
}

/// The words of `s`.
pub fn words(s: &str) -> (r: Vec<String>)
    ensures
        crate::text::texts(r@) == words_of(s@),
{
    let cs: Vec<char> = crate::text::chars_of(s);
    let mut out: Vec<String> = Vec::new();
    let mut i: usize = 0;
    assert(crate::text::texts(out@) + words_from(s@, 0) =~= words_of(s@));
    while i < cs.len()
        invariant
            cs@ == s@,
            i <= cs@.len(),
            crate::text::texts(out@) + words_from(s@, i as int) == words_of(s@),
        decreases cs@.len() - i,
    {
        if space(cs[i]) {
            i = i + 1;
        } else {
            let from: usize = i;
            proof {
                lemma_word_end(s@, from as int);
            }
            while i < cs.len() && !space(cs[i])
                invariant
                    cs@ == s@,
                    from <= i <= cs@.len(),
                    word_end(s@, from as int) == word_end(s@, i as int),
                decreases cs@.len() - i,
            {
                i = i + 1;
            }
            let word: String = crate::text::string_of(&cs, from, i);
            let ghost before = crate::text::texts(out@);
            out.push(word);
            assert(crate::text::texts(out@) =~= before.push(word@));
            assert(before + (seq![word@] + words_from(s@, i as int)) =~= before.push(word@)
                + words_from(s@, i as int));
        }
    }
    assert(crate::text::texts(out@) + words_from(s@, i as int) =~= crate::text::texts(out@));
    out
}

proof fn lemma_words_from(s: Seq<char>, i: int)
    requires
        0 <= i <= s.len(),
    ensures
        forall|k: int|
            0 <= k < words_from(s, i).len() ==> whole_word(#[trigger] words_from(s, i)[k]),
    decreases s.len() - i,
{
    if i < s.len() {
        lemma_word_end(s, i);
        if is_space(s[i]) {
            lemma_words_from(s, i + 1);
            assert(words_from(s, i) == words_from(s, i + 1));
        } else {
            let e = word_end(s, i);
            lemma_words_from(s, e);
            let w = words_from(s, i);
            assert(w == seq![s.subrange(i, e)] + words_from(s, e));
            assert forall|k: int| 0 <= k < w.len() implies whole_word(#[trigger] w[k]) by {
                if k > 0 {
                    assert(w[k] == words_from(s, e)[k - 1]);
                } else {
                    assert(w[0] == s.subrange(i, e));
                    assert forall|j: int| 0 <= j < w[0].len() implies !is_space(#[trigger] w[0][j]) by {
                        assert(!is_space(s[i + j]));
                    }
                }
            }
        }
    }
}

/// A word is not empty and holds no white space.
pub open spec fn whole_word(w: Seq<char>) -> bool {
    w.len() > 0 && forall|k: int| 0 <= k < w.len() ==> !is_space(#[trigger] w[k])
}

/// Every word of a text is a whole word.
pub proof fn lemma_words(s: Seq<char>)
    ensures
        forall|k: int| 0 <= k < words_of(s).len() ==> whole_word(#[trigger] words_of(s)[k]),
{
    lemma_words_from(s, 0);
}

/// The parts of `v` with `sep` between them.
pub open spec fn joined(v: Seq<Seq<char>>, sep: Seq<char>) -> Seq<char>
    decreases v.len(),
{
    if v.len() == 0 {
        Seq::empty()
    } else if v.len() == 1 {
        v[0]
    } else {
        joined(v.drop_last(), sep) + sep + v.last()
    }
}

/// The parts of `v` with `sep` between them.
pub fn join(v: &Vec<String>, sep: &str) -> (r: String)
    ensures
        r@ == joined(crate::text::texts(v@), sep@),
{
    let mut out: String = String::new();
    let mut i: usize = 0;
    let ghost t = crate::text::texts(v@);
    while i < v.len()
        invariant
            i <= v@.len(),
            t == crate::text::texts(v@),
            out@ == joined(t.take(i as int), sep@),
        decreases v@.len() - i,
    {
        assert(t.take(i + 1).drop_last() =~= t.take(i as int));
        if i > 0 {
            out.append(sep);
        }
        out.append(v[i].as_str());
        proof {
            crate::text::lemma_after_nothing();
        }
        i = i + 1;
    }
    assert(t.take(i as int) =~= t);
    out
}

/// The end of the line that `i` stands in.
pub open spec fn line_end(s: Seq<char>, i: int) -> int
    decreases s.len() - i,
{
    if i >= s.len() || s[i] == '\n' {
        i
    } else {
        line_end(s, i + 1)
    }
}

pub proof fn lemma_line_end(s: Seq<char>, i: int)
    requires
        0 <= i <= s.len(),
    ensures
        i <= line_end(s, i) <= s.len(),
    decreases s.len() - i,
{
    if i < s.len() && s[i] != '\n' {
        lemma_line_end(s, i + 1);
    }
}

/// The line `s[i..e]`, without the carriage return of a two-character ending.
pub open spec fn line_at(s: Seq<char>, i: int, e: int) -> Seq<char> {
    if i < e < s.len() && s[e - 1] == '\r' {
        s.subrange(i, e - 1)
    } else {
        s.subrange(i, e)
    }
}

/// The lines of `s` from position `i` on.
pub open spec fn lines_from(s: Seq<char>, i: int) -> Seq<Seq<char>>
    decreases s.len() - i,
    when 0 <= i <= s.len()
    via lines_from_ends
{
    if i >= s.len() {
        Seq::empty()
    } else {
        let e = line_end(s, i);
        if e >= s.len() {
            seq![line_at(s, i, e)]
        } else {
            seq![line_at(s, i, e)] + lines_from(s, e + 1)
        }
    }
}

#[via_fn]
proof fn lines_from_ends(s: Seq<char>, i: int) {
    lemma_line_end(s, i);
}

/// The lines of `s`. A line ends at a newline, alone or after a carriage
/// return; the last line need not end.
pub open spec fn lines_of(s: Seq<char>) -> Seq<Seq<char>> {
    lines_from(s, 0)
}

/// The lines of `s`.
pub fn lines(s: &str) -> (r: Vec<String>)
    ensures
        crate::text::texts(r@) == lines_of(s@),
{
    let cs: Vec<char> = crate::text::chars_of(s);
    let mut out: Vec<String> = Vec::new();
    let mut i: usize = 0;
    assert(crate::text::texts(out@) + lines_from(s@, 0) =~= lines_of(s@));
    while i < cs.len()
        invariant
            cs@ == s@,
            i <= cs@.len(),
            crate::text::texts(out@) + lines_from(s@, i as int) == lines_of(s@),
        decreases cs@.len() - i,
    {
        let from: usize = i;
        proof {
            lemma_line_end(s@, from as int);
        }
        while i < cs.len() && cs[i] != '\n'
            invariant
                cs@ == s@,
                from <= i <= cs@.len(),
                line_end(s@, from as int) == line_end(s@, i as int),
            decreases cs@.len() - i,
        {
            i = i + 1;
        }
        let to: usize = if from < i && i < cs.len() && cs[i - 1] == '\r' {
            i - 1
        } else {
            i
        };
        let line: String = crate::text::string_of(&cs, from, to);
        let ghost before = crate::text::texts(out@);
        let ghost end = i as int;
        out.push(line);
        assert(crate::text::texts(out@) =~= before.push(line@));
        if i < cs.len() {
            i = i + 1;
            assert(before + (seq![line@] + lines_from(s@, i as int)) =~= before.push(line@)
                + lines_from(s@, i as int));
        } else {
            assert(before + seq![line@] =~= before.push(line@) + lines_from(s@, i as int));
        }
    }
    assert(crate::text::texts(out@) + lines_from(s@, i as int) =~= crate::text::texts(out@));
    out
}

/// The first position at or after `i` that is no white space.
pub open spec fn after_space(s: Seq<char>, i: int) -> int
    decreases s.len() - i,
{
    if i >= s.len() || !is_space(s[i]) {
        i
    } else {
        after_space(s, i + 1)
    }
}

/// The last position at or before `e` with no white space right before it.
pub open spec fn before_space(s: Seq<char>, lo: int, e: int) -> int
    decreases e - lo,
{
    if e <= lo || !is_space(s[e - 1]) {
        e
    } else {
        before_space(s, lo, e - 1)
    }
}

/// `s` without the white space at its ends.
pub open spec fn trimmed(s: Seq<char>) -> Seq<char> {
    let i = after_space(s, 0);
    s.subrange(i, before_space(s, i, s.len() as int))
}

/// `s` without the white space at its ends.
pub fn trim(s: &str) -> (r: String)
    ensures
        r@ == trimmed(s@),
{
    let cs: Vec<char> = crate::text::chars_of(s);
    let mut i: usize = 0;
    while i < cs.len() && space(cs[i])
        invariant
            cs@ == s@,
            i <= cs@.len(),
            after_space(s@, 0) == after_space(s@, i as int),
        decreases cs@.len() - i,
    {
        i = i + 1;
    }
    let mut e: usize = cs.len();
    while i < e && space(cs[e - 1])
        invariant
            cs@ == s@,
            i <= e <= cs@.len(),
            before_space(s@, i as int, s@.len() as int) == before_space(s@, i as int, e as int),
        decreases e,
    {
        e = e - 1;
    }
    crate::text::string_of(&cs, i, e)
}

/// `s` without the white space at its end.
pub open spec fn end_trimmed(s: Seq<char>) -> Seq<char> {
    s.take(before_space(s, 0, s.len() as int))
}

/// `s` without the white space at its end.
pub fn trim_end(s: &str) -> (r: String)
    ensures
        r@ == end_trimmed(s@),
{
    let cs: Vec<char> = crate::text::chars_of(s);
    let mut e: usize = cs.len();
    while 0 < e && space(cs[e - 1])
        invariant
            cs@ == s@,
            e <= cs@.len(),
            before_space(s@, 0, s@.len() as int) == before_space(s@, 0, e as int),
        decreases e,
    {
        e = e - 1;
    }
    let r: String = crate::text::string_of(&cs, 0, e);
    assert(r@ =~= end_trimmed(s@));
    r
}

/// What a run of words leaves once it is laid out: the finished lines and the
/// line under way.
pub open spec fn filled(ws: Seq<Seq<char>>, width: int) -> (Seq<Seq<char>>, Seq<char>)
    decreases ws.len(),
{
    if ws.len() == 0 {
        (Seq::empty(), Seq::empty())
    } else {
        let (done, line) = filled(ws.drop_last(), width);
        let w = ws.last();
        if line.len() == 0 {
            (done, w)
        } else if line.len() + 1 + w.len() > width {
            (done.push(line), w)
        } else {
            (done, line + seq![' '] + w)
        }
    }
}

/// The words of `s` in lines of at most `width` characters, each line taking as
/// many words as it holds.
pub open spec fn wrapped(s: Seq<char>, width: int) -> Seq<Seq<char>> {
    let (done, line) = filled(words_of(s), width);
    if line.len() == 0 {
        done
    } else {
        done.push(line)
    }
}

/// Simple line wrapping at word boundaries; a note is long and must read in a
/// terminal. A word longer than the width gets a line of its own.
pub fn wrap(s: &str, width: usize) -> (r: Vec<String>)
    ensures
        crate::text::texts(r@) == wrapped(s@, width as int),
{
    let ws: Vec<String> = words(s);
    let ghost t = crate::text::texts(ws@);
    let mut out: Vec<String> = Vec::new();
    let mut line: String = String::new();
    let mut i: usize = 0;
    assert(crate::text::texts(out@) =~= Seq::<Seq<char>>::empty());
    assert(line@ =~= Seq::<char>::empty());
    while i < ws.len()
        invariant
            i <= ws@.len(),
            t == crate::text::texts(ws@),
            (crate::text::texts(out@), line@) == filled(t.take(i as int), width as int),
        decreases ws@.len() - i,
    {
        assert(t.take(i + 1).drop_last() =~= t.take(i as int));
        let w: &str = ws[i].as_str();
        let held: usize = line.as_str().unicode_len();
        let more: usize = w.unicode_len();
        if held == 0 {
            line = ws[i].clone();
        } else if held >= width || more > width - held - 1 {
            let ghost before = crate::text::texts(out@);
            let ghost full = line@;
            out.push(line);
            assert(crate::text::texts(out@) =~= before.push(full));
            line = ws[i].clone();
        } else {
            line.push(' ');
            line.append(w);
            assert(line@ =~= filled(t.take(i as int), width as int).1 + seq![' '] + w@);
        }
        i = i + 1;
    }
    assert(t.take(i as int) =~= t);
    if line.as_str().unicode_len() > 0 {
        let ghost before = crate::text::texts(out@);
        let ghost full = line@;
        out.push(line);
        assert(crate::text::texts(out@) =~= before.push(full));
    }
    out
}

proof fn lemma_filled(ws: Seq<Seq<char>>, width: int)
    requires
        forall|k: int| 0 <= k < ws.len() ==> (#[trigger] ws[k]).len() > 0,
    ensures
        ({
            let (done, line) = filled(ws, width);
            &&& (ws.len() == 0 <==> line.len() == 0)
            &&& ws.len() == 0 ==> done.len() == 0
            &&& ws.len() > 0 ==> joined(done.push(line), seq![' ']) == joined(ws, seq![' '])
            &&& line.len() <= width || line.len() == 0 || ws.contains(line)
            &&& forall|k: int|
                0 <= k < done.len() ==> (#[trigger] done[k]).len() > 0 && (done[k].len() <= width
                    || ws.contains(done[k]))
        }),
    decreases ws.len(),
{
    let sep = seq![' '];
    if ws.len() > 0 {
        let front = ws.drop_last();
        assert forall|k: int| 0 <= k < front.len() implies (#[trigger] front[k]).len() > 0 by {
            assert(front[k] == ws[k]);
        }
        lemma_filled(front, width);
        let (done, line) = filled(front, width);
        let (done2, line2) = filled(ws, width);
        let w = ws.last();
        assert(w == ws[ws.len() - 1]);
        assert(ws.contains(w));
        assert forall|x: Seq<char>| front.contains(x) implies ws.contains(x) by {
            let k = choose|k: int| 0 <= k < front.len() && front[k] == x;
            assert(ws[k] == x);
        }
        if front.len() == 0 {
            assert(done.push(w) =~= seq![w]);
            assert(ws =~= seq![w]);
        } else {
            assert(joined(ws, sep) == joined(front, sep) + sep + w);
            if line.len() + 1 + w.len() > width {
                assert(done2.push(w).drop_last() =~= done2);
                assert(joined(done2.push(w), sep) =~= joined(done2, sep) + sep + w);
            } else {
                if done.len() == 0 {
                    assert(done.push(line) =~= seq![line]);
                    assert(done.push(line2) =~= seq![line2]);
                    assert(line2 =~= line + sep + w);
                } else {
                    assert(done.push(line).drop_last() =~= done);
                    assert(done.push(line2).drop_last() =~= done);
                    assert(joined(done.push(line2), sep) =~= joined(done.push(line), sep) + sep + w);
                }
            }
        }
    }
}

/// Wrapping loses no word and adds none: the lines read on one after the other
/// are the words of the text.
pub proof fn law_wrapping_keeps_every_word(s: Seq<char>, width: int)
    ensures
        joined(wrapped(s, width), seq![' ']) == joined(words_of(s), seq![' ']),
{
    lemma_words(s);
    let ws = words_of(s);
    assert forall|k: int| 0 <= k < ws.len() implies (#[trigger] ws[k]).len() > 0 by {
        assert(whole_word(ws[k]));
    }
    lemma_filled(ws, width);
}

/// No line is wider than asked, unless it is a single word that does not fit.
pub proof fn law_wrapping_respects_the_width(s: Seq<char>, width: int, i: int)
    requires
        0 <= i < wrapped(s, width).len(),
    ensures
        wrapped(s, width)[i].len() <= width || words_of(s).contains(wrapped(s, width)[i]),
        wrapped(s, width)[i].len() > 0,
{
    lemma_words(s);
    let ws = words_of(s);
    assert forall|k: int| 0 <= k < ws.len() implies (#[trigger] ws[k]).len() > 0 by {
        assert(whole_word(ws[k]));
    }
    lemma_filled(ws, width);
}

/// A text without words gives no lines.
pub proof fn law_wrapping_nothing_gives_nothing(s: Seq<char>, width: int)
    ensures
        words_of(s).len() == 0 <==> wrapped(s, width).len() == 0,
{
    lemma_words(s);
    let ws = words_of(s);
    assert forall|k: int| 0 <= k < ws.len() implies (#[trigger] ws[k]).len() > 0 by {
        assert(whole_word(ws[k]));
    }
    lemma_filled(ws, width);
}

/// The value of a digit.
pub open spec fn digit_value(c: char) -> Option<nat> {
    if '0' <= c <= '9' {
        Some(((c as int) - ('0' as int)) as nat)
    } else {
        None
    }
}

/// The number that the digits of `s` write, if it is made of digits.
pub open spec fn digits_value(s: Seq<char>) -> Option<nat>
    decreases s.len(),
{
    if s.len() == 0 {
        Some(0)
    } else {
        match (digits_value(s.drop_last()), digit_value(s.last())) {
            (Some(v), Some(d)) => Some(v * 10 + d),
            _ => None,
        }
    }
}

/// The number that `s` writes: digits, with or without a plus sign before them.
pub open spec fn number(s: Seq<char>) -> Option<nat> {
    let d = if s.len() > 0 && s[0] == '+' {
        s.drop_first()
    } else {
        s
    };
    if d.len() == 0 {
        None
    } else {
        digits_value(d)
    }
}

/// The number that `s` writes, if it is at most `max`.
pub open spec fn number_within(s: Seq<char>, max: nat) -> Option<nat> {
    match number(s) {
        Some(v) => if v <= max {
            Some(v)
        } else {
            None
        },
        None => None,
    }
}

/// Longer digit strings write numbers at least as large.
proof fn lemma_digits_grow(s: Seq<char>, n: int)
    requires
        0 <= n <= s.len(),
    ensures
        match digits_value(s) {
            Some(v) => digits_value(s.take(n)) matches Some(w) && w <= v,
            None => true,
        },
    decreases s.len() - n,
{
    if n < s.len() {
        lemma_digits_grow(s, n + 1);
        assert(s.take(n + 1).drop_last() =~= s.take(n));
    } else {
        assert(s.take(n) =~= s);
    }
}

/// The number that `s` writes, if it is at most `max`.
pub fn parse_within(s: &str, max: u64) -> (r: Option<u64>)
    ensures
        match r {
            Some(v) => number_within(s@, max as nat) == Some(v as nat),
            None => number_within(s@, max as nat) is None,
        },
{
    let cs: Vec<char> = crate::text::chars_of(s);
    let from: usize = if cs.len() > 0 && cs[0] == '+' {
        1
    } else {
        0
    };
    if from == cs.len() {
        return None;
    }
    let ghost d = if s@.len() > 0 && s@[0] == '+' {
        s@.drop_first()
    } else {
        s@
    };
    let mut v: u64 = 0;
    let mut i: usize = from;
    assert(d.take(0) =~= Seq::<char>::empty());
    while i < cs.len()
        invariant
            cs@ == s@,
            from <= i <= cs@.len(),
            d == cs@.skip(from as int),
            number(s@) == digits_value(d),
            v <= max,
            digits_value(d.take(i - from)) == Some(v as nat),
        decreases cs@.len() - i,
    {
        let c: char = cs[i];
        assert(d.take(i - from + 1).drop_last() =~= d.take(i - from));
        assert(d.take(i - from + 1).last() == c);
        proof {
            lemma_digits_grow(d, i - from + 1);
        }
        if c < '0' || c > '9' {
            return None;
        }
        let k: u64 = (c as u64) - 48;
        let limit: u64 = u64::MAX / 10;
        if v > limit {
            assert(v * 10 > max);
            return None;
        }
        let w: u64 = v * 10;
        if w > max || k > max - w {
            return None;
        }
        v = w + k;
        i = i + 1;
    }
    assert(d.take(i - from) =~= d);
    Some(v)
}

// ---------------------------------------------------------------- laws

/// Everything outside the range is white space.
pub open spec fn edges(s: Seq<char>, i: int, j: int) -> bool {
    &&& 0 <= i <= j <= s.len()
    &&& forall|k: int| 0 <= k < i ==> is_space(#[trigger] s[k])
    &&& forall|k: int| j <= k < s.len() ==> is_space(#[trigger] s[k])
}

proof fn lemma_after_space(s: Seq<char>, i: int)
    requires
        0 <= i <= s.len(),
    ensures
        i <= after_space(s, i) <= s.len(),
        forall|k: int| i <= k < after_space(s, i) ==> is_space(#[trigger] s[k]),
        after_space(s, i) < s.len() ==> !is_space(s[after_space(s, i)]),
    decreases s.len() - i,
{
    if i < s.len() && is_space(s[i]) {
        lemma_after_space(s, i + 1);
    }
}

proof fn lemma_before_space(s: Seq<char>, lo: int, e: int)
    requires
        0 <= lo <= e <= s.len(),
    ensures
        lo <= before_space(s, lo, e) <= e,
        forall|k: int| before_space(s, lo, e) <= k < e ==> is_space(#[trigger] s[k]),
        before_space(s, lo, e) > lo ==> !is_space(s[before_space(s, lo, e) - 1]),
    decreases e - lo,
{
    if e > lo && is_space(s[e - 1]) {
        lemma_before_space(s, lo, e - 1);
    }
}

/// Trimming takes white space off both ends and nothing else: what is left begins and
/// ends with something that is none, and stood as it is in the text.
pub proof fn law_trimming_takes_only_the_edges(s: Seq<char>)
    ensures
        exists|i: int, j: int| edges(s, i, j) && trimmed(s) == #[trigger] s.subrange(i, j),
        trimmed(s).len() > 0 ==> !is_space(trimmed(s)[0]) && !is_space(trimmed(s).last()),
        exists|j: int| edges(s, 0, j) && end_trimmed(s) == #[trigger] s.take(j),
        end_trimmed(s).len() > 0 ==> !is_space(end_trimmed(s).last()),
{
    let i = after_space(s, 0);
    lemma_after_space(s, 0);
    let j = before_space(s, i, s.len() as int);
    lemma_before_space(s, i, s.len() as int);
    assert(edges(s, i, j) && trimmed(s) == s.subrange(i, j));
    let e = before_space(s, 0, s.len() as int);
    lemma_before_space(s, 0, s.len() as int);
    assert(edges(s, 0, e) && end_trimmed(s) == s.take(e));
}

proof fn lemma_word_end_within(a: Seq<char>, s: Seq<char>, i: int)
    requires
        0 <= i <= a.len() < s.len(),
        s.take(a.len() as int) == a,
        is_space(s[a.len() as int]),
    ensures
        word_end(s, i) == word_end(a, i),
    decreases a.len() - i,
{
    if i < a.len() {
        assert(s.take(a.len() as int)[i] == s[i]);
        if !is_space(a[i]) {
            lemma_word_end_within(a, s, i + 1);
        }
    }
}

proof fn lemma_word_end_behind(s: Seq<char>, b: Seq<char>, d: int, i: int)
    requires
        0 <= d <= s.len(),
        0 <= i <= b.len(),
        s.skip(d) == b,
    ensures
        word_end(s, d + i) == d + word_end(b, i),
    decreases b.len() - i,
{
    if i < b.len() {
        assert(s.skip(d)[i] == s[d + i]);
        if !is_space(b[i]) {
            lemma_word_end_behind(s, b, d, i + 1);
        }
    }
}

proof fn lemma_words_behind(s: Seq<char>, b: Seq<char>, d: int, i: int)
    requires
        0 <= d <= s.len(),
        0 <= i <= b.len(),
        s.skip(d) == b,
    ensures
        words_from(s, d + i) == words_from(b, i),
    decreases b.len() - i,
{
    if i < b.len() {
        assert(s.skip(d)[i] == s[d + i]);
        if is_space(b[i]) {
            lemma_words_behind(s, b, d, i + 1);
        } else {
            lemma_word_end(b, i);
            lemma_word_end_behind(s, b, d, i);
            let e = word_end(b, i);
            lemma_words_behind(s, b, d, e);
            assert(s.subrange(d + i, d + e) =~= b.subrange(i, e));
        }
    }
}

proof fn lemma_words_before(a: Seq<char>, c: char, b: Seq<char>, i: int)
    requires
        is_space(c),
        0 <= i <= a.len(),
    ensures
        words_from(a.push(c) + b, i) == words_from(a, i) + words_of(b),
    decreases a.len() - i,
{
    let s = a.push(c) + b;
    assert(s.take(a.len() as int) =~= a);
    if i == a.len() {
        let d = a.len() as int + 1;
        assert(s.skip(d) =~= b);
        lemma_words_behind(s, b, d, 0);
        assert(words_from(a, i) + words_of(b) =~= words_of(b));
    } else if is_space(a[i]) {
        lemma_words_before(a, c, b, i + 1);
    } else {
        lemma_word_end(a, i);
        lemma_word_end_within(a, s, i);
        let e = word_end(a, i);
        lemma_words_before(a, c, b, e);
        assert(s.subrange(i, e) =~= a.subrange(i, e));
        assert(words_from(s, i) =~= words_from(a, i) + words_of(b));
    }
}

/// White space parts words: what stands on either side of it is split by itself.
pub proof fn law_white_space_parts_words(a: Seq<char>, c: char, b: Seq<char>)
    requires
        is_space(c),
    ensures
        words_of(a.push(c) + b) == words_of(a) + words_of(b),
{
    lemma_words_before(a, c, b, 0);
}

proof fn lemma_unbroken(w: Seq<char>, i: int)
    requires
        whole_word(w),
        0 <= i <= w.len(),
    ensures
        word_end(w, i) == w.len(),
    decreases w.len() - i,
{
    if i < w.len() {
        lemma_unbroken(w, i + 1);
    }
}

/// Nothing but white space parts words: a text without any is one word, and no text is
/// no word.
pub proof fn law_nothing_else_parts_words(w: Seq<char>)
    requires
        w.len() == 0 || whole_word(w),
    ensures
        w.len() == 0 ==> words_of(w) == Seq::<Seq<char>>::empty(),
        w.len() > 0 ==> words_of(w) == seq![w],
{
    if w.len() > 0 {
        lemma_unbroken(w, 0);
        assert(w.subrange(0, w.len() as int) =~= w);
        assert(words_from(w, w.len() as int) =~= Seq::<Seq<char>>::empty());
        assert(words_of(w) =~= seq![w]);
    }
}

/// The text without a carriage return at its end.
pub open spec fn without_return(s: Seq<char>) -> Seq<char> {
    if s.len() > 0 && s.last() == '\r' {
        s.drop_last()
    } else {
        s
    }
}

proof fn lemma_line_end_is(s: Seq<char>, i: int, e: int)
    requires
        0 <= i <= e <= s.len(),
        forall|k: int| i <= k < e ==> #[trigger] s[k] != '\n',
        e < s.len() ==> s[e] == '\n',
    ensures
        line_end(s, i) == e,
    decreases e - i,
{
    if i < e {
        assert(s[i] != '\n');
        lemma_line_end_is(s, i + 1, e);
    }
}

proof fn lemma_line_end_behind(s: Seq<char>, b: Seq<char>, d: int, i: int)
    requires
        0 <= d <= s.len(),
        0 <= i <= b.len(),
        s.skip(d) == b,
    ensures
        line_end(s, d + i) == d + line_end(b, i),
    decreases b.len() - i,
{
    if i < b.len() {
        assert(s.skip(d)[i] == s[d + i]);
        if b[i] != '\n' {
            lemma_line_end_behind(s, b, d, i + 1);
        }
    }
}

proof fn lemma_lines_behind(s: Seq<char>, b: Seq<char>, d: int, i: int)
    requires
        0 <= d <= s.len(),
        0 <= i <= b.len(),
        s.skip(d) == b,
    ensures
        lines_from(s, d + i) == lines_from(b, i),
    decreases b.len() - i,
{
    if i < b.len() {
        lemma_line_end(b, i);
        lemma_line_end_behind(s, b, d, i);
        let e = line_end(b, i);
        if i < e {
            assert(s.skip(d)[e - 1] == s[d + e - 1]);
        }
        assert(s.subrange(d + i, d + e) =~= b.subrange(i, e));
        if i < e {
            assert(s.subrange(d + i, d + e - 1) =~= b.subrange(i, e - 1));
        }
        if e < b.len() {
            lemma_lines_behind(s, b, d, e + 1);
        }
    }
}

/// A line ends at a line feed, with or without a carriage return before it: the first
/// line is what stands before, and the rest is split by itself.
pub proof fn law_a_line_feed_ends_a_line(a: Seq<char>, b: Seq<char>)
    requires
        forall|k: int| 0 <= k < a.len() ==> #[trigger] a[k] != '\n',
    ensures
        lines_of(a.push('\n') + b) == seq![without_return(a)] + lines_of(b),
{
    let s = a.push('\n') + b;
    let e = a.len() as int;
    assert forall|k: int| 0 <= k < e implies #[trigger] s[k] != '\n' by {
        assert(s[k] == a[k]);
    }
    lemma_line_end_is(s, 0, e);
    assert(s.skip(e + 1) =~= b);
    lemma_lines_behind(s, b, e + 1, 0);
    assert(s.subrange(0, e) =~= a);
    if e > 0 {
        assert(s[e - 1] == a.last());
        assert(s.subrange(0, e - 1) =~= a.drop_last());
    }
    assert(line_at(s, 0, e) =~= without_return(a));
}

/// A last line needs no line feed, and keeps what it ends with; no text has no line.
pub proof fn law_a_last_line_needs_no_line_feed(a: Seq<char>)
    requires
        forall|k: int| 0 <= k < a.len() ==> #[trigger] a[k] != '\n',
    ensures
        a.len() == 0 ==> lines_of(a) == Seq::<Seq<char>>::empty(),
        a.len() > 0 ==> lines_of(a) == seq![a],
{
    if a.len() > 0 {
        lemma_line_end_is(a, 0, a.len() as int);
        assert(a.subrange(0, a.len() as int) =~= a);
    }
}

/// Every character is a decimal digit.
pub open spec fn all_digits(s: Seq<char>) -> bool {
    forall|i: int| 0 <= i < s.len() ==> '0' <= #[trigger] s[i] <= '9'
}

proof fn lemma_digits_value(s: Seq<char>)
    ensures
        digits_value(s) is Some <==> all_digits(s),
        all_digits(s) ==> digits_value(s) == Some(crate::text::digits_value(s) as nat)
            && crate::text::digits_value(s) >= 0,
    decreases s.len(),
{
    if s.len() > 0 {
        let t = s.drop_last();
        lemma_digits_value(t);
        if all_digits(s) {
            assert forall|i: int| 0 <= i < t.len() implies '0' <= #[trigger] t[i] <= '9' by {
                assert(t[i] == s[i]);
            }
            assert('0' <= s[s.len() - 1] <= '9');
        }
        if all_digits(t) && '0' <= s.last() <= '9' {
            assert forall|i: int| 0 <= i < s.len() implies '0' <= #[trigger] s[i] <= '9' by {
                if i < t.len() {
                    assert(t[i] == s[i]);
                }
            }
        }
    }
}

/// A number as it is written is read as that number, with or without a plus sign.
pub proof fn law_a_written_number_is_read(n: nat)
    ensures
        number(crate::text::decimal(n)) == Some(n),
        number(seq!['+'] + crate::text::decimal(n)) == Some(n),
{
    let d = crate::text::decimal(n);
    crate::text::law_a_number_reads_back(n);
    lemma_digits_value(d);
    assert(all_digits(d));
    assert('0' <= d[0] <= '9');
    assert((seq!['+'] + d).drop_first() =~= d);
}

/// A text is a number exactly if it is decimal digits, at least one, behind at most
/// one plus sign; a limit refuses what is above it and nothing else.
pub proof fn law_only_digits_are_a_number(s: Seq<char>, max: nat)
    ensures
        number(s) is Some <==> (s.len() > 0 && all_digits(s) || s.len() > 1 && s[0] == '+'
            && all_digits(s.drop_first())),
        number_within(s, max) is Some <==> number(s) is Some && number(s)->0 <= max,
        number_within(s, max) is Some ==> number_within(s, max) == number(s),
{
    lemma_digits_value(s);
    if s.len() > 0 {
        lemma_digits_value(s.drop_first());
        if s[0] == '+' {
            assert(!('0' <= s[0] <= '9'));
        }
    }
}

} // verus!
