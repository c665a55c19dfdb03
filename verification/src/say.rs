//! Building lines of text for people to read.

use vstd::prelude::*;
use vstd::string::*;

verus! {

/// Adds a line.
pub fn put(out: &mut Vec<String>, line: String)
    ensures
        crate::text::texts(final(out)@) == crate::text::texts(old(out)@).push(line@),
{
    let ghost before = crate::text::texts(out@);
    out.push(line);
    assert(crate::text::texts(out@) =~= before.push(line@));
}

/// Adds a fixed line.
pub fn say(out: &mut Vec<String>, line: &str)
    ensures
        crate::text::texts(final(out)@) == crate::text::texts(old(out)@).push(line@),
{
    put(out, line.to_owned());
}

/// An empty page.
pub fn page() -> (r: Vec<String>)
    ensures
        crate::text::texts(r@) == Seq::<Seq<char>>::empty(),
{
    let r: Vec<String> = Vec::new();
    assert(crate::text::texts(r@) =~= Seq::<Seq<char>>::empty());
    r
}

/// Adds the lines of another page.
pub fn put_all(out: &mut Vec<String>, more: &Vec<String>)
    ensures
        crate::text::texts(final(out)@) == crate::text::texts(old(out)@) + crate::text::texts(more@),
{
    let ghost before = crate::text::texts(out@);
    let ghost t = crate::text::texts(more@);
    let mut i: usize = 0;
    assert(before + t.take(0) =~= before);
    while i < more.len()
        invariant
            i <= more@.len(),
            t == crate::text::texts(more@),
            crate::text::texts(out@) == before + t.take(i as int),
        decreases more@.len() - i,
    {
        put(out, more[i].clone());
        assert(before + t.take(i + 1) =~= (before + t.take(i as int)).push(t[i as int]));
        i = i + 1;
    }
    assert(t.take(i as int) =~= t);
}

/// The lines of `more`, each behind `indent`.
pub open spec fn indented(indent: Seq<char>, more: Seq<Seq<char>>) -> Seq<Seq<char>> {
    more.map_values(|l: Seq<char>| indent + l)
}

/// Adds the lines of another page, each behind `indent`.
pub fn put_indented(out: &mut Vec<String>, indent: &str, more: &Vec<String>)
    ensures
        crate::text::texts(final(out)@) == crate::text::texts(old(out)@) + indented(
            indent@,
            crate::text::texts(more@),
        ),
{
    let ghost before = crate::text::texts(out@);
    let ghost t = indented(indent@, crate::text::texts(more@));
    let mut i: usize = 0;
    assert(before + t.take(0) =~= before);
    while i < more.len()
        invariant
            i <= more@.len(),
            t == indented(indent@, crate::text::texts(more@)),
            crate::text::texts(out@) == before + t.take(i as int),
        decreases more@.len() - i,
    {
        put(out, cat2(indent, more[i].as_str()));
        assert(before + t.take(i + 1) =~= (before + t.take(i as int)).push(t[i as int]));
        i = i + 1;
    }
    assert(t.take(i as int) =~= t);
}

pub fn cat2(a: &str, b: &str) -> (r: String)
    ensures
        r@ == a@ + b@,
{
    let mut s: String = a.to_owned();
    s.append(b);
    s
}

pub fn cat3(a: &str, b: &str, c: &str) -> (r: String)
    ensures
        r@ == a@ + b@ + c@,
{
    let mut s: String = cat2(a, b);
    s.append(c);
    s
}

pub fn cat4(a: &str, b: &str, c: &str, d: &str) -> (r: String)
    ensures
        r@ == a@ + b@ + c@ + d@,
{
    let mut s: String = cat3(a, b, c);
    s.append(d);
    s
}

pub fn cat5(a: &str, b: &str, c: &str, d: &str, e: &str) -> (r: String)
    ensures
        r@ == a@ + b@ + c@ + d@ + e@,
{
    let mut s: String = cat4(a, b, c, d);
    s.append(e);
    s
}

/// A number in decimal.
pub fn count(n: u64) -> (r: String)
    ensures
        r@ == crate::text::decimal(n as nat),
{
    let mut s: String = String::new();
    crate::text::push_decimal(&mut s, n);
    proof {
        crate::text::lemma_after_nothing();
    }
    s
}

/// `n` times the character `c`.
pub open spec fn repeated(c: char, n: int) -> Seq<char> {
    Seq::new(
        if n >= 0 {
            n as nat
        } else {
            0
        },
        |i: int| c,
    )
}

/// `n` times the character `c`.
pub fn repeat(c: char, n: usize) -> (r: String)
    ensures
        r@ == repeated(c, n as int),
{
    let mut s: String = String::new();
    let mut i: usize = 0;
    assert(s@ =~= repeated(c, 0));
    while i < n
        invariant
            i <= n,
            s@ == repeated(c, i as int),
        decreases n - i,
    {
        s.push(c);
        i = i + 1;
        assert(s@ =~= repeated(c, i as int));
    }
    s
}

/// `s` filled up with blanks on the right to at least `width` characters.
pub open spec fn padded(s: Seq<char>, width: int) -> Seq<char> {
    s + repeated(' ', width - s.len())
}

/// `s` filled up with blanks on the right to at least `width` characters.
pub fn pad(s: &str, width: usize) -> (r: String)
    ensures
        r@ == padded(s@, width as int),
{
    let n: usize = s.unicode_len();
    let mut r: String = s.to_owned();
    if n < width {
        let blanks: String = repeat(' ', width - n);
        r.append(blanks.as_str());
    } else {
        assert(r@ =~= padded(s@, width as int));
    }
    r
}

/// `s` filled up with blanks on the left to at least `width` characters.
pub open spec fn padded_left(s: Seq<char>, width: int) -> Seq<char> {
    repeated(' ', width - s.len()) + s
}

/// `s` filled up with blanks on the left to at least `width` characters.
pub fn pad_left(s: &str, width: usize) -> (r: String)
    ensures
        r@ == padded_left(s@, width as int),
{
    let n: usize = s.unicode_len();
    if n < width {
        let blanks: String = repeat(' ', width - n);
        cat2(blanks.as_str(), s)
    } else {
        let r: String = s.to_owned();
        assert(r@ =~= padded_left(s@, width as int));
        r
    }
}

/// A padded text opens with the text.
pub proof fn lemma_padded_opens(a: Seq<char>, width: int)
    ensures
        crate::text::opens_with(padded(a, width), a),
{
    assert(padded(a, width).subrange(0, a.len() as int) =~= a);
}

/// Lines stand in a page, one behind the other.
pub open spec fn carries(whole: Seq<Seq<char>>, part: Seq<Seq<char>>) -> bool {
    exists|i: int| carries_at(whole, part, i)
}

/// Lines stand in a page from the line `i` on.
pub open spec fn carries_at(whole: Seq<Seq<char>>, part: Seq<Seq<char>>, i: int) -> bool {
    0 <= i && i + part.len() <= whole.len() && whole.subrange(i, i + part.len()) == part
}

/// What stands in a part of a page stands in the page.
pub proof fn lemma_carries(a: Seq<Seq<char>>, b: Seq<Seq<char>>, part: Seq<Seq<char>>)
    ensures
        carries(a, part) ==> carries(a + b, part),
        carries(b, part) ==> carries(a + b, part),
        carries(a, a),
{
    if carries(a, part) {
        let i = choose|i: int| carries_at(a, part, i);
        assert((a + b).subrange(i, i + part.len()) =~= a.subrange(i, i + part.len()));
        assert(carries_at(a + b, part, i));
    }
    if carries(b, part) {
        let i = choose|i: int| carries_at(b, part, i);
        let k = a.len() + i;
        assert((a + b).subrange(k, k + part.len()) =~= b.subrange(i, i + part.len()));
        assert(carries_at(a + b, part, k));
    }
    assert(a.subrange(0, a.len() as int) =~= a);
    assert(carries_at(a, a, 0));
}

} // verus!
