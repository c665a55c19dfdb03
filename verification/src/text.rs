//! Text as sequences of characters.
//!
//! The parsers of this library work on the characters of a string, so that what
//! they read can be stated over `Seq<char>`. This module holds the common
//! vocabulary: white space, words, lines, trimming and searching.

use vstd::prelude::*;
use vstd::string::*;

verus! {

/// `String::push`: appends one character.
pub assume_specification[ String::push ](s: &mut String, c: char)
    ensures
        final(s)@ == old(s)@.push(c),
;

/// The small-letter form of a text, as Unicode defines it.
pub uninterp spec fn lowercase(s: Seq<char>) -> Seq<char>;

/// `str::to_lowercase`: the small-letter form of a text. It depends on the text
/// alone; what it is for a given text is not said here.
#[verifier::external_body]
pub(crate) fn to_lowercase(s: &str) -> (r: String)
    ensures
        r@ == lowercase(s@),
{
    s.to_lowercase()
}

/// Whether a character is a letter or a digit, as Unicode defines them.
pub uninterp spec fn alphanumeric(c: char) -> bool;

/// `char::is_alphanumeric`: whether a character is a letter or a digit. It
/// depends on the character alone; which ones are is not said here.
#[verifier::external_body]
pub(crate) fn is_alphanumeric(c: char) -> (r: bool)
    ensures
        r == alphanumeric(c),
{
    c.is_alphanumeric()
}

/// Strings as plain text.
pub open spec fn texts(v: Seq<String>) -> Seq<Seq<char>> {
    v.map_values(|s: String| s@)
}

/// The characters of `s`, in order.
pub fn chars_of(s: &str) -> (r: Vec<char>)
    ensures
        r@ == s@,
{
    let mut out: Vec<char> = Vec::new();
    for c in it: s.chars()
        invariant
            it.seq() == s@,
            out@ == s@.take(it.index()),
    {
        assert(s@.take(it.index() + 1) == s@.take(it.index()).push(c));
        out.push(c);
    }
    assert(s@.take(s@.len() as int) == s@);
    out
}

/// The string made of the characters `cs[from..to]`.
pub fn string_of(cs: &Vec<char>, from: usize, to: usize) -> (r: String)
    requires
        from <= to <= cs@.len(),
    ensures
        r@ == cs@.subrange(from as int, to as int),
{
    let mut out: String = String::new();
    let mut i: usize = from;
    while i < to
        invariant
            from <= i <= to <= cs@.len(),
            out@ == cs@.subrange(from as int, i as int),
        decreases to - i,
    {
        assert(cs@.subrange(from as int, i + 1) == cs@.subrange(from as int, i as int).push(cs@[i as int]));
        out.push(cs[i]);
        i = i + 1;
    }
    out
}

/// Whether two strings hold the same characters.
pub fn same(a: &str, b: &str) -> (r: bool)
    ensures
        r == (a@ == b@),
{
    let x: Vec<char> = chars_of(a);
    let y: Vec<char> = chars_of(b);
    if x.len() != y.len() {
        return false;
    }
    let mut i: usize = 0;
    while i < x.len()
        invariant
            i <= x@.len(),
            x@.len() == y@.len(),
            x@ == a@,
            y@ == b@,
            forall|j: int| 0 <= j < i ==> x@[j] == y@[j],
        decreases x@.len() - i,
    {
        if x[i] != y[i] {
            assert(a@[i as int] != b@[i as int]);
            return false;
        }
        i = i + 1;
    }
    assert(a@ == b@);
    true
}

/// The code point of a character.
pub fn code(c: char) -> (r: u32)
    ensures
        r as int == c as int,
{
    c as u32
}

/// How two strings stand to each other in code point order.
#[derive(Clone, Copy, Debug, PartialEq, Eq, Structural)]
pub enum Side {
    Before,
    Same,
    After,
}

/// `a` comes before `b` in code point order, looking from index `i` on.
pub open spec fn precedes_from(a: Seq<char>, b: Seq<char>, i: int) -> bool
    decreases b.len() - i,
{
    if i >= b.len() {
        false
    } else if i >= a.len() {
        true
    } else if a[i] != b[i] {
        (a[i] as int) < (b[i] as int)
    } else {
        precedes_from(a, b, i + 1)
    }
}

/// `a` comes before `b` in code point order, which is also their byte order.
pub open spec fn precedes(a: Seq<char>, b: Seq<char>) -> bool {
    precedes_from(a, b, 0)
}

/// Equal up to `i`, the two strings are ordered one way, the other way, or are equal.
proof fn lemma_precedes_total_from(a: Seq<char>, b: Seq<char>, i: int)
    requires
        0 <= i,
        i <= a.len(),
        i <= b.len(),
        forall|j: int| 0 <= j < i ==> a[j] == b[j],
    ensures
        precedes_from(a, b, i) || precedes_from(b, a, i) || a == b,
        !(precedes_from(a, b, i) && precedes_from(b, a, i)),
        a == b ==> !precedes_from(a, b, i),
    decreases b.len() - i,
{
    if i < a.len() && i < b.len() && a[i] == b[i] {
        lemma_precedes_total_from(a, b, i + 1);
    } else if i >= a.len() && i >= b.len() {
        assert(a =~= b);
    }
}

/// Exactly one of `a` before `b`, `b` before `a`, and equality holds.
pub proof fn lemma_precedes_total(a: Seq<char>, b: Seq<char>)
    ensures
        precedes(a, b) || precedes(b, a) || a == b,
        !(precedes(a, b) && precedes(b, a)),
        a == b ==> !precedes(a, b),
{
    lemma_precedes_total_from(a, b, 0);
}

proof fn lemma_precedes_chain_from(a: Seq<char>, b: Seq<char>, c: Seq<char>, i: int)
    requires
        precedes_from(a, b, i),
        precedes_from(b, c, i),
        0 <= i,
    ensures
        precedes_from(a, c, i),
    decreases c.len() - i,
{
    if i < a.len() && i < b.len() && i < c.len() && a[i] == b[i] && b[i] == c[i] {
        lemma_precedes_chain_from(a, b, c, i + 1);
    }
}

/// The order is transitive.
pub proof fn lemma_precedes_chain(a: Seq<char>, b: Seq<char>, c: Seq<char>)
    requires
        precedes(a, b),
        precedes(b, c),
    ensures
        precedes(a, c),
{
    lemma_precedes_chain_from(a, b, c, 0);
}

/// Where `a` stands relative to `b`.
pub fn side(a: &str, b: &str) -> (r: Side)
    ensures
        r == Side::Before <==> precedes(a@, b@),
        r == Side::Same <==> a@ == b@,
        r == Side::After <==> precedes(b@, a@),
{
    let x: Vec<char> = chars_of(a);
    let y: Vec<char> = chars_of(b);
    let mut i: usize = 0;
    proof {
        lemma_precedes_total(a@, b@);
    }
    while i < x.len() && i < y.len()
        invariant
            i <= x@.len(),
            i <= y@.len(),
            x@ == a@,
            y@ == b@,
            forall|j: int| 0 <= j < i ==> x@[j] == y@[j],
            precedes(a@, b@) == precedes_from(a@, b@, i as int),
            precedes(b@, a@) == precedes_from(b@, a@, i as int),
            precedes(a@, b@) || precedes(b@, a@) || a@ == b@,
            !(precedes(a@, b@) && precedes(b@, a@)),
            a@ == b@ ==> !precedes(a@, b@) && !precedes(b@, a@),
        decreases x@.len() - i,
    {
        let c: u32 = code(x[i]);
        let d: u32 = code(y[i]);
        if c < d {
            return Side::Before;
        }
        if d < c {
            return Side::After;
        }
        i = i + 1;
    }
    if i < y.len() {
        Side::Before
    } else if i < x.len() {
        Side::After
    } else {
        assert(a@ == b@);
        Side::Same
    }
}

/// `n` stands in `h` at position `i`.
pub open spec fn stands_at(h: Seq<char>, n: Seq<char>, i: int) -> bool {
    0 <= i && i + n.len() <= h.len() && h.subrange(i, i + n.len()) == n
}

/// `n` occurs somewhere in `h`.
pub open spec fn occurs(h: Seq<char>, n: Seq<char>) -> bool {
    exists|i: int| stands_at(h, n, i)
}

/// What stands behind another text occurs in the two together.
pub proof fn lemma_occurs_behind(a: Seq<char>, x: Seq<char>)
    ensures
        occurs(a + x, x),
{
    let k = a.len() as int;
    assert((a + x).subrange(k, k + x.len()) =~= x);
    assert(stands_at(a + x, x, k));
}

/// What stands between two texts occurs in the three together.
pub proof fn lemma_occurs_between(a: Seq<char>, x: Seq<char>, b: Seq<char>)
    ensures
        occurs(a + x + b, x),
{
    let k = a.len() as int;
    assert((a + x + b).subrange(k, k + x.len()) =~= x);
    assert(stands_at(a + x + b, x, k));
}

/// `n` opens `h`.
pub open spec fn opens_with(h: Seq<char>, n: Seq<char>) -> bool {
    stands_at(h, n, 0)
}

/// Whether `n` stands in `h` at position `i`.
pub fn is_at(h: &Vec<char>, n: &Vec<char>, i: usize) -> (r: bool)
    requires
        i <= h@.len(),
    ensures
        r == stands_at(h@, n@, i as int),
{
    let total: usize = h.len();
    if n.len() > total - i {
        return false;
    }
    let mut k: usize = 0;
    while k < n.len()
        invariant
            k <= n@.len(),
            total == h@.len(),
            i + n@.len() <= h@.len(),
            forall|j: int| 0 <= j < k ==> h@[i + j] == n@[j],
        decreases n@.len() - k,
    {
        if h[i + k] != n[k] {
            assert(h@.subrange(i as int, i + n@.len())[k as int] != n@[k as int]);
            return false;
        }
        k = k + 1;
    }
    assert(h@.subrange(i as int, i + n@.len()) =~= n@);
    true
}

/// The first position at or after `from` where `n` stands in `h`.
pub fn find_from(h: &Vec<char>, n: &Vec<char>, from: usize) -> (r: Option<usize>)
    requires
        from <= h@.len(),
    ensures
        match r {
            Some(i) => from <= i <= h@.len() && stands_at(h@, n@, i as int) && forall|j: int|
                from <= j < i ==> !stands_at(h@, n@, j),
            None => forall|j: int| from <= j ==> !stands_at(h@, n@, j),
        },
{
    let mut i: usize = from;
    while i < h.len()
        invariant
            from <= i <= h@.len(),
            forall|j: int| from <= j < i ==> !stands_at(h@, n@, j),
        decreases h@.len() - i,
    {
        if is_at(h, n, i) {
            return Some(i);
        }
        i = i + 1;
    }
    if is_at(h, n, i) {
        return Some(i);
    }
    None
}

/// Whether `n` occurs in `h`.
pub fn contains(h: &str, n: &str) -> (r: bool)
    ensures
        r == occurs(h@, n@),
{
    let x: Vec<char> = chars_of(h);
    let y: Vec<char> = chars_of(n);
    match find_from(&x, &y, 0) {
        Some(i) => {
            assert(stands_at(h@, n@, i as int));
            true
        },
        None => false,
    }
}

/// Whether `h` opens with `n`.
pub fn starts_with(h: &str, n: &str) -> (r: bool)
    ensures
        r == opens_with(h@, n@),
{
    let x: Vec<char> = chars_of(h);
    let y: Vec<char> = chars_of(n);
    is_at(&x, &y, 0)
}

/// Text put after nothing is that text.
pub proof fn lemma_after_nothing()
    ensures
        forall|a: Seq<char>| #[trigger] (Seq::<char>::empty() + a) == a,
{
    assert forall|a: Seq<char>| #[trigger] (Seq::<char>::empty() + a) == a by {
        assert(Seq::<char>::empty() + a =~= a);
    }
}

/// The digit for `d`.
pub open spec fn digit(d: int) -> char {
    if d == 0 {
        '0'
    } else if d == 1 {
        '1'
    } else if d == 2 {
        '2'
    } else if d == 3 {
        '3'
    } else if d == 4 {
        '4'
    } else if d == 5 {
        '5'
    } else if d == 6 {
        '6'
    } else if d == 7 {
        '7'
    } else if d == 8 {
        '8'
    } else {
        '9'
    }
}

/// `n` in decimal.
pub open spec fn decimal(n: nat) -> Seq<char>
    decreases n,
{
    if n < 10 {
        seq![digit(n as int)]
    } else {
        decimal(n / 10).push(digit((n % 10) as int))
    }
}

/// No number is written as nothing.
pub proof fn lemma_decimal_not_empty(n: nat)
    ensures
        decimal(n).len() > 0,
{
}

/// Two numbers are never written alike.
pub proof fn lemma_decimal_differs(a: nat, b: nat)
    requires
        decimal(a) == decimal(b),
    ensures
        a == b,
    decreases a,
{
    let x = decimal(a);
    let y = decimal(b);
    assert(x.last() == y.last());
    if a >= 10 {
        lemma_decimal_not_empty(a / 10);
        assert(x.drop_last() =~= decimal(a / 10));
    }
    if b >= 10 {
        lemma_decimal_not_empty(b / 10);
        assert(y.drop_last() =~= decimal(b / 10));
    }
    if a >= 10 && b >= 10 {
        lemma_decimal_differs(a / 10, b / 10);
    }
}

/// A whole number in decimal, with its sign if it is negative.
pub open spec fn signed_decimal(n: int) -> Seq<char> {
    if n < 0 {
        seq!['-'] + decimal((-n) as nat)
    } else {
        decimal(n as nat)
    }
}

fn digit_char(d: u64) -> (r: char)
    requires
        d < 10,
    ensures
        r == digit(d as int),
{
    if d == 0 {
        '0'
    } else if d == 1 {
        '1'
    } else if d == 2 {
        '2'
    } else if d == 3 {
        '3'
    } else if d == 4 {
        '4'
    } else if d == 5 {
        '5'
    } else if d == 6 {
        '6'
    } else if d == 7 {
        '7'
    } else if d == 8 {
        '8'
    } else {
        '9'
    }
}

/// Appends `n` in decimal.
pub fn push_decimal(s: &mut String, n: u64)
    ensures
        final(s)@ == old(s)@ + decimal(n as nat),
    decreases n,
{
    if n >= 10 {
        push_decimal(s, n / 10);
    }
    s.push(digit_char(n % 10));
    assert(s@ =~= old(s)@ + decimal(n as nat));
}

/// Appends `n` in decimal, with its sign if it is negative.
pub fn push_signed(s: &mut String, n: i64)
    ensures
        final(s)@ == old(s)@ + signed_decimal(n as int),
{
    if n < 0 {
        s.push('-');
        let m: u64 = if n == i64::MIN {
            0x8000_0000_0000_0000
        } else {
            (-n) as u64
        };
        push_decimal(s, m);
        assert(s@ =~= old(s)@ + signed_decimal(n as int));
    } else {
        push_decimal(s, n as u64);
    }
}

/// An ASCII capital as its small letter, anything else as it is.
pub open spec fn lower_char(c: char) -> char {
    if 'A' <= c <= 'Z' {
        ((c as int) + 32) as char
    } else {
        c
    }
}

/// An ASCII small letter as its capital, anything else as it is.
pub open spec fn upper_char(c: char) -> char {
    if 'a' <= c <= 'z' {
        ((c as int) - 32) as char
    } else {
        c
    }
}

/// Text in ASCII small letters.
pub open spec fn lower(s: Seq<char>) -> Seq<char> {
    s.map_values(|c: char| lower_char(c))
}

/// The small letter of an ASCII capital.
pub fn to_lower(c: char) -> (r: char)
    ensures
        r == lower_char(c),
{
    if 'A' <= c && c <= 'Z' {
        let n: u8 = c as u8 + 32;
        n as char
    } else {
        c
    }
}

/// The capital of an ASCII small letter.
pub fn to_upper(c: char) -> (r: char)
    ensures
        r == upper_char(c),
{
    if 'a' <= c && c <= 'z' {
        let n: u8 = c as u8 - 32;
        n as char
    } else {
        c
    }
}

/// The characters of `s` in ASCII small letters.
pub fn lower_chars(s: &str) -> (r: Vec<char>)
    ensures
        r@ == lower(s@),
{
    let cs: Vec<char> = chars_of(s);
    let mut out: Vec<char> = Vec::new();
    let mut i: usize = 0;
    while i < cs.len()
        invariant
            cs@ == s@,
            i <= cs@.len(),
            out@ == lower(s@.take(i as int)),
        decreases cs@.len() - i,
    {
        out.push(to_lower(cs[i]));
        assert(out@ =~= lower(s@.take(i + 1)));
        i = i + 1;
    }
    assert(s@.take(i as int) =~= s@);
    out
}

/// Whether two strings are the same but for the case of ASCII letters.
pub fn same_ignoring_case(a: &str, b: &str) -> (r: bool)
    ensures
        r == (lower(a@) == lower(b@)),
{
    let x: Vec<char> = lower_chars(a);
    let y: Vec<char> = lower_chars(b);
    if x.len() != y.len() {
        return false;
    }
    let mut i: usize = 0;
    while i < x.len()
        invariant
            i <= x@.len(),
            x@ == lower(a@),
            y@ == lower(b@),
            x@.len() == y@.len(),
            forall|k: int| 0 <= k < i ==> x@[k] == y@[k],
        decreases x@.len() - i,
    {
        if x[i] != y[i] {
            assert(x@[i as int] != y@[i as int]);
            return false;
        }
        i = i + 1;
    }
    assert(x@ =~= y@);
    true
}

/// An optional text.
pub open spec fn maybe(t: Option<&str>) -> Option<Seq<char>> {
    match t {
        Some(s) => Some(s@),
        None => None,
    }
}

/// `n` closes `h`.
pub open spec fn closes_with(h: Seq<char>, n: Seq<char>) -> bool {
    stands_at(h, n, h.len() - n.len())
}

/// Whether `h` closes with `n`.
pub fn ends_with(h: &str, n: &str) -> (r: bool)
    ensures
        r == closes_with(h@, n@),
{
    let x: Vec<char> = chars_of(h);
    let y: Vec<char> = chars_of(n);
    if y.len() > x.len() {
        return false;
    }
    is_at(&x, &y, x.len() - y.len())
}

/// Where `n` first stands in `h`, looking from `i` on; past the end if nowhere.
pub open spec fn first_at(h: Seq<char>, n: Seq<char>, i: int) -> int
    decreases h.len() + 1 - i,
{
    if i > h.len() || stands_at(h, n, i) {
        i
    } else {
        first_at(h, n, i + 1)
    }
}

/// What follows the first `n` in `h`.
pub open spec fn after(h: Seq<char>, n: Seq<char>) -> Option<Seq<char>> {
    let i = first_at(h, n, 0);
    if i <= h.len() {
        Some(h.skip(i + n.len()))
    } else {
        None
    }
}

proof fn lemma_first_at(h: Seq<char>, n: Seq<char>, i: int, k: int)
    requires
        0 <= i <= k,
        forall|j: int| i <= j < k ==> !stands_at(h, n, j),
        k <= h.len() ==> stands_at(h, n, k),
        k > h.len() ==> k == h.len() + 1,
    ensures
        first_at(h, n, i) == k,
    decreases k - i,
{
    if i < k {
        assert(!stands_at(h, n, i));
        lemma_first_at(h, n, i + 1, k);
    }
}

/// What follows the first `n` in `h`.
pub fn rest_after(h: &str, n: &str) -> (r: Option<String>)
    ensures
        crate::text::some_text(r) == after(h@, n@),
{
    let x: Vec<char> = chars_of(h);
    let y: Vec<char> = chars_of(n);
    match find_from(&x, &y, 0) {
        Some(i) => {
            proof {
                lemma_first_at(h@, n@, 0, i as int);
            }
            assert(i + n@.len() <= x@.len());
            let total: usize = x.len();
            let s: String = string_of(&x, i + y.len(), total);
            assert(s@ =~= h@.skip(i + n@.len()));
            Some(s)
        },
        None => {
            proof {
                lemma_first_at(h@, n@, 0, h@.len() as int + 1);
            }
            None
        },
    }
}

/// An optional string as text.
pub open spec fn some_text(s: Option<String>) -> Option<Seq<char>> {
    match s {
        Some(s) => Some(s@),
        None => None,
    }
}

/// What `s` has behind `n`, if it opens with it.
pub open spec fn stripped(s: Seq<char>, n: Seq<char>) -> Option<Seq<char>> {
    if opens_with(s, n) {
        Some(s.skip(n.len() as int))
    } else {
        None
    }
}

/// What `s` has behind `n`, if it opens with it.
pub fn strip_prefix(s: &str, n: &str) -> (r: Option<String>)
    ensures
        some_text(r) == stripped(s@, n@),
{
    let x: Vec<char> = chars_of(s);
    let y: Vec<char> = chars_of(n);
    if is_at(&x, &y, 0) {
        let t: String = string_of(&x, y.len(), x.len());
        assert(t@ =~= s@.skip(n@.len() as int));
        Some(t)
    } else {
        None
    }
}

/// `s` without any number of `n` at its end.
pub open spec fn without_endings(s: Seq<char>, n: Seq<char>) -> Seq<char>
    decreases s.len(),
{
    if n.len() > 0 && closes_with(s, n) {
        without_endings(s.take(s.len() - n.len()), n)
    } else {
        s
    }
}

/// `s` without any number of `n` at its end.
pub fn trim_endings(s: &str, n: &str) -> (r: String)
    requires
        n@.len() > 0,
    ensures
        r@ == without_endings(s@, n@),
{
    let mut cur: String = s.to_owned();
    loop
        invariant
            n@.len() > 0,
            without_endings(s@, n@) == without_endings(cur@, n@),
        ensures
            cur@ == without_endings(s@, n@),
        decreases cur@.len(),
    {
        if !ends_with(cur.as_str(), n) {
            break;
        }
        let x: Vec<char> = chars_of(cur.as_str());
        let cut: usize = x.len() - n.unicode_len();
        let shorter: String = string_of(&x, 0, cut);
        assert(shorter@ =~= cur@.take(cut as int));
        cur = shorter;
    }
    cur
}

/// How many bytes a character takes in UTF-8.
pub open spec fn utf8_len(c: char) -> nat {
    if (c as int) < 0x80 {
        1
    } else if (c as int) < 0x800 {
        2
    } else if (c as int) < 0x10000 {
        3
    } else {
        4
    }
}

/// How many bytes a text takes in UTF-8.
pub open spec fn bytes_len(s: Seq<char>) -> nat
    decreases s.len(),
{
    if s.len() == 0 {
        0
    } else {
        bytes_len(s.drop_last()) + utf8_len(s.last())
    }
}

proof fn lemma_bytes_grow(s: Seq<char>, n: int)
    requires
        0 <= n <= s.len(),
    ensures
        bytes_len(s.take(n)) <= bytes_len(s),
    decreases s.len() - n,
{
    if n < s.len() {
        lemma_bytes_grow(s, n + 1);
        assert(s.take(n + 1).drop_last() =~= s.take(n));
    } else {
        assert(s.take(n) =~= s);
    }
}

/// Whether a text takes at most `most` bytes in UTF-8.
pub fn fits_in(s: &str, most: usize) -> (r: bool)
    ensures
        r == (bytes_len(s@) <= most),
{
    let cs: Vec<char> = chars_of(s);
    let mut n: usize = 0;
    let mut i: usize = 0;
    assert(s@.take(0) =~= Seq::<char>::empty());
    while i < cs.len()
        invariant
            cs@ == s@,
            i <= cs@.len(),
            n <= most,
            n == bytes_len(s@.take(i as int)),
        decreases cs@.len() - i,
    {
        let c: u32 = code(cs[i]);
        let k: usize = if c < 0x80 {
            1
        } else if c < 0x800 {
            2
        } else if c < 0x10000 {
            3
        } else {
            4
        };
        assert(s@.take(i + 1).drop_last() =~= s@.take(i as int));
        assert(k == utf8_len(s@[i as int]));
        proof {
            lemma_bytes_grow(s@, i + 1);
        }
        if k > most - n {
            return false;
        }
        n = n + k;
        i = i + 1;
    }
    assert(s@.take(i as int) =~= s@);
    true
}

/// Whether two optional texts are the same.
pub fn same_option(a: &Option<String>, b: &Option<String>) -> (r: bool)
    ensures
        r == (some_text(*a) == some_text(*b)),
{
    match (a, b) {
        (Some(x), Some(y)) => same(x.as_str(), y.as_str()),
        (None, None) => true,
        _ => false,
    }
}

/// What follows the first occurrence of a text is all that stands behind it; it is
/// there exactly if the text occurs.
pub proof fn law_what_follows_the_first_occurrence(h: Seq<char>, n: Seq<char>)
    ensures
        after(h, n) is Some <==> occurs(h, n),
        after(h, n) is Some ==> exists|i: int|
            #[trigger] stands_at(h, n, i) && (forall|j: int| 0 <= j < i ==> !stands_at(h, n, j))
                && after(h, n)->0 == h.skip(i + n.len()),
{
    lemma_first_found(h, n, 0);
    let i = first_at(h, n, 0);
    if i <= h.len() {
        assert(stands_at(h, n, i));
    } else if occurs(h, n) {
        let k = choose|k: int| stands_at(h, n, k);
        assert(0 <= k < i);
    }
}

proof fn lemma_first_found(h: Seq<char>, n: Seq<char>, i: int)
    requires
        0 <= i <= h.len() + 1,
    ensures
        i <= first_at(h, n, i) <= h.len() + 1,
        first_at(h, n, i) <= h.len() ==> stands_at(h, n, first_at(h, n, i)),
        forall|j: int| i <= j < first_at(h, n, i) ==> !stands_at(h, n, j),
    decreases h.len() + 1 - i,
{
    if i <= h.len() && !stands_at(h, n, i) {
        lemma_first_found(h, n, i + 1);
    }
}

/// The first text is smaller at the place `k`, or ends there, and the two agree up
/// to it.
pub open spec fn smaller_at(a: Seq<char>, b: Seq<char>, k: int) -> bool {
    &&& 0 <= k <= a.len()
    &&& k < b.len()
    &&& forall|j: int| 0 <= j < k ==> a[j] == b[j]
    &&& k == a.len() || (a[k] as int) < (b[k] as int)
}

/// One text comes before another exactly if it is a true beginning of it, or is
/// smaller at the first place where they differ.
pub proof fn law_texts_are_ordered_by_the_first_difference(a: Seq<char>, b: Seq<char>)
    ensures
        precedes(a, b) <==> exists|k: int| smaller_at(a, b, k),
{
    if precedes(a, b) {
        let k = lemma_precedes_split(a, b, 0);
        assert(smaller_at(a, b, k));
    }
    if exists|k: int| smaller_at(a, b, k) {
        let k = choose|k: int| smaller_at(a, b, k);
        lemma_precedes_at(a, b, 0, k);
    }
}

proof fn lemma_precedes_split(a: Seq<char>, b: Seq<char>, i: int) -> (k: int)
    requires
        0 <= i <= a.len(),
        forall|j: int| 0 <= j < i ==> j < b.len() && a[j] == b[j],
        precedes_from(a, b, i),
    ensures
        smaller_at(a, b, k),
    decreases b.len() - i,
{
    if i < a.len() && a[i] == b[i] {
        lemma_precedes_split(a, b, i + 1)
    } else {
        i
    }
}

proof fn lemma_precedes_at(a: Seq<char>, b: Seq<char>, i: int, k: int)
    requires
        0 <= i <= k <= a.len(),
        k < b.len(),
        forall|j: int| 0 <= j < k ==> a[j] == b[j],
        k == a.len() || (a[k] as int) < (b[k] as int),
    ensures
        precedes_from(a, b, i),
    decreases k - i,
{
    if i < k {
        lemma_precedes_at(a, b, i + 1, k);
    }
}

/// The number that decimal digits stand for.
pub open spec fn digits_value(s: Seq<char>) -> int
    decreases s.len(),
{
    if s.len() == 0 {
        0
    } else {
        10 * digits_value(s.drop_last()) + (s.last() as int - '0' as int)
    }
}

/// A number is written such that its digits, read back, give the number; there is
/// no zero in front but for zero itself.
pub proof fn law_a_number_reads_back(n: nat)
    ensures
        digits_value(decimal(n)) == n,
        decimal(n).len() > 0,
        forall|i: int| 0 <= i < decimal(n).len() ==> '0' <= #[trigger] decimal(n)[i] <= '9',
        n > 0 ==> decimal(n)[0] != '0',
    decreases n,
{
    if n >= 10 {
        law_a_number_reads_back(n / 10);
        assert(decimal(n).drop_last() =~= decimal(n / 10));
        assert(decimal(n)[0] == decimal(n / 10)[0]);
    } else {
        assert(decimal(n).drop_last() =~= Seq::<char>::empty());
        assert(digits_value(Seq::<char>::empty()) == 0);
    }
}

/// A number below zero is its distance from it behind a minus sign; any other is written
/// without one.
pub proof fn law_a_minus_sign_tells_below_zero(n: int)
    ensures
        n < 0 <==> signed_decimal(n)[0] == '-',
        n < 0 ==> digits_value(signed_decimal(n).skip(1)) == -n,
        n >= 0 ==> digits_value(signed_decimal(n)) == n,
{
    if n < 0 {
        law_a_number_reads_back((-n) as nat);
        assert(signed_decimal(n).skip(1) =~= decimal((-n) as nat));
    } else {
        law_a_number_reads_back(n as nat);
        assert('0' <= decimal(n as nat)[0] <= '9');
    }
}

/// The bytes of two texts behind each other are those of the one and those of the other.
pub proof fn law_bytes_add_up(a: Seq<char>, b: Seq<char>)
    ensures
        bytes_len(a + b) == bytes_len(a) + bytes_len(b),
        a.len() <= bytes_len(a) <= 4 * a.len(),
    decreases b.len() + a.len(),
{
    if b.len() > 0 {
        law_bytes_add_up(a, b.drop_last());
        assert((a + b).drop_last() =~= a + b.drop_last());
    } else {
        assert(a + b =~= a);
        if a.len() > 0 {
            law_bytes_add_up(a.drop_last(), Seq::empty());
        }
    }
}

} // verus!
