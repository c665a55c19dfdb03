//! Turning the name of a key into what a profile stores.
//!
//! A profile stores an evdev code, not a letter: the raw code is independent of
//! the layout, so a binding made on one keyboard still means the same physical
//! key on another. The desktop reports the printed character instead, so
//! something has to translate, and this is it.
//!
//! The table covers what games are bound to. A key that is not here is refused
//! rather than guessed at: binding the wrong physical key fails silently and
//! only during play.

use vstd::prelude::*;
use vstd::string::*;

verus! {

/// The letter rows in evdev order. The codes are not alphabetical; they follow
/// the physical rows of a keyboard.
pub const ROW1: &'static str = "qwertyuiop";

pub const ROW2: &'static str = "asdfghjkl";

pub const ROW3: &'static str = "zxcvbnm";

pub const DIGITS: &'static str = "1234567890";

/// The position of `c` in `row`, looking from `i` on.
pub open spec fn place_from(row: Seq<char>, c: char, i: int) -> Option<int>
    decreases row.len() - i,
{
    if i >= row.len() {
        None
    } else if row[i] == c {
        Some(i)
    } else {
        place_from(row, c, i + 1)
    }
}

/// The code of a key with a single character: a letter or digit by its place in
/// its row. The number row stores its position, so 1 is 2 and 0 is 11.
pub open spec fn char_code(c: char) -> Option<u16> {
    if let Some(i) = place_from(ROW1@, c, 0) {
        Some((16 + i) as u16)
    } else if let Some(i) = place_from(ROW2@, c, 0) {
        Some((30 + i) as u16)
    } else if let Some(i) = place_from(ROW3@, c, 0) {
        Some((44 + i) as u16)
    } else if let Some(i) = place_from(DIGITS@, c, 0) {
        Some((2 + i) as u16)
    } else {
        None
    }
}

/// The code of a key known by a name or a sign.
pub open spec fn word_code(n: Seq<char>) -> Option<u16> {
    if n == "escape"@ {
        Some(1)
    } else if n == "backspace"@ {
        Some(14)
    } else if n == "tab"@ {
        Some(15)
    } else if n == "enter"@ || n == "return"@ {
        Some(28)
    } else if n == "ctrl"@ || n == "control"@ || n == "leftcontrol"@ {
        Some(29)
    } else if n == "shift"@ || n == "leftshift"@ {
        Some(42)
    } else if n == "alt"@ || n == "leftalt"@ {
        Some(56)
    } else if n == "space"@ {
        Some(57)
    } else if n == "capslock"@ {
        Some(58)
    } else if n == "rightshift"@ {
        Some(54)
    } else if n == "rightctrl"@ || n == "rightcontrol"@ {
        Some(97)
    } else if n == "rightalt"@ {
        Some(100)
    } else if n == "home"@ {
        Some(102)
    } else if n == "up"@ {
        Some(103)
    } else if n == "pageup"@ {
        Some(104)
    } else if n == "left"@ {
        Some(105)
    } else if n == "right"@ {
        Some(106)
    } else if n == "end"@ {
        Some(107)
    } else if n == "down"@ {
        Some(108)
    } else if n == "pagedown"@ {
        Some(109)
    } else if n == "insert"@ {
        Some(110)
    } else if n == "delete"@ {
        Some(111)
    } else if n == "minus"@ || n == "-"@ {
        Some(12)
    } else if n == "equal"@ || n == "="@ {
        Some(13)
    } else if n == "leftbracket"@ || n == "["@ {
        Some(26)
    } else if n == "rightbracket"@ || n == "]"@ {
        Some(27)
    } else if n == "semicolon"@ || n == ";"@ {
        Some(39)
    } else if n == "quote"@ || n == "'"@ {
        Some(40)
    } else if n == "comma"@ || n == ","@ {
        Some(51)
    } else if n == "period"@ || n == "."@ {
        Some(52)
    } else if n == "slash"@ || n == "/"@ {
        Some(53)
    } else if n == "backslash"@ || n == "\\"@ {
        Some(43)
    } else {
        None
    }
}

/// The code of a function key, `f1` to `f12`. The last two break the run.
pub open spec fn function_code(n: Seq<char>) -> Option<u16> {
    if n.len() == 2 && n[0] == 'f' && '1' <= n[1] <= '9' {
        Some((10 + n[1] as int) as u16)
    } else if n.len() == 3 && n[0] == 'f' && n[1] == '1' && n[2] == '0' {
        Some(68)
    } else if n.len() == 3 && n[0] == 'f' && n[1] == '1' && n[2] == '1' {
        Some(87)
    } else if n.len() == 3 && n[0] == 'f' && n[1] == '1' && n[2] == '2' {
        Some(88)
    } else {
        None
    }
}

/// The evdev code for a key name. Case is ignored.
pub open spec fn code_of(name: Seq<char>) -> Option<u16> {
    let n = crate::text::lower(name);
    if n.len() == 1 && char_code(n[0]) is Some {
        char_code(n[0])
    } else if word_code(n) is Some {
        word_code(n)
    } else {
        function_code(n)
    }
}

fn place(row: &str, c: char) -> (r: Option<usize>)
    ensures
        match r {
            Some(i) => place_from(row@, c, 0) == Some(i as int) && i < row@.len(),
            None => place_from(row@, c, 0) is None,
        },
{
    let cs: Vec<char> = crate::text::chars_of(row);
    let mut i: usize = 0;
    while i < cs.len()
        invariant
            cs@ == row@,
            i <= cs@.len(),
            place_from(row@, c, 0) == place_from(row@, c, i as int),
        decreases cs@.len() - i,
    {
        if cs[i] == c {
            return Some(i);
        }
        i = i + 1;
    }
    None
}

fn code_of_char(c: char) -> (r: Option<u16>)
    ensures
        r == char_code(c),
{
    proof {
        reveal_strlit("qwertyuiop");
        reveal_strlit("asdfghjkl");
        reveal_strlit("zxcvbnm");
        reveal_strlit("1234567890");
    }
    if let Some(i) = place(ROW1, c) {
        return Some(16 + i as u16);
    }
    if let Some(i) = place(ROW2, c) {
        return Some(30 + i as u16);
    }
    if let Some(i) = place(ROW3, c) {
        return Some(44 + i as u16);
    }
    if let Some(i) = place(DIGITS, c) {
        return Some(2 + i as u16);
    }
    None
}

fn code_of_word(n: &str) -> (r: Option<u16>)
    ensures
        r == word_code(n@),
{
    if crate::text::same(n, "escape") {
        Some(1)
    } else if crate::text::same(n, "backspace") {
        Some(14)
    } else if crate::text::same(n, "tab") {
        Some(15)
    } else if crate::text::same(n, "enter") || crate::text::same(n, "return") {
        Some(28)
    } else if crate::text::same(n, "ctrl") || crate::text::same(n, "control") || crate::text::same(
        n,
        "leftcontrol",
    ) {
        Some(29)
    } else if crate::text::same(n, "shift") || crate::text::same(n, "leftshift") {
        Some(42)
    } else if crate::text::same(n, "alt") || crate::text::same(n, "leftalt") {
        Some(56)
    } else if crate::text::same(n, "space") {
        Some(57)
    } else if crate::text::same(n, "capslock") {
        Some(58)
    } else if crate::text::same(n, "rightshift") {
        Some(54)
    } else if crate::text::same(n, "rightctrl") || crate::text::same(n, "rightcontrol") {
        Some(97)
    } else if crate::text::same(n, "rightalt") {
        Some(100)
    } else if crate::text::same(n, "home") {
        Some(102)
    } else if crate::text::same(n, "up") {
        Some(103)
    } else if crate::text::same(n, "pageup") {
        Some(104)
    } else if crate::text::same(n, "left") {
        Some(105)
    } else if crate::text::same(n, "right") {
        Some(106)
    } else if crate::text::same(n, "end") {
        Some(107)
    } else if crate::text::same(n, "down") {
        Some(108)
    } else if crate::text::same(n, "pagedown") {
        Some(109)
    } else if crate::text::same(n, "insert") {
        Some(110)
    } else if crate::text::same(n, "delete") {
        Some(111)
    } else {
        code_of_sign(n)
    }
}

/// The code of a key known by a sign, or by the sign's name.
fn code_of_sign(n: &str) -> (r: Option<u16>)
    requires
        !(n@ == "escape"@ || n@ == "backspace"@ || n@ == "tab"@ || n@ == "enter"@ || n@
            == "return"@ || n@ == "ctrl"@ || n@ == "control"@ || n@ == "leftcontrol"@ || n@
            == "shift"@ || n@ == "leftshift"@ || n@ == "alt"@ || n@ == "leftalt"@ || n@
            == "space"@ || n@ == "capslock"@ || n@ == "rightshift"@ || n@ == "rightctrl"@ || n@
            == "rightcontrol"@ || n@ == "rightalt"@ || n@ == "home"@ || n@ == "up"@ || n@
            == "pageup"@ || n@ == "left"@ || n@ == "right"@ || n@ == "end"@ || n@ == "down"@ || n@
            == "pagedown"@ || n@ == "insert"@ || n@ == "delete"@),
    ensures
        r == word_code(n@),
{
    if crate::text::same(n, "minus") || crate::text::same(n, "-") {
        Some(12)
    } else if crate::text::same(n, "equal") || crate::text::same(n, "=") {
        Some(13)
    } else if crate::text::same(n, "leftbracket") || crate::text::same(n, "[") {
        Some(26)
    } else if crate::text::same(n, "rightbracket") || crate::text::same(n, "]") {
        Some(27)
    } else if crate::text::same(n, "semicolon") || crate::text::same(n, ";") {
        Some(39)
    } else if crate::text::same(n, "quote") || crate::text::same(n, "'") {
        Some(40)
    } else if crate::text::same(n, "comma") || crate::text::same(n, ",") {
        Some(51)
    } else if crate::text::same(n, "period") || crate::text::same(n, ".") {
        Some(52)
    } else if crate::text::same(n, "slash") || crate::text::same(n, "/") {
        Some(53)
    } else if crate::text::same(n, "backslash") || crate::text::same(n, "\\") {
        Some(43)
    } else {
        None
    }
}

fn code_of_function_key(n: &Vec<char>) -> (r: Option<u16>)
    ensures
        r == function_code(n@),
{
    if n.len() == 2 && n[0] == 'f' && '1' <= n[1] && n[1] <= '9' {
        return Some(10 + n[1] as u8 as u16);
    }
    if n.len() == 3 && n[0] == 'f' && n[1] == '1' {
        if n[2] == '0' {
            return Some(68);
        }
        if n[2] == '1' {
            return Some(87);
        }
        if n[2] == '2' {
            return Some(88);
        }
    }
    None
}

/// evdev code for a named key, or `None` when it is not one we can map.
pub fn evdev_code(name: &str) -> (r: Option<u16>)
    ensures
        r == code_of(name@),
{
    let n: Vec<char> = crate::text::lower_chars(name);
    if n.len() == 1 {
        if let Some(c) = code_of_char(n[0]) {
            return Some(c);
        }
    }
    let s: String = crate::text::string_of(&n, 0, n.len());
    assert(n@.subrange(0, n@.len() as int) =~= n@);
    if let Some(c) = code_of_word(s.as_str()) {
        return Some(c);
    }
    code_of_function_key(&n)
}

/// The label of a code that this table produces.
pub open spec fn known_label(code: u16) -> Option<Seq<char>> {
    if 16 <= code <= 25 {
        Some(seq![crate::text::upper_char(ROW1@[code - 16])])
    } else if 30 <= code <= 38 {
        Some(seq![crate::text::upper_char(ROW2@[code - 30])])
    } else if 44 <= code <= 50 {
        Some(seq![crate::text::upper_char(ROW3@[code - 44])])
    } else if 2 <= code <= 11 {
        Some(seq![DIGITS@[code - 2]])
    } else if 59 <= code <= 68 {
        Some("F"@ + crate::text::decimal((code - 58) as nat))
    } else {
        fixed_label(code)
    }
}

/// The labels that follow no rule.
pub open spec fn fixed_label(code: u16) -> Option<Seq<char>> {
    if code == 1 {
        Some("Esc"@)
    } else if code == 12 {
        Some("-"@)
    } else if code == 13 {
        Some("="@)
    } else if code == 14 {
        Some("Backspace"@)
    } else if code == 15 {
        Some("Tab"@)
    } else if code == 26 {
        Some("["@)
    } else if code == 27 {
        Some("]"@)
    } else if code == 28 {
        Some("Enter"@)
    } else if code == 29 {
        Some("Ctrl"@)
    } else if code == 39 {
        Some(";"@)
    } else if code == 40 {
        Some("'"@)
    } else if code == 42 {
        Some("Shift"@)
    } else if code == 43 {
        Some("\\"@)
    } else if code == 51 {
        Some(","@)
    } else if code == 52 {
        Some("."@)
    } else if code == 53 {
        Some("/"@)
    } else if code == 54 {
        Some("R.Shift"@)
    } else if code == 56 {
        Some("Alt"@)
    } else if code == 57 {
        Some("Space"@)
    } else if code == 58 {
        Some("CapsLock"@)
    } else if code == 87 {
        Some("F11"@)
    } else if code == 88 {
        Some("F12"@)
    } else if code == 97 {
        Some("R.Ctrl"@)
    } else if code == 100 {
        Some("R.Alt"@)
    } else if code == 102 {
        Some("Home"@)
    } else if code == 103 {
        Some("Up"@)
    } else if code == 104 {
        Some("PageUp"@)
    } else if code == 105 {
        Some("Left"@)
    } else if code == 106 {
        Some("Right"@)
    } else if code == 107 {
        Some("End"@)
    } else if code == 108 {
        Some("Down"@)
    } else if code == 109 {
        Some("PageDown"@)
    } else if code == 110 {
        Some("Insert"@)
    } else if code == 111 {
        Some("Delete"@)
    } else {
        None
    }
}

/// The label of a code: its name if the table produces it, else its number.
pub open spec fn label_of(code: u16) -> Seq<char> {
    match known_label(code) {
        Some(l) => l,
        None => "#"@ + crate::text::decimal(code as nat),
    }
}

fn label_of_fixed(code: u16) -> (r: Option<&'static str>)
    ensures
        match r {
            Some(l) => fixed_label(code) == Some(l@),
            None => fixed_label(code) is None,
        },
{
    match code {
        1 => Some("Esc"),
        12 => Some("-"),
        13 => Some("="),
        14 => Some("Backspace"),
        15 => Some("Tab"),
        26 => Some("["),
        27 => Some("]"),
        28 => Some("Enter"),
        29 => Some("Ctrl"),
        39 => Some(";"),
        40 => Some("'"),
        42 => Some("Shift"),
        43 => Some("\\"),
        51 => Some(","),
        52 => Some("."),
        53 => Some("/"),
        54 => Some("R.Shift"),
        56 => Some("Alt"),
        57 => Some("Space"),
        58 => Some("CapsLock"),
        87 => Some("F11"),
        88 => Some("F12"),
        97 => Some("R.Ctrl"),
        100 => Some("R.Alt"),
        102 => Some("Home"),
        103 => Some("Up"),
        104 => Some("PageUp"),
        105 => Some("Left"),
        106 => Some("Right"),
        107 => Some("End"),
        108 => Some("Down"),
        109 => Some("PageDown"),
        110 => Some("Insert"),
        111 => Some("Delete"),
        _ => None,
    }
}

/// A human label for a stored code, for showing what is bound.
///
/// Every code this module can produce is named. Anything else is shown as its
/// number rather than a wrong letter: a profile written by hand can hold codes
/// this table never made.
pub fn label(code: u16) -> (r: String)
    ensures
        r@ == label_of(code),
{
    proof {
        reveal_strlit("qwertyuiop");
        reveal_strlit("asdfghjkl");
        reveal_strlit("zxcvbnm");
        reveal_strlit("1234567890");
        crate::text::lemma_after_nothing();
    }
    let mut s: String = String::new();
    if 16 <= code && code <= 25 {
        s.push(crate::text::to_upper(crate::text::chars_of(ROW1)[(code - 16) as usize]));
    } else if 30 <= code && code <= 38 {
        s.push(crate::text::to_upper(crate::text::chars_of(ROW2)[(code - 30) as usize]));
    } else if 44 <= code && code <= 50 {
        s.push(crate::text::to_upper(crate::text::chars_of(ROW3)[(code - 44) as usize]));
    } else if 2 <= code && code <= 11 {
        s.push(crate::text::chars_of(DIGITS)[(code - 2) as usize]);
    } else if 59 <= code && code <= 68 {
        s.append("F");
        crate::text::push_decimal(&mut s, (code - 58) as u64);
    } else if let Some(l) = label_of_fixed(code) {
        s.append(l);
    } else {
        s.append("#");
        crate::text::push_decimal(&mut s, code as u64);
    }
    assert(s@ =~= label_of(code));
    s
}

proof fn lemma_place(row: Seq<char>, c: char, i: int)
    requires
        0 <= i <= row.len(),
    ensures
        match place_from(row, c, i) {
            Some(k) => i <= k < row.len() && row[k] == c,
            None => forall|k: int| i <= k < row.len() ==> row[k] != c,
        },
    decreases row.len() - i,
{
    if i < row.len() && row[i] != c {
        lemma_place(row, c, i + 1);
    }
}

proof fn lemma_rows()
    ensures
        ROW1@.len() == 10,
        ROW2@.len() == 9,
        ROW3@.len() == 7,
        DIGITS@.len() == 10,
{
    reveal_strlit("qwertyuiop");
    reveal_strlit("asdfghjkl");
    reveal_strlit("zxcvbnm");
    reveal_strlit("1234567890");
}

/// Case is ignored: a name and the same name in small letters are one key.
pub proof fn law_case_is_ignored(name: Seq<char>)
    ensures
        code_of(crate::text::lower(name)) == code_of(name),
{
    assert(crate::text::lower(crate::text::lower(name)) =~= crate::text::lower(name));
}

/// Every code the table produces has a label, so the editor never shows a
/// number for a key that was just pressed.
pub proof fn law_everything_mappable_is_nameable(name: Seq<char>)
    requires
        code_of(name) is Some,
    ensures
        known_label(code_of(name)->0) is Some,
{
    lemma_rows();
    let n = crate::text::lower(name);
    if n.len() == 1 {
        lemma_place(ROW1@, n[0], 0);
        lemma_place(ROW2@, n[0], 0);
        lemma_place(ROW3@, n[0], 0);
        lemma_place(DIGITS@, n[0], 0);
    }
}

/// A name of the key with a code that has a fixed label.
spec fn word_for(code: u16) -> Seq<char> {
    if code == 1 {
        "escape"@
    } else if code == 12 {
        "-"@
    } else if code == 13 {
        "="@
    } else if code == 14 {
        "backspace"@
    } else if code == 15 {
        "tab"@
    } else if code == 26 {
        "["@
    } else if code == 27 {
        "]"@
    } else if code == 28 {
        "enter"@
    } else if code == 29 {
        "ctrl"@
    } else if code == 39 {
        ";"@
    } else if code == 40 {
        "'"@
    } else if code == 42 {
        "shift"@
    } else if code == 43 {
        "\\"@
    } else if code == 51 {
        ","@
    } else if code == 52 {
        "."@
    } else if code == 53 {
        "/"@
    } else if code == 54 {
        "rightshift"@
    } else if code == 56 {
        "alt"@
    } else if code == 57 {
        "space"@
    } else if code == 58 {
        "capslock"@
    } else if code == 97 {
        "rightctrl"@
    } else if code == 100 {
        "rightalt"@
    } else if code == 102 {
        "home"@
    } else if code == 103 {
        "up"@
    } else if code == 104 {
        "pageup"@
    } else if code == 105 {
        "left"@
    } else if code == 106 {
        "right"@
    } else if code == 107 {
        "end"@
    } else if code == 108 {
        "down"@
    } else if code == 109 {
        "pagedown"@
    } else if code == 110 {
        "insert"@
    } else if code == 111 {
        "delete"@
    } else if code == 87 {
        "f11"@
    } else {
        "f12"@
    }
}

proof fn lemma_unlike(a: Seq<char>, b: Seq<char>, i: int)
    requires
        a[i] != b[i],
    ensures
        a != b,
{
}

proof fn lemma_word_for(code: u16)
    requires
        fixed_label(code) is Some,
    ensures
        code_of(word_for(code)) == Some(code),
{
    reveal_strlit("escape");
    reveal_strlit("backspace");
    reveal_strlit("tab");
    reveal_strlit("enter");
    reveal_strlit("return");
    reveal_strlit("ctrl");
    reveal_strlit("control");
    reveal_strlit("leftcontrol");
    reveal_strlit("shift");
    reveal_strlit("leftshift");
    reveal_strlit("alt");
    reveal_strlit("leftalt");
    reveal_strlit("space");
    reveal_strlit("capslock");
    reveal_strlit("rightshift");
    reveal_strlit("rightctrl");
    reveal_strlit("rightcontrol");
    reveal_strlit("rightalt");
    reveal_strlit("home");
    reveal_strlit("up");
    reveal_strlit("pageup");
    reveal_strlit("left");
    reveal_strlit("right");
    reveal_strlit("end");
    reveal_strlit("down");
    reveal_strlit("pagedown");
    reveal_strlit("insert");
    reveal_strlit("delete");
    reveal_strlit("minus");
    reveal_strlit("-");
    reveal_strlit("equal");
    reveal_strlit("=");
    reveal_strlit("leftbracket");
    reveal_strlit("[");
    reveal_strlit("rightbracket");
    reveal_strlit("]");
    reveal_strlit("semicolon");
    reveal_strlit(";");
    reveal_strlit("quote");
    reveal_strlit("'");
    reveal_strlit("comma");
    reveal_strlit(",");
    reveal_strlit("period");
    reveal_strlit(".");
    reveal_strlit("slash");
    reveal_strlit("/");
    reveal_strlit("backslash");
    reveal_strlit("\\");
    reveal_strlit("f11");
    reveal_strlit("f12");
    let n = word_for(code);
    assert(crate::text::lower(n) =~= n);
    if code == 1 {
        assert(word_code("escape"@) == Some(1u16));
    } else if code == 12 {
        lemma_no_row(n[0]);
        assert(word_code("-"@) == Some(12u16));
    } else if code == 13 {
        lemma_no_row(n[0]);
        lemma_unlike("="@, "-"@, 0);
        assert(word_code("="@) == Some(13u16));
    } else if code == 14 {
        assert(word_code("backspace"@) == Some(14u16));
    } else if code == 15 {
        assert(word_code("tab"@) == Some(15u16));
    } else if code == 26 {
        lemma_no_row(n[0]);
        lemma_unlike("["@, "-"@, 0);
        lemma_unlike("["@, "="@, 0);
        assert(word_code("["@) == Some(26u16));
    } else if code == 27 {
        lemma_no_row(n[0]);
        lemma_unlike("]"@, "-"@, 0);
        lemma_unlike("]"@, "="@, 0);
        lemma_unlike("]"@, "["@, 0);
        assert(word_code("]"@) == Some(27u16));
    } else if code == 28 {
        assert(word_code("enter"@) == Some(28u16));
    } else if code == 29 {
        assert(word_code("ctrl"@) == Some(29u16));
    } else if code == 39 {
        lemma_no_row(n[0]);
        lemma_unlike(";"@, "-"@, 0);
        lemma_unlike(";"@, "="@, 0);
        lemma_unlike(";"@, "["@, 0);
        lemma_unlike(";"@, "]"@, 0);
        assert(word_code(";"@) == Some(39u16));
    } else if code == 40 {
        lemma_no_row(n[0]);
        lemma_unlike("'"@, "-"@, 0);
        lemma_unlike("'"@, "="@, 0);
        lemma_unlike("'"@, "["@, 0);
        lemma_unlike("'"@, "]"@, 0);
        lemma_unlike("'"@, ";"@, 0);
        assert(word_code("'"@) == Some(40u16));
    } else if code == 42 {
        lemma_unlike("shift"@, "enter"@, 0);
        assert(word_code("shift"@) == Some(42u16));
    } else if code == 43 {
        lemma_no_row(n[0]);
        lemma_unlike("\\"@, "-"@, 0);
        lemma_unlike("\\"@, "="@, 0);
        lemma_unlike("\\"@, "["@, 0);
        lemma_unlike("\\"@, "]"@, 0);
        lemma_unlike("\\"@, ";"@, 0);
        lemma_unlike("\\"@, "'"@, 0);
        lemma_unlike("\\"@, ","@, 0);
        lemma_unlike("\\"@, "."@, 0);
        lemma_unlike("\\"@, "/"@, 0);
        assert(word_code("\\"@) == Some(43u16));
    } else if code == 51 {
        lemma_no_row(n[0]);
        lemma_unlike(","@, "-"@, 0);
        lemma_unlike(","@, "="@, 0);
        lemma_unlike(","@, "["@, 0);
        lemma_unlike(","@, "]"@, 0);
        lemma_unlike(","@, ";"@, 0);
        lemma_unlike(","@, "'"@, 0);
        assert(word_code(","@) == Some(51u16));
    } else if code == 52 {
        lemma_no_row(n[0]);
        lemma_unlike("."@, "-"@, 0);
        lemma_unlike("."@, "="@, 0);
        lemma_unlike("."@, "["@, 0);
        lemma_unlike("."@, "]"@, 0);
        lemma_unlike("."@, ";"@, 0);
        lemma_unlike("."@, "'"@, 0);
        lemma_unlike("."@, ","@, 0);
        assert(word_code("."@) == Some(52u16));
    } else if code == 53 {
        lemma_no_row(n[0]);
        lemma_unlike("/"@, "-"@, 0);
        lemma_unlike("/"@, "="@, 0);
        lemma_unlike("/"@, "["@, 0);
        lemma_unlike("/"@, "]"@, 0);
        lemma_unlike("/"@, ";"@, 0);
        lemma_unlike("/"@, "'"@, 0);
        lemma_unlike("/"@, ","@, 0);
        lemma_unlike("/"@, "."@, 0);
        assert(word_code("/"@) == Some(53u16));
    } else if code == 54 {
        assert(word_code("rightshift"@) == Some(54u16));
    } else if code == 56 {
        lemma_unlike("alt"@, "tab"@, 0);
        assert(word_code("alt"@) == Some(56u16));
    } else if code == 57 {
        lemma_unlike("space"@, "enter"@, 0);
        lemma_unlike("space"@, "shift"@, 1);
        assert(word_code("space"@) == Some(57u16));
    } else if code == 58 {
        assert(word_code("capslock"@) == Some(58u16));
    } else if code == 97 {
        lemma_unlike("rightctrl"@, "backspace"@, 0);
        lemma_unlike("rightctrl"@, "leftshift"@, 0);
        assert(word_code("rightctrl"@) == Some(97u16));
    } else if code == 100 {
        lemma_unlike("rightalt"@, "capslock"@, 0);
        assert(word_code("rightalt"@) == Some(100u16));
    } else if code == 102 {
        lemma_unlike("home"@, "ctrl"@, 0);
        assert(word_code("home"@) == Some(102u16));
    } else if code == 103 {
        assert(word_code("up"@) == Some(103u16));
    } else if code == 104 {
        lemma_unlike("pageup"@, "escape"@, 0);
        lemma_unlike("pageup"@, "return"@, 0);
        assert(word_code("pageup"@) == Some(104u16));
    } else if code == 105 {
        lemma_unlike("left"@, "ctrl"@, 0);
        lemma_unlike("left"@, "home"@, 0);
        assert(word_code("left"@) == Some(105u16));
    } else if code == 106 {
        lemma_unlike("right"@, "enter"@, 0);
        lemma_unlike("right"@, "shift"@, 0);
        lemma_unlike("right"@, "space"@, 0);
        assert(word_code("right"@) == Some(106u16));
    } else if code == 107 {
        lemma_unlike("end"@, "tab"@, 0);
        lemma_unlike("end"@, "alt"@, 0);
        assert(word_code("end"@) == Some(107u16));
    } else if code == 108 {
        lemma_unlike("down"@, "ctrl"@, 0);
        lemma_unlike("down"@, "home"@, 0);
        lemma_unlike("down"@, "left"@, 0);
        assert(word_code("down"@) == Some(108u16));
    } else if code == 109 {
        lemma_unlike("pagedown"@, "capslock"@, 0);
        lemma_unlike("pagedown"@, "rightalt"@, 0);
        assert(word_code("pagedown"@) == Some(109u16));
    } else if code == 110 {
        lemma_unlike("insert"@, "escape"@, 0);
        lemma_unlike("insert"@, "return"@, 0);
        lemma_unlike("insert"@, "pageup"@, 0);
        assert(word_code("insert"@) == Some(110u16));
    } else if code == 111 {
        lemma_unlike("delete"@, "escape"@, 0);
        lemma_unlike("delete"@, "return"@, 0);
        lemma_unlike("delete"@, "pageup"@, 0);
        lemma_unlike("delete"@, "insert"@, 0);
        assert(word_code("delete"@) == Some(111u16));
    } else if code == 87 {
        lemma_no_word(n);
        assert(function_code(n) == Some(87u16));
    } else {
        lemma_no_word(n);
        assert(function_code(n) == Some(88u16));
    }
}

/// A character that is neither a small letter nor a digit is in none of the rows.
proof fn lemma_no_row(c: char)
    requires
        !('a' <= c <= 'z'),
        !('0' <= c <= '9'),
    ensures
        char_code(c) is None,
{
    reveal_strlit("qwertyuiop");
    reveal_strlit("asdfghjkl");
    reveal_strlit("zxcvbnm");
    reveal_strlit("1234567890");
    lemma_place(ROW1@, c, 0);
    lemma_place(ROW2@, c, 0);
    lemma_place(ROW3@, c, 0);
    lemma_place(DIGITS@, c, 0);
}

/// What tells a fixed label from the others: its length, its first and last
/// characters, and the one behind the first.
spec fn features(code: u16) -> (int, char, char, char) {
    if code == 1 {
        (3, 'E', 'c', 's')
    } else if code == 12 {
        (1, '-', '-', ' ')
    } else if code == 13 {
        (1, '=', '=', ' ')
    } else if code == 14 {
        (9, 'B', 'e', 'a')
    } else if code == 15 {
        (3, 'T', 'b', 'a')
    } else if code == 26 {
        (1, '[', '[', ' ')
    } else if code == 27 {
        (1, ']', ']', ' ')
    } else if code == 28 {
        (5, 'E', 'r', 'n')
    } else if code == 29 {
        (4, 'C', 'l', 't')
    } else if code == 39 {
        (1, ';', ';', ' ')
    } else if code == 40 {
        (1, '\'', '\'', ' ')
    } else if code == 42 {
        (5, 'S', 't', 'h')
    } else if code == 43 {
        (1, '\\', '\\', ' ')
    } else if code == 51 {
        (1, ',', ',', ' ')
    } else if code == 52 {
        (1, '.', '.', ' ')
    } else if code == 53 {
        (1, '/', '/', ' ')
    } else if code == 54 {
        (7, 'R', 't', '.')
    } else if code == 56 {
        (3, 'A', 't', 'l')
    } else if code == 57 {
        (5, 'S', 'e', 'p')
    } else if code == 58 {
        (8, 'C', 'k', 'a')
    } else if code == 87 {
        (3, 'F', '1', '1')
    } else if code == 88 {
        (3, 'F', '2', '1')
    } else if code == 97 {
        (6, 'R', 'l', '.')
    } else if code == 100 {
        (5, 'R', 't', '.')
    } else if code == 102 {
        (4, 'H', 'e', 'o')
    } else if code == 103 {
        (2, 'U', 'p', 'p')
    } else if code == 104 {
        (6, 'P', 'p', 'a')
    } else if code == 105 {
        (4, 'L', 't', 'e')
    } else if code == 106 {
        (5, 'R', 't', 'i')
    } else if code == 107 {
        (3, 'E', 'd', 'n')
    } else if code == 108 {
        (4, 'D', 'n', 'o')
    } else if code == 109 {
        (8, 'P', 'n', 'a')
    } else if code == 110 {
        (6, 'I', 't', 'n')
    } else if code == 111 {
        (6, 'D', 'e', 'e')
    } else {
        (0, ' ', ' ', ' ')
    }
}

spec fn features_of(l: Seq<char>) -> (int, char, char, char) {
    (
        l.len() as int,
        l[0],
        l.last(),
        if l.len() > 1 {
            l[1]
        } else {
            ' '
        },
    )
}

proof fn lemma_features(code: u16)
    requires
        fixed_label(code) is Some,
    ensures
        features_of(fixed_label(code)->0) == features(code),
{
    reveal_strlit("Esc");
    reveal_strlit("-");
    reveal_strlit("=");
    reveal_strlit("Backspace");
    reveal_strlit("Tab");
    reveal_strlit("[");
    reveal_strlit("]");
    reveal_strlit("Enter");
    reveal_strlit("Ctrl");
    reveal_strlit(";");
    reveal_strlit("'");
    reveal_strlit("Shift");
    reveal_strlit("\\");
    reveal_strlit(",");
    reveal_strlit(".");
    reveal_strlit("/");
    reveal_strlit("R.Shift");
    reveal_strlit("Alt");
    reveal_strlit("Space");
    reveal_strlit("CapsLock");
    reveal_strlit("F11");
    reveal_strlit("F12");
    reveal_strlit("R.Ctrl");
    reveal_strlit("R.Alt");
    reveal_strlit("Home");
    reveal_strlit("Up");
    reveal_strlit("PageUp");
    reveal_strlit("Left");
    reveal_strlit("Right");
    reveal_strlit("End");
    reveal_strlit("Down");
    reveal_strlit("PageDown");
    reveal_strlit("Insert");
    reveal_strlit("Delete");
}

proof fn lemma_fixed_labels_differ(a: u16, b: u16)
    requires
        fixed_label(a) is Some,
        fixed_label(b) is Some,
        features(a) == features(b),
    ensures
        a == b,
{
}

/// A letter or digit is labelled by a capital or a digit, which gives its code
/// back.
proof fn lemma_row_label(code: u16) -> (c: char)
    requires
        16 <= code <= 25 || 30 <= code <= 38 || 44 <= code <= 50 || 2 <= code <= 11,
    ensures
        'a' <= c <= 'z' || '0' <= c <= '9',
        char_code(c) == Some(code),
        label_of(code) == seq![crate::text::upper_char(c)],
{
    lemma_rows();
    reveal_strlit("qwertyuiop");
    reveal_strlit("asdfghjkl");
    reveal_strlit("zxcvbnm");
    reveal_strlit("1234567890");
    let c = if 16 <= code <= 25 {
        ROW1@[code - 16]
    } else if 30 <= code <= 38 {
        ROW2@[code - 30]
    } else if 44 <= code <= 50 {
        ROW3@[code - 44]
    } else {
        DIGITS@[code - 2]
    };
    lemma_place(ROW1@, c, 0);
    lemma_place(ROW2@, c, 0);
    lemma_place(ROW3@, c, 0);
    lemma_place(DIGITS@, c, 0);
    c
}

/// The label of a function key up to the tenth.
proof fn lemma_function_label(code: u16)
    requires
        59 <= code <= 68,
    ensures
        code < 68 ==> label_of(code) == seq!['F', crate::text::digit(code - 58)],
        code == 68 ==> label_of(code) == seq!['F', '1', '0'],
        code < 68 ==> '1' <= crate::text::digit(code - 58) <= '9',
{
    reveal_strlit("F");
    reveal_with_fuel(crate::text::decimal, 2);
    if code < 68 {
        assert(label_of(code) =~= seq!['F', crate::text::digit(code - 58)]);
    } else {
        assert(label_of(code) =~= seq!['F', '1', '0']);
    }
}

/// A code is shown as its number exactly if no name gives it.
pub proof fn law_an_unmapped_code_is_shown_as_its_number(code: u16)
    ensures
        (forall|name: Seq<char>| code_of(name) != Some(code)) ==> label_of(code) == "#"@
            + crate::text::decimal(code as nat),
        (exists|name: Seq<char>| code_of(name) == Some(code)) <==> known_label(code) is Some,
{
    assert forall|name: Seq<char>| code_of(name) == Some(code) implies known_label(
        code,
    ) is Some by {
        law_everything_mappable_is_nameable(name);
    }
    if known_label(code) is Some {
        if fixed_label(code) is Some {
            lemma_word_for(code);
        } else if 59 <= code <= 68 {
            let n = if code < 68 {
                seq!['f', crate::text::digit(code - 58)]
            } else {
                seq!['f', '1', '0']
            };
            lemma_function_label(code);
            lemma_no_word(n);
            assert(crate::text::lower(n) =~= n);
            assert(code_of(n) == Some(code));
        } else {
            let c = lemma_row_label(code);
            let n = seq![c];
            assert(crate::text::lower(n) =~= n);
            assert(code_of(n) == Some(code));
        }
    }
}

/// No word is an `f` with a digit behind it.
proof fn lemma_no_word(n: Seq<char>)
    requires
        n.len() >= 2,
        '0' <= n[1] <= '9',
    ensures
        word_code(n) is None,
{
    reveal_strlit("escape");
    reveal_strlit("backspace");
    reveal_strlit("tab");
    reveal_strlit("enter");
    reveal_strlit("return");
    reveal_strlit("ctrl");
    reveal_strlit("control");
    reveal_strlit("leftcontrol");
    reveal_strlit("shift");
    reveal_strlit("leftshift");
    reveal_strlit("alt");
    reveal_strlit("leftalt");
    reveal_strlit("space");
    reveal_strlit("capslock");
    reveal_strlit("rightshift");
    reveal_strlit("rightctrl");
    reveal_strlit("rightcontrol");
    reveal_strlit("rightalt");
    reveal_strlit("home");
    reveal_strlit("up");
    reveal_strlit("pageup");
    reveal_strlit("left");
    reveal_strlit("right");
    reveal_strlit("end");
    reveal_strlit("down");
    reveal_strlit("pagedown");
    reveal_strlit("insert");
    reveal_strlit("delete");
    reveal_strlit("minus");
    reveal_strlit("-");
    reveal_strlit("equal");
    reveal_strlit("=");
    reveal_strlit("leftbracket");
    reveal_strlit("[");
    reveal_strlit("rightbracket");
    reveal_strlit("]");
    reveal_strlit("semicolon");
    reveal_strlit(";");
    reveal_strlit("quote");
    reveal_strlit("'");
    reveal_strlit("comma");
    reveal_strlit(",");
    reveal_strlit("period");
    reveal_strlit(".");
    reveal_strlit("slash");
    reveal_strlit("/");
    reveal_strlit("backslash");
    reveal_strlit("\\");
}

/// Two codes never share a label.
pub proof fn law_labels_tell_codes_apart(a: u16, b: u16)
    requires
        label_of(a) == label_of(b),
    ensures
        a == b,
{
    lemma_label_kind(a);
    lemma_label_kind(b);
    if known_label(a) is None && known_label(b) is None {
        let x = crate::text::decimal(a as nat);
        let y = crate::text::decimal(b as nat);
        reveal_strlit("#");
        assert(x =~= ("#"@ + x).subrange(1, ("#"@ + x).len() as int));
        assert(y =~= ("#"@ + y).subrange(1, ("#"@ + y).len() as int));
        crate::text::lemma_decimal_differs(a as nat, b as nat);
    } else if fixed_label(a) is Some && fixed_label(b) is Some {
        lemma_features(a);
        lemma_features(b);
        lemma_fixed_labels_differ(a, b);
    } else if 59 <= a <= 68 && 59 <= b <= 68 {
        lemma_function_label(a);
        lemma_function_label(b);
        assert(label_of(a)[1] == label_of(b)[1]);
    } else if !(fixed_label(a) is Some) && !(59 <= a <= 68) && known_label(a) is Some && !(
    fixed_label(b) is Some) && !(59 <= b <= 68) && known_label(b) is Some {
        let c = lemma_row_label(a);
        let d = lemma_row_label(b);
        assert(seq![crate::text::upper_char(c)][0] == seq![crate::text::upper_char(d)][0]);
    }
}

/// Which label is of which kind shows in its first characters.
spec fn looks_like(l: Seq<char>) -> int {
    if l.len() == 1 {
        if 'A' <= l[0] <= 'Z' || '0' <= l[0] <= '9' {
            0
        } else {
            1
        }
    } else if l[0] == '#' {
        2
    } else if l[0] == 'F' && (l.len() == 2 || l[2] == '0') {
        3
    } else {
        1
    }
}

proof fn lemma_label_kind(code: u16)
    ensures
        looks_like(label_of(code)) == (if known_label(code) is None {
            2int
        } else if fixed_label(code) is Some {
            1
        } else if 59 <= code <= 68 {
            3
        } else {
            0
        }),
{
    if known_label(code) is None {
        reveal_strlit("#");
        crate::text::lemma_decimal_not_empty(code as nat);
    } else if fixed_label(code) is Some {
        lemma_features(code);
        reveal_strlit("F11");
        reveal_strlit("F12");
    } else if 59 <= code <= 68 {
        lemma_function_label(code);
    } else {
        let c = lemma_row_label(code);
    }
}

/// A letter is labelled by its own capital, whatever its place on the board.
pub proof fn law_labels_round_trip_the_letters(c: char)
    requires
        'a' <= c <= 'z',
    ensures
        code_of(seq![c]) is Some,
        label_of(code_of(seq![c])->0) == seq![crate::text::upper_char(c)],
{
    lemma_rows();
    reveal_strlit("qwertyuiop");
    reveal_strlit("asdfghjkl");
    reveal_strlit("zxcvbnm");
    let n = crate::text::lower(seq![c]);
    assert(n[0] == c);
    lemma_place(ROW1@, c, 0);
    lemma_place(ROW2@, c, 0);
    lemma_place(ROW3@, c, 0);
    let a = ROW1@;
    let b = ROW2@;
    let d = ROW3@;
    assert(a[0] == 'q' && a[1] == 'w' && a[2] == 'e' && a[3] == 'r' && a[4] == 't' && a[5] == 'y'
        && a[6] == 'u' && a[7] == 'i' && a[8] == 'o' && a[9] == 'p');
    assert(b[0] == 'a' && b[1] == 's' && b[2] == 'd' && b[3] == 'f' && b[4] == 'g' && b[5] == 'h'
        && b[6] == 'j' && b[7] == 'k' && b[8] == 'l');
    assert(d[0] == 'z' && d[1] == 'x' && d[2] == 'c' && d[3] == 'v' && d[4] == 'b' && d[5] == 'n'
        && d[6] == 'm');
    assert(label_of(code_of(seq![c])->0) =~= seq![crate::text::upper_char(c)]);
}

/// A digit is labelled by itself.
pub proof fn law_labels_round_trip_the_digits(c: char)
    requires
        '0' <= c <= '9',
    ensures
        code_of(seq![c]) is Some,
        label_of(code_of(seq![c])->0) == seq![c],
{
    lemma_rows();
    reveal_strlit("qwertyuiop");
    reveal_strlit("asdfghjkl");
    reveal_strlit("zxcvbnm");
    reveal_strlit("1234567890");
    let n = crate::text::lower(seq![c]);
    assert(n[0] == c);
    lemma_place(ROW1@, c, 0);
    lemma_place(ROW2@, c, 0);
    lemma_place(ROW3@, c, 0);
    lemma_place(DIGITS@, c, 0);
    let d = DIGITS@;
    assert(d[0] == '1' && d[1] == '2' && d[2] == '3' && d[3] == '4' && d[4] == '5' && d[5] == '6'
        && d[6] == '7' && d[7] == '8' && d[8] == '9' && d[9] == '0');
    assert(label_of(code_of(seq![c])->0) =~= seq![c]);
}

proof fn lemma_fixed_label_reads(code: u16)
    requires
        fixed_label(code) is Some,
        code != 1 && code != 54 && code != 97 && code != 100,
    ensures
        crate::text::lower(label_of(code)) == word_for(code),
{
    if code == 12 {
        reveal_strlit("-");
        assert(crate::text::lower("-"@) =~= "-"@);
    } else if code == 13 {
        reveal_strlit("=");
        assert(crate::text::lower("="@) =~= "="@);
    } else if code == 14 {
        reveal_strlit("Backspace");
        reveal_strlit("backspace");
        assert(crate::text::lower("Backspace"@) =~= "backspace"@);
    } else if code == 15 {
        reveal_strlit("Tab");
        reveal_strlit("tab");
        assert(crate::text::lower("Tab"@) =~= "tab"@);
    } else if code == 26 {
        reveal_strlit("[");
        assert(crate::text::lower("["@) =~= "["@);
    } else if code == 27 {
        reveal_strlit("]");
        assert(crate::text::lower("]"@) =~= "]"@);
    } else if code == 28 {
        reveal_strlit("Enter");
        reveal_strlit("enter");
        assert(crate::text::lower("Enter"@) =~= "enter"@);
    } else if code == 29 {
        reveal_strlit("Ctrl");
        reveal_strlit("ctrl");
        assert(crate::text::lower("Ctrl"@) =~= "ctrl"@);
    } else if code == 39 {
        reveal_strlit(";");
        assert(crate::text::lower(";"@) =~= ";"@);
    } else if code == 40 {
        reveal_strlit("'");
        assert(crate::text::lower("'"@) =~= "'"@);
    } else if code == 42 {
        reveal_strlit("Shift");
        reveal_strlit("shift");
        assert(crate::text::lower("Shift"@) =~= "shift"@);
    } else if code == 43 {
        reveal_strlit("\\");
        assert(crate::text::lower("\\"@) =~= "\\"@);
    } else if code == 51 {
        reveal_strlit(",");
        assert(crate::text::lower(","@) =~= ","@);
    } else if code == 52 {
        reveal_strlit(".");
        assert(crate::text::lower("."@) =~= "."@);
    } else if code == 53 {
        reveal_strlit("/");
        assert(crate::text::lower("/"@) =~= "/"@);
    } else if code == 56 {
        reveal_strlit("Alt");
        reveal_strlit("alt");
        assert(crate::text::lower("Alt"@) =~= "alt"@);
    } else if code == 57 {
        reveal_strlit("Space");
        reveal_strlit("space");
        assert(crate::text::lower("Space"@) =~= "space"@);
    } else if code == 58 {
        reveal_strlit("CapsLock");
        reveal_strlit("capslock");
        assert(crate::text::lower("CapsLock"@) =~= "capslock"@);
    } else if code == 87 {
        reveal_strlit("F11");
        reveal_strlit("f11");
        assert(crate::text::lower("F11"@) =~= "f11"@);
    } else if code == 88 {
        reveal_strlit("F12");
        reveal_strlit("f12");
        assert(crate::text::lower("F12"@) =~= "f12"@);
    } else if code == 102 {
        reveal_strlit("Home");
        reveal_strlit("home");
        assert(crate::text::lower("Home"@) =~= "home"@);
    } else if code == 103 {
        reveal_strlit("Up");
        reveal_strlit("up");
        assert(crate::text::lower("Up"@) =~= "up"@);
    } else if code == 104 {
        reveal_strlit("PageUp");
        reveal_strlit("pageup");
        assert(crate::text::lower("PageUp"@) =~= "pageup"@);
    } else if code == 105 {
        reveal_strlit("Left");
        reveal_strlit("left");
        assert(crate::text::lower("Left"@) =~= "left"@);
    } else if code == 106 {
        reveal_strlit("Right");
        reveal_strlit("right");
        assert(crate::text::lower("Right"@) =~= "right"@);
    } else if code == 107 {
        reveal_strlit("End");
        reveal_strlit("end");
        assert(crate::text::lower("End"@) =~= "end"@);
    } else if code == 108 {
        reveal_strlit("Down");
        reveal_strlit("down");
        assert(crate::text::lower("Down"@) =~= "down"@);
    } else if code == 109 {
        reveal_strlit("PageDown");
        reveal_strlit("pagedown");
        assert(crate::text::lower("PageDown"@) =~= "pagedown"@);
    } else if code == 110 {
        reveal_strlit("Insert");
        reveal_strlit("insert");
        assert(crate::text::lower("Insert"@) =~= "insert"@);
    } else if code == 111 {
        reveal_strlit("Delete");
        reveal_strlit("delete");
        assert(crate::text::lower("Delete"@) =~= "delete"@);
    }
}

/// What a key is shown as is a name for it: typed back, it gives the same key. Only
/// escape and the right-hand shift, control and alt are shown shorter than they are
/// called, and a key without a name is shown as its number.
pub proof fn law_a_label_names_its_key(code: u16)
    requires
        known_label(code) is Some,
        code != 1 && code != 54 && code != 97 && code != 100,
    ensures
        code_of(label_of(code)) == Some(code),
{
    let l = label_of(code);
    law_case_is_ignored(l);
    if 59 <= code <= 68 {
        lemma_function_label(code);
        let n = if code < 68 {
            seq!['f', crate::text::digit(code - 58)]
        } else {
            seq!['f', '1', '0']
        };
        assert(crate::text::lower(l) =~= n);
        lemma_no_word(n);
        assert(crate::text::lower(n) =~= n);
        assert(code_of(n) == Some(code));
    } else if 16 <= code <= 25 || 30 <= code <= 38 || 44 <= code <= 50 || 2 <= code <= 11 {
        let c = lemma_row_label(code);
        assert(crate::text::lower(l) =~= seq![c]);
        assert(crate::text::lower(seq![c]) =~= seq![c]);
    } else {
        lemma_fixed_label_reads(code);
        lemma_word_for(code);
    }
}

} // verus!
