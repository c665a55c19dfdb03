//! How a profile file changes when a profile is saved.
//!
//! A profile file is edited in place: its comments are the only place that says
//! what each coordinate means, and regenerating the file would delete them. This
//! module decides which entries of the file are replaced, added and dropped; a
//! value that is replaced keeps the comments around it.

use crate::num::Num;
use crate::profile::{Binding, Easing, Profile, ProfileError, Trigger};
use vstd::prelude::*;
use vstd::string::*;

verus! {

// ---------------------------------------------------------------- documents

/// `toml_edit::DocumentMut`: a file with its comments and its layout.
#[verifier::external_type_specification]
#[verifier::external_body]
pub struct ExDocumentMut(toml_edit::DocumentMut);

/// `toml_edit::Decor`: what stands before and behind a value.
#[verifier::external_type_specification]
#[verifier::external_body]
pub struct ExDecor(toml_edit::Decor);

/// What a decor holds: the text before a value and the one behind it, as far as
/// they are set.
pub uninterp spec fn decor_of(d: toml_edit::Decor) -> (Option<Seq<char>>, Option<Seq<char>>);

/// Everything a document holds, comments and layout included.
pub uninterp spec fn document(d: toml_edit::DocumentMut) -> Seq<char>;

/// What a text, or the lack of one, is read as: a document, or why it is none.
pub uninterp spec fn opened(text: Option<Seq<char>>) -> Result<Seq<char>, Seq<char>>;

/// What a document holds under `bindings`: nothing, something that is no table,
/// or the rows of a table.
pub uninterp spec fn shape_in(doc: Seq<char>) -> Option<Option<Seq<Row>>>;

/// A document in which a key at its top that has a value is given a text.
pub uninterp spec fn with_top(doc: Seq<char>, key: Seq<char>, value: Seq<char>) -> Seq<char>;

/// A document with a key at its top, new or anew, that is a text.
pub uninterp spec fn with_top_key(doc: Seq<char>, key: Seq<char>, value: Seq<char>) -> Seq<char>;

/// A document in which other things stand around a value at its top.
pub uninterp spec fn with_top_decor(
    doc: Seq<char>,
    key: Seq<char>,
    decor: (Option<Seq<char>>, Option<Seq<char>>),
) -> Seq<char>;

/// A document with an empty table of bindings.
pub uninterp spec fn with_bindings(doc: Seq<char>) -> Seq<char>;

/// A document without a binding.
pub uninterp spec fn without_binding(doc: Seq<char>, name: Seq<char>) -> Seq<char>;

/// A document with an empty table for a binding.
pub uninterp spec fn with_table(doc: Seq<char>, name: Seq<char>) -> Seq<char>;

/// A document in which a key of a binding has another value, with nothing around
/// it.
pub uninterp spec fn with_assigned(
    doc: Seq<char>,
    name: Seq<char>,
    key: Seq<char>,
    value: Seq<char>,
) -> Seq<char>;

/// A document in which other things stand around the value of a binding's key.
pub uninterp spec fn with_decor(
    doc: Seq<char>,
    name: Seq<char>,
    key: Seq<char>,
    decor: (Option<Seq<char>>, Option<Seq<char>>),
) -> Seq<char>;

/// A document in which a binding has one more key.
pub uninterp spec fn with_key(
    doc: Seq<char>,
    name: Seq<char>,
    key: Seq<char>,
    value: Seq<char>,
) -> Seq<char>;

/// A document in which a binding lacks a key.
pub uninterp spec fn without_key(doc: Seq<char>, name: Seq<char>, key: Seq<char>) -> Seq<char>;

/// The text of a document.
pub uninterp spec fn printed(doc: Seq<char>) -> Seq<char>;

/// What stands before a key at the top of a document that has a value: comments,
/// blank lines and spaces, without carriage returns.
pub uninterp spec fn top_lead(doc: Seq<char>, key: Seq<char>) -> Option<Seq<char>>;

/// What stands around the value of a key at the top of a document.
pub uninterp spec fn top_decor(doc: Seq<char>, key: Seq<char>) -> Option<
    (Option<Seq<char>>, Option<Seq<char>>),
>;

/// The text that a key at the top of a document is.
pub uninterp spec fn top_text(doc: Seq<char>, key: Seq<char>) -> Option<Seq<char>>;

/// What stands before the header of a binding and behind it, or around a binding
/// written in braces: comments, blank lines and spaces, without carriage returns.
/// Nothing for any other binding.
pub uninterp spec fn heading_remarks(doc: Seq<char>, name: Seq<char>) -> Option<
    (Seq<char>, Seq<char>),
>;

/// What stands before a key of a binding that has a value of its own, without
/// carriage returns.
pub uninterp spec fn key_lead(doc: Seq<char>, name: Seq<char>, key: Seq<char>) -> Option<Seq<char>>;

/// What stands around the value of a binding's key.
pub uninterp spec fn key_decor(doc: Seq<char>, name: Seq<char>, key: Seq<char>) -> Option<
    (Option<Seq<char>>, Option<Seq<char>>),
>;

/// Everything that the value of a binding's key holds, what stands around it
/// aside.
pub uninterp spec fn value_in(doc: Seq<char>, name: Seq<char>, key: Seq<char>) -> Option<Seq<char>>;

/// Everything that the value written by a text holds.
pub uninterp spec fn value_of(text: Seq<char>) -> Seq<char>;

/// Whether a text is a single value.
pub uninterp spec fn is_value(text: Seq<char>) -> bool;

/// A text as a value: in quotes, with what needs it escaped.
pub uninterp spec fn quoted(text: Seq<char>) -> Seq<char>;

/// What a document holds under `bindings` is a table.
pub open spec fn has_table(doc: Seq<char>) -> bool {
    shape_in(doc) matches Some(Some(_))
}

/// What stands behind a value, without carriage returns.
pub open spec fn behind(decor: (Option<Seq<char>>, Option<Seq<char>>)) -> Seq<char> {
    match decor.1 {
        Some(t) => plain(t),
        None => Seq::empty(),
    }
}

/// What stands before a key at the top of a document and behind its value.
/// Nothing where the document has no such key with a value.
pub open spec fn top_remarks(doc: Seq<char>, key: Seq<char>) -> Option<(Seq<char>, Seq<char>)> {
    match (top_lead(doc, key), top_decor(doc, key)) {
        (Some(l), Some(d)) => Some((l, behind(d))),
        _ => None,
    }
}

/// What stands before a key of a binding and behind its value. Nothing where the
/// binding has no such key with a value of its own.
pub open spec fn key_remarks(doc: Seq<char>, name: Seq<char>, key: Seq<char>) -> Option<
    (Seq<char>, Seq<char>),
> {
    match (key_lead(doc, name, key), key_decor(doc, name, key)) {
        (Some(l), Some(d)) => Some((l, behind(d))),
        _ => None,
    }
}

/// A document with a text set at its top: a value that is there is replaced, and
/// what stands around it stays.
pub open spec fn with_text(doc: Seq<char>, key: Seq<char>, value: Seq<char>) -> Seq<char> {
    match top_decor(doc, key) {
        Some(k) => with_top_decor(with_top(doc, key, value), key, k),
        None => with_top_key(doc, key, value),
    }
}

/// A document in which a key of a binding has another value, and what stands
/// around it stays.
pub open spec fn with_value(
    doc: Seq<char>,
    name: Seq<char>,
    key: Seq<char>,
    value: Seq<char>,
) -> Seq<char> {
    match key_decor(doc, name, key) {
        Some(k) => with_decor(with_assigned(doc, name, key, value), name, key, k),
        None => with_assigned(doc, name, key, value),
    }
}

/// A document has a key of a binding, so that it can be given another value.
pub open spec fn replaceable(doc: Seq<char>, name: Seq<char>, key: Seq<char>) -> bool {
    ||| has_table(doc) && keys_in(doc).contains_key(name) && keys_in(doc)[name] is Some && keys_in(
        doc,
    )[name]->0.contains(key)
    ||| crate::coord::spot_in(doc, name, key) == Some(true)
}

/// What a change does not leave alone.
pub enum Gone {
    Nothing,
    /// A key at the top.
    Top(Seq<char>),
    /// A binding with all of its keys.
    Binding(Seq<char>),
    /// A key of a binding.
    Key(Seq<char>, Seq<char>),
}

/// All remarks of the document `a` stand in `b`, but for those of what is gone.
pub open spec fn keeps_remarks(a: Seq<char>, b: Seq<char>, gone: Gone) -> bool {
    &&& forall|k: Seq<char>|
        top_remarks(a, k) is Some && gone != Gone::Top(k) ==> #[trigger] top_remarks(b, k)
            == top_remarks(a, k)
    &&& forall|n: Seq<char>|
        heading_remarks(a, n) is Some && gone != Gone::Binding(n) ==> #[trigger] heading_remarks(
            b,
            n,
        ) == heading_remarks(a, n)
    &&& forall|n: Seq<char>, k: Seq<char>|
        key_remarks(a, n, k) is Some && gone != Gone::Binding(n) && gone != Gone::Key(n, k)
            ==> #[trigger] key_remarks(b, n, k) == key_remarks(a, n, k)
}

/// All texts at the top and all values of bindings of the document `a` are in `b`
/// as well, but for those of what is gone.
pub open spec fn keeps_values(a: Seq<char>, b: Seq<char>, gone: Gone) -> bool {
    &&& forall|k: Seq<char>|
        top_text(a, k) is Some && gone != Gone::Top(k) ==> #[trigger] top_text(b, k) == top_text(
            a,
            k,
        )
    &&& forall|n: Seq<char>, k: Seq<char>|
        value_in(a, n, k) is Some && gone != Gone::Binding(n) && gone != Gone::Key(n, k)
            ==> #[trigger] value_in(b, n, k) == value_in(a, n, k)
}

/// A text without its carriage returns.
pub open spec fn plain(text: Seq<char>) -> Seq<char> {
    text.filter(|c: char| c != '\r')
}

/// What stands around an entry, if anything, stands in a text.
pub open spec fn holds(text: Seq<char>, remarks: Option<(Seq<char>, Seq<char>)>) -> bool {
    remarks matches Some((before, behind)) ==> crate::text::occurs(text, before)
        && crate::text::occurs(text, behind)
}

/// The bindings of a document with their keys; one that is no table has none.
pub open spec fn keys_in(doc: Seq<char>) -> Doc {
    doc_of(rows_in(shape_in(doc)))
}

/// `DocumentMut::from_str`, and `DocumentMut::new` where there is no text: reads
/// a text as a document. What it is depends on the text alone; a new document
/// has no bindings. The remarks around its entries are pieces of the text,
/// carriage returns aside. Which pieces they are is left unsaid.
#[verifier::external_body]
pub(crate) fn open_document(text: Option<&str>) -> (r: Result<toml_edit::DocumentMut, String>)
    ensures
        match r {
            Ok(d) => opened(crate::text::maybe(text)) is Ok && opened(crate::text::maybe(text))->Ok_0
                == document(d),
            Err(e) => opened(crate::text::maybe(text)) is Err && opened(
                crate::text::maybe(text),
            )->Err_0 == e@,
        },
        r is Ok || text is Some,
        match r {
            Ok(d) => text is None ==> shape_in(document(d)) is None,
            Err(_) => true,
        },
        match (r, text) {
            (Ok(d), Some(t)) => {
                &&& forall|k: Seq<char>| holds(plain(t@), #[trigger] top_remarks(document(d), k))
                &&& forall|n: Seq<char>|
                    holds(plain(t@), #[trigger] heading_remarks(document(d), n))
                &&& forall|n: Seq<char>, k: Seq<char>|
                    holds(plain(t@), #[trigger] key_remarks(document(d), n, k))
            },
            _ => true,
        },
{
    match text {
        Some(t) => t.parse::<toml_edit::DocumentMut>().map_err(|e| e.to_string()),
        None => Ok(toml_edit::DocumentMut::new()),
    }
}

/// `Table::get`, `Item::as_table`, `Item::as_table_like` and `Table::iter`: the
/// names under `bindings`, with the keys of each that is a table, in order.
#[verifier::external_body]
fn shape(d: &toml_edit::DocumentMut) -> (r: Shape)
    ensures
        shape_of(r) == shape_in(document(*d)),
{
    let keys = |t: &dyn toml_edit::TableLike| t.iter().map(|(k, _)| k.to_owned()).collect();
    match d.get("bindings").map(|b| b.as_table()) {
        None => Shape::Missing,
        Some(None) => Shape::Other,
        Some(Some(t)) => Shape::Table(
            t.iter().map(|(k, b)| (k.to_owned(), b.as_table_like().map(keys))).collect(),
        ),
    }
}

/// `Table::get`, `Item::as_value` and `Value::decor`: what stands around the value
/// of a key at the top, where it has one.
#[verifier::external_body]
fn top_decor_at(d: &toml_edit::DocumentMut, key: &str) -> (r: Option<toml_edit::Decor>)
    ensures
        match r {
            Some(k) => top_decor(document(*d), key@) == Some(decor_of(k)),
            None => top_decor(document(*d), key@) is None,
        },
{
    d.get(key).and_then(|i| i.as_value()).map(|v| v.decor().clone())
}

/// `IndexMut`, then an assignment of `toml_edit::value`: a key at the top that has
/// a value becomes a text with nothing around it. What stands before the key
/// stays, and so does everything else.
#[verifier::external_body]
fn assign_top(d: &mut toml_edit::DocumentMut, key: &str, value: &str)
    requires
        key@ != "bindings"@,
        top_decor(document(*old(d)), key@) is Some,
    ensures
        document(*final(d)) == with_top(document(*old(d)), key@, value@),
        shape_in(document(*final(d))) == shape_in(document(*old(d))),
        keeps_remarks(document(*old(d)), document(*final(d)), Gone::Top(key@)),
        keeps_values(document(*old(d)), document(*final(d)), Gone::Top(key@)),
        top_lead(document(*old(d)), key@) is Some ==> top_lead(document(*final(d)), key@)
            == top_lead(document(*old(d)), key@),
        top_decor(document(*final(d)), key@) is Some,
        top_text(document(*final(d)), key@) == Some(value@),
{
    d[key] = toml_edit::value(value);
}

/// `Value::decor_mut`, then an assignment: other things stand around the value of
/// a key at the top. Nothing else changes.
#[verifier::external_body]
fn set_top_decor(d: &mut toml_edit::DocumentMut, key: &str, decor: toml_edit::Decor)
    requires
        key@ != "bindings"@,
        top_decor(document(*old(d)), key@) is Some,
    ensures
        document(*final(d)) == with_top_decor(document(*old(d)), key@, decor_of(decor)),
        shape_in(document(*final(d))) == shape_in(document(*old(d))),
        keeps_remarks(document(*old(d)), document(*final(d)), Gone::Top(key@)),
        keeps_values(document(*old(d)), document(*final(d)), Gone::Nothing),
        top_lead(document(*final(d)), key@) == top_lead(document(*old(d)), key@),
        top_decor(document(*final(d)), key@) == Some(decor_of(decor)),
{
    *d[key].as_value_mut().unwrap().decor_mut() = decor;
}

/// `Table::insert` of `toml_edit::value`: a key at the top is a text, whatever it
/// was. Everything else stays.
#[verifier::external_body]
fn insert_top(d: &mut toml_edit::DocumentMut, key: &str, value: &str)
    requires
        key@ != "bindings"@,
    ensures
        document(*final(d)) == with_top_key(document(*old(d)), key@, value@),
        shape_in(document(*final(d))) == shape_in(document(*old(d))),
        keeps_remarks(document(*old(d)), document(*final(d)), Gone::Top(key@)),
        keeps_values(document(*old(d)), document(*final(d)), Gone::Top(key@)),
        top_text(document(*final(d)), key@) == Some(value@),
{
    d.insert(key, toml_edit::value(value));
}

/// Sets a text at the top of a document, keeping the comments around an old value.
fn set_text(d: &mut toml_edit::DocumentMut, key: &str, value: &str)
    requires
        key@ != "bindings"@,
    ensures
        document(*final(d)) == with_text(document(*old(d)), key@, value@),
        shape_in(document(*final(d))) == shape_in(document(*old(d))),
        keeps_remarks(document(*old(d)), document(*final(d)), Gone::Nothing),
        keeps_values(document(*old(d)), document(*final(d)), Gone::Top(key@)),
        top_text(document(*final(d)), key@) == Some(value@),
{
    match top_decor_at(d, key) {
        Some(keep) => {
            assign_top(d, key, value);
            set_top_decor(d, key, keep);
        },
        None => {
            insert_top(d, key, value);
        },
    }
}

/// `Table::insert` of a `Table` marked by `Table::set_implicit`: adds an empty
/// table of bindings, which is not written out by itself. The remarks in the
/// document stay.
#[verifier::external_body]
fn add_bindings(d: &mut toml_edit::DocumentMut)
    requires
        shape_in(document(*old(d))) is None,
    ensures
        document(*final(d)) == with_bindings(document(*old(d))),
        shape_in(document(*final(d))) == Some(Some(Seq::<Row>::empty())),
        keeps_remarks(document(*old(d)), document(*final(d)), Gone::Nothing),
        keeps_values(document(*old(d)), document(*final(d)), Gone::Nothing),
{
    let mut t = toml_edit::Table::new();
    t.set_implicit(true);
    d.insert("bindings", toml_edit::Item::Table(t));
}

/// `Table::remove`: takes a binding out; the others stay, with their remarks.
#[verifier::external_body]
fn drop_binding(d: &mut toml_edit::DocumentMut, name: &str)
    requires
        has_table(document(*old(d))),
    ensures
        document(*final(d)) == without_binding(document(*old(d)), name@),
        has_table(document(*final(d))),
        keys_in(document(*final(d))) == keys_in(document(*old(d))).remove(name@),
        keeps_remarks(document(*old(d)), document(*final(d)), Gone::Binding(name@)),
        keeps_values(document(*old(d)), document(*final(d)), Gone::Binding(name@)),
{
    d["bindings"].as_table_mut().unwrap().remove(name);
}

/// `Table::insert` of a `Table::new`: gives a binding an empty table, in place of
/// whatever it was; the others stay, with their remarks.
#[verifier::external_body]
fn add_table(d: &mut toml_edit::DocumentMut, name: &str)
    requires
        has_table(document(*old(d))),
    ensures
        document(*final(d)) == with_table(document(*old(d)), name@),
        has_table(document(*final(d))),
        keys_in(document(*final(d))) == keys_in(document(*old(d))).insert(
            name@,
            Some(Set::empty()),
        ),
        keeps_remarks(document(*old(d)), document(*final(d)), Gone::Binding(name@)),
        keeps_values(document(*old(d)), document(*final(d)), Gone::Binding(name@)),
{
    let t = toml_edit::Item::Table(toml_edit::Table::new());
    d["bindings"].as_table_mut().unwrap().insert(name, t);
}

/// `Item::get`, `Item::as_value` and `Value::decor`: what stands around the value
/// of a binding's key, where it has one.
#[verifier::external_body]
fn decor_at(d: &toml_edit::DocumentMut, name: &str, key: &str) -> (r: Option<toml_edit::Decor>)
    ensures
        match r {
            Some(k) => key_decor(document(*d), name@, key@) == Some(decor_of(k)),
            None => key_decor(document(*d), name@, key@) is None,
        },
{
    let row = d.get("bindings").and_then(|b| b.get(name));
    row.and_then(|r| r.get(key)).and_then(|i| i.as_value()).map(|v| v.decor().clone())
}

/// `Item::index_mut`, then an assignment of what `Value::from_str` reads: a key of
/// a binding becomes another value with nothing around it. What stands before the
/// key stays, and so does everything else; no key comes or goes.
#[verifier::external_body]
fn assign(d: &mut toml_edit::DocumentMut, name: &str, key: &str, value: &str)
    requires
        is_value(value@),
        replaceable(document(*old(d)), name@, key@),
    ensures
        document(*final(d)) == with_assigned(document(*old(d)), name@, key@, value@),
        has_table(document(*old(d))) == has_table(document(*final(d))),
        keys_in(document(*final(d))) == keys_in(document(*old(d))),
        keeps_remarks(document(*old(d)), document(*final(d)), Gone::Key(name@, key@)),
        keeps_values(document(*old(d)), document(*final(d)), Gone::Key(name@, key@)),
        key_lead(document(*old(d)), name@, key@) is Some ==> key_lead(
            document(*final(d)),
            name@,
            key@,
        ) == key_lead(document(*old(d)), name@, key@),
        key_decor(document(*final(d)), name@, key@) is Some,
        value_in(document(*final(d)), name@, key@) == Some(value_of(value@)),
        forall|b: Seq<char>, f: Seq<char>| #[trigger]
            crate::coord::spot_in(document(*final(d)), b, f) == crate::coord::spot_in(
                document(*old(d)),
                b,
                f,
            ),
{
    d["bindings"][name][key] = toml_edit::Item::Value(value.parse().unwrap());
}

/// `Item::index_mut` and `Value::decor_mut`, then an assignment: other things
/// stand around the value of a binding's key. Nothing else changes.
#[verifier::external_body]
fn set_decor(d: &mut toml_edit::DocumentMut, name: &str, key: &str, decor: toml_edit::Decor)
    requires
        key_decor(document(*old(d)), name@, key@) is Some,
    ensures
        document(*final(d)) == with_decor(document(*old(d)), name@, key@, decor_of(decor)),
        shape_in(document(*final(d))) == shape_in(document(*old(d))),
        keeps_remarks(document(*old(d)), document(*final(d)), Gone::Key(name@, key@)),
        keeps_values(document(*old(d)), document(*final(d)), Gone::Nothing),
        key_lead(document(*final(d)), name@, key@) == key_lead(document(*old(d)), name@, key@),
        key_decor(document(*final(d)), name@, key@) == Some(decor_of(decor)),
        forall|b: Seq<char>, f: Seq<char>| #[trigger]
            crate::coord::spot_in(document(*final(d)), b, f) == crate::coord::spot_in(
                document(*old(d)),
                b,
                f,
            ),
{
    *d["bindings"][name][key].as_value_mut().unwrap().decor_mut() = decor;
}

/// Gives a key of a binding another value, keeping the comments around the old
/// one. No key comes or goes.
pub(crate) fn put_value(d: &mut toml_edit::DocumentMut, name: &str, key: &str, value: &str)
    requires
        is_value(value@),
        replaceable(document(*old(d)), name@, key@),
    ensures
        document(*final(d)) == with_value(document(*old(d)), name@, key@, value@),
        has_table(document(*final(d))) == has_table(document(*old(d))),
        keys_in(document(*final(d))) == keys_in(document(*old(d))),
        keeps_remarks(document(*old(d)), document(*final(d)), Gone::Nothing),
        keeps_values(document(*old(d)), document(*final(d)), Gone::Key(name@, key@)),
        value_in(document(*final(d)), name@, key@) == Some(value_of(value@)),
        forall|b: Seq<char>, f: Seq<char>| #[trigger]
            crate::coord::spot_in(document(*final(d)), b, f) == crate::coord::spot_in(
                document(*old(d)),
                b,
                f,
            ),
{
    let keep: Option<toml_edit::Decor> = decor_at(d, name, key);
    assign(d, name, key, value);
    if let Some(k) = keep {
        set_decor(d, name, key, k);
    }
}

/// `TableLike::insert`: gives a binding one more key; the others stay, with their
/// remarks.
#[verifier::external_body]
fn add_value(d: &mut toml_edit::DocumentMut, name: &str, key: &str, value: &str)
    requires
        is_value(value@),
        has_table(document(*old(d))),
        ready(keys_in(document(*old(d))), EditView::Insert { name: name@, key: key@, value: value@ }),
    ensures
        document(*final(d)) == with_key(document(*old(d)), name@, key@, value@),
        has_table(document(*final(d))),
        keys_in(document(*final(d))) == applied(
            keys_in(document(*old(d))),
            EditView::Insert { name: name@, key: key@, value: value@ },
        ),
        keeps_remarks(document(*old(d)), document(*final(d)), Gone::Key(name@, key@)),
        keeps_values(document(*old(d)), document(*final(d)), Gone::Key(name@, key@)),
        value_in(document(*final(d)), name@, key@) == Some(value_of(value@)),
{
    let row = d["bindings"][name].as_table_like_mut().unwrap();
    row.insert(key, toml_edit::Item::Value(value.parse().unwrap()));
}

/// `TableLike::remove`: takes a key out of a binding; the others stay, with their
/// remarks.
#[verifier::external_body]
fn drop_key(d: &mut toml_edit::DocumentMut, name: &str, key: &str)
    requires
        has_table(document(*old(d))),
        ready(keys_in(document(*old(d))), EditView::DropKey { name: name@, key: key@ }),
    ensures
        document(*final(d)) == without_key(document(*old(d)), name@, key@),
        has_table(document(*final(d))),
        keys_in(document(*final(d))) == applied(
            keys_in(document(*old(d))),
            EditView::DropKey { name: name@, key: key@ },
        ),
        keeps_remarks(document(*old(d)), document(*final(d)), Gone::Key(name@, key@)),
        keeps_values(document(*old(d)), document(*final(d)), Gone::Key(name@, key@)),
{
    d["bindings"][name].as_table_like_mut().unwrap().remove(key);
}

/// `DocumentMut::to_string`: the text of a document. It depends on the document
/// alone, and the remarks around the entries stand in it as they are; what else it
/// is for a given document is not said here.
#[verifier::external_body]
pub(crate) fn written(d: &toml_edit::DocumentMut) -> (r: String)
    ensures
        r@ == printed(document(*d)),
        forall|k: Seq<char>| holds(r@, #[trigger] top_remarks(document(*d), k)),
        forall|n: Seq<char>| holds(r@, #[trigger] heading_remarks(document(*d), n)),
        forall|n: Seq<char>, k: Seq<char>| holds(r@, #[trigger] key_remarks(document(*d), n, k)),
{
    d.to_string()
}

/// `toml_edit::Value::from_str`: whether a text is a single value. It depends on
/// the text alone; which ones are is not said here.
#[verifier::external_body]
pub(crate) fn holds_value(text: &str) -> (r: bool)
    ensures
        r == is_value(text@),
{
    text.parse::<toml_edit::Value>().is_ok()
}

/// `toml_edit::Value::from`, written out: a text as a value. It depends on the
/// text alone; how it is quoted is not said here.
#[verifier::external_body]
fn quote(text: &str) -> (r: String)
    ensures
        r@ == quoted(text@),
{
    toml_edit::Value::from(text).to_string()
}

// ---------------------------------------------------------------- fields

/// A key and its value, as they stand in a file.
pub type Field = (Seq<char>, Seq<char>);

/// Fields as plain text.
pub open spec fn fields_view(v: Seq<(String, String)>) -> Seq<Field> {
    v.map_values(|f: (String, String)| (f.0@, f.1@))
}

/// The fields of several bindings, as plain text.
pub open spec fn all_fields(v: Seq<Vec<(String, String)>>) -> Seq<Seq<Field>> {
    v.map_values(|f: Vec<(String, String)>| fields_view(f@))
}

/// The keys of fields.
pub open spec fn keys_of(f: Seq<Field>) -> Seq<Seq<char>> {
    f.map_values(|x: Field| x.0)
}

/// The numbers of a binding that are written with a fraction, in the order they
/// are written.
pub open spec fn numbers_of(b: Binding) -> Seq<Num> {
    match b {
        Binding::Tap { at, .. } | Binding::Toggle { at, .. } => seq![at.x, at.y],
        Binding::Joystick { center, radius, .. } => seq![center.x, center.y, radius],
        Binding::Aim { origin, sensitivity, deadzone, recenter_margin, safety_span, .. } => seq![
            origin.x,
            origin.y,
            sensitivity,
            deadzone,
            recenter_margin,
            safety_span,
        ],
        Binding::Swipe { from, to, .. } => seq![from.x, from.y, to.x, to.y],
    }
}

/// The numbers of a binding that are written with a fraction.
pub fn numbers(b: &Binding) -> (r: Vec<Num>)
    ensures
        r@ == numbers_of(*b),
{
    match b {
        Binding::Tap { at, .. } => vec![at.x, at.y],
        Binding::Toggle { at, .. } => vec![at.x, at.y],
        Binding::Joystick { center, radius, .. } => vec![center.x, center.y, *radius],
        Binding::Aim { origin, sensitivity, deadzone, recenter_margin, safety_span, .. } => vec![
            origin.x,
            origin.y,
            *sensitivity,
            *deadzone,
            *recenter_margin,
            *safety_span,
        ],
        Binding::Swipe { from, to, .. } => vec![from.x, from.y, to.x, to.y],
    }
}

/// A trigger as a value.
pub open spec fn trigger_value(t: Trigger) -> Seq<char> {
    match t {
        Trigger::Key(k) => "{ Key = "@ + crate::text::decimal(k as nat) + " }"@,
        Trigger::MouseLeft => "\"MouseLeft\""@,
        Trigger::MouseRight => "\"MouseRight\""@,
        Trigger::MouseMiddle => "\"MouseMiddle\""@,
        Trigger::WheelUp => "\"WheelUp\""@,
        Trigger::WheelDown => "\"WheelDown\""@,
    }
}

fn trigger_text(t: Trigger) -> (r: String)
    ensures
        r@ == trigger_value(t),
{
    match t {
        Trigger::Key(k) => {
            let n: String = crate::say::count(k as u64);
            crate::say::cat3("{ Key = ", n.as_str(), " }")
        },
        Trigger::MouseLeft => "\"MouseLeft\"".to_owned(),
        Trigger::MouseRight => "\"MouseRight\"".to_owned(),
        Trigger::MouseMiddle => "\"MouseMiddle\"".to_owned(),
        Trigger::WheelUp => "\"WheelUp\"".to_owned(),
        Trigger::WheelDown => "\"WheelDown\"".to_owned(),
    }
}

/// A position as a value.
pub open spec fn norm_value(x: Seq<char>, y: Seq<char>) -> Seq<char> {
    "{ x = "@ + x + ", y = "@ + y + " }"@
}

/// A velocity curve as a value.
pub open spec fn easing_value(e: Easing) -> Seq<char> {
    match e {
        Easing::Linear => "\"linear\""@,
        Easing::EaseOut => "\"ease_out\""@,
        Easing::EaseOutStrong => "\"ease_out_strong\""@,
    }
}

/// A switch as a value.
pub open spec fn switch_value(on: bool) -> Seq<char> {
    if on {
        "true"@
    } else {
        "false"@
    }
}

/// A binding as it stands in a file; `n` holds its numbers as text.
pub open spec fn fields_of(b: Binding, n: Seq<Seq<char>>) -> Seq<Field> {
    match b {
        Binding::Tap { trigger, .. } => seq![
            ("type"@, "\"tap\""@),
            ("trigger"@, trigger_value(trigger)),
            ("at"@, norm_value(n[0], n[1])),
        ],
        Binding::Toggle { trigger, .. } => seq![
            ("type"@, "\"toggle\""@),
            ("trigger"@, trigger_value(trigger)),
            ("at"@, norm_value(n[0], n[1])),
        ],
        Binding::Joystick { up, down, left, right, .. } => seq![
            ("type"@, "\"joystick\""@),
            ("up"@, trigger_value(up)),
            ("down"@, trigger_value(down)),
            ("left"@, trigger_value(left)),
            ("right"@, trigger_value(right)),
            ("center"@, norm_value(n[0], n[1])),
            ("radius"@, n[2]),
        ],
        Binding::Aim { toggle, handoff, nonlinear, reset_delay_ms, unbounded, .. } => seq![
            ("type"@, "\"aim\""@),
        ] + (match toggle {
            Some(t) => seq![("toggle"@, trigger_value(t))],
            None => Seq::empty(),
        }) + seq![
            ("origin"@, norm_value(n[0], n[1])),
            ("sensitivity"@, n[2]),
            ("deadzone"@, n[3]),
            ("recenter_margin"@, n[4]),
            ("handoff"@, switch_value(handoff)),
            ("nonlinear"@, switch_value(nonlinear)),
            ("reset_delay_ms"@, crate::text::decimal(reset_delay_ms as nat)),
            ("unbounded"@, switch_value(unbounded)),
            ("safety_span"@, n[5]),
        ],
        Binding::Swipe { trigger, duration_ms, group, easing, .. } => seq![
            ("type"@, "\"swipe\""@),
            ("trigger"@, trigger_value(trigger)),
            ("from"@, norm_value(n[0], n[1])),
            ("to"@, norm_value(n[2], n[3])),
            ("duration_ms"@, crate::text::decimal(duration_ms as nat)),
        ] + (match group {
            Some(g) => seq![("group"@, quoted(g@))],
            None => Seq::empty(),
        }) + seq![("easing"@, easing_value(easing))],
    }
}

fn field(out: &mut Vec<(String, String)>, key: &str, value: String)
    ensures
        fields_view(final(out)@) == fields_view(old(out)@).push((key@, value@)),
{
    out.push((key.to_owned(), value));
    assert(fields_view(out@) =~= fields_view(old(out)@).push((key@, value@)));
}

pub(crate) fn norm_text(x: &str, y: &str) -> (r: String)
    ensures
        r@ == norm_value(x@, y@),
{
    crate::say::cat5("{ x = ", x, ", y = ", y, " }")
}

fn switch_text(on: bool) -> (r: String)
    ensures
        r@ == switch_value(on),
{
    if on {
        "true".to_owned()
    } else {
        "false".to_owned()
    }
}

/// A binding as it stands in a file. `n` holds its numbers as text, in the order
/// of `numbers`.
pub fn fields(b: &Binding, n: &Vec<String>) -> (r: Vec<(String, String)>)
    requires
        n@.len() == numbers_of(*b).len(),
    ensures
        fields_view(r@) == fields_of(*b, crate::text::texts(n@)),
{
    let ghost t = crate::text::texts(n@);
    let mut out: Vec<(String, String)> = Vec::new();
    assert(fields_view(out@) =~= Seq::<Field>::empty());
    assert(forall|k: int| 0 <= k < n@.len() ==> #[trigger] t[k] == n@[k]@);
    match b {
        Binding::Tap { trigger, .. } => {
            field(&mut out, "type", "\"tap\"".to_owned());
            field(&mut out, "trigger", trigger_text(*trigger));
            field(&mut out, "at", norm_text(n[0].as_str(), n[1].as_str()));
        },
        Binding::Toggle { trigger, .. } => {
            field(&mut out, "type", "\"toggle\"".to_owned());
            field(&mut out, "trigger", trigger_text(*trigger));
            field(&mut out, "at", norm_text(n[0].as_str(), n[1].as_str()));
        },
        Binding::Joystick { up, down, left, right, .. } => {
            field(&mut out, "type", "\"joystick\"".to_owned());
            field(&mut out, "up", trigger_text(*up));
            field(&mut out, "down", trigger_text(*down));
            field(&mut out, "left", trigger_text(*left));
            field(&mut out, "right", trigger_text(*right));
            field(&mut out, "center", norm_text(n[0].as_str(), n[1].as_str()));
            field(&mut out, "radius", n[2].clone());
        },
        Binding::Aim { toggle, handoff, nonlinear, reset_delay_ms, unbounded, .. } => {
            field(&mut out, "type", "\"aim\"".to_owned());
            if let Some(t) = toggle {
                field(&mut out, "toggle", trigger_text(*t));
            }
            field(&mut out, "origin", norm_text(n[0].as_str(), n[1].as_str()));
            field(&mut out, "sensitivity", n[2].clone());
            field(&mut out, "deadzone", n[3].clone());
            field(&mut out, "recenter_margin", n[4].clone());
            field(&mut out, "handoff", switch_text(*handoff));
            field(&mut out, "nonlinear", switch_text(*nonlinear));
            field(&mut out, "reset_delay_ms", crate::say::count(*reset_delay_ms as u64));
            field(&mut out, "unbounded", switch_text(*unbounded));
            field(&mut out, "safety_span", n[5].clone());
        },
        Binding::Swipe { trigger, duration_ms, group, easing, .. } => {
            field(&mut out, "type", "\"swipe\"".to_owned());
            field(&mut out, "trigger", trigger_text(*trigger));
            field(&mut out, "from", norm_text(n[0].as_str(), n[1].as_str()));
            field(&mut out, "to", norm_text(n[2].as_str(), n[3].as_str()));
            field(&mut out, "duration_ms", crate::say::count(*duration_ms as u64));
            if let Some(g) = group {
                field(&mut out, "group", quote(g.as_str()));
            }
            let curve: &str = match easing {
                Easing::Linear => "\"linear\"",
                Easing::EaseOut => "\"ease_out\"",
                Easing::EaseOutStrong => "\"ease_out_strong\"",
            };
            field(&mut out, "easing", curve.to_owned());
        },
    }
    assert(fields_view(out@) =~= fields_of(*b, t));
    out
}

/// The fields of bindings, given the numbers of each as text.
pub open spec fn profile_fields(
    b: Seq<(String, Binding)>,
    shown: Seq<Seq<Seq<char>>>,
) -> Seq<Seq<Field>> {
    Seq::new(b.len(), |i: int| fields_of(b[i].1, shown[i]))
}

/// Lists of texts as plain text.
pub open spec fn lists(v: Seq<Vec<String>>) -> Seq<Seq<Seq<char>>> {
    v.map_values(|t: Vec<String>| crate::text::texts(t@))
}

// ---------------------------------------------------------------- the plan

/// What a profile file holds under `bindings`.
#[derive(Debug)]
pub enum Shape {
    /// There is no such entry.
    Missing,
    /// There is one, but it is no table.
    Other,
    /// The names in the table, in order, with the keys of each that is a table
    /// itself.
    Table(Vec<(String, Option<Vec<String>>)>),
}

/// One change to a profile file.
#[derive(Debug)]
pub enum Edit {
    /// Set a text at the top of the file, keeping its comments.
    SetText { key: String, value: String },
    /// Add an empty `bindings` table.
    AddBindings,
    /// Take a binding out.
    DropBinding { name: String },
    /// Replace the value of a key, keeping its comments.
    Replace { name: String, key: String, value: String },
    /// Add a key.
    Insert { name: String, key: String, value: String },
    /// Take a key out.
    DropKey { name: String, key: String },
    /// Give a binding an empty table.
    NewTable { name: String },
}

/// A change, with names as plain text.
pub enum EditView {
    SetText { key: Seq<char>, value: Seq<char> },
    AddBindings,
    DropBinding { name: Seq<char> },
    Replace { name: Seq<char>, key: Seq<char>, value: Seq<char> },
    Insert { name: Seq<char>, key: Seq<char>, value: Seq<char> },
    DropKey { name: Seq<char>, key: Seq<char> },
    NewTable { name: Seq<char> },
}

impl View for Edit {
    type V = EditView;

    open spec fn view(&self) -> EditView {
        match self {
            Edit::SetText { key, value } => EditView::SetText { key: key@, value: value@ },
            Edit::AddBindings => EditView::AddBindings,
            Edit::DropBinding { name } => EditView::DropBinding { name: name@ },
            Edit::Replace { name, key, value } => EditView::Replace {
                name: name@,
                key: key@,
                value: value@,
            },
            Edit::Insert { name, key, value } => EditView::Insert {
                name: name@,
                key: key@,
                value: value@,
            },
            Edit::DropKey { name, key } => EditView::DropKey { name: name@, key: key@ },
            Edit::NewTable { name } => EditView::NewTable { name: name@ },
        }
    }
}

/// Changes, with names as plain text.
pub open spec fn edits_of(e: Seq<Edit>) -> Seq<EditView> {
    e.map_values(|x: Edit| x@)
}

/// A table entry, with names as plain text.
pub type Row = (Seq<char>, Option<Seq<Seq<char>>>);

/// The rows of a table, with names as plain text.
pub open spec fn rows_of(t: Seq<(String, Option<Vec<String>>)>) -> Seq<Row> {
    t.map_values(
        |r: (String, Option<Vec<String>>)|
            (
                r.0@,
                match r.1 {
                    Some(k) => Some(crate::text::texts(k@)),
                    None => None,
                },
            ),
    )
}

/// The shape of a file, with names as plain text.
pub open spec fn shape_of(s: Shape) -> Option<Option<Seq<Row>>> {
    match s {
        Shape::Missing => None,
        Shape::Other => Some(None),
        Shape::Table(t) => Some(Some(rows_of(t@))),
    }
}

/// The rows of a file.
pub open spec fn rows_in(s: Option<Option<Seq<Row>>>) -> Seq<Row> {
    match s {
        Some(Some(t)) => t,
        _ => Seq::empty(),
    }
}

/// The names of bindings, as plain text.
pub open spec fn names_of(b: Seq<(String, Binding)>) -> Seq<Seq<char>> {
    b.map_values(|x: (String, Binding)| x.0@)
}

/// Whether `x` is in the list.
pub fn listed(v: &Vec<String>, x: &str) -> (r: bool)
    ensures
        r == crate::text::texts(v@).contains(x@),
{
    let ghost t = crate::text::texts(v@);
    let mut i: usize = 0;
    while i < v.len()
        invariant
            i <= v@.len(),
            t == crate::text::texts(v@),
            forall|k: int| 0 <= k < i ==> t[k] != x@,
        decreases v@.len() - i,
    {
        if crate::text::same(v[i].as_str(), x) {
            assert(t[i as int] == x@);
            return true;
        }
        i = i + 1;
    }
    false
}

/// Whether `x` is the key of a field.
fn keyed(v: &Vec<(String, String)>, x: &str) -> (r: bool)
    ensures
        r == keys_of(fields_view(v@)).contains(x@),
{
    let ghost t = keys_of(fields_view(v@));
    let mut i: usize = 0;
    while i < v.len()
        invariant
            i <= v@.len(),
            t == keys_of(fields_view(v@)),
            forall|k: int| 0 <= k < i ==> t[k] != x@,
        decreases v@.len() - i,
    {
        if crate::text::same(v[i].0.as_str(), x) {
            assert(t[i as int] == x@);
            return true;
        }
        i = i + 1;
    }
    false
}

/// The first row at or after `i` named `n`.
pub open spec fn row_from(t: Seq<Row>, n: Seq<char>, i: int) -> Option<int>
    decreases t.len() - i,
{
    if i >= t.len() {
        None
    } else if t[i].0 == n {
        Some(i)
    } else {
        row_from(t, n, i + 1)
    }
}

/// The first `n` rows whose name is not wanted are dropped.
pub open spec fn drops(t: Seq<Row>, wanted: Seq<Seq<char>>, n: int) -> Seq<EditView>
    decreases n,
{
    if n <= 0 {
        Seq::empty()
    } else if wanted.contains(t[n - 1].0) {
        drops(t, wanted, n - 1)
    } else {
        drops(t, wanted, n - 1).push(EditView::DropBinding { name: t[n - 1].0 })
    }
}

/// The first `n` wanted fields replace a value or are added.
pub open spec fn writes(
    name: Seq<char>,
    present: Seq<Seq<char>>,
    wanted: Seq<Field>,
    n: int,
) -> Seq<EditView>
    decreases n,
{
    if n <= 0 {
        Seq::empty()
    } else {
        let (key, value) = wanted[n - 1];
        writes(name, present, wanted, n - 1).push(
            if present.contains(key) {
                EditView::Replace { name, key, value }
            } else {
                EditView::Insert { name, key, value }
            },
        )
    }
}

/// Of the first `n` keys present, those not wanted are dropped.
pub open spec fn prunes(
    name: Seq<char>,
    present: Seq<Seq<char>>,
    wanted: Seq<Field>,
    n: int,
) -> Seq<EditView>
    decreases n,
{
    if n <= 0 {
        Seq::empty()
    } else if keys_of(wanted).contains(present[n - 1]) {
        prunes(name, present, wanted, n - 1)
    } else {
        prunes(name, present, wanted, n - 1).push(
            EditView::DropKey { name, key: present[n - 1] },
        )
    }
}

/// A binding written anew: an empty table, then the fields.
pub open spec fn anew(name: Seq<char>, wanted: Seq<Field>) -> Seq<EditView> {
    seq![EditView::NewTable { name }] + writes(name, Seq::empty(), wanted, wanted.len() as int)
}

/// What becomes of one binding. One that the file has as a table is edited in
/// place; any other is written anew.
pub open spec fn merge(t: Seq<Row>, name: Seq<char>, wanted: Seq<Field>) -> Seq<EditView> {
    match row_from(t, name, 0) {
        Some(i) => match t[i].1 {
            Some(present) => writes(name, present, wanted, wanted.len() as int) + prunes(
                name,
                present,
                wanted,
                present.len() as int,
            ),
            None => anew(name, wanted),
        },
        None => anew(name, wanted),
    }
}

/// What becomes of the first `n` bindings.
pub open spec fn merges(
    t: Seq<Row>,
    names: Seq<Seq<char>>,
    fresh: Seq<Seq<Field>>,
    n: int,
) -> Seq<EditView>
    decreases n,
{
    if n <= 0 {
        Seq::empty()
    } else {
        merges(t, names, fresh, n - 1) + merge(t, names[n - 1], fresh[n - 1])
    }
}

/// What is done at the top of a file: its two texts are set, and a table of
/// bindings is added where there is none.
pub open spec fn heading(missing: bool, name: Seq<char>, package: Seq<char>) -> Seq<EditView> {
    seq![
        EditView::SetText { key: "name"@, value: name },
        EditView::SetText { key: "package"@, value: package },
    ] + (if missing {
        seq![EditView::AddBindings]
    } else {
        Seq::empty()
    })
}

/// Every change a save makes, in order.
pub open spec fn planned(
    s: Option<Option<Seq<Row>>>,
    name: Seq<char>,
    package: Seq<char>,
    names: Seq<Seq<char>>,
    fresh: Seq<Seq<Field>>,
) -> Seq<EditView> {
    let t = rows_in(s);
    heading(s is None, name, package) + drops(t, names, t.len() as int) + merges(
        t,
        names,
        fresh,
        names.len() as int,
    )
}

proof fn lemma_edits_push(e: Seq<Edit>, x: Edit)
    ensures
        edits_of(e.push(x)) == edits_of(e).push(x@),
{
    assert(edits_of(e.push(x)) =~= edits_of(e).push(x@));
}

/// The position of the row named `name`.
fn find_row(t: &Vec<(String, Option<Vec<String>>)>, name: &str) -> (r: Option<usize>)
    ensures
        match r {
            Some(i) => i < t@.len() && row_from(rows_of(t@), name@, 0) == Some(i as int),
            None => row_from(rows_of(t@), name@, 0) is None,
        },
{
    let ghost rows = rows_of(t@);
    let mut i: usize = 0;
    while i < t.len()
        invariant
            rows == rows_of(t@),
            i <= t@.len(),
            row_from(rows, name@, 0) == row_from(rows, name@, i as int),
        decreases t@.len() - i,
    {
        if crate::text::same(t[i].0.as_str(), name) {
            return Some(i);
        }
        i = i + 1;
    }
    None
}

/// Replaces the value of each key that is present and adds the others.
fn write_fields(
    name: &str,
    present: &Vec<String>,
    wanted: &Vec<(String, String)>,
    out: &mut Vec<Edit>,
)
    ensures
        ({
            let p = crate::text::texts(present@);
            let w = fields_view(wanted@);
            edits_of(final(out)@) == edits_of(old(out)@) + writes(name@, p, w, w.len() as int)
        }),
{
    let ghost p = crate::text::texts(present@);
    let ghost w = fields_view(wanted@);
    let ghost start = edits_of(out@);
    let mut i: usize = 0;
    assert(start + writes(name@, p, w, 0) =~= start);
    while i < wanted.len()
        invariant
            i <= wanted@.len(),
            p == crate::text::texts(present@),
            w == fields_view(wanted@),
            edits_of(out@) == start + writes(name@, p, w, i as int),
        decreases wanted@.len() - i,
    {
        let key: String = wanted[i].0.clone();
        let value: String = wanted[i].1.clone();
        assert(w[i as int] == (key@, value@));
        let e: Edit = if listed(present, key.as_str()) {
            Edit::Replace { name: name.to_owned(), key, value }
        } else {
            Edit::Insert { name: name.to_owned(), key, value }
        };
        proof {
            lemma_edits_push(out@, e);
        }
        out.push(e);
        assert(edits_of(out@) =~= start + writes(name@, p, w, i + 1));
        i = i + 1;
    }
}

/// Edits a binding in place.
fn merge_table(
    name: &str,
    present: &Vec<String>,
    wanted: &Vec<(String, String)>,
    out: &mut Vec<Edit>,
)
    ensures
        ({
            let p = crate::text::texts(present@);
            let w = fields_view(wanted@);
            edits_of(final(out)@) == edits_of(old(out)@) + (writes(name@, p, w, w.len() as int)
                + prunes(name@, p, w, p.len() as int))
        }),
{
    let ghost p = crate::text::texts(present@);
    let ghost w = fields_view(wanted@);
    let ghost start = edits_of(out@);
    write_fields(name, present, wanted, out);
    let ghost mid = edits_of(out@);
    let mut j: usize = 0;
    assert(mid + prunes(name@, p, w, 0) =~= mid);
    while j < present.len()
        invariant
            j <= present@.len(),
            p == crate::text::texts(present@),
            w == fields_view(wanted@),
            edits_of(out@) == mid + prunes(name@, p, w, j as int),
        decreases present@.len() - j,
    {
        assert(p[j as int] == present@[j as int]@);
        if !keyed(wanted, present[j].as_str()) {
            let e = Edit::DropKey { name: name.to_owned(), key: present[j].clone() };
            proof {
                lemma_edits_push(out@, e);
            }
            out.push(e);
        }
        assert(edits_of(out@) =~= mid + prunes(name@, p, w, j + 1));
        j = j + 1;
    }
    assert(edits_of(out@) =~= start + (writes(name@, p, w, w.len() as int) + prunes(
        name@,
        p,
        w,
        p.len() as int,
    )));
}

/// Writes a binding anew.
fn write_anew(name: &str, wanted: &Vec<(String, String)>, out: &mut Vec<Edit>)
    ensures
        edits_of(final(out)@) == edits_of(old(out)@) + anew(name@, fields_view(wanted@)),
{
    let ghost start = edits_of(out@);
    let ghost w = fields_view(wanted@);
    let e = Edit::NewTable { name: name.to_owned() };
    proof {
        lemma_edits_push(out@, e);
    }
    out.push(e);
    let none: Vec<String> = Vec::new();
    assert(crate::text::texts(none@) =~= Seq::<Seq<char>>::empty());
    write_fields(name, &none, wanted, out);
    assert(edits_of(out@) =~= start + anew(name@, w));
}

/// Plans the save of a profile into a file of the given shape. `fresh` holds the
/// fields that each binding is written with.
///
/// An invalid profile is refused before anything reaches the disk, and so is a
/// file whose `bindings` is no table.
pub fn plan_render(shape: &Shape, p: &Profile, fresh: &Vec<Vec<(String, String)>>) -> (r: Result<
    Vec<Edit>,
    ProfileError,
>)
    requires
        p.bindings.wf(),
        fresh@.len() == p.bindings@.len(),
    ensures
        r is Ok <==> p.valid() && !(*shape is Other),
        match r {
            Ok(e) => edits_of(e@) == planned(
                shape_of(*shape),
                p.name@,
                p.package@,
                names_of(p.bindings@),
                all_fields(fresh@),
            ),
            Err(ProfileError::Invalid(f)) => crate::profile::flawed(p.bindings@, f@),
            Err(ProfileError::Edit(m)) => p.valid() && m@ == "[bindings] is not a table"@,
            Err(_) => false,
        },
{
    if let Err(e) = p.validate() {
        return Err(e);
    }
    let empty: Vec<(String, Option<Vec<String>>)> = Vec::new();
    let table: &Vec<(String, Option<Vec<String>>)> = match shape {
        Shape::Table(t) => t,
        Shape::Missing => &empty,
        Shape::Other => {
            return Err(ProfileError::Edit("[bindings] is not a table".to_owned()));
        },
    };
    let ghost rows = rows_of(table@);
    assert(rows =~= rows_in(shape_of(*shape)));
    let ghost names = names_of(p.bindings@);
    let ghost keys = all_fields(fresh@);
    let mut out: Vec<Edit> = Vec::new();
    let e1 = Edit::SetText { key: "name".to_owned(), value: p.name.clone() };
    let e2 = Edit::SetText { key: "package".to_owned(), value: p.package.clone() };
    proof {
        lemma_edits_push(out@, e1);
        lemma_edits_push(out@.push(e1), e2);
        assert(edits_of(out@) =~= Seq::<EditView>::empty());
    }
    out.push(e1);
    out.push(e2);
    if let Shape::Missing = shape {
        proof {
            lemma_edits_push(out@, Edit::AddBindings);
        }
        out.push(Edit::AddBindings);
    }
    let ghost head = edits_of(out@);
    assert(head =~= heading(shape_of(*shape) is None, p.name@, p.package@));
    let mut i: usize = 0;
    assert(head + drops(rows, names, 0) =~= head);
    while i < table.len()
        invariant
            i <= table@.len(),
            rows == rows_of(table@),
            names == names_of(p.bindings@),
            p.bindings.wf(),
            edits_of(out@) == head + drops(rows, names, i as int),
        decreases table@.len() - i,
    {
        let name: &String = &table[i].0;
        let found: Option<usize> = p.bindings.position(name.as_str());
        proof {
            if let Some(k) = found {
                assert(names[k as int] == name@);
                assert(names.contains(name@));
            } else if names.contains(name@) {
                let k = choose|k: int| 0 <= k < names.len() && names[k] == name@;
                assert(crate::by_name::named(p.bindings@, name@, k));
            }
        }
        if found.is_none() {
            let e = Edit::DropBinding { name: name.clone() };
            proof {
                lemma_edits_push(out@, e);
            }
            out.push(e);
        }
        assert(edits_of(out@) =~= head + drops(rows, names, i + 1));
        i = i + 1;
    }
    let ghost mid = edits_of(out@);
    let mut j: usize = 0;
    assert(mid + merges(rows, names, keys, 0) =~= mid);
    while j < p.bindings.len()
        invariant
            j <= p.bindings@.len(),
            rows == rows_of(table@),
            names == names_of(p.bindings@),
            keys == all_fields(fresh@),
            fresh@.len() == p.bindings@.len(),
            edits_of(out@) == mid + merges(rows, names, keys, j as int),
        decreases p.bindings@.len() - j,
    {
        let name: &String = &p.bindings.at(j).0;
        let wanted: &Vec<(String, String)> = &fresh[j];
        let ghost so_far = edits_of(out@);
        let mut done: bool = false;
        if let Some(k) = find_row(table, name.as_str()) {
            if let Some(present) = &table[k].1 {
                merge_table(name.as_str(), present, wanted, &mut out);
                done = true;
            }
        }
        if !done {
            write_anew(name.as_str(), wanted, &mut out);
        }
        assert(edits_of(out@) =~= so_far + merge(rows, names[j as int], keys[j as int]));
        assert(edits_of(out@) =~= mid + merges(rows, names, keys, j + 1));
        j = j + 1;
    }
    assert(edits_of(out@) =~= planned(shape_of(*shape), p.name@, p.package@, names, keys));
    Ok(out)
}

// ---------------------------------------------------------------- the save

/// A document after one change.
pub open spec fn stepped(doc: Seq<char>, e: EditView) -> Seq<char> {
    match e {
        EditView::SetText { key, value } => with_text(doc, key, value),
        EditView::AddBindings => with_bindings(doc),
        EditView::DropBinding { name } => without_binding(doc, name),
        EditView::Replace { name, key, value } => with_value(doc, name, key, value),
        EditView::Insert { name, key, value } => with_key(doc, name, key, value),
        EditView::DropKey { name, key } => without_key(doc, name, key),
        EditView::NewTable { name } => with_table(doc, name),
    }
}

/// What loses its remarks in a change.
pub open spec fn lost(e: EditView) -> Gone {
    match e {
        EditView::DropBinding { name } => Gone::Binding(name),
        EditView::NewTable { name } => Gone::Binding(name),
        EditView::Insert { name, key, .. } => Gone::Key(name, key),
        EditView::DropKey { name, key } => Gone::Key(name, key),
        _ => Gone::Nothing,
    }
}

/// What a change gives another value.
pub open spec fn touched(e: EditView) -> Gone {
    match e {
        EditView::SetText { key, .. } => Gone::Top(key),
        EditView::Replace { name, key, .. } => Gone::Key(name, key),
        _ => lost(e),
    }
}

/// The value that changes leave a key of a binding with, if they write one.
pub open spec fn last_value(e: Seq<EditView>, name: Seq<char>, key: Seq<char>) -> Option<Seq<char>>
    decreases e.len(),
{
    if e.len() == 0 {
        None
    } else if touched(e.last()) == Gone::Binding(name) {
        None
    } else if touched(e.last()) == Gone::Key(name, key) {
        match e.last() {
            EditView::Replace { value, .. } => Some(value),
            EditView::Insert { value, .. } => Some(value),
            _ => None,
        }
    } else {
        last_value(e.drop_last(), name, key)
    }
}

/// Every binding has every field with the value it is written with.
pub open spec fn values_stand(doc: Seq<char>, names: Seq<Seq<char>>, fresh: Seq<Seq<Field>>) -> bool {
    forall|i: int, j: int|
        0 <= i < names.len() && 0 <= j < fresh[i].len() ==> value_in(
            doc,
            names[i],
            #[trigger] fresh[i][j].0,
        ) == Some(value_of(fresh[i][j].1))
}

/// The first `n` changes leave the remarks of something alone.
pub open spec fn spared(e: Seq<EditView>, n: int, g: Gone) -> bool {
    forall|m: int| 0 <= m < n ==> lost(#[trigger] e[m]) != g
}

/// What stood around an entry of the document `doc` stands in a text: around
/// every key at the top, every binding that was a table and is still there in the
/// document `end`, and every key of such a binding that is still there.
pub open spec fn comments_stay(doc: Seq<char>, end: Seq<char>, text: Seq<char>) -> bool {
    &&& forall|k: Seq<char>| holds(text, #[trigger] top_remarks(doc, k))
    &&& forall|n: Seq<char>|
        binding_stays(doc, end, n) ==> holds(text, #[trigger] heading_remarks(doc, n))
    &&& forall|n: Seq<char>, k: Seq<char>|
        binding_stays(doc, end, n) && keys_in(doc)[n]->0.contains(k) && keys_in(
            end,
        )[n]->0.contains(k) ==> holds(text, #[trigger] key_remarks(doc, n, k))
}

/// What stood around any entry of a document stands in a text.
pub open spec fn all_comments_stay(doc: Seq<char>, text: Seq<char>) -> bool {
    &&& forall|k: Seq<char>| holds(text, #[trigger] top_remarks(doc, k))
    &&& forall|n: Seq<char>| holds(text, #[trigger] heading_remarks(doc, n))
    &&& forall|n: Seq<char>, k: Seq<char>| holds(text, #[trigger] key_remarks(doc, n, k))
}

/// A binding that was a table in one document is still there in another.
pub open spec fn binding_stays(doc: Seq<char>, end: Seq<char>, name: Seq<char>) -> bool {
    keys_in(doc).contains_key(name) && keys_in(doc)[name] is Some && keys_in(end).contains_key(name)
}

/// A document after changes, one after the other.
pub open spec fn edited(doc: Seq<char>, e: Seq<EditView>) -> Seq<char>
    decreases e.len(),
{
    if e.len() == 0 {
        doc
    } else {
        stepped(edited(doc, e.drop_last()), e.last())
    }
}

/// Every field of every binding has a value that can stand in a file.
pub open spec fn all_values(fresh: Seq<Seq<Field>>) -> bool {
    forall|i: int, j: int|
        0 <= i < fresh.len() && 0 <= j < fresh[i].len() ==> is_value(#[trigger] fresh[i][j].1)
}

/// What is said of a value that cannot stand in a file.
pub open spec fn bad_value(name: Seq<char>, value: Seq<char>) -> Seq<char> {
    "'"@ + name + "': not a value: "@ + value
}

/// The value a change writes, if it writes one into a binding, can stand in a
/// file.
pub open spec fn sound(e: EditView) -> bool {
    match e {
        EditView::Replace { value, .. } => is_value(value),
        EditView::Insert { value, .. } => is_value(value),
        EditView::SetText { key, .. } => key != "bindings"@,
        _ => true,
    }
}

/// The bindings of a file with the keys of each that is a table.
pub type Doc = Map<Seq<char>, Option<Set<Seq<char>>>>;

/// One change to the bindings of a file.
pub open spec fn applied(d: Doc, e: EditView) -> Doc {
    match e {
        EditView::SetText { .. } => d,
        EditView::AddBindings => d,
        EditView::DropBinding { name } => d.remove(name),
        EditView::Replace { .. } => d,
        EditView::Insert { name, key, .. } => d.insert(name, Some(d[name]->0.insert(key))),
        EditView::DropKey { name, key } => d.insert(name, Some(d[name]->0.remove(key))),
        EditView::NewTable { name } => d.insert(name, Some(Set::empty())),
    }
}

/// A change finds what it changes.
pub open spec fn ready(d: Doc, e: EditView) -> bool {
    match e {
        EditView::Replace { name, key, .. } => d.contains_key(name) && d[name] is Some
            && d[name]->0.contains(key),
        EditView::Insert { name, .. } => d.contains_key(name) && d[name] is Some,
        EditView::DropKey { name, .. } => d.contains_key(name) && d[name] is Some,
        _ => true,
    }
}

/// Changes, one after the other.
pub open spec fn applied_all(d: Doc, e: Seq<EditView>) -> Doc
    decreases e.len(),
{
    if e.len() == 0 {
        d
    } else {
        applied(applied_all(d, e.drop_last()), e.last())
    }
}

/// Each of the changes finds what it changes.
pub open spec fn runs(d: Doc, e: Seq<EditView>) -> bool
    decreases e.len(),
{
    e.len() == 0 || runs(d, e.drop_last()) && ready(applied_all(d, e.drop_last()), e.last())
}

/// What the rows of a file hold.
pub open spec fn doc_of(t: Seq<Row>) -> Doc {
    Map::new(
        |n: Seq<char>| row_from(t, n, 0) is Some,
        |n: Seq<char>|
            match t[row_from(t, n, 0)->0].1 {
                Some(k) => Some(k.to_set()),
                None => None,
            },
    )
}

/// What a profile is written with.
pub open spec fn wanted_doc(names: Seq<Seq<char>>, fresh: Seq<Seq<Field>>) -> Doc {
    Map::new(
        |n: Seq<char>| names.contains(n),
        |n: Seq<char>| Some(keys_of(fresh[names.index_of(n)]).to_set()),
    )
}

/// Any change but those at the top of a file.
pub open spec fn to_bindings(e: EditView) -> bool {
    !(e is SetText) && !(e is AddBindings)
}

/// A change can be made to a document.
pub open spec fn fits(doc: Seq<char>, e: EditView) -> bool {
    match e {
        EditView::SetText { .. } => true,
        EditView::AddBindings => shape_in(doc) is None,
        _ => has_table(doc) && ready(keys_in(doc), e),
    }
}

fn apply(d: &mut toml_edit::DocumentMut, e: &Edit)
    requires
        fits(document(*old(d)), e@),
        sound(e@),
    ensures
        document(*final(d)) == stepped(document(*old(d)), e@),
        keys_in(document(*final(d))) == applied(keys_in(document(*old(d))), e@),
        e@ is SetText ==> shape_in(document(*final(d))) == shape_in(document(*old(d))),
        !(e@ is SetText) ==> has_table(document(*final(d))),
        keeps_remarks(document(*old(d)), document(*final(d)), lost(e@)),
        keeps_values(document(*old(d)), document(*final(d)), touched(e@)),
        match e@ {
            EditView::SetText { key, value } => top_text(document(*final(d)), key) == Some(value),
            EditView::Replace { name, key, value } => value_in(document(*final(d)), name, key)
                == Some(value_of(value)),
            EditView::Insert { name, key, value } => value_in(document(*final(d)), name, key)
                == Some(value_of(value)),
            _ => true,
        },
{
    match e {
        Edit::SetText { key, value } => set_text(d, key.as_str(), value.as_str()),
        Edit::AddBindings => add_bindings(d),
        Edit::DropBinding { name } => drop_binding(d, name.as_str()),
        Edit::Replace { name, key, value } => put_value(
            d,
            name.as_str(),
            key.as_str(),
            value.as_str(),
        ),
        Edit::Insert { name, key, value } => add_value(
            d,
            name.as_str(),
            key.as_str(),
            value.as_str(),
        ),
        Edit::DropKey { name, key } => drop_key(d, name.as_str(), key.as_str()),
        Edit::NewTable { name } => add_table(d, name.as_str()),
    }
}

/// The fields of a profile's bindings, given their numbers as text.
fn fresh_fields(p: &Profile, shown: &Vec<Vec<String>>) -> (r: Vec<Vec<(String, String)>>)
    requires
        p.bindings.wf(),
        numbers_fit(*p, *shown),
    ensures
        all_fields(r@) == profile_fields(p.bindings@, lists(shown@)),
{
    let ghost want = profile_fields(p.bindings@, lists(shown@));
    let mut out: Vec<Vec<(String, String)>> = Vec::new();
    let mut i: usize = 0;
    while i < p.bindings.len()
        invariant
            i <= p.bindings@.len(),
            want == profile_fields(p.bindings@, lists(shown@)),
            numbers_fit(*p, *shown),
            all_fields(out@) == want.take(i as int),
        decreases p.bindings@.len() - i,
    {
        let b: &Binding = &p.bindings.at(i).1;
        assert(lists(shown@)[i as int] == crate::text::texts(shown@[i as int]@));
        let f: Vec<(String, String)> = fields(b, &shown[i]);
        assert(fields_view(f@) == want[i as int]);
        let ghost before = out@;
        out.push(f);
        assert(all_fields(out@) =~= all_fields(before).push(want[i as int]));
        assert(want.take(i + 1) =~= want.take(i as int).push(want[i as int]));
        i = i + 1;
    }
    assert(want.take(i as int) =~= want);
    out
}

/// The numbers of every binding come with the profile, as text.
pub open spec fn numbers_fit(p: Profile, shown: Vec<Vec<String>>) -> bool {
    &&& shown@.len() == p.bindings@.len()
    &&& forall|i: int|
        0 <= i < shown@.len() ==> (#[trigger] shown@[i])@.len() == numbers_of(
            p.bindings@[i].1,
        ).len()
}

/// The first value that cannot stand in a file, with its binding.
fn find_bad_value(p: &Profile, fresh: &Vec<Vec<(String, String)>>) -> (r: Option<String>)
    requires
        p.bindings.wf(),
        fresh@.len() == p.bindings@.len(),
    ensures
        r is None <==> all_values(all_fields(fresh@)),
        r matches Some(m) ==> exists|i: int, j: int|
            0 <= i < fresh@.len() && 0 <= j < all_fields(fresh@)[i].len() && !is_value(
                all_fields(fresh@)[i][j].1,
            ) && m@ == #[trigger] bad_value(p.bindings@[i].0@, all_fields(fresh@)[i][j].1),
{
    let ghost all = all_fields(fresh@);
    let mut i: usize = 0;
    while i < fresh.len()
        invariant
            i <= fresh@.len(),
            all == all_fields(fresh@),
            fresh@.len() == p.bindings@.len(),
            forall|a: int, b: int|
                0 <= a < i && 0 <= b < all[a].len() ==> is_value(#[trigger] all[a][b].1),
        decreases fresh@.len() - i,
    {
        let f: &Vec<(String, String)> = &fresh[i];
        assert(all[i as int] == fields_view(f@));
        let mut j: usize = 0;
        while j < f.len()
            invariant
                j <= f@.len(),
                i < fresh@.len(),
                f@ == fresh@[i as int]@,
                all == all_fields(fresh@),
                all[i as int] == fields_view(f@),
                fresh@.len() == p.bindings@.len(),
                forall|a: int, b: int|
                    0 <= a < i && 0 <= b < all[a].len() ==> is_value(#[trigger] all[a][b].1),
                forall|b: int| 0 <= b < j ==> is_value(#[trigger] all[i as int][b].1),
            decreases f@.len() - j,
        {
            assert(all[i as int][j as int] == (f@[j as int].0@, f@[j as int].1@));
            if !holds_value(f[j].1.as_str()) {
                let name: &String = &p.bindings.at(i).0;
                let m: String = crate::say::cat4(
                    "'",
                    name.as_str(),
                    "': not a value: ",
                    f[j].1.as_str(),
                );
                assert(m@ == bad_value(p.bindings@[i as int].0@, all[i as int][j as int].1));
                return Some(m);
            }
            j = j + 1;
        }
        i = i + 1;
    }
    None
}

/// Renders a profile back into its file, preserving the comments of the text it
/// has. Without a text a fresh document is produced.
///
/// `shown` holds the numbers of each binding as text, in the order of `numbers`.
#[verifier::spinoff_prover]
pub fn render(existing: Option<&str>, p: &Profile, shown: &Vec<Vec<String>>) -> (r: Result<
    String,
    ProfileError,
>)
    requires
        p.bindings.wf(),
        numbers_fit(*p, *shown),
    ensures
        ({
            let fresh = profile_fields(p.bindings@, lists(shown@));
            let names = names_of(p.bindings@);
            let start = opened(crate::text::maybe(existing));
            let doc = start->Ok_0;
            let end = edited(doc, planned(shape_in(doc), p.name@, p.package@, names, fresh));
            &&& r is Ok <==> p.valid() && start is Ok && shape_in(doc) != Some(
                None::<Seq<Row>>,
            ) && all_values(fresh)
            &&& match r {
                Ok(text) => text@ == printed(end) && keys_in(end) == wanted_doc(names, fresh)
                    && top_text(end, "name"@) == Some(p.name@) && top_text(end, "package"@) == Some(
                    p.package@,
                ) && values_stand(end, names, fresh) && comments_stay(doc, end, text@) && (existing matches Some(t)
                    ==> all_comments_stay(doc, plain(t@))),
                Err(ProfileError::Invalid(f)) => crate::profile::flawed(p.bindings@, f@),
                Err(ProfileError::Edit(m)) => p.valid() && (if start is Err {
                    m@ == start->Err_0
                } else if shape_in(doc) == Some(None::<Seq<Row>>) {
                    m@ == "[bindings] is not a table"@
                } else {
                    exists|i: int, j: int|
                        0 <= i < fresh.len() && 0 <= j < fresh[i].len() && !is_value(
                            fresh[i][j].1,
                        ) && m@ == #[trigger] bad_value(p.bindings@[i].0@, fresh[i][j].1)
                }),
                Err(_) => false,
            }
        }),
{
    if let Err(e) = p.validate() {
        return Err(e);
    }
    let mut d: toml_edit::DocumentMut = match open_document(existing) {
        Ok(d) => d,
        Err(e) => {
            return Err(ProfileError::Edit(e));
        },
    };
    let s: Shape = shape(&d);
    let fresh: Vec<Vec<(String, String)>> = fresh_fields(p, shown);
    let ghost f = all_fields(fresh@);
    let ghost names = names_of(p.bindings@);
    assert(f.len() == fresh@.len());
    let plan: Vec<Edit> = match plan_render(&s, p, &fresh) {
        Ok(e) => e,
        Err(e) => {
            return Err(e);
        },
    };
    if let Some(m) = find_bad_value(p, &fresh) {
        return Err(ProfileError::Edit(m));
    }
    let ghost doc = document(d);
    proof {
        lemma_names_differ(p.bindings);
        lemma_planned(shape_of(s), p.name@, p.package@, names, f);
    }
    carry_out(&mut d, &plan);
    let text: String = written(&d);
    proof {
        lemma_all_written(doc, document(d), p, shown@, f);
        lemma_all_kept(doc, document(d), text@, p.name@, p.package@, names, f);
    }
    Ok(text)
}

/// What stood around an entry still stands around it, unless one of the first
/// `n` changes takes the entry away.
pub open spec fn remarks_kept(doc: Seq<char>, end: Seq<char>, e: Seq<EditView>, n: int) -> bool {
    &&& forall|k: Seq<char>|
        top_remarks(doc, k) is Some ==> #[trigger] top_remarks(end, k) == top_remarks(doc, k)
    &&& forall|b: Seq<char>|
        heading_remarks(doc, b) is Some && spared(e, n, Gone::Binding(b))
            ==> #[trigger] heading_remarks(end, b) == heading_remarks(doc, b)
    &&& forall|b: Seq<char>, k: Seq<char>|
        key_remarks(doc, b, k) is Some && spared(e, n, Gone::Binding(b)) && spared(
            e,
            n,
            Gone::Key(b, k),
        ) ==> #[trigger] key_remarks(end, b, k) == key_remarks(doc, b, k)
}

/// Every key has the value that the changes wrote to it last.
pub open spec fn values_set(end: Seq<char>, e: Seq<EditView>) -> bool {
    forall|b: Seq<char>, k: Seq<char>|
        (#[trigger] last_value(e, b, k)) matches Some(v) ==> value_in(end, b, k) == Some(
            value_of(v),
        )
}

/// Makes the changes of a plan, in order.
#[verifier::spinoff_prover]
fn carry_out(d: &mut toml_edit::DocumentMut, plan: &Vec<Edit>)
    requires
        ({
            let doc = document(*old(d));
            &&& shape_in(doc) != Some(None::<Seq<Row>>)
            &&& plan_ok(edits_of(plan@), shape_in(doc) is None)
            &&& runs(keys_in(doc), edits_of(plan@))
        }),
    ensures
        ({
            let doc = document(*old(d));
            let end = document(*final(d));
            let todo = edits_of(plan@);
            &&& end == edited(doc, todo)
            &&& keys_in(end) == applied_all(keys_in(doc), todo)
            &&& remarks_kept(doc, end, todo, todo.len() as int)
            &&& values_set(end, todo)
            &&& top_text(end, todo[1]->SetText_key) == Some(todo[1]->SetText_value)
            &&& todo[0]->SetText_key != todo[1]->SetText_key ==> top_text(
                end,
                todo[0]->SetText_key,
            ) == Some(todo[0]->SetText_value)
        }),
{
    let ghost doc = document(*d);
    let ghost s0 = shape_in(doc);
    let ghost todo = edits_of(plan@);
    let ghost keys = keys_in(doc);
    let mut i: usize = 0;
    assert(todo.take(0) =~= Seq::<EditView>::empty());
    while i < plan.len()
        invariant
            i <= plan@.len(),
            todo == edits_of(plan@),
            s0 == shape_in(doc),
            s0 != Some(None::<Seq<Row>>),
            keys == keys_in(doc),
            plan_ok(todo, s0 is None),
            runs(keys, todo),
            document(*d) == edited(doc, todo.take(i as int)),
            keys_in(document(*d)) == applied_all(keys, todo.take(i as int)),
            i <= 2 ==> shape_in(document(*d)) == s0,
            i > 2 ==> has_table(document(*d)),
            remarks_kept(doc, document(*d), todo, i as int),
            values_set(document(*d), todo.take(i as int)),
            i >= 2 ==> top_text(document(*d), todo[1]->SetText_key) == Some(todo[1]->SetText_value),
            i >= 1 && (i == 1 || todo[0]->SetText_key != todo[1]->SetText_key) ==> top_text(
                document(*d),
                todo[0]->SetText_key,
            ) == Some(todo[0]->SetText_value),
        decreases plan@.len() - i,
    {
        let ghost before = todo.take(i as int);
        let ghost next = todo.take(i + 1);
        let ghost e = todo[i as int];
        let ghost here = document(*d);
        proof {
            assert(next.drop_last() =~= before);
            assert(next.last() == e);
            assert(e == plan@[i as int]@);
            lemma_runs_at(keys, todo, i as int);
        }
        apply(d, &plan[i]);
        proof {
            lemma_remarks_step(doc, here, document(*d), todo, i as int);
            lemma_values_step(here, document(*d), next);
            if i >= 2 && !to_bindings(e) {
                assert(todo[2] is AddBindings);
            }
        }
        i = i + 1;
    }
    assert(todo.take(i as int) =~= todo);
}

/// The first two changes of a plan set texts; a table of bindings is added next
/// where there is none; the others are to bindings. All of them are sound.
pub open spec fn plan_ok(e: Seq<EditView>, missing: bool) -> bool {
    &&& e.len() >= 2
    &&& e[0] is SetText && e[1] is SetText
    &&& missing ==> e.len() >= 3 && e[2] is AddBindings
    &&& forall|k: int|
        (if missing {
            3
        } else {
            2int
        }) <= k < e.len() ==> to_bindings(#[trigger] e[k])
    &&& forall|k: int| 0 <= k < e.len() ==> sound(#[trigger] e[k])
}

// ---------------------------------------------------------------- proofs

/// One more change keeps what it does not take away.
proof fn lemma_remarks_step(doc: Seq<char>, here: Seq<char>, end: Seq<char>, e: Seq<EditView>, i: int)
    requires
        0 <= i < e.len(),
        remarks_kept(doc, here, e, i),
        keeps_remarks(here, end, lost(e[i])),
    ensures
        remarks_kept(doc, end, e, i + 1),
{
    assert forall|g: Gone| #[trigger] spared(e, i + 1, g) implies spared(e, i, g) && lost(e[i])
        != g by {
    }
    assert forall|k: Seq<char>| top_remarks(doc, k) is Some implies #[trigger] top_remarks(end, k)
        == top_remarks(doc, k) by {
        assert(top_remarks(here, k) == top_remarks(doc, k));
    }
    assert forall|b: Seq<char>|
        heading_remarks(doc, b) is Some && spared(e, i + 1, Gone::Binding(b)) implies #[trigger]
        heading_remarks(end, b) == heading_remarks(doc, b) by {
        assert(heading_remarks(here, b) == heading_remarks(doc, b));
    }
    assert forall|b: Seq<char>, k: Seq<char>|
        key_remarks(doc, b, k) is Some && spared(e, i + 1, Gone::Binding(b)) && spared(
            e,
            i + 1,
            Gone::Key(b, k),
        ) implies #[trigger] key_remarks(end, b, k) == key_remarks(doc, b, k) by {
        assert(key_remarks(here, b, k) == key_remarks(doc, b, k));
    }
}

/// One more change leaves every key with the value written to it last.
proof fn lemma_values_step(here: Seq<char>, end: Seq<char>, e: Seq<EditView>)
    requires
        e.len() > 0,
        values_set(here, e.drop_last()),
        keeps_values(here, end, touched(e.last())),
        match e.last() {
            EditView::Replace { name, key, value } => value_in(end, name, key) == Some(
                value_of(value),
            ),
            EditView::Insert { name, key, value } => value_in(end, name, key) == Some(
                value_of(value),
            ),
            _ => true,
        },
    ensures
        values_set(end, e),
{
    assert forall|b: Seq<char>, k: Seq<char>| (#[trigger] last_value(e, b, k)) is Some implies value_in(
        end,
        b,
        k,
    ) == Some(value_of(last_value(e, b, k)->0)) by {
        if touched(e.last()) != Gone::Binding(b) && touched(e.last()) != Gone::Key(b, k) {
            assert(last_value(e.drop_last(), b, k) == last_value(e, b, k));
            assert(value_in(here, b, k) is Some);
        }
    }
}

/// A plan carried out leaves the name, the package and every field of every
/// binding as they are to be.
proof fn lemma_all_written(
    doc: Seq<char>,
    end: Seq<char>,
    p: &Profile,
    shown: Seq<Vec<String>>,
    f: Seq<Seq<Field>>,
)
    requires
        p.bindings.wf(),
        f == profile_fields(p.bindings@, lists(shown)),
        shown.len() == p.bindings@.len(),
        values_set(
            end,
            planned(shape_in(doc), p.name@, p.package@, names_of(p.bindings@), f),
        ),
    ensures
        values_stand(end, names_of(p.bindings@), f),
        "name"@ != "package"@,
{
    reveal_strlit("name");
    reveal_strlit("package");
    assert("name"@.len() != "package"@.len());
    let names = names_of(p.bindings@);
    lemma_names_differ(p.bindings);
    assert forall|i: int, j: int| 0 <= i < names.len() && 0 <= j < f[i].len() implies value_in(
        end,
        names[i],
        #[trigger] f[i][j].0,
    ) == Some(value_of(f[i][j].1)) by {
        lemma_fields_differ(p.bindings@[i].1, crate::text::texts(shown[i]@));
        lemma_last_planned(shape_in(doc), p.name@, p.package@, names, f, i, j);
    }
}

/// A plan carried out keeps the remarks around whatever is still there.
proof fn lemma_all_kept(
    doc: Seq<char>,
    end: Seq<char>,
    text: Seq<char>,
    name: Seq<char>,
    package: Seq<char>,
    names: Seq<Seq<char>>,
    f: Seq<Seq<Field>>,
)
    requires
        names.no_duplicates(),
        names.len() == f.len(),
        keys_in(doc) == doc_of(rows_in(shape_in(doc))),
        keys_in(end) == wanted_doc(names, f),
        ({
            let e = planned(shape_in(doc), name, package, names, f);
            remarks_kept(doc, end, e, e.len() as int)
        }),
        forall|k: Seq<char>| holds(text, #[trigger] top_remarks(end, k)),
        forall|n: Seq<char>| holds(text, #[trigger] heading_remarks(end, n)),
        forall|n: Seq<char>, k: Seq<char>| holds(text, #[trigger] key_remarks(end, n, k)),
    ensures
        comments_stay(doc, end, text),
{
    let s0 = shape_in(doc);
    assert forall|n: Seq<char>| binding_stays(doc, end, n) implies holds(
        text,
        #[trigger] heading_remarks(doc, n),
    ) by {
        lemma_spared(s0, name, package, names, f, n, Seq::empty());
        assert(holds(text, heading_remarks(end, n)));
    }
    assert forall|n: Seq<char>, k: Seq<char>|
        binding_stays(doc, end, n) && keys_in(doc)[n]->0.contains(k) && keys_in(end)[n]->0.contains(
            k,
        ) implies holds(text, #[trigger] key_remarks(doc, n, k)) by {
        lemma_spared(s0, name, package, names, f, n, k);
        assert(holds(text, key_remarks(end, n, k)));
    }
    assert forall|k: Seq<char>| holds(text, #[trigger] top_remarks(doc, k)) by {
        assert(holds(text, top_remarks(end, k)));
    }
}

/// The names of bindings kept in order differ.
proof fn lemma_names_differ(b: crate::profile::Bindings)
    requires
        b.wf(),
    ensures
        names_of(b@).no_duplicates(),
{
    let names = names_of(b@);
    assert forall|i: int, j: int| 0 <= i < names.len() && 0 <= j < names.len() && i != j implies
        names[i] != names[j] by {
        assert(names[i] == b@[i].0@ && names[j] == b@[j].0@);
        crate::text::lemma_precedes_total(names[i], names[j]);
    }
}

proof fn lemma_applied_concat(d: Doc, a: Seq<EditView>, b: Seq<EditView>)
    ensures
        applied_all(d, a + b) == applied_all(applied_all(d, a), b),
        runs(d, a) && runs(applied_all(d, a), b) ==> runs(d, a + b),
    decreases b.len(),
{
    if b.len() == 0 {
        assert(a + b =~= a);
    } else {
        assert((a + b).drop_last() =~= a + b.drop_last());
        lemma_applied_concat(d, a, b.drop_last());
    }
}

proof fn lemma_applied_push(d: Doc, a: Seq<EditView>, e: EditView)
    ensures
        applied_all(d, a.push(e)) == applied(applied_all(d, a), e),
        runs(d, a.push(e)) == (runs(d, a) && ready(applied_all(d, a), e)),
{
    assert(a.push(e).drop_last() =~= a);
}

/// Where all changes find what they change, each does.
proof fn lemma_runs_at(d: Doc, e: Seq<EditView>, i: int)
    requires
        runs(d, e),
        0 <= i < e.len(),
    ensures
        ready(applied_all(d, e.take(i)), e[i]),
    decreases e.len(),
{
    if i == e.len() - 1 {
        assert(e.take(i) =~= e.drop_last());
    } else {
        lemma_runs_at(d, e.drop_last(), i);
        assert(e.drop_last().take(i) =~= e.take(i));
    }
}

/// A row that was found carries the name asked for.
proof fn lemma_row(t: Seq<Row>, n: Seq<char>, i: int)
    requires
        0 <= i,
    ensures
        match row_from(t, n, i) {
            Some(k) => i <= k < t.len() && t[k].0 == n,
            None => forall|k: int| i <= k < t.len() ==> (#[trigger] t[k]).0 != n,
        },
    decreases t.len() - i,
{
    if i < t.len() && t[i].0 != n {
        lemma_row(t, n, i + 1);
    }
}

proof fn lemma_drops(d: Doc, t: Seq<Row>, names: Seq<Seq<char>>, n: int)
    requires
        0 <= n <= t.len(),
    ensures
        runs(d, drops(t, names, n)),
        forall|x: Seq<char>| #[trigger]
            applied_all(d, drops(t, names, n)).contains_key(x) == (d.contains_key(x) && (
            names.contains(x) || forall|k: int| 0 <= k < n ==> (#[trigger] t[k]).0 != x)),
        forall|x: Seq<char>|
            d.contains_key(x) && names.contains(x) ==> #[trigger] applied_all(
                d,
                drops(t, names, n),
            )[x] == d[x],
        forall|k: int|
            0 <= k < drops(t, names, n).len() ==> to_bindings(#[trigger] drops(t, names, n)[k])
                && sound(drops(t, names, n)[k]),
    decreases n,
{
    if n > 0 {
        lemma_drops(d, t, names, n - 1);
        let before = applied_all(d, drops(t, names, n - 1));
        let after = applied_all(d, drops(t, names, n));
        if !names.contains(t[n - 1].0) {
            lemma_applied_push(
                d,
                drops(t, names, n - 1),
                EditView::DropBinding { name: t[n - 1].0 },
            );
        }
        assert forall|x: Seq<char>| #[trigger] after.contains_key(x) == (d.contains_key(x) && (
        names.contains(x) || forall|k: int| 0 <= k < n ==> (#[trigger] t[k]).0 != x)) by {
            assert(before.contains_key(x) == (d.contains_key(x) && (names.contains(x) || forall|
                k: int,
            |
                0 <= k < n - 1 ==> (#[trigger] t[k]).0 != x)));
        }
        assert forall|x: Seq<char>| d.contains_key(x) && names.contains(x) implies #[trigger] after[x]
            == d[x] by {
            assert(before[x] == d[x]);
        }
    }
}

/// One more element in view.
proof fn lemma_one_more(s: Seq<Seq<char>>, n: int, x: Seq<char>)
    requires
        0 < n <= s.len(),
    ensures
        s.take(n).contains(x) == (s.take(n - 1).contains(x) || x == s[n - 1]),
{
    let a = s.take(n - 1);
    let b = s.take(n);
    if b.contains(x) {
        let k = choose|k: int| 0 <= k < b.len() && b[k] == x;
        if k < n - 1 {
            assert(a[k] == x);
        }
    }
    if a.contains(x) {
        let k = choose|k: int| 0 <= k < a.len() && a[k] == x;
        assert(b[k] == x);
    }
    assert(b[n - 1] == s[n - 1]);
}

/// The values of fields can stand in a file.
pub open spec fn values_ok(f: Seq<Field>) -> bool {
    forall|j: int| 0 <= j < f.len() ==> is_value(#[trigger] f[j].1)
}

proof fn lemma_writes(
    d: Doc,
    name: Seq<char>,
    present: Seq<Seq<char>>,
    wanted: Seq<Field>,
    n: int,
)
    requires
        0 <= n <= wanted.len(),
        d.contains_key(name),
        d[name] == Some(present.to_set()),
        values_ok(wanted),
    ensures
        applied_all(d, writes(name, present, wanted, n)) == d.insert(
            name,
            Some(present.to_set() + keys_of(wanted).take(n).to_set()),
        ),
        runs(d, writes(name, present, wanted, n)),
        forall|k: int|
            0 <= k < writes(name, present, wanted, n).len() ==> to_bindings(
                #[trigger] writes(name, present, wanted, n)[k],
            ) && sound(writes(name, present, wanted, n)[k]),
    decreases n,
{
    let k = keys_of(wanted);
    let goal = d.insert(name, Some(present.to_set() + k.take(n).to_set()));
    if n == 0 {
        assert(k.take(0).to_set() =~= Set::<Seq<char>>::empty());
        assert(present.to_set() + k.take(0).to_set() =~= present.to_set());
        assert(goal =~= d);
    } else {
        lemma_writes(d, name, present, wanted, n - 1);
        let (key, value) = wanted[n - 1];
        assert(k[n - 1] == key);
        assert(is_value(wanted[n - 1].1));
        let e = if present.contains(key) {
            EditView::Replace { name, key, value }
        } else {
            EditView::Insert { name, key, value }
        };
        lemma_applied_push(d, writes(name, present, wanted, n - 1), e);
        let s0 = present.to_set() + k.take(n - 1).to_set();
        let s1 = present.to_set() + k.take(n).to_set();
        assert(s1 =~= s0.insert(key)) by {
            assert forall|x: Seq<char>| k.take(n).contains(x) == (k.take(n - 1).contains(x) || x
                == key) by {
                lemma_one_more(k, n, x);
            }
        }
        if present.contains(key) {
            assert(s0.insert(key) =~= s0);
            assert(s0.contains(key));
        }
        assert(applied_all(d, writes(name, present, wanted, n)) =~= goal);
    }
}

proof fn lemma_prunes(
    d: Doc,
    name: Seq<char>,
    present: Seq<Seq<char>>,
    wanted: Seq<Field>,
    n: int,
)
    requires
        0 <= n <= present.len(),
        d.contains_key(name),
        d[name] is Some,
    ensures
        runs(d, prunes(name, present, wanted, n)),
        ({
            let r = applied_all(d, prunes(name, present, wanted, n));
            &&& r == d.insert(name, r[name])
            &&& r[name] is Some
            &&& forall|x: Seq<char>| #[trigger]
                r[name]->0.contains(x) == (d[name]->0.contains(x) && (keys_of(wanted).contains(x)
                    || !present.take(n).contains(x)))
        }),
        forall|k: int|
            0 <= k < prunes(name, present, wanted, n).len() ==> to_bindings(
                #[trigger] prunes(name, present, wanted, n)[k],
            ) && sound(prunes(name, present, wanted, n)[k]),
    decreases n,
{
    let w = keys_of(wanted);
    let r = applied_all(d, prunes(name, present, wanted, n));
    if n == 0 {
        assert(d.insert(name, d[name]) =~= d);
        assert(present.take(0) =~= Seq::<Seq<char>>::empty());
    } else {
        lemma_prunes(d, name, present, wanted, n - 1);
        let r0 = applied_all(d, prunes(name, present, wanted, n - 1));
        let key = present[n - 1];
        if !w.contains(key) {
            lemma_applied_push(
                d,
                prunes(name, present, wanted, n - 1),
                EditView::DropKey { name, key },
            );
        }
        assert(r =~= d.insert(name, r[name]));
        assert forall|x: Seq<char>| #[trigger] r[name]->0.contains(x) == (d[name]->0.contains(x) && (
        w.contains(x) || !present.take(n).contains(x))) by {
            assert(r0[name]->0.contains(x) == (d[name]->0.contains(x) && (w.contains(x)
                || !present.take(n - 1).contains(x))));
            lemma_one_more(present, n, x);
        }
    }
}

proof fn lemma_anew(d: Doc, name: Seq<char>, wanted: Seq<Field>)
    requires
        values_ok(wanted),
    ensures
        applied_all(d, anew(name, wanted)) == d.insert(name, Some(keys_of(wanted).to_set())),
        runs(d, anew(name, wanted)),
        forall|k: int|
            0 <= k < anew(name, wanted).len() ==> to_bindings(#[trigger] anew(name, wanted)[k])
                && sound(anew(name, wanted)[k]),
{
    let e = EditView::NewTable { name };
    let none = Seq::<Seq<char>>::empty();
    let w = writes(name, none, wanted, wanted.len() as int);
    let k = keys_of(wanted);
    assert(seq![e] =~= Seq::<EditView>::empty().push(e));
    lemma_applied_push(d, Seq::empty(), e);
    let d1 = d.insert(name, Some(Set::<Seq<char>>::empty()));
    assert(none.to_set() =~= Set::<Seq<char>>::empty());
    lemma_writes(d1, name, none, wanted, wanted.len() as int);
    assert(k.take(wanted.len() as int) =~= k);
    assert(none.to_set() + k.to_set() =~= k.to_set());
    lemma_applied_concat(d, seq![e], w);
    assert(applied_all(d, anew(name, wanted)) =~= d.insert(name, Some(k.to_set())));
    assert forall|i: int| 0 <= i < anew(name, wanted).len() implies to_bindings(
        #[trigger] anew(name, wanted)[i],
    ) && sound(anew(name, wanted)[i]) by {
        if i > 0 {
            assert(anew(name, wanted)[i] == w[i - 1]);
        }
    }
}

proof fn lemma_merge(d: Doc, t: Seq<Row>, name: Seq<char>, wanted: Seq<Field>)
    requires
        values_ok(wanted),
        row_from(t, name, 0) is Some ==> d.contains_key(name) && d[name] == doc_of(t)[name],
    ensures
        applied_all(d, merge(t, name, wanted)) == d.insert(name, Some(keys_of(wanted).to_set())),
        runs(d, merge(t, name, wanted)),
        forall|k: int|
            0 <= k < merge(t, name, wanted).len() ==> to_bindings(
                #[trigger] merge(t, name, wanted)[k],
            ) && sound(merge(t, name, wanted)[k]),
{
    let k = keys_of(wanted);
    match row_from(t, name, 0) {
        Some(i) if t[i].1 is Some => {
            let present = t[i].1->0;
            assert(doc_of(t)[name] == Some(present.to_set()));
            let w = writes(name, present, wanted, wanted.len() as int);
            let p = prunes(name, present, wanted, present.len() as int);
            lemma_writes(d, name, present, wanted, wanted.len() as int);
            assert(k.take(wanted.len() as int) =~= k);
            let d1 = applied_all(d, w);
            lemma_prunes(d1, name, present, wanted, present.len() as int);
            assert(present.take(present.len() as int) =~= present);
            lemma_applied_concat(d, w, p);
            let r = applied_all(d1, p);
            assert(r[name]->0 =~= k.to_set());
            assert(r =~= d.insert(name, Some(k.to_set())));
            assert forall|m: int| 0 <= m < (w + p).len() implies to_bindings(#[trigger] (w + p)[m])
                && sound((w + p)[m]) by {
                if m < w.len() {
                    assert((w + p)[m] == w[m]);
                } else {
                    assert((w + p)[m] == p[m - w.len()]);
                }
            }
        },
        _ => {
            lemma_anew(d, name, wanted);
        },
    }
}

proof fn lemma_merges(d: Doc, t: Seq<Row>, names: Seq<Seq<char>>, fresh: Seq<Seq<Field>>, n: int)
    requires
        names.no_duplicates(),
        names.len() == fresh.len(),
        0 <= n <= names.len(),
        all_values(fresh),
        forall|x: Seq<char>| #[trigger]
            d.contains_key(x) == (doc_of(t).contains_key(x) && names.contains(x)),
        forall|x: Seq<char>| d.contains_key(x) ==> #[trigger] d[x] == doc_of(t)[x],
    ensures
        runs(d, merges(t, names, fresh, n)),
        ({
            let want = wanted_doc(names, fresh);
            let r = applied_all(d, merges(t, names, fresh, n));
            &&& forall|x: Seq<char>| #[trigger]
                r.contains_key(x) == (d.contains_key(x) || names.take(n).contains(x))
            &&& forall|x: Seq<char>|
                names.take(n).contains(x) ==> #[trigger] r[x] == want[x]
            &&& forall|x: Seq<char>|
                !names.take(n).contains(x) && d.contains_key(x) ==> #[trigger] r[x] == d[x]
        }),
        forall|k: int|
            0 <= k < merges(t, names, fresh, n).len() ==> to_bindings(
                #[trigger] merges(t, names, fresh, n)[k],
            ) && sound(merges(t, names, fresh, n)[k]),
    decreases n,
{
    let want = wanted_doc(names, fresh);
    let all = merges(t, names, fresh, n);
    let r = applied_all(d, all);
    if n == 0 {
        assert(names.take(0) =~= Seq::<Seq<char>>::empty());
    } else {
        lemma_merges(d, t, names, fresh, n - 1);
        let early = merges(t, names, fresh, n - 1);
        let r0 = applied_all(d, early);
        let x0 = names[n - 1];
        assert(names.contains(x0));
        assert(names.index_of(x0) == n - 1);
        assert(want[x0] == Some(keys_of(fresh[n - 1]).to_set()));
        assert(!names.take(n - 1).contains(x0)) by {
            let head = names.take(n - 1);
            if head.contains(x0) {
                let k = choose|k: int| 0 <= k < head.len() && head[k] == x0;
                assert(names[k] == names[n - 1]);
            }
        }
        lemma_row(t, x0, 0);
        if row_from(t, x0, 0) is Some {
            assert(d.contains_key(x0));
            assert(r0.contains_key(x0));
            assert(r0[x0] == d[x0]);
        }
        assert(values_ok(fresh[n - 1])) by {
            assert forall|j: int| 0 <= j < fresh[n - 1].len() implies is_value(
                #[trigger] fresh[n - 1][j].1,
            ) by {
                assert(is_value(fresh[n - 1][j].1));
            }
        }
        let last = merge(t, x0, fresh[n - 1]);
        lemma_merge(r0, t, x0, fresh[n - 1]);
        lemma_applied_concat(d, early, last);
        assert forall|x: Seq<char>| names.take(n).contains(x) == (names.take(n - 1).contains(x) || x
            == x0) by {
            lemma_one_more(names, n, x);
        }
        assert forall|k: int| 0 <= k < all.len() implies to_bindings(#[trigger] all[k]) && sound(
            all[k],
        ) by {
            if k < early.len() {
                assert(all[k] == early[k]);
            } else {
                assert(all[k] == last[k - early.len()]);
            }
        }
    }
}

proof fn lemma_head(d: Doc, e: Seq<EditView>)
    requires
        forall|k: int| 0 <= k < e.len() ==> !to_bindings(#[trigger] e[k]),
    ensures
        applied_all(d, e) == d,
        runs(d, e),
    decreases e.len(),
{
    if e.len() > 0 {
        assert(!to_bindings(e[e.len() - 1]));
        assert forall|k: int| 0 <= k < e.drop_last().len() implies !to_bindings(
            #[trigger] e.drop_last()[k],
        ) by {
            assert(!to_bindings(e[k]));
        }
        lemma_head(d, e.drop_last());
    }
}

/// What a plan does, and that it can be carried out.
proof fn lemma_planned(
    s: Option<Option<Seq<Row>>>,
    name: Seq<char>,
    package: Seq<char>,
    names: Seq<Seq<char>>,
    fresh: Seq<Seq<Field>>,
)
    requires
        names.no_duplicates(),
        names.len() == fresh.len(),
        all_values(fresh),
    ensures
        ({
            let e = planned(s, name, package, names, fresh);
            let d = doc_of(rows_in(s));
            &&& runs(d, e)
            &&& applied_all(d, e) == wanted_doc(names, fresh)
            &&& plan_ok(e, s is None)
        }),
{
    let t = rows_in(s);
    let want = wanted_doc(names, fresh);
    let d0 = doc_of(t);
    let head = heading(s is None, name, package);
    let dr = drops(t, names, t.len() as int);
    let me = merges(t, names, fresh, names.len() as int);
    let e = planned(s, name, package, names, fresh);
    lemma_head(d0, head);
    lemma_drops(d0, t, names, t.len() as int);
    lemma_applied_concat(d0, head, dr);
    let d1 = applied_all(d0, dr);
    assert forall|x: Seq<char>| #[trigger] d1.contains_key(x) == (d0.contains_key(x)
        && names.contains(x)) by {
        lemma_row(t, x, 0);
    }
    lemma_merges(d1, t, names, fresh, names.len() as int);
    lemma_applied_concat(d0, head + dr, me);
    let d2 = applied_all(d1, me);
    assert(names.take(names.len() as int) =~= names);
    assert(d2 =~= want);
    reveal_strlit("name");
    reveal_strlit("package");
    reveal_strlit("bindings");
    assert("name"@.len() != "bindings"@.len());
    assert("package"@.len() != "bindings"@.len());
    let h = head.len() as int;
    assert forall|k: int| 0 <= k < e.len() implies sound(#[trigger] e[k]) && (k >= h ==> to_bindings(
        e[k],
    )) by {
        if k < h {
            assert(e[k] == head[k]);
        } else if k < h + dr.len() {
            assert(e[k] == dr[k - h]);
        } else {
            assert(e[k] == me[k - h - dr.len()]);
        }
    }
    assert(e[0] == head[0] && e[1] == head[1]);
    if s is None {
        assert(e[2] == head[2]);
    }
}

proof fn lemma_last_concat(a: Seq<EditView>, b: Seq<EditView>, name: Seq<char>, key: Seq<char>)
    ensures
        last_value(b, name, key) is Some ==> last_value(a + b, name, key) == last_value(b, name, key),
        (forall|m: int|
            0 <= m < b.len() ==> touched(#[trigger] b[m]) != Gone::Binding(name) && touched(b[m])
                != Gone::Key(name, key)) ==> last_value(a + b, name, key) == last_value(a, name, key),
    decreases b.len(),
{
    if b.len() == 0 {
        assert(a + b =~= a);
    } else {
        lemma_last_concat(a, b.drop_last(), name, key);
        assert((a + b).drop_last() =~= a + b.drop_last());
        assert((a + b).last() == b.last());
        if forall|m: int|
            0 <= m < b.len() ==> touched(#[trigger] b[m]) != Gone::Binding(name) && touched(b[m])
                != Gone::Key(name, key) {
            assert(b[b.len() - 1] == b.last());
            assert forall|m: int| 0 <= m < b.drop_last().len() implies touched(
                #[trigger] b.drop_last()[m],
            ) != Gone::Binding(name) && touched(b.drop_last()[m]) != Gone::Key(name, key) by {
                assert(b.drop_last()[m] == b[m]);
            }
        }
    }
}

proof fn lemma_last_write(
    name: Seq<char>,
    present: Seq<Seq<char>>,
    wanted: Seq<Field>,
    n: int,
    j: int,
)
    requires
        0 <= j < n <= wanted.len(),
        keys_of(wanted).no_duplicates(),
    ensures
        last_value(writes(name, present, wanted, n), name, wanted[j].0) == Some(wanted[j].1),
    decreases n,
{
    let w = writes(name, present, wanted, n);
    assert(w.drop_last() =~= writes(name, present, wanted, n - 1));
    if j < n - 1 {
        lemma_last_write(name, present, wanted, n - 1, j);
        assert(keys_of(wanted)[j] != keys_of(wanted)[n - 1]);
    }
}

proof fn lemma_last_merge(t: Seq<Row>, name: Seq<char>, wanted: Seq<Field>, j: int)
    requires
        0 <= j < wanted.len(),
        keys_of(wanted).no_duplicates(),
    ensures
        last_value(merge(t, name, wanted), name, wanted[j].0) == Some(wanted[j].1),
{
    let key = wanted[j].0;
    let none = Seq::<Seq<char>>::empty();
    lemma_last_write(name, none, wanted, wanted.len() as int, j);
    lemma_last_concat(
        seq![EditView::NewTable { name }],
        writes(name, none, wanted, wanted.len() as int),
        name,
        key,
    );
    if row_from(t, name, 0) is Some && t[row_from(t, name, 0)->0].1 is Some {
        let present = t[row_from(t, name, 0)->0].1->0;
        let p = prunes(name, present, wanted, present.len() as int);
        lemma_last_write(name, present, wanted, wanted.len() as int, j);
        lemma_prune_entries(name, present, wanted, present.len() as int);
        assert(keys_of(wanted)[j] == key);
        lemma_last_concat(writes(name, present, wanted, wanted.len() as int), p, name, key);
    }
}

/// What becomes of one binding touches that binding only.
proof fn lemma_merge_touches(t: Seq<Row>, name: Seq<char>, wanted: Seq<Field>)
    ensures
        forall|m: int|
            0 <= m < merge(t, name, wanted).len() ==> (match touched(
                #[trigger] merge(t, name, wanted)[m],
            ) {
                Gone::Binding(n) => n == name,
                Gone::Key(n, _) => n == name,
                _ => false,
            }),
{
    let next = merge(t, name, wanted);
    let none = Seq::<Seq<char>>::empty();
    lemma_write_entries(name, none, wanted, wanted.len() as int);
    if row_from(t, name, 0) is Some && t[row_from(t, name, 0)->0].1 is Some {
        let present = t[row_from(t, name, 0)->0].1->0;
        let w = writes(name, present, wanted, wanted.len() as int);
        let p = prunes(name, present, wanted, present.len() as int);
        lemma_write_entries(name, present, wanted, wanted.len() as int);
        lemma_prune_entries(name, present, wanted, present.len() as int);
        assert forall|m: int| 0 <= m < next.len() implies (match touched(#[trigger] next[m]) {
            Gone::Binding(n) => n == name,
            Gone::Key(n, _) => n == name,
            _ => false,
        }) by {
            if m < w.len() {
                assert(next[m] == w[m]);
            } else {
                assert(next[m] == p[m - w.len()]);
            }
        }
    } else {
        let w = writes(name, none, wanted, wanted.len() as int);
        assert forall|m: int| 0 <= m < next.len() implies (match touched(#[trigger] next[m]) {
            Gone::Binding(n) => n == name,
            Gone::Key(n, _) => n == name,
            _ => false,
        }) by {
            if m > 0 {
                assert(next[m] == w[m - 1]);
            }
        }
    }
}

proof fn lemma_last_merges(
    t: Seq<Row>,
    names: Seq<Seq<char>>,
    fresh: Seq<Seq<Field>>,
    n: int,
    i: int,
    j: int,
)
    requires
        names.no_duplicates(),
        names.len() == fresh.len(),
        0 <= i < n <= names.len(),
        0 <= j < fresh[i].len(),
        keys_of(fresh[i]).no_duplicates(),
    ensures
        last_value(merges(t, names, fresh, n), names[i], fresh[i][j].0) == Some(fresh[i][j].1),
    decreases n,
{
    let a = merges(t, names, fresh, n - 1);
    let b = merge(t, names[n - 1], fresh[n - 1]);
    lemma_last_concat(a, b, names[i], fresh[i][j].0);
    if i == n - 1 {
        lemma_last_merge(t, names[i], fresh[i], j);
    } else {
        lemma_last_merges(t, names, fresh, n - 1, i, j);
        lemma_merge_touches(t, names[n - 1], fresh[n - 1]);
        assert(names[i] != names[n - 1]);
    }
}

/// A plan leaves every field of every binding with its value.
proof fn lemma_last_planned(
    s: Option<Option<Seq<Row>>>,
    name: Seq<char>,
    package: Seq<char>,
    names: Seq<Seq<char>>,
    fresh: Seq<Seq<Field>>,
    i: int,
    j: int,
)
    requires
        names.no_duplicates(),
        names.len() == fresh.len(),
        0 <= i < names.len(),
        0 <= j < fresh[i].len(),
        keys_of(fresh[i]).no_duplicates(),
    ensures
        last_value(planned(s, name, package, names, fresh), names[i], fresh[i][j].0) == Some(
            fresh[i][j].1,
        ),
{
    let t = rows_in(s);
    lemma_last_merges(t, names, fresh, names.len() as int, i, j);
    lemma_last_concat(
        heading(s is None, name, package) + drops(t, names, t.len() as int),
        merges(t, names, fresh, names.len() as int),
        names[i],
        fresh[i][j].0,
    );
}

/// No binding is written with one key twice.
proof fn lemma_fields_differ(b: Binding, n: Seq<Seq<char>>)
    ensures
        keys_of(fields_of(b, n)).no_duplicates(),
{
    let k = keys_of(fields_of(b, n));
    match b {
        Binding::Tap { .. } => {
            reveal_strlit("at");
            reveal_strlit("trigger");
            reveal_strlit("type");
            let w = seq!["type"@, "trigger"@, "at"@];
            assert(k =~= w);
            assert("type"@.len() != "trigger"@.len());
            assert("type"@.len() != "at"@.len());
            assert("trigger"@.len() != "at"@.len());
        },
        Binding::Toggle { .. } => {
            reveal_strlit("at");
            reveal_strlit("trigger");
            reveal_strlit("type");
            let w = seq!["type"@, "trigger"@, "at"@];
            assert(k =~= w);
            assert("type"@.len() != "trigger"@.len());
            assert("type"@.len() != "at"@.len());
            assert("trigger"@.len() != "at"@.len());
        },
        Binding::Joystick { .. } => {
            reveal_strlit("center");
            reveal_strlit("down");
            reveal_strlit("left");
            reveal_strlit("radius");
            reveal_strlit("right");
            reveal_strlit("type");
            reveal_strlit("up");
            let w = seq!["type"@, "up"@, "down"@, "left"@, "right"@, "center"@, "radius"@];
            assert(k =~= w);
            assert("type"@.len() != "up"@.len());
            assert("type"@[0] != "down"@[0]);
            assert("type"@[0] != "left"@[0]);
            assert("type"@.len() != "right"@.len());
            assert("type"@.len() != "center"@.len());
            assert("type"@.len() != "radius"@.len());
            assert("up"@.len() != "down"@.len());
            assert("up"@.len() != "left"@.len());
            assert("up"@.len() != "right"@.len());
            assert("up"@.len() != "center"@.len());
            assert("up"@.len() != "radius"@.len());
            assert("down"@[0] != "left"@[0]);
            assert("down"@.len() != "right"@.len());
            assert("down"@.len() != "center"@.len());
            assert("down"@.len() != "radius"@.len());
            assert("left"@.len() != "right"@.len());
            assert("left"@.len() != "center"@.len());
            assert("left"@.len() != "radius"@.len());
            assert("right"@.len() != "center"@.len());
            assert("right"@.len() != "radius"@.len());
            assert("center"@[0] != "radius"@[0]);
        },
        Binding::Aim { toggle, .. } => {
            if toggle is Some {
                reveal_strlit("deadzone");
                reveal_strlit("handoff");
                reveal_strlit("nonlinear");
                reveal_strlit("origin");
                reveal_strlit("recenter_margin");
                reveal_strlit("reset_delay_ms");
                reveal_strlit("safety_span");
                reveal_strlit("sensitivity");
                reveal_strlit("toggle");
                reveal_strlit("type");
                reveal_strlit("unbounded");
                let w = seq!["type"@, "toggle"@, "origin"@, "sensitivity"@, "deadzone"@, "recenter_margin"@, "handoff"@, "nonlinear"@, "reset_delay_ms"@, "unbounded"@, "safety_span"@];
                assert(k =~= w);
                assert("type"@.len() != "toggle"@.len());
                assert("type"@.len() != "origin"@.len());
                assert("type"@.len() != "sensitivity"@.len());
                assert("type"@.len() != "deadzone"@.len());
                assert("type"@.len() != "recenter_margin"@.len());
                assert("type"@.len() != "handoff"@.len());
                assert("type"@.len() != "nonlinear"@.len());
                assert("type"@.len() != "reset_delay_ms"@.len());
                assert("type"@.len() != "unbounded"@.len());
                assert("type"@.len() != "safety_span"@.len());
                assert("toggle"@[0] != "origin"@[0]);
                assert("toggle"@.len() != "sensitivity"@.len());
                assert("toggle"@.len() != "deadzone"@.len());
                assert("toggle"@.len() != "recenter_margin"@.len());
                assert("toggle"@.len() != "handoff"@.len());
                assert("toggle"@.len() != "nonlinear"@.len());
                assert("toggle"@.len() != "reset_delay_ms"@.len());
                assert("toggle"@.len() != "unbounded"@.len());
                assert("toggle"@.len() != "safety_span"@.len());
                assert("origin"@.len() != "sensitivity"@.len());
                assert("origin"@.len() != "deadzone"@.len());
                assert("origin"@.len() != "recenter_margin"@.len());
                assert("origin"@.len() != "handoff"@.len());
                assert("origin"@.len() != "nonlinear"@.len());
                assert("origin"@.len() != "reset_delay_ms"@.len());
                assert("origin"@.len() != "unbounded"@.len());
                assert("origin"@.len() != "safety_span"@.len());
                assert("sensitivity"@.len() != "deadzone"@.len());
                assert("sensitivity"@.len() != "recenter_margin"@.len());
                assert("sensitivity"@.len() != "handoff"@.len());
                assert("sensitivity"@.len() != "nonlinear"@.len());
                assert("sensitivity"@.len() != "reset_delay_ms"@.len());
                assert("sensitivity"@.len() != "unbounded"@.len());
                assert("sensitivity"@[1] != "safety_span"@[1]);
                assert("deadzone"@.len() != "recenter_margin"@.len());
                assert("deadzone"@.len() != "handoff"@.len());
                assert("deadzone"@.len() != "nonlinear"@.len());
                assert("deadzone"@.len() != "reset_delay_ms"@.len());
                assert("deadzone"@.len() != "unbounded"@.len());
                assert("deadzone"@.len() != "safety_span"@.len());
                assert("recenter_margin"@.len() != "handoff"@.len());
                assert("recenter_margin"@.len() != "nonlinear"@.len());
                assert("recenter_margin"@.len() != "reset_delay_ms"@.len());
                assert("recenter_margin"@.len() != "unbounded"@.len());
                assert("recenter_margin"@.len() != "safety_span"@.len());
                assert("handoff"@.len() != "nonlinear"@.len());
                assert("handoff"@.len() != "reset_delay_ms"@.len());
                assert("handoff"@.len() != "unbounded"@.len());
                assert("handoff"@.len() != "safety_span"@.len());
                assert("nonlinear"@.len() != "reset_delay_ms"@.len());
                assert("nonlinear"@[0] != "unbounded"@[0]);
                assert("nonlinear"@.len() != "safety_span"@.len());
                assert("reset_delay_ms"@.len() != "unbounded"@.len());
                assert("reset_delay_ms"@.len() != "safety_span"@.len());
                assert("unbounded"@.len() != "safety_span"@.len());
            } else {
                reveal_strlit("deadzone");
                reveal_strlit("handoff");
                reveal_strlit("nonlinear");
                reveal_strlit("origin");
                reveal_strlit("recenter_margin");
                reveal_strlit("reset_delay_ms");
                reveal_strlit("safety_span");
                reveal_strlit("sensitivity");
                reveal_strlit("type");
                reveal_strlit("unbounded");
                let w = seq!["type"@, "origin"@, "sensitivity"@, "deadzone"@, "recenter_margin"@, "handoff"@, "nonlinear"@, "reset_delay_ms"@, "unbounded"@, "safety_span"@];
                assert(k =~= w);
                assert("type"@.len() != "origin"@.len());
                assert("type"@.len() != "sensitivity"@.len());
                assert("type"@.len() != "deadzone"@.len());
                assert("type"@.len() != "recenter_margin"@.len());
                assert("type"@.len() != "handoff"@.len());
                assert("type"@.len() != "nonlinear"@.len());
                assert("type"@.len() != "reset_delay_ms"@.len());
                assert("type"@.len() != "unbounded"@.len());
                assert("type"@.len() != "safety_span"@.len());
                assert("origin"@.len() != "sensitivity"@.len());
                assert("origin"@.len() != "deadzone"@.len());
                assert("origin"@.len() != "recenter_margin"@.len());
                assert("origin"@.len() != "handoff"@.len());
                assert("origin"@.len() != "nonlinear"@.len());
                assert("origin"@.len() != "reset_delay_ms"@.len());
                assert("origin"@.len() != "unbounded"@.len());
                assert("origin"@.len() != "safety_span"@.len());
                assert("sensitivity"@.len() != "deadzone"@.len());
                assert("sensitivity"@.len() != "recenter_margin"@.len());
                assert("sensitivity"@.len() != "handoff"@.len());
                assert("sensitivity"@.len() != "nonlinear"@.len());
                assert("sensitivity"@.len() != "reset_delay_ms"@.len());
                assert("sensitivity"@.len() != "unbounded"@.len());
                assert("sensitivity"@[1] != "safety_span"@[1]);
                assert("deadzone"@.len() != "recenter_margin"@.len());
                assert("deadzone"@.len() != "handoff"@.len());
                assert("deadzone"@.len() != "nonlinear"@.len());
                assert("deadzone"@.len() != "reset_delay_ms"@.len());
                assert("deadzone"@.len() != "unbounded"@.len());
                assert("deadzone"@.len() != "safety_span"@.len());
                assert("recenter_margin"@.len() != "handoff"@.len());
                assert("recenter_margin"@.len() != "nonlinear"@.len());
                assert("recenter_margin"@.len() != "reset_delay_ms"@.len());
                assert("recenter_margin"@.len() != "unbounded"@.len());
                assert("recenter_margin"@.len() != "safety_span"@.len());
                assert("handoff"@.len() != "nonlinear"@.len());
                assert("handoff"@.len() != "reset_delay_ms"@.len());
                assert("handoff"@.len() != "unbounded"@.len());
                assert("handoff"@.len() != "safety_span"@.len());
                assert("nonlinear"@.len() != "reset_delay_ms"@.len());
                assert("nonlinear"@[0] != "unbounded"@[0]);
                assert("nonlinear"@.len() != "safety_span"@.len());
                assert("reset_delay_ms"@.len() != "unbounded"@.len());
                assert("reset_delay_ms"@.len() != "safety_span"@.len());
                assert("unbounded"@.len() != "safety_span"@.len());
            }
        },
        Binding::Swipe { group, .. } => {
            if group is Some {
                reveal_strlit("duration_ms");
                reveal_strlit("easing");
                reveal_strlit("from");
                reveal_strlit("group");
                reveal_strlit("to");
                reveal_strlit("trigger");
                reveal_strlit("type");
                let w = seq!["type"@, "trigger"@, "from"@, "to"@, "duration_ms"@, "group"@, "easing"@];
                assert(k =~= w);
                assert("type"@.len() != "trigger"@.len());
                assert("type"@[0] != "from"@[0]);
                assert("type"@.len() != "to"@.len());
                assert("type"@.len() != "duration_ms"@.len());
                assert("type"@.len() != "group"@.len());
                assert("type"@.len() != "easing"@.len());
                assert("trigger"@.len() != "from"@.len());
                assert("trigger"@.len() != "to"@.len());
                assert("trigger"@.len() != "duration_ms"@.len());
                assert("trigger"@.len() != "group"@.len());
                assert("trigger"@.len() != "easing"@.len());
                assert("from"@.len() != "to"@.len());
                assert("from"@.len() != "duration_ms"@.len());
                assert("from"@.len() != "group"@.len());
                assert("from"@.len() != "easing"@.len());
                assert("to"@.len() != "duration_ms"@.len());
                assert("to"@.len() != "group"@.len());
                assert("to"@.len() != "easing"@.len());
                assert("duration_ms"@.len() != "group"@.len());
                assert("duration_ms"@.len() != "easing"@.len());
                assert("group"@.len() != "easing"@.len());
            } else {
                reveal_strlit("duration_ms");
                reveal_strlit("easing");
                reveal_strlit("from");
                reveal_strlit("to");
                reveal_strlit("trigger");
                reveal_strlit("type");
                let w = seq!["type"@, "trigger"@, "from"@, "to"@, "duration_ms"@, "easing"@];
                assert(k =~= w);
                assert("type"@.len() != "trigger"@.len());
                assert("type"@[0] != "from"@[0]);
                assert("type"@.len() != "to"@.len());
                assert("type"@.len() != "duration_ms"@.len());
                assert("type"@.len() != "easing"@.len());
                assert("trigger"@.len() != "from"@.len());
                assert("trigger"@.len() != "to"@.len());
                assert("trigger"@.len() != "duration_ms"@.len());
                assert("trigger"@.len() != "easing"@.len());
                assert("from"@.len() != "to"@.len());
                assert("from"@.len() != "duration_ms"@.len());
                assert("from"@.len() != "easing"@.len());
                assert("to"@.len() != "duration_ms"@.len());
                assert("to"@.len() != "easing"@.len());
                assert("duration_ms"@.len() != "easing"@.len());
            }
        },
    }
}

/// A save spares the remarks of every binding that was a table and stays, and of
/// each of its keys that stays.
proof fn lemma_spared(
    s: Option<Option<Seq<Row>>>,
    name: Seq<char>,
    package: Seq<char>,
    names: Seq<Seq<char>>,
    fresh: Seq<Seq<Field>>,
    n: Seq<char>,
    k: Seq<char>,
)
    requires
        names.no_duplicates(),
        names.len() == fresh.len(),
        doc_of(rows_in(s)).contains_key(n),
        doc_of(rows_in(s))[n] is Some,
        names.contains(n),
    ensures
        ({
            let e = planned(s, name, package, names, fresh);
            &&& spared(e, e.len() as int, Gone::Binding(n))
            &&& doc_of(rows_in(s))[n]->0.contains(k) && wanted_doc(names, fresh)[n]->0.contains(k)
                ==> spared(e, e.len() as int, Gone::Key(n, k))
        }),
{
    let t = rows_in(s);
    let head = heading(s is None, name, package);
    let gone = drops(t, names, t.len() as int);
    let rest = merges(t, names, fresh, names.len() as int);
    let e = planned(s, name, package, names, fresh);
    let kept = doc_of(t)[n]->0.contains(k) && wanted_doc(names, fresh)[n]->0.contains(k);
    lemma_drop_entries(t, names, t.len() as int);
    lemma_merge_entries(t, names, fresh, names.len() as int, n, k);
    assert forall|m: int| 0 <= m < e.len() implies lost(#[trigger] e[m]) != Gone::Binding(n) && (kept
        ==> lost(e[m]) != Gone::Key(n, k)) by {
        if m < head.len() {
            assert(e[m] == head[m]);
        } else if m < head.len() + gone.len() {
            assert(e[m] == gone[m - head.len()]);
        } else {
            assert(e[m] == rest[m - head.len() - gone.len()]);
        }
    }
}

proof fn lemma_drop_entries(t: Seq<Row>, wanted: Seq<Seq<char>>, n: int)
    requires
        n <= t.len(),
    ensures
        forall|k: int|
            0 <= k < drops(t, wanted, n).len() ==> (#[trigger] drops(t, wanted, n)[k]) is DropBinding
                && !wanted.contains(drops(t, wanted, n)[k]->DropBinding_name),
    decreases n,
{
    if n > 0 {
        lemma_drop_entries(t, wanted, n - 1);
    }
}

proof fn lemma_merge_entries(
    t: Seq<Row>,
    names: Seq<Seq<char>>,
    fresh: Seq<Seq<Field>>,
    j: int,
    n: Seq<char>,
    k: Seq<char>,
)
    requires
        names.no_duplicates(),
        names.len() == fresh.len(),
        0 <= j <= names.len(),
        doc_of(t).contains_key(n),
        doc_of(t)[n] is Some,
        names.contains(n),
    ensures
        forall|m: int|
            0 <= m < merges(t, names, fresh, j).len() ==> lost(
                #[trigger] merges(t, names, fresh, j)[m],
            ) != Gone::Binding(n) && (doc_of(t)[n]->0.contains(k) && wanted_doc(
                names,
                fresh,
            )[n]->0.contains(k) ==> lost(merges(t, names, fresh, j)[m]) != Gone::Key(n, k)),
    decreases j,
{
    if j > 0 {
        lemma_merge_entries(t, names, fresh, j - 1, n, k);
        let before = merges(t, names, fresh, j - 1);
        let all = merges(t, names, fresh, j);
        let name = names[j - 1];
        let wanted = fresh[j - 1];
        let next = merge(t, name, wanted);
        lemma_row(t, name, 0);
        let none = Seq::<Seq<char>>::empty();
        lemma_write_entries(name, none, wanted, wanted.len() as int);
        if row_from(t, name, 0) is Some && t[row_from(t, name, 0)->0].1 is Some {
            let present = t[row_from(t, name, 0)->0].1->0;
            let w = writes(name, present, wanted, wanted.len() as int);
            let p = prunes(name, present, wanted, present.len() as int);
            lemma_write_entries(name, present, wanted, wanted.len() as int);
            lemma_prune_entries(name, present, wanted, present.len() as int);
            assert(name == n ==> names.index_of(n) == j - 1);
            assert(name == n ==> doc_of(t)[n]->0 == present.to_set());
            assert forall|m: int| 0 <= m < next.len() implies lost(#[trigger] next[m])
                != Gone::Binding(n) && (doc_of(t)[n]->0.contains(k) && wanted_doc(
                names,
                fresh,
            )[n]->0.contains(k) ==> lost(next[m]) != Gone::Key(n, k)) by {
                if m < w.len() {
                    assert(next[m] == w[m]);
                } else {
                    assert(next[m] == p[m - w.len()]);
                }
                if name == n {
                    assert(wanted_doc(names, fresh)[n]->0 == keys_of(wanted).to_set());
                }
            }
        } else {
            assert(name != n);
            let w = writes(name, none, wanted, wanted.len() as int);
            assert forall|m: int| 0 <= m < next.len() implies lost(#[trigger] next[m])
                != Gone::Binding(n) && lost(next[m]) != Gone::Key(n, k) by {
                if m > 0 {
                    assert(next[m] == w[m - 1]);
                }
            }
        }
        assert forall|m: int| 0 <= m < all.len() implies lost(#[trigger] all[m]) != Gone::Binding(n)
            && (doc_of(t)[n]->0.contains(k) && wanted_doc(names, fresh)[n]->0.contains(k) ==> lost(
            all[m],
        ) != Gone::Key(n, k)) by {
            if m < before.len() {
                assert(all[m] == before[m]);
            } else {
                assert(all[m] == next[m - before.len()]);
            }
        }
    }
}

// ---------------------------------------------------------------- laws

/// A save leaves exactly the bindings of the profile in the file, each with
/// exactly the keys it is written with: removed bindings leave the file, and
/// when a binding changes its type the keys of the old type go.
pub proof fn law_a_save_leaves_what_the_profile_says(
    s: Option<Option<Seq<Row>>>,
    name: Seq<char>,
    package: Seq<char>,
    names: Seq<Seq<char>>,
    fresh: Seq<Seq<Field>>,
)
    requires
        names.no_duplicates(),
        names.len() == fresh.len(),
        all_values(fresh),
    ensures
        applied_all(doc_of(rows_in(s)), planned(s, name, package, names, fresh)) == wanted_doc(
            names,
            fresh,
        ),
{
    lemma_planned(s, name, package, names, fresh);
}

/// A key that stays is replaced where it stands, never dropped.
pub proof fn law_a_key_that_stays_is_replaced_in_place(
    t: Seq<Row>,
    name: Seq<char>,
    wanted: Seq<Field>,
    i: int,
    present: Seq<Seq<char>>,
    j: int,
)
    requires
        row_from(t, name, 0) == Some(i),
        t[i].1 == Some(present),
        0 <= j < wanted.len(),
        present.contains(wanted[j].0),
    ensures
        merge(t, name, wanted).contains(
            EditView::Replace { name, key: wanted[j].0, value: wanted[j].1 },
        ),
        !merge(t, name, wanted).contains(EditView::DropKey { name, key: wanted[j].0 }),
        !merge(t, name, wanted).contains(EditView::NewTable { name }),
{
    let key = wanted[j].0;
    let w = writes(name, present, wanted, wanted.len() as int);
    let p = prunes(name, present, wanted, present.len() as int);
    lemma_write_entries(name, present, wanted, wanted.len() as int);
    lemma_prune_entries(name, present, wanted, present.len() as int);
    assert(keys_of(wanted)[j] == key);
    assert((w + p)[j] == w[j]);
    assert forall|m: int| 0 <= m < (w + p).len() implies (w + p)[m] != (EditView::DropKey {
        name,
        key,
    }) && (w + p)[m] != (EditView::NewTable { name }) by {
        if m < w.len() {
            assert((w + p)[m] == w[m]);
        } else {
            assert((w + p)[m] == p[m - w.len()]);
        }
    }
}

proof fn lemma_write_entries(
    name: Seq<char>,
    present: Seq<Seq<char>>,
    wanted: Seq<Field>,
    n: int,
)
    requires
        0 <= n <= wanted.len(),
    ensures
        writes(name, present, wanted, n).len() == n,
        forall|k: int|
            0 <= k < n ==> #[trigger] writes(name, present, wanted, n)[k] == if present.contains(
                wanted[k].0,
            ) {
                EditView::Replace { name, key: wanted[k].0, value: wanted[k].1 }
            } else {
                EditView::Insert { name, key: wanted[k].0, value: wanted[k].1 }
            },
    decreases n,
{
    if n > 0 {
        lemma_write_entries(name, present, wanted, n - 1);
    }
}

proof fn lemma_prune_entries(
    name: Seq<char>,
    present: Seq<Seq<char>>,
    wanted: Seq<Field>,
    n: int,
)
    ensures
        forall|k: int|
            0 <= k < prunes(name, present, wanted, n).len() ==> (#[trigger] prunes(
                name,
                present,
                wanted,
                n,
            )[k]) is DropKey && prunes(name, present, wanted, n)[k]->DropKey_name == name
                && !keys_of(wanted).contains(prunes(name, present, wanted, n)[k]->DropKey_key),
    decreases n,
{
    if n > 0 {
        lemma_prune_entries(name, present, wanted, n - 1);
    }
}

/// A binding is written with this under this key.
pub open spec fn writes_down(f: Seq<Field>, key: Seq<char>, value: Seq<char>) -> bool {
    exists|i: int| 0 <= i < f.len() && #[trigger] f[i] == (key, value)
}

/// A point as it is written: its `x` first, its `y` second.
pub open spec fn point_text(x: Seq<char>, y: Seq<char>) -> Seq<char> {
    "{ x = "@ + x + ", y = "@ + y + " }"@
}

/// Where each figure of a binding is found in the list of its figures.
pub proof fn law_every_figure_of_a_binding_is_listed(b: Binding)
    ensures
        match b {
            Binding::Tap { at, .. } | Binding::Toggle { at, .. } => numbers_of(b).len() == 2
                && numbers_of(b)[0] == at.x && numbers_of(b)[1] == at.y,
            Binding::Joystick { center, radius, .. } => numbers_of(b).len() == 3 && numbers_of(b)[0]
                == center.x && numbers_of(b)[1] == center.y && numbers_of(b)[2] == radius,
            Binding::Aim { origin, sensitivity, deadzone, recenter_margin, safety_span, .. } =>
            numbers_of(b).len() == 6 && numbers_of(b)[0] == origin.x && numbers_of(b)[1] == origin.y
                && numbers_of(b)[2] == sensitivity && numbers_of(b)[3] == deadzone && numbers_of(
                b,
            )[4] == recenter_margin && numbers_of(b)[5] == safety_span,
            Binding::Swipe { from, to, .. } => numbers_of(b).len() == 4 && numbers_of(b)[0]
                == from.x && numbers_of(b)[1] == from.y && numbers_of(b)[2] == to.x && numbers_of(
                b,
            )[3] == to.y,
        },
{
}

/// Every part of a binding is written under its own name, its figures as the texts that
/// stand for them; what it does not have is left out, and there is nothing else.
pub proof fn law_a_binding_is_written_as_it_is(b: Binding, n: Seq<Seq<char>>)
    requires
        n.len() == numbers_of(b).len(),
    ensures
        ({
            let f = fields_of(b, n);
            match b {
                Binding::Tap { trigger, .. } => {
                    &&& f.len() == 3
                    &&& writes_down(f, "type"@, "\"tap\""@)
                    &&& writes_down(f, "trigger"@, trigger_value(trigger))
                    &&& writes_down(f, "at"@, point_text(n[0], n[1]))
                },
                Binding::Toggle { trigger, .. } => {
                    &&& f.len() == 3
                    &&& writes_down(f, "type"@, "\"toggle\""@)
                    &&& writes_down(f, "trigger"@, trigger_value(trigger))
                    &&& writes_down(f, "at"@, point_text(n[0], n[1]))
                },
                Binding::Joystick { up, down, left, right, .. } => {
                    &&& f.len() == 7
                    &&& writes_down(f, "type"@, "\"joystick\""@)
                    &&& writes_down(f, "up"@, trigger_value(up))
                    &&& writes_down(f, "down"@, trigger_value(down))
                    &&& writes_down(f, "left"@, trigger_value(left))
                    &&& writes_down(f, "right"@, trigger_value(right))
                    &&& writes_down(f, "center"@, point_text(n[0], n[1]))
                    &&& writes_down(f, "radius"@, n[2])
                },
                Binding::Aim { toggle, handoff, nonlinear, reset_delay_ms, unbounded, .. } => {
                    &&& f.len() == 10 + if toggle is Some {
                        1int
                    } else {
                        0
                    }
                    &&& writes_down(f, "type"@, "\"aim\""@)
                    &&& toggle matches Some(t) ==> writes_down(f, "toggle"@, trigger_value(t))
                    &&& writes_down(f, "origin"@, point_text(n[0], n[1]))
                    &&& writes_down(f, "sensitivity"@, n[2])
                    &&& writes_down(f, "deadzone"@, n[3])
                    &&& writes_down(f, "recenter_margin"@, n[4])
                    &&& writes_down(
                        f,
                        "handoff"@,
                        if handoff {
                            "true"@
                        } else {
                            "false"@
                        },
                    )
                    &&& writes_down(
                        f,
                        "nonlinear"@,
                        if nonlinear {
                            "true"@
                        } else {
                            "false"@
                        },
                    )
                    &&& writes_down(
                        f,
                        "reset_delay_ms"@,
                        crate::text::decimal(reset_delay_ms as nat),
                    )
                    &&& writes_down(
                        f,
                        "unbounded"@,
                        if unbounded {
                            "true"@
                        } else {
                            "false"@
                        },
                    )
                    &&& writes_down(f, "safety_span"@, n[5])
                },
                Binding::Swipe { trigger, duration_ms, group, easing, .. } => {
                    &&& f.len() == 6 + if group is Some {
                        1int
                    } else {
                        0
                    }
                    &&& writes_down(f, "type"@, "\"swipe\""@)
                    &&& writes_down(f, "trigger"@, trigger_value(trigger))
                    &&& writes_down(f, "from"@, point_text(n[0], n[1]))
                    &&& writes_down(f, "to"@, point_text(n[2], n[3]))
                    &&& writes_down(f, "duration_ms"@, crate::text::decimal(duration_ms as nat))
                    &&& group matches Some(g) ==> writes_down(f, "group"@, quoted(g@))
                    &&& writes_down(f, "easing"@, easing_value(easing))
                },
            }
        }),
{
    let f = fields_of(b, n);
    match b {
        Binding::Tap { trigger, .. } => {
            assert(f[0].0 == "type"@ && f[1].0 == "trigger"@ && f[2].0 == "at"@);
        },
        Binding::Toggle { trigger, .. } => {
            assert(f[0].0 == "type"@ && f[1].0 == "trigger"@ && f[2].0 == "at"@);
        },
        Binding::Joystick { up, down, left, right, .. } => {
            assert(f[0].0 == "type"@ && f[1].0 == "up"@ && f[2].0 == "down"@ && f[3].0 == "left"@
                && f[4].0 == "right"@ && f[5].0 == "center"@ && f[6].0 == "radius"@);
        },
        Binding::Aim { toggle, handoff, nonlinear, reset_delay_ms, unbounded, .. } => {
            let k: int = if toggle is Some {
                2
            } else {
                1
            };
            assert(f[0].0 == "type"@);
            if toggle is Some {
                assert(f[1].0 == "toggle"@);
            }
            assert(f[k].0 == "origin"@ && f[k + 1].0 == "sensitivity"@ && f[k + 2].0 == "deadzone"@
                && f[k + 3].0 == "recenter_margin"@ && f[k + 4].0 == "handoff"@ && f[k + 5].0
                == "nonlinear"@ && f[k + 6].0 == "reset_delay_ms"@ && f[k + 7].0 == "unbounded"@
                && f[k + 8].0 == "safety_span"@);
        },
        Binding::Swipe { trigger, duration_ms, group, easing, .. } => {
            assert(f[0].0 == "type"@ && f[1].0 == "trigger"@ && f[2].0 == "from"@ && f[3].0 == "to"@
                && f[4].0 == "duration_ms"@);
            if group is Some {
                assert(f[5].0 == "group"@ && f[6].0 == "easing"@);
            } else {
                assert(f[5].0 == "easing"@);
            }
        },
    }
}

/// What presses a binding is written such that it can be told from anything else that
/// could: two triggers are written alike exactly if they are one.
pub proof fn law_triggers_are_told_apart(a: Trigger, b: Trigger)
    ensures
        trigger_value(a) == trigger_value(b) <==> a == b,
{
    reveal_strlit("{ Key = ");
    reveal_strlit(" }");
    reveal_strlit("\"MouseLeft\"");
    reveal_strlit("\"MouseRight\"");
    reveal_strlit("\"MouseMiddle\"");
    reveal_strlit("\"WheelUp\"");
    reveal_strlit("\"WheelDown\"");
    let x = trigger_value(a);
    let y = trigger_value(b);
    assert("\"MouseLeft\""@.len() == 11 && "\"MouseRight\""@.len() == 12 && "\"MouseMiddle\""@.len()
        == 13 && "\"WheelUp\""@.len() == 9 && "\"WheelDown\""@.len() == 11);
    assert("\"MouseLeft\""@[1] == 'M' && "\"WheelDown\""@[1] == 'W');
    assert("\"MouseLeft\""@[0] == '"' && "\"MouseRight\""@[0] == '"' && "\"MouseMiddle\""@[0] == '"'
        && "\"WheelUp\""@[0] == '"' && "\"WheelDown\""@[0] == '"');
    if a is Key {
        assert(x[0] == '{');
    }
    if b is Key {
        assert(y[0] == '{');
    }
    if a is Key && b is Key {
        let m = a->Key_0;
        let k = b->Key_0;
        let c = crate::text::decimal(m as nat);
        let d = crate::text::decimal(k as nat);
        if x == y {
            assert(x.len() == 8 + c.len() + 2 && y.len() == 8 + d.len() + 2);
            assert(x.subrange(8, 8 + c.len() as int) =~= c);
            assert(y.subrange(8, 8 + d.len() as int) =~= d);
            crate::text::law_a_number_reads_back(m as nat);
            crate::text::law_a_number_reads_back(k as nat);
        }
    }
}

/// The ways in which a swipe slows down are told apart, and so is on from off.
pub proof fn law_choices_are_told_apart(a: Easing, b: Easing, on: bool, other: bool)
    ensures
        easing_value(a) == easing_value(b) <==> a == b,
        switch_value(on) == switch_value(other) <==> on == other,
{
    reveal_strlit("\"linear\"");
    reveal_strlit("\"ease_out\"");
    reveal_strlit("\"ease_out_strong\"");
    reveal_strlit("true");
    reveal_strlit("false");
    assert("\"linear\""@.len() == 8 && "\"ease_out\""@.len() == 10 && "\"ease_out_strong\""@.len()
        == 17 && "true"@.len() == 4 && "false"@.len() == 5);
}

/// A binding is dropped from a file exactly if it stands there and the profile no longer
/// has it.
pub proof fn law_only_what_left_the_profile_is_dropped(
    t: Seq<Row>,
    wanted: Seq<Seq<char>>,
    n: int,
    name: Seq<char>,
)
    requires
        0 <= n <= t.len(),
    ensures
        drops(t, wanted, n).contains(EditView::DropBinding { name }) <==> !wanted.contains(name)
            && t.take(n).map_values(|r: Row| r.0).contains(name),
    decreases n,
{
    let names = t.take(n).map_values(|r: Row| r.0);
    let e = EditView::DropBinding { name };
    if n > 0 {
        law_only_what_left_the_profile_is_dropped(t, wanted, n - 1, name);
        let before = t.take(n - 1).map_values(|r: Row| r.0);
        let less = drops(t, wanted, n - 1);
        assert(names =~= before.push(t[n - 1].0));
        if before.contains(name) {
            let i = choose|i: int| 0 <= i < before.len() && before[i] == name;
            assert(names[i] == name);
        }
        assert(names[n - 1] == t[n - 1].0);
        if names.contains(name) && t[n - 1].0 != name {
            let i = choose|i: int| 0 <= i < names.len() && names[i] == name;
            assert(before[i] == name);
        }
        let last = EditView::DropBinding { name: t[n - 1].0 };
        let more = less.push(last);
        assert(more[less.len() as int] == last);
        if less.contains(e) {
            let i = choose|i: int| 0 <= i < less.len() && less[i] == e;
            assert(more[i] == e);
        }
        if more.contains(e) && last != e {
            let i = choose|i: int| 0 <= i < more.len() && more[i] == e;
            assert(less[i] == e);
        }
    } else {
        assert(names =~= Seq::<Seq<char>>::empty());
    }
}

} // verus!
