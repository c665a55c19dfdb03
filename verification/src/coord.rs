//! Changing one coordinate of a profile file by hand.
//!
//! The file is edited in place, as in saving a whole profile: people read and
//! edit profiles by hand, and writing them anew would strip their comments.

use vstd::prelude::*;
use vstd::string::*;

verus! {

/// Whether a binding of a document has a field; nothing where there is no such
/// binding.
pub uninterp spec fn spot_in(doc: Seq<char>, binding: Seq<char>, field: Seq<char>) -> Option<bool>;

/// `Item::get`: whether a binding has a field, where there is such a binding.
#[verifier::external_body]
fn spot(d: &toml_edit::DocumentMut, binding: &str, field: &str) -> (r: Option<bool>)
    ensures
        r == spot_in(crate::render::document(*d), binding@, field@),
{
    d.get("bindings").and_then(|t| t.get(binding)).map(|b| b.get(field).is_some())
}

/// Why a coordinate cannot be changed.
#[derive(Debug)]
pub enum CoordFlaw {
    /// The file is no TOML.
    Unreadable(String),
    NoBinding,
    NoField,
    /// The coordinates are no numbers.
    NotAValue,
}

/// The same, over plain text.
pub enum FlawView {
    Unreadable(Seq<char>),
    NoBinding,
    NoField,
    NotAValue,
}

impl View for CoordFlaw {
    type V = FlawView;

    open spec fn view(&self) -> FlawView {
        match self {
            CoordFlaw::Unreadable(m) => FlawView::Unreadable(m@),
            CoordFlaw::NoBinding => FlawView::NoBinding,
            CoordFlaw::NoField => FlawView::NoField,
            CoordFlaw::NotAValue => FlawView::NotAValue,
        }
    }
}

impl CoordFlaw {
    pub open spec fn text(self, path: Seq<char>, binding: Seq<char>, field: Seq<char>) -> Seq<char> {
        match self {
            CoordFlaw::Unreadable(m) => "could not parse TOML: "@ + path + ": "@ + m@,
            CoordFlaw::NoBinding => "no binding named '"@ + binding + "'"@,
            CoordFlaw::NoField => "binding '"@ + binding + "' has no field '"@ + field + "'"@,
            CoordFlaw::NotAValue => "not a coordinate"@,
        }
    }

    /// What the user is told.
    pub fn message(&self, path: &str, binding: &str, field: &str) -> (r: String)
        ensures
            r@ == self.text(path@, binding@, field@),
    {
        match self {
            CoordFlaw::Unreadable(m) => crate::say::cat4(
                "could not parse TOML: ",
                path,
                ": ",
                m.as_str(),
            ),
            CoordFlaw::NoBinding => crate::say::cat3("no binding named '", binding, "'"),
            CoordFlaw::NoField => crate::say::cat5(
                "binding '",
                binding,
                "' has no field '",
                field,
                "'",
            ),
            CoordFlaw::NotAValue => "not a coordinate".to_owned(),
        }
    }
}

/// What stands in the way of a change, given what the document has and whether
/// the new value is one.
pub open spec fn obstacle_spec(spot: Option<bool>, sound: bool) -> Option<FlawView> {
    match spot {
        None => Some(FlawView::NoBinding),
        Some(false) => Some(FlawView::NoField),
        Some(true) => if sound {
            None
        } else {
            Some(FlawView::NotAValue)
        },
    }
}

/// What stands in the way of a change, given what the document has and whether
/// the new value is one.
pub fn obstacle(spot: Option<bool>, sound: bool) -> (r: Option<CoordFlaw>)
    ensures
        match r {
            Some(f) => obstacle_spec(spot, sound) == Some(f@),
            None => obstacle_spec(spot, sound) is None,
        },
{
    match spot {
        None => Some(CoordFlaw::NoBinding),
        Some(false) => Some(CoordFlaw::NoField),
        Some(true) => if sound {
            None
        } else {
            Some(CoordFlaw::NotAValue)
        },
    }
}

/// Changes a binding's coordinate in the text of a profile file. `x` and `y` are
/// the new coordinates as they are written. Nothing is added: a binding or a
/// field that is not there is an error. Every comment stays.
pub fn set_coord(text: &str, binding: &str, field: &str, x: &str, y: &str) -> (r: Result<
    String,
    CoordFlaw,
>)
    ensures
        ({
            let start = crate::render::opened(Some(text@));
            let doc = start->Ok_0;
            let value = crate::render::norm_value(x@, y@);
            let bad = obstacle_spec(spot_in(doc, binding@, field@), crate::render::is_value(value));
            match r {
                Ok(t) => start is Ok && bad is None && t@ == crate::render::printed(
                    crate::render::with_value(doc, binding@, field@, value),
                ) && crate::render::value_in(
                    crate::render::with_value(doc, binding@, field@, value),
                    binding@,
                    field@,
                ) == Some(crate::render::value_of(value)) && crate::render::all_comments_stay(doc, t@)
                    && crate::render::all_comments_stay(doc, crate::render::plain(text@)),
                Err(f) => if start is Err {
                    f@ == FlawView::Unreadable(start->Err_0)
                } else {
                    bad == Some(f@)
                },
            }
        }),
{
    let mut d: toml_edit::DocumentMut = match crate::render::open_document(Some(text)) {
        Ok(d) => d,
        Err(m) => {
            return Err(CoordFlaw::Unreadable(m));
        },
    };
    let value: String = crate::render::norm_text(x, y);
    let there: Option<bool> = spot(&d, binding, field);
    let sound: bool = crate::render::holds_value(value.as_str());
    if let Some(f) = obstacle(there, sound) {
        return Err(f);
    }
    let ghost doc = crate::render::document(d);
    crate::render::put_value(&mut d, binding, field, value.as_str());
    let out: String = crate::render::written(&d);
    proof {
        let end = crate::render::document(d);
        assert forall|k: Seq<char>|
            crate::render::holds(out@, #[trigger] crate::render::top_remarks(doc, k)) by {
            assert(crate::render::holds(out@, crate::render::top_remarks(end, k)));
        }
        assert forall|n: Seq<char>|
            crate::render::holds(out@, #[trigger] crate::render::heading_remarks(doc, n)) by {
            assert(crate::render::holds(out@, crate::render::heading_remarks(end, n)));
        }
        assert forall|n: Seq<char>, k: Seq<char>|
            crate::render::holds(out@, #[trigger] crate::render::key_remarks(doc, n, k)) by {
            assert(crate::render::holds(out@, crate::render::key_remarks(end, n, k)));
        }
    }
    Ok(out)
}

/// What is said of a changed coordinate.
pub open spec fn changed_lines(
    binding: Seq<char>,
    field: Seq<char>,
    x: Seq<char>,
    y: Seq<char>,
    path: Seq<char>,
) -> Seq<Seq<char>> {
    seq![
        binding + "."@ + field + " = ("@ + (x + ", "@ + y + ")"@),
        "dosya: "@ + path,
        ""@,
        "Restart the keymapper for the change to take effect:"@,
        "  liw keymap stop && liw keymap start --grab"@,
    ]
}

/// What is said of a changed coordinate, with the numbers as shown.
pub fn changed(binding: &str, field: &str, x: &str, y: &str, path: &str) -> (r: Vec<String>)
    ensures
        crate::text::texts(r@) == changed_lines(binding@, field@, x@, y@, path@),
{
    let mut out: Vec<String> = crate::say::page();
    let tail: String = crate::say::cat4(x, ", ", y, ")");
    crate::say::put(&mut out, crate::say::cat5(binding, ".", field, " = (", tail.as_str()));
    crate::say::put(&mut out, crate::say::cat2("dosya: ", path));
    crate::say::say(&mut out, "");
    crate::say::say(&mut out, "Restart the keymapper for the change to take effect:");
    crate::say::say(&mut out, "  liw keymap stop && liw keymap start --grab");
    assert(crate::text::texts(out@) =~= changed_lines(binding@, field@, x@, y@, path@));
    out
}

/// A coordinate is changed exactly where there is such a binding with such a field and
/// the new figures make a value; what is missing is named, the binding first.
pub proof fn law_a_coordinate_is_changed_where_it_stands(spot: Option<bool>, sound: bool)
    ensures
        obstacle_spec(spot, sound) is None <==> spot == Some(true) && sound,
        obstacle_spec(spot, sound) == Some(FlawView::NoBinding) <==> spot is None,
        obstacle_spec(spot, sound) == Some(FlawView::NoField) <==> spot == Some(false),
        obstacle_spec(spot, sound) == Some(FlawView::NotAValue) <==> spot == Some(true) && !sound,
{
}

/// The new coordinate has `x` first and `y` second, in the file and in what is said of
/// it; the file that changed is named.
pub proof fn law_what_changed_is_told(
    binding: Seq<char>,
    field: Seq<char>,
    x: Seq<char>,
    y: Seq<char>,
    path: Seq<char>,
)
    ensures
        crate::text::opens_with(crate::render::norm_value(x, y), "{ x = "@ + x),
        crate::text::closes_with(crate::render::norm_value(x, y), ", y = "@ + y + " }"@),
        crate::text::opens_with(
            changed_lines(binding, field, x, y, path)[0],
            binding + "."@ + field,
        ),
        crate::text::closes_with(
            changed_lines(binding, field, x, y, path)[0],
            "("@ + x + ", "@ + y + ")"@,
        ),
        crate::text::closes_with(changed_lines(binding, field, x, y, path)[1], path),
{
    let v = crate::render::norm_value(x, y);
    let a = "{ x = "@ + x;
    assert(v.subrange(0, a.len() as int) =~= a);
    let b = ", y = "@ + y + " }"@;
    let k = v.len() - b.len();
    assert(v.subrange(k, k + b.len()) =~= b);
    let l = changed_lines(binding, field, x, y, path)[0];
    let c = binding + "."@ + field;
    assert(l.subrange(0, c.len() as int) =~= c);
    let d = "("@ + x + ", "@ + y + ")"@;
    reveal_strlit(" = (");
    reveal_strlit("(");
    let m = l.len() - d.len();
    assert(l.subrange(m, m + d.len()) =~= d);
    let p = changed_lines(binding, field, x, y, path)[1];
    let q = p.len() - path.len();
    assert(p.subrange(q, q + path.len()) =~= path);
}

} // verus!
