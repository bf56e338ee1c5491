//! JSON documents as plain values, and the calls into `serde_json` that read and print them.

use vstd::prelude::*;

verus! {

/// A JSON document.
pub enum Json {
    Null,
    Bool(bool),
    Number(serde_json::Number),
    Str(String),
    Array(Vec<Json>),
    Object(Vec<(String, Json)>),
}

/// What a JSON document says: texts as sequences of characters, lists as sequences.
pub enum JsonView {
    Null,
    Bool(bool),
    Number(serde_json::Number),
    Str(Seq<char>),
    Array(Seq<JsonView>),
    Object(Seq<(Seq<char>, JsonView)>),
}

/// A number of a JSON document, carried through as it was read.
#[verifier::external_type_specification]
#[verifier::external_body]
pub struct ExNumber(serde_json::Number);

/// A document as `serde_json` holds it.
#[verifier::external_type_specification]
#[verifier::external_body]
pub struct ExValue(serde_json::Value);

/// Why `serde_json` refused a text.
#[verifier::external_type_specification]
#[verifier::external_body]
pub struct ExError(serde_json::Error);

/// What a `serde_json::Value` holds, member by member.
pub uninterp spec fn value_json(v: serde_json::Value) -> JsonView;

/// What `serde_json::from_str` reads from a text: nothing where it refuses the text.
pub uninterp spec fn parsed_json(text: Seq<char>) -> Option<JsonView>;

/// The `serde_json::Value` with the members of a document.
pub uninterp spec fn json_value(j: JsonView) -> serde_json::Value;

/// The compact text in which `serde_json` displays a `serde_json::Value`.
pub uninterp spec fn value_text(v: serde_json::Value) -> Seq<char>;

/// The compact text in which `serde_json` displays a document.
pub open spec fn json_text(j: JsonView) -> Seq<char> {
    value_text(json_value(j))
}

/// Whether a character stands for itself in the text of a JSON string: it is no control
/// character, no quotation mark and no backslash.
pub open spec fn is_plain(c: char) -> bool {
    c >= ' ' && c != '"' && c != '\\'
}

/// `serde_json::from_str::<serde_json::Value>`: the document that a text holds. The contract
/// claims that the outcome depends on the text alone; which document a text holds is not
/// said here.
#[verifier::external_body]
fn parse_value(text: &str) -> (r: Result<serde_json::Value, serde_json::Error>)
    ensures
        match r {
            Ok(v) => parsed_json(text@) == Some(value_json(v)),
            Err(_) => parsed_json(text@) is None,
        },
{
    serde_json::from_str::<serde_json::Value>(text)
}

/// Moves the members of a `serde_json::Value` into a [`Json`], variant by variant.
#[verifier::external_body]
fn to_json(v: serde_json::Value) -> (r: Json)
    ensures
        r@ == value_json(v),
{
    match v {
        serde_json::Value::Null => Json::Null,
        serde_json::Value::Bool(b) => Json::Bool(b),
        serde_json::Value::Number(n) => Json::Number(n),
        serde_json::Value::String(s) => Json::Str(s),
        serde_json::Value::Array(items) => Json::Array(items.into_iter().map(to_json).collect()),
        serde_json::Value::Object(fields) => {
            Json::Object(fields.into_iter().map(|(k, f)| (k, to_json(f))).collect())
        },
    }
}

/// Copies a [`Json`] into a `serde_json::Value`, variant by variant. The contract claims
/// that the outcome depends on what the document says alone, and that a string stays that
/// string. An object of `serde_json` keeps its fields ordered by name and one of each name;
/// that is left unsaid.
#[verifier::external_body]
fn to_value(j: &Json) -> (r: serde_json::Value)
    ensures
        r == json_value(j@),
        j@ is Str ==> value_json(r) == j@,
{
    match j {
        Json::Null => serde_json::Value::Null,
        Json::Bool(b) => serde_json::Value::Bool(*b),
        Json::Number(n) => serde_json::Value::Number(n.clone()),
        Json::Str(s) => serde_json::Value::String(s.clone()),
        Json::Array(items) => serde_json::Value::Array(items.iter().map(to_value).collect()),
        Json::Object(fields) => {
            serde_json::Value::Object(fields.iter().map(|f| (f.0.clone(), to_value(&f.1))).collect())
        },
    }
}

/// The display of a `serde_json::Value`: its compact text. The contract claims that the text
/// depends on the value alone, and that of a string whose characters all stand for
/// themselves it is that string between quotation marks.
#[verifier::external_body]
fn display_value(v: &serde_json::Value) -> (r: String)
    ensures
        r@ == value_text(*v),
        value_json(*v) matches JsonView::Str(s) ==> (forall|i: int|
            0 <= i < s.len() ==> is_plain(#[trigger] s[i])) ==> r@ == seq!['"'] + s + seq!['"'],
{
    v.to_string()
}

/// The document that a text holds: nothing where the text is no JSON.
pub fn parse(text: &str) -> (r: Option<Json>)
    ensures
        match r {
            Some(j) => parsed_json(text@) == Some(j@),
            None => parsed_json(text@) is None,
        },
{
    match parse_value(text) {
        Ok(v) => Some(to_json(v)),
        Err(_) => None,
    }
}

/// The value of the first field of `fields` with a given name.
pub open spec fn first_field(fields: Seq<(Seq<char>, JsonView)>, key: Seq<char>) -> Option<JsonView>
    decreases fields.len(),
{
    if fields.len() == 0 {
        None
    } else if fields[0].0 == key {
        Some(fields[0].1)
    } else {
        first_field(fields.drop_first(), key)
    }
}

/// The value of a field of a document: nothing where the document is no object or has no
/// such field.
pub open spec fn field_of(j: JsonView, key: Seq<char>) -> Option<JsonView> {
    match j {
        JsonView::Object(fields) => first_field(fields, key),
        _ => None,
    }
}

/// The text of a string document, the empty text for every other one.
pub open spec fn text_or_empty(j: Option<JsonView>) -> Seq<char> {
    match j {
        Some(JsonView::Str(s)) => s,
        _ => Seq::empty(),
    }
}

/// The members of an array, none for every other document.
pub open spec fn items_of(j: JsonView) -> Seq<JsonView> {
    match j {
        JsonView::Array(items) => items,
        _ => Seq::empty(),
    }
}

/// The fields of an object, none for every other document.
pub open spec fn fields_of(j: Option<JsonView>) -> Seq<(Seq<char>, JsonView)> {
    match j {
        Some(JsonView::Object(fields)) => fields,
        _ => Seq::empty(),
    }
}

/// The value of a field, as a view.
pub open spec fn opt_view(j: Option<&Json>) -> Option<JsonView> {
    match j {
        Some(x) => Some(x@),
        None => None,
    }
}

/// The text of a string document, the empty text for every other one and where there is none.
pub fn str_or_empty(j: Option<&Json>) -> (r: String)
    ensures
        r@ == text_or_empty(opt_view(j)),
{
    match j {
        Some(Json::Str(s)) => s.clone(),
        _ => String::new(),
    }
}

impl Json {
    /// What the document says.
    pub open spec fn view(&self) -> JsonView
        decreases self,
    {
        match *self {
            Json::Null => JsonView::Null,
            Json::Bool(b) => JsonView::Bool(b),
            Json::Number(n) => JsonView::Number(n),
            Json::Str(s) => JsonView::Str(s@),
            Json::Array(items) => JsonView::Array(
                Seq::new(
                    items@.len(),
                    |i: int|
                        if 0 <= i < items@.len() {
                            items@[i].view()
                        } else {
                            JsonView::Null
                        },
                ),
            ),
            Json::Object(fields) => JsonView::Object(
                Seq::new(
                    fields@.len(),
                    |i: int|
                        if 0 <= i < fields@.len() {
                            (fields@[i].0@, fields@[i].1.view())
                        } else {
                            (Seq::empty(), JsonView::Null)
                        },
                ),
            ),
        }
    }
    /// The compact text of the document.
    pub fn render(&self) -> (r: String)
        ensures
            r@ == json_text(self@),
            self@ matches JsonView::Str(s) ==> (forall|i: int|
                0 <= i < s.len() ==> is_plain(#[trigger] s[i])) ==> r@ == seq!['"'] + s + seq!['"'],
    {
        let v = to_value(self);
        display_value(&v)
    }

    /// The value of a field: nothing where the document is no object or has no such field.
    pub fn field(&self, key: &str) -> (r: Option<&Json>)
        ensures
            opt_view(r) == field_of(self@, key@),
    {
        match self {
            Json::Object(fields) => {
                let ghost all = self@->Object_0;
                let mut i: usize = 0;
                proof {
                    assert(all.skip(0) =~= all);
                }
                while i < fields.len()
                    invariant
                        i <= fields@.len(),
                        self@ == JsonView::Object(all),
                        all.len() == fields@.len(),
                        forall|k: int|
                            0 <= k < all.len() ==> #[trigger] all[k] == (
                                fields@[k].0@,
                                fields@[k].1@,
                            ),
                        first_field(all, key@) == first_field(all.skip(i as int), key@),
                    decreases fields@.len() - i,
                {
                    proof {
                        assert(all.skip(i as int)[0] == all[i as int]);
                        assert(all.skip(i as int).drop_first() =~= all.skip(i + 1));
                    }
                    if *fields[i].0.as_str() == *key {
                        return Some(&fields[i].1);
                    }
                    i += 1;
                }
                None
            },
            _ => None,
        }
    }
}

} // verus!
