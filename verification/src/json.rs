//! A JSON value, as the answers are built of it.

use crate::text;
use vstd::prelude::*;

verus! {

/// A JSON value. A fractional number is carried as the bits of the `double`
/// that it is, and is not computed with here.
#[derive(Debug, PartialEq, Eq)]
pub enum Json {
    Null,
    Bool(bool),
    Int(u64),
    Real(u64),
    Text(String),
    List(Vec<Json>),
    Object(Vec<(String, Json)>),
}

/// A JSON value, its strings as characters and its lists as sequences.
pub enum JsonView {
    Null,
    Bool(bool),
    Int(int),
    Real(u64),
    Text(Seq<char>),
    List(Seq<JsonView>),
    Object(Seq<(Seq<char>, JsonView)>),
}

impl Json {
    /// What this value holds.
    pub open spec fn shown(self) -> JsonView
        decreases self,
    {
        match self {
            Json::Null => JsonView::Null,
            Json::Bool(b) => JsonView::Bool(b),
            Json::Int(n) => JsonView::Int(n as int),
            Json::Real(bits) => JsonView::Real(bits),
            Json::Text(s) => JsonView::Text(s@),
            Json::List(items) => JsonView::List(
                Seq::new(
                    items@.len(),
                    |i: int|
                        if 0 <= i < items@.len() {
                            items@[i].shown()
                        } else {
                            JsonView::Null
                        },
                ),
            ),
            Json::Object(fields) => JsonView::Object(
                Seq::new(
                    fields@.len(),
                    |i: int|
                        if 0 <= i < fields@.len() {
                            (fields@[i].0@, fields@[i].1.shown())
                        } else {
                            (seq![], JsonView::Null)
                        },
                ),
            ),
        }
    }
}

impl View for Json {
    type V = JsonView;

    open spec fn view(&self) -> JsonView {
        self.shown()
    }
}

/// The values in a list, as views.
pub open spec fn items(list: Seq<Json>) -> Seq<JsonView> {
    list.map_values(|j: Json| j@)
}

/// The fields of an object, as views.
pub open spec fn fields(list: Seq<(String, Json)>) -> Seq<(Seq<char>, JsonView)> {
    list.map_values(|f: (String, Json)| (f.0@, f.1@))
}

/// The absent value.
pub fn null() -> (j: Json)
    ensures
        j@ == JsonView::Null,
{
    Json::Null
}

/// A truth value.
pub fn boolean(b: bool) -> (j: Json)
    ensures
        j@ == JsonView::Bool(b),
{
    Json::Bool(b)
}

/// A count of things.
pub fn count(n: usize) -> (j: Json)
    ensures
        j@ == JsonView::Int(n as int),
{
    Json::Int(n as u64)
}

/// A fractional number, by the bits of its `double`.
pub fn double(bits: u64) -> (j: Json)
    ensures
        j@ == JsonView::Real(bits),
{
    Json::Real(bits)
}

/// A string.
pub fn text(s: &str) -> (j: Json)
    ensures
        j@ == JsonView::Text(s@),
{
    Json::Text(s.to_owned())
}

/// A string, or nothing.
pub open spec fn text_or_null(s: Option<Seq<char>>) -> JsonView {
    match s {
        Some(s) => JsonView::Text(s),
        None => JsonView::Null,
    }
}

/// A string, or nothing.
pub fn optional_text(s: &Option<String>) -> (j: Json)
    ensures
        j@ == text_or_null(text::view_of(*s)),
{
    match s {
        Some(s) => text(s.as_str()),
        None => null(),
    }
}

/// A list of values.
pub fn list(v: Vec<Json>) -> (j: Json)
    ensures
        j@ == JsonView::List(items(v@)),
{
    let j = Json::List(v);
    assert(j@->List_0 =~= items(v@));
    j
}

/// A list under construction, with no value yet.
pub fn no_items() -> (v: Vec<Json>)
    ensures
        items(v@) == Seq::<JsonView>::empty(),
{
    let v: Vec<Json> = Vec::new();
    assert(items(v@) =~= Seq::<JsonView>::empty());
    v
}

/// Adds a value to a list under construction.
pub fn add_item(v: &mut Vec<Json>, value: Json)
    ensures
        items(final(v)@) == items(old(v)@).push(value@),
{
    v.push(value);
    assert(items(v@) =~= items(old(v)@).push(value@));
}

/// An object of fields, in order.
pub fn object(v: Vec<(String, Json)>) -> (j: Json)
    ensures
        j@ == JsonView::Object(fields(v@)),
{
    let j = Json::Object(v);
    assert(j@->Object_0 =~= fields(v@));
    j
}

/// An object under construction, with no field yet.
pub fn no_fields() -> (v: Vec<(String, Json)>)
    ensures
        fields(v@) == Seq::<(Seq<char>, JsonView)>::empty(),
{
    let v: Vec<(String, Json)> = Vec::new();
    assert(fields(v@) =~= Seq::<(Seq<char>, JsonView)>::empty());
    v
}

/// Adds a field to an object under construction.
pub fn put(v: &mut Vec<(String, Json)>, key: &str, value: Json)
    ensures
        fields(final(v)@) == fields(old(v)@).push((key@, value@)),
{
    v.push((key.to_owned(), value));
    assert(fields(v@) =~= fields(old(v)@).push((key@, value@)));
}

/// The value of the first field of that name.
pub open spec fn field(list: Seq<(Seq<char>, JsonView)>, key: Seq<char>) -> Option<JsonView>
    decreases list.len(),
{
    if list.len() == 0 {
        None
    } else if list[0].0 == key {
        Some(list[0].1)
    } else {
        field(list.drop_first(), key)
    }
}

impl Json {
    /// The value of the first field of that name, in an object that has one.
    pub fn get(&self, key: &str) -> (r: Option<&Json>)
        ensures
            self@ !is Object ==> r is None,
            self@ matches JsonView::Object(list) ==> match r {
                Some(j) => field(list, key@) == Some(j@),
                None => field(list, key@) is None,
            },
    {
        match self {
            Json::Object(v) => {
                let ghost whole = fields(v@);
                assert(self@->Object_0 =~= whole);
                let mut i: usize = 0;
                assert(whole.skip(0) =~= whole);
                while i < v.len()
                    invariant
                        i <= v.len(),
                        whole == fields(v@),
                        self@ == JsonView::Object(whole),
                        field(whole, key@) == field(whole.skip(i as int), key@),
                    decreases v.len() - i,
                {
                    assert(whole.skip(i as int)[0] == (v@[i as int].0@, v@[i as int].1@));
                    if text::same(v[i].0.as_str(), key) {
                        return Some(&v[i].1);
                    }
                    assert(whole.skip(i as int).drop_first() =~= whole.skip(i + 1));
                    i = i + 1;
                }
                None
            },
            _ => None,
        }
    }
}

/// A field is found at its place where none before it has its name.
pub proof fn lemma_field_at(list: Seq<(Seq<char>, JsonView)>, i: int)
    requires
        0 <= i < list.len(),
        forall|j: int| 0 <= j < i ==> (#[trigger] list[j]).0 != list[i].0,
    ensures
        field(list, list[i].0) == Some(list[i].1),
    decreases list.len(),
{
    if i > 0 {
        let rest = list.drop_first();
        assert(list[0].0 != list[i].0);
        assert forall|j: int| 0 <= j < i - 1 implies (#[trigger] rest[j]).0 != rest[i - 1].0 by {
            assert(rest[j] == list[j + 1]);
        }
        lemma_field_at(rest, i - 1);
    }
}

/// A field that no pair has the name of is not found.
pub proof fn law_a_missing_field_is_not_found(list: Seq<(Seq<char>, JsonView)>, key: Seq<char>)
    ensures
        field(list, key) is None <==> forall|j: int|
            0 <= j < list.len() ==> (#[trigger] list[j]).0 != key,
    decreases list.len(),
{
    if list.len() > 0 {
        let rest = list.drop_first();
        law_a_missing_field_is_not_found(rest, key);
        if list[0].0 != key {
            if forall|j: int| 0 <= j < rest.len() ==> (#[trigger] rest[j]).0 != key {
                assert forall|j: int| 0 <= j < list.len() implies (#[trigger] list[j]).0 != key by {
                    if j > 0 {
                        assert(list[j] == rest[j - 1]);
                    }
                }
            } else {
                let j = choose|j: int| 0 <= j < rest.len() && (#[trigger] rest[j]).0 == key;
                assert(list[j + 1].0 == key);
            }
        }
    }
}

/// A value holds what it was made of.
pub proof fn law_a_value_holds_what_it_was_made_of(
    b: bool,
    n: u64,
    s: String,
    list: Vec<Json>,
    object: Vec<(String, Json)>,
)
    ensures
        Json::Null@ == JsonView::Null,
        Json::Bool(b)@ == JsonView::Bool(b),
        Json::Int(n)@ == JsonView::Int(n as int),
        Json::Real(n)@ == JsonView::Real(n),
        Json::Text(s)@ == JsonView::Text(s@),
        Json::List(list)@ == JsonView::List(list@.map_values(|j: Json| j@)),
        Json::Object(object)@ == JsonView::Object(
            object@.map_values(|f: (String, Json)| (f.0@, f.1@)),
        ),
{
    assert(Json::List(list)@->List_0 =~= list@.map_values(|j: Json| j@));
    assert(Json::Object(object)@->Object_0 =~= object@.map_values(
        |f: (String, Json)| (f.0@, f.1@),
    ));
}

} // verus!
