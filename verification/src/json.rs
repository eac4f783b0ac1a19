//! JSON documents as plain values.

use crate::text::same;
use vstd::prelude::*;

verus! {

/// A JSON value. An object keeps each of its fields once.
#[derive(Debug, Eq, PartialEq)]
pub enum Json {
    Null,
    Bool(bool),
    /// A number, as it is written.
    Number(String),
    Text(String),
    List(Vec<Json>),
    Object(Vec<(String, Json)>),
}

/// What a JSON value holds.
pub enum JsonView {
    Null,
    Bool(bool),
    Number(Seq<char>),
    Text(Seq<char>),
    List(Seq<JsonView>),
    Object(Seq<(Seq<char>, JsonView)>),
}

/// What a JSON value holds.
pub open spec fn json_view(value: Json) -> JsonView
    decreases value,
{
    match value {
        Json::Null => JsonView::Null,
        Json::Bool(flag) => JsonView::Bool(flag),
        Json::Number(number) => JsonView::Number(number@),
        Json::Text(text) => JsonView::Text(text@),
        Json::List(items) => JsonView::List(list_view(items@)),
        Json::Object(fields) => JsonView::Object(fields_view(fields@)),
    }
}

/// What a list of JSON values holds.
pub open spec fn list_view(items: Seq<Json>) -> Seq<JsonView>
    decreases items,
{
    if items.len() == 0 {
        Seq::empty()
    } else {
        seq![json_view(items[0])] + list_view(items.subrange(1, items.len() as int))
    }
}

/// What the fields of an object hold.
pub open spec fn fields_view(fields: Seq<(String, Json)>) -> Seq<(Seq<char>, JsonView)>
    decreases fields,
{
    if fields.len() == 0 {
        Seq::empty()
    } else {
        seq![(fields[0].0@, json_view(fields[0].1))] + fields_view(
            fields.subrange(1, fields.len() as int),
        )
    }
}

impl View for Json {
    type V = JsonView;

    open spec fn view(&self) -> JsonView {
        json_view(*self)
    }
}

pub proof fn lemma_list_view(items: Seq<Json>)
    ensures
        list_view(items) == Seq::new(items.len(), |i: int| json_view(items[i])),
    decreases items.len(),
{
    if items.len() > 0 {
        let rest = items.subrange(1, items.len() as int);
        lemma_list_view(rest);
        assert(list_view(items) =~= Seq::new(items.len(), |i: int| json_view(items[i])));
    } else {
        assert(list_view(items) =~= Seq::new(items.len(), |i: int| json_view(items[i])));
    }
}

pub proof fn lemma_fields_view(fields: Seq<(String, Json)>)
    ensures
        fields_view(fields) == Seq::new(
            fields.len(),
            |i: int| (fields[i].0@, json_view(fields[i].1)),
        ),
    decreases fields.len(),
{
    if fields.len() > 0 {
        let rest = fields.subrange(1, fields.len() as int);
        lemma_fields_view(rest);
    }
    assert(fields_view(fields) =~= Seq::new(
        fields.len(),
        |i: int| (fields[i].0@, json_view(fields[i].1)),
    ));
}

/// The place of a field, or the number of fields where there is none of that name.
pub open spec fn field_place(fields: Seq<(Seq<char>, JsonView)>, key: Seq<char>) -> int
    decreases fields.len(),
{
    if fields.len() == 0 || fields[0].0 == key {
        0
    } else {
        1 + field_place(fields.drop_first(), key)
    }
}

proof fn lemma_field_place(fields: Seq<(Seq<char>, JsonView)>, key: Seq<char>)
    ensures
        0 <= field_place(fields, key) <= fields.len(),
        field_place(fields, key) < fields.len() ==> fields[field_place(fields, key)].0 == key,
        forall|i: int| 0 <= i < field_place(fields, key) ==> (#[trigger] fields[i]).0 != key,
    decreases fields.len(),
{
    if fields.len() > 0 && fields[0].0 != key {
        lemma_field_place(fields.drop_first(), key);
        assert forall|i: int| 0 <= i < field_place(fields, key) implies (#[trigger] fields[i]).0
            != key by {
            if i > 0 {
                assert(fields.drop_first()[i - 1] == fields[i]);
            }
        }
    }
}

/// The fields of an object, and none of anything else.
pub open spec fn fields_of(value: JsonView) -> Seq<(Seq<char>, JsonView)> {
    match value {
        JsonView::Object(fields) => fields,
        _ => Seq::empty(),
    }
}

/// A field of an object.
pub open spec fn field(value: JsonView, key: Seq<char>) -> Option<JsonView> {
    let fields = fields_of(value);
    let at = field_place(fields, key);
    if at < fields.len() {
        Some(fields[at].1)
    } else {
        None
    }
}

/// A field of a field.
pub open spec fn nested(value: JsonView, section: Seq<char>, key: Seq<char>) -> Option<JsonView> {
    match field(value, section) {
        Some(inner) => field(inner, key),
        None => None,
    }
}

/// The text that a value is.
pub open spec fn text_in(value: Option<JsonView>) -> Option<Seq<char>> {
    match value {
        Some(JsonView::Text(text)) => Some(text),
        _ => None,
    }
}

/// The truth value that a value is.
pub open spec fn flag_in(value: Option<JsonView>) -> Option<bool> {
    match value {
        Some(JsonView::Bool(flag)) => Some(flag),
        _ => None,
    }
}

/// The list that a value is.
pub open spec fn list_in(value: Option<JsonView>) -> Option<Seq<JsonView>> {
    match value {
        Some(JsonView::List(items)) => Some(items),
        _ => None,
    }
}

/// The fields with one of them set.
pub open spec fn with_field(
    fields: Seq<(Seq<char>, JsonView)>,
    key: Seq<char>,
    value: JsonView,
) -> Seq<(Seq<char>, JsonView)> {
    let at = field_place(fields, key);
    if at < fields.len() {
        fields.update(at, (key, value))
    } else {
        fields.push((key, value))
    }
}

/// A field that was set has its value, and every other field keeps its own.
pub proof fn law_set_fields_are_found(
    fields: Seq<(Seq<char>, JsonView)>,
    key: Seq<char>,
    value: JsonView,
    other: Seq<char>,
)
    ensures
        field(JsonView::Object(with_field(fields, key, value)), other) == (if other == key {
            Some(value)
        } else {
            field(JsonView::Object(fields), other)
        }),
    decreases fields.len(),
{
    let after = with_field(fields, key, value);
    lemma_field_place(fields, key);
    lemma_field_place(fields, other);
    lemma_field_place(after, other);
    let at = field_place(fields, key);
    let there = field_place(after, other);
    let before = field_place(fields, other);
    if other == key {
        if at < fields.len() {
            assert(after[at].0 == key);
            assert(there <= at);
            if there < at {
                assert(after[there].0 == fields[there].0);
            }
        } else {
            assert(after[at].0 == key);
            if there < at {
                assert(after[there].0 == fields[there].0);
            }
        }
    } else {
        if before < fields.len() {
            assert(after[before] == fields[before]);
            if there < before {
                assert(after[there].0 == fields[there].0 || after[there].0 == key);
            }
        } else if there < after.len() {
            assert(after[there].0 == key || (there < fields.len() && fields[there].0 == other));
            if there < fields.len() {
                assert(fields[there].0 != other);
            }
        }
    }
}

/// A field that was set has its value when the object is read.
pub proof fn lemma_set_field(
    fields: Seq<(Seq<char>, JsonView)>,
    key: Seq<char>,
    value: JsonView,
)
    ensures
        forall|other: Seq<char>| #[trigger]
            field(JsonView::Object(with_field(fields, key, value)), other) == (if other == key {
                Some(value)
            } else {
                field(JsonView::Object(fields), other)
            }),
{
    assert forall|other: Seq<char>| #[trigger]
        field(JsonView::Object(with_field(fields, key, value)), other) == (if other == key {
            Some(value)
        } else {
            field(JsonView::Object(fields), other)
        }) by {
        law_set_fields_are_found(fields, key, value, other);
    }
}

fn find_field(fields: &Vec<(String, Json)>, key: &str) -> (index: usize)
    ensures
        index == field_place(fields_view(fields@), key@),
        index <= fields.len(),
{
    let ghost held = fields_view(fields@);
    proof {
        lemma_fields_view(fields@);
        assert(held.skip(0) =~= held);
    }
    let mut i: usize = 0;
    while i < fields.len()
        invariant
            i <= fields.len(),
            held == fields_view(fields@),
            held.len() == fields.len(),
            forall|j: int| 0 <= j < held.len() ==> (#[trigger] held[j]).0 == fields@[j].0@,
            field_place(held, key@) == i + field_place(held.skip(i as int), key@),
        decreases fields.len() - i,
    {
        assert(held.skip(i as int)[0] == held[i as int]);
        if same(fields[i].0.as_str(), key) {
            return i;
        }
        assert(held.skip(i as int).drop_first() =~= held.skip(i + 1));
        i = i + 1;
    }
    i
}

/// Sets a field of an object.
pub fn set_field(fields: &mut Vec<(String, Json)>, key: &str, value: Json)
    ensures
        fields_view(final(fields)@) == with_field(fields_view(old(fields)@), key@, value@),
{
    let at: usize = find_field(fields, key);
    let ghost before = fields@;
    proof {
        lemma_fields_view(before);
    }
    if at < fields.len() {
        fields.set(at, (key.to_owned(), value));
    } else {
        fields.push((key.to_owned(), value));
    }
    proof {
        lemma_fields_view(fields@);
        assert(fields_view(fields@) =~= with_field(fields_view(before), key@, value@));
    }
}

/// The fields without those of one name.
pub open spec fn without_field(fields: Seq<(Seq<char>, JsonView)>, key: Seq<char>) -> Seq<
    (Seq<char>, JsonView),
>
    decreases fields.len(),
{
    if fields.len() == 0 {
        Seq::empty()
    } else if fields.last().0 == key {
        without_field(fields.drop_last(), key)
    } else {
        without_field(fields.drop_last(), key).push(fields.last())
    }
}

proof fn lemma_field_behind(
    fields: Seq<(Seq<char>, JsonView)>,
    more: (Seq<char>, JsonView),
    key: Seq<char>,
)
    ensures
        field_place(fields.push(more), key) == (if field_place(fields, key) < fields.len() {
            field_place(fields, key)
        } else if more.0 == key {
            fields.len() as int
        } else {
            fields.len() as int + 1
        }),
        0 <= field_place(fields, key) <= fields.len(),
    decreases fields.len(),
{
    let all = fields.push(more);
    if fields.len() == 0 {
        assert(all.drop_first() =~= Seq::empty());
        assert(field_place(all.drop_first(), key) == 0);
    } else {
        assert(all[0] == fields[0]);
        assert(all.drop_first() =~= fields.drop_first().push(more));
        lemma_field_behind(fields.drop_first(), more, key);
    }
}

/// A field that was removed is gone, and every other field keeps its value.
pub proof fn law_removed_fields_are_gone(
    fields: Seq<(Seq<char>, JsonView)>,
    key: Seq<char>,
    other: Seq<char>,
)
    ensures
        field(JsonView::Object(without_field(fields, key)), key) is None,
        other != key ==> field(JsonView::Object(without_field(fields, key)), other) == field(
            JsonView::Object(fields),
            other,
        ),
    decreases fields.len(),
{
    if fields.len() > 0 {
        let above = fields.drop_last();
        law_removed_fields_are_gone(above, key, other);
        assert(fields =~= above.push(fields.last()));
        lemma_field_behind(above, fields.last(), other);
        lemma_field_behind(without_field(above, key), fields.last(), other);
        lemma_field_behind(without_field(above, key), fields.last(), key);
        lemma_field_place(without_field(above, key), key);
        lemma_field_place(without_field(above, key), other);
        lemma_field_place(above, other);
    }
}

/// Removes the fields of one name.
pub fn remove_field(fields: &mut Vec<(String, Json)>, key: &str)
    ensures
        fields_view(final(fields)@) == without_field(fields_view(old(fields)@), key@),
{
    let ghost given = fields@;
    let ghost all = fields_view(given);
    proof {
        lemma_fields_view(given);
    }
    let mut kept: Vec<(String, Json)> = Vec::new();
    let count: usize = fields.len();
    let mut done: usize = 0;
    assert(all.take(0) =~= Seq::empty());
    proof {
        lemma_fields_view(kept@);
    }
    assert(fields_view(kept@) =~= Seq::empty());
    while done < count
        invariant
            done <= count,
            count == given.len(),
            fields@ == given.skip(done as int),
            all == Seq::new(given.len(), |i: int| (given[i].0@, json_view(given[i].1))),
            fields_view(kept@) == without_field(all.take(done as int), key@),
        decreases count - done,
    {
        let (name, value) = fields.remove(0);
        assert(fields@ =~= given.skip(done + 1));
        assert(all.take(done + 1).drop_last() =~= all.take(done as int));
        if !same(name.as_str(), key) {
            let ghost before = kept@;
            kept.push((name, value));
            proof {
                lemma_fields_view(before);
                lemma_fields_view(kept@);
                assert(fields_view(kept@) =~= fields_view(before).push(all[done as int]));
            }
        }
        done = done + 1;
    }
    assert(all.take(count as int) =~= all);
    *fields = kept;
}

/// The fields of a section, none where the section is missing or not an object.
pub open spec fn section(fields: Seq<(Seq<char>, JsonView)>, name: Seq<char>) -> Seq<
    (Seq<char>, JsonView),
> {
    match field(JsonView::Object(fields), name) {
        Some(value) => fields_of(value),
        None => Seq::empty(),
    }
}

/// The fields with a value set in a section. A section that is missing or not an object
/// becomes one.
pub open spec fn with_value(
    fields: Seq<(Seq<char>, JsonView)>,
    name: Seq<char>,
    key: Seq<char>,
    value: JsonView,
) -> Seq<(Seq<char>, JsonView)> {
    with_field(fields, name, JsonView::Object(with_field(section(fields, name), key, value)))
}

/// A value that was set in a section is found there, and every other value is what it
/// was.
pub proof fn law_set_values_are_found(
    fields: Seq<(Seq<char>, JsonView)>,
    name: Seq<char>,
    key: Seq<char>,
    value: JsonView,
    other_name: Seq<char>,
    other_key: Seq<char>,
)
    ensures
        nested(JsonView::Object(with_value(fields, name, key, value)), other_name, other_key) == (
        if other_name == name && other_key == key {
            Some(value)
        } else {
            nested(JsonView::Object(fields), other_name, other_key)
        }),
{
    let inner = section(fields, name);
    lemma_set_field(fields, name, JsonView::Object(with_field(inner, key, value)));
    lemma_set_field(inner, key, value);
}

/// Sets a value in a section of an object.
pub fn set_value(fields: &mut Vec<(String, Json)>, name: &str, key: &str, value: Json)
    ensures
        fields_view(final(fields)@) == with_value(
            fields_view(old(fields)@),
            name@,
            key@,
            value@,
        ),
{
    let at: usize = find_field(fields, name);
    let ghost before = fields@;
    proof {
        lemma_fields_view(before);
    }
    let mut inner: Vec<(String, Json)> = Vec::new();
    assert(fields_view(inner@) =~= Seq::empty());
    if at < fields.len() {
        let (label, standing) = fields.remove(at);
        match standing {
            Json::Object(held) => {
                inner = held;
            },
            _ => {},
        }
        assert(fields_view(inner@) == section(fields_view(before), name@));
        set_field(&mut inner, key, value);
        fields.insert(at, (name.to_owned(), Json::Object(inner)));
    } else {
        set_field(&mut inner, key, value);
        fields.push((name.to_owned(), Json::Object(inner)));
    }
    proof {
        lemma_fields_view(fields@);
        assert(fields_view(fields@) =~= with_value(fields_view(before), name@, key@, value@));
    }
}

impl Json {
    /// A field of an object.
    pub fn get(&self, key: &str) -> (value: Option<&Json>)
        ensures
            match value {
                Some(found) => field(self@, key@) == Some(found@),
                None => field(self@, key@) is None,
            },
    {
        match self {
            Json::Object(fields) => {
                let at: usize = find_field(fields, key);
                proof {
                    lemma_fields_view(fields@);
                }
                if at < fields.len() {
                    Some(&fields[at].1)
                } else {
                    None
                }
            },
            _ => None,
        }
    }

    /// The text that the value is.
    pub fn as_str(&self) -> (text: Option<&str>)
        ensures
            match text {
                Some(found) => text_in(Some(self@)) == Some(found@),
                None => text_in(Some(self@)) is None,
            },
    {
        match self {
            Json::Text(text) => Some(text.as_str()),
            _ => None,
        }
    }

    /// The truth value that the value is.
    pub fn as_bool(&self) -> (flag: Option<bool>)
        ensures
            flag == flag_in(Some(self@)),
    {
        match self {
            Json::Bool(flag) => Some(*flag),
            _ => None,
        }
    }

    /// The list that the value is.
    pub fn as_array(&self) -> (items: Option<&Vec<Json>>)
        ensures
            match items {
                Some(found) => list_in(Some(self@)) == Some(list_view(found@)),
                None => list_in(Some(self@)) is None,
            },
    {
        match self {
            Json::List(items) => Some(items),
            _ => None,
        }
    }

    /// A text in a section of an object.
    pub fn text_at(&self, section: &str, key: &str) -> (text: Option<&str>)
        ensures
            match text {
                Some(found) => text_in(nested(self@, section@, key@)) == Some(found@),
                None => text_in(nested(self@, section@, key@)) is None,
            },
    {
        match self.get(section) {
            Some(inner) => inner.text_field(key),
            None => None,
        }
    }

    /// A text of an object.
    pub fn text_field(&self, key: &str) -> (text: Option<&str>)
        ensures
            match text {
                Some(found) => text_in(field(self@, key@)) == Some(found@),
                None => text_in(field(self@, key@)) is None,
            },
    {
        match self.get(key) {
            Some(value) => value.as_str(),
            None => None,
        }
    }

    /// A truth value of an object.
    pub fn flag_field(&self, key: &str) -> (flag: Option<bool>)
        ensures
            flag == flag_in(field(self@, key@)),
    {
        match self.get(key) {
            Some(value) => value.as_bool(),
            None => None,
        }
    }

    /// A truth value in a section of an object.
    pub fn flag_at(&self, section: &str, key: &str) -> (flag: Option<bool>)
        ensures
            flag == flag_in(nested(self@, section@, key@)),
    {
        match self.get(section) {
            Some(inner) => inner.flag_field(key),
            None => None,
        }
    }
}

/// A value of `serde_json`, as it comes from the parser.
#[verifier::external_type_specification]
#[verifier::external_body]
pub struct ExValue(serde_json::Value);

/// What a value of `serde_json` holds.
pub uninterp spec fn value_holds(value: serde_json::Value) -> JsonView;

/// What the JSON document of a text holds, or nothing where the text is not one.
pub uninterp spec fn document(text: Seq<char>) -> Option<JsonView>;

/// `serde_json::from_str` reads a text as a `serde_json::Value`. The claim is that a text
/// always gives the same outcome: a value that holds the same, or an error. What the
/// JSON grammar makes of a given text is not stated.
#[verifier::external_body]
fn read_document(text: &str) -> (value: Option<serde_json::Value>)
    ensures
        match value {
            Some(found) => document(text@) == Some(value_holds(found)),
            None => document(text@) is None,
        },
{
    serde_json::from_str::<serde_json::Value>(text).ok()
}

/// The variants of `serde_json::Value`, each with what it holds, as the variants of `Json`.
/// An object gives its fields in the order of its map, and a number is written as its
/// `to_string` writes it.
#[verifier::external_body]
fn to_json(value: serde_json::Value) -> (json: Json)
    ensures
        json@ == value_holds(value),
{
    match value {
        serde_json::Value::Null => Json::Null,
        serde_json::Value::Bool(flag) => Json::Bool(flag),
        serde_json::Value::Number(number) => Json::Number(number.to_string()),
        serde_json::Value::String(text) => Json::Text(text),
        serde_json::Value::Array(items) => Json::List(items.into_iter().map(to_json).collect()),
        serde_json::Value::Object(fields) => Json::Object(
            fields.into_iter().map(|(key, value)| (key, to_json(value))).collect(),
        ),
    }
}

/// The JSON document of a text.
pub fn parse_json(text: &str) -> (json: Option<Json>)
    ensures
        match json {
            Some(found) => document(text@) == Some(found@),
            None => document(text@) is None,
        },
{
    match read_document(text) {
        Some(value) => Some(to_json(value)),
        None => None,
    }
}

} // verus!
