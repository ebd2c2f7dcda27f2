//! The JSON records that Pi sends and receives, as plain values.
use crate::table::{keys_of, name_index, names_of, place_of};
use crate::text::same;
use serde_json::Value;
use vstd::prelude::*;

verus! {

/// A JSON value. A number keeps its text, and its value where that is natural.
pub enum Json {
    Null,
    Flag(bool),
    Number(String, Option<u64>),
    Text(String),
    List(Vec<Json>),
    Object(Vec<(String, Json)>),
}

/// What a JSON value holds.
pub enum Tree {
    Null,
    Flag(bool),
    Number(Seq<char>, Option<u64>),
    Text(Seq<char>),
    List(Seq<Tree>),
    Object(Seq<(Seq<char>, Tree)>),
}

/// The `serde_json` value that is converted to and from [`Json`].
#[verifier::external_type_specification]
#[verifier::external_body]
pub struct ExValue(Value);

/// What `json` holds.
pub open spec fn tree_of(json: Json) -> Tree
    decreases json,
{
    match json {
        Json::Null => Tree::Null,
        Json::Flag(b) => Tree::Flag(b),
        Json::Number(text, n) => Tree::Number(text@, n),
        Json::Text(text) => Tree::Text(text@),
        Json::List(items) => Tree::List(
            Seq::new(
                items@.len(),
                |i: int|
                    if 0 <= i < items@.len() {
                        tree_of(items@[i])
                    } else {
                        Tree::Null
                    },
            ),
        ),
        Json::Object(fields) => Tree::Object(
            Seq::new(
                fields@.len(),
                |i: int|
                    if 0 <= i < fields@.len() {
                        (fields@[i].0@, tree_of(fields@[i].1))
                    } else {
                        (Seq::empty(), Tree::Null)
                    },
            ),
        ),
    }
}

impl View for Json {
    type V = Tree;

    open spec fn view(&self) -> Tree {
        tree_of(*self)
    }
}

// ---------------------------------------------------------------------------
// Reading
// ---------------------------------------------------------------------------

/// The value of the first field named `key`.
pub open spec fn entry(fields: Seq<(Seq<char>, Tree)>, key: Seq<char>) -> Option<Tree>
    decreases fields.len(),
{
    if fields.len() == 0 {
        None
    } else if fields[0].0 == key {
        Some(fields[0].1)
    } else {
        entry(fields.drop_first(), key)
    }
}

impl Tree {
    /// The field `key`, where this is an object that has one.
    pub open spec fn get(self, key: Seq<char>) -> Option<Tree> {
        match self {
            Tree::Object(fields) => entry(fields, key),
            _ => None,
        }
    }

    /// The field `key`, or null.
    pub open spec fn at(self, key: Seq<char>) -> Tree {
        match self.get(key) {
            Some(value) => value,
            None => Tree::Null,
        }
    }

    pub open spec fn text(self) -> Option<Seq<char>> {
        match self {
            Tree::Text(text) => Some(text),
            _ => None,
        }
    }

    pub open spec fn natural(self) -> Option<u64> {
        match self {
            Tree::Number(_, n) => n,
            _ => None,
        }
    }

    pub open spec fn list(self) -> Option<Seq<Tree>> {
        match self {
            Tree::List(items) => Some(items),
            _ => None,
        }
    }

    /// The text of the field `key`.
    pub open spec fn text_at(self, key: Seq<char>) -> Option<Seq<char>> {
        self.at(key).text()
    }

    /// The text of the field `key`, or `other`.
    pub open spec fn text_or(self, key: Seq<char>, other: Seq<char>) -> Seq<char> {
        match self.text_at(key) {
            Some(text) => text,
            None => other,
        }
    }

    /// The field `key` is the text `text`.
    pub open spec fn says(self, key: Seq<char>, text: Seq<char>) -> bool {
        self.text_at(key) == Some(text)
    }

    /// The field `key` is the flag `flag`.
    pub open spec fn flagged(self, key: Seq<char>, flag: bool) -> bool {
        self.at(key) == Tree::Flag(flag)
    }

    pub open spec fn is_object(self) -> bool {
        self is Object
    }
}

impl Json {
    /// The field `key`, where this is an object that has one.
    pub fn get<'a>(&'a self, key: &str) -> (r: Option<&'a Json>)
        ensures
            r matches Some(value) ==> self@.get(key@) == Some(value@),
            r is None ==> self@.get(key@) is None,
    {
        match self {
            Json::Object(fields) => {
                let ghost all = self@->Object_0;
                let mut i: usize = 0;
                assert(all.skip(0) =~= all);
                while i < fields.len()
                    invariant
                        i <= fields@.len(),
                        self@ == Tree::Object(all),
                        all.len() == fields@.len(),
                        forall|j: int| 0 <= j < all.len() ==> all[j] == (fields@[j].0@, fields@[j].1@),
                        entry(all, key@) == entry(all.skip(i as int), key@),
                    decreases fields@.len() - i,
                {
                    let ghost rest = all.skip(i as int);
                    assert(rest[0] == all[i as int]);
                    assert(rest.drop_first() =~= all.skip(i + 1));
                    if same(fields[i].0.as_str(), key) {
                        return Some(&fields[i].1);
                    }
                    i = i + 1;
                }
                None
            },
            _ => None,
        }
    }

    /// The field `key`, or null.
    pub fn at<'a>(&'a self, key: &str) -> (r: &'a Json)
        ensures
            r@ == self@.at(key@),
    {
        match self.get(key) {
            Some(value) => value,
            None => &Json::Null,
        }
    }

    pub fn as_text<'a>(&'a self) -> (r: Option<&'a str>)
        ensures
            r matches Some(text) ==> self@.text() == Some(text@),
            r is None ==> self@.text() is None,
    {
        match self {
            Json::Text(text) => Some(text.as_str()),
            _ => None,
        }
    }

    pub fn as_natural(&self) -> (r: Option<u64>)
        ensures
            r == self@.natural(),
    {
        match self {
            Json::Number(_, n) => *n,
            _ => None,
        }
    }

    pub fn as_list<'a>(&'a self) -> (r: Option<&'a Vec<Json>>)
        ensures
            r matches Some(items) ==> self@.list() == Some(items@.map_values(|item: Json| item@)),
            r is None ==> self@.list() is None,
    {
        match self {
            Json::List(items) => {
                assert(self@->List_0 =~= items@.map_values(|item: Json| item@));
                Some(items)
            },
            _ => None,
        }
    }

    pub fn text_at<'a>(&'a self, key: &str) -> (r: Option<&'a str>)
        ensures
            r matches Some(text) ==> self@.text_at(key@) == Some(text@),
            r is None ==> self@.text_at(key@) is None,
    {
        self.at(key).as_text()
    }

    pub fn text_or<'a>(&'a self, key: &str, other: &'a str) -> (r: &'a str)
        ensures
            r@ == self@.text_or(key@, other@),
    {
        match self.text_at(key) {
            Some(text) => text,
            None => other,
        }
    }

    pub fn says(&self, key: &str, text: &str) -> (r: bool)
        ensures
            r == self@.says(key@, text@),
    {
        match self.text_at(key) {
            Some(found) => same(found, text),
            None => false,
        }
    }

    pub fn flagged(&self, key: &str, flag: bool) -> (r: bool)
        ensures
            r == self@.flagged(key@, flag),
    {
        match self.at(key) {
            Json::Flag(found) => *found == flag,
            _ => false,
        }
    }

    pub fn has_flag(&self, key: &str) -> (r: bool)
        ensures
            r == (self@.at(key@) is Flag),
    {
        match self.at(key) {
            Json::Flag(_) => true,
            _ => false,
        }
    }

    pub fn is_null(&self) -> (r: bool)
        ensures
            r == (self@ is Null),
    {
        match self {
            Json::Null => true,
            _ => false,
        }
    }

    pub fn is_object(&self) -> (r: bool)
        ensures
            r == self@.is_object(),
    {
        match self {
            Json::Object(_) => true,
            _ => false,
        }
    }
}

// ---------------------------------------------------------------------------
// Building
// ---------------------------------------------------------------------------

/// The fields of an object.
pub open spec fn fields_view(fields: Seq<(String, Json)>) -> Seq<(Seq<char>, Tree)> {
    fields.map_values(|field: (String, Json)| (field.0@, field.1@))
}

/// A text value.
pub fn text(value: &str) -> (r: Json)
    ensures
        r@ == Tree::Text(value@),
{
    Json::Text(value.to_owned())
}

/// An object with the given fields.
pub fn object(fields: Vec<(String, Json)>) -> (r: Json)
    ensures
        r@ == Tree::Object(fields_view(fields@)),
{
    let r = Json::Object(fields);
    assert(r@->Object_0 =~= fields_view(fields@));
    r
}

/// Add a field to the fields of an object to be.
pub fn add_field(fields: &mut Vec<(String, Json)>, key: &str, value: Json)
    ensures
        fields_view(final(fields)@) == fields_view(old(fields)@).push((key@, value@)),
{
    let ghost before = fields@;
    fields.push((key.to_owned(), value));
    assert(fields_view(fields@) =~= fields_view(before).push((key@, value@)));
}

/// The fields with `key` set to `value`.
pub open spec fn fields_with(
    fields: Seq<(Seq<char>, Tree)>,
    key: Seq<char>,
    value: Tree,
) -> Seq<(Seq<char>, Tree)> {
    match name_index(names_of(fields), key) {
        Some(i) => fields.update(i, (key, value)),
        None => fields.push((key, value)),
    }
}

/// A copy of the object `json`, with its field `key` set to `value`; any
/// other value is copied as it is.
pub fn with_field(json: &Json, key: &str, value: Json) -> (r: Json)
    ensures
        match json@ {
            Tree::Object(fields) => r@ == Tree::Object(fields_with(fields, key@, value@)),
            _ => r@ == json@,
        },
{
    match json.copy() {
        Json::Object(mut fields) => {
            let ghost before = fields@;
            let ghost tree = json@->Object_0;
            assert(keys_of(fields@) =~= names_of(tree));
            assert(fields_view(before) =~= tree);
            match place_of(&fields, key) {
                Some(i) => {
                    fields.set(i, (key.to_owned(), value));
                },
                None => {
                    fields.push((key.to_owned(), value));
                },
            }
            assert(fields_view(fields@) =~= fields_with(tree, key@, value@));
            object(fields)
        },
        other => other,
    }
}

impl Json {
    /// A copy of this value.
    pub fn copy(&self) -> (r: Json)
        ensures
            r@ == self@,
        decreases self,
    {
        match self {
            Json::Null => Json::Null,
            Json::Flag(flag) => Json::Flag(*flag),
            Json::Number(text, n) => Json::Number(text.clone(), *n),
            Json::Text(text) => Json::Text(text.clone()),
            Json::List(items) => {
                let mut out: Vec<Json> = Vec::new();
                let mut i: usize = 0;
                while i < items.len()
                    invariant
                        i <= items@.len(),
                        out@.len() == i,
                        self matches Json::List(list) && list == *items,
                        forall|j: int| 0 <= j < i ==> (#[trigger] out@[j])@ == items@[j]@,
                    decreases items@.len() - i,
                {
                    assert(decreases_to!(self => items@[i as int]));
                    out.push(items[i].copy());
                    i = i + 1;
                }
                let r = Json::List(out);
                assert(r@->List_0 =~= self@->List_0);
                r
            },
            Json::Object(fields) => {
                let mut out: Vec<(String, Json)> = Vec::new();
                let mut i: usize = 0;
                while i < fields.len()
                    invariant
                        i <= fields@.len(),
                        out@.len() == i,
                        self matches Json::Object(list) && list == *fields,
                        forall|j: int|
                            0 <= j < i ==> (#[trigger] out@[j]).0@ == fields@[j].0@ && out@[j].1@
                                == fields@[j].1@,
                    decreases fields@.len() - i,
                {
                    assert(decreases_to!(self => fields@[i as int].1));
                    out.push((fields[i].0.clone(), fields[i].1.copy()));
                    i = i + 1;
                }
                let r = Json::Object(out);
                assert(r@->Object_0 =~= self@->Object_0);
                r
            },
        }
    }
}

// ---------------------------------------------------------------------------
// Text
// ---------------------------------------------------------------------------

/// What `serde_json::from_slice` reads from some bytes, if it reads anything.
pub uninterp spec fn parsed(bytes: Seq<u8>) -> Option<Tree>;

/// The text that `serde_json` prints for a value.
pub uninterp spec fn printed(value: Tree) -> Seq<char>;

/// Converts a `serde_json::Value`, variant by variant. Nothing is claimed of
/// it but that it exists; [`decode`] says what reading some bytes gives.
#[verifier::external_body]
fn json_of(value: Value) -> (r: Json) {
    match value {
        Value::Null => Json::Null,
        Value::Bool(flag) => Json::Flag(flag),
        Value::Number(number) => Json::Number(number.to_string(), number.as_u64()),
        Value::String(text) => Json::Text(text),
        Value::Array(items) => Json::List(items.into_iter().map(json_of).collect()),
        Value::Object(fields) => Json::Object(
            fields.into_iter().map(|(key, value)| (key, json_of(value))).collect(),
        ),
    }
}

/// Converts to a `serde_json::Value`, variant by variant; a number is read
/// from its text.
#[verifier::external_body]
fn value_of(json: &Json) -> (r: Value) {
    match json {
        Json::Null => Value::Null,
        Json::Flag(flag) => Value::Bool(*flag),
        Json::Number(text, _) => serde_json::from_str(text).unwrap_or_default(),
        Json::Text(text) => Value::String(text.clone()),
        Json::List(items) => Value::Array(items.iter().map(value_of).collect()),
        Json::Object(fields) => Value::Object(
            fields.iter().map(|(key, value)| (key.clone(), value_of(value))).collect(),
        ),
    }
}

/// `serde_json::from_slice` reads the bytes as one JSON value, or refuses
/// them; what it reads depends on the bytes alone.
#[verifier::external_body]
pub(crate) fn decode(bytes: &[u8]) -> (r: Option<Json>)
    ensures
        r matches Some(value) ==> parsed(bytes@) == Some(value@),
        r is None ==> parsed(bytes@) is None,
{
    serde_json::from_slice::<Value>(bytes).ok().map(json_of)
}

/// The `Display` of `serde_json::Value` prints a value on one line: every
/// character below the space is escaped, and an object stands in braces with
/// nothing between them exactly where it has no field.
#[verifier::external_body]
pub(crate) fn encode(value: &Json) -> (text: String)
    ensures
        text@ == printed(value@),
        forall|i: int| 0 <= i < text@.len() ==> (#[trigger] text@[i]) as u32 >= 0x20,
        value@ matches Tree::Object(fields) ==> text@.len() >= 2 && text@[0] == '{' && text@.last()
            == '}' && (text@.len() == 2 <==> fields.len() == 0),
{
    value_of(value).to_string()
}

/// A field that was set is what was set; all others are as before, and none is
/// added but that one.
pub proof fn law_set_fields_are_found(
    fields: Seq<(Seq<char>, Tree)>,
    key: Seq<char>,
    value: Tree,
    other: Seq<char>,
)
    requires
        other != key,
    ensures
        entry(fields_with(fields, key, value), key) == Some(value),
        entry(fields_with(fields, key, value), other) == entry(fields, other),
{
    crate::table::lemma_name_index(fields, key);
    match name_index(names_of(fields), key) {
        Some(i) => {
            crate::table::lemma_first_name(names_of(fields), key, 0);
            assert forall|j: int| 0 <= j < i implies (#[trigger] fields[j]).0 != key by {
                assert(names_of(fields)[j] == fields[j].0);
            }
            lemma_entry_update(fields, i, key, value, other);
        },
        None => lemma_entry_push(fields, key, value, other),
    }
}

proof fn lemma_entry_push(
    fields: Seq<(Seq<char>, Tree)>,
    key: Seq<char>,
    value: Tree,
    other: Seq<char>,
)
    requires
        other != key,
        forall|j: int| 0 <= j < fields.len() ==> (#[trigger] fields[j]).0 != key,
    ensures
        entry(fields.push((key, value)), key) == Some(value),
        entry(fields.push((key, value)), other) == entry(fields, other),
    decreases fields.len(),
{
    let all = fields.push((key, value));
    if fields.len() == 0 {
        assert(all.drop_first() =~= fields);
    } else {
        let rest = fields.drop_first();
        assert forall|j: int| 0 <= j < rest.len() implies (#[trigger] rest[j]).0 != key by {
            assert(rest[j] == fields[j + 1]);
        }
        lemma_entry_push(rest, key, value, other);
        assert(all.drop_first() =~= rest.push((key, value)));
        assert(all[0] == fields[0]);
    }
}

proof fn lemma_entry_update(
    fields: Seq<(Seq<char>, Tree)>,
    i: int,
    key: Seq<char>,
    value: Tree,
    other: Seq<char>,
)
    requires
        other != key,
        0 <= i < fields.len(),
        fields[i].0 == key,
        forall|j: int| 0 <= j < i ==> (#[trigger] fields[j]).0 != key,
    ensures
        entry(fields.update(i, (key, value)), key) == Some(value),
        entry(fields.update(i, (key, value)), other) == entry(fields, other),
    decreases fields.len(),
{
    let all = fields.update(i, (key, value));
    let rest = fields.drop_first();
    if i == 0 {
        assert(all.drop_first() =~= rest);
    } else {
        assert forall|j: int| 0 <= j < i - 1 implies (#[trigger] rest[j]).0 != key by {
            assert(rest[j] == fields[j + 1]);
        }
        assert(fields[0].0 != key);
        lemma_entry_update(rest, i - 1, key, value, other);
        assert(all.drop_first() =~= rest.update(i - 1, (key, value)));
        assert(all[0] == fields[0]);
    }
}

/// A field is the first one of its name.
pub proof fn law_the_first_field_counts(
    before: Seq<(Seq<char>, Tree)>,
    key: Seq<char>,
    value: Tree,
    behind: Seq<(Seq<char>, Tree)>,
)
    requires
        forall|j: int| 0 <= j < before.len() ==> (#[trigger] before[j]).0 != key,
    ensures
        entry(before + seq![(key, value)] + behind, key) == Some(value),
        entry(before, key) is None,
    decreases before.len(),
{
    let all = before + seq![(key, value)] + behind;
    if before.len() > 0 {
        let rest = before.drop_first();
        assert forall|j: int| 0 <= j < rest.len() implies (#[trigger] rest[j]).0 != key by {
            assert(rest[j] == before[j + 1]);
        }
        law_the_first_field_counts(rest, key, value, behind);
        assert(all[0] == before[0]);
        assert(all.drop_first() =~= rest + seq![(key, value)] + behind);
    }
}

}
