//! JSON values: reading members out of them, building replies from them, and
//! the way to and from JSON text.

use vstd::prelude::*;
use vstd::string::*;

use crate::text::same_text;

verus! {

/// The number type of `serde_json`, carried through unread.
#[verifier::external_type_specification]
#[verifier::external_body]
pub struct ExNumber(serde_json::Number);

/// The value type of `serde_json`.
#[verifier::external_type_specification]
#[verifier::external_body]
pub struct ExValue(serde_json::Value);

/// The map type of `serde_json`, in which an object's members are held.
#[verifier::external_type_specification]
#[verifier::external_body]
#[verifier::reject_recursive_types(K)]
#[verifier::reject_recursive_types(V)]
pub struct ExMap<K, V>(serde_json::Map<K, V>);

/// A JSON value. An object lists its members; where a key occurs twice, the
/// later member stands.
#[derive(Debug, PartialEq)]
pub enum Json {
    Null,
    Bool(bool),
    Number(serde_json::Number),
    Text(String),
    Array(Vec<Json>),
    Object(Vec<(String, Json)>),
}

/// What a JSON value is: an object is a map from keys to values.
pub enum JsonModel {
    Null,
    Bool(bool),
    Number(serde_json::Number),
    Text(Seq<char>),
    Array(Seq<JsonModel>),
    Object(Map<Seq<char>, JsonModel>),
}

impl Json {
    pub open spec fn model(self) -> JsonModel
        decreases self,
    {
        match self {
            Json::Null => JsonModel::Null,
            Json::Bool(b) => JsonModel::Bool(b),
            Json::Number(n) => JsonModel::Number(n),
            Json::Text(s) => JsonModel::Text(s@),
            Json::Array(items) => JsonModel::Array(items_model(items@)),
            Json::Object(members) => JsonModel::Object(members_model(members@)),
        }
    }
}

impl View for Json {
    type V = JsonModel;

    open spec fn view(&self) -> JsonModel {
        self.model()
    }
}

/// The models of a list of values, in order.
pub open spec fn items_model(items: Seq<Json>) -> Seq<JsonModel>
    decreases items,
{
    if items.len() == 0 {
        Seq::empty()
    } else {
        items_model(items.drop_last()).push(items.last().model())
    }
}

/// The map that a list of members stands for.
pub open spec fn members_model(members: Seq<(String, Json)>) -> Map<Seq<char>, JsonModel>
    decreases members,
{
    if members.len() == 0 {
        Map::empty()
    } else {
        members_model(members.drop_last()).insert(members.last().0@, members.last().1.model())
    }
}

impl JsonModel {
    /// The member `key` of an object; nothing for any other value.
    pub open spec fn member(self, key: Seq<char>) -> Option<JsonModel> {
        match self {
            JsonModel::Object(m) => if m.contains_key(key) {
                Some(m[key])
            } else {
                None
            },
            _ => None,
        }
    }

    /// The characters of a text; nothing for any other value.
    pub open spec fn text(self) -> Option<Seq<char>> {
        match self {
            JsonModel::Text(s) => Some(s),
            _ => None,
        }
    }

    /// The characters of the text that the member `key` holds.
    pub open spec fn text_member(self, key: Seq<char>) -> Option<Seq<char>> {
        match self.member(key) {
            Some(v) => v.text(),
            None => None,
        }
    }

    /// The items of an array; nothing for any other value.
    pub open spec fn items(self) -> Option<Seq<JsonModel>> {
        match self {
            JsonModel::Array(s) => Some(s),
            _ => None,
        }
    }

    /// An object with one more member.
    pub open spec fn with(self, key: Seq<char>, value: JsonModel) -> JsonModel {
        match self {
            JsonModel::Object(m) => JsonModel::Object(m.insert(key, value)),
            _ => self,
        }
    }
}

/// The object without members.
pub open spec fn empty_object() -> JsonModel {
    JsonModel::Object(Map::empty())
}

/// The models of a list of values are those of its items, in order.
pub proof fn lemma_items_model(items: Seq<Json>)
    ensures
        items_model(items).len() == items.len(),
        forall|i: int|
            0 <= i < items.len() ==> #[trigger] items_model(items)[i] == items[i].model(),
    decreases items.len(),
{
    if items.len() > 0 {
        lemma_items_model(items.drop_last());
    }
}

impl Json {
    /// The object without members.
    pub fn object() -> (r: Json)
        ensures
            r@ == empty_object(),
    {
        Json::Object(Vec::new())
    }

    /// This object with `value` under `key`; any other value as it is.
    pub fn with(self, key: &str, value: Json) -> (r: Json)
        ensures
            r@ == self@.with(key@, value@),
    {
        match self {
            Json::Object(members) => {
                let mut members = members;
                let ghost before = members@;
                members.push((key.to_owned(), value));
                proof {
                    assert(members@.drop_last() =~= before);
                }
                Json::Object(members)
            },
            other => other,
        }
    }

    /// A JSON text.
    pub fn text_of(s: &str) -> (r: Json)
        ensures
            r@ == JsonModel::Text(s@),
    {
        Json::Text(s.to_owned())
    }

    /// An array of one text.
    pub(crate) fn one_text(s: &str) -> (r: Json)
        ensures
            r@ == JsonModel::Array(seq![JsonModel::Text(s@)]),
    {
        let mut items: Vec<Json> = Vec::new();
        items.push(Json::text_of(s));
        proof {
            lemma_items_model(items@);
            assert(items_model(items@) =~= seq![JsonModel::Text(s@)]);
        }
        Json::Array(items)
    }

    /// The member `key`, if this is an object that has one.
    pub fn get(&self, key: &str) -> (r: Option<&Json>)
        ensures
            match r {
                Some(v) => self@.member(key@) == Some(v@),
                None => self@.member(key@) is None,
            },
    {
        match self {
            Json::Object(members) => {
                let mut n: usize = members.len();
                proof {
                    assert(members@.take(n as int) =~= members@);
                }
                while n > 0
                    invariant
                        n <= members@.len(),
                        self@ == JsonModel::Object(members_model(members@)),
                        members_model(members@).contains_key(key@) == members_model(
                            members@.take(n as int),
                        ).contains_key(key@),
                        members_model(members@).contains_key(key@) ==> members_model(
                            members@,
                        )[key@] == members_model(members@.take(n as int))[key@],
                    decreases n,
                {
                    proof {
                        assert(members@.take(n as int).drop_last() =~= members@.take(n - 1));
                        assert(members@.take(n as int).last() == members@[n - 1]);
                    }
                    n = n - 1;
                    if same_text(members[n].0.as_str(), key) {
                        return Some(&members[n].1);
                    }
                }
                proof {
                    assert(members@.take(0) =~= Seq::empty());
                }
                None
            },
            _ => None,
        }
    }

    /// The characters of this value, if it is a text.
    pub fn as_str(&self) -> (r: Option<&str>)
        ensures
            match r {
                Some(s) => self@.text() == Some(s@),
                None => self@.text() is None,
            },
    {
        match self {
            Json::Text(s) => Some(s.as_str()),
            _ => None,
        }
    }

    /// The text that the member `key` holds, if it holds one.
    pub fn text_member(&self, key: &str) -> (r: Option<&str>)
        ensures
            match r {
                Some(s) => self@.text_member(key@) == Some(s@),
                None => self@.text_member(key@) is None,
            },
    {
        match self.get(key) {
            Some(v) => v.as_str(),
            None => None,
        }
    }

    /// The items of this value, if it is an array.
    pub fn as_array(&self) -> (r: Option<&Vec<Json>>)
        ensures
            match r {
                Some(items) => {
                    &&& self@.items() is Some
                    &&& self@.items()->0.len() == items@.len()
                    &&& forall|i: int|
                        0 <= i < items@.len() ==> self@.items()->0[i] == (#[trigger] items@[i])@
                },
                None => self@.items() is None,
            },
    {
        match self {
            Json::Array(items) => {
                proof {
                    lemma_items_model(items@);
                }
                Some(items)
            },
            _ => None,
        }
    }
}

/// The JSON value that a `serde_json` value holds.
pub uninterp spec fn value_model(v: serde_json::Value) -> JsonModel;

/// The value that `serde_json` reads out of a text, if it accepts the text.
pub uninterp spec fn parsed_json(text: Seq<char>) -> Option<JsonModel>;

/// The value that `serde_json` reads out of bytes, if it accepts them.
pub uninterp spec fn parsed_json_bytes(bytes: Seq<u8>) -> Option<JsonModel>;

/// The compact text that `serde_json` writes for a value.
pub uninterp spec fn json_text_model(j: JsonModel) -> Seq<char>;

/// `serde_json::from_str` into a `Value`: the value that the text stands for,
/// or nothing where the text is refused. Which texts are accepted, and what
/// they stand for, is left to the name.
#[verifier::external_body]
fn read_value(text: &str) -> (r: Option<serde_json::Value>)
    ensures
        match r {
            Some(v) => parsed_json(text@) == Some(value_model(v)),
            None => parsed_json(text@) is None,
        },
{
    serde_json::from_str::<serde_json::Value>(text).ok()
}

/// `serde_json::from_slice` into a `Value`: the value that the bytes stand
/// for, or nothing where they are refused. Which bytes are accepted, and what
/// they stand for, is left to the name.
#[verifier::external_body]
fn read_value_bytes(bytes: &Vec<u8>) -> (r: Option<serde_json::Value>)
    ensures
        match r {
            Some(v) => parsed_json_bytes(bytes@) == Some(value_model(v)),
            None => parsed_json_bytes(bytes@) is None,
        },
{
    serde_json::from_slice::<serde_json::Value>(bytes).ok()
}

/// Takes a `serde_json::Value` apart, variant by variant.
#[verifier::external_body]
fn json_of_value(v: serde_json::Value) -> (r: Json)
    ensures
        r@ == value_model(v),
{
    match v {
        serde_json::Value::Null => Json::Null,
        serde_json::Value::Bool(b) => Json::Bool(b),
        serde_json::Value::Number(n) => Json::Number(n),
        serde_json::Value::String(s) => Json::Text(s),
        serde_json::Value::Array(a) => Json::Array(a.into_iter().map(json_of_value).collect()),
        serde_json::Value::Object(m) => {
            Json::Object(m.into_iter().map(|(k, x)| (k, json_of_value(x))).collect())
        },
    }
}

/// The members that a `serde_json` map holds.
pub uninterp spec fn map_model(m: serde_json::Map<String, serde_json::Value>) -> Map<
    Seq<char>,
    JsonModel,
>;

/// `serde_json::Map::new`: a map without members.
#[verifier::external_body]
fn no_members() -> (r: serde_json::Map<String, serde_json::Value>)
    ensures
        JsonModel::Object(map_model(r)) == empty_object(),
{
    serde_json::Map::new()
}

/// `serde_json::Map::insert`: the map holds the value under the key, in place
/// of what it held there, if anything; its other members are as they were.
#[verifier::external_body]
fn put_member(
    m: &mut serde_json::Map<String, serde_json::Value>,
    key: String,
    value: serde_json::Value,
)
    ensures
        map_model(*final(m)) == map_model(*old(m)).insert(key@, value_model(value)),
{
    m.insert(key, value);
}

/// `Clone` of a `serde_json::Number`: the same number.
#[verifier::external_body]
fn copy_number(n: &serde_json::Number) -> (r: serde_json::Number)
    ensures
        r == *n,
{
    n.clone()
}

/// The outermost layer of a `serde_json` value: its variant, and what that
/// holds.
enum Layer {
    Null,
    Bool(bool),
    Number(serde_json::Number),
    Text(String),
    Array(Vec<serde_json::Value>),
    Object(serde_json::Map<String, serde_json::Value>),
}

/// The JSON values that a list of `serde_json` values holds, in order.
spec fn values_model(values: Seq<serde_json::Value>) -> Seq<JsonModel> {
    values.map_values(|v: serde_json::Value| value_model(v))
}

spec fn layer_model(layer: Layer) -> JsonModel {
    match layer {
        Layer::Null => JsonModel::Null,
        Layer::Bool(b) => JsonModel::Bool(b),
        Layer::Number(n) => JsonModel::Number(n),
        Layer::Text(s) => JsonModel::Text(s@),
        Layer::Array(values) => JsonModel::Array(values_model(values@)),
        Layer::Object(m) => JsonModel::Object(map_model(m)),
    }
}

/// The variants of `serde_json::Value`, each around what it holds.
#[verifier::external_body]
fn value_of_layer(layer: Layer) -> (r: serde_json::Value)
    ensures
        value_model(r) == layer_model(layer),
{
    match layer {
        Layer::Null => serde_json::Value::Null,
        Layer::Bool(b) => serde_json::Value::Bool(b),
        Layer::Number(n) => serde_json::Value::Number(n),
        Layer::Text(s) => serde_json::Value::String(s),
        Layer::Array(values) => serde_json::Value::Array(values),
        Layer::Object(m) => serde_json::Value::Object(m),
    }
}

/// A `serde_json` value that holds the JSON value; of two members with one key
/// it holds the later.
fn value_of_json(j: &Json) -> (r: serde_json::Value)
    ensures
        value_model(r) == j@,
    decreases *j,
{
    let layer = match j {
        Json::Null => Layer::Null,
        Json::Bool(b) => Layer::Bool(*b),
        Json::Number(n) => Layer::Number(copy_number(n)),
        Json::Text(s) => Layer::Text(s.clone()),
        Json::Array(items) => {
            let mut values: Vec<serde_json::Value> = Vec::new();
            let mut i: usize = 0;
            proof {
                assert(items@.take(0) =~= Seq::empty());
                assert(values_model(values@) =~= items_model(items@.take(0)));
            }
            while i < items.len()
                invariant
                    i <= items@.len(),
                    *j == Json::Array(*items),
                    values_model(values@) == items_model(items@.take(i as int)),
                decreases items.len() - i,
            {
                let ghost before = values@;
                proof {
                    assert(items@.take(i + 1).drop_last() =~= items@.take(i as int));
                    assert(decreases_to!(*j => j->Array_0));
                    assert(decreases_to!(items@ => items@[i as int]));
                }
                let value = value_of_json(&items[i]);
                values.push(value);
                proof {
                    assert(values_model(values@) =~= values_model(before).push(value_model(value)));
                }
                i = i + 1;
            }
            proof {
                assert(items@.take(i as int) =~= items@);
            }
            Layer::Array(values)
        },
        Json::Object(members) => {
            let mut map = no_members();
            let mut i: usize = 0;
            proof {
                assert(members@.take(0) =~= Seq::empty());
            }
            while i < members.len()
                invariant
                    i <= members@.len(),
                    *j == Json::Object(*members),
                    map_model(map) == members_model(members@.take(i as int)),
                decreases members.len() - i,
            {
                proof {
                    assert(members@.take(i + 1).drop_last() =~= members@.take(i as int));
                    assert(decreases_to!(*j => j->Object_0));
                    assert(decreases_to!(members@ => members@[i as int]));
                    assert(decreases_to!(members@[i as int] => members@[i as int].1));
                }
                let member = &members[i];
                put_member(&mut map, member.0.clone(), value_of_json(&member.1));
                i = i + 1;
            }
            proof {
                assert(members@.take(i as int) =~= members@);
            }
            Layer::Object(map)
        },
    };
    value_of_layer(layer)
}

/// `Display` of a `serde_json::Value`: its compact JSON text. `serde_json`
/// keeps the members of an object in a `BTreeMap`, so the text depends on the
/// value alone; what the text is, is left to the name.
#[verifier::external_body]
fn write_value(v: &serde_json::Value) -> (r: String)
    ensures
        r@ == json_text_model(value_model(*v)),
{
    v.to_string()
}

/// The `serde_json` number for `n`.
pub uninterp spec fn number_model(n: u64) -> serde_json::Number;

/// `serde_json::Number::from` of a `u64`. The number is not looked into; that
/// it stands for `n` is left to the name.
#[verifier::external_body]
fn number_from(n: u64) -> (r: serde_json::Number)
    ensures
        r == number_model(n),
{
    serde_json::Number::from(n)
}

/// A JSON number.
pub fn json_number(n: u64) -> (r: Json)
    ensures
        r@ == JsonModel::Number(number_model(n)),
{
    Json::Number(number_from(n))
}

impl Json {
    /// The JSON value that a `serde_json` value holds.
    pub fn from_value(v: serde_json::Value) -> (r: Json)
        ensures
            r@ == value_model(v),
    {
        json_of_value(v)
    }

    /// A `serde_json` value that holds this JSON value.
    pub fn to_value(&self) -> (r: serde_json::Value)
        ensures
            value_model(r) == self@,
    {
        value_of_json(self)
    }
}

/// The JSON value that a text stands for, or nothing where it is not JSON.
pub fn parse_json(text: &str) -> (r: Option<Json>)
    ensures
        match r {
            Some(j) => parsed_json(text@) == Some(j@),
            None => parsed_json(text@) is None,
        },
{
    match read_value(text) {
        Some(v) => Some(json_of_value(v)),
        None => None,
    }
}

/// The JSON value that bytes stand for, or nothing where they are not JSON.
pub fn parse_json_bytes(bytes: &Vec<u8>) -> (r: Option<Json>)
    ensures
        match r {
            Some(j) => parsed_json_bytes(bytes@) == Some(j@),
            None => parsed_json_bytes(bytes@) is None,
        },
{
    match read_value_bytes(bytes) {
        Some(v) => Some(json_of_value(v)),
        None => None,
    }
}

/// A JSON value as compact text.
pub fn json_text(j: &Json) -> (r: String)
    ensures
        r@ == json_text_model(j@),
{
    write_value(&value_of_json(j))
}

/// A member that was put into an object is read back, and the object's other
/// members are as they were.
pub proof fn law_members_are_read_back(
    object: JsonModel,
    key: Seq<char>,
    value: JsonModel,
    other: Seq<char>,
)
    requires
        object is Object,
    ensures
        object.with(key, value).member(key) == Some(value),
        other != key ==> object.with(key, value).member(other) == object.member(other),
{
}

/// Nothing of a value is left out of what is said of it: values that are said
/// to be the same are of one kind and hold the same.
pub proof fn law_values_are_told_apart(a: Json, b: Json)
    requires
        a@ == b@,
    ensures
        a is Null <==> b is Null,
        a is Bool <==> b is Bool,
        a is Number <==> b is Number,
        a is Text <==> b is Text,
        a is Array <==> b is Array,
        a is Object <==> b is Object,
        a is Bool ==> a->Bool_0 == b->Bool_0,
        a is Number ==> a->Number_0 == b->Number_0,
        a is Text ==> a->Text_0@ == b->Text_0@,
        a is Array ==> {
            &&& a->Array_0@.len() == b->Array_0@.len()
            &&& forall|i: int|
                0 <= i < a->Array_0@.len() ==> (#[trigger] a->Array_0@[i])@ == b->Array_0@[i]@
        },
{
    if a is Array {
        let x = a->Array_0@;
        let y = b->Array_0@;
        lemma_items_model(x);
        lemma_items_model(y);
        assert forall|i: int| 0 <= i < x.len() implies (#[trigger] x[i])@ == y[i]@ by {
            assert(items_model(x)[i] == x[i].model());
            assert(items_model(y)[i] == y[i].model());
        }
    }
}

/// Of several members with one key the last stands.
pub proof fn law_the_last_member_stands(members: Seq<(String, Json)>, i: int)
    requires
        0 <= i < members.len(),
        forall|j: int| i < j < members.len() ==> (#[trigger] members[j]).0@ != members[i].0@,
    ensures
        members_model(members).contains_key(members[i].0@),
        members_model(members)[members[i].0@] == members[i].1@,
    decreases members.len(),
{
    if i < members.len() - 1 {
        let front = members.drop_last();
        assert forall|j: int| i < j < front.len() implies (#[trigger] front[j]).0@
            != front[i].0@ by {
            assert(front[j] == members[j]);
        }
        law_the_last_member_stands(front, i);
        assert(members[members.len() - 1].0@ != members[i].0@);
    }
}

/// An object has no members but those listed.
pub proof fn law_no_other_members(members: Seq<(String, Json)>, key: Seq<char>)
    requires
        members_model(members).contains_key(key),
    ensures
        exists|i: int| 0 <= i < members.len() && (#[trigger] members[i]).0@ == key,
    decreases members.len(),
{
    if members.len() > 0 {
        if members.last().0@ == key {
            assert(members[members.len() - 1].0@ == key);
        } else {
            let front = members.drop_last();
            law_no_other_members(front, key);
            let i = choose|i: int| 0 <= i < front.len() && (#[trigger] front[i]).0@ == key;
            assert(members[i].0@ == key);
        }
    }
}

/// Only texts read as texts, only arrays as arrays, and only objects have
/// members.
pub proof fn law_each_kind_reads_as_itself(j: JsonModel, key: Seq<char>)
    ensures
        match j {
            JsonModel::Text(s) => j.text() == Some(s),
            _ => j.text() is None,
        },
        match j {
            JsonModel::Array(s) => j.items() == Some(s),
            _ => j.items() is None,
        },
        match j {
            JsonModel::Object(m) => {
                &&& j.member(key) is Some <==> m.contains_key(key)
                &&& m.contains_key(key) ==> j.member(key) == Some(m[key])
            },
            _ => j.member(key) is None,
        },
        match j.member(key) {
            Some(JsonModel::Text(s)) => j.text_member(key) == Some(s),
            _ => j.text_member(key) is None,
        },
{
}

} // verus!
