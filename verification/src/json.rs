//! JSON values as plain data, and the way to and from `serde_json`.

use vstd::prelude::*;
use vstd::string::*;

use crate::text::same;

verus! {

/// A number as `serde_json` holds it.
#[verifier::external_type_specification]
#[verifier::external_body]
pub struct ExNumber(serde_json::Number);

/// A JSON value as `serde_json` holds it.
#[verifier::external_type_specification]
#[verifier::external_body]
pub struct ExValue(serde_json::Value);

/// A JSON value.
#[derive(Debug)]
pub enum Json {
    Null,
    Bool(bool),
    Number(serde_json::Number),
    Str(String),
    Array(Vec<Json>),
    /// The members. Of two with the same name the later one counts.
    Object(Vec<(String, Json)>),
}

/// What a `Json` holds.
pub enum JsonModel {
    Null,
    Bool(bool),
    /// A whole number that a `u64` can hold.
    Unsigned(u64),
    /// Any other number.
    Other(serde_json::Number),
    Str(Seq<char>),
    Array(Seq<JsonModel>),
    Object(Map<Seq<char>, JsonModel>),
}

/// The `u64` that a number is, if it is one.
pub uninterp spec fn whole(n: serde_json::Number) -> Option<u64>;

/// What a number is.
pub open spec fn number_model(n: serde_json::Number) -> JsonModel {
    match whole(n) {
        Some(u) => JsonModel::Unsigned(u),
        None => JsonModel::Other(n),
    }
}

/// What one value holds.
pub open spec fn json_model(j: Json) -> JsonModel
    decreases j,
{
    match j {
        Json::Null => JsonModel::Null,
        Json::Bool(b) => JsonModel::Bool(b),
        Json::Number(n) => number_model(n),
        Json::Str(s) => JsonModel::Str(s@),
        Json::Array(items) => JsonModel::Array(json_models(items@)),
        Json::Object(members) => JsonModel::Object(members_model(members@)),
    }
}

/// What each of `items` holds.
pub open spec fn json_models(items: Seq<Json>) -> Seq<JsonModel>
    decreases items,
{
    Seq::new(
        items.len(),
        |i: int|
            if 0 <= i < items.len() {
                json_model(items[i])
            } else {
                arbitrary()
            },
    )
}

/// The members by name.
pub open spec fn members_model(members: Seq<(String, Json)>) -> Map<Seq<char>, JsonModel>
    decreases members,
{
    if members.len() == 0 {
        Map::empty()
    } else {
        members_model(members.drop_last()).insert(
            members.last().0@,
            json_model(members.last().1),
        )
    }
}

impl View for Json {
    type V = JsonModel;

    open spec fn view(&self) -> JsonModel {
        json_model(*self)
    }
}

// ---- what serde_json does -------------------------------------------------------------

/// What a `serde_json::Value` holds.
pub uninterp spec fn value_model(v: serde_json::Value) -> JsonModel;

/// What the compact rendering of a JSON value with these contents writes.
pub uninterp spec fn json_text(m: JsonModel) -> Seq<char>;

/// The JSON value that `text` spells, or what is wrong with it.
pub uninterp spec fn json_parsed(text: Seq<u8>) -> Result<JsonModel, Seq<char>>;

/// `Number::as_u64`: the number, where it is a `u64`.
pub assume_specification[ serde_json::Number::as_u64 ](n: &serde_json::Number) -> (r: Option<u64>)
    ensures
        r == whole(*n),
;

/// `Number::clone`: the same number.
pub assume_specification[ <serde_json::Number as Clone>::clone ](
    n: &serde_json::Number,
) -> (r: serde_json::Number)
    ensures
        r == *n,
;

/// `Number::from` for a `u64`: that number.
#[verifier::external_body]
fn number_from(n: u64) -> (r: serde_json::Number)
    ensures
        whole(r) == Some(n),
{
    serde_json::Number::from(n)
}

/// `serde_json::from_slice`. Whether `text` is JSON, and which, depends on `text` alone; so does
/// the text of the error.
#[verifier::external_body]
fn from_slice(text: &[u8]) -> (r: Result<serde_json::Value, String>)
    ensures
        match r {
            Ok(v) => json_parsed(text@) == Ok::<JsonModel, Seq<char>>(value_model(v)),
            Err(e) => json_parsed(text@) == Err::<JsonModel, Seq<char>>(e@),
        },
{
    serde_json::from_slice(text).map_err(|e| e.to_string())
}

/// `Value`'s plain `Display` formatting. What it writes depends on what the value holds alone.
#[verifier::external_body]
fn value_text(v: &serde_json::Value) -> (r: String)
    ensures
        r@ == json_text(value_model(*v)),
{
    v.to_string()
}

/// The outermost layer of a `serde_json::Value`.
enum Layer<'a> {
    Null,
    Bool(bool),
    Number(&'a serde_json::Number),
    Str(&'a String),
    Array(&'a Vec<serde_json::Value>),
    Object(Vec<(&'a String, &'a serde_json::Value)>),
}

/// What each of the values holds.
spec fn value_models(items: Seq<serde_json::Value>) -> Seq<JsonModel> {
    items.map_values(|v: serde_json::Value| value_model(v))
}

/// What the members hold, by name.
spec fn named_models(members: Seq<(&String, &serde_json::Value)>) -> Map<Seq<char>, JsonModel>
    decreases members.len(),
{
    if members.len() == 0 {
        Map::empty()
    } else {
        named_models(members.drop_last()).insert(
            members.last().0@,
            value_model(*members.last().1),
        )
    }
}

spec fn layer_model(layer: Layer) -> JsonModel {
    match layer {
        Layer::Null => JsonModel::Null,
        Layer::Bool(b) => JsonModel::Bool(b),
        Layer::Number(n) => number_model(*n),
        Layer::Str(s) => JsonModel::Str(s@),
        Layer::Array(items) => JsonModel::Array(value_models(items@)),
        Layer::Object(members) => JsonModel::Object(named_models(members@)),
    }
}

/// The variants of `serde_json::Value` and what they hold; a `serde_json::Map` by its `iter`, which
/// gives each member once.
#[verifier::external_body]
fn outer_layer<'a>(v: &'a serde_json::Value) -> (r: Layer<'a>)
    ensures
        layer_model(r) == value_model(*v),
        r matches Layer::Object(members) ==> forall|i: int, k: int|
            0 <= i < k < members@.len() ==> #[trigger] members@[i].0@ != #[trigger] members@[k].0@,
{
    match v {
        serde_json::Value::Null => Layer::Null,
        serde_json::Value::Bool(b) => Layer::Bool(*b),
        serde_json::Value::Number(n) => Layer::Number(n),
        serde_json::Value::String(s) => Layer::Str(s),
        serde_json::Value::Array(items) => Layer::Array(items),
        serde_json::Value::Object(members) => Layer::Object(members.iter().collect()),
    }
}

/// What a `serde_json::Value` is made from.
enum Parts {
    Null,
    Bool(bool),
    Number(serde_json::Number),
    Str(String),
    Array(Vec<serde_json::Value>),
    NoMembers,
}

spec fn parts_model(parts: Parts) -> JsonModel {
    match parts {
        Parts::Null => JsonModel::Null,
        Parts::Bool(b) => JsonModel::Bool(b),
        Parts::Number(n) => number_model(n),
        Parts::Str(s) => JsonModel::Str(s@),
        Parts::Array(items) => JsonModel::Array(value_models(items@)),
        Parts::NoMembers => JsonModel::Object(Map::empty()),
    }
}

/// The variants of `serde_json::Value`, made from what they hold; an object without members is
/// `serde_json::Map::new`.
#[verifier::external_body]
fn made_from(parts: Parts) -> (r: serde_json::Value)
    ensures
        value_model(r) == parts_model(parts),
{
    match parts {
        Parts::Null => serde_json::Value::Null,
        Parts::Bool(b) => serde_json::Value::Bool(b),
        Parts::Number(n) => serde_json::Value::Number(n),
        Parts::Str(s) => serde_json::Value::String(s),
        Parts::Array(items) => serde_json::Value::Array(items),
        Parts::NoMembers => serde_json::Value::Object(serde_json::Map::new()),
    }
}

/// `serde_json::Map::insert` on an object: the member is added, or put in the place of the one with
/// its name.
#[verifier::external_body]
fn insert_member(object: &mut serde_json::Value, key: String, v: serde_json::Value)
    requires
        value_model(*old(object)) is Object,
    ensures
        value_model(*final(object)) == JsonModel::Object(
            value_model(*old(object))->Object_0.insert(key@, value_model(v)),
        ),
{
    if let serde_json::Value::Object(members) = object {
        members.insert(key, v);
    }
}

proof fn lemma_named(members: Seq<(&String, &serde_json::Value)>, i: int)
    requires
        0 <= i < members.len(),
        forall|a: int, b: int|
            0 <= a < b < members.len() ==> #[trigger] members[a].0@ != #[trigger] members[b].0@,
    ensures
        named_models(members).dom().finite(),
        named_models(members).dom().contains(members[i].0@),
        named_models(members)[members[i].0@] == value_model(*members[i].1),
    decreases members.len(),
{
    let front = members.drop_last();
    assert forall|a: int, b: int| 0 <= a < b < front.len() implies #[trigger] front[a].0@
        != #[trigger] front[b].0@ by {
        assert(front[a] == members[a] && front[b] == members[b]);
        assert(members[a].0@ != members[b].0@);
    }
    if front.len() > 0 {
        lemma_named(front, 0);
    }
    if i < front.len() {
        lemma_named(front, i);
        assert(front[i] == members[i]);
        assert(members[i].0@ != members[members.len() - 1].0@);
    }
}

/// The same value as plain data.
fn json_of(v: &serde_json::Value) -> (r: Json)
    ensures
        r@ == value_model(*v),
    decreases value_model(*v),
{
    let ghost m = value_model(*v);
    match outer_layer(v) {
        Layer::Null => Json::Null,
        Layer::Bool(b) => Json::Bool(b),
        Layer::Number(n) => Json::Number(n.clone()),
        Layer::Str(s) => Json::Str(s.clone()),
        Layer::Array(items) => {
            let mut out: Vec<Json> = Vec::new();
            let mut i: usize = 0;
            while i < items.len()
                invariant
                    i <= items@.len(),
                    m == value_model(*v),
                    m == JsonModel::Array(value_models(items@)),
                    out@.len() == i,
                    forall|k: int|
                        0 <= k < i ==> json_model(#[trigger] out@[k]) == value_model(items@[k]),
                decreases items@.len() - i,
            {
                assert(decreases_to!(m => m->Array_0));
                assert(decreases_to!(m => m->Array_0[i as int]));
                assert(m->Array_0[i as int] == value_model(items@[i as int]));
                out.push(json_of(&items[i]));
                i += 1;
            }
            assert(json_models(out@) =~= value_models(items@));
            Json::Array(out)
        },
        Layer::Object(members) => {
            let mut out: Vec<(String, Json)> = Vec::new();
            let mut i: usize = 0;
            assert(members@.take(0) =~= Seq::empty());
            while i < members.len()
                invariant
                    i <= members@.len(),
                    m == value_model(*v),
                    m == JsonModel::Object(named_models(members@)),
                    forall|a: int, b: int|
                        0 <= a < b < members@.len() ==> #[trigger] members@[a].0@
                            != #[trigger] members@[b].0@,
                    members_model(out@) == named_models(members@.take(i as int)),
                decreases members@.len() - i,
            {
                proof {
                    lemma_named(members@, i as int);
                    let o = m->Object_0;
                    let key = members@[i as int].0@;
                    assert(decreases_to!(m => m->Object_0));
                    assert(decreases_to!(o => o[key]));
                }
                let ghost before = out@;
                let (name, value) = members[i];
                out.push((name.clone(), json_of(value)));
                assert(out@.drop_last() =~= before);
                assert(members@.take(i + 1).drop_last() =~= members@.take(i as int));
                i += 1;
            }
            assert(members@.take(i as int) =~= members@);
            Json::Object(out)
        },
    }
}

/// The same value as `serde_json` holds it.
fn value_of(j: &Json) -> (r: serde_json::Value)
    ensures
        value_model(r) == j@,
    decreases *j,
{
    match j {
        Json::Null => made_from(Parts::Null),
        Json::Bool(b) => made_from(Parts::Bool(*b)),
        Json::Number(n) => made_from(Parts::Number(n.clone())),
        Json::Str(s) => made_from(Parts::Str(s.clone())),
        Json::Array(items) => {
            let mut out: Vec<serde_json::Value> = Vec::new();
            let mut i: usize = 0;
            while i < items.len()
                invariant
                    i <= items.len(),
                    *j == Json::Array(*items),
                    out@.len() == i,
                    forall|k: int|
                        0 <= k < i ==> value_model(#[trigger] out@[k]) == json_model(items@[k]),
                decreases items.len() - i,
            {
                assert(decreases_to!(*j => j->Array_0));
                assert(decreases_to!(*j => j->Array_0[i as int]));
                out.push(value_of(&items[i]));
                i += 1;
            }
            assert(value_models(out@) =~= json_models(items@));
            made_from(Parts::Array(out))
        },
        Json::Object(members) => {
            let mut out = made_from(Parts::NoMembers);
            let mut i: usize = 0;
            assert(members@.take(0) =~= Seq::empty());
            while i < members.len()
                invariant
                    i <= members.len(),
                    *j == Json::Object(*members),
                    value_model(out) == JsonModel::Object(members_model(members@.take(i as int))),
                decreases members.len() - i,
            {
                assert(decreases_to!(*j => j->Object_0));
                assert(decreases_to!(*j => j->Object_0[i as int]));
                assert(decreases_to!(*j => j->Object_0[i as int].1));
                let member = value_of(&members[i].1);
                insert_member(&mut out, members[i].0.clone(), member);
                assert(members@.take(i + 1).drop_last() =~= members@.take(i as int));
                i += 1;
            }
            assert(members@.take(i as int) =~= members@);
            out
        },
    }
}

/// The JSON value that `text` spells, or what is wrong with it.
pub fn parse(text: &[u8]) -> (r: Result<Json, String>)
    ensures
        match r {
            Ok(j) => json_parsed(text@) == Ok::<JsonModel, Seq<char>>(j@),
            Err(e) => json_parsed(text@) == Err::<JsonModel, Seq<char>>(e@),
        },
{
    match from_slice(text) {
        Ok(v) => Ok(json_of(&v)),
        Err(e) => Err(e),
    }
}

// ---- members and readings -------------------------------------------------------------

/// The member of `m` with the given name, where `m` is an object that has it.
pub open spec fn member(m: JsonModel, key: Seq<char>) -> Option<JsonModel> {
    match m {
        JsonModel::Object(o) => if o.dom().contains(key) {
            Some(o[key])
        } else {
            None
        },
        _ => None,
    }
}

/// The text that `m` is, if it is one.
pub open spec fn text_in(m: JsonModel) -> Option<Seq<char>> {
    match m {
        JsonModel::Str(s) => Some(s),
        _ => None,
    }
}

/// The `u64` that `m` is, if it is one.
pub open spec fn number_in(m: JsonModel) -> Option<u64> {
    match m {
        JsonModel::Unsigned(n) => Some(n),
        _ => None,
    }
}

/// The text that stands in `m` under the given name, if one does.
pub open spec fn text_at(m: JsonModel, key: Seq<char>) -> Option<Seq<char>> {
    match member(m, key) {
        Some(v) => text_in(v),
        None => None,
    }
}

/// The `u64` that stands in `m` under the given name, if one does.
pub open spec fn number_at(m: JsonModel, key: Seq<char>) -> Option<u64> {
    match member(m, key) {
        Some(v) => number_in(v),
        None => None,
    }
}

/// The truth value that stands in `m` under the given name, if one does.
pub open spec fn bool_at(m: JsonModel, key: Seq<char>) -> Option<bool> {
    match member(m, key) {
        Some(JsonModel::Bool(b)) => Some(b),
        _ => None,
    }
}

/// The list that stands in `m` under the given name, if one does.
pub open spec fn array_at(m: JsonModel, key: Seq<char>) -> Option<Seq<JsonModel>> {
    match member(m, key) {
        Some(JsonModel::Array(items)) => Some(items),
        _ => None,
    }
}

/// The object `m` with the member `key` set to `v`.
pub open spec fn with_member(m: JsonModel, key: Seq<char>, v: JsonModel) -> JsonModel {
    match m {
        JsonModel::Object(o) => JsonModel::Object(o.insert(key, v)),
        _ => m,
    }
}

/// The object without members.
pub open spec fn no_members() -> JsonModel {
    JsonModel::Object(Map::empty())
}

/// A list of texts.
pub open spec fn text_array(items: Seq<Seq<char>>) -> JsonModel {
    JsonModel::Array(items.map_values(|s: Seq<char>| JsonModel::Str(s)))
}

proof fn lemma_absent(members: Seq<(String, Json)>, key: Seq<char>)
    requires
        forall|i: int| 0 <= i < members.len() ==> (#[trigger] members[i]).0@ != key,
    ensures
        !members_model(members).dom().contains(key),
    decreases members.len(),
{
    if members.len() > 0 {
        assert(members.last() == members[members.len() - 1]);
        assert forall|i: int| 0 <= i < members.drop_last().len() implies (
        #[trigger] members.drop_last()[i]).0@ != key by {
            assert(members[i].0@ != key);
        }
        lemma_absent(members.drop_last(), key);
    }
}

proof fn lemma_present(members: Seq<(String, Json)>, at: int)
    requires
        0 <= at < members.len(),
        forall|i: int| at < i < members.len() ==> (#[trigger] members[i]).0@ != members[at].0@,
    ensures
        members_model(members).dom().contains(members[at].0@),
        members_model(members)[members[at].0@] == json_model(members[at].1),
    decreases members.len(),
{
    let n = members.len();
    if at < n - 1 {
        assert(members.last() == members[n - 1]);
        let front = members.drop_last();
        assert(front[at] == members[at]);
        assert forall|i: int| at < i < front.len() implies (#[trigger] front[i]).0@
            != front[at].0@ by {
            assert(members[i].0@ != members[at].0@);
        }
        lemma_present(front, at);
    }
}

impl Json {
    /// The number `n`.
    pub fn number(n: u64) -> (r: Json)
        ensures
            r@ == JsonModel::Unsigned(n),
    {
        Json::Number(number_from(n))
    }

    /// The text `s`.
    pub fn text(s: &str) -> (r: Json)
        ensures
            r@ == JsonModel::Str(s@),
    {
        Json::Str(s.to_owned())
    }

    /// The object without members.
    pub fn object() -> (r: Json)
        ensures
            r@ == no_members(),
    {
        Json::Object(Vec::new())
    }

    /// The texts as a list.
    pub fn texts(items: &[String]) -> (r: Json)
        ensures
            r@ == text_array(crate::text::texts(items@)),
    {
        let mut out: Vec<Json> = Vec::new();
        let mut i: usize = 0;
        while i < items.len()
            invariant
                i <= items@.len(),
                out@.len() == i,
                forall|k: int|
                    0 <= k < i ==> json_model(#[trigger] out@[k]) == JsonModel::Str(items@[k]@),
            decreases items@.len() - i,
        {
            out.push(Json::Str(items[i].clone()));
            i += 1;
        }
        assert(json_models(out@) =~= crate::text::texts(items@).map_values(
            |s: Seq<char>| JsonModel::Str(s),
        ));
        Json::Array(out)
    }

    /// This value in compact form.
    pub fn render(&self) -> (r: String)
        ensures
            r@ == json_text(self@),
    {
        value_text(&value_of(self))
    }

    /// The member with the given name.
    pub fn get(&self, key: &str) -> (r: Option<&Json>)
        ensures
            match r {
                Some(v) => member(self@, key@) == Some(v@),
                None => member(self@, key@) is None,
            },
    {
        match self {
            Json::Object(members) => {
                let mut i: usize = members.len();
                while i > 0
                    invariant
                        i <= members@.len(),
                        self@ == JsonModel::Object(members_model(members@)),
                        forall|k: int|
                            i <= k < members@.len() ==> (#[trigger] members@[k]).0@ != key@,
                    decreases i,
                {
                    i -= 1;
                    if same(members[i].0.as_str(), key) {
                        proof {
                            lemma_present(members@, i as int);
                        }
                        return Some(&members[i].1);
                    }
                }
                proof {
                    lemma_absent(members@, key@);
                }
                None
            },
            _ => None,
        }
    }

    /// The text that this is.
    pub fn as_str(&self) -> (r: Option<&str>)
        ensures
            match r {
                Some(s) => text_in(self@) == Some(s@),
                None => text_in(self@) is None,
            },
    {
        match self {
            Json::Str(s) => Some(s.as_str()),
            _ => None,
        }
    }

    /// The `u64` that this is.
    pub fn as_u64(&self) -> (r: Option<u64>)
        ensures
            r == number_in(self@),
    {
        match self {
            Json::Number(n) => n.as_u64(),
            _ => None,
        }
    }

    /// The text under the given name.
    pub fn text_at(&self, key: &str) -> (r: Option<&str>)
        ensures
            match r {
                Some(s) => text_at(self@, key@) == Some(s@),
                None => text_at(self@, key@) is None,
            },
    {
        match self.get(key) {
            Some(v) => v.as_str(),
            None => None,
        }
    }

    /// The `u64` under the given name.
    pub fn number_at(&self, key: &str) -> (r: Option<u64>)
        ensures
            r == number_at(self@, key@),
    {
        match self.get(key) {
            Some(v) => v.as_u64(),
            None => None,
        }
    }

    /// The truth value under the given name.
    pub fn bool_at(&self, key: &str) -> (r: Option<bool>)
        ensures
            r == bool_at(self@, key@),
    {
        match self.get(key) {
            Some(Json::Bool(b)) => Some(*b),
            _ => None,
        }
    }

    /// The list under the given name.
    pub fn array_at(&self, key: &str) -> (r: Option<&Vec<Json>>)
        ensures
            match r {
                Some(items) => array_at(self@, key@) == Some(json_models(items@)),
                None => array_at(self@, key@) is None,
            },
    {
        match self.get(key) {
            Some(Json::Array(items)) => Some(items),
            _ => None,
        }
    }

    /// Sets the member with the given name; only an object has members.
    pub fn set(&mut self, key: &str, v: Json)
        ensures
            final(self)@ == with_member(old(self)@, key@, v@),
    {
        match self {
            Json::Object(members) => {
                let ghost before = members@;
                members.push((key.to_owned(), v));
                assert(members@.drop_last() =~= before);
            },
            _ => {},
        }
    }
}

impl Clone for Json {
    fn clone(&self) -> (r: Json)
        ensures
            r@ == self@,
        decreases *self,
    {
        match self {
            Json::Null => Json::Null,
            Json::Bool(b) => Json::Bool(*b),
            Json::Number(n) => Json::Number(n.clone()),
            Json::Str(s) => Json::Str(s.clone()),
            Json::Array(items) => {
                let mut copies: Vec<Json> = Vec::new();
                let mut i: usize = 0;
                while i < items.len()
                    invariant
                        i <= items.len(),
                        *self == Json::Array(*items),
                        copies@.len() == i,
                        forall|k: int|
                            0 <= k < i ==> json_model(#[trigger] copies@[k]) == json_model(
                                items@[k],
                            ),
                    decreases items.len() - i,
                {
                    assert(decreases_to!(*self => self->Array_0));
                    assert(decreases_to!(*self => self->Array_0[i as int]));
                    copies.push(items[i].clone());
                    i += 1;
                }
                assert(json_models(copies@) =~= json_models(items@));
                Json::Array(copies)
            },
            Json::Object(members) => {
                let mut copies: Vec<(String, Json)> = Vec::new();
                let mut i: usize = 0;
                assert(members@.take(0) =~= copies@);
                while i < members.len()
                    invariant
                        i <= members.len(),
                        *self == Json::Object(*members),
                        members_model(copies@) == members_model(members@.take(i as int)),
                    decreases members.len() - i,
                {
                    assert(decreases_to!(*self => self->Object_0));
                    assert(decreases_to!(*self => self->Object_0[i as int]));
                    assert(decreases_to!(*self => self->Object_0[i as int].1));
                    let ghost before = copies@;
                    copies.push((members[i].0.clone(), members[i].1.clone()));
                    assert(copies@.drop_last() =~= before);
                    assert(members@.take(i + 1).drop_last() =~= members@.take(i as int));
                    i += 1;
                }
                assert(members@.take(i as int) =~= members@);
                Json::Object(copies)
            },
        }
    }
}

// ---- laws -----------------------------------------------------------------------------

/// A member is read as a text, a number, a truth value or a list exactly where it is one.
pub proof fn law_readings(
    m: JsonModel,
    key: Seq<char>,
    s: Seq<char>,
    n: u64,
    b: bool,
    items: Seq<JsonModel>,
)
    ensures
        text_at(m, key) == Some(s) <==> member(m, key) == Some(JsonModel::Str(s)),
        number_at(m, key) == Some(n) <==> member(m, key) == Some(JsonModel::Unsigned(n)),
        bool_at(m, key) == Some(b) <==> member(m, key) == Some(JsonModel::Bool(b)),
        array_at(m, key) == Some(items) <==> member(m, key) == Some(JsonModel::Array(items)),
{
}

/// Setting a member of an object gives it that value and leaves every other member as it was; what is
/// no object has no members.
pub proof fn law_member_set(m: JsonModel, key: Seq<char>, v: JsonModel, other: Seq<char>)
    ensures
        m is Object ==> member(with_member(m, key, v), key) == Some(v),
        other != key ==> member(with_member(m, key, v), other) == member(m, other),
        !(m is Object) ==> member(m, other) is None,
        member(no_members(), other) is None,
{
}

/// A value stands for what it holds: a list for its items, an object for its members, of which the
/// later counts where two have the same name.
pub proof fn law_json_view(
    b: bool,
    s: String,
    items: Vec<Json>,
    members: Vec<(String, Json)>,
    i: int,
)
    ensures
        Json::Null@ is Null,
        Json::Bool(b)@ == JsonModel::Bool(b),
        Json::Str(s)@ == JsonModel::Str(s@),
        match Json::Array(items)@ {
            JsonModel::Array(all) => {
                &&& all.len() == items@.len()
                &&& forall|k: int| 0 <= k < items@.len() ==> #[trigger] all[k] == items@[k]@
            },
            _ => false,
        },
        Json::Object(members)@ is Object,
        0 <= i < members@.len() && (forall|k: int|
            i < k < members@.len() ==> (#[trigger] members@[k]).0@ != members@[i].0@) ==> member(
            Json::Object(members)@,
            members@[i].0@,
        ) == Some(members@[i].1@),
{
    if 0 <= i < members@.len() && (forall|k: int|
        i < k < members@.len() ==> (#[trigger] members@[k]).0@ != members@[i].0@) {
        lemma_present(members@, i);
    }
}

} // verus!
