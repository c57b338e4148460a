//! JSON documents as a tree of the library's own, and the calls into
//! `serde_json` that read and write their text.

use crate::members::is_normal;
use serde_json::Value;
use vstd::prelude::*;

verus! {

/// `serde_json::Number`, a JSON number. Nothing is known of what it holds: a
/// document carries its numbers from the reader to the writer untouched.
#[verifier::external_type_specification]
#[verifier::external_body]
pub struct ExNumber(serde_json::Number);

/// `serde_json::Value`, the tree that `serde_json` reads and writes. It
/// occurs only where a `Json` is turned into it or made from it.
#[verifier::external_type_specification]
#[verifier::external_body]
pub struct ExValue(serde_json::Value);

/// `serde_json::Error`, the reason for which reading or writing failed.
/// Nothing is read from it.
#[verifier::external_type_specification]
#[verifier::external_body]
pub struct ExError(serde_json::Error);

/// A JSON document. Numbers are carried as `serde_json` holds them; the
/// members of an object are kept in a list, in which a later member hides an
/// earlier one with the same key.
#[derive(Debug, PartialEq, Eq)]
pub enum Json {
    Null,
    Bool(bool),
    Number(serde_json::Number),
    String(String),
    Array(Vec<Json>),
    Object(Vec<(String, Json)>),
}

/// The mathematical value of a `Json`.
pub enum JsonView {
    Null,
    Bool(bool),
    Number(serde_json::Number),
    String(Seq<char>),
    Array(Seq<JsonView>),
    Object(Seq<(Seq<char>, JsonView)>),
}

/// The value of a document.
pub open spec fn json_view(json: Json) -> JsonView
    decreases json, 0nat,
{
    match json {
        Json::Null => JsonView::Null,
        Json::Bool(b) => JsonView::Bool(b),
        Json::Number(n) => JsonView::Number(n),
        Json::String(s) => JsonView::String(s@),
        Json::Array(items) => JsonView::Array(first_item_views(items, items@.len())),
        Json::Object(members) => JsonView::Object(first_member_views(members, members@.len())),
    }
}

/// The values of the first `n` items of a list of documents.
pub open spec fn first_item_views(items: Vec<Json>, n: nat) -> Seq<JsonView>
    decreases items, n,
{
    if n == 0 || n > items@.len() {
        Seq::empty()
    } else {
        first_item_views(items, (n - 1) as nat).push(json_view(items@[n - 1]))
    }
}

/// The keys and values of the first `n` members of a member list.
pub open spec fn first_member_views(members: Vec<(String, Json)>, n: nat) -> Seq<
    (Seq<char>, JsonView),
>
    decreases members, n,
{
    if n == 0 || n > members@.len() {
        Seq::empty()
    } else {
        first_member_views(members, (n - 1) as nat).push(
            (members@[n - 1].0@, json_view(members@[n - 1].1)),
        )
    }
}

impl View for Json {
    type V = JsonView;

    open spec fn view(&self) -> JsonView {
        json_view(*self)
    }
}

/// The views of a list of documents.
pub open spec fn views_of(items: Seq<Json>) -> Seq<JsonView> {
    Seq::new(items.len(), |i: int| items[i]@)
}

/// The views of a list of object members.
pub open spec fn member_views(members: Seq<(String, Json)>) -> Seq<(Seq<char>, JsonView)> {
    Seq::new(members.len(), |i: int| (members[i].0@, members[i].1@))
}

/// The value that a member list gives to `key`: that of the last member with
/// this key.
pub open spec fn find_member(members: Seq<(Seq<char>, JsonView)>, key: Seq<char>) -> Option<
    JsonView,
>
    decreases members.len(),
{
    if members.len() == 0 {
        None
    } else if members.last().0 == key {
        Some(members.last().1)
    } else {
        find_member(members.drop_last(), key)
    }
}

impl JsonView {
    /// The value under `key`, if this is an object that has such a member.
    pub open spec fn member(self, key: Seq<char>) -> Option<JsonView> {
        match self {
            JsonView::Object(members) => find_member(members, key),
            _ => None,
        }
    }

    /// The characters of this value, if it is a string.
    pub open spec fn text(self) -> Option<Seq<char>> {
        match self {
            JsonView::String(s) => Some(s),
            _ => None,
        }
    }
}

proof fn lemma_first_item_views(items: Vec<Json>, n: nat)
    requires
        n <= items@.len(),
    ensures
        first_item_views(items, n) == views_of(items@.take(n as int)),
    decreases n,
{
    if n > 0 {
        lemma_first_item_views(items, (n - 1) as nat);
        assert(views_of(items@.take(n - 1)).push(items@[n - 1]@) =~= views_of(
            items@.take(n as int),
        ));
    } else {
        assert(first_item_views(items, n) =~= views_of(items@.take(n as int)));
    }
}

proof fn lemma_first_member_views(members: Vec<(String, Json)>, n: nat)
    requires
        n <= members@.len(),
    ensures
        first_member_views(members, n) == member_views(members@.take(n as int)),
    decreases n,
{
    if n > 0 {
        lemma_first_member_views(members, (n - 1) as nat);
        assert(member_views(members@.take(n - 1)).push(
            (members@[n - 1].0@, members@[n - 1].1@),
        ) =~= member_views(members@.take(n as int)));
    } else {
        assert(first_member_views(members, n) =~= member_views(members@.take(n as int)));
    }
}

/// The view of an array is the list of its items' views.
pub proof fn lemma_array_view(items: Vec<Json>)
    ensures
        Json::Array(items)@ == JsonView::Array(views_of(items@)),
{
    lemma_first_item_views(items, items@.len());
    assert(items@.take(items@.len() as int) == items@);
}

/// The view of an object is the list of its members' views.
pub proof fn lemma_object_view(members: Vec<(String, Json)>)
    ensures
        Json::Object(members)@ == JsonView::Object(member_views(members@)),
{
    lemma_first_member_views(members, members@.len());
    assert(members@.take(members@.len() as int) == members@);
}

/// What `serde_json::from_str` makes of a text: the document it holds, or
/// `None` where it is no JSON text.
pub uninterp spec fn json_parse(text: Seq<char>) -> Option<JsonView>;

/// The compact text that `serde_json::to_string` writes for a document.
pub uninterp spec fn json_text(value: JsonView) -> Seq<char>;

/// The indented text that `serde_json::to_string_pretty` writes for a
/// document.
pub uninterp spec fn json_pretty_text(value: JsonView) -> Seq<char>;

/// Turns a `serde_json::Value` into a `Json`, variant by variant: each
/// field is moved over as it is, the items of an array in their order, the
/// members of an object in the order in which its `Map` hands them out. The
/// reader below converts its result with it. Verus does not see a `Value`, so
/// nothing is stated here; what the reader claims is claimed of the `Json`.
#[verifier::external_body]
pub(crate) fn json_from_value(value: Value) -> Json {
    match value {
        Value::Null => Json::Null,
        Value::Bool(b) => Json::Bool(b),
        Value::Number(n) => Json::Number(n),
        Value::String(s) => Json::String(s),
        Value::Array(items) => Json::Array(items.into_iter().map(json_from_value).collect()),
        Value::Object(members) => Json::Object(
            members.into_iter().map(|(k, v)| (k, json_from_value(v))).collect(),
        ),
    }
}

/// Turns a `Json` into a `serde_json::Value`, variant by variant: each
/// field is copied as it is, the items of an array in their order, the
/// members of an object inserted into its `Map` one after the other, so that
/// a later member replaces an earlier one with the same key and the map
/// holds the members in the order of their keys. The writers convert their
/// argument with it. Verus does not see a `Value`, so nothing is stated here;
/// what the callers claim is claimed of the `Json`.
#[verifier::external_body]
pub(crate) fn value_from_json(json: &Json) -> Value {
    match json {
        Json::Null => Value::Null,
        Json::Bool(b) => Value::Bool(*b),
        Json::Number(n) => Value::Number(n.clone()),
        Json::String(s) => Value::String(s.clone()),
        Json::Array(items) => Value::Array(items.iter().map(value_from_json).collect()),
        Json::Object(members) => {
            let mut map = serde_json::Map::new();
            for (key, value) in members {
                map.insert(key.clone(), value_from_json(value));
            }
            Value::Object(map)
        },
    }
}

/// Calls `serde_json::from_str` for a `Value` and hands the value on as a
/// `Json`. Whether the call succeeds, and the value it returns, depend on
/// the text alone: the contract gives that result the name `json_parse`. The
/// document comes from a `Value`, whose objects are maps, so it is in its
/// normal form: in every object each key occurs once and the members stand
/// in the order of their keys.
#[verifier::external_body]
fn read_value(text: &str) -> (r: Result<Json, serde_json::Error>)
    ensures
        match r {
            Ok(json) => json_parse(text@) == Some(json@) && is_normal(json@),
            Err(_) => json_parse(text@) is None,
        },
{
    serde_json::from_str::<Value>(text).map(json_from_value)
}

/// Calls `serde_json::to_string` on the document as a `Value`. The contract
/// claims two things. The call succeeds: it fails only where the `Serialize`
/// impl of its argument fails or a map has a key that is no string, and that
/// of `Value` only hands its parts to the serializer, with `String` keys,
/// while the serializer writes into memory. And the text depends on the
/// document alone: the contract gives it the name `json_text`.
#[verifier::external_body]
fn write_value(json: &Json) -> (r: Result<String, serde_json::Error>)
    ensures
        match r {
            Ok(text) => text@ == json_text(json@),
            Err(_) => false,
        },
{
    serde_json::to_string(&value_from_json(json))
}

/// Calls `serde_json::to_string_pretty` on the document as a `Value`. The
/// contract claims that the call succeeds, for the reason given at
/// `write_value`, and that the text depends on the document alone: it gives
/// the text the name `json_pretty_text`.
#[verifier::external_body]
fn write_value_pretty(json: &Json) -> (r: Result<String, serde_json::Error>)
    ensures
        match r {
            Ok(text) => text@ == json_pretty_text(json@),
            Err(_) => false,
        },
{
    serde_json::to_string_pretty(&value_from_json(json))
}

/// `Clone::clone` as `serde_json::Number` derives it: the copy is the same
/// number.
pub assume_specification[ <serde_json::Number as Clone>::clone ](n: &serde_json::Number) -> (r:
    serde_json::Number)
    ensures
        r == *n,
;

/// Reads a JSON text: `Some` document exactly when the text is JSON. The
/// document is in its normal form.
pub fn parse(text: &str) -> (r: Option<Json>)
    ensures
        r.is_some() == json_parse(text@).is_some(),
        r matches Some(json) ==> json_parse(text@) == Some(json@) && is_normal(json@),
{
    match read_value(text) {
        Ok(json) => Some(json),
        Err(_) => None,
    }
}

/// The compact text of a document.
pub fn compact_text(json: &Json) -> (text: String)
    ensures
        text@ == json_text(json@),
{
    match write_value(json) {
        Ok(text) => text,
        Err(_) => unreached(),
    }
}

/// The indented text of a document.
pub fn pretty_text(json: &Json) -> (text: String)
    ensures
        text@ == json_pretty_text(json@),
{
    match write_value_pretty(json) {
        Ok(text) => text,
        Err(_) => unreached(),
    }
}

impl Json {
    /// A copy of this document.
    pub fn duplicate(&self) -> (r: Json)
        ensures
            r@ == self@,
        decreases self,
    {
        match self {
            Json::Null => Json::Null,
            Json::Bool(b) => Json::Bool(*b),
            Json::Number(n) => Json::Number(n.clone()),
            Json::String(s) => Json::String(s.clone()),
            Json::Array(items) => {
                let mut copy: Vec<Json> = Vec::new();
                let mut i: usize = 0;
                while i < items.len()
                    invariant
                        i <= items.len(),
                        copy.len() == i,
                        *self == Json::Array(*items),
                        forall|k: int| 0 <= k < i ==> copy@[k]@ == items@[k]@,
                    decreases items.len() - i,
                {
                    assert(decreases_to!(*self => self->Array_0));
                    let item = items[i].duplicate();
                    copy.push(item);
                    i += 1;
                }
                proof {
                    lemma_array_view(copy);
                    lemma_array_view(*items);
                    assert(views_of(copy@) =~= views_of(items@));
                }
                Json::Array(copy)
            },
            Json::Object(members) => {
                let mut copy: Vec<(String, Json)> = Vec::new();
                let mut i: usize = 0;
                while i < members.len()
                    invariant
                        i <= members.len(),
                        copy.len() == i,
                        *self == Json::Object(*members),
                        forall|k: int|
                            0 <= k < i ==> copy@[k].0@ == members@[k].0@ && copy@[k].1@
                                == members@[k].1@,
                    decreases members.len() - i,
                {
                    let key = members[i].0.clone();
                    assert(decreases_to!(*self => self->Object_0));
                    let value = members[i].1.duplicate();
                    copy.push((key, value));
                    i += 1;
                }
                proof {
                    lemma_object_view(copy);
                    lemma_object_view(*members);
                    assert(member_views(copy@) =~= member_views(members@));
                }
                Json::Object(copy)
            },
        }
    }

    /// The value under `key`, if this is an object that has such a member.
    pub fn member(&self, key: &str) -> (r: Option<&Json>)
        ensures
            match r {
                Some(found) => self@.member(key@) == Some(found@),
                None => self@.member(key@) is None,
            },
    {
        match self {
            Json::Object(members) => {
                proof {
                    lemma_object_view(*members);
                }
                let wanted = key.to_owned();
                let mut i: usize = members.len();
                assert(member_views(members@).take(i as int) == member_views(members@));
                while i > 0
                    invariant
                        i <= members.len(),
                        wanted@ == key@,
                        self@ == JsonView::Object(member_views(members@)),
                        find_member(member_views(members@), key@) == find_member(
                            member_views(members@).take(i as int),
                            key@,
                        ),
                    decreases i,
                {
                    i -= 1;
                    assert(member_views(members@).take(i + 1).drop_last() == member_views(
                        members@,
                    ).take(i as int));
                    if members[i].0 == wanted {
                        return Some(&members[i].1);
                    }
                }
                None
            },
            _ => None,
        }
    }

    /// The characters of this value, if it is a string.
    pub fn as_text(&self) -> (r: Option<&String>)
        ensures
            match r {
                Some(s) => self@.text() == Some(s@),
                None => self@.text() is None,
            },
    {
        match self {
            Json::String(s) => Some(s),
            _ => None,
        }
    }
}

} // verus!
