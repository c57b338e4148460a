//! The persisted form of the configuration store: one JSON document that
//! holds the profiles, the current profile and the name selected last.

use crate::json::{
    find_member, json_parse, json_pretty_text, lemma_object_view, member_views, parse, pretty_text,
    Json, JsonView,
};
use crate::members::normal;
use crate::store::{
    lemma_restored_own_parts, profile_views, restored, text_of, ConfigStore, Profile, StoreView,
};
use vstd::prelude::*;

verus! {

/// The key of the profiles in the persisted document.
pub open spec fn profiles_key() -> Seq<char> {
    "profiles"@
}

/// The key of the current profile in the persisted document.
pub open spec fn current_key() -> Seq<char> {
    "currentProfile"@
}

/// The key of the name selected last in the persisted document.
pub open spec fn last_selected_key() -> Seq<char> {
    "lastSelectedProfile"@
}

/// A name as a JSON value: a string, or null where there is none.
pub open spec fn name_json(name: Option<Seq<char>>) -> JsonView {
    match name {
        Some(text) => JsonView::String(text),
        None => JsonView::Null,
    }
}

/// The name that a JSON value gives: that of a string, none for any other
/// value and for a value that is missing.
pub open spec fn json_name(value: Option<JsonView>) -> Option<Seq<char>> {
    match value {
        Some(JsonView::String(text)) => Some(text),
        _ => None,
    }
}

/// The named documents that a JSON value gives: the members of an object,
/// none for any other value and for a value that is missing.
pub open spec fn json_entries(value: Option<JsonView>) -> Seq<(Seq<char>, JsonView)> {
    match value {
        Some(JsonView::Object(members)) => members,
        _ => Seq::empty(),
    }
}

/// The document that is written for a store.
pub open spec fn config_json(store: StoreView) -> JsonView {
    JsonView::Object(
        seq![
            (current_key(), name_json(store.current)),
            (last_selected_key(), name_json(store.last_selected)),
            (profiles_key(), JsonView::Object(store.profiles)),
        ],
    )
}

/// The store that a document holds. What is missing or has another shape
/// than expected counts as absent: the profiles default to none, and so do
/// the two names. A current profile that is not among the profiles counts as
/// absent too.
pub open spec fn config_of_json(json: JsonView) -> StoreView {
    restored(
        json_entries(json.member(profiles_key())),
        json_name(json.member(current_key())),
        json_name(json.member(last_selected_key())),
    )
}

/// The store that a configuration text holds, given what the text parses to:
/// the empty store where it is no JSON text.
pub open spec fn loaded(parsed: Option<JsonView>) -> StoreView {
    match parsed {
        Some(json) => config_of_json(json),
        None => StoreView::empty(),
    }
}

/// The three keys of the persisted document differ from each other.
pub proof fn lemma_keys_differ()
    ensures
        profiles_key() != current_key(),
        profiles_key() != last_selected_key(),
        current_key() != last_selected_key(),
{
    reveal_strlit("profiles");
    reveal_strlit("currentProfile");
    reveal_strlit("lastSelectedProfile");
    assert(profiles_key().len() == 8);
    assert(current_key().len() == 14);
    assert(last_selected_key().len() == 19);
}

/// The document that is written for a well-formed store holds that store.
pub proof fn lemma_config_round_trip(store: StoreView)
    requires
        store.wf(),
    ensures
        config_of_json(config_json(store)) == store,
{
    lemma_keys_differ();
    let members = seq![
        (current_key(), name_json(store.current)),
        (last_selected_key(), name_json(store.last_selected)),
        (profiles_key(), JsonView::Object(store.profiles)),
    ];
    let two = members.drop_last();
    let one = two.drop_last();
    assert(members.last() == (profiles_key(), JsonView::Object(store.profiles)));
    assert(two.last() == (last_selected_key(), name_json(store.last_selected)));
    assert(one.last() == (current_key(), name_json(store.current)));
    assert(find_member(members, profiles_key()) == Some(JsonView::Object(store.profiles)));
    assert(find_member(two, last_selected_key()) == Some(name_json(store.last_selected)));
    assert(find_member(one, current_key()) == Some(name_json(store.current)));
    assert(find_member(two, current_key()) == find_member(one, current_key()));
    assert(find_member(members, current_key()) == find_member(two, current_key()));
    assert(find_member(members, last_selected_key()) == find_member(two, last_selected_key()));
    lemma_restored_own_parts(store);
}

/// A document that was saved is found again, in its normal form, in the
/// store that the written document holds.
pub proof fn lemma_saved_document_is_kept(store: StoreView, name: Seq<char>, document: JsonView)
    requires
        store.wf(),
    ensures
        config_of_json(config_json(store.saved(name, document))).document(name) == Some(
            normal(document),
        ),
{
    crate::store::lemma_saved(store, name, document);
    let after = store.saved(name, document);
    lemma_config_round_trip(after);
    assert(after.documents().dom().contains(name));
    assert(after.documents()[name] == normal(document));
}

/// A name as a JSON value.
fn name_value(name: Option<String>) -> (json: Json)
    ensures
        json@ == name_json(text_of(name)),
{
    match name {
        Some(text) => Json::String(text),
        None => Json::Null,
    }
}

/// The document that is written for a store.
pub fn to_json(store: &ConfigStore) -> (json: Json)
    ensures
        json@ == config_json(store@),
{
    let profiles = store.profiles();
    let mut entries: Vec<(String, Json)> = Vec::new();
    let mut i: usize = 0;
    while i < profiles.len()
        invariant
            i <= profiles.len(),
            entries.len() == i,
            forall|k: int|
                0 <= k < i ==> entries@[k].0@ == profiles@[k].name@ && entries@[k].1@
                    == profiles@[k].document@,
        decreases profiles.len() - i,
    {
        entries.push((profiles[i].name.clone(), profiles[i].document.duplicate()));
        i += 1;
    }
    proof {
        lemma_object_view(entries);
        assert(member_views(entries@) =~= profile_views(profiles@));
    }
    let mut members: Vec<(String, Json)> = Vec::new();
    members.push(("currentProfile".to_owned(), name_value(store.current_profile())));
    members.push(("lastSelectedProfile".to_owned(), name_value(store.get_last_selected())));
    members.push(("profiles".to_owned(), Json::Object(entries)));
    proof {
        lemma_object_view(members);
        assert(member_views(members@) =~= seq![
            (current_key(), name_json(store@.current)),
            (last_selected_key(), name_json(store@.last_selected)),
            (profiles_key(), JsonView::Object(store@.profiles)),
        ]);
    }
    Json::Object(members)
}

/// The name that a JSON value gives.
fn value_name(value: Option<&Json>) -> (name: Option<String>)
    ensures
        text_of(name) == json_name(
            match value {
                Some(json) => Some(json@),
                None => None,
            },
        ),
{
    match value {
        Some(Json::String(text)) => Some(text.clone()),
        _ => None,
    }
}

/// The named documents that a JSON value gives, as profiles.
fn value_profiles(value: Option<&Json>) -> (profiles: Vec<Profile>)
    ensures
        profile_views(profiles@) == json_entries(
            match value {
                Some(json) => Some(json@),
                None => None,
            },
        ),
{
    let mut profiles: Vec<Profile> = Vec::new();
    match value {
        Some(Json::Object(members)) => {
            proof {
                lemma_object_view(*members);
            }
            let mut i: usize = 0;
            while i < members.len()
                invariant
                    i <= members.len(),
                    profiles.len() == i,
                    forall|k: int|
                        0 <= k < i ==> profiles@[k].name@ == members@[k].0@
                            && profiles@[k].document@ == members@[k].1@,
                decreases members.len() - i,
            {
                profiles.push(
                    Profile { name: members[i].0.clone(), document: members[i].1.duplicate() },
                );
                i += 1;
            }
        },
        _ => {},
    }
    profiles
}

/// The store that a document holds.
pub fn from_json(json: &Json) -> (store: ConfigStore)
    ensures
        store.wf(),
        store@ == config_of_json(json@),
{
    let profiles = value_profiles(json.member("profiles"));
    let current = value_name(json.member("currentProfile"));
    let last_selected = value_name(json.member("lastSelectedProfile"));
    ConfigStore::restore(profiles, current, last_selected)
}

/// Reads the store from the text of a configuration file. A text that is no
/// JSON gives the empty store.
pub fn load_config(text: &str) -> (store: ConfigStore)
    ensures
        store.wf(),
        store@ == loaded(json_parse(text@)),
{
    match parse(text) {
        Some(json) => from_json(&json),
        None => ConfigStore::new(),
    }
}

/// The text that is written for a store: its document, indented.
pub open spec fn config_text_of(store: StoreView) -> Seq<char> {
    json_pretty_text(config_json(store))
}

/// The text to write for a store: its document, indented.
pub fn save_config(store: &ConfigStore) -> (text: String)
    ensures
        text@ == config_text_of(store@),
{
    let json = to_json(store);
    pretty_text(&json)
}

} // verus!
