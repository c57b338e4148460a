//! The configuration store: named profiles, the current profile and the
//! profile that was selected last.

use crate::error::ErrorKind;
use crate::json::{find_member, member_views, Json, JsonView};
use crate::members::{
    all_normal, ascending, keys_of, lemma_ascending_distinct, lemma_find,
    lemma_normal_members_own, lemma_normal_twice, lemma_put, lemma_put_normal, lemma_taken,
    lemma_taken_normal, map_members, members_get, members_has, members_insert, members_list,
    members_new, members_remove, normal, normal_members, put, taken,
};
use crate::text::texts;
use serde_json::Value;
use vstd::prelude::*;

verus! {

/// A named keybinding document.
#[derive(Debug, PartialEq, Eq)]
pub struct Profile {
    pub name: String,
    pub document: Json,
}

/// The configuration store. Its profiles are held in a map, by their names;
/// its operations keep its current profile, if there is one, among them.
pub struct ConfigStore {
    profiles: serde_json::Map<String, Value>,
    current_profile: Option<String>,
    last_selected_profile: Option<String>,
}

/// The mathematical value of a store: its profiles in the order of their
/// names, the name of the current profile and the name that was selected
/// last.
pub struct StoreView {
    pub profiles: Seq<(Seq<char>, JsonView)>,
    pub current: Option<Seq<char>>,
    pub last_selected: Option<Seq<char>>,
}

/// The text of a string that may be absent.
pub open spec fn text_of(name: Option<String>) -> Option<Seq<char>> {
    match name {
        Some(s) => Some(s@),
        None => None,
    }
}

impl StoreView {
    /// The store without profiles.
    pub open spec fn empty() -> StoreView {
        StoreView { profiles: Seq::empty(), current: None, last_selected: None }
    }

    /// The names of the profiles, in their order.
    pub open spec fn names(self) -> Seq<Seq<char>> {
        keys_of(self.profiles)
    }

    /// Whether a profile has this name.
    pub open spec fn has(self, name: Seq<char>) -> bool {
        self.names().contains(name)
    }

    /// The document of the profile with this name.
    pub open spec fn document(self, name: Seq<char>) -> Option<JsonView> {
        find_member(self.profiles, name)
    }

    /// The documents by the names of their profiles.
    pub open spec fn documents(self) -> Map<Seq<char>, JsonView> {
        Map::new(|name: Seq<char>| self.has(name), |name: Seq<char>| self.document(name).unwrap())
    }

    /// The names of the profiles are in ascending order, so that no two
    /// profiles share a name; each document is as the store keeps documents;
    /// and the current profile is one of the profiles.
    pub open spec fn wf(self) -> bool {
        &&& ascending(self.names())
        &&& all_normal(self.profiles)
        &&& self.current matches Some(name) ==> self.has(name)
    }

    /// The store after `document` was saved under `name`: the profile is
    /// replaced, or added at the place of its name, and holds the document as
    /// the store keeps documents, `normal`. A store without current profile
    /// makes this one current.
    pub open spec fn saved(self, name: Seq<char>, document: JsonView) -> StoreView {
        StoreView {
            profiles: put(self.profiles, name, normal(document)),
            current: if self.current is None {
                Some(name)
            } else {
                self.current
            },
            last_selected: self.last_selected,
        }
    }

    /// The store after the profile `name` was deleted: where it was the
    /// current one, there is no current profile any more.
    pub open spec fn deleted(self, name: Seq<char>) -> StoreView {
        StoreView {
            profiles: taken(self.profiles, name),
            current: if self.current == Some(name) {
                None
            } else {
                self.current
            },
            last_selected: self.last_selected,
        }
    }

    /// The store after the switch to the profile `name`.
    pub open spec fn switched(self, name: Seq<char>) -> StoreView {
        StoreView { profiles: self.profiles, current: Some(name), last_selected: self.last_selected }
    }

    /// The store after `name` was recorded as selected last: it becomes the
    /// current profile too where a profile has this name.
    pub open spec fn recorded(self, name: Seq<char>) -> StoreView {
        StoreView {
            profiles: self.profiles,
            current: if self.has(name) {
                Some(name)
            } else {
                self.current
            },
            last_selected: Some(name),
        }
    }
}

/// The profiles that a list of named documents makes, taken one after the
/// other: a later document replaces an earlier one of the same name, each
/// document is kept in its normal form, and the profiles stand in the order
/// of their names.
pub open spec fn merged(entries: Seq<(Seq<char>, JsonView)>) -> Seq<(Seq<char>, JsonView)> {
    normal_members(entries, entries.len())
}

/// The store that holds the given named documents, with `current` as its
/// current profile where a profile has that name, and none where none has.
pub open spec fn restored(
    entries: Seq<(Seq<char>, JsonView)>,
    current: Option<Seq<char>>,
    last_selected: Option<Seq<char>>,
) -> StoreView {
    let profiles = merged(entries);
    StoreView {
        profiles,
        current: match current {
            Some(name) => if keys_of(profiles).contains(name) {
                Some(name)
            } else {
                None
            },
            None => None,
        },
        last_selected,
    }
}

/// The names and documents of a list of profiles.
pub open spec fn profile_views(profiles: Seq<Profile>) -> Seq<(Seq<char>, JsonView)> {
    Seq::new(profiles.len(), |i: int| (profiles[i].name@, profiles[i].document@))
}

/// Restoring a well-formed store from its own parts gives the store back.
pub proof fn lemma_restored_own_parts(store: StoreView)
    requires
        store.wf(),
    ensures
        restored(store.profiles, store.current, store.last_selected) == store,
{
    lemma_normal_members_own(store.profiles, store.profiles.len());
    assert(store.profiles.take(store.profiles.len() as int) =~= store.profiles);
}

/// Saving keeps a store well formed, files the document under the name and
/// leaves every other profile as it was.
pub proof fn lemma_saved(store: StoreView, name: Seq<char>, document: JsonView)
    requires
        store.wf(),
    ensures
        store.saved(name, document).wf(),
        store.saved(name, document).document(name) == Some(normal(document)),
        store.saved(name, document).documents() == store.documents().insert(
            name,
            normal(document),
        ),
{
    let after = store.saved(name, document);
    lemma_normal_twice(document);
    lemma_put(store.profiles, name, normal(document));
    lemma_put_normal(store.profiles, name, normal(document));
    assert forall|other: Seq<char>| after.has(other) <==> (other == name || store.has(other)) by {
        assert(keys_of(put(store.profiles, name, normal(document))).contains(other) <==> (other
            == name || keys_of(store.profiles).contains(other)));
    }
    assert forall|other: Seq<char>| other != name implies after.document(other) == store.document(
        other,
    ) by {
        assert(find_member(put(store.profiles, name, normal(document)), other) == find_member(
            store.profiles,
            other,
        ));
    }
    assert(after.documents() =~= store.documents().insert(name, normal(document)));
}

/// Deleting a profile keeps a store well formed, takes the name out and
/// leaves every other profile as it was.
pub proof fn lemma_deleted(store: StoreView, name: Seq<char>)
    requires
        store.wf(),
    ensures
        store.deleted(name).wf(),
        !store.deleted(name).has(name),
        store.deleted(name).documents() == store.documents().remove(name),
{
    let after = store.deleted(name);
    lemma_taken(store.profiles, name);
    lemma_taken_normal(store.profiles, name);
    assert forall|other: Seq<char>| after.has(other) <==> (other != name && store.has(other)) by {
        assert(keys_of(taken(store.profiles, name)).contains(other) <==> (other != name && keys_of(
            store.profiles,
        ).contains(other)));
    }
    assert forall|other: Seq<char>| other != name implies after.document(other) == store.document(
        other,
    ) by {
        assert(find_member(taken(store.profiles, name), other) == find_member(
            store.profiles,
            other,
        ));
    }
    assert(after.documents() =~= store.documents().remove(name));
}

/// A profile has a document exactly when its name is among the names.
pub proof fn lemma_document(store: StoreView, name: Seq<char>)
    requires
        store.wf(),
    ensures
        store.document(name) is Some <==> store.has(name),
{
    lemma_ascending_distinct(store.names());
    lemma_find(store.profiles, name);
}

/// Two saves under different names both stay, in whichever order they are
/// made: afterwards each name has its document, and the documents by name
/// are the same for both orders.
pub proof fn lemma_saves_of_two_names(
    store: StoreView,
    first: Seq<char>,
    first_document: JsonView,
    second: Seq<char>,
    second_document: JsonView,
)
    requires
        store.wf(),
        first != second,
    ensures
        store.saved(first, first_document).saved(second, second_document).document(first) == Some(
            normal(first_document),
        ),
        store.saved(first, first_document).saved(second, second_document).document(second) == Some(
            normal(second_document),
        ),
        store.saved(first, first_document).saved(second, second_document).documents()
            == store.saved(second, second_document).saved(first, first_document).documents(),
{
    let one = store.saved(first, first_document);
    let both = one.saved(second, second_document);
    let other_one = store.saved(second, second_document);
    let other_both = other_one.saved(first, first_document);
    lemma_saved(store, first, first_document);
    lemma_saved(one, second, second_document);
    lemma_saved(store, second, second_document);
    lemma_saved(other_one, first, first_document);
    lemma_put(one.profiles, second, normal(second_document));
    assert(both.document(first) == one.document(first));
    assert(both.documents() =~= other_both.documents());
}

impl ConfigStore {
    /// The value of the store.
    pub closed spec fn view(&self) -> StoreView {
        StoreView {
            profiles: map_members(self.profiles),
            current: text_of(self.current_profile),
            last_selected: text_of(self.last_selected_profile),
        }
    }

    /// The store is well formed.
    pub open spec fn wf(&self) -> bool {
        self@.wf()
    }

    /// A store without profiles.
    pub fn new() -> (store: ConfigStore)
        ensures
            store@ == StoreView::empty(),
            store.wf(),
    {
        ConfigStore {
            profiles: members_new(),
            current_profile: None,
            last_selected_profile: None,
        }
    }

    /// The store that holds the given profiles, taken one after the other so
    /// that a later one replaces an earlier one of the same name. `current`
    /// becomes the current profile where a profile has that name.
    pub fn restore(
        profiles: Vec<Profile>,
        current: Option<String>,
        last_selected: Option<String>,
    ) -> (store: ConfigStore)
        ensures
            store.wf(),
            store@ == restored(profile_views(profiles@), text_of(current), text_of(last_selected)),
    {
        let mut store = ConfigStore::new();
        let ghost entries = profile_views(profiles@);
        let mut i: usize = 0;
        while i < profiles.len()
            invariant
                i <= profiles.len(),
                entries == profile_views(profiles@),
                store.wf(),
                store@.profiles == normal_members(entries, i as nat),
                store@.last_selected is None,
            decreases profiles.len() - i,
        {
            let name = profiles[i].name.clone();
            let document = profiles[i].document.duplicate();
            assert(entries[i as int] == (name@, document@));
            store.save_profile(name, document);
            i += 1;
        }
        store.current_profile = None;
        store.last_selected_profile = last_selected;
        match current {
            Some(name) => {
                if members_has(&store.profiles, name.as_str()) {
                    store.current_profile = Some(name);
                }
            },
            None => {},
        }
        store
    }

    /// The profiles of the store, in the order of their names.
    pub fn profiles(&self) -> (profiles: Vec<Profile>)
        ensures
            profile_views(profiles@) == self@.profiles,
    {
        let members = members_list(&self.profiles);
        let mut profiles: Vec<Profile> = Vec::new();
        let mut i: usize = 0;
        while i < members.len()
            invariant
                i <= members.len(),
                profiles.len() == i,
                forall|k: int|
                    0 <= k < i ==> profiles@[k].name@ == members@[k].0@ && profiles@[k].document@
                        == members@[k].1@,
            decreases members.len() - i,
        {
            profiles.push(
                Profile { name: members[i].0.clone(), document: members[i].1.duplicate() },
            );
            i += 1;
        }
        assert(profile_views(profiles@) =~= member_views(members@));
        profiles
    }

    /// Saves `document` under `name`: a profile of this name is replaced,
    /// else the profile is added. The store keeps the document in its normal
    /// form: in each of its objects a later member replaces an earlier one
    /// with the same key, and the members stand in the order of their keys. A
    /// store without current profile makes this one current.
    pub fn save_profile(&mut self, name: String, document: Json)
        requires
            old(self).wf(),
        ensures
            final(self).wf(),
            final(self)@ == old(self)@.saved(name@, document@),
            final(self)@.document(name@) == Some(normal(document@)),
            final(self)@.documents() == old(self)@.documents().insert(name@, normal(document@)),
    {
        proof {
            lemma_saved(self@, name@, document@);
        }
        if self.current_profile.is_none() {
            self.current_profile = Some(name.clone());
        }
        members_insert(&mut self.profiles, name, &document);
    }

    /// Deletes the profile `name`. Where no profile has the name, the store
    /// stays as it is and the error is `NotFound`. The name selected last is
    /// never touched.
    pub fn delete_profile(&mut self, name: &str) -> (r: Result<(), ErrorKind>)
        requires
            old(self).wf(),
        ensures
            final(self).wf(),
            r is Ok <==> old(self)@.has(name@),
            r is Ok ==> final(self)@ == old(self)@.deleted(name@),
            r is Ok ==> !final(self)@.has(name@),
            r is Ok ==> final(self)@.documents() == old(self)@.documents().remove(name@),
            r is Err ==> r == Err::<(), ErrorKind>(ErrorKind::NotFound) && final(self)@ == old(
                self,
            )@,
            final(self)@.last_selected == old(self)@.last_selected,
            old(self)@.current == Some(name@) ==> final(self)@.current is None,
    {
        proof {
            lemma_deleted(self@, name@);
        }
        if members_remove(&mut self.profiles, name) {
            let was_current = match &self.current_profile {
                Some(current) => {
                    let key = name.to_owned();
                    *current == key
                },
                None => false,
            };
            if was_current {
                self.current_profile = None;
            }
            Ok(())
        } else {
            Err(ErrorKind::NotFound)
        }
    }

    /// A copy of the document of the profile `name`, or `NotFound` where no
    /// profile has the name.
    pub fn load_profile(&self, name: &str) -> (r: Result<Json, ErrorKind>)
        requires
            self.wf(),
        ensures
            match r {
                Ok(document) => self@.has(name@) && self@.document(name@) == Some(document@),
                Err(e) => e == ErrorKind::NotFound && !self@.has(name@) && self@.document(name@)
                    is None,
            },
    {
        proof {
            lemma_document(self@, name@);
        }
        match members_get(&self.profiles, name) {
            Some(document) => Ok(document),
            None => Err(ErrorKind::NotFound),
        }
    }

    /// The names of the profiles, in ascending order.
    pub fn list_profile_names(&self) -> (names: Vec<String>)
        ensures
            texts(names@) == self@.names(),
    {
        let members = members_list(&self.profiles);
        let mut names: Vec<String> = Vec::new();
        let mut i: usize = 0;
        while i < members.len()
            invariant
                i <= members.len(),
                names.len() == i,
                forall|k: int| 0 <= k < i ==> names@[k]@ == members@[k].0@,
            decreases members.len() - i,
        {
            names.push(members[i].0.clone());
            i += 1;
        }
        assert(texts(names@) =~= keys_of(member_views(members@)));
        names
    }

    /// Makes the profile `name` the current one and returns a copy of its
    /// document. Where no profile has the name, the store stays as it is and
    /// the error is `NotFound`.
    pub fn switch_profile(&mut self, name: &str) -> (r: Result<Json, ErrorKind>)
        requires
            old(self).wf(),
        ensures
            final(self).wf(),
            match r {
                Ok(document) => old(self)@.has(name@) && old(self)@.document(name@) == Some(
                    document@,
                ) && final(self)@ == old(self)@.switched(name@),
                Err(e) => e == ErrorKind::NotFound && !old(self)@.has(name@) && old(
                    self,
                )@.document(name@) is None && final(self)@ == old(self)@,
            },
    {
        proof {
            lemma_document(self@, name@);
        }
        match members_get(&self.profiles, name) {
            Some(document) => {
                self.current_profile = Some(name.to_owned());
                Ok(document)
            },
            None => Err(ErrorKind::NotFound),
        }
    }

    /// Records `name` as the profile selected last. Where a profile has the
    /// name it becomes the current one as well; where none has it, the
    /// current profile stays.
    pub fn record_last_selected(&mut self, name: String)
        requires
            old(self).wf(),
        ensures
            final(self).wf(),
            final(self)@ == old(self)@.recorded(name@),
            final(self)@.last_selected == Some(name@),
            !old(self)@.has(name@) ==> final(self)@.current == old(self)@.current,
    {
        if members_has(&self.profiles, name.as_str()) {
            self.current_profile = Some(name.clone());
        }
        self.last_selected_profile = Some(name);
    }

    /// The name that was selected last, if one was.
    pub fn get_last_selected(&self) -> (r: Option<String>)
        ensures
            text_of(r) == self@.last_selected,
    {
        match &self.last_selected_profile {
            Some(name) => Some(name.clone()),
            None => None,
        }
    }

    /// The name of the current profile, if there is one.
    pub fn current_profile(&self) -> (r: Option<String>)
        ensures
            text_of(r) == self@.current,
    {
        match &self.current_profile {
            Some(name) => Some(name.clone()),
            None => None,
        }
    }
}

} // verus!
