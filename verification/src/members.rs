//! The map of named documents, kept in a `serde_json::Map`: what it holds,
//! what its operations do to that, and the normal form in which it keeps a
//! document.

use crate::json::{find_member, json_from_value, member_views, value_from_json, Json, JsonView};
use crate::text::{lemma_lex_irreflexive, lemma_lex_total, lemma_lex_transitive, lex_less};
use serde_json::Value;
use vstd::prelude::*;

verus! {

/// `serde_json::Map`, the map that holds the members of a JSON object.
/// Nothing is known of it but what it holds, `map_members`.
#[verifier::external_type_specification]
#[verifier::external_body]
#[verifier::reject_recursive_types(K)]
#[verifier::reject_recursive_types(V)]
pub struct ExMap<K, V>(serde_json::Map<K, V>);

/// The members that a `serde_json::Map` holds, in the order in which it
/// hands them out. The map is built on a `BTreeMap`, so that is each key
/// once, in ascending order of the keys.
pub uninterp spec fn map_members(map: serde_json::Map<String, Value>) -> Seq<
    (Seq<char>, JsonView),
>;

/// The keys of a list of members, in their order.
pub open spec fn keys_of(members: Seq<(Seq<char>, JsonView)>) -> Seq<Seq<char>> {
    Seq::new(members.len(), |i: int| members[i].0)
}

/// Each name comes before all that follow it, in lexicographic order.
pub open spec fn ascending(names: Seq<Seq<char>>) -> bool {
    forall|i: int, j: int| 0 <= i < j < names.len() ==> lex_less(names[i], names[j])
}

/// The place of a name in an ascending list: behind the names that come
/// before it.
pub open spec fn place(names: Seq<Seq<char>>, name: Seq<char>) -> int
    decreases names.len(),
{
    if names.len() == 0 {
        0
    } else if lex_less(names.last(), name) {
        names.len() as int
    } else {
        place(names.drop_last(), name)
    }
}

/// The members after `document` was put under `name`: the member of this
/// name is replaced where it stands, or the new member goes to its place in
/// the order of the names.
pub open spec fn put(members: Seq<(Seq<char>, JsonView)>, name: Seq<char>, document: JsonView) -> Seq<
    (Seq<char>, JsonView),
> {
    if keys_of(members).contains(name) {
        members.update(keys_of(members).index_of(name), (name, document))
    } else {
        members.insert(place(keys_of(members), name), (name, document))
    }
}

/// The members without the member of the given name.
pub open spec fn taken(members: Seq<(Seq<char>, JsonView)>, name: Seq<char>) -> Seq<
    (Seq<char>, JsonView),
> {
    if keys_of(members).contains(name) {
        members.remove(keys_of(members).index_of(name))
    } else {
        members
    }
}

/// A document as a `serde_json::Value` keeps it: in every object, at every
/// depth, the members are taken one after the other, so that a later member
/// replaces an earlier one with the same key, and stand in ascending order of
/// their keys. Everything else stays as it is.
pub open spec fn normal(json: JsonView) -> JsonView
    decreases json, 0nat,
{
    match json {
        JsonView::Array(items) => JsonView::Array(normal_items(items, items.len())),
        JsonView::Object(members) => JsonView::Object(normal_members(members, members.len())),
        other => other,
    }
}

/// The first `n` items of a list, each as it is kept.
pub open spec fn normal_items(items: Seq<JsonView>, n: nat) -> Seq<JsonView>
    decreases items, n,
{
    if n == 0 || n > items.len() {
        Seq::empty()
    } else {
        normal_items(items, (n - 1) as nat).push(normal(items[n - 1]))
    }
}

/// The members that the first `n` members of a list make, taken one after
/// the other, each value as it is kept.
pub open spec fn normal_members(members: Seq<(Seq<char>, JsonView)>, n: nat) -> Seq<
    (Seq<char>, JsonView),
>
    decreases members, n,
{
    if n == 0 || n > members.len() {
        Seq::empty()
    } else {
        put(normal_members(members, (n - 1) as nat), members[n - 1].0, normal(members[n - 1].1))
    }
}

/// A document is kept as it is.
pub open spec fn is_normal(json: JsonView) -> bool {
    normal(json) == json
}

/// Every value of the members is kept as it is.
pub open spec fn all_normal(members: Seq<(Seq<char>, JsonView)>) -> bool {
    forall|i: int| 0 <= i < members.len() ==> is_normal(#[trigger] members[i].1)
}

/// An ascending list holds no name twice.
pub proof fn lemma_ascending_distinct(names: Seq<Seq<char>>)
    requires
        ascending(names),
    ensures
        names.no_duplicates(),
{
    assert forall|i: int, j: int| 0 <= i < names.len() && 0 <= j < names.len() && i != j implies names[i]
        != names[j] by {
        lemma_lex_irreflexive(names[i]);
        if i < j {
            assert(lex_less(names[i], names[j]));
        } else {
            assert(lex_less(names[j], names[i]));
        }
    }
}

/// In an ascending list, the names before the place of a name come before
/// it, and the names from there on do not.
pub proof fn lemma_place(names: Seq<Seq<char>>, name: Seq<char>)
    requires
        ascending(names),
    ensures
        0 <= place(names, name) <= names.len(),
        forall|k: int| 0 <= k < place(names, name) ==> lex_less(names[k], name),
        forall|k: int| place(names, name) <= k < names.len() ==> !lex_less(names[k], name),
    decreases names.len(),
{
    if names.len() > 0 {
        if lex_less(names.last(), name) {
            assert forall|k: int| 0 <= k < names.len() implies lex_less(names[k], name) by {
                if k < names.len() - 1 {
                    assert(lex_less(names[k], names.last()));
                    lemma_lex_transitive(names[k], names.last(), name);
                }
            }
        } else {
            let front = names.drop_last();
            assert(ascending(front)) by {
                assert forall|a: int, b: int| 0 <= a < b < front.len() implies lex_less(
                    front[a],
                    front[b],
                ) by {
                    assert(lex_less(names[a], names[b]));
                }
            }
            lemma_place(front, name);
            assert forall|k: int| 0 <= k < place(names, name) implies lex_less(names[k], name) by {
                assert(front[k] == names[k]);
            }
            assert forall|k: int| place(names, name) <= k < names.len() implies !lex_less(
                names[k],
                name,
            ) by {
                if k < names.len() - 1 {
                    assert(front[k] == names[k]);
                }
            }
        }
    }
}

/// Putting a document under a name keeps the names ascending, files the
/// document under the name and leaves every other member as it was.
pub proof fn lemma_put(members: Seq<(Seq<char>, JsonView)>, name: Seq<char>, document: JsonView)
    requires
        ascending(keys_of(members)),
    ensures
        ascending(keys_of(put(members, name, document))),
        find_member(put(members, name, document), name) == Some(document),
        forall|other: Seq<char>|
            other != name ==> #[trigger] find_member(put(members, name, document), other)
                == find_member(members, other),
        forall|other: Seq<char>|
            #[trigger] keys_of(put(members, name, document)).contains(other) <==> (other == name
                || keys_of(members).contains(other)),
{
    let names = keys_of(members);
    let after = put(members, name, document);
    let after_names = keys_of(after);
    lemma_ascending_distinct(names);
    if names.contains(name) {
        let i = names.index_of(name);
        assert(0 <= i < names.len() && names[i] == name);
        assert(after_names =~= names);
    } else {
        lemma_place(names, name);
        let i = place(names, name);
        assert(after_names =~= names.insert(i, name));
        assert forall|a: int, b: int| 0 <= a < b < after_names.len() implies lex_less(
            after_names[a],
            after_names[b],
        ) by {
            if a < i && b == i {
                assert(lex_less(names[a], name));
            } else if a < i && b > i {
                assert(lex_less(names[a], names[b - 1]));
            } else if a == i {
                assert(names[i] != name) by {
                    assert(names.contains(names[i]));
                }
                lemma_lex_total(names[i], name);
                if b - 1 > i {
                    assert(lex_less(names[i], names[b - 1]));
                    lemma_lex_transitive(name, names[i], names[b - 1]);
                }
            } else if b < i {
                assert(lex_less(names[a], names[b]));
            } else {
                assert(lex_less(names[a - 1], names[b - 1]));
            }
        }
    }
    lemma_ascending_distinct(after_names);
    assert forall|other: Seq<char>| #[trigger] after_names.contains(other) <==> (other == name
        || names.contains(other)) by {
        if after_names.contains(other) && other != name {
            let k = choose|k: int| 0 <= k < after_names.len() && after_names[k] == other;
            if names.contains(name) {
                assert(names[k] == other);
            } else {
                let i = place(names, name);
                if k < i {
                    assert(names[k] == other);
                } else {
                    assert(names[k - 1] == other);
                }
            }
        }
        if names.contains(other) {
            let k = choose|k: int| 0 <= k < names.len() && names[k] == other;
            if names.contains(name) {
                assert(after_names[k] == other);
            } else {
                let i = place(names, name);
                if k < i {
                    assert(after_names[k] == other);
                } else {
                    assert(after_names[k + 1] == other);
                }
            }
        }
        if other == name {
            if names.contains(name) {
                assert(after_names[names.index_of(name)] == name);
            } else {
                assert(after_names[place(names, name)] == name);
            }
        }
    }
    assert forall|other: Seq<char>| #[trigger] find_member(after, other) == if other == name {
        Some(document)
    } else {
        find_member(members, other)
    } by {
        lemma_find(after, other);
        lemma_find(members, other);
        if after_names.contains(other) {
            let k = after_names.index_of(other);
            assert(0 <= k < after_names.len() && after_names[k] == other);
            if other != name {
                if names.contains(name) {
                    assert(names[k] == other);
                    lemma_index(names, k);
                } else {
                    let i = place(names, name);
                    if k < i {
                        assert(names[k] == other);
                        lemma_index(names, k);
                    } else {
                        assert(names[k - 1] == other);
                        lemma_index(names, k - 1);
                    }
                }
            } else {
                if names.contains(name) {
                    lemma_index(after_names, names.index_of(name));
                } else {
                    lemma_index(after_names, place(names, name));
                }
            }
        }
    }
}

/// Taking a name out keeps the names ascending, takes the member of this
/// name away and leaves every other member as it was.
pub proof fn lemma_taken(members: Seq<(Seq<char>, JsonView)>, name: Seq<char>)
    requires
        ascending(keys_of(members)),
    ensures
        ascending(keys_of(taken(members, name))),
        find_member(taken(members, name), name) is None,
        forall|other: Seq<char>|
            other != name ==> #[trigger] find_member(taken(members, name), other) == find_member(
                members,
                other,
            ),
        forall|other: Seq<char>|
            #[trigger] keys_of(taken(members, name)).contains(other) <==> (other != name
                && keys_of(members).contains(other)),
{
    let names = keys_of(members);
    let after = taken(members, name);
    let after_names = keys_of(after);
    lemma_ascending_distinct(names);
    if names.contains(name) {
        let i = names.index_of(name);
        assert(0 <= i < names.len() && names[i] == name);
        assert(after_names =~= names.remove(i));
        assert forall|a: int, b: int| 0 <= a < b < after_names.len() implies lex_less(
            after_names[a],
            after_names[b],
        ) by {
            let a0 = if a < i {
                a
            } else {
                a + 1
            };
            let b0 = if b < i {
                b
            } else {
                b + 1
            };
            assert(after_names[a] == names[a0] && after_names[b] == names[b0]);
            assert(lex_less(names[a0], names[b0]));
        }
        lemma_ascending_distinct(after_names);
        assert forall|other: Seq<char>| #[trigger] after_names.contains(other) <==> (other != name
            && names.contains(other)) by {
            if after_names.contains(other) {
                let k = choose|k: int| 0 <= k < after_names.len() && after_names[k] == other;
                let k0 = if k < i {
                    k
                } else {
                    k + 1
                };
                assert(names[k0] == other);
            }
            if names.contains(other) && other != name {
                let k = choose|k: int| 0 <= k < names.len() && names[k] == other;
                let k1 = if k < i {
                    k
                } else {
                    k - 1
                };
                assert(after_names[k1] == other);
            }
        }
        assert forall|other: Seq<char>| #[trigger] find_member(after, other) == if other == name {
            None
        } else {
            find_member(members, other)
        } by {
            lemma_find(after, other);
            lemma_find(members, other);
            if after_names.contains(other) {
                let k = after_names.index_of(other);
                assert(0 <= k < after_names.len() && after_names[k] == other);
                let k0 = if k < i {
                    k
                } else {
                    k + 1
                };
                assert(names[k0] == other);
                lemma_index(names, k0);
            }
        }
    } else {
        lemma_find(members, name);
    }
}

/// In a list without repetition, a name stands at its index.
pub proof fn lemma_index(names: Seq<Seq<char>>, i: int)
    requires
        names.no_duplicates(),
        0 <= i < names.len(),
    ensures
        names.contains(names[i]),
        names.index_of(names[i]) == i,
{
    let j = names.index_of(names[i]);
    assert(0 <= j < names.len() && names[j] == names[i]);
}

/// Among members with distinct names, the value found under a name is that
/// of the member of this name, and none is found where no member has it.
pub proof fn lemma_find(members: Seq<(Seq<char>, JsonView)>, name: Seq<char>)
    requires
        keys_of(members).no_duplicates(),
    ensures
        find_member(members, name) == if keys_of(members).contains(name) {
            Some(members[keys_of(members).index_of(name)].1)
        } else {
            None
        },
    decreases members.len(),
{
    let names = keys_of(members);
    if members.len() > 0 {
        let front = members.drop_last();
        assert(keys_of(front) =~= names.drop_last());
        assert forall|a: int, b: int|
            0 <= a < keys_of(front).len() && 0 <= b < keys_of(front).len() && a != b implies keys_of(
            front,
        )[a] != keys_of(front)[b] by {
            assert(keys_of(front)[a] == names[a] && keys_of(front)[b] == names[b]);
        }
        lemma_find(front, name);
        let last = members.len() - 1;
        assert(names[last] == members.last().0);
        if members.last().0 == name {
            lemma_index(names, last);
        } else if keys_of(front).contains(name) {
            let k = keys_of(front).index_of(name);
            assert(0 <= k < keys_of(front).len() && keys_of(front)[k] == name);
            assert(names[k] == name);
            lemma_index(names, k);
        } else {
            if names.contains(name) {
                let k = choose|k: int| 0 <= k < names.len() && names[k] == name;
                assert(keys_of(front)[k] == name);
            }
        }
    }
}

/// Putting a value that is kept as it is among such values leaves only such
/// values.
pub proof fn lemma_put_normal(
    members: Seq<(Seq<char>, JsonView)>,
    name: Seq<char>,
    document: JsonView,
)
    requires
        ascending(keys_of(members)),
        all_normal(members),
        is_normal(document),
    ensures
        all_normal(put(members, name, document)),
{
    let names = keys_of(members);
    let after = put(members, name, document);
    if names.contains(name) {
        let i = names.index_of(name);
        assert(0 <= i < names.len() && names[i] == name);
        assert forall|k: int| 0 <= k < after.len() implies is_normal(#[trigger] after[k].1) by {
            if k != i {
                assert(after[k].1 == members[k].1);
            }
        }
    } else {
        lemma_place(names, name);
        let i = place(names, name);
        assert forall|k: int| 0 <= k < after.len() implies is_normal(#[trigger] after[k].1) by {
            if k < i {
                assert(after[k].1 == members[k].1);
            } else if k > i {
                assert(after[k].1 == members[k - 1].1);
            }
        }
    }
}

/// Taking a name out of values that are kept as they are leaves only such
/// values.
pub proof fn lemma_taken_normal(members: Seq<(Seq<char>, JsonView)>, name: Seq<char>)
    requires
        all_normal(members),
    ensures
        all_normal(taken(members, name)),
{
    let names = keys_of(members);
    let after = taken(members, name);
    if names.contains(name) {
        let i = names.index_of(name);
        assert(0 <= i < names.len() && names[i] == name);
        assert forall|k: int| 0 <= k < after.len() implies is_normal(#[trigger] after[k].1) by {
            if k < i {
                assert(after[k].1 == members[k].1);
            } else {
                assert(after[k].1 == members[k + 1].1);
            }
        }
    }
}

/// The items of a list as they are kept: as many, each as it is kept.
pub proof fn lemma_normal_items(items: Seq<JsonView>, n: nat)
    requires
        n <= items.len(),
    ensures
        normal_items(items, n).len() == n,
        forall|i: int| 0 <= i < n ==> #[trigger] normal_items(items, n)[i] == normal(items[i]),
    decreases n,
{
    if n > 0 {
        lemma_normal_items(items, (n - 1) as nat);
    }
}

/// Members in ascending order of their keys, with values that are kept as
/// they are, make these very members.
pub proof fn lemma_normal_members_own(members: Seq<(Seq<char>, JsonView)>, n: nat)
    requires
        ascending(keys_of(members)),
        all_normal(members),
        n <= members.len(),
    ensures
        normal_members(members, n) == members.take(n as int),
    decreases n,
{
    if n > 0 {
        let names = keys_of(members);
        let front = members.take(n - 1);
        let front_names = keys_of(front);
        let name = members[n - 1].0;
        lemma_normal_members_own(members, (n - 1) as nat);
        assert(is_normal(members[n - 1].1));
        assert(names[n - 1] == name);
        lemma_ascending_distinct(names);
        if front_names.contains(name) {
            let k = choose|k: int| 0 <= k < front_names.len() && front_names[k] == name;
            assert(names[k] == name);
        }
        if n > 1 {
            assert(lex_less(names[n - 2], names[n - 1]));
            assert(front_names.last() == names[n - 2]);
        }
        assert(place(front_names, name) == front.len());
        assert(front.insert(front.len() as int, members[n - 1]) =~= members.take(n as int));
    } else {
        assert(members.take(0) =~= Seq::empty());
    }
}

/// What the first members of a list make is in ascending order of the keys,
/// with values that are kept as they are.
pub proof fn lemma_normal_members(members: Seq<(Seq<char>, JsonView)>, n: nat)
    requires
        n <= members.len(),
    ensures
        ascending(keys_of(normal_members(members, n))),
        all_normal(normal_members(members, n)),
    decreases members, n,
{
    if n > 0 {
        lemma_normal_members(members, (n - 1) as nat);
        lemma_normal_twice(members[n - 1].1);
        let before = normal_members(members, (n - 1) as nat);
        lemma_put(before, members[n - 1].0, normal(members[n - 1].1));
        lemma_put_normal(before, members[n - 1].0, normal(members[n - 1].1));
    }
}

/// A document as it is kept is kept as it is: keeping it twice changes
/// nothing.
pub proof fn lemma_normal_twice(json: JsonView)
    ensures
        is_normal(normal(json)),
    decreases json, 0nat,
{
    match json {
        JsonView::Array(items) => {
            let once = normal_items(items, items.len());
            lemma_normal_items(items, items.len());
            lemma_normal_items(once, once.len());
            assert forall|i: int| 0 <= i < once.len() implies normal(once[i]) == once[i] by {
                lemma_normal_twice(items[i]);
            }
            assert(normal_items(once, once.len()) =~= once);
        },
        JsonView::Object(members) => {
            let once = normal_members(members, members.len());
            lemma_normal_members(members, members.len());
            lemma_normal_members_own(once, once.len());
            assert(once.take(once.len() as int) =~= once);
        },
        _ => {},
    }
}

/// A value that is found among members is the value of one of them.
pub proof fn lemma_found_is_member(members: Seq<(Seq<char>, JsonView)>, name: Seq<char>)
    ensures
        find_member(members, name) matches Some(value) ==> exists|i: int|
            0 <= i < members.len() && #[trigger] members[i].1 == value,
    decreases members.len(),
{
    if members.len() > 0 {
        if members.last().0 == name {
            assert(members[members.len() - 1].1 == members.last().1);
        } else {
            lemma_found_is_member(members.drop_last(), name);
            match find_member(members.drop_last(), name) {
                Some(value) => {
                    let i = choose|i: int|
                        0 <= i < members.drop_last().len() && #[trigger] members.drop_last()[i].1
                            == value;
                    assert(members[i].1 == value);
                },
                None => {},
            }
        }
    }
}

/// A member of a document in its normal form is in its normal form.
pub proof fn lemma_member_normal(json: JsonView, name: Seq<char>)
    requires
        is_normal(json),
    ensures
        json.member(name) matches Some(value) ==> is_normal(value),
{
    match json {
        JsonView::Object(members) => {
            lemma_normal_members(members, members.len());
            lemma_found_is_member(members, name);
        },
        _ => {},
    }
}

/// Calls `serde_json::Map::new`, which makes a new empty map.
#[verifier::external_body]
pub(crate) fn members_new() -> (map: serde_json::Map<String, Value>)
    ensures
        map_members(map) == Seq::<(Seq<char>, JsonView)>::empty(),
{
    serde_json::Map::new()
}

/// Calls `serde_json::Map::contains_key`, which tells whether the map holds
/// a value for the key.
#[verifier::external_body]
pub(crate) fn members_has(map: &serde_json::Map<String, Value>, name: &str) -> (found: bool)
    ensures
        found == keys_of(map_members(*map)).contains(name@),
{
    map.contains_key(name)
}

/// Calls `serde_json::Map::get`, which returns the value under the key, and
/// hands a copy of it on as a `Json`.
#[verifier::external_body]
pub(crate) fn members_get(map: &serde_json::Map<String, Value>, name: &str) -> (found: Option<
    Json,
>)
    ensures
        match found {
            Some(document) => find_member(map_members(*map), name@) == Some(document@),
            None => find_member(map_members(*map), name@) is None,
        },
{
    map.get(name).cloned().map(json_from_value)
}

/// Calls `serde_json::Map::insert` with the document as a `Value`. A key
/// that is present keeps its place and gets the new value; a new key takes
/// its place in the order of the keys, which a map built on a `BTreeMap`
/// keeps ascending. Strings are ordered by their bytes, which is the order
/// of their characters by code point. The value that the map then holds is
/// the document as a `Value` keeps it, `normal`: the objects of a `Value` are
/// such maps themselves.
#[verifier::external_body]
pub(crate) fn members_insert(
    map: &mut serde_json::Map<String, Value>,
    name: String,
    document: &Json,
)
    ensures
        map_members(*final(map)) == put(map_members(*old(map)), name@, normal(document@)),
{
    map.insert(name, value_from_json(document));
}

/// Calls `serde_json::Map::remove`, which takes the key out of the map and
/// tells by its result whether the key was there. The other members keep
/// their order.
#[verifier::external_body]
pub(crate) fn members_remove(map: &mut serde_json::Map<String, Value>, name: &str) -> (removed:
    bool)
    ensures
        removed == keys_of(map_members(*old(map))).contains(name@),
        map_members(*final(map)) == taken(map_members(*old(map)), name@),
{
    map.remove(name).is_some()
}

/// Calls `serde_json::Map::iter` and hands out a copy of each member, the
/// value as a `Json`, in the order of the iteration.
#[verifier::external_body]
pub(crate) fn members_list(map: &serde_json::Map<String, Value>) -> (members: Vec<
    (String, Json),
>)
    ensures
        member_views(members@) == map_members(*map),
{
    map.iter().map(|(name, value)| (name.clone(), json_from_value(value.clone()))).collect()
}

} // verus!
