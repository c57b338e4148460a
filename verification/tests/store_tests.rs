use hotkey_bridge::json::Json;
use hotkey_bridge::error::ErrorKind;
use hotkey_bridge::store::{ConfigStore, Profile};

fn doc(text: &str) -> Json {
    Json::String(text.to_string())
}

#[test]
fn a_new_store_is_empty() {
    let store = ConfigStore::new();
    assert!(store.list_profile_names().is_empty());
    assert_eq!(store.current_profile(), None);
    assert_eq!(store.get_last_selected(), None);
    assert!(store.profiles().is_empty());
}

#[test]
fn the_first_save_makes_the_profile_current() {
    let mut store = ConfigStore::new();
    store.save_profile("work".to_string(), doc("a"));
    assert_eq!(store.current_profile(), Some("work".to_string()));
    store.save_profile("home".to_string(), doc("b"));
    assert_eq!(store.current_profile(), Some("work".to_string()));
    assert_eq!(store.list_profile_names(), vec!["home".to_string(), "work".to_string()]);
}

#[test]
fn saving_again_replaces_the_document() {
    let mut store = ConfigStore::new();
    store.save_profile("work".to_string(), doc("a"));
    store.save_profile("home".to_string(), doc("b"));
    store.save_profile("work".to_string(), doc("c"));
    assert_eq!(store.list_profile_names(), vec!["home".to_string(), "work".to_string()]);
    assert_eq!(store.load_profile("work"), Ok(doc("c")));
    assert_eq!(store.load_profile("home"), Ok(doc("b")));
}

#[test]
fn saving_under_the_empty_name_is_accepted() {
    let mut store = ConfigStore::new();
    store.save_profile(String::new(), doc("a"));
    assert_eq!(store.load_profile(""), Ok(doc("a")));
}

#[test]
fn load_of_a_missing_profile_is_not_found() {
    let mut store = ConfigStore::new();
    assert_eq!(store.load_profile("work"), Err(ErrorKind::NotFound));
    store.save_profile("work".to_string(), doc("a"));
    assert_eq!(store.load_profile("Work"), Err(ErrorKind::NotFound));
}

#[test]
fn deleting_the_current_profile_clears_it() {
    let mut store = ConfigStore::new();
    store.save_profile("work".to_string(), doc("a"));
    store.save_profile("home".to_string(), doc("b"));
    store.record_last_selected("work".to_string());
    assert_eq!(store.current_profile(), Some("work".to_string()));
    assert_eq!(store.delete_profile("work"), Ok(()));
    assert_eq!(store.current_profile(), None);
    assert_eq!(store.get_last_selected(), Some("work".to_string()));
    assert_eq!(store.list_profile_names(), vec!["home".to_string()]);
    assert_eq!(store.load_profile("work"), Err(ErrorKind::NotFound));
}

#[test]
fn deleting_another_profile_keeps_the_current_one() {
    let mut store = ConfigStore::new();
    store.save_profile("work".to_string(), doc("a"));
    store.save_profile("home".to_string(), doc("b"));
    assert_eq!(store.delete_profile("home"), Ok(()));
    assert_eq!(store.current_profile(), Some("work".to_string()));
    assert_eq!(store.load_profile("work"), Ok(doc("a")));
}

#[test]
fn deleting_a_missing_profile_is_not_found() {
    let mut store = ConfigStore::new();
    store.save_profile("work".to_string(), doc("a"));
    assert_eq!(store.delete_profile("missing"), Err(ErrorKind::NotFound));
    assert_eq!(store.list_profile_names(), vec!["work".to_string()]);
    assert_eq!(store.current_profile(), Some("work".to_string()));
}

#[test]
fn switch_to_a_missing_profile_changes_nothing() {
    let mut store = ConfigStore::new();
    store.save_profile("work".to_string(), doc("a"));
    assert_eq!(store.switch_profile("missing"), Err(ErrorKind::NotFound));
    assert_eq!(store.current_profile(), Some("work".to_string()));
    let mut empty = ConfigStore::new();
    assert_eq!(empty.switch_profile("missing"), Err(ErrorKind::NotFound));
    assert_eq!(empty.current_profile(), None);
}

#[test]
fn switch_makes_the_profile_current_and_returns_its_document() {
    let mut store = ConfigStore::new();
    store.save_profile("work".to_string(), doc("a"));
    store.save_profile("home".to_string(), doc("b"));
    assert_eq!(store.switch_profile("home"), Ok(doc("b")));
    assert_eq!(store.current_profile(), Some("home".to_string()));
    assert_eq!(store.get_last_selected(), None);
}

#[test]
fn recording_an_unknown_name_keeps_the_current_profile() {
    let mut store = ConfigStore::new();
    store.save_profile("work".to_string(), doc("a"));
    store.record_last_selected("ghost".to_string());
    assert_eq!(store.get_last_selected(), Some("ghost".to_string()));
    assert_eq!(store.current_profile(), Some("work".to_string()));
    let mut empty = ConfigStore::new();
    empty.record_last_selected("ghost".to_string());
    assert_eq!(empty.get_last_selected(), Some("ghost".to_string()));
    assert_eq!(empty.current_profile(), None);
}

#[test]
fn recording_a_known_name_makes_it_current() {
    let mut store = ConfigStore::new();
    store.save_profile("work".to_string(), doc("a"));
    store.save_profile("home".to_string(), doc("b"));
    store.record_last_selected("home".to_string());
    assert_eq!(store.get_last_selected(), Some("home".to_string()));
    assert_eq!(store.current_profile(), Some("home".to_string()));
}

#[test]
fn saves_under_two_names_both_stay() {
    let mut first = ConfigStore::new();
    first.save_profile("piano".to_string(), doc("a"));
    first.save_profile("drums".to_string(), doc("b"));
    let mut second = ConfigStore::new();
    second.save_profile("drums".to_string(), doc("b"));
    second.save_profile("piano".to_string(), doc("a"));
    for store in [&first, &second] {
        assert_eq!(store.load_profile("piano"), Ok(doc("a")));
        assert_eq!(store.load_profile("drums"), Ok(doc("b")));
        assert_eq!(store.list_profile_names().len(), 2);
    }
}

#[test]
fn restore_takes_later_profiles_over_earlier_ones() {
    let profiles = vec![
        Profile { name: "a".to_string(), document: doc("1") },
        Profile { name: "b".to_string(), document: doc("2") },
        Profile { name: "a".to_string(), document: doc("3") },
    ];
    let store = ConfigStore::restore(profiles, Some("b".to_string()), Some("gone".to_string()));
    assert_eq!(store.list_profile_names(), vec!["a".to_string(), "b".to_string()]);
    assert_eq!(store.load_profile("a"), Ok(doc("3")));
    assert_eq!(store.current_profile(), Some("b".to_string()));
    assert_eq!(store.get_last_selected(), Some("gone".to_string()));
}

#[test]
fn restore_drops_a_current_profile_that_is_not_there() {
    let profiles = vec![Profile { name: "a".to_string(), document: doc("1") }];
    let store = ConfigStore::restore(profiles, Some("b".to_string()), None);
    assert_eq!(store.current_profile(), None);
    assert_eq!(store.get_last_selected(), None);
    let none = ConfigStore::restore(
        vec![Profile { name: "a".to_string(), document: doc("1") }],
        None,
        None,
    );
    assert_eq!(none.current_profile(), None);
}

#[test]
fn profiles_hands_out_names_and_documents() {
    let mut store = ConfigStore::new();
    store.save_profile("work".to_string(), doc("a"));
    let profiles = store.profiles();
    assert_eq!(profiles.len(), 1);
    assert_eq!(profiles[0], Profile { name: "work".to_string(), document: doc("a") });
}

#[test]
fn names_come_in_ascending_order() {
    let mut store = ConfigStore::new();
    for name in ["b", "a", "é", "Z", "ab", "", "c"] {
        store.save_profile(name.to_string(), doc(name));
    }
    let expected: Vec<String> =
        ["", "Z", "a", "ab", "b", "c", "é"].iter().map(|s| s.to_string()).collect();
    assert_eq!(store.list_profile_names(), expected);
    let profiles = store.profiles();
    assert_eq!(profiles.len(), 7);
    for (profile, name) in profiles.iter().zip(expected.iter()) {
        assert_eq!(&profile.name, name);
        assert_eq!(profile.document, doc(name));
    }
    assert_eq!(store.delete_profile("ab"), Ok(()));
    assert_eq!(store.delete_profile(""), Ok(()));
    let left: Vec<String> = ["Z", "a", "b", "c", "é"].iter().map(|s| s.to_string()).collect();
    assert_eq!(store.list_profile_names(), left);
    assert_eq!(store.current_profile(), Some("b".to_string()));
}

fn object(members: &[(&str, Json)]) -> Json {
    Json::Object(members.iter().map(|(key, value)| (key.to_string(), value.duplicate())).collect())
}

#[test]
fn a_document_is_kept_in_its_normal_form() {
    let given = object(&[("b", Json::Null), ("a", Json::Null)]);
    let kept = object(&[("a", Json::Null), ("b", Json::Null)]);
    let mut store = ConfigStore::new();
    store.save_profile("p".to_string(), given);
    assert_eq!(store.load_profile("p"), Ok(kept.duplicate()));
    assert_eq!(store.switch_profile("p"), Ok(kept.duplicate()));
    assert_eq!(store.profiles(), vec![Profile { name: "p".to_string(), document: kept.duplicate() }]);
    store.save_profile("q".to_string(), kept.duplicate());
    assert_eq!(store.load_profile("q"), Ok(kept));
}

#[test]
fn a_later_member_of_a_saved_object_replaces_an_earlier_one() {
    let given = object(&[
        ("k", Json::Bool(false)),
        ("z", Json::Array(vec![object(&[("y", Json::Null), ("x", Json::Null), ("y", doc("last"))])])),
        ("k", Json::Bool(true)),
        ("a", object(&[])),
    ]);
    let kept = object(&[
        ("a", object(&[])),
        ("k", Json::Bool(true)),
        ("z", Json::Array(vec![object(&[("x", Json::Null), ("y", doc("last"))])])),
    ]);
    let mut store = ConfigStore::new();
    store.save_profile("p".to_string(), given);
    assert_eq!(store.load_profile("p"), Ok(kept.duplicate()));
    let restored = ConfigStore::restore(store.profiles(), None, None);
    assert_eq!(restored.load_profile("p"), Ok(kept));
}
