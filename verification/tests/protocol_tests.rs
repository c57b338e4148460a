use hotkey_bridge::json::{parse, Json};
use hotkey_bridge::persist::{load_config, save_config};
use hotkey_bridge::protocol::{
    apply, handle_delete_profile, handle_message, names_array, outcome_for, parse_request,
    reply_lines_for, save_request_for, Outcome, Persist, Request, Response, Settled,
};
use hotkey_bridge::error::ErrorKind;
use hotkey_bridge::store::ConfigStore;

fn lines(items: &[&str]) -> Vec<String> {
    items.iter().map(|s| s.to_string()).collect()
}

fn store_with(names: &[&str]) -> ConfigStore {
    let mut store = ConfigStore::new();
    for name in names {
        store.save_profile(name.to_string(), Json::String(format!("doc of {}", name)));
    }
    store
}

#[test]
fn commands_are_told_apart_by_their_tag() {
    assert_eq!(parse_request("DELETE_PROFILE:work"), Request::DeleteProfile("work".to_string()));
    assert_eq!(parse_request("LOAD_CONFIG:work"), Request::LoadProfile("work".to_string()));
    assert_eq!(
        parse_request("SAVE_LAST_SELECTED_PROFILE:work"),
        Request::RecordLastSelected("work".to_string())
    );
    assert_eq!(parse_request("GET_LAST_SELECTED_PROFILE"), Request::GetLastSelected);
    assert_eq!(parse_request("GET_PROFILES"), Request::ListProfiles);
    assert_eq!(parse_request("SWITCH_PROFILE:work"), Request::SwitchProfile("work".to_string()));
    assert_eq!(
        parse_request("SAVE_CONFIG:{\"profile\":\"p\",\"config\":[1]}"),
        Request::SaveProfile("p".to_string(), parse("[1]").expect("JSON"))
    );
}

#[test]
fn the_argument_is_all_that_follows_the_tag() {
    assert_eq!(parse_request("LOAD_CONFIG:"), Request::LoadProfile(String::new()));
    assert_eq!(parse_request("LOAD_CONFIG:a:b"), Request::LoadProfile("a:b".to_string()));
    assert_eq!(
        parse_request("DELETE_PROFILE:DELETE_PROFILE:x"),
        Request::DeleteProfile("DELETE_PROFILE:x".to_string())
    );
    assert_eq!(parse_request("SWITCH_PROFILE: é "), Request::SwitchProfile(" é ".to_string()));
}

#[test]
fn other_messages_are_no_commands() {
    for text in ["", "HELLO", "GET_PROFILES ", "get_profiles", "LOAD_CONFIG", "GET_PROFILES:x", " GET_PROFILES"] {
        assert_eq!(parse_request(text), Request::Unknown);
    }
}

#[test]
fn a_save_needs_a_profile_name() {
    assert_eq!(
        parse_request("SAVE_CONFIG:{oops"),
        Request::Malformed("Failed to parse config".to_string())
    );
    assert_eq!(
        parse_request("SAVE_CONFIG:{\"config\":1}"),
        Request::Malformed("Profile name is missing".to_string())
    );
    assert_eq!(
        parse_request("SAVE_CONFIG:{\"profile\":5,\"config\":1}"),
        Request::Malformed("Profile name is missing".to_string())
    );
    assert_eq!(
        parse_request("SAVE_CONFIG:[1,2]"),
        Request::Malformed("Profile name is missing".to_string())
    );
    assert_eq!(
        parse_request("SAVE_CONFIG:{\"profile\":\"p\"}"),
        Request::SaveProfile("p".to_string(), Json::Null)
    );
    assert_eq!(save_request_for(None), Request::Malformed("Failed to parse config".to_string()));
    assert_eq!(
        save_request_for(Some(Json::Null)),
        Request::Malformed("Profile name is missing".to_string())
    );
}

#[test]
fn apply_carries_out_a_request() {
    let mut store = store_with(&["work"]);
    assert_eq!(apply(&mut store, Request::ListProfiles), Response::Profiles(lines(&["work"])));
    assert_eq!(
        apply(&mut store, Request::SaveProfile("home".to_string(), Json::Null)),
        Response::Saved(Json::Null)
    );
    assert_eq!(
        apply(&mut store, Request::LoadProfile("home".to_string())),
        Response::Loaded(Json::Null)
    );
    assert_eq!(
        apply(&mut store, Request::SwitchProfile("home".to_string())),
        Response::Switched("home".to_string(), Json::Null)
    );
    assert_eq!(apply(&mut store, Request::GetLastSelected), Response::LastSelected(None));
    assert_eq!(
        apply(&mut store, Request::RecordLastSelected("x".to_string())),
        Response::Recorded("x".to_string())
    );
    assert_eq!(
        apply(&mut store, Request::GetLastSelected),
        Response::LastSelected(Some("x".to_string()))
    );
    assert_eq!(
        apply(&mut store, Request::DeleteProfile("home".to_string())),
        Response::Deleted("home".to_string())
    );
    assert_eq!(
        apply(&mut store, Request::DeleteProfile("home".to_string())),
        Response::Failed(ErrorKind::NotFound, "Profile 'home' does not exist".to_string())
    );
    assert_eq!(
        apply(&mut store, Request::Malformed("bad".to_string())),
        Response::Failed(ErrorKind::MalformedCommand, "bad".to_string())
    );
    assert_eq!(apply(&mut store, Request::Unknown), Response::Ignored);
    assert_eq!(store.list_profile_names(), lines(&["work"]));
}

#[test]
fn responses_say_whether_they_changed_the_store() {
    assert!(Response::Saved(Json::Null).changes_store());
    assert!(Response::Recorded("a".to_string()).changes_store());
    assert!(Response::Deleted("a".to_string()).changes_store());
    assert!(Response::Switched("a".to_string(), Json::Null).changes_store());
    assert!(!Response::Loaded(Json::Null).changes_store());
    assert!(!Response::LastSelected(None).changes_store());
    assert!(!Response::Profiles(Vec::new()).changes_store());
    assert!(!Response::Failed(ErrorKind::NotFound, String::new()).changes_store());
    assert!(!Response::Ignored.changes_store());
}

#[test]
fn names_go_out_as_an_array_of_strings() {
    assert_eq!(
        names_array(&lines(&["a", "b"])),
        Json::Array(vec![Json::String("a".to_string()), Json::String("b".to_string())])
    );
    assert_eq!(names_array(&Vec::new()), Json::Array(Vec::new()));
}

#[test]
fn replies_are_written_for_each_response() {
    let document = parse("{\"a\": 1}").expect("JSON");
    assert_eq!(
        reply_lines_for(&Response::Saved(document.duplicate())),
        lines(&["CONFIG:{\"a\":1}"])
    );
    assert_eq!(
        reply_lines_for(&Response::Recorded("work".to_string())),
        lines(&["LAST_SELECTED_PROFILE:work"])
    );
    assert_eq!(reply_lines_for(&Response::Ignored), lines(&[]));
    assert_eq!(
        reply_lines_for(&Response::Deleted("work".to_string())),
        lines(&["PROFILE_DELETED:work"])
    );
    assert_eq!(
        reply_lines_for(&Response::Loaded(document.duplicate())),
        lines(&["CONFIG:{\"a\":1}"])
    );
    assert_eq!(
        reply_lines_for(&Response::LastSelected(Some("work".to_string()))),
        lines(&["LAST_SELECTED_PROFILE:work"])
    );
    assert_eq!(
        reply_lines_for(&Response::LastSelected(None)),
        lines(&["LAST_SELECTED_PROFILE:None"])
    );
    assert_eq!(
        reply_lines_for(&Response::Profiles(lines(&["a"]))),
        lines(&["PROFILES:[\"a\"]"])
    );
    assert_eq!(
        reply_lines_for(&Response::Switched("work".to_string(), document)),
        lines(&["PROFILE_SWITCHED:work", "CONFIG:{\"a\":1}"])
    );
    assert_eq!(
        reply_lines_for(&Response::Failed(ErrorKind::NotFound, "nope".to_string())),
        lines(&["ERROR:nope"])
    );
}

#[test]
fn the_outcome_holds_the_text_of_a_changed_store() {
    let store = store_with(&["work"]);
    assert_eq!(
        outcome_for(&Response::Deleted("a".to_string()), &store),
        Outcome {
            replies: lines(&["PROFILE_DELETED:a"]),
            persist: Persist::Write(save_config(&store))
        }
    );
    assert_eq!(
        outcome_for(&Response::Loaded(Json::Null), &store),
        Outcome { replies: lines(&["CONFIG:null"]), persist: Persist::Unchanged }
    );
}

#[test]
fn a_failed_write_is_reported_in_place_of_the_replies() {
    let changed = Outcome { replies: lines(&["PROFILE_DELETED:a"]), persist: Persist::Write("{}".to_string()) };
    assert_eq!(
        changed.after_write(false),
        Settled {
            replies: lines(&["ERROR:Failed to write config file"]),
            failure: Some(ErrorKind::PersistenceFailure)
        }
    );
    let changed = Outcome { replies: lines(&["PROFILE_DELETED:a"]), persist: Persist::Write("{}".to_string()) };
    assert_eq!(
        changed.after_write(true),
        Settled { replies: lines(&["PROFILE_DELETED:a"]), failure: None }
    );
    let read_only = Outcome { replies: lines(&["CONFIG:null"]), persist: Persist::Unchanged };
    assert_eq!(
        read_only.after_write(false),
        Settled { replies: lines(&["CONFIG:null"]), failure: None }
    );
}

#[test]
fn a_failed_write_leaves_the_store_changed() {
    let mut store = store_with(&["work"]);
    let outcome = handle_message(&mut store, "DELETE_PROFILE:work");
    let settled = outcome.after_write(false);
    assert_eq!(settled.failure, Some(ErrorKind::PersistenceFailure));
    assert_eq!(store.load_profile("work"), Err(ErrorKind::NotFound));
}

#[test]
fn handle_delete_profile_deletes_or_reports() {
    let mut store = store_with(&["work", "home"]);
    assert_eq!(
        handle_delete_profile(&mut store, "home".to_string()),
        Response::Deleted("home".to_string())
    );
    assert_eq!(store.list_profile_names(), lines(&["work"]));
    assert_eq!(
        handle_delete_profile(&mut store, "home".to_string()),
        Response::Failed(ErrorKind::NotFound, "Profile 'home' does not exist".to_string())
    );
    assert_eq!(store.current_profile(), Some("work".to_string()));
}

#[test]
fn save_config_saves_and_asks_for_a_write() {
    let mut store = ConfigStore::new();
    let outcome = handle_message(
        &mut store,
        "SAVE_CONFIG:{\"profile\":\"work\",\"config\":{\"f1\":\"play\"}}",
    );
    assert_eq!(outcome.replies, lines(&["CONFIG:{\"f1\":\"play\"}"]));
    assert_eq!(outcome.persist, Persist::Write(save_config(&store)));
    assert_eq!(
        outcome.persist,
        Persist::Write(
            "{\n  \"currentProfile\": \"work\",\n  \"lastSelectedProfile\": null,\n  \"profiles\": {\n    \"work\": {\n      \"f1\": \"play\"\n    }\n  }\n}"
                .to_string()
        )
    );
    assert_eq!(store.current_profile(), Some("work".to_string()));
    assert_eq!(store.load_profile("work"), Ok(parse("{\"f1\":\"play\"}").expect("JSON")));
}

#[test]
fn a_malformed_save_is_answered_with_an_error() {
    let mut store = store_with(&["work"]);
    let outcome = handle_message(&mut store, "SAVE_CONFIG:{\"config\":{}}");
    assert_eq!(
        outcome,
        Outcome { replies: lines(&["ERROR:Profile name is missing"]), persist: Persist::Unchanged }
    );
    let outcome = handle_message(&mut store, "SAVE_CONFIG:");
    assert_eq!(
        outcome,
        Outcome { replies: lines(&["ERROR:Failed to parse config"]), persist: Persist::Unchanged }
    );
    assert_eq!(store.list_profile_names(), lines(&["work"]));
}

#[test]
fn load_config_sends_the_document() {
    let mut store = store_with(&["work"]);
    assert_eq!(
        handle_message(&mut store, "LOAD_CONFIG:work"),
        Outcome { replies: lines(&["CONFIG:\"doc of work\""]), persist: Persist::Unchanged }
    );
    assert_eq!(
        handle_message(&mut store, "LOAD_CONFIG:home"),
        Outcome {
            replies: lines(&["ERROR:Profile 'home' does not exist or has no configuration"]),
            persist: Persist::Unchanged
        }
    );
}

#[test]
fn delete_profile_reports_what_it_did() {
    let mut store = store_with(&["work", "home"]);
    let outcome = handle_message(&mut store, "DELETE_PROFILE:work");
    assert_eq!(outcome.replies, lines(&["PROFILE_DELETED:work"]));
    assert_eq!(outcome.persist, Persist::Write(save_config(&store)));
    assert_eq!(store.current_profile(), None);
    assert_eq!(
        handle_message(&mut store, "DELETE_PROFILE:work"),
        Outcome { replies: lines(&["ERROR:Profile 'work' does not exist"]), persist: Persist::Unchanged }
    );
}

#[test]
fn switch_profile_sends_status_then_document() {
    let mut store = store_with(&["work", "home"]);
    let outcome = handle_message(&mut store, "SWITCH_PROFILE:home");
    assert_eq!(outcome.replies, lines(&["PROFILE_SWITCHED:home", "CONFIG:\"doc of home\""]));
    assert_eq!(outcome.persist, Persist::Write(save_config(&store)));
    assert_eq!(store.current_profile(), Some("home".to_string()));
}

#[test]
fn switch_to_a_missing_profile_is_an_error() {
    let mut store = store_with(&["work"]);
    assert_eq!(
        handle_message(&mut store, "SWITCH_PROFILE:missing"),
        Outcome { replies: lines(&["ERROR:Profile 'missing' does not exist"]), persist: Persist::Unchanged }
    );
    assert_eq!(store.current_profile(), Some("work".to_string()));
}

#[test]
fn the_last_selected_profile_is_recorded_and_sent() {
    let mut store = store_with(&["work"]);
    assert_eq!(
        handle_message(&mut store, "GET_LAST_SELECTED_PROFILE"),
        Outcome { replies: lines(&["LAST_SELECTED_PROFILE:None"]), persist: Persist::Unchanged }
    );
    let outcome = handle_message(&mut store, "SAVE_LAST_SELECTED_PROFILE:ghost");
    assert_eq!(outcome.replies, lines(&["LAST_SELECTED_PROFILE:ghost"]));
    assert_eq!(outcome.persist, Persist::Write(save_config(&store)));
    assert_eq!(store.current_profile(), Some("work".to_string()));
    assert_eq!(
        handle_message(&mut store, "GET_LAST_SELECTED_PROFILE"),
        Outcome { replies: lines(&["LAST_SELECTED_PROFILE:ghost"]), persist: Persist::Unchanged }
    );
}

#[test]
fn get_profiles_sends_the_names() {
    let mut store = store_with(&["work", "home"]);
    assert_eq!(
        handle_message(&mut store, "GET_PROFILES"),
        Outcome { replies: lines(&["PROFILES:[\"home\",\"work\"]"]), persist: Persist::Unchanged }
    );
    let mut empty = ConfigStore::new();
    assert_eq!(
        handle_message(&mut empty, "GET_PROFILES"),
        Outcome { replies: lines(&["PROFILES:[]"]), persist: Persist::Unchanged }
    );
}

#[test]
fn an_unknown_message_is_ignored() {
    let mut store = store_with(&["work"]);
    assert_eq!(
        handle_message(&mut store, "PING"),
        Outcome { replies: lines(&[]), persist: Persist::Unchanged }
    );
    assert_eq!(store.list_profile_names(), lines(&["work"]));
}

#[test]
fn what_is_written_after_a_save_is_read_back() {
    let mut store = ConfigStore::new();
    let first = handle_message(&mut store, "SAVE_CONFIG:{\"profile\":\"piano\",\"config\":{\"k\":[1,2]}}");
    let second = handle_message(&mut store, "SAVE_CONFIG:{\"profile\":\"drums\",\"config\":null}");
    assert!(matches!(first.persist, Persist::Write(_)));
    let text = match second.persist {
        Persist::Write(text) => text,
        other => panic!("nothing to write: {:?}", other),
    };
    let mut reloaded = load_config(&text);
    assert_eq!(
        handle_message(&mut reloaded, "LOAD_CONFIG:piano"),
        Outcome { replies: lines(&["CONFIG:{\"k\":[1,2]}"]), persist: Persist::Unchanged }
    );
    assert_eq!(
        handle_message(&mut reloaded, "LOAD_CONFIG:drums"),
        Outcome { replies: lines(&["CONFIG:null"]), persist: Persist::Unchanged }
    );
}
