//! The session protocol: what a client's message asks for, what it does to
//! the configuration store, and the replies that go back to the client.

use crate::error::ErrorKind;
use crate::json::{
    compact_text, json_parse, json_text, lemma_array_view, parse, views_of, Json, JsonView,
};
use crate::members::{is_normal, lemma_member_normal};
use crate::persist::{config_text_of, save_config};
use crate::store::{text_of, ConfigStore, StoreView};
use crate::text::{chars_of, prefixed, same_text, strip_prefix, texts, without_prefix};
use vstd::prelude::*;

verus! {

/// What a message asks for.
#[derive(Debug, PartialEq, Eq)]
pub enum Request {
    /// Save the document under the name.
    SaveProfile(String, Json),
    /// Delete the profile of this name.
    DeleteProfile(String),
    /// Send the document of the profile of this name.
    LoadProfile(String),
    /// Record the name as selected last.
    RecordLastSelected(String),
    /// Send the name that was selected last.
    GetLastSelected,
    /// Send the names of the profiles.
    ListProfiles,
    /// Make the profile of this name the current one and send its document.
    SwitchProfile(String),
    /// A command whose argument does not have the shape it needs, with the
    /// description of what is wrong.
    Malformed(String),
    /// No command at all.
    Unknown,
}

/// The mathematical value of a `Request`.
pub enum RequestView {
    SaveProfile(Seq<char>, JsonView),
    DeleteProfile(Seq<char>),
    LoadProfile(Seq<char>),
    RecordLastSelected(Seq<char>),
    GetLastSelected,
    ListProfiles,
    SwitchProfile(Seq<char>),
    Malformed(Seq<char>),
    Unknown,
}

impl View for Request {
    type V = RequestView;

    open spec fn view(&self) -> RequestView {
        match self {
            Request::SaveProfile(name, document) => RequestView::SaveProfile(name@, document@),
            Request::DeleteProfile(name) => RequestView::DeleteProfile(name@),
            Request::LoadProfile(name) => RequestView::LoadProfile(name@),
            Request::RecordLastSelected(name) => RequestView::RecordLastSelected(name@),
            Request::GetLastSelected => RequestView::GetLastSelected,
            Request::ListProfiles => RequestView::ListProfiles,
            Request::SwitchProfile(name) => RequestView::SwitchProfile(name@),
            Request::Malformed(description) => RequestView::Malformed(description@),
            Request::Unknown => RequestView::Unknown,
        }
    }
}

/// What the store answers to a request.
#[derive(Debug, PartialEq, Eq)]
pub enum Response {
    /// The document was saved.
    Saved(Json),
    /// The name was recorded as selected last.
    Recorded(String),
    /// The profile of this name was deleted.
    Deleted(String),
    /// The document that was asked for.
    Loaded(Json),
    /// The name that was selected last.
    LastSelected(Option<String>),
    /// The names of the profiles.
    Profiles(Vec<String>),
    /// The profile of this name is now the current one; its document.
    Switched(String, Json),
    /// The request failed, with the kind of the failure and its description.
    Failed(ErrorKind, String),
    /// The message was no command: nothing was done.
    Ignored,
}

/// The mathematical value of a `Response`.
pub enum ResponseView {
    Saved(JsonView),
    Recorded(Seq<char>),
    Deleted(Seq<char>),
    Loaded(JsonView),
    LastSelected(Option<Seq<char>>),
    Profiles(Seq<Seq<char>>),
    Switched(Seq<char>, JsonView),
    Failed(ErrorKind, Seq<char>),
    Ignored,
}

impl View for Response {
    type V = ResponseView;

    open spec fn view(&self) -> ResponseView {
        match self {
            Response::Saved(document) => ResponseView::Saved(document@),
            Response::Recorded(name) => ResponseView::Recorded(name@),
            Response::Deleted(name) => ResponseView::Deleted(name@),
            Response::Loaded(document) => ResponseView::Loaded(document@),
            Response::LastSelected(name) => ResponseView::LastSelected(text_of(*name)),
            Response::Profiles(names) => ResponseView::Profiles(texts(names@)),
            Response::Switched(name, document) => ResponseView::Switched(name@, document@),
            Response::Failed(kind, description) => ResponseView::Failed(*kind, description@),
            Response::Ignored => ResponseView::Ignored,
        }
    }
}

impl ResponseView {
    /// Whether the request changed the store, so that the store has to be
    /// written.
    pub open spec fn changes_store(self) -> bool {
        self is Saved || self is Recorded || self is Deleted || self is Switched
    }
}

/// A list of names as a JSON array of strings.
pub open spec fn names_json(names: Seq<Seq<char>>) -> JsonView {
    JsonView::Array(Seq::new(names.len(), |i: int| JsonView::String(names[i])))
}

/// The request that the argument of a save command makes, given what the
/// argument parses to: an object whose member `profile` is a string asks to
/// save its member `config` (null where there is none) under that name;
/// anything else is malformed.
pub open spec fn save_request(parsed: Option<JsonView>) -> RequestView {
    match parsed {
        None => RequestView::Malformed("Failed to parse config"@),
        Some(json) => match json.member("profile"@) {
            Some(JsonView::String(name)) => RequestView::SaveProfile(
                name,
                match json.member("config"@) {
                    Some(document) => document,
                    None => JsonView::Null,
                },
            ),
            _ => RequestView::Malformed("Profile name is missing"@),
        },
    }
}

/// The request that a message makes. A command with an argument is the tag,
/// a colon and the argument; the two commands without argument are the bare
/// tag. Any other message is no command.
pub open spec fn request_of(message: Seq<char>) -> RequestView {
    match without_prefix(message, "SAVE_CONFIG:"@) {
        Some(argument) => save_request(json_parse(argument)),
        None => match without_prefix(message, "DELETE_PROFILE:"@) {
            Some(name) => RequestView::DeleteProfile(name),
            None => match without_prefix(message, "LOAD_CONFIG:"@) {
                Some(name) => RequestView::LoadProfile(name),
                None => match without_prefix(message, "SAVE_LAST_SELECTED_PROFILE:"@) {
                    Some(name) => RequestView::RecordLastSelected(name),
                    None => if message == "GET_LAST_SELECTED_PROFILE"@ {
                        RequestView::GetLastSelected
                    } else if message == "GET_PROFILES"@ {
                        RequestView::ListProfiles
                    } else {
                        match without_prefix(message, "SWITCH_PROFILE:"@) {
                            Some(name) => RequestView::SwitchProfile(name),
                            None => RequestView::Unknown,
                        }
                    },
                },
            },
        },
    }
}

/// The description of the failure to find a profile.
pub open spec fn missing_profile(name: Seq<char>) -> Seq<char> {
    "Profile '"@ + name + "' does not exist"@
}

/// The description of the failure to find a profile's document.
pub open spec fn missing_document(name: Seq<char>) -> Seq<char> {
    "Profile '"@ + name + "' does not exist or has no configuration"@
}

/// The store after a request.
pub open spec fn store_after(store: StoreView, request: RequestView) -> StoreView {
    match request {
        RequestView::SaveProfile(name, document) => store.saved(name, document),
        RequestView::DeleteProfile(name) => if store.has(name) {
            store.deleted(name)
        } else {
            store
        },
        RequestView::RecordLastSelected(name) => store.recorded(name),
        RequestView::SwitchProfile(name) => if store.has(name) {
            store.switched(name)
        } else {
            store
        },
        _ => store,
    }
}

/// The response of a store to a request.
pub open spec fn response_to(store: StoreView, request: RequestView) -> ResponseView {
    match request {
        RequestView::SaveProfile(_, document) => ResponseView::Saved(document),
        RequestView::DeleteProfile(name) => if store.has(name) {
            ResponseView::Deleted(name)
        } else {
            ResponseView::Failed(ErrorKind::NotFound, missing_profile(name))
        },
        RequestView::LoadProfile(name) => match store.document(name) {
            Some(document) => ResponseView::Loaded(document),
            None => ResponseView::Failed(ErrorKind::NotFound, missing_document(name)),
        },
        RequestView::RecordLastSelected(name) => ResponseView::Recorded(name),
        RequestView::GetLastSelected => ResponseView::LastSelected(store.last_selected),
        RequestView::ListProfiles => ResponseView::Profiles(store.names()),
        RequestView::SwitchProfile(name) => match store.document(name) {
            Some(document) => ResponseView::Switched(name, document),
            None => ResponseView::Failed(ErrorKind::NotFound, missing_profile(name)),
        },
        RequestView::Malformed(description) => ResponseView::Failed(
            ErrorKind::MalformedCommand,
            description,
        ),
        RequestView::Unknown => ResponseView::Ignored,
    }
}

/// The messages that go back to the client for a response, in their order.
/// Every command is answered with one message, a switch with two: the
/// status, then the document. A document goes out as its compact JSON text,
/// the names of the profiles as a JSON array. A document that was saved is
/// sent back as it was stored, and a name that was recorded comes back as
/// the name selected last.
pub open spec fn reply_lines(response: ResponseView) -> Seq<Seq<char>> {
    match response {
        ResponseView::Ignored => Seq::empty(),
        ResponseView::Recorded(name) => seq!["LAST_SELECTED_PROFILE:"@ + name],
        ResponseView::Deleted(name) => seq!["PROFILE_DELETED:"@ + name],
        ResponseView::Saved(document) => seq!["CONFIG:"@ + json_text(document)],
        ResponseView::Loaded(document) => seq!["CONFIG:"@ + json_text(document)],
        ResponseView::LastSelected(name) => match name {
            Some(text) => seq!["LAST_SELECTED_PROFILE:"@ + text],
            None => seq!["LAST_SELECTED_PROFILE:"@ + "None"@],
        },
        ResponseView::Profiles(names) => seq!["PROFILES:"@ + json_text(names_json(names))],
        ResponseView::Switched(name, document) => seq![
            "PROFILE_SWITCHED:"@ + name,
            "CONFIG:"@ + json_text(document),
        ],
        ResponseView::Failed(_, description) => seq!["ERROR:"@ + description],
    }
}

/// Every response but the one to a message that is no command is answered
/// with one message or with two.
pub proof fn lemma_one_or_two_replies(response: ResponseView)
    ensures
        response is Ignored ==> reply_lines(response).len() == 0,
        !(response is Ignored) ==> 1 <= reply_lines(response).len() <= 2,
        reply_lines(response).len() == 2 <==> response is Switched,
{
}

/// A document in its normal form that is saved is the document that is
/// loaded afterwards, and the document to which a switch leads.
pub proof fn lemma_saved_is_loaded(store: StoreView, name: Seq<char>, document: JsonView)
    requires
        store.wf(),
        is_normal(document),
    ensures
        response_to(
            store_after(store, RequestView::SaveProfile(name, document)),
            RequestView::LoadProfile(name),
        ) == ResponseView::Loaded(document),
        response_to(
            store_after(store, RequestView::SaveProfile(name, document)),
            RequestView::SwitchProfile(name),
        ) == ResponseView::Switched(name, document),
{
    crate::store::lemma_saved(store, name, document);
}

/// What is to be done about the configuration file.
#[derive(Debug, PartialEq, Eq)]
pub enum Persist {
    /// Nothing: the store is as it was.
    Unchanged,
    /// The store was changed: this text is to be written.
    Write(String),
}

/// The mathematical value of a `Persist`.
pub enum PersistView {
    Unchanged,
    Write(Seq<char>),
}

impl View for Persist {
    type V = PersistView;

    open spec fn view(&self) -> PersistView {
        match self {
            Persist::Unchanged => PersistView::Unchanged,
            Persist::Write(text) => PersistView::Write(text@),
        }
    }
}

/// What handling a message leaves to do: the replies to send to the client,
/// in their order, and what is to be done about the configuration file.
#[derive(Debug, PartialEq, Eq)]
pub struct Outcome {
    pub replies: Vec<String>,
    pub persist: Persist,
}

/// The mathematical value of an `Outcome`.
pub struct OutcomeView {
    pub replies: Seq<Seq<char>>,
    pub persist: PersistView,
}

impl View for Outcome {
    type V = OutcomeView;

    open spec fn view(&self) -> OutcomeView {
        OutcomeView { replies: texts(self.replies@), persist: self.persist@ }
    }
}

/// The outcome of a response on a store as it is after the request: the
/// replies to the response and, where the request changed the store, the
/// text of the store to write.
pub open spec fn outcome_of(response: ResponseView, store: StoreView) -> OutcomeView {
    OutcomeView {
        replies: reply_lines(response),
        persist: if response.changes_store() {
            PersistView::Write(config_text_of(store))
        } else {
            PersistView::Unchanged
        },
    }
}

/// What is left of an outcome once the configuration file was written, or
/// could not be: the replies to send, and the failure, if the changed store
/// did not reach the file.
#[derive(Debug, PartialEq, Eq)]
pub struct Settled {
    pub replies: Vec<String>,
    pub failure: Option<ErrorKind>,
}

/// The mathematical value of a `Settled`.
pub struct SettledView {
    pub replies: Seq<Seq<char>>,
    pub failure: Option<ErrorKind>,
}

impl View for Settled {
    type V = SettledView;

    open spec fn view(&self) -> SettledView {
        SettledView { replies: texts(self.replies@), failure: self.failure }
    }
}

/// An outcome once the configuration file was written, or could not be. A
/// write that failed is a `PersistenceFailure`, which is reported to the
/// client in place of the replies. The store stays as it was changed.
pub open spec fn settled(outcome: OutcomeView, written: bool) -> SettledView {
    match outcome.persist {
        PersistView::Unchanged => SettledView { replies: outcome.replies, failure: None },
        PersistView::Write(_) => if written {
            SettledView { replies: outcome.replies, failure: None }
        } else {
            SettledView {
                replies: seq!["ERROR:"@ + "Failed to write config file"@],
                failure: Some(ErrorKind::PersistenceFailure),
            }
        },
    }
}

/// The outcome of handling a request on a store: that of the store's
/// response, on the store as it is after the request.
pub open spec fn outcome_on(store: StoreView, request: RequestView) -> OutcomeView {
    outcome_of(response_to(store, request), store_after(store, request))
}

/// The request that the argument of a save command makes, once parsed.
pub fn save_request_for(parsed: Option<Json>) -> (request: Request)
    ensures
        request@ == save_request(
            match parsed {
                Some(json) => Some(json@),
                None => None,
            },
        ),
{
    match parsed {
        None => Request::Malformed("Failed to parse config".to_owned()),
        Some(json) => {
            let name = match json.member("profile") {
                Some(value) => match value.as_text() {
                    Some(text) => Some(text.clone()),
                    None => None,
                },
                None => None,
            };
            match name {
                Some(name) => {
                    let document = match json.member("config") {
                        Some(value) => value.duplicate(),
                        None => Json::Null,
                    };
                    Request::SaveProfile(name, document)
                },
                None => Request::Malformed("Profile name is missing".to_owned()),
            }
        },
    }
}

/// Reads what a message asks for. The document of a save request is in its
/// normal form, as the JSON reader gives it.
pub fn parse_request(message: &str) -> (request: Request)
    ensures
        request@ == request_of(message@),
        request@ matches RequestView::SaveProfile(_, document) ==> is_normal(document),
{
    let chars = chars_of(message);
    if let Some(argument) = strip_prefix(&chars, "SAVE_CONFIG:") {
        let parsed = parse(argument.as_str());
        proof {
            match &parsed {
                Some(json) => {
                    lemma_member_normal(json@, "config"@);
                },
                None => {},
            }
        }
        return save_request_for(parsed);
    }
    if let Some(name) = strip_prefix(&chars, "DELETE_PROFILE:") {
        return Request::DeleteProfile(name);
    }
    if let Some(name) = strip_prefix(&chars, "LOAD_CONFIG:") {
        return Request::LoadProfile(name);
    }
    if let Some(name) = strip_prefix(&chars, "SAVE_LAST_SELECTED_PROFILE:") {
        return Request::RecordLastSelected(name);
    }
    if same_text(message, "GET_LAST_SELECTED_PROFILE") {
        return Request::GetLastSelected;
    }
    if same_text(message, "GET_PROFILES") {
        return Request::ListProfiles;
    }
    if let Some(name) = strip_prefix(&chars, "SWITCH_PROFILE:") {
        return Request::SwitchProfile(name);
    }
    Request::Unknown
}

/// `head`, the name, and `tail`.
fn around_name(head: &str, name: &str, tail: &str) -> (r: String)
    ensures
        r@ == head@ + name@ + tail@,
{
    let mut r = head.to_owned();
    r.append(name);
    r.append(tail);
    r
}

/// Deletes a profile and says what came of it: the name of the profile that
/// was deleted, or that no profile has the name.
pub fn handle_delete_profile(store: &mut ConfigStore, profile_name: String) -> (response: Response)
    requires
        old(store).wf(),
    ensures
        final(store).wf(),
        final(store)@ == store_after(old(store)@, RequestView::DeleteProfile(profile_name@)),
        response@ == response_to(old(store)@, RequestView::DeleteProfile(profile_name@)),
{
    match store.delete_profile(profile_name.as_str()) {
        Ok(_) => Response::Deleted(profile_name),
        Err(kind) => Response::Failed(
            kind,
            around_name("Profile '", profile_name.as_str(), "' does not exist"),
        ),
    }
}

/// Carries out a request on the store and says what came of it.
pub fn apply(store: &mut ConfigStore, request: Request) -> (response: Response)
    requires
        old(store).wf(),
    ensures
        final(store).wf(),
        final(store)@ == store_after(old(store)@, request@),
        response@ == response_to(old(store)@, request@),
{
    match request {
        Request::SaveProfile(name, document) => {
            let saved = document.duplicate();
            store.save_profile(name, document);
            Response::Saved(saved)
        },
        Request::DeleteProfile(name) => handle_delete_profile(store, name),
        Request::LoadProfile(name) => {
            match store.load_profile(name.as_str()) {
                Ok(document) => Response::Loaded(document),
                Err(kind) => Response::Failed(
                    kind,
                    around_name(
                        "Profile '",
                        name.as_str(),
                        "' does not exist or has no configuration",
                    ),
                ),
            }
        },
        Request::RecordLastSelected(name) => {
            store.record_last_selected(name.clone());
            Response::Recorded(name)
        },
        Request::GetLastSelected => Response::LastSelected(store.get_last_selected()),
        Request::ListProfiles => Response::Profiles(store.list_profile_names()),
        Request::SwitchProfile(name) => {
            match store.switch_profile(name.as_str()) {
                Ok(document) => Response::Switched(name, document),
                Err(kind) => Response::Failed(
                    kind,
                    around_name("Profile '", name.as_str(), "' does not exist"),
                ),
            }
        },
        Request::Malformed(description) => Response::Failed(
            ErrorKind::MalformedCommand,
            description,
        ),
        Request::Unknown => Response::Ignored,
    }
}

impl Response {
    /// Whether the request changed the store.
    pub fn changes_store(&self) -> (r: bool)
        ensures
            r == self@.changes_store(),
    {
        match self {
            Response::Saved(_) => true,
            Response::Recorded(_) => true,
            Response::Deleted(_) => true,
            Response::Switched(_, _) => true,
            _ => false,
        }
    }
}

/// The names as a JSON array of strings.
pub fn names_array(names: &Vec<String>) -> (json: Json)
    ensures
        json@ == names_json(texts(names@)),
{
    let mut items: Vec<Json> = Vec::new();
    let mut i: usize = 0;
    while i < names.len()
        invariant
            i <= names.len(),
            items.len() == i,
            forall|k: int| 0 <= k < i ==> items@[k]@ == JsonView::String(names@[k]@),
        decreases names.len() - i,
    {
        items.push(Json::String(names[i].clone()));
        i += 1;
    }
    proof {
        lemma_array_view(items);
        assert(views_of(items@) =~= names_json(texts(names@))->Array_0);
    }
    Json::Array(items)
}

/// A list with one message.
fn one_line(line: String) -> (lines: Vec<String>)
    ensures
        texts(lines@) == seq![line@],
{
    let mut lines: Vec<String> = Vec::new();
    lines.push(line);
    lines
}

/// The messages that go back to the client for a response.
pub fn reply_lines_for(response: &Response) -> (lines: Vec<String>)
    ensures
        texts(lines@) == reply_lines(response@),
{
    match response {
        Response::Ignored => Vec::new(),
        Response::Recorded(name) => one_line(prefixed("LAST_SELECTED_PROFILE:", name.as_str())),
        Response::Deleted(name) => one_line(prefixed("PROFILE_DELETED:", name.as_str())),
        Response::Saved(document) => one_line(
            prefixed("CONFIG:", compact_text(document).as_str()),
        ),
        Response::Loaded(document) => one_line(
            prefixed("CONFIG:", compact_text(document).as_str()),
        ),
        Response::LastSelected(name) => match name {
            Some(text) => one_line(prefixed("LAST_SELECTED_PROFILE:", text.as_str())),
            None => one_line(prefixed("LAST_SELECTED_PROFILE:", "None")),
        },
        Response::Profiles(names) => {
            let array = names_array(names);
            one_line(prefixed("PROFILES:", compact_text(&array).as_str()))
        },
        Response::Switched(name, document) => {
            let mut lines: Vec<String> = Vec::new();
            lines.push(prefixed("PROFILE_SWITCHED:", name.as_str()));
            lines.push(prefixed("CONFIG:", compact_text(document).as_str()));
            lines
        },
        Response::Failed(_, description) => one_line(prefixed("ERROR:", description.as_str())),
    }
}

/// The outcome of a response on the store as it is after the request.
pub fn outcome_for(response: &Response, store: &ConfigStore) -> (outcome: Outcome)
    ensures
        outcome@ == outcome_of(response@, store@),
{
    let replies = reply_lines_for(response);
    let persist = if response.changes_store() {
        Persist::Write(save_config(store))
    } else {
        Persist::Unchanged
    };
    Outcome { replies, persist }
}

impl Outcome {
    /// What is left to do once the configuration file was written, or could
    /// not be. For an outcome that asked for no write, `written` does not
    /// matter.
    pub fn after_write(self, written: bool) -> (r: Settled)
        ensures
            r@ == settled(self@, written),
    {
        match self.persist {
            Persist::Unchanged => Settled { replies: self.replies, failure: None },
            Persist::Write(_) => if written {
                Settled { replies: self.replies, failure: None }
            } else {
                Settled {
                    replies: one_line(prefixed("ERROR:", "Failed to write config file")),
                    failure: Some(ErrorKind::PersistenceFailure),
                }
            },
        }
    }
}

/// Handles one message of a client: reads what it asks for, carries it out
/// on the store, and returns the replies and, where the store was changed,
/// the text to write to the configuration file.
///
/// The store afterwards and the outcome are fixed by the message and the
/// store before.
pub fn handle_message(store: &mut ConfigStore, message: &str) -> (outcome: Outcome)
    requires
        old(store).wf(),
    ensures
        final(store).wf(),
        final(store)@ == store_after(old(store)@, request_of(message@)),
        outcome@ == outcome_on(old(store)@, request_of(message@)),
{
    let request = parse_request(message);
    let response = apply(store, request);
    outcome_for(&response, store)
}

} // verus!
