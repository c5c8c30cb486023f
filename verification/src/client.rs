//! The printer client's decisions: where it connects, what it does with
//! each websocket message, and which configuration it accepts.
use vstd::prelude::*;
use vstd::string::*;
use crate::text::{is_blank, letters};

verus! {

/// Seconds the client waits before it reconnects to the relay.
pub const RECONNECT_DELAY_SECS: u64 = 3;

/// The path of the relay's websocket endpoint.
pub const WEBSOCKET_PATH: &'static str = "/print/ws";

/// The scheme of the URL that `url::Url::parse` reads from `text`, `None`
/// where it does not parse.
pub uninterp spec fn url_parsed_scheme(text: Seq<char>) -> Option<Seq<char>>;

/// The URL read from `text` with its scheme set to `scheme`
/// (`url::Url::set_scheme`), as text; `None` where either step fails.
pub uninterp spec fn url_with_scheme(text: Seq<char>, scheme: Seq<char>) -> Option<Seq<char>>;

/// The URL read from `text` with its path set to `path`
/// (`url::Url::set_path`), as text; `None` where it does not parse.
pub uninterp spec fn url_with_path(text: Seq<char>, path: Seq<char>) -> Option<Seq<char>>;

/// The URL read from `text` without query (`url::Url::set_query(None)`), as
/// text; `None` where it does not parse.
pub uninterp spec fn url_without_query(text: Seq<char>) -> Option<Seq<char>>;

/// The URL read from `text` without fragment (`url::Url::set_fragment(None)`),
/// as text; `None` where it does not parse.
pub uninterp spec fn url_without_fragment(text: Seq<char>) -> Option<Seq<char>>;

/// Whether `text` parses as a URL with the scheme `ws` or `wss`.
pub open spec fn websocket_scheme(text: Seq<char>) -> bool {
    url_parsed_scheme(text) == Some("ws"@) || url_parsed_scheme(text) == Some("wss"@)
}

/// Parses `text` with `url::Url::parse` and gives its scheme
/// (`url::Url::scheme`). Claimed: the result is a function of the text.
#[verifier::external_body]
fn url_scheme(text: &str) -> (scheme: Option<String>)
    ensures
        match scheme {
            Some(s) => url_parsed_scheme(text@) == Some(s@),
            None => url_parsed_scheme(text@) is None,
        },
{
    url::Url::parse(text).ok().map(|u| u.scheme().to_owned())
}

/// Parses `text` with `url::Url::parse`, sets the scheme with
/// `url::Url::set_scheme` and gives the URL's text back. Claimed: the result
/// is a function of the arguments; changing a parsed `http` or `https` URL
/// (which always has a host) to `ws` or `wss` succeeds, as `set_scheme`
/// refuses only a change between special and non-special schemes, to `file`,
/// or to a special scheme without host; and the URL's text parses again
/// (the crate's own invariant check re-parses every serialization) with the
/// new scheme.
#[verifier::external_body]
fn url_set_scheme(text: &str, scheme: &str) -> (url: Option<String>)
    ensures
        match url {
            Some(u) => url_with_scheme(text@, scheme@) == Some(u@),
            None => url_with_scheme(text@, scheme@) is None,
        },
        (url_parsed_scheme(text@) == Some("http"@) || url_parsed_scheme(text@) == Some("https"@))
            && (scheme@ == "ws"@ || scheme@ == "wss"@) ==> url is Some,
        (scheme@ == "ws"@ || scheme@ == "wss"@) ==> (url matches Some(u) ==> url_parsed_scheme(u@)
            == Some(scheme@)),
{
    let mut parsed = url::Url::parse(text).ok()?;
    parsed.set_scheme(scheme).ok()?;
    Some(parsed.into())
}

/// Parses `text` with `url::Url::parse`, sets the path with
/// `url::Url::set_path` and gives the URL's text back. Claimed: the result
/// is a function of the arguments; the setter cannot fail, so a URL that
/// parses always gives a result, and that result parses again with the
/// same scheme (the crate re-parses every serialization in its invariant
/// check); for a `ws` or `wss` URL, setting the same path on the result
/// changes nothing, as the setter rewrites the path alone and its text
/// depends only on `path` and the parts it leaves alone.
#[verifier::external_body]
fn url_set_path(text: &str, path: &str) -> (url: Option<String>)
    ensures
        match url {
            Some(u) => url_with_path(text@, path@) == Some(u@),
            None => url_with_path(text@, path@) is None,
        },
        url_parsed_scheme(text@) is Some ==> url is Some,
        url matches Some(u) ==> url_parsed_scheme(u@) == url_parsed_scheme(text@),
        websocket_scheme(text@) ==> (url matches Some(u) ==> url_with_path(u@, path@) == Some(u@)),
{
    let mut parsed = url::Url::parse(text).ok()?;
    parsed.set_path(path);
    Some(parsed.into())
}

/// Parses `text` with `url::Url::parse`, removes the query with
/// `url::Url::set_query(None)` and gives the URL's text back. Claimed: the
/// result is a function of the text; the setter cannot fail, so a URL that
/// parses always gives a result, and that result parses again with the
/// same scheme (the crate re-parses every serialization in its invariant
/// check); for a `ws` or `wss` URL (never one with an opaque path) the
/// setter only cuts the query off, so removing the query again changes
/// nothing, and a path that setting would leave unchanged before is one it
/// leaves unchanged after.
#[verifier::external_body]
fn url_clear_query(text: &str) -> (url: Option<String>)
    ensures
        match url {
            Some(u) => url_without_query(text@) == Some(u@),
            None => url_without_query(text@) is None,
        },
        url_parsed_scheme(text@) is Some ==> url is Some,
        url matches Some(u) ==> url_parsed_scheme(u@) == url_parsed_scheme(text@),
        websocket_scheme(text@) ==> (url matches Some(u) ==> url_without_query(u@) == Some(u@)),
        websocket_scheme(text@) ==> (url matches Some(u) ==> forall|path: Seq<char>|
            url_with_path(text@, path) == Some(text@) ==> #[trigger] url_with_path(u@, path) == Some(
                u@,
            )),
{
    let mut parsed = url::Url::parse(text).ok()?;
    parsed.set_query(None);
    Some(parsed.into())
}

/// Parses `text` with `url::Url::parse`, removes the fragment with
/// `url::Url::set_fragment(None)` and gives the URL's text back. Claimed:
/// the result is a function of the text; the setter cannot fail, so a URL that
/// parses always gives a result, and that result parses again with the
/// same scheme (the crate re-parses every serialization in its invariant
/// check); for a `ws` or `wss` URL (never one with an opaque path) the
/// setter only cuts the fragment off, so removing the fragment again
/// changes nothing, and a path or an absent query that setting would leave
/// unchanged before is one it leaves unchanged after.
#[verifier::external_body]
fn url_clear_fragment(text: &str) -> (url: Option<String>)
    ensures
        match url {
            Some(u) => url_without_fragment(text@) == Some(u@),
            None => url_without_fragment(text@) is None,
        },
        url_parsed_scheme(text@) is Some ==> url is Some,
        url matches Some(u) ==> url_parsed_scheme(u@) == url_parsed_scheme(text@),
        websocket_scheme(text@) ==> (url matches Some(u) ==> url_without_fragment(u@) == Some(u@)),
        websocket_scheme(text@) ==> (url matches Some(u) ==> forall|path: Seq<char>|
            url_with_path(text@, path) == Some(text@) ==> #[trigger] url_with_path(u@, path) == Some(
                u@,
            )),
        websocket_scheme(text@) ==> (url matches Some(u) ==> (url_without_query(text@) == Some(
            text@,
        ) ==> url_without_query(u@) == Some(u@))),
{
    let mut parsed = url::Url::parse(text).ok()?;
    parsed.set_fragment(None);
    Some(parsed.into())
}

/// Why the relay's address cannot give a websocket URL.
pub enum UrlError {
    /// The address is not a URL.
    Invalid,
    /// The scheme could not be changed to the websocket one.
    SchemeChange,
    /// The address has a scheme other than http, https, ws and wss.
    UnsupportedScheme(String),
}

/// The websocket scheme that replaces a URL scheme: `ws` for `http`, `wss`
/// for `https`; `ws` and `wss` stay as they are.
pub enum SchemeChoice {
    Keep,
    Replace(&'static str),
    Unsupported,
}

/// Which websocket scheme a URL scheme maps to.
pub open spec fn scheme_choice_spec(scheme: Seq<char>) -> Option<Option<Seq<char>>> {
    if scheme == "http"@ {
        Some(Some("ws"@))
    } else if scheme == "https"@ {
        Some(Some("wss"@))
    } else if scheme == "ws"@ || scheme == "wss"@ {
        Some(None)
    } else {
        None
    }
}

fn str_eq(a: &str, b: &str) -> (r: bool)
    ensures
        r == (a@ == b@),
{
    a.to_owned() == b.to_owned()
}

/// Maps a URL scheme to the websocket scheme of the relay's endpoint.
pub fn scheme_choice(scheme: &str) -> (choice: SchemeChoice)
    ensures
        match choice {
            SchemeChoice::Keep => scheme_choice_spec(scheme@) == Some(None::<Seq<char>>),
            SchemeChoice::Replace(s) => scheme_choice_spec(scheme@) == Some(Some(s@)),
            SchemeChoice::Unsupported => scheme_choice_spec(scheme@) is None,
        },
{
    if str_eq(scheme, "http") {
        SchemeChoice::Replace("ws")
    } else if str_eq(scheme, "https") {
        SchemeChoice::Replace("wss")
    } else if str_eq(scheme, "ws") || str_eq(scheme, "wss") {
        SchemeChoice::Keep
    } else {
        SchemeChoice::Unsupported
    }
}

/// The websocket scheme for a supported URL scheme: `ws` for `http` and
/// `ws`, `wss` for `https` and `wss`.
pub open spec fn websocket_scheme_of(scheme: Seq<char>) -> Seq<char> {
    match scheme_choice_spec(scheme) {
        Some(Some(ws)) => ws,
        _ => scheme,
    }
}

/// The relay address with its scheme made a websocket one (where
/// `url_parsed_scheme` says it parses with a supported scheme).
pub open spec fn with_ws_scheme(text: Seq<char>) -> Option<Seq<char>> {
    match url_parsed_scheme(text) {
        None => None,
        Some(scheme) => match scheme_choice_spec(scheme) {
            None => None,
            Some(None) => Some(text),
            Some(Some(ws)) => url_with_scheme(text, ws),
        },
    }
}

/// The websocket URL of the relay at `text`: websocket scheme, the path
/// `/print/ws`, and no query or fragment.
pub open spec fn websocket_url_spec(text: Seq<char>) -> Option<Seq<char>> {
    match with_ws_scheme(text) {
        None => None,
        Some(a) => match url_with_path(a, WEBSOCKET_PATH@) {
            None => None,
            Some(b) => match url_without_query(b) {
                None => None,
                Some(c) => url_without_fragment(c),
            },
        },
    }
}

/// The websocket URL of the relay whose address is `server_url`: `http`
/// becomes `ws` and `https` becomes `wss` (`ws` and `wss` stay), the path is
/// set to `/print/ws`, and query and fragment are removed.
pub fn websocket_url(server_url: &str) -> (url: Result<String, UrlError>)
    ensures
        url_parsed_scheme(server_url@) is None ==> url matches Err(UrlError::Invalid),
        url_parsed_scheme(server_url@) is Some && scheme_choice_spec(
            url_parsed_scheme(server_url@)->0,
        ) is None ==> (url matches Err(UrlError::UnsupportedScheme(e)) && e@ == url_parsed_scheme(
            server_url@,
        )->0),
        url matches Ok(u) ==> websocket_url_spec(server_url@) == Some(u@),
        url is Ok <==> websocket_url_spec(server_url@) is Some,
        url matches Err(UrlError::UnsupportedScheme(e)) ==> url_parsed_scheme(server_url@) == Some(e@)
            && scheme_choice_spec(e@) is None,
        url matches Err(UrlError::Invalid) ==> url_parsed_scheme(server_url@) is None,
        !(url matches Err(UrlError::SchemeChange)),
        url is Err <==> (url_parsed_scheme(server_url@) is None || scheme_choice_spec(
            url_parsed_scheme(server_url@)->0,
        ) is None),
        url matches Ok(u) ==> url_parsed_scheme(u@) == Some(
            websocket_scheme_of(url_parsed_scheme(server_url@)->0),
        ),
        url matches Ok(u) ==> url_with_path(u@, WEBSOCKET_PATH@) == Some(u@),
        url matches Ok(u) ==> url_without_query(u@) == Some(u@),
        url matches Ok(u) ==> url_without_fragment(u@) == Some(u@),
{
    let scheme = match url_scheme(server_url) {
        Some(s) => s,
        None => {
            return Err(UrlError::Invalid);
        },
    };
    let with_scheme = match scheme_choice(scheme.as_str()) {
        SchemeChoice::Keep => server_url.to_owned(),
        SchemeChoice::Replace(ws) => match url_set_scheme(server_url, ws) {
            Some(u) => u,
            None => {
                return Err(UrlError::SchemeChange);
            },
        },
        SchemeChoice::Unsupported => {
            return Err(UrlError::UnsupportedScheme(scheme));
        },
    };
    let with_path = match url_set_path(with_scheme.as_str(), WEBSOCKET_PATH) {
        Some(u) => u,
        None => {
            return Err(UrlError::Invalid);
        },
    };
    let without_query = match url_clear_query(with_path.as_str()) {
        Some(u) => u,
        None => {
            return Err(UrlError::Invalid);
        },
    };
    match url_clear_fragment(without_query.as_str()) {
        Some(u) => Ok(u),
        None => Err(UrlError::Invalid),
    }
}

/// A message the printer client receives from the relay.
pub enum ClientMessage {
    Text(String),
    Binary,
    Ping,
    Pong,
    Frame,
    Close,
}

/// What the printer client does with a message.
pub enum ClientAction {
    /// Print this job.
    Print(String),
    /// Ignore a message the relay should not send (a binary one).
    Ignore,
    /// Nothing to do.
    Continue,
    /// The relay closed the connection.
    Stop,
}

/// The client's reaction to each message.
pub open spec fn client_action_spec(message: ClientMessage) -> ClientAction {
    match message {
        ClientMessage::Text(t) => ClientAction::Print(t),
        ClientMessage::Binary => ClientAction::Ignore,
        ClientMessage::Ping => ClientAction::Continue,
        ClientMessage::Pong => ClientAction::Continue,
        ClientMessage::Frame => ClientAction::Continue,
        ClientMessage::Close => ClientAction::Stop,
    }
}

/// Decides what the client does with a message: text is a print job,
/// binary data is ignored, control frames need nothing, and a close ends
/// the connection.
pub fn client_action(message: ClientMessage) -> (action: ClientAction)
    ensures
        action == client_action_spec(message),
{
    match message {
        ClientMessage::Text(t) => ClientAction::Print(t),
        ClientMessage::Binary => ClientAction::Ignore,
        ClientMessage::Ping => ClientAction::Continue,
        ClientMessage::Pong => ClientAction::Continue,
        ClientMessage::Frame => ClientAction::Continue,
        ClientMessage::Close => ClientAction::Stop,
    }
}

/// The client's actions on a run of messages: one per message, up to and
/// including the first that ends the connection.
pub open spec fn client_session(messages: Seq<ClientMessage>) -> Seq<ClientAction>
    decreases messages.len(),
{
    if messages.len() == 0 {
        seq![]
    } else if client_action_spec(messages[0]) is Stop {
        seq![client_action_spec(messages[0])]
    } else {
        seq![client_action_spec(messages[0])] + client_session(messages.drop_first())
    }
}

/// The text messages received before the relay closes the connection, in
/// order.
pub open spec fn texts_until_close(messages: Seq<ClientMessage>) -> Seq<Seq<char>>
    decreases messages.len(),
{
    if messages.len() == 0 || client_action_spec(messages[0]) is Stop {
        seq![]
    } else {
        (match messages[0] {
            ClientMessage::Text(t) => seq![t@],
            _ => seq![],
        }) + texts_until_close(messages.drop_first())
    }
}

/// The texts a run of actions prints, in order.
pub open spec fn printed_texts(actions: Seq<ClientAction>) -> Seq<Seq<char>>
    decreases actions.len(),
{
    if actions.len() == 0 {
        seq![]
    } else {
        (match actions[0] {
            ClientAction::Print(t) => seq![t@],
            _ => seq![],
        }) + printed_texts(actions.drop_first())
    }
}

/// Over a connection to the relay, the client prints exactly the text
/// messages received before the relay closes the connection, in the order
/// they arrived; it stops exactly at the first close message, with no
/// action after it.
pub proof fn lemma_client_session(messages: Seq<ClientMessage>)
    ensures
        printed_texts(client_session(messages)) == texts_until_close(messages),
        forall|i: int|
            0 <= i < client_session(messages).len() - 1 ==> !(#[trigger] client_session(messages)[i] is Stop),
        (exists|i: int| 0 <= i < messages.len() && #[trigger] client_action_spec(messages[i]) is Stop)
            <==> (client_session(messages).len() > 0 && client_session(messages).last() is Stop),
    decreases messages.len(),
{
    if messages.len() > 0 {
        let a = client_action_spec(messages[0]);
        let rest = messages.drop_first();
        lemma_client_session(rest);
        let acts = client_session(messages);
        if a is Stop {
            assert(acts =~= seq![a]);
            assert(acts[0] is Stop);
            assert(acts.drop_first() =~= Seq::<ClientAction>::empty());
            assert(printed_texts(acts.drop_first()) =~= Seq::<Seq<char>>::empty());
            assert(printed_texts(acts) =~= Seq::<Seq<char>>::empty());
            assert(exists|i: int| 0 <= i < messages.len() && #[trigger] client_action_spec(messages[i]) is Stop) by {
                assert(client_action_spec(messages[0]) is Stop);
            }
        } else {
            let tail = client_session(rest);
            assert(acts =~= seq![a] + tail);
            assert(acts[0] == a);
            assert(acts.drop_first() =~= tail);
            assert forall|i: int| 0 <= i < acts.len() - 1 implies !(#[trigger] acts[i] is Stop) by {
                if i > 0 {
                    assert(acts[i] == tail[i - 1]);
                }
            }
            if exists|i: int| 0 <= i < messages.len() && #[trigger] client_action_spec(messages[i]) is Stop {
                let i = choose|i: int| 0 <= i < messages.len() && #[trigger] client_action_spec(messages[i]) is Stop;
                assert(i > 0);
                assert(rest[i - 1] == messages[i]);
                assert(tail.len() > 0);
                assert(acts.last() == tail.last());
            }
            if acts.len() > 0 && acts.last() is Stop {
                assert(tail.len() > 0);
                assert(acts.last() == tail.last());
                let j = choose|j: int| 0 <= j < rest.len() && #[trigger] client_action_spec(rest[j]) is Stop;
                assert(messages[j + 1] == rest[j]);
            }
        }
    }
}

/// Why a required setting cannot be used.
pub enum SettingError {
    /// The variable is set but holds only whitespace.
    Empty(String),
    /// The variable is not set.
    Missing(String),
}

/// Accepts the value of the required setting `name`: it must be set and
/// hold more than whitespace; the value is kept as it is.
pub fn required_setting(name: &str, value: Option<String>) -> (setting: Result<String, SettingError>)
    ensures
        value is None ==> (setting matches Err(SettingError::Missing(n)) && n@ == name@),
        value is Some && letters(value->0@).len() == 0 ==> (setting matches Err(
            SettingError::Empty(n),
        ) && n@ == name@),
        value is Some && letters(value->0@).len() > 0 ==> (setting matches Ok(s) && s@
            == value->0@),
{
    match value {
        Some(v) => {
            if is_blank(v.as_str()) {
                Err(SettingError::Empty(name.to_owned()))
            } else {
                Ok(v)
            }
        },
        None => Err(SettingError::Missing(name.to_owned())),
    }
}

} // verus!
