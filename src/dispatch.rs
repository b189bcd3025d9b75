//! What to do with a request that no route serves, and with the reply that
//! the upstream gave; where captured WebSocket messages are stored.
use vstd::prelude::*;

use crate::config::BuildMode;
use crate::storage::{fixture_path, json_suffix, save_path_with_extension};

verus! {

/// The step after a request that no route serves.
#[derive(Clone, Copy, Debug, PartialEq, Eq, Structural)]
pub enum MissAction {
    /// Answer 404: recording is off, or no upstream is configured.
    NotFound,
    /// Ask the upstream.
    Fetch,
}

/// The step after the upstream was asked.
#[derive(Clone, Copy, Debug, PartialEq, Eq, Structural)]
pub enum ReplyAction {
    /// No reply came: answer 404.
    NotFound,
    /// The reply has no body: pass its status and headers on, store nothing.
    PassThrough,
    /// Forward the reply as it is, store nothing.
    Forward,
    /// Store the reply as a fixture, then forward it as it is.
    RecordAndForward,
}

/// The step after a miss, from the configuration's build mode and upstream.
pub open spec fn miss_action_spec(build_mode: Option<BuildMode>, has_remote: bool) -> MissAction {
    if build_mode is None || !has_remote {
        MissAction::NotFound
    } else {
        MissAction::Fetch
    }
}

/// The step after asking the upstream: `code` is the reply's status, `None`
/// where no reply came.
pub open spec fn reply_action_spec(build_mode: BuildMode, code: Option<u16>, has_body: bool) -> ReplyAction {
    match code {
        None => ReplyAction::NotFound,
        Some(c) => if !has_body {
            ReplyAction::PassThrough
        } else if c != 404 && build_mode == BuildMode::Write {
            ReplyAction::RecordAndForward
        } else {
            ReplyAction::Forward
        },
    }
}

/// The step after a request that no route serves.
pub fn on_miss(build_mode: &Option<BuildMode>, remote: &Option<String>) -> (r: MissAction)
    ensures
        r == miss_action_spec(*build_mode, remote is Some),
{
    match (build_mode, remote) {
        (Some(_), Some(_)) => MissAction::Fetch,
        _ => MissAction::NotFound,
    }
}

/// The step after asking the upstream in `build_mode`.
pub fn on_reply(build_mode: BuildMode, code: Option<u16>, has_body: bool) -> (r: ReplyAction)
    ensures
        r == reply_action_spec(build_mode, code, has_body),
{
    match code {
        None => ReplyAction::NotFound,
        Some(c) => {
            if !has_body {
                ReplyAction::PassThrough
            } else if c != 404 && build_mode == BuildMode::Write {
                ReplyAction::RecordAndForward
            } else {
                ReplyAction::Forward
            }
        },
    }
}

/// The upstream address of a request: the request's URI after the upstream's
/// base URL.
pub fn upstream_url(remote: &str, uri: &str) -> (r: String)
    ensures
        r@ == remote@ + uri@,
{
    let mut url = String::from_str(remote);
    url.append(uri);
    url
}

/// The kind of a captured WebSocket message.
#[derive(Clone, Copy, Debug, PartialEq, Eq, Structural)]
pub enum WsMessageType {
    Startup,
}

/// A captured WebSocket message and the fixture that holds its payload.
#[derive(Clone, Debug)]
pub struct WsMessage {
    pub kind: WsMessageType,
    pub time: Option<u64>,
    pub location: String,
}

/// Whether the bytes are UTF-8 text that parses as JSON.
pub uninterp spec fn json_text(b: Seq<u8>) -> bool;

/// Relies on `std::str::from_utf8` and `serde_json::from_str`: whether the
/// payload is JSON text.
#[verifier::external_body]
fn is_json(b: &[u8]) -> (r: bool)
    ensures
        r == json_text(b@),
{
    match std::str::from_utf8(b) {
        Ok(s) => serde_json::from_str::<serde_json::Value>(s).is_ok(),
        Err(_) => false,
    }
}

/// The decimal digit `d`.
pub open spec fn digit_char(d: nat) -> char {
    if d == 0 { '0' }
    else if d == 1 { '1' }
    else if d == 2 { '2' }
    else if d == 3 { '3' }
    else if d == 4 { '4' }
    else if d == 5 { '5' }
    else if d == 6 { '6' }
    else if d == 7 { '7' }
    else if d == 8 { '8' }
    else { '9' }
}

/// `n` written in decimal.
pub open spec fn decimal(n: nat) -> Seq<char>
    decreases n,
{
    if n < 10 {
        seq![digit_char(n)]
    } else {
        decimal(n / 10).push(digit_char(n % 10))
    }
}

fn digit_text(d: usize) -> (r: &'static str)
    requires
        d < 10,
    ensures
        r@ == seq![digit_char(d as nat)],
{
    proof {
        reveal_strlit("0");
        reveal_strlit("1");
        reveal_strlit("2");
        reveal_strlit("3");
        reveal_strlit("4");
        reveal_strlit("5");
        reveal_strlit("6");
        reveal_strlit("7");
        reveal_strlit("8");
        reveal_strlit("9");
    }
    if d == 0 {
        assert("0"@ =~= seq!['0']);
        "0"
    } else if d == 1 {
        assert("1"@ =~= seq!['1']);
        "1"
    } else if d == 2 {
        assert("2"@ =~= seq!['2']);
        "2"
    } else if d == 3 {
        assert("3"@ =~= seq!['3']);
        "3"
    } else if d == 4 {
        assert("4"@ =~= seq!['4']);
        "4"
    } else if d == 5 {
        assert("5"@ =~= seq!['5']);
        "5"
    } else if d == 6 {
        assert("6"@ =~= seq!['6']);
        "6"
    } else if d == 7 {
        assert("7"@ =~= seq!['7']);
        "7"
    } else if d == 8 {
        assert("8"@ =~= seq!['8']);
        "8"
    } else {
        assert("9"@ =~= seq!['9']);
        "9"
    }
}

/// `n` written in decimal.
pub fn decimal_text(n: usize) -> (r: String)
    ensures
        r@ == decimal(n as nat),
    decreases n,
{
    if n < 10 {
        String::from_str(digit_text(n))
    } else {
        let mut s = decimal_text(n / 10);
        s.append(digit_text(n % 10));
        s
    }
}

/// The URI under which message `index` of a session at `base` is stored,
/// with `.json` where its payload is JSON.
pub open spec fn ws_message_uri(base: Seq<char>, index: nat, json: bool) -> Seq<char> {
    let stem = base + seq!['_', 'w', 's', '/'] + decimal(index);
    if json {
        stem + json_suffix()
    } else {
        stem
    }
}

/// Where message `index` of a session at `base` is stored, given whether its
/// payload is JSON.
pub fn ws_message_location(base: &str, index: usize, json: bool) -> (r: String)
    ensures
        r@ == fixture_path(ws_message_uri(base@, index as nat, json), None),
{
    proof {
        reveal_strlit("_ws/");
        reveal_strlit(".json");
        assert("_ws/"@ =~= seq!['_', 'w', 's', '/']);
        assert(".json"@ =~= json_suffix());
    }
    let mut uri = String::from_str(base);
    uri.append("_ws/");
    let number = decimal_text(index);
    uri.append(number.as_str());
    if json {
        uri.append(".json");
    }
    save_path_with_extension(uri.as_str(), None)
}

/// The records of the messages of a session at `base`, one per payload in
/// order, each stored where `ws_message_location` puts it.
pub fn ws_messages(base: &str, payloads: &Vec<Vec<u8>>) -> (r: Vec<WsMessage>)
    ensures
        r@.len() == payloads@.len(),
        forall|i: int|
            0 <= i < r@.len() ==> r@[i].kind == WsMessageType::Startup && r@[i].time is None
                && r@[i].location@ == fixture_path(
                ws_message_uri(base@, i as nat, json_text(payloads@[i]@)),
                None,
            ),
{
    let mut out: Vec<WsMessage> = Vec::new();
    let mut i: usize = 0;
    while i < payloads.len()
        invariant
            i <= payloads@.len(),
            out@.len() == i,
            forall|j: int|
                0 <= j < i ==> out@[j].kind == WsMessageType::Startup && out@[j].time is None
                    && out@[j].location@ == fixture_path(
                    ws_message_uri(base@, j as nat, json_text(payloads@[j]@)),
                    None,
                ),
        decreases payloads@.len() - i,
    {
        let json = is_json(payloads[i].as_slice());
        let location = ws_message_location(base, i, json);
        out.push(WsMessage { kind: WsMessageType::Startup, time: None, location });
        i = i + 1;
    }
    out
}

} // verus!
