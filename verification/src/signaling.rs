//! The conversation with the signaling service: what it says, and what is said to it.
use vstd::prelude::*;
use vstd::string::*;

use crate::json;
use crate::json::{as_array, as_text, as_u64, get, is_null, number_field, parse, quote, text_field};
use crate::text;
use crate::text::{joined, push_decimal, same_text};

verus! {

/// What a player registers as.
#[derive(Clone, Copy, Debug, PartialEq, Eq, Structural)]
pub enum Role {
    Host,
    Join,
}

/// What comes from the signaling service, or happens to the connection with it.
#[derive(Clone, Debug)]
pub enum SignalingEvent {
    Open,
    Registered { peer_id: u32, existing_peers: Vec<u32>, ice_servers: Vec<IceServerConfig> },
    PeerJoined { peer_id: u32 },
    PeerLeft { peer_id: u32 },
    Offer { from: u32, sdp: String },
    Answer { from: u32, sdp: String },
    Ice { from: u32, candidate: String },
    RoomClosed { reason: String },
    ServerError { message: String },
    SocketError { message: String },
    Closed,
    /// Messages of a player now go through the service.
    RelayActive { peer_id: u32, max_rate: u32 },
    RelayClosed { peer_id: u32, reason: String },
    RelayBinary { sender_peer_id: u32, payload: Vec<u8> },
}

/// A server that helps two players find a way to each other.
#[derive(Clone, Debug)]
pub struct IceServerConfig {
    pub urls: Vec<String>,
    pub username: Option<String>,
    pub credential: Option<String>,
}

/// The entries of a message that any kind of message may have.
#[derive(Clone, Debug)]
pub struct SignalFields {
    pub kind: Option<String>,
    pub peer_id: Option<u64>,
    pub from: Option<u64>,
    pub sdp: Option<String>,
    pub candidate: Option<String>,
    pub reason: Option<String>,
    pub message: Option<String>,
    pub existing_peers: Vec<u32>,
    pub ice_servers: Vec<IceServerConfig>,
}

/// The integers of a list, cut down to 32 bits; anything else in it is passed over.
pub open spec fn peer_list(list: Seq<json::Json>) -> Seq<u32>
    decreases list.len(),
{
    if list.len() == 0 {
        Seq::empty()
    } else {
        let rest = peer_list(list.drop_last());
        match json::number(list.last()) {
            Some(n) => rest.push(n as u32),
            None => rest,
        }
    }
}

/// The player numbers that a message lists as present.
pub open spec fn present_peers(j: json::Json) -> Seq<u32> {
    match json::entry(j, "existing_peers"@) {
        Some(json::Json::Array(list)) => peer_list(list),
        _ => Seq::empty(),
    }
}

/// A server as it is described: addresses, user name, credential.
pub type ServerModel = (Seq<Seq<char>>, Option<Seq<char>>, Option<Seq<char>>);

/// The texts of a list, if it holds nothing else.
pub open spec fn text_list(list: Seq<json::Json>) -> Option<Seq<Seq<char>>>
    decreases list.len(),
{
    if list.len() == 0 {
        Some(Seq::empty())
    } else {
        match (text_list(list.drop_last()), list.last()) {
            (Some(rest), json::Json::Text(s)) => Some(rest.push(s)),
            _ => None,
        }
    }
}

/// The addresses of a server: a list of texts.
pub open spec fn address_list(j: Option<json::Json>) -> Option<Seq<Seq<char>>> {
    match j {
        Some(json::Json::Array(list)) => text_list(list),
        _ => None,
    }
}

/// An optional text: absent, null or a text. The outer `None` stands for anything else.
pub open spec fn optional_text(j: Option<json::Json>) -> Option<Option<Seq<char>>> {
    match j {
        None => Some(None),
        Some(json::Json::Null) => Some(None),
        Some(json::Json::Text(s)) => Some(Some(s)),
        Some(_) => None,
    }
}

/// The element of a list at place `i`, if there is one.
pub open spec fn element(list: Seq<json::Json>, i: int) -> Option<json::Json> {
    if 0 <= i < list.len() {
        Some(list[i])
    } else {
        None
    }
}

pub open spec fn server_of_parts(
    urls: Option<Seq<Seq<char>>>,
    username: Option<Option<Seq<char>>>,
    credential: Option<Option<Seq<char>>>,
) -> Option<ServerModel> {
    match (urls, username, credential) {
        (Some(u), Some(n), Some(c)) => Some((u, n, c)),
        _ => None,
    }
}

/// A server described by an object, or by the list of its entries in order.
pub open spec fn server_of(j: json::Json) -> Option<ServerModel> {
    match j {
        json::Json::Object(_) => server_of_parts(
            address_list(json::entry(j, "urls"@)),
            optional_text(json::entry(j, "username"@)),
            optional_text(json::entry(j, "credential"@)),
        ),
        json::Json::Array(list) => if list.len() <= 3 {
            server_of_parts(
                address_list(element(list, 0)),
                optional_text(element(list, 1)),
                optional_text(element(list, 2)),
            )
        } else {
            None
        },
        _ => None,
    }
}

/// The servers of a list, if all of its elements describe one.
pub open spec fn server_list(list: Seq<json::Json>) -> Option<Seq<ServerModel>>
    decreases list.len(),
{
    if list.len() == 0 {
        Some(Seq::empty())
    } else {
        match (server_list(list.drop_last()), server_of(list.last())) {
            (Some(rest), Some(server)) => Some(rest.push(server)),
            _ => None,
        }
    }
}

/// The servers that a message names; none if their list is not well-formed.
pub open spec fn named_servers(j: json::Json) -> Seq<ServerModel> {
    match json::entry(j, "ice_servers"@) {
        Some(json::Json::Array(list)) => match server_list(list) {
            Some(servers) => servers,
            None => Seq::empty(),
        },
        _ => Seq::empty(),
    }
}

/// The texts of a list of strings.
pub open spec fn view_texts(s: Seq<String>) -> Seq<Seq<char>> {
    Seq::new(s.len(), |i: int| s[i]@)
}

/// What a server configuration describes.
pub open spec fn view_server(s: IceServerConfig) -> ServerModel {
    (view_texts(s.urls@), text::content_of(s.username), text::content_of(s.credential))
}

pub open spec fn view_servers(s: Seq<IceServerConfig>) -> Seq<ServerModel> {
    Seq::new(s.len(), |i: int| view_server(s[i]))
}

/// Whether `f` holds the entries of the message `j`.
pub open spec fn are_fields_of(f: SignalFields, j: json::Json) -> bool {
    &&& text::content_of(f.kind) == json::text_at(j, "kind"@)
    &&& f.peer_id == json::number_at(j, "peer_id"@)
    &&& f.from == json::number_at(j, "from"@)
    &&& text::content_of(f.sdp) == json::text_at(j, "sdp"@)
    &&& text::content_of(f.candidate) == json::text_at(j, "candidate"@)
    &&& text::content_of(f.reason) == json::text_at(j, "reason"@)
    &&& text::content_of(f.message) == json::text_at(j, "message"@)
    &&& f.existing_peers@ == present_peers(j)
    &&& view_servers(f.ice_servers@) == named_servers(j)
}

fn read_peers(value: &serde_json::Value) -> (r: Vec<u32>)
    ensures
        r@ == present_peers(json::tree(*value)),
{
    let mut out: Vec<u32> = Vec::new();
    let entry = match get(value, "existing_peers") {
        Some(v) => v,
        None => return out,
    };
    let list = match as_array(entry) {
        Some(list) => list,
        None => return out,
    };
    let ghost all = json::trees(list@);
    let mut i: usize = 0;
    proof {
        assert(all.take(0) == Seq::<json::Json>::empty());
    }
    while i < list.len()
        invariant
            i <= list@.len(),
            all == json::trees(list@),
            out@ == peer_list(all.take(i as int)),
        decreases list@.len() - i,
    {
        proof {
            assert(all.take(i + 1).drop_last() == all.take(i as int));
            assert(all.take(i + 1).last() == json::tree(list@[i as int]));
        }
        if let Some(n) = as_u64(&list[i]) {
            out.push(
                #[verifier::truncate]
                (n as u32),
            );
        }
        i += 1;
    }
    proof {
        assert(all.take(all.len() as int) == all);
    }
    out
}

fn read_texts(list: &Vec<serde_json::Value>) -> (r: Option<Vec<String>>)
    ensures
        match r {
            Some(v) => text_list(json::trees(list@)) == Some(view_texts(v@)),
            None => text_list(json::trees(list@)) is None,
        },
{
    let mut out: Vec<String> = Vec::new();
    let ghost all = json::trees(list@);
    let mut good = true;
    let mut i: usize = 0;
    proof {
        assert(all.take(0) == Seq::<json::Json>::empty());
        assert(view_texts(out@) =~= Seq::<Seq<char>>::empty());
    }
    while i < list.len()
        invariant
            i <= list@.len(),
            all == json::trees(list@),
            good ==> text_list(all.take(i as int)) == Some(view_texts(out@)),
            !good ==> text_list(all.take(i as int)) is None,
        decreases list@.len() - i,
    {
        proof {
            assert(all.take(i + 1).drop_last() == all.take(i as int));
            assert(all.take(i + 1).last() == json::tree(list@[i as int]));
        }
        match as_text(&list[i]) {
            Some(s) => {
                let ghost before = out@;
                out.push(s.to_owned());
                proof {
                    assert(view_texts(out@) =~= view_texts(before).push(s@));
                }
            },
            None => {
                good = false;
            },
        }
        i += 1;
    }
    proof {
        assert(all.take(all.len() as int) == all);
    }
    if good {
        Some(out)
    } else {
        None
    }
}

fn read_addresses(value: Option<&serde_json::Value>) -> (r: Option<Vec<String>>)
    ensures
        match r {
            Some(v) => address_list(tree_of(value)) == Some(view_texts(v@)),
            None => address_list(tree_of(value)) is None,
        },
{
    match value {
        Some(v) => match as_array(v) {
            Some(list) => read_texts(list),
            None => None,
        },
        None => None,
    }
}

/// What an optional value holds.
pub open spec fn tree_of(value: Option<&serde_json::Value>) -> Option<json::Json> {
    match value {
        Some(v) => Some(json::tree(*v)),
        None => None,
    }
}

fn read_optional_text(value: Option<&serde_json::Value>) -> (r: Option<Option<String>>)
    ensures
        match r {
            Some(s) => optional_text(tree_of(value)) == Some(text::content_of(s)),
            None => optional_text(tree_of(value)) is None,
        },
{
    match value {
        None => Some(None),
        Some(v) => {
            if is_null(v) {
                return Some(None);
            }
            match as_text(v) {
                Some(s) => Some(Some(s.to_owned())),
                None => None,
            }
        },
    }
}

fn nth(list: &Vec<serde_json::Value>, i: usize) -> (r: Option<&serde_json::Value>)
    ensures
        tree_of(r) == element(json::trees(list@), i as int),
{
    if i < list.len() {
        Some(&list[i])
    } else {
        None
    }
}

fn read_server(value: &serde_json::Value) -> (r: Option<IceServerConfig>)
    ensures
        match r {
            Some(s) => server_of(json::tree(*value)) == Some(view_server(s)),
            None => server_of(json::tree(*value)) is None,
        },
{
    let (urls, username, credential) = match as_array(value) {
        Some(list) => {
            if list.len() > 3 {
                return None;
            }
            (
                read_addresses(nth(list, 0)),
                read_optional_text(nth(list, 1)),
                read_optional_text(nth(list, 2)),
            )
        },
        None => (
            read_addresses(get(value, "urls")),
            read_optional_text(get(value, "username")),
            read_optional_text(get(value, "credential")),
        ),
    };
    match (urls, username, credential) {
        (Some(urls), Some(username), Some(credential)) => Some(
            IceServerConfig { urls, username, credential },
        ),
        _ => None,
    }
}

fn read_servers(value: &serde_json::Value) -> (r: Vec<IceServerConfig>)
    ensures
        view_servers(r@) == named_servers(json::tree(*value)),
{
    let mut out: Vec<IceServerConfig> = Vec::new();
    proof {
        assert(view_servers(out@) =~= Seq::<ServerModel>::empty());
    }
    let entry = match get(value, "ice_servers") {
        Some(v) => v,
        None => return out,
    };
    let list = match as_array(entry) {
        Some(list) => list,
        None => return out,
    };
    let ghost all = json::trees(list@);
    let mut good = true;
    let mut i: usize = 0;
    proof {
        assert(all.take(0) == Seq::<json::Json>::empty());
    }
    while i < list.len()
        invariant
            i <= list@.len(),
            all == json::trees(list@),
            good ==> server_list(all.take(i as int)) == Some(view_servers(out@)),
            !good ==> server_list(all.take(i as int)) is None,
        decreases list@.len() - i,
    {
        proof {
            assert(all.take(i + 1).drop_last() == all.take(i as int));
            assert(all.take(i + 1).last() == json::tree(list@[i as int]));
        }
        match read_server(&list[i]) {
            Some(server) => {
                let ghost before = out@;
                out.push(server);
                proof {
                    assert(view_servers(out@) =~= view_servers(before).push(view_server(server)));
                }
            },
            None => {
                good = false;
            },
        }
        i += 1;
    }
    proof {
        assert(all.take(all.len() as int) == all);
    }
    if good {
        out
    } else {
        let none: Vec<IceServerConfig> = Vec::new();
        proof {
            assert(view_servers(none@) =~= Seq::<ServerModel>::empty());
        }
        none
    }
}

/// Takes the entries out of a message.
pub fn read_fields(text: &str) -> (r: Result<SignalFields, String>)
    ensures
        match (r, json::parsed(text@)) {
            (Ok(f), Ok(j)) => are_fields_of(f, j),
            (Err(e), Err(why)) => e@ == "json: "@ + why,
            _ => false,
        },
{
    match parse(text) {
        Ok(value) => {
            let f = SignalFields {
                kind: text_field(&value, "kind"),
                peer_id: number_field(&value, "peer_id"),
                from: number_field(&value, "from"),
                sdp: text_field(&value, "sdp"),
                candidate: text_field(&value, "candidate"),
                reason: text_field(&value, "reason"),
                message: text_field(&value, "message"),
                existing_peers: read_peers(&value),
                ice_servers: read_servers(&value),
            };
            Ok(f)
        },
        Err(why) => Err(joined("json: ", why.as_str())),
    }
}

/// Whether an outcome is a failure with these words.
pub open spec fn fails_with(r: Result<SignalingEvent, String>, words: Seq<char>) -> bool {
    r is Err && r->Err_0@ == words
}

/// A text, or the word for a reason that was not given.
pub open spec fn or_unknown(s: Option<String>) -> Seq<char> {
    match s {
        Some(s) => s@,
        None => "unknown"@,
    }
}

/// What becomes of a message with the entries `f`.
pub open spec fn is_event_of(r: Result<SignalingEvent, String>, f: SignalFields) -> bool {
    match f.kind {
        None => fails_with(r, "missing kind"@),
        Some(kind) => if kind@ == "registered"@ {
            match f.peer_id {
                Some(id) => r == Ok::<SignalingEvent, String>(
                    SignalingEvent::Registered {
                        peer_id: id as u32,
                        existing_peers: f.existing_peers,
                        ice_servers: f.ice_servers,
                    },
                ),
                None => fails_with(r, "registered.peer_id missing"@),
            }
        } else if kind@ == "peer_joined"@ {
            match f.peer_id {
                Some(id) => r == Ok::<SignalingEvent, String>(
                    SignalingEvent::PeerJoined { peer_id: id as u32 },
                ),
                None => fails_with(r, "peer_joined.peer_id missing"@),
            }
        } else if kind@ == "peer_left"@ {
            match f.peer_id {
                Some(id) => r == Ok::<SignalingEvent, String>(
                    SignalingEvent::PeerLeft { peer_id: id as u32 },
                ),
                None => fails_with(r, "peer_left.peer_id missing"@),
            }
        } else if kind@ == "offer"@ {
            match (f.from, f.sdp) {
                (Some(from), Some(sdp)) => r == Ok::<SignalingEvent, String>(
                    SignalingEvent::Offer { from: from as u32, sdp },
                ),
                (None, _) => fails_with(r, "offer.from missing"@),
                (Some(_), None) => fails_with(r, "offer.sdp missing"@),
            }
        } else if kind@ == "answer"@ {
            match (f.from, f.sdp) {
                (Some(from), Some(sdp)) => r == Ok::<SignalingEvent, String>(
                    SignalingEvent::Answer { from: from as u32, sdp },
                ),
                (None, _) => fails_with(r, "answer.from missing"@),
                (Some(_), None) => fails_with(r, "answer.sdp missing"@),
            }
        } else if kind@ == "ice"@ {
            match (f.from, f.candidate) {
                (Some(from), Some(candidate)) => r == Ok::<SignalingEvent, String>(
                    SignalingEvent::Ice { from: from as u32, candidate },
                ),
                (None, _) => fails_with(r, "ice.from missing"@),
                (Some(_), None) => fails_with(r, "ice.candidate missing"@),
            }
        } else if kind@ == "room_closed"@ {
            r matches Ok(SignalingEvent::RoomClosed { reason }) && reason@ == or_unknown(f.reason)
        } else if kind@ == "error"@ {
            r matches Ok(SignalingEvent::ServerError { message }) && message@ == or_unknown(
                f.message,
            )
        } else {
            fails_with(r, "unknown kind: "@ + kind@)
        },
    }
}

fn text_or_unknown(s: Option<String>) -> (r: String)
    ensures
        r@ == or_unknown(s),
{
    match s {
        Some(s) => s,
        None => "unknown".to_owned(),
    }
}

/// The event that a message announces, from its entries.
pub fn event_of_fields(f: SignalFields) -> (r: Result<SignalingEvent, String>)
    ensures
        is_event_of(r, f),
{
    let kind = match f.kind {
        Some(kind) => kind,
        None => return Err("missing kind".to_owned()),
    };
    let k = kind.as_str();
    if same_text(k, "registered") {
        match f.peer_id {
            Some(id) => Ok(
                SignalingEvent::Registered {
                    peer_id: #[verifier::truncate]
                    (id as u32),
                    existing_peers: f.existing_peers,
                    ice_servers: f.ice_servers,
                },
            ),
            None => Err("registered.peer_id missing".to_owned()),
        }
    } else if same_text(k, "peer_joined") {
        match f.peer_id {
            Some(id) => Ok(
                SignalingEvent::PeerJoined {
                    peer_id: #[verifier::truncate]
                    (id as u32),
                },
            ),
            None => Err("peer_joined.peer_id missing".to_owned()),
        }
    } else if same_text(k, "peer_left") {
        match f.peer_id {
            Some(id) => Ok(
                SignalingEvent::PeerLeft {
                    peer_id: #[verifier::truncate]
                    (id as u32),
                },
            ),
            None => Err("peer_left.peer_id missing".to_owned()),
        }
    } else if same_text(k, "offer") {
        match (f.from, f.sdp) {
            (Some(from), Some(sdp)) => Ok(
                SignalingEvent::Offer {
                    from: #[verifier::truncate]
                    (from as u32),
                    sdp,
                },
            ),
            (None, _) => Err("offer.from missing".to_owned()),
            (Some(_), None) => Err("offer.sdp missing".to_owned()),
        }
    } else if same_text(k, "answer") {
        match (f.from, f.sdp) {
            (Some(from), Some(sdp)) => Ok(
                SignalingEvent::Answer {
                    from: #[verifier::truncate]
                    (from as u32),
                    sdp,
                },
            ),
            (None, _) => Err("answer.from missing".to_owned()),
            (Some(_), None) => Err("answer.sdp missing".to_owned()),
        }
    } else if same_text(k, "ice") {
        match (f.from, f.candidate) {
            (Some(from), Some(candidate)) => Ok(
                SignalingEvent::Ice {
                    from: #[verifier::truncate]
                    (from as u32),
                    candidate,
                },
            ),
            (None, _) => Err("ice.from missing".to_owned()),
            (Some(_), None) => Err("ice.candidate missing".to_owned()),
        }
    } else if same_text(k, "room_closed") {
        Ok(SignalingEvent::RoomClosed { reason: text_or_unknown(f.reason) })
    } else if same_text(k, "error") {
        Ok(SignalingEvent::ServerError { message: text_or_unknown(f.message) })
    } else {
        Err(joined("unknown kind: ", k))
    }
}

/// What a message of the signaling service announces.
pub fn parse_event(text: &str) -> (r: Result<SignalingEvent, String>)
    ensures
        match json::parsed(text@) {
            Ok(j) => exists|f: SignalFields| #[trigger] are_fields_of(f, j) && is_event_of(r, f),
            Err(why) => fails_with(r, "json: "@ + why),
        },
{
    match read_fields(text) {
        Ok(f) => event_of_fields(f),
        Err(e) => Err(e),
    }
}

/// The word under which a player registers.
pub open spec fn role_text(role: Role) -> Seq<char> {
    match role {
        Role::Host => "host"@,
        Role::Join => "join"@,
    }
}

impl Role {
    pub fn as_str(self) -> (r: &'static str)
        ensures
            r@ == role_text(self),
    {
        match self {
            Role::Host => "host",
            Role::Join => "join",
        }
    }
}

/// The first message of a player.
pub fn register_text(role: Role, display_name: &str) -> (r: String)
    ensures
        r@ == "{\"display_name\":"@ + json::literal(display_name@)
            + ",\"kind\":\"register\",\"role\":\""@ + role_text(role) + "\"}"@,
{
    let mut out = "{\"display_name\":".to_owned();
    out.append(quote(display_name).as_str());
    out.append(",\"kind\":\"register\",\"role\":\"");
    out.append(role.as_str());
    out.append("\"}");
    out
}

/// A message that hands a text to another player: an offer, an answer or a candidate.
fn handed_text(head: &str, content: &str, to: u32) -> (r: String)
    ensures
        r@ == head@ + json::literal(content@) + ",\"to\":"@ + text::decimal(to as nat) + "}"@,
{
    let mut out = joined(head, quote(content).as_str());
    out.append(",\"to\":");
    push_decimal(&mut out, to as u64);
    out.append("}");
    out
}

pub fn offer_text(to: u32, sdp: &str) -> (r: String)
    ensures
        r@ == "{\"kind\":\"offer\",\"sdp\":"@ + json::literal(sdp@) + ",\"to\":"@ + text::decimal(
            to as nat,
        ) + "}"@,
{
    handed_text("{\"kind\":\"offer\",\"sdp\":", sdp, to)
}

pub fn answer_text(to: u32, sdp: &str) -> (r: String)
    ensures
        r@ == "{\"kind\":\"answer\",\"sdp\":"@ + json::literal(sdp@) + ",\"to\":"@ + text::decimal(
            to as nat,
        ) + "}"@,
{
    handed_text("{\"kind\":\"answer\",\"sdp\":", sdp, to)
}

pub fn ice_text(to: u32, candidate: &str) -> (r: String)
    ensures
        r@ == "{\"candidate\":"@ + json::literal(candidate@) + ",\"kind\":\"ice\",\"to\":"@
            + text::decimal(to as nat) + "}"@,
{
    let mut out = joined("{\"candidate\":", quote(candidate).as_str());
    out.append(",\"kind\":\"ice\",\"to\":");
    push_decimal(&mut out, to as u64);
    out.append("}");
    out
}

/// The last message of a player.
pub fn leave_text() -> (r: String)
    ensures
        r@ == "{\"kind\":\"leave\"}"@,
{
    "{\"kind\":\"leave\"}".to_owned()
}

/// The address of a room at the signaling service: slashes at the end of the base are dropped.
pub open spec fn without_slashes(url: Seq<char>) -> Seq<char>
    decreases url.len(),
{
    if url.len() > 0 && url.last() == '/' {
        without_slashes(url.drop_last())
    } else {
        url
    }
}

pub fn room_url(base: &str, room: &str) -> (r: String)
    ensures
        r@ == without_slashes(base@) + "/room/"@ + room@,
{
    let chars = crate::text::chars_of(base);
    let mut n: usize = chars.len();
    proof {
        assert(base@.take(base@.len() as int) == base@);
    }
    while n > 0 && chars[n - 1] == '/'
        invariant
            n <= chars@.len(),
            chars@ == base@,
            without_slashes(base@) == without_slashes(base@.take(n as int)),
        ensures
            n > 0 ==> chars@[n - 1] != '/',
        decreases n,
    {
        proof {
            assert(base@.take(n as int).last() == '/');
            assert(base@.take(n as int).drop_last() == base@.take(n - 1));
        }
        n -= 1;
    }
    proof {
        if n > 0 {
            assert(base@.take(n as int).last() == chars@[n - 1]);
        }
        assert(chars@.subrange(0, n as int) =~= base@.take(n as int));
    }
    let mut out = crate::text::text_between(&chars, 0, n);
    out.append("/room/");
    out.append(room);
    out
}

/// Where the signaling service is found: the address of the page comes first, then the one that
/// the page names. An empty address is none.
pub open spec fn service_address(query: Option<Seq<char>>, named: Option<Seq<char>>) -> Option<
    Seq<char>,
> {
    match query {
        Some(q) => if q.len() > 0 {
            Some(q)
        } else {
            non_empty(named)
        },
        None => non_empty(named),
    }
}

/// A text, unless it is empty.
pub open spec fn non_empty(s: Option<Seq<char>>) -> Option<Seq<char>> {
    match s {
        Some(t) => if t.len() > 0 {
            Some(t)
        } else {
            None
        },
        None => None,
    }
}

/// Where the signaling service is found.
pub fn signaling_address(query: Option<String>, named: Option<String>) -> (r: Option<String>)
    ensures
        text::content_of(r) == service_address(
            text::content_of(query),
            text::content_of(named),
        ),
{
    if let Some(q) = query {
        if q.as_str().unicode_len() > 0 {
            return Some(q);
        }
    }
    match named {
        Some(n) => if n.as_str().unicode_len() > 0 {
            Some(n)
        } else {
            None
        },
        None => None,
    }
}

/// The players of a list are its numbers in their order, and what is no number is passed over.
pub proof fn law_numbers_of_a_list_are_players(list: Seq<json::Json>, n: u32, s: Seq<char>)
    ensures
        peer_list(list.push(json::Json::Number(Some(n as u64)))) == peer_list(list).push(n),
        peer_list(list.push(json::Json::Text(s))) == peer_list(list),
        peer_list(list.push(json::Json::Null)) == peer_list(list),
        peer_list(list).len() <= list.len(),
        peer_list(Seq::empty()).len() == 0,
    decreases list.len(),
{
    assert(list.push(json::Json::Number(Some(n as u64))).drop_last() =~= list);
    assert(list.push(json::Json::Text(s)).drop_last() =~= list);
    assert(list.push(json::Json::Null).drop_last() =~= list);
    if list.len() > 0 {
        law_numbers_of_a_list_are_players(list.drop_last(), n, s);
    }
}

/// A list of texts is read as a whole or not at all.
pub proof fn law_texts_are_read_together(list: Seq<json::Json>, s: Seq<char>, n: Option<u64>)
    ensures
        text_list(list) matches Some(texts) ==> texts.len() == list.len() && text_list(
            list.push(json::Json::Text(s)),
        ) == Some(texts.push(s)),
        text_list(list) is None ==> text_list(list.push(json::Json::Text(s))) is None,
        text_list(list.push(json::Json::Number(n))) is None,
        text_list(list.push(json::Json::Null)) is None,
        text_list(Seq::empty()) == Some(Seq::<Seq<char>>::empty()),
    decreases list.len(),
{
    assert(list.push(json::Json::Text(s)).drop_last() =~= list);
    assert(list.push(json::Json::Number(n)).drop_last() =~= list);
    assert(list.push(json::Json::Null).drop_last() =~= list);
    if list.len() > 0 {
        law_texts_are_read_together(list.drop_last(), s, n);
    }
}

/// Servers are read in their order, all of them or none.
pub proof fn law_servers_are_read_together(list: Seq<json::Json>, j: json::Json)
    ensures
        server_list(list) is Some && server_of(j) is Some ==> server_list(list.push(j)) == Some(
            server_list(list)->0.push(server_of(j)->0),
        ),
        server_list(list) is None || server_of(j) is None ==> server_list(list.push(j)) is None,
        server_list(list) matches Some(servers) ==> servers.len() == list.len(),
        server_list(Seq::empty()) == Some(Seq::<ServerModel>::empty()),
    decreases list.len(),
{
    assert(list.push(j).drop_last() =~= list);
    if list.len() > 0 {
        law_servers_are_read_together(list.drop_last(), j);
    }
}

/// A server is read the same whether its parts stand under their names or in their order, and a
/// server without addresses is none.
pub proof fn law_servers_are_read_in_both_forms(
    m: Map<Seq<char>, json::Json>,
    urls: Seq<json::Json>,
    name: Seq<char>,
    word: Seq<char>,
)
    requires
        text_list(urls) is Some,
    ensures
        ({
            let u = json::Json::Array(urls);
            let n = json::Json::Text(name);
            let w = json::Json::Text(word);
            let named = json::Json::Object(
                m.insert("urls"@, u).insert("username"@, n).insert("credential"@, w),
            );
            &&& server_of(named) == Some((text_list(urls)->0, Some(name), Some(word)))
            &&& server_of(json::Json::Array(seq![u, n, w])) == server_of(named)
            &&& server_of(json::Json::Array(seq![u])) == Some(
                (text_list(urls)->0, None::<Seq<char>>, None::<Seq<char>>),
            )
            &&& server_of(json::Json::Array(seq![u, n, w, w])) is None
            &&& server_of(json::Json::Array(Seq::empty())) is None
            &&& server_of(json::Json::Object(m.remove("urls"@))) is None
            &&& server_of(json::Json::Null) is None
        }),
{
    reveal_strlit("urls");
    reveal_strlit("username");
    reveal_strlit("credential");
    assert("urls"@.len() == 4 && "username"@.len() == 8 && "credential"@.len() == 10);
}

/// What is missing and what is null stand for no text, and a text for itself.
pub proof fn law_missing_texts_are_none(s: Seq<char>, n: Option<u64>)
    ensures
        optional_text(None) == optional_text(Some(json::Json::Null)),
        optional_text(None) == Some(None::<Seq<char>>),
        optional_text(Some(json::Json::Text(s))) == Some(Some(s)),
        optional_text(Some(json::Json::Number(n))) is None,
        address_list(None) is None,
        address_list(Some(json::Json::Text(s))) is None,
{
}

/// Words that come from one player are told as theirs, with what they sent. Nothing is told of a
/// message that lacks its sender or its contents.
pub proof fn law_messages_name_their_sender(
    r: Result<SignalingEvent, String>,
    f: SignalFields,
    kind: String,
    from: u32,
)
    requires
        is_event_of(r, f),
        f.kind == Some(kind),
    ensures
        kind@ == "offer"@ || kind@ == "answer"@ || kind@ == "ice"@ ==> (r is Ok ==> f.from is Some),
        f.from == Some(from as u64) ==> {
            &&& kind@ == "offer"@ && f.sdp is Some ==> r == Ok::<SignalingEvent, String>(
                SignalingEvent::Offer { from, sdp: f.sdp->0 },
            )
            &&& kind@ == "answer"@ && f.sdp is Some ==> r == Ok::<SignalingEvent, String>(
                SignalingEvent::Answer { from, sdp: f.sdp->0 },
            )
            &&& kind@ == "ice"@ && f.candidate is Some ==> r == Ok::<SignalingEvent, String>(
                SignalingEvent::Ice { from, candidate: f.candidate->0 },
            )
        },
        (kind@ == "offer"@ || kind@ == "answer"@) && f.sdp is None ==> r is Err,
        kind@ == "ice"@ && f.candidate is None ==> r is Err,
{
    lemma_kinds_differ();
}

/// Players who come and go are told by their number, and the room by what closed it.
pub proof fn law_the_room_is_told_of(
    r: Result<SignalingEvent, String>,
    f: SignalFields,
    kind: String,
    id: u32,
)
    requires
        is_event_of(r, f),
        f.kind == Some(kind),
    ensures
        f.peer_id == Some(id as u64) ==> {
            &&& kind@ == "peer_joined"@ ==> r == Ok::<SignalingEvent, String>(
                SignalingEvent::PeerJoined { peer_id: id },
            )
            &&& kind@ == "peer_left"@ ==> r == Ok::<SignalingEvent, String>(
                SignalingEvent::PeerLeft { peer_id: id },
            )
            &&& kind@ == "registered"@ ==> (r matches Ok(
                SignalingEvent::Registered { peer_id, existing_peers, ice_servers },
            ) && peer_id == id && existing_peers == f.existing_peers && ice_servers
                == f.ice_servers)
        },
        f.peer_id is None && (kind@ == "peer_joined"@ || kind@ == "peer_left"@ || kind@
            == "registered"@) ==> r is Err,
        kind@ == "room_closed"@ ==> (r matches Ok(SignalingEvent::RoomClosed { reason }) && (
        f.reason matches Some(why) ==> reason@ == why@)),
        kind@ == "error"@ ==> (r matches Ok(SignalingEvent::ServerError { message }) && (
        f.message matches Some(what) ==> message@ == what@)),
{
    lemma_kinds_differ();
}

/// A message of no known kind is refused, and so is one that names none.
pub proof fn law_unknown_messages_are_refused(r: Result<SignalingEvent, String>, f: SignalFields)
    requires
        is_event_of(r, f),
    ensures
        f.kind is None ==> r is Err,
        r is Ok ==> {
            let kind = f.kind->0@;
            ||| kind == "registered"@
            ||| kind == "peer_joined"@
            ||| kind == "peer_left"@
            ||| kind == "offer"@
            ||| kind == "answer"@
            ||| kind == "ice"@
            ||| kind == "room_closed"@
            ||| kind == "error"@
        },
        r matches Ok(ev) ==> !(ev is Open) && !(ev is Closed) && !(ev is SocketError)
            && !(ev is RelayActive) && !(ev is RelayClosed) && !(ev is RelayBinary),
{
}

/// The words for the kinds of message are all different.
proof fn lemma_kinds_differ()
    ensures
        "registered"@.len() == 10,
        "peer_joined"@.len() == 11 && "peer_joined"@[0] == 'p',
        "peer_left"@.len() == 9,
        "offer"@.len() == 5 && "offer"@[0] == 'o',
        "answer"@.len() == 6,
        "ice"@.len() == 3,
        "room_closed"@.len() == 11 && "room_closed"@[0] == 'r',
        "error"@.len() == 5 && "error"@[0] == 'e',
{
    reveal_strlit("registered");
    reveal_strlit("peer_joined");
    reveal_strlit("peer_left");
    reveal_strlit("offer");
    reveal_strlit("answer");
    reveal_strlit("ice");
    reveal_strlit("room_closed");
    reveal_strlit("error");
}

/// An address loses the slashes at its end and nothing else.
pub proof fn law_only_the_last_slashes_go(url: Seq<char>)
    ensures
        ({
            let short = without_slashes(url);
            &&& short.is_prefix_of(url)
            &&& short.len() > 0 ==> short.last() != '/'
            &&& forall|i: int| short.len() <= i < url.len() ==> #[trigger] url[i] == '/'
            &&& without_slashes(short) == short
            &&& without_slashes(url.push('/')) == short
        }),
    decreases url.len(),
{
    assert(url.push('/').drop_last() =~= url);
    assert(without_slashes(url.push('/')) == without_slashes(url));
    if url.len() > 0 && url.last() == '/' {
        let front = url.drop_last();
        law_only_the_last_slashes_go(front);
        let short = without_slashes(url);
        assert forall|i: int| 0 <= i < short.len() implies short[i] == url[i] by {
            assert(short[i] == front[i]);
        }
        assert forall|i: int| short.len() <= i < url.len() implies #[trigger] url[i] == '/' by {
            if i < front.len() {
                assert(front[i] == '/');
            }
        }
    }
}

/// What the address of the page names goes before what was built in, and an empty address is none.
pub proof fn law_the_page_names_the_service(query: Seq<char>, named: Option<Seq<char>>)
    ensures
        query.len() > 0 ==> service_address(Some(query), named) == Some(query),
        query.len() == 0 ==> service_address(Some(query), named) == service_address(None, named),
        named matches Some(n) && n.len() > 0 ==> service_address(None, named) == named,
        service_address(None, None) is None,
        service_address(Some(query), named) matches Some(a) ==> a.len() > 0,
        service_address(None, named) matches Some(a) ==> a.len() > 0,
{
}

/// Hosting and joining are told apart.
pub proof fn law_roles_have_their_own_words(a: Role, b: Role)
    ensures
        role_text(a) == role_text(b) <==> a == b,
        role_text(Role::Host)[0] == 'h' && role_text(Role::Join)[0] == 'j',
        role_text(a).len() == 4,
{
    reveal_strlit("host");
    reveal_strlit("join");
    assert("host"@[0] == 'h' && "join"@[0] == 'j');
}

/// The fields of a message are found under their names, each of them under its own.
pub proof fn law_fields_stand_under_their_names(
    f: SignalFields,
    m: Map<Seq<char>, json::Json>,
    s: Seq<char>,
    n: u64,
)
    requires
        are_fields_of(f, json::Json::Object(m)),
    ensures
        m.contains_key("kind"@) && m["kind"@] == json::Json::Text(s) ==> f.kind is Some
            && f.kind->0@ == s,
        m.contains_key("sdp"@) && m["sdp"@] == json::Json::Text(s) ==> f.sdp is Some && f.sdp->0@
            == s,
        m.contains_key("candidate"@) && m["candidate"@] == json::Json::Text(s) ==> f.candidate is Some
            && f.candidate->0@ == s,
        m.contains_key("reason"@) && m["reason"@] == json::Json::Text(s) ==> f.reason is Some
            && f.reason->0@ == s,
        m.contains_key("message"@) && m["message"@] == json::Json::Text(s) ==> f.message is Some
            && f.message->0@ == s,
        m.contains_key("peer_id"@) && m["peer_id"@] == json::Json::Number(Some(n)) ==> f.peer_id
            == Some(n),
        m.contains_key("from"@) && m["from"@] == json::Json::Number(Some(n)) ==> f.from == Some(n),
        !m.contains_key("kind"@) ==> f.kind is None,
        !m.contains_key("sdp"@) ==> f.sdp is None,
        !m.contains_key("candidate"@) ==> f.candidate is None,
        !m.contains_key("from"@) ==> f.from is None,
        !m.contains_key("peer_id"@) ==> f.peer_id is None,
        !m.contains_key("existing_peers"@) ==> f.existing_peers@.len() == 0,
        !m.contains_key("ice_servers"@) ==> f.ice_servers@.len() == 0,
{
    assert(f.ice_servers@.len() == view_servers(f.ice_servers@).len());
}

/// The players and the servers that a message lists are those of its lists.
pub proof fn law_lists_stand_under_their_names(
    f: SignalFields,
    m: Map<Seq<char>, json::Json>,
    list: Seq<json::Json>,
)
    requires
        are_fields_of(f, json::Json::Object(m)),
    ensures
        m.contains_key("existing_peers"@) && m["existing_peers"@] == json::Json::Array(list)
            ==> f.existing_peers@ == peer_list(list),
        m.contains_key("ice_servers"@) && m["ice_servers"@] == json::Json::Array(list)
            && server_list(list) is Some ==> view_servers(f.ice_servers@) == server_list(list)->0
            && f.ice_servers@.len() == list.len(),
        m.contains_key("ice_servers"@) && m["ice_servers"@] == json::Json::Array(list)
            && server_list(list) is None ==> f.ice_servers@.len() == 0,
{
    law_servers_are_read_together(list, json::Json::Null);
    assert(f.ice_servers@.len() == view_servers(f.ice_servers@).len());
}

/// A reason that is not given is not known, and one that is given is told as it is.
pub proof fn law_reasons_are_told_as_given(s: Option<String>)
    ensures
        s matches Some(why) ==> or_unknown(s) == why@,
        s is None ==> or_unknown(s) == "unknown"@,
{
}

/// A refusal is told in its own words.
pub proof fn law_refusals_have_one_wording(why: String, words: Seq<char>, ev: SignalingEvent)
    ensures
        fails_with(Err(why), words) <==> why@ == words,
        !fails_with(Ok(ev), words),
{
}

} // verus!
