//! Deciding what an incoming HTTP request gets: the health check, the refusal
//! of a request that is not a websocket handshake, or the upgrade, with what
//! the upgraded connection is for.
use vstd::prelude::*;
use vstd::string::*;
use crate::message::CloseFrame;
use crate::rooms::{PeerAddr, RoomMap, RoomView};
use crate::session::GameSession;
use crate::wire::{parse_u8, parse_unsigned, parse_usize};

verus! {

// ------------------------------------------------------------------
// Outside calls
// ------------------------------------------------------------------

/// Whether the request target written `uri` compares equal to `text` as an
/// `http` URI (`Uri == str`): for a target without scheme and authority, that
/// its path and query are exactly `text`.
pub uninterp spec fn uri_equals(uri: Seq<char>, text: Seq<char>) -> bool;

/// The `Sec-WebSocket-Accept` value for the key `key`: base64 of the SHA-1 of
/// the key followed by the websocket GUID (RFC 6455).
pub uninterp spec fn websocket_accept(key: Seq<u8>) -> Seq<char>;

/// Whether `url::Url::parse` accepts `text`.
pub uninterp spec fn url_parses(text: Seq<char>) -> bool;

/// The name-value pairs, decoded and in order, of the query of the URL parsed
/// from `text` (`url::Url::query_pairs`).
pub uninterp spec fn url_query_pairs(text: Seq<char>) -> Seq<(Seq<char>, Seq<char>)>;

/// Calls `hyper::Uri`'s parser on `uri` and `Uri`'s comparison with `text`.
/// The contract claims only that the answer is a function of the two texts:
/// what the comparison does is left to the `http` crate.
#[verifier::external_body]
fn uri_is(uri: &str, text: &str) -> (b: bool)
    ensures
        b == uri_equals(uri@, text@),
{
    match uri.parse::<hyper::Uri>() {
        Ok(u) => u == *text,
        Err(_) => false,
    }
}

/// Calls `tungstenite::handshake::derive_accept_key` on `key`. The contract
/// claims that the result is a function of the key, and that it is 28
/// characters long (the base64 writing of a 20-byte digest).
#[verifier::external_body]
fn accept_key(key: &Vec<u8>) -> (r: String)
    ensures
        r@ == websocket_accept(key@),
        r@.len() == 28,
{
    tokio_tungstenite::tungstenite::handshake::derive_accept_key(key.as_slice())
}

/// Calls `url::Url::parse` on `text` and, when it succeeds, collects
/// `Url::query_pairs` as owned strings. The contract claims that success and
/// the pairs are functions of the text; the URL grammar and the decoding of
/// the pairs are left to the `url` crate.
#[verifier::external_body]
fn query_pairs_of(text: &str) -> (r: Option<Vec<(String, String)>>)
    ensures
        r is Some == url_parses(text@),
        r matches Some(v) ==> pairs_view(v@) == url_query_pairs(text@),
{
    match url::Url::parse(text) {
        Ok(u) => Some(u.query_pairs().map(|(k, v)| (k.into_owned(), v.into_owned())).collect()),
        Err(_) => None,
    }
}

// ------------------------------------------------------------------
// The request
// ------------------------------------------------------------------

/// HTTP versions, in their order.
#[derive(Clone, Copy, Debug, PartialEq, Eq, Structural)]
pub enum HttpVersion {
    Http09,
    Http10,
    Http11,
    Http2,
    Http3,
}

/// What the decision reads of a request: its target (path and query, as
/// sent), its method, its version, and the raw bytes of the first value of
/// each header it looks at.
pub struct RequestHead {
    pub uri: String,
    pub method: String,
    pub version: HttpVersion,
    pub connection: Option<Vec<u8>>,
    pub upgrade: Option<Vec<u8>>,
    pub websocket_version: Option<Vec<u8>>,
    pub websocket_key: Option<Vec<u8>>,
}

/// The values of the string pairs `v`, in order.
pub open spec fn pairs_view(v: Seq<(String, String)>) -> Seq<(Seq<char>, Seq<char>)> {
    v.map_values(|p: (String, String)| (p.0@, p.1@))
}

/// Whether a header value reads as text: every byte is a tab or visible ASCII.
pub open spec fn is_header_text(h: Seq<u8>) -> bool {
    forall|i: int| 0 <= i < h.len() ==> (#[trigger] h[i] == 9 || (32 <= h[i] && h[i] < 127))
}

/// `b` with an ASCII capital letter made small.
pub open spec fn ascii_lower(b: u8) -> u8 {
    if 65 <= b <= 90 {
        (b + 32) as u8
    } else {
        b
    }
}

/// Whether `a` and `b` are equal up to the case of ASCII letters.
pub open spec fn eq_ignore_ascii_case(a: Seq<u8>, b: Seq<u8>) -> bool {
    a.len() == b.len() && forall|i: int| 0 <= i < a.len() ==> #[trigger] ascii_lower(a[i])
        == ascii_lower(b[i])
}

/// Whether `b` separates the parts of a `Connection` header: a space or a comma.
pub open spec fn is_separator(b: u8) -> bool {
    b == 32 || b == 44
}

/// Whether `h[i..j]` is one of the parts `h` splits into at its separators.
pub open spec fn is_part(h: Seq<u8>, i: int, j: int) -> bool {
    &&& 0 <= i <= j <= h.len()
    &&& i == 0 || is_separator(h[i - 1])
    &&& j == h.len() || is_separator(h[j])
    &&& forall|k: int| i <= k < j ==> !is_separator(#[trigger] h[k])
}

/// Whether one of the parts of `h` equals `token` up to ASCII case.
pub open spec fn has_token(h: Seq<u8>, token: Seq<u8>) -> bool {
    exists|i: int, j: int| is_part(h, i, j) && eq_ignore_ascii_case(#[trigger] h.subrange(i, j), token)
}

/// The bytes of `Upgrade`.
pub open spec fn upgrade_token() -> Seq<u8> {
    seq![85u8, 112, 103, 114, 97, 100, 101]
}

/// The bytes of `websocket`.
pub open spec fn websocket_token() -> Seq<u8> {
    seq![119u8, 101, 98, 115, 111, 99, 107, 101, 116]
}

/// The bytes of `13`.
pub open spec fn version_13() -> Seq<u8> {
    seq![49u8, 51]
}

/// Whether `head` is a websocket handshake this server takes: a GET of
/// HTTP/1.1 or later whose `Connection` header has the part `upgrade`, whose
/// `Upgrade` header is `websocket` (both without regard to case), whose
/// `Sec-WebSocket-Version` is `13`, and which has a `Sec-WebSocket-Key`.
pub open spec fn handshake_valid(head: RequestHead) -> bool {
    &&& head.method@ == "GET"@
    &&& !(head.version == HttpVersion::Http09 || head.version == HttpVersion::Http10)
    &&& head.connection matches Some(c) && is_header_text(c@) && has_token(c@, upgrade_token())
    &&& head.upgrade matches Some(u) && is_header_text(u@) && eq_ignore_ascii_case(
        u@,
        websocket_token(),
    )
    &&& head.websocket_version matches Some(v) && v@ == version_13()
    &&& head.websocket_key is Some
}

fn header_text(h: &Vec<u8>) -> (b: bool)
    ensures
        b == is_header_text(h@),
{
    let mut i: usize = 0;
    while i < h.len()
        invariant
            i <= h@.len(),
            forall|k: int| 0 <= k < i ==> (#[trigger] h@[k] == 9 || (32 <= h@[k] && h@[k] < 127)),
        decreases h@.len() - i,
    {
        let b = h[i];
        if !(b == 9 || (32 <= b && b < 127)) {
            return false;
        }
        i = i + 1;
    }
    true
}

fn lower(b: u8) -> (r: u8)
    ensures
        r == ascii_lower(b),
{
    if 65 <= b && b <= 90 {
        b + 32
    } else {
        b
    }
}

/// Whether `h[from..to]` equals `token` up to ASCII case.
fn part_matches(h: &Vec<u8>, from: usize, to: usize, token: &Vec<u8>) -> (b: bool)
    requires
        from <= to <= h.len(),
    ensures
        b == eq_ignore_ascii_case(h@.subrange(from as int, to as int), token@),
{
    if to - from != token.len() {
        return false;
    }
    let ghost part = h@.subrange(from as int, to as int);
    let mut i: usize = 0;
    while i < token.len()
        invariant
            i <= token@.len(),
            to - from == token@.len(),
            from <= to <= h@.len(),
            part == h@.subrange(from as int, to as int),
            forall|k: int| 0 <= k < i ==> #[trigger] ascii_lower(part[k]) == ascii_lower(token@[k]),
        decreases token@.len() - i,
    {
        if lower(h[from + i]) != lower(token[i]) {
            assert(part[i as int] == h@[from + i]);
            return false;
        }
        assert(part[i as int] == h@[from + i]);
        i = i + 1;
    }
    true
}

fn separator(b: u8) -> (r: bool)
    ensures
        r == is_separator(b),
{
    b == 32 || b == 44
}

/// Whether one of the parts of `h` equals `token` up to ASCII case.
pub fn header_has_token(h: &Vec<u8>, token: &Vec<u8>) -> (b: bool)
    ensures
        b == has_token(h@, token@),
{
    let n = h.len();
    let mut start: usize = 0;
    let mut k: usize = 0;
    while k < n
        invariant
            start <= k <= n,
            n == h@.len(),
            start == 0 || is_separator(h@[start - 1]),
            forall|m: int| start <= m < k ==> !is_separator(#[trigger] h@[m]),
            forall|i: int, j: int|
                is_part(h@, i, j) && j < k ==> !eq_ignore_ascii_case(
                    #[trigger] h@.subrange(i, j),
                    token@,
                ),
        decreases n - k,
    {
        if separator(h[k]) {
            let found = part_matches(h, start, k, token);
            proof {
                assert forall|i: int, j: int| is_part(h@, i, j) && j == k implies i == start by {
                    if i < start {
                        assert(!is_separator(h@[start - 1]));
                    }
                    if i > start {
                        assert(is_separator(h@[i - 1]));
                    }
                }
            }
            if found {
                assert(is_part(h@, start as int, k as int));
                return true;
            }
            start = k + 1;
        }
        k = k + 1;
    }
    let found = part_matches(h, start, n, token);
    proof {
        assert forall|i: int, j: int| is_part(h@, i, j) && j == n implies i == start by {
            if i < start {
                assert(!is_separator(h@[start - 1]));
            }
            if i > start {
                assert(is_separator(h@[i - 1]));
            }
        }
        if found {
            assert(is_part(h@, start as int, n as int));
        } else {
            assert forall|i: int, j: int| is_part(h@, i, j) implies !eq_ignore_ascii_case(
                #[trigger] h@.subrange(i, j),
                token@,
            ) by {
                assert(j <= n);
            }
        }
    }
    found
}

fn bytes_of(arr: &[u8]) -> (v: Vec<u8>)
    ensures
        v@ == arr@,
{
    let mut v: Vec<u8> = Vec::new();
    let mut i: usize = 0;
    while i < arr.len()
        invariant
            i <= arr@.len(),
            v@ == arr@.take(i as int),
        decreases arr@.len() - i,
    {
        v.push(arr[i]);
        i = i + 1;
        assert(v@ =~= arr@.take(i as int));
    }
    assert(arr@.take(i as int) =~= arr@);
    v
}

fn same_bytes(a: &Vec<u8>, b: &Vec<u8>) -> (r: bool)
    ensures
        r == (a@ == b@),
{
    if a.len() != b.len() {
        return false;
    }
    let mut i: usize = 0;
    while i < a.len()
        invariant
            i <= a@.len() == b@.len(),
            forall|k: int| 0 <= k < i ==> a@[k] == b@[k],
        decreases a@.len() - i,
    {
        if a[i] != b[i] {
            return false;
        }
        i = i + 1;
    }
    assert(a@ =~= b@);
    true
}

/// Whether `head` is a websocket handshake this server takes.
pub fn handshake_is_valid(head: &RequestHead) -> (b: bool)
    ensures
        b == handshake_valid(*head),
{
    if head.method != String::from_str("GET") {
        return false;
    }
    if head.version == HttpVersion::Http09 || head.version == HttpVersion::Http10 {
        return false;
    }
    let upgrade_arr: [u8; 7] = [85, 112, 103, 114, 97, 100, 101];
    assert(upgrade_arr@ =~= upgrade_token());
    let upgrade = bytes_of(&upgrade_arr);
    let connection_ok = match &head.connection {
        Some(c) => header_text(c) && header_has_token(c, &upgrade),
        None => false,
    };
    if !connection_ok {
        return false;
    }
    let websocket_arr: [u8; 9] = [119, 101, 98, 115, 111, 99, 107, 101, 116];
    assert(websocket_arr@ =~= websocket_token());
    let websocket = bytes_of(&websocket_arr);
    let upgrade_ok = match &head.upgrade {
        Some(u) => header_text(u) && part_matches(u, 0, u.len(), &websocket),
        None => false,
    };
    if !upgrade_ok {
        proof {
            if head.upgrade is Some {
                let u = head.upgrade->0;
                assert(u@.subrange(0, u@.len() as int) =~= u@);
            }
        }
        return false;
    }
    proof {
        let u = head.upgrade->0;
        assert(u@.subrange(0, u@.len() as int) =~= u@);
    }
    let v13_arr: [u8; 2] = [49, 51];
    assert(v13_arr@ =~= version_13());
    let v13 = bytes_of(&v13_arr);
    let version_ok = match &head.websocket_version {
        Some(v) => same_bytes(v, &v13),
        None => false,
    };
    version_ok && head.websocket_key.is_some()
}

// ------------------------------------------------------------------
// The query and what the upgraded connection is for
// ------------------------------------------------------------------

/// The value of the last pair named `key` in `pairs` (later pairs override
/// earlier ones), if any.
pub open spec fn query_value(pairs: Seq<(Seq<char>, Seq<char>)>, key: Seq<char>) -> Option<Seq<char>>
    decreases pairs.len(),
{
    if pairs.len() == 0 {
        None
    } else if pairs.last().0 == key {
        Some(pairs.last().1)
    } else {
        query_value(pairs.drop_last(), key)
    }
}

/// `v`, or `default` when there is none.
pub open spec fn or_default(v: Option<Seq<char>>, default: Seq<char>) -> Seq<char> {
    match v {
        Some(x) => x,
        None => default,
    }
}

/// Returns the value of the last pair named `key` in `pairs`, if any.
pub fn query_lookup(pairs: &Vec<(String, String)>, key: &str) -> (r: Option<String>)
    ensures
        match r {
            Some(v) => query_value(pairs_view(pairs@), key@) == Some(v@),
            None => query_value(pairs_view(pairs@), key@) is None,
        },
{
    let ghost ps = pairs_view(pairs@);
    let wanted = String::from_str(key);
    let mut found: Option<String> = None;
    let mut i: usize = 0;
    while i < pairs.len()
        invariant
            i <= pairs@.len(),
            ps == pairs_view(pairs@),
            wanted@ == key@,
            match found {
                Some(v) => query_value(ps.take(i as int), key@) == Some(v@),
                None => query_value(ps.take(i as int), key@) is None,
            },
        decreases pairs@.len() - i,
    {
        if pairs[i].0 == wanted {
            found = Some(pairs[i].1.clone());
        }
        proof {
            assert(ps.take(i + 1).drop_last() =~= ps.take(i as int));
            assert(ps.take(i + 1).last() == ps[i as int]);
        }
        i = i + 1;
    }
    assert(ps.take(i as int) =~= ps);
    found
}

/// What an upgraded connection is for.
#[derive(Debug, PartialEq, Eq)]
pub enum UpgradePlan {
    /// Close it at once with this code and reason.
    Close(CloseFrame),
    /// Run this session (which has no id yet) on it.
    Join(GameSession),
    /// The skin asked for is not a number from 0 to 255: the connection is
    /// dropped without a session.
    BadSkin,
}

/// The mathematical value of an [`UpgradePlan`].
pub enum UpgradePlanView {
    Close(u16, Seq<char>),
    Join {
        addr: PeerAddr,
        username: Seq<char>,
        skin: u8,
        seed: usize,
        room: Seq<char>,
        id: Option<u8>,
    },
    BadSkin,
}

impl View for UpgradePlan {
    type V = UpgradePlanView;

    open spec fn view(&self) -> UpgradePlanView {
        match self {
            UpgradePlan::Close(f) => UpgradePlanView::Close(f.code, f.reason@),
            UpgradePlan::Join(s) => UpgradePlanView::Join {
                addr: s.addr,
                username: s.username@,
                skin: s.skin,
                seed: s.seed,
                room: s.room@,
                id: s.id,
            },
            UpgradePlan::BadSkin => UpgradePlanView::BadSkin,
        }
    }
}

/// The close code for a connection that names no room (`Invalid`, 1007).
pub const CLOSE_NO_ROOM: u16 = 1007;

/// The close code for a connection to a room whose lobby has started.
pub const CLOSE_ROOM_STARTED: u16 = 4001;

/// What the connection of a handshake with query `pairs`, from `addr`, is for,
/// given the rooms: without a `room` it is closed; for a room whose lobby has
/// started it is closed; otherwise it is a session for that room, with the
/// `username` (default `balls_eater`), the `skin` (default `0`; one that does not
/// read as a `u8` drops the connection) and the `seed` (default `0`, and 0 when
/// it does not read as a `usize`) of the query.
pub open spec fn upgrade_plan<S>(
    pairs: Seq<(Seq<char>, Seq<char>)>,
    rooms: Map<Seq<char>, RoomView<S>>,
    addr: PeerAddr,
) -> UpgradePlanView {
    match query_value(pairs, "room"@) {
        None => UpgradePlanView::Close(CLOSE_NO_ROOM, "You're gay"@),
        Some(room) => if rooms.contains_key(room) && rooms[room].started {
            UpgradePlanView::Close(CLOSE_ROOM_STARTED, "Room already started innit bruv"@)
        } else {
            match parse_unsigned(or_default(query_value(pairs, "skin"@), "0"@), 255) {
                None => UpgradePlanView::BadSkin,
                Some(skin) => UpgradePlanView::Join {
                    addr: addr,
                    username: or_default(query_value(pairs, "username"@), "balls_eater"@),
                    skin: skin as u8,
                    seed: match parse_unsigned(
                        or_default(query_value(pairs, "seed"@), "0"@),
                        usize::MAX as nat,
                    ) {
                        Some(v) => v as usize,
                        None => 0,
                    },
                    room: room,
                    id: None,
                },
            }
        },
    }
}

fn lookup_or(pairs: &Vec<(String, String)>, key: &str, default: &str) -> (r: String)
    ensures
        r@ == or_default(query_value(pairs_view(pairs@), key@), default@),
{
    match query_lookup(pairs, key) {
        Some(v) => v,
        None => String::from_str(default),
    }
}

/// Decides what the connection of a handshake with query `pairs`, from `addr`,
/// is for.
pub fn plan_upgrade<S>(pairs: &Vec<(String, String)>, rooms: &RoomMap<S>, addr: PeerAddr) -> (r: UpgradePlan)
    ensures
        r@ == upgrade_plan(pairs_view(pairs@), rooms@, addr),
{
    match query_lookup(pairs, "room") {
        None => UpgradePlan::Close(
            CloseFrame { code: CLOSE_NO_ROOM, reason: String::from_str("You're gay") },
        ),
        Some(room) => {
            let started = match rooms.get(room.as_str()) {
                Some(r) => r.started,
                None => false,
            };
            if started {
                return UpgradePlan::Close(
                    CloseFrame {
                        code: CLOSE_ROOM_STARTED,
                        reason: String::from_str("Room already started innit bruv"),
                    },
                );
            }
            let username = lookup_or(pairs, "username", "balls_eater");
            let skin_text = lookup_or(pairs, "skin", "0");
            let seed_text = lookup_or(pairs, "seed", "0");
            match parse_u8(skin_text.as_str()) {
                None => UpgradePlan::BadSkin,
                Some(skin) => {
                    let seed = match parse_usize(seed_text.as_str()) {
                        Some(v) => v,
                        None => 0,
                    };
                    UpgradePlan::Join(
                        GameSession { addr, username, skin, seed, room, id: None },
                    )
                },
            }
        },
    }
}

// ------------------------------------------------------------------
// The reply
// ------------------------------------------------------------------

/// What a request gets.
#[derive(Debug, PartialEq, Eq)]
pub enum Reply {
    /// `200 OK` with an empty body, after the process's resource use is logged.
    Health,
    /// `200 OK` with this body: the request is not a websocket handshake.
    Outdated(String),
    /// The request target does not make a URL: the handler fails.
    UnparsableUri,
    /// `101 Switching Protocols` with this `Sec-WebSocket-Accept` value; the
    /// upgraded connection is for `plan`.
    Upgrade { accept: String, plan: UpgradePlan },
}

/// The mathematical value of a [`Reply`].
pub enum ReplyView {
    Health,
    Outdated(Seq<char>),
    UnparsableUri,
    Upgrade { accept: Seq<char>, plan: UpgradePlanView },
}

impl View for Reply {
    type V = ReplyView;

    open spec fn view(&self) -> ReplyView {
        match self {
            Reply::Health => ReplyView::Health,
            Reply::Outdated(b) => ReplyView::Outdated(b@),
            Reply::UnparsableUri => ReplyView::UnparsableUri,
            Reply::Upgrade { accept, plan } => ReplyView::Upgrade { accept: accept@, plan: plan@ },
        }
    }
}

/// The body sent to a request that is not a websocket handshake.
pub open spec fn outdated_body() -> Seq<char> {
    "Yur version or browser is outdated innit bruv (If you are pinging this website, it means the multiplayer engine is running!"@
}

/// The URL whose query is read: the request target after a fixed origin.
pub open spec fn request_url(head: RequestHead) -> Seq<char> {
    "https://example.org"@ + head.uri@
}

/// What request `head` from `addr` gets, given the rooms: the health check
/// when its target is `/healthz`; the refusal when it is not a handshake;
/// otherwise, when its target makes a URL, the upgrade with the accept value
/// of its key and the plan for its query.
pub open spec fn reply<S>(head: RequestHead, addr: PeerAddr, rooms: Map<Seq<char>, RoomView<S>>) -> ReplyView {
    if uri_equals(head.uri@, "/healthz"@) {
        ReplyView::Health
    } else if !handshake_valid(head) {
        ReplyView::Outdated(outdated_body())
    } else if !url_parses(request_url(head)) {
        ReplyView::UnparsableUri
    } else {
        ReplyView::Upgrade {
            accept: websocket_accept(head.websocket_key->0@),
            plan: upgrade_plan(url_query_pairs(request_url(head)), rooms, addr),
        }
    }
}

/// Decides what request `head` from `addr` gets, given the rooms.
pub fn handle_request<S>(head: &RequestHead, addr: PeerAddr, rooms: &RoomMap<S>) -> (r: Reply)
    ensures
        r@ == reply(*head, addr, rooms@),
        r is Upgrade ==> handshake_valid(*head),
{
    if uri_is(head.uri.as_str(), "/healthz") {
        return Reply::Health;
    }
    if !handshake_is_valid(head) {
        return Reply::Outdated(
            String::from_str(
                "Yur version or browser is outdated innit bruv (If you are pinging this website, it means the multiplayer engine is running!",
            ),
        );
    }
    let mut url = String::from_str("https://example.org");
    url.append(head.uri.as_str());
    match query_pairs_of(url.as_str()) {
        None => Reply::UnparsableUri,
        Some(pairs) => {
            let accept = accept_key(head.websocket_key.as_ref().unwrap());
            Reply::Upgrade { accept, plan: plan_upgrade(&pairs, rooms, addr) }
        },
    }
}

} // verus!
