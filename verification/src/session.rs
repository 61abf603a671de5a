//! A player's session: joining a room, relaying what the player sends to the
//! others, and leaving.
//!
//! Sending is left to the caller: each step here returns what is to be sent
//! and to whom, and the relay takes back, for each recipient, whether the send
//! went through.
use vstd::prelude::*;
use vstd::string::*;
use crate::constants::{CAKE_SPAWN_EVENT, GERMINATION_EVENT, IS_HOST_EVENT, PLAYER_LEAVE_EVENT,
    START_LOBBY_EVENT, TXT_MESSAGE_CREATE, USER_DATA_EVENT, USER_NAME_EVENT};
use crate::message::{copy_bytes, MessageView, Outgoing, OutgoingView, Recipient, WsMessage, outgoing_view,
    payload_starts_with_seven};
use crate::rooms::{PeerAddr, Player, PlayerView, Room, RoomMap, RoomView, players_view};
use crate::wire::{decimal, decimal_text, digit_char, id_bytes, id_from_bytes, id_of_bytes,
    id_to_bytes};

verus! {

/// One connected player: where they connect from, what they chose, which room
/// they are in, and their id in it once they have joined.
#[derive(Debug, PartialEq, Eq)]
pub struct GameSession {
    pub addr: PeerAddr,
    pub username: String,
    pub skin: u8,
    /// The seed a room gets if this session creates it.
    pub seed: usize,
    pub room: String,
    pub id: Option<u8>,
}

// ------------------------------------------------------------------
// Relaying a message to the other players
// ------------------------------------------------------------------

/// What happens to one player of the room when a message is relayed.
#[derive(Debug, PartialEq, Eq)]
pub enum Delivery {
    /// The player stays and is sent nothing.
    Keep,
    /// The player is taken out of the room.
    Drop,
    /// The player is sent the message, and stays only if the send goes through.
    Send(WsMessage),
}

/// The mathematical value of a [`Delivery`].
pub enum DeliveryView {
    Keep,
    Drop,
    Send(MessageView),
}

impl View for Delivery {
    type V = DeliveryView;

    open spec fn view(&self) -> DeliveryView {
        match self {
            Delivery::Keep => DeliveryView::Keep,
            Delivery::Drop => DeliveryView::Drop,
            Delivery::Send(m) => DeliveryView::Send(m@),
        }
    }
}

/// What a relay does to a room: one delivery per player, in the room's
/// order, and whether the lobby is started afterwards.
#[derive(Debug, PartialEq, Eq)]
pub struct RelayPlan {
    pub deliveries: Vec<Delivery>,
    pub started: bool,
}

/// The mathematical value of a [`RelayPlan`].
pub struct RelayPlanView {
    pub deliveries: Seq<DeliveryView>,
    pub started: bool,
}

impl View for RelayPlan {
    type V = RelayPlanView;

    open spec fn view(&self) -> RelayPlanView {
        RelayPlanView {
            deliveries: self.deliveries@.map_values(|d: Delivery| d@),
            started: self.started,
        }
    }
}

/// Whether text `t` is a chat message: its first character is the digit of
/// the chat event.
pub open spec fn is_chat(t: Seq<char>) -> bool {
    t.len() > 0 && t[0] == digit_char(TXT_MESSAGE_CREATE as nat)
}

/// The chat text `t` as the other players get it from player `sid`: the
/// sender's id, between commas, after the event digit.
pub open spec fn chat_for_peers(t: Seq<char>, sid: u8) -> Seq<char> {
    t.take(1) + seq![','] + decimal(sid as nat) + seq![','] + t.skip(1)
}

/// The binary message `v` (not empty) from player `sid` as the player with id
/// `recp_id` gets it:
/// - messages of 44, 36, 8 or 32 bytes get the sender's id, as four float
///   bytes, inserted after their first four bytes;
/// - a 40-byte message addressed (by the float id in bytes 4..8) to the
///   recipient becomes a cake spawn event from the sender followed by bytes
///   8.. of the message; addressed to another player, it goes unchanged;
/// - a lobby start from the host goes unchanged;
/// - any other message gets the sender's id inserted after its first byte.
pub open spec fn binary_for_peer(v: Seq<u8>, sid: u8, recp_id: u8) -> Seq<u8> {
    let n = v.len();
    if n == 44 || n == 36 || n == 8 || n == 32 {
        v.take(4) + id_bytes(sid) + v.skip(4)
    } else if n == 40 {
        if recp_id == id_of_bytes(v.subrange(4, 8)) {
            id_bytes(CAKE_SPAWN_EVENT) + id_bytes(sid) + v.skip(8)
        } else {
            v
        }
    } else if v[0] == START_LOBBY_EVENT && sid == 0 {
        v
    } else {
        v.insert(1, sid)
    }
}

/// What relaying message `m` from the session `sid` at `saddr` does to player `p`.
/// The sender itself is sent the message back only when its payload begins
/// with the byte 7; other players get chat texts and binary messages (an
/// empty binary message takes them out of the room), and nothing else.
pub open spec fn delivery_for<S>(sid: u8, saddr: PeerAddr, p: PlayerView<S>, m: MessageView) -> DeliveryView {
    if p.addr != saddr {
        match m {
            MessageView::Text(t) => if is_chat(t) {
                DeliveryView::Send(MessageView::Text(chat_for_peers(t, sid)))
            } else {
                DeliveryView::Keep
            },
            MessageView::Binary(v) => if v.len() == 0 {
                DeliveryView::Drop
            } else {
                DeliveryView::Send(MessageView::Binary(binary_for_peer(v, sid, p.id)))
            },
            _ => DeliveryView::Keep,
        }
    } else if payload_starts_with_seven(m) {
        DeliveryView::Send(m)
    } else {
        DeliveryView::Keep
    }
}

/// Whether relaying `m` past player `p` starts the lobby: the host's lobby
/// start reaching another player, or a payload beginning with 7 reaching the
/// sender itself.
pub open spec fn opens_lobby<S>(sid: u8, saddr: PeerAddr, p: PlayerView<S>, m: MessageView) -> bool {
    if p.addr != saddr {
        match m {
            MessageView::Binary(v) => {
                let n = v.len();
                n > 0 && !(n == 44 || n == 36 || n == 8 || n == 32 || n == 40) && v[0]
                    == START_LOBBY_EVENT && sid == 0
            },
            _ => false,
        }
    } else {
        payload_starts_with_seven(m)
    }
}

/// The plan for relaying `m` from session `sid` at `saddr` in `room`.
pub open spec fn relay_plan<S>(room: RoomView<S>, sid: u8, saddr: PeerAddr, m: MessageView) -> RelayPlanView {
    RelayPlanView {
        deliveries: Seq::new(
            room.players.len(),
            |i: int| delivery_for(sid, saddr, room.players[i], m),
        ),
        started: room.started || exists|i: int|
            0 <= i < room.players.len() && #[trigger] opens_lobby(sid, saddr, room.players[i], m),
    }
}

/// Whether a player with delivery `d` stays, given whether the send to them
/// went through.
pub open spec fn keeps(d: DeliveryView, delivered: bool) -> bool {
    match d {
        DeliveryView::Keep => true,
        DeliveryView::Drop => false,
        DeliveryView::Send(_) => delivered,
    }
}

/// The players of `ps` who stay, in order.
pub open spec fn kept_players<S>(ps: Seq<PlayerView<S>>, ds: Seq<DeliveryView>, ok: Seq<bool>) -> Seq<PlayerView<S>>
    decreases ps.len(),
{
    if ps.len() == 0 {
        seq![]
    } else {
        let rest = kept_players(ps.drop_last(), ds, ok);
        if keeps(ds[ps.len() - 1], ok[ps.len() - 1]) {
            rest.push(ps.last())
        } else {
            rest
        }
    }
}

/// The room after a relay with `plan`, where `ok[i]` tells whether the send
/// to player `i` went through.
pub open spec fn room_after_relay<S>(room: RoomView<S>, plan: RelayPlanView, ok: Seq<bool>) -> RoomView<S> {
    RoomView {
        seed: room.seed,
        started: plan.started,
        nextid: room.nextid,
        players: kept_players(room.players, plan.deliveries, ok),
    }
}

fn push_all(w: &mut Vec<u8>, v: &Vec<u8>, from: usize)
    requires
        from <= v.len(),
    ensures
        final(w)@ == old(w)@ + v@.skip(from as int),
{
    let mut i = from;
    while i < v.len()
        invariant
            from <= i <= v.len(),
            w@ == old(w)@ + v@.subrange(from as int, i as int),
        decreases v.len() - i,
    {
        w.push(v[i]);
        i = i + 1;
        assert(w@ =~= old(w)@ + v@.subrange(from as int, i as int));
    }
    assert(v@.subrange(from as int, i as int) =~= v@.skip(from as int));
}

fn push_id(w: &mut Vec<u8>, n: u8)
    ensures
        final(w)@ == old(w)@ + id_bytes(n),
{
    let b = id_to_bytes(n);
    w.push(b[0]);
    w.push(b[1]);
    w.push(b[2]);
    w.push(b[3]);
    assert(w@ =~= old(w)@ + id_bytes(n));
}

/// Returns binary message `v` from player `sid` as the player `recp_id` gets it.
pub fn relay_binary(v: &Vec<u8>, sid: u8, recp_id: u8) -> (r: Vec<u8>)
    requires
        v.len() > 0,
    ensures
        r@ == binary_for_peer(v@, sid, recp_id),
{
    let n = v.len();
    if n == 44 || n == 36 || n == 8 || n == 32 {
        let mut w: Vec<u8> = Vec::new();
        let mut i: usize = 0;
        while i < 4
            invariant
                i <= 4 <= v.len(),
                w@ == v@.take(i as int),
            decreases 4 - i,
        {
            w.push(v[i]);
            i = i + 1;
            assert(w@ =~= v@.take(i as int));
        }
        push_id(&mut w, sid);
        push_all(&mut w, v, 4);
        w
    } else if n == 40 {
        let uid = id_from_bytes(v, 4);
        if recp_id == uid {
            let mut w: Vec<u8> = Vec::new();
            push_id(&mut w, CAKE_SPAWN_EVENT);
            push_id(&mut w, sid);
            push_all(&mut w, v, 8);
            assert(w@ =~= id_bytes(CAKE_SPAWN_EVENT) + id_bytes(sid) + v@.skip(8));
            w
        } else {
            copy_bytes(v)
        }
    } else if v[0] == START_LOBBY_EVENT && sid == 0 {
        copy_bytes(v)
    } else {
        let mut w = copy_bytes(v);
        w.insert(1, sid);
        w
    }
}

/// Returns chat text `t` from player `sid` as the other players get it.
pub fn relay_chat(t: &String, sid: u8) -> (r: String)
    requires
        t@.len() > 0,
    ensures
        r@ == chat_for_peers(t@, sid),
{
    let s = t.as_str();
    let n = s.unicode_len();
    let mut r = String::from_str(s.substring_char(0, 1));
    proof {
        reveal_strlit(",");
    }
    r.append(",");
    let id_text = decimal_text(sid);
    r.append(id_text.as_str());
    r.append(",");
    r.append(s.substring_char(1, n));
    assert(r@ =~= chat_for_peers(t@, sid));
    r
}

fn is_chat_text(t: &String) -> (b: bool)
    ensures
        b == is_chat(t@),
{
    let s = t.as_str();
    s.unicode_len() > 0 && s.get_char(0) == '8'
}

/// Returns what relaying `msg` from session `sid` at `saddr` does to player
/// `p`, and whether it starts the lobby.
pub fn delivery_to<S>(sid: u8, saddr: PeerAddr, p: &Player<S>, msg: &WsMessage) -> (r: (Delivery, bool))
    ensures
        r.0@ == delivery_for(sid, saddr, p@, msg@),
        r.1 == opens_lobby(sid, saddr, p@, msg@),
{
    if p.addr != saddr {
        match msg {
            WsMessage::Text(t) => {
                if is_chat_text(t) {
                    (Delivery::Send(WsMessage::Text(relay_chat(t, sid))), false)
                } else {
                    (Delivery::Keep, false)
                }
            },
            WsMessage::Binary(v) => {
                if v.len() == 0 {
                    (Delivery::Drop, false)
                } else {
                    let n = v.len();
                    let opens = !(n == 44 || n == 36 || n == 8 || n == 32 || n == 40) && v[0]
                        == START_LOBBY_EVENT && sid == 0;
                    (Delivery::Send(WsMessage::Binary(relay_binary(v, sid, p.id))), opens)
                }
            },
            _ => (Delivery::Keep, false),
        }
    } else if msg.payload_starts_with_seven() {
        (Delivery::Send(msg.duplicate()), true)
    } else {
        (Delivery::Keep, false)
    }
}

/// Returns the plan for relaying `msg` from session `sid` at `saddr` in `room`.
pub fn plan_relay<S>(room: &Room<S>, sid: u8, saddr: PeerAddr, msg: &WsMessage) -> (plan: RelayPlan)
    ensures
        plan@ == relay_plan(room@, sid, saddr, msg@),
{
    let ghost ps = room@.players;
    let mut deliveries: Vec<Delivery> = Vec::new();
    let mut started = room.started;
    let mut i: usize = 0;
    while i < room.players.len()
        invariant
            i <= room.players@.len(),
            ps == room@.players,
            ps.len() == room.players@.len(),
            deliveries@.len() == i,
            forall|j: int| 0 <= j < i ==> #[trigger] deliveries@[j]@ == delivery_for(sid, saddr, ps[j], msg@),
            started == (room.started || exists|j: int|
                0 <= j < i && #[trigger] opens_lobby(sid, saddr, ps[j], msg@)),
        decreases room.players@.len() - i,
    {
        let (d, opens) = delivery_to(sid, saddr, &room.players[i], msg);
        assert(ps[i as int] == room.players@[i as int]@);
        deliveries.push(d);
        started = started || opens;
        i = i + 1;
    }
    let plan = RelayPlan { deliveries, started };
    assert(plan@.deliveries =~= relay_plan(room@, sid, saddr, msg@).deliveries);
    plan
}

fn delivery_keeps(d: &Delivery, delivered: bool) -> (b: bool)
    ensures
        b == keeps(d@, delivered),
{
    match d {
        Delivery::Keep => true,
        Delivery::Drop => false,
        Delivery::Send(_) => delivered,
    }
}

/// Keeps, in order, the players whose delivery and send outcome say they stay.
fn keep_delivered<S>(players: Vec<Player<S>>, ds: &Vec<Delivery>, ok: &Vec<bool>) -> (kept: Vec<Player<S>>)
    requires
        ds@.len() == players@.len(),
        ok@.len() == players@.len(),
    ensures
        players_view(kept@) == kept_players(
            players_view(players@),
            ds@.map_values(|d: Delivery| d@),
            ok@,
        ),
{
    let ghost orig = players@;
    let ghost ps = players_view(orig);
    let ghost dsv = ds@.map_values(|d: Delivery| d@);
    let n = players.len();
    let mut rest = players;
    let mut kept: Vec<Player<S>> = Vec::new();
    let mut i: usize = 0;
    while i < n
        invariant
            i <= n == orig.len(),
            ds@.len() == n,
            ok@.len() == n,
            ps == players_view(orig),
            dsv == ds@.map_values(|d: Delivery| d@),
            rest@ == orig.skip(i as int),
            players_view(kept@) == kept_players(ps.take(i as int), dsv, ok@),
        decreases n - i,
    {
        let p = rest.remove(0);
        assert(p == orig[i as int]);
        let ghost before = kept@;
        let stays = delivery_keeps(&ds[i], ok[i]);
        if stays {
            kept.push(p);
            assert(players_view(kept@) =~= players_view(before).push(p@));
        }
        proof {
            assert(ps.take(i + 1).drop_last() =~= ps.take(i as int));
            assert(ps.take(i + 1).last() == ps[i as int]);
            assert(ps[i as int] == p@);
            assert(dsv[i as int] == ds@[i as int]@);
        }
        i = i + 1;
        assert(rest@ =~= orig.skip(i as int));
    }
    assert(ps.take(n as int) =~= ps);
    kept
}

// ------------------------------------------------------------------
// Joining a room
// ------------------------------------------------------------------

/// The id recorded on the player entry of a session joining room `name`: the
/// number of rooms (truncated to a byte) when the room exists, else 0.
pub open spec fn entry_id<S>(rooms: Map<Seq<char>, RoomView<S>>, name: Seq<char>) -> u8 {
    if rooms.contains_key(name) {
        (rooms.dom().len() % 256) as u8
    } else {
        0
    }
}

/// The id a session gets on joining room `name`: the number of players
/// already in it (truncated to a byte), or 0 for the host of a new room.
pub open spec fn session_id<S>(rooms: Map<Seq<char>, RoomView<S>>, name: Seq<char>) -> u8 {
    if rooms.contains_key(name) {
        (rooms[name].players.len() % 256) as u8
    } else {
        0
    }
}

/// The room of session `s` once it has joined, `sender` carrying messages to it.
pub open spec fn joined_room<S>(rooms: Map<Seq<char>, RoomView<S>>, s: GameSession, sender: S) -> RoomView<S> {
    let name = s.room@;
    let p = PlayerView {
        addr: s.addr,
        sender: sender,
        username: s.username@,
        skin: s.skin,
        id: entry_id(rooms, name),
    };
    if rooms.contains_key(name) {
        RoomView { players: rooms[name].players.push(p), ..rooms[name] }
    } else {
        RoomView { seed: s.seed, started: false, nextid: 0, players: seq![p] }
    }
}

/// The rooms once session `s` has joined.
pub open spec fn rooms_after_join<S>(rooms: Map<Seq<char>, RoomView<S>>, s: GameSession, sender: S) -> Map<Seq<char>, RoomView<S>> {
    rooms.insert(s.room@, joined_room(rooms, s, sender))
}

/// What a joining session is sent first: the seed of the room it joins, or,
/// when it creates the room, that it is the host.
pub open spec fn welcome<S>(rooms: Map<Seq<char>, RoomView<S>>, name: Seq<char>) -> MessageView {
    if rooms.contains_key(name) {
        MessageView::Binary(seq![GERMINATION_EVENT, (rooms[name].seed % 256) as u8])
    } else {
        MessageView::Binary(seq![IS_HOST_EVENT])
    }
}

/// The text that tells a player's name: the name event, the id and the name,
/// separated by commas.
pub open spec fn name_event(id: u8, name: Seq<char>) -> Seq<char> {
    decimal(USER_NAME_EVENT as nat) + seq![','] + decimal(id as nat) + seq![','] + name
}

/// What session `s` (with id `sid`) and the player `p` at index `i` of its room
/// tell each other on joining: nothing when `p` has the session's address;
/// otherwise `p` gets the session's id, skin and name, and the session gets `p`'s.
pub open spec fn greeting<S>(i: int, sid: u8, s: GameSession, p: PlayerView<S>) -> Seq<OutgoingView> {
    if p.addr == s.addr {
        seq![]
    } else {
        seq![
            OutgoingView {
                to: Recipient::Player(i as usize),
                msg: MessageView::Binary(seq![USER_DATA_EVENT, sid, s.skin]),
            },
            OutgoingView {
                to: Recipient::Player(i as usize),
                msg: MessageView::Text(name_event(sid, s.username@)),
            },
            OutgoingView {
                to: Recipient::Own,
                msg: MessageView::Binary(seq![USER_DATA_EVENT, p.id, p.skin]),
            },
            OutgoingView { to: Recipient::Own, msg: MessageView::Text(name_event(p.id, p.username)) },
        ]
    }
}

/// The greetings of session `s` with each player of `ps`, in order.
pub open spec fn greetings<S>(ps: Seq<PlayerView<S>>, sid: u8, s: GameSession) -> Seq<OutgoingView>
    decreases ps.len(),
{
    if ps.len() == 0 {
        seq![]
    } else {
        greetings(ps.drop_last(), sid, s) + greeting(ps.len() - 1, sid, s, ps.last())
    }
}

/// Everything sent when session `s` joins: the welcome, then the greetings
/// with every player of the room it joined (itself included, which sends nothing).
pub open spec fn join_messages<S>(rooms: Map<Seq<char>, RoomView<S>>, s: GameSession, sender: S) -> Seq<OutgoingView> {
    seq![OutgoingView { to: Recipient::Own, msg: welcome(rooms, s.room@) }] + greetings(
        joined_room(rooms, s, sender).players,
        session_id(rooms, s.room@),
        s,
    )
}

/// Returns the text that tells the name of player `id`.
pub fn name_event_text(id: u8, name: &String) -> (t: String)
    ensures
        t@ == name_event(id, name@),
{
    let mut t = decimal_text(USER_NAME_EVENT as u8);
    proof {
        reveal_strlit(",");
    }
    t.append(",");
    let id_text = decimal_text(id);
    t.append(id_text.as_str());
    t.append(",");
    t.append(name.as_str());
    assert(t@ =~= name_event(id, name@));
    t
}

fn bytes2(a: u8, b: u8) -> (v: Vec<u8>)
    ensures
        v@ == seq![a, b],
{
    let mut v = Vec::new();
    v.push(a);
    v.push(b);
    assert(v@ =~= seq![a, b]);
    v
}

fn bytes3(a: u8, b: u8, c: u8) -> (v: Vec<u8>)
    ensures
        v@ == seq![a, b, c],
{
    let mut v = Vec::new();
    v.push(a);
    v.push(b);
    v.push(c);
    assert(v@ =~= seq![a, b, c]);
    v
}

fn byte1(a: u8) -> (v: Vec<u8>)
    ensures
        v@ == seq![a],
{
    let mut v = Vec::new();
    v.push(a);
    assert(v@ =~= seq![a]);
    v
}

impl GameSession {
    /// Plans the relay of `msg`, sent by this session, in its room; `None`
    /// when the room is not there.
    pub fn recv<S>(&self, rooms: &RoomMap<S>, msg: &WsMessage) -> (r: Option<RelayPlan>)
        requires
            self.id is Some,
        ensures
            match r {
                Some(plan) => rooms@.contains_key(self.room@) && plan@ == relay_plan(
                    rooms@[self.room@],
                    self.id->0,
                    self.addr,
                    msg@,
                ),
                None => !rooms@.contains_key(self.room@),
            },
    {
        match rooms.get(self.room.as_str()) {
            Some(room) => Some(plan_relay(room, self.id.unwrap(), self.addr, msg)),
            None => None,
        }
    }

    /// Carries out a relay `plan` in this session's room, where `delivered[i]`
    /// tells whether the send to player `i` went through. Returns whether the
    /// plan fit the room (one delivery and one outcome per player); when it does
    /// not, nothing changes.
    pub fn apply_relay<S>(&self, rooms: &mut RoomMap<S>, plan: RelayPlan, delivered: &Vec<bool>) -> (applied: bool)
        ensures
            applied == (old(rooms)@.contains_key(self.room@)
                && plan@.deliveries.len() == old(rooms)@[self.room@].players.len()
                && delivered@.len() == plan@.deliveries.len()),
            applied ==> final(rooms)@ == old(rooms)@.insert(
                self.room@,
                room_after_relay(old(rooms)@[self.room@], plan@, delivered@),
            ),
            !applied ==> final(rooms)@ == old(rooms)@,
    {
        let fits = match rooms.get(self.room.as_str()) {
            Some(room) => plan.deliveries.len() == room.players.len() && delivered.len()
                == plan.deliveries.len(),
            None => false,
        };
        if !fits {
            return false;
        }
        let ghost old_room = rooms@[self.room@];
        let room = rooms.remove(self.room.as_str()).unwrap();
        let Room { seed, started: _, nextid, players } = room;
        let RelayPlan { deliveries, started } = plan;
        assert(players_view(players@).len() == players@.len());
        let kept = keep_delivered(players, &deliveries, delivered);
        let new_room = Room { seed, started, nextid, players: kept };
        assert(new_room@ == room_after_relay(old_room, plan@, delivered@));
        rooms.insert(self.room.clone(), new_room);
        proof {
            assert(old(rooms)@.remove(self.room@).insert(self.room@, new_room@) =~= old(
                rooms,
            )@.insert(self.room@, new_room@));
        }
        true
    }

    /// Joins this session's room, creating it (with this session as host) when
    /// it is not there, with `sender` carrying messages to this session. Returns
    /// what is to be sent: recipients `Player(i)` are the players of the room
    /// after the join.
    pub fn start<S>(&mut self, rooms: &mut RoomMap<S>, sender: S) -> (out: Vec<Outgoing>)
        ensures
            final(self).id == Some(session_id(old(rooms)@, old(self).room@)),
            final(self).addr == old(self).addr,
            final(self).username == old(self).username,
            final(self).skin == old(self).skin,
            final(self).seed == old(self).seed,
            final(self).room == old(self).room,
            final(rooms)@ == rooms_after_join(old(rooms)@, *old(self), sender),
            outgoing_view(out@) == join_messages(old(rooms)@, *old(self), sender),
    {
        let ghost s0 = *self;
        let ghost rooms0 = rooms@;
        let ghost name = self.room@;
        let count = rooms.len();
        let existed = rooms.contains(self.room.as_str());
        let entry: u8 = if existed {
            (count % 256) as u8
        } else {
            0
        };
        let player = Player {
            addr: self.addr,
            sender: sender,
            username: self.username.clone(),
            skin: self.skin,
            id: entry,
        };
        let mut out: Vec<Outgoing> = Vec::new();
        let room = match rooms.remove(self.room.as_str()) {
            Some(room) => {
                let Room { seed, started, nextid, players } = room;
                let sid = (players.len() % 256) as u8;
                self.id = Some(sid);
                out.push(
                    Outgoing {
                        to: Recipient::Own,
                        msg: WsMessage::Binary(bytes2(GERMINATION_EVENT, (seed % 256) as u8)),
                    },
                );
                let mut players = players;
                let ghost before = players@;
                players.push(player);
                assert(players_view(players@) =~= players_view(before).push(player@));
                Room { seed, started, nextid, players }
            },
            None => {
                self.id = Some(0);
                out.push(
                    Outgoing { to: Recipient::Own, msg: WsMessage::Binary(byte1(IS_HOST_EVENT)) },
                );
                let mut players: Vec<Player<S>> = Vec::new();
                players.push(player);
                assert(players_view(players@) =~= seq![player@]);
                Room { seed: self.seed, started: false, nextid: 0, players }
            },
        };
        assert(room@ == joined_room(rooms0, s0, sender));
        assert(outgoing_view(out@) =~= seq![
            OutgoingView { to: Recipient::Own, msg: welcome(rooms0, name) },
        ]);
        let sid = self.id.unwrap();
        let ghost ps = room@.players;
        let ghost head = outgoing_view(out@);
        let mut i: usize = 0;
        while i < room.players.len()
            invariant
                i <= room.players@.len(),
                ps == room@.players,
                ps.len() == room.players@.len(),
                outgoing_view(out@) == head + greetings(ps.take(i as int), sid, s0),
                s0.addr == self.addr,
                s0.skin == self.skin,
                s0.username == self.username,
            decreases room.players@.len() - i,
        {
            let p = &room.players[i];
            assert(ps[i as int] == p@);
            let ghost before = outgoing_view(out@);
            if p.addr != self.addr {
                out.push(
                    Outgoing {
                        to: Recipient::Player(i),
                        msg: WsMessage::Binary(bytes3(USER_DATA_EVENT, sid, self.skin)),
                    },
                );
                out.push(
                    Outgoing {
                        to: Recipient::Player(i),
                        msg: WsMessage::Text(name_event_text(sid, &self.username)),
                    },
                );
                out.push(
                    Outgoing {
                        to: Recipient::Own,
                        msg: WsMessage::Binary(bytes3(USER_DATA_EVENT, p.id, p.skin)),
                    },
                );
                out.push(
                    Outgoing { to: Recipient::Own, msg: WsMessage::Text(name_event_text(p.id, &p.username)) },
                );
            }
            proof {
                assert(ps.take(i + 1).drop_last() =~= ps.take(i as int));
                assert(ps.take(i + 1).last() == ps[i as int]);
                assert(outgoing_view(out@) =~= before + greeting(i as int, sid, s0, ps[i as int]));
            }
            i = i + 1;
        }
        assert(ps.take(i as int) =~= ps);
        rooms.insert(self.room.clone(), room);
        proof {
            assert(rooms0.remove(name).insert(name, room@) =~= rooms0.insert(name, room@));
        }
        out
    }
}

// ------------------------------------------------------------------
// Leaving a room
// ------------------------------------------------------------------

/// What a session's leaving calls for.
#[derive(Debug)]
pub enum Departure<S> {
    /// The host left: the room is gone, and each of its former players (the
    /// host included) is to be sent a close message without a frame.
    HostLeft(Vec<Player<S>>),
    /// A guest left: each player still in the room is to be sent `notice`.
    GuestLeft(WsMessage),
    /// The session's room was not there; nothing changed.
    NoRoom,
}

/// The mathematical value of a [`Departure`].
pub enum DepartureView<S> {
    HostLeft(Seq<PlayerView<S>>),
    GuestLeft(MessageView),
    NoRoom,
}

impl<S> View for Departure<S> {
    type V = DepartureView<S>;

    open spec fn view(&self) -> DepartureView<S> {
        match self {
            Departure::HostLeft(ps) => DepartureView::HostLeft(players_view(ps@)),
            Departure::GuestLeft(m) => DepartureView::GuestLeft(m@),
            Departure::NoRoom => DepartureView::NoRoom,
        }
    }
}

/// The players of `ps` whose address is not `addr`, in order.
pub open spec fn players_except<S>(ps: Seq<PlayerView<S>>, addr: PeerAddr) -> Seq<PlayerView<S>>
    decreases ps.len(),
{
    if ps.len() == 0 {
        seq![]
    } else {
        let rest = players_except(ps.drop_last(), addr);
        if ps.last().addr != addr {
            rest.push(ps.last())
        } else {
            rest
        }
    }
}

/// The rooms once session `s` (which has an id) has left: the host's leaving
/// removes the room; a guest's leaving removes every player with the guest's
/// address, and the room with them if no one is left.
pub open spec fn rooms_after_leave<S>(rooms: Map<Seq<char>, RoomView<S>>, s: GameSession) -> Map<Seq<char>, RoomView<S>> {
    let name = s.room@;
    if s.id == Some(0u8) {
        rooms.remove(name)
    } else if rooms.contains_key(name) {
        let rest = players_except(rooms[name].players, s.addr);
        if rest.len() == 0 {
            rooms.remove(name)
        } else {
            rooms.insert(name, RoomView { players: rest, ..rooms[name] })
        }
    } else {
        rooms
    }
}

/// What session `s` (which has an id) leaving room table `rooms` calls for.
pub open spec fn departure<S>(rooms: Map<Seq<char>, RoomView<S>>, s: GameSession) -> DepartureView<S> {
    let name = s.room@;
    if !rooms.contains_key(name) {
        DepartureView::NoRoom
    } else if s.id == Some(0u8) {
        DepartureView::HostLeft(rooms[name].players)
    } else {
        DepartureView::GuestLeft(MessageView::Binary(seq![PLAYER_LEAVE_EVENT, s.id->0]))
    }
}

fn remove_address<S>(players: Vec<Player<S>>, addr: PeerAddr) -> (kept: Vec<Player<S>>)
    ensures
        players_view(kept@) == players_except(players_view(players@), addr),
{
    let ghost orig = players@;
    let ghost ps = players_view(orig);
    let n = players.len();
    let mut rest = players;
    let mut kept: Vec<Player<S>> = Vec::new();
    let mut i: usize = 0;
    while i < n
        invariant
            i <= n == orig.len(),
            ps == players_view(orig),
            rest@ == orig.skip(i as int),
            players_view(kept@) == players_except(ps.take(i as int), addr),
        decreases n - i,
    {
        let p = rest.remove(0);
        assert(p == orig[i as int]);
        let ghost before = kept@;
        if p.addr != addr {
            kept.push(p);
            assert(players_view(kept@) =~= players_view(before).push(p@));
        }
        proof {
            assert(ps.take(i + 1).drop_last() =~= ps.take(i as int));
            assert(ps.take(i + 1).last() == ps[i as int]);
            assert(ps[i as int] == p@);
        }
        i = i + 1;
        assert(rest@ =~= orig.skip(i as int));
    }
    assert(ps.take(n as int) =~= ps);
    kept
}

impl GameSession {
    /// Leaves this session's room.
    pub fn disonnect<S>(&self, rooms: &mut RoomMap<S>) -> (d: Departure<S>)
        requires
            self.id is Some,
        ensures
            final(rooms)@ == rooms_after_leave(old(rooms)@, *self),
            d@ == departure(old(rooms)@, *self),
    {
        let id = self.id.unwrap();
        let ghost rooms0 = rooms@;
        let ghost name = self.room@;
        if id == 0 {
            match rooms.remove(self.room.as_str()) {
                Some(room) => Departure::HostLeft(room.players),
                None => Departure::NoRoom,
            }
        } else {
            match rooms.remove(self.room.as_str()) {
                Some(room) => {
                    let Room { seed, started, nextid, players } = room;
                    let kept = remove_address(players, self.addr);
                    if kept.len() > 0 {
                        let new_room = Room { seed, started, nextid, players: kept };
                        rooms.insert(self.room.clone(), new_room);
                        proof {
                            assert(rooms0.remove(name).insert(name, new_room@) =~= rooms0.insert(
                                name,
                                new_room@,
                            ));
                        }
                    } else {
                        assert(players_view(kept@).len() == 0);
                    }
                    Departure::GuestLeft(WsMessage::Binary(bytes2(PLAYER_LEAVE_EVENT, id)))
                },
                None => {
                    assert(rooms0.remove(name) =~= rooms0);
                    Departure::NoRoom
                },
            }
        }
    }
}

} // verus!
