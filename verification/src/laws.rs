//! Properties of the room logic that hold across its operations.
use vstd::prelude::*;
use crate::handshake::{UpgradePlanView, query_value, upgrade_plan};
use crate::message::{MessageView, OutgoingView, Recipient, payload_starts_with_seven};
use crate::rooms::{PeerAddr, PlayerView, RoomView};
use crate::session::{
    DeliveryView, GameSession, RelayPlanView, binary_for_peer, delivery_for, greetings,
    join_messages, keeps, kept_players, players_except, relay_plan, room_after_relay,
    rooms_after_join, rooms_after_leave, session_id, departure, DepartureView,
};
use crate::wire::{decimal, id_bytes, id_of_bytes, lemma_id_bytes_roundtrip, parse_unsigned};

verus! {

proof fn lemma_players_except_absent<S>(ps: Seq<PlayerView<S>>, addr: PeerAddr)
    ensures
        forall|i: int|
            0 <= i < players_except(ps, addr).len() ==> #[trigger] players_except(
                ps,
                addr,
            )[i].addr != addr,
    decreases ps.len(),
{
    if ps.len() > 0 {
        lemma_players_except_absent(ps.drop_last(), addr);
        let r = players_except(ps.drop_last(), addr);
        let k = players_except(ps, addr);
        assert forall|i: int| 0 <= i < k.len() implies #[trigger] k[i].addr != addr by {
            if i < r.len() {
                assert(k[i] == r[i]);
            }
        }
    }
}

proof fn lemma_players_except_none<S>(ps: Seq<PlayerView<S>>, addr: PeerAddr)
    requires
        forall|i: int| 0 <= i < ps.len() ==> #[trigger] ps[i].addr != addr,
    ensures
        players_except(ps, addr) == ps,
    decreases ps.len(),
{
    if ps.len() > 0 {
        lemma_players_except_none(ps.drop_last(), addr);
        assert(ps.drop_last().push(ps.last()) =~= ps);
    }
}

/// A guest who joins a room and then leaves it leaves the table of rooms as it
/// found it, provided no player already in the room has the guest's address
/// and the guest did not get id 0 (which makes a session the host).
pub proof fn lemma_guest_join_then_leave<S>(
    rooms: Map<Seq<char>, RoomView<S>>,
    s: GameSession,
    sender: S,
)
    requires
        rooms.contains_key(s.room@),
        session_id(rooms, s.room@) != 0,
        forall|i: int|
            0 <= i < rooms[s.room@].players.len() ==> #[trigger] rooms[s.room@].players[i].addr
                != s.addr,
    ensures
        rooms_after_leave(
            rooms_after_join(rooms, s, sender),
            GameSession { id: Some(session_id(rooms, s.room@)), ..s },
        ) == rooms,
{
    let name = s.room@;
    let room = rooms[name];
    let joined = rooms_after_join(rooms, s, sender);
    let ps = joined[name].players;
    assert(ps.drop_last() =~= room.players);
    lemma_players_except_none(room.players, s.addr);
    assert(players_except(ps, s.addr) == room.players);
    assert(room.players.len() > 0);
    assert(RoomView { players: room.players, ..joined[name] } == room);
    assert(joined.insert(name, room) =~= rooms);
}

/// After a guest leaves, no player with the guest's address is left in the room.
pub proof fn lemma_guest_gone_after_leave<S>(rooms: Map<Seq<char>, RoomView<S>>, s: GameSession)
    requires
        s.id is Some,
        s.id != Some(0u8),
    ensures
        rooms_after_leave(rooms, s).contains_key(s.room@) ==> forall|i: int|
            0 <= i < rooms_after_leave(rooms, s)[s.room@].players.len()
                ==> #[trigger] rooms_after_leave(rooms, s)[s.room@].players[i].addr != s.addr,
{
    if rooms.contains_key(s.room@) {
        lemma_players_except_absent(rooms[s.room@].players, s.addr);
    }
}

/// Joining or leaving one room leaves every other room as it was.
pub proof fn lemma_other_rooms_untouched<S>(
    rooms: Map<Seq<char>, RoomView<S>>,
    s: GameSession,
    sender: S,
    other: Seq<char>,
)
    requires
        other != s.room@,
    ensures
        rooms_after_join(rooms, s, sender).contains_key(other) == rooms.contains_key(other),
        rooms_after_leave(rooms, s).contains_key(other) == rooms.contains_key(other),
        rooms.contains_key(other) ==> rooms_after_join(rooms, s, sender)[other] == rooms[other],
        rooms.contains_key(other) ==> rooms_after_leave(rooms, s)[other] == rooms[other],
{
}

proof fn lemma_kept_players_from<S>(ps: Seq<PlayerView<S>>, ds: Seq<DeliveryView>, ok: Seq<bool>)
    ensures
        kept_players(ps, ds, ok).len() <= ps.len(),
        forall|j: int|
            0 <= j < kept_players(ps, ds, ok).len() ==> ps.contains(
                #[trigger] kept_players(ps, ds, ok)[j],
            ),
        forall|i: int|
            0 <= i < ps.len() && keeps(ds[i], ok[i]) ==> kept_players(ps, ds, ok).contains(
                #[trigger] ps[i],
            ),
    decreases ps.len(),
{
    if ps.len() > 0 {
        let pre = ps.drop_last();
        lemma_kept_players_from(pre, ds, ok);
        let k = kept_players(ps, ds, ok);
        let kp = kept_players(pre, ds, ok);
        assert forall|j: int| 0 <= j < k.len() implies ps.contains(#[trigger] k[j]) by {
            if j < kp.len() {
                assert(k[j] == kp[j]);
                assert(pre.contains(kp[j]));
                let w = choose|w: int| 0 <= w < pre.len() && pre[w] == kp[j];
                assert(ps[w] == kp[j]);
            } else {
                assert(k[j] == ps[ps.len() - 1]);
            }
        }
        assert forall|i: int| 0 <= i < ps.len() && keeps(ds[i], ok[i]) implies k.contains(
            #[trigger] ps[i],
        ) by {
            if i < ps.len() - 1 {
                assert(pre[i] == ps[i]);
                assert(kp.contains(pre[i]));
                let w = choose|w: int| 0 <= w < kp.len() && kp[w] == pre[i];
                assert(k[w] == kp[w]);
            } else {
                assert(k[k.len() - 1] == ps[i]);
            }
        }
    }
}

/// A relay never brings anyone into a room: every player after it was in the
/// room before; every player whose delivery keeps them (nothing to send, or a
/// send that went through) is still there; and the room's seed stays.
pub proof fn lemma_relay_only_removes<S>(room: RoomView<S>, plan: RelayPlanView, ok: Seq<bool>)
    ensures
        room_after_relay(room, plan, ok).players.len() <= room.players.len(),
        forall|j: int|
            0 <= j < room_after_relay(room, plan, ok).players.len() ==> room.players.contains(
                #[trigger] room_after_relay(room, plan, ok).players[j],
            ),
        forall|i: int|
            0 <= i < room.players.len() && keeps(plan.deliveries[i], ok[i])
                ==> room_after_relay(room, plan, ok).players.contains(#[trigger] room.players[i]),
        room_after_relay(room, plan, ok).seed == room.seed,
        room_after_relay(room, plan, ok).nextid == room.nextid,
{
    lemma_kept_players_from(room.players, plan.deliveries, ok);
}

/// Once a room's lobby has started, no relay stops it.
pub proof fn lemma_started_stays<S>(
    room: RoomView<S>,
    sid: u8,
    saddr: PeerAddr,
    m: MessageView,
    ok: Seq<bool>,
)
    requires
        room.started,
    ensures
        room_after_relay(room, relay_plan(room, sid, saddr, m), ok).started,
{
}

/// A player's own message comes back to them only when its payload begins
/// with the byte 7, and then unchanged.
pub proof fn lemma_echo_only_lobby_start<S>(
    sid: u8,
    saddr: PeerAddr,
    p: PlayerView<S>,
    m: MessageView,
)
    requires
        p.addr == saddr,
    ensures
        delivery_for(sid, saddr, p, m) is Send <==> payload_starts_with_seven(m),
        delivery_for(sid, saddr, p, m) matches DeliveryView::Send(sent) ==> sent == m,
        !(delivery_for(sid, saddr, p, m) is Drop),
{
}

/// A connection is never made a session of a room whose lobby has started.
pub proof fn lemma_no_join_into_started_room<S>(
    pairs: Seq<(Seq<char>, Seq<char>)>,
    rooms: Map<Seq<char>, RoomView<S>>,
    addr: PeerAddr,
)
    ensures
        upgrade_plan(pairs, rooms, addr) matches UpgradePlanView::Join { room, .. } ==> !(
        rooms.contains_key(room) && rooms[room].started),
{
}

// ------------------------------------------------------------------
// What a binary message becomes on its way to another player
// ------------------------------------------------------------------

/// The layout of a relayed binary message `v` (not empty) from player `sid`
/// to player `recp_id`, byte by byte:
/// - 44, 36, 8 or 32 bytes: the first four bytes, then four bytes that read
///   back as `sid`, then the rest of `v`;
/// - 40 bytes whose bytes 4..8 read back as `recp_id`: four bytes that read
///   back as 3 (a cake spawn), four that read back as `sid`, then bytes 8.. of
///   `v`; addressed to anyone else, `v` itself;
/// - a lobby start (first byte 7) from player 0: `v` itself;
/// - anything else: the first byte, then `sid`, then the rest of `v`.
pub proof fn lemma_relayed_binary_layout(v: Seq<u8>, sid: u8, recp_id: u8)
    requires
        v.len() > 0,
    ensures
        ({
            let r = binary_for_peer(v, sid, recp_id);
            let n = v.len();
            &&& (n == 44 || n == 36 || n == 8 || n == 32) ==> {
                &&& r.len() == n + 4
                &&& r.take(4) == v.take(4)
                &&& id_of_bytes(r.subrange(4, 8)) == sid
                &&& r.skip(8) == v.skip(4)
            }
            &&& (n == 40 && id_of_bytes(v.subrange(4, 8)) == recp_id) ==> {
                &&& r.len() == 40
                &&& id_of_bytes(r.subrange(0, 4)) == 3
                &&& id_of_bytes(r.subrange(4, 8)) == sid
                &&& r.skip(8) == v.skip(8)
            }
            &&& (n == 40 && id_of_bytes(v.subrange(4, 8)) != recp_id) ==> r == v
            &&& !(n == 44 || n == 36 || n == 8 || n == 32 || n == 40) && v[0] == 7 && sid == 0
                ==> r == v
            &&& !(n == 44 || n == 36 || n == 8 || n == 32 || n == 40) && !(v[0] == 7 && sid == 0)
                ==> {
                &&& r.len() == n + 1
                &&& r[0] == v[0]
                &&& r[1] == sid
                &&& r.skip(2) == v.skip(1)
            }
        }),
{
    let n = v.len();
    if n == 44 || n == 36 || n == 8 || n == 32 {
        lemma_layout_with_id(v, sid, recp_id);
    } else if n == 40 && id_of_bytes(v.subrange(4, 8)) == recp_id {
        lemma_layout_cake(v, sid, recp_id);
    } else if !(n == 40) && !(v[0] == 7 && sid == 0) {
        let r = binary_for_peer(v, sid, recp_id);
        assert(r.skip(2) =~= v.skip(1));
    }
}

proof fn lemma_layout_with_id(v: Seq<u8>, sid: u8, recp_id: u8)
    requires
        v.len() == 44 || v.len() == 36 || v.len() == 8 || v.len() == 32,
    ensures
        binary_for_peer(v, sid, recp_id).len() == v.len() + 4,
        binary_for_peer(v, sid, recp_id).take(4) == v.take(4),
        id_of_bytes(binary_for_peer(v, sid, recp_id).subrange(4, 8)) == sid,
        binary_for_peer(v, sid, recp_id).skip(8) == v.skip(4),
{
    let r = binary_for_peer(v, sid, recp_id);
    lemma_id_bytes_roundtrip(sid);
    assert(r.subrange(4, 8) =~= id_bytes(sid));
    assert(r.take(4) =~= v.take(4));
    assert(r.skip(8) =~= v.skip(4));
}

/// A cake message reaching the player it is addressed to starts with the
/// float bytes of the cake spawn event 3, then those of the sender's id.
proof fn lemma_layout_cake(v: Seq<u8>, sid: u8, recp_id: u8)
    requires
        v.len() == 40,
        id_of_bytes(v.subrange(4, 8)) == recp_id,
    ensures
        binary_for_peer(v, sid, recp_id).len() == 40,
        id_of_bytes(binary_for_peer(v, sid, recp_id).subrange(0, 4)) == 3,
        id_of_bytes(binary_for_peer(v, sid, recp_id).subrange(4, 8)) == sid,
        binary_for_peer(v, sid, recp_id).skip(8) == v.skip(8),
{
    let r = binary_for_peer(v, sid, recp_id);
    lemma_id_bytes_roundtrip(sid);
    lemma_id_bytes_roundtrip(3);
    assert(r.subrange(0, 4) =~= id_bytes(3));
    assert(r.subrange(4, 8) =~= id_bytes(sid));
    assert(r.skip(8) =~= v.skip(8));
}

// ------------------------------------------------------------------
// Who stays after a relay
// ------------------------------------------------------------------

proof fn lemma_kept_indices<S>(ps: Seq<PlayerView<S>>, ds: Seq<DeliveryView>, ok: Seq<bool>) -> (idx: Seq<int>)
    requires
        ds.len() >= ps.len(),
        ok.len() >= ps.len(),
    ensures
        idx.len() == kept_players(ps, ds, ok).len(),
        forall|j: int|
            0 <= j < idx.len() ==> 0 <= #[trigger] idx[j] < ps.len() && kept_players(
                ps,
                ds,
                ok,
            )[j] == ps[idx[j]],
        forall|j: int, l: int| 0 <= j < l < idx.len() ==> idx[j] < idx[l],
        forall|i: int|
            #![trigger idx.contains(i)]
            #![trigger ds[i]]
            0 <= i < ps.len() ==> (idx.contains(i) <==> (ds[i] is Keep || (ds[i] is Send
                && ok[i]))),
    decreases ps.len(),
{
    if ps.len() == 0 {
        seq![]
    } else {
        let n = ps.len() - 1;
        let pre = ps.drop_last();
        let ip = lemma_kept_indices(pre, ds, ok);
        let stays = ds[n] is Keep || (ds[n] is Send && ok[n]);
        assert(keeps(ds[n], ok[n]) == stays);
        let idx = if stays { ip.push(n) } else { ip };
        let k = kept_players(ps, ds, ok);
        let kp = kept_players(pre, ds, ok);
        assert forall|j: int| 0 <= j < idx.len() implies 0 <= #[trigger] idx[j] < ps.len() && k[j]
            == ps[idx[j]] by {
            if j < ip.len() {
                assert(idx[j] == ip[j]);
                assert(k[j] == kp[j]);
                assert(pre[ip[j]] == ps[ip[j]]);
            }
        }
        assert forall|i: int| #![trigger idx.contains(i)] #![trigger ds[i]]
            0 <= i < ps.len() implies (idx.contains(i) <==> (ds[i] is Keep || (
        ds[i] is Send && ok[i]))) by {
            if i < n {
                assert(ip.contains(i) <==> (ds[i] is Keep || (ds[i] is Send && ok[i])));
                if ip.contains(i) {
                    let w = choose|w: int| 0 <= w < ip.len() && ip[w] == i;
                    assert(idx[w] == i);
                }
                if idx.contains(i) {
                    let w = choose|w: int| 0 <= w < idx.len() && idx[w] == i;
                    if w < ip.len() {
                        assert(ip[w] == i);
                    }
                }
            } else {
                if stays {
                    assert(idx[idx.len() - 1] == n);
                }
                if idx.contains(i) && !stays {
                    let w = choose|w: int| 0 <= w < idx.len() && idx[w] == i;
                    assert(idx[w] == ip[w]);
                    assert(ip[w] < n);
                }
            }
        }
        idx
    }
}

/// The players after a relay are exactly those, in their order, whose
/// delivery is to keep them (whatever outcome is reported for them) or a send
/// that went through: the returned positions pick them out of the room.
pub proof fn lemma_relay_keeps_exactly<S>(room: RoomView<S>, plan: RelayPlanView, ok: Seq<bool>) -> (idx: Seq<int>)
    requires
        plan.deliveries.len() == room.players.len(),
        ok.len() == room.players.len(),
    ensures
        idx.len() == room_after_relay(room, plan, ok).players.len(),
        forall|j: int|
            0 <= j < idx.len() ==> 0 <= #[trigger] idx[j] < room.players.len() && room_after_relay(
                room,
                plan,
                ok,
            ).players[j] == room.players[idx[j]],
        forall|j: int, l: int| 0 <= j < l < idx.len() ==> idx[j] < idx[l],
        forall|i: int|
            #![trigger idx.contains(i)]
            #![trigger plan.deliveries[i]]
            0 <= i < room.players.len() ==> (idx.contains(i) <==> (plan.deliveries[i] is Keep || (
            plan.deliveries[i] is Send && ok[i]))),
{
    lemma_kept_indices(room.players, plan.deliveries, ok)
}

// ------------------------------------------------------------------
// What a join sends
// ------------------------------------------------------------------

/// The number of players of `ps` whose address is not `addr`.
pub open spec fn count_others<S>(ps: Seq<PlayerView<S>>, addr: PeerAddr) -> nat
    decreases ps.len(),
{
    if ps.len() == 0 {
        0
    } else {
        count_others(ps.drop_last(), addr) + if ps.last().addr != addr {
            1nat
        } else {
            0nat
        }
    }
}

/// The text `9,<id>,<name>`.
pub open spec fn name_text(id: u8, name: Seq<char>) -> Seq<char> {
    seq!['9', ','] + decimal(id as nat) + seq![','] + name
}

/// Whether `out` holds the four messages that the joining session `s` (with
/// id `sid`) and the player `p` at index `i` exchange.
pub open spec fn has_exchange<S>(out: Seq<OutgoingView>, i: int, sid: u8, s: GameSession, p: PlayerView<S>) -> bool {
    &&& out.contains(
        OutgoingView { to: Recipient::Player(i as usize), msg: MessageView::Binary(seq![0u8, sid, s.skin]) },
    )
    &&& out.contains(
        OutgoingView { to: Recipient::Player(i as usize), msg: MessageView::Text(name_text(sid, s.username@)) },
    )
    &&& out.contains(
        OutgoingView { to: Recipient::Own, msg: MessageView::Binary(seq![0u8, p.id, p.skin]) },
    )
    &&& out.contains(OutgoingView { to: Recipient::Own, msg: MessageView::Text(name_text(p.id, p.username)) })
}

proof fn lemma_contains_shift<A>(a: Seq<A>, b: Seq<A>, x: A)
    ensures
        a.contains(x) ==> (a + b).contains(x),
        b.contains(x) ==> (a + b).contains(x),
{
    if a.contains(x) {
        let w = choose|w: int| 0 <= w < a.len() && a[w] == x;
        assert((a + b)[w] == x);
    }
    if b.contains(x) {
        let w = choose|w: int| 0 <= w < b.len() && b[w] == x;
        assert((a + b)[a.len() + w] == x);
    }
}

proof fn lemma_has_exchange_shift<S>(a: Seq<OutgoingView>, b: Seq<OutgoingView>, i: int, sid: u8, s: GameSession, p: PlayerView<S>)
    ensures
        has_exchange(a, i, sid, s, p) ==> has_exchange(a + b, i, sid, s, p),
        has_exchange(b, i, sid, s, p) ==> has_exchange(a + b, i, sid, s, p),
{
    let m1 = OutgoingView { to: Recipient::Player(i as usize), msg: MessageView::Binary(seq![0u8, sid, s.skin]) };
    let m2 = OutgoingView { to: Recipient::Player(i as usize), msg: MessageView::Text(name_text(sid, s.username@)) };
    let m3 = OutgoingView { to: Recipient::Own, msg: MessageView::Binary(seq![0u8, p.id, p.skin]) };
    let m4 = OutgoingView { to: Recipient::Own, msg: MessageView::Text(name_text(p.id, p.username)) };
    lemma_contains_shift(a, b, m1);
    lemma_contains_shift(a, b, m2);
    lemma_contains_shift(a, b, m3);
    lemma_contains_shift(a, b, m4);
}

proof fn lemma_greetings<S>(ps: Seq<PlayerView<S>>, sid: u8, s: GameSession)
    ensures
        greetings(ps, sid, s).len() == 4 * count_others(ps, s.addr),
        forall|i: int|
            0 <= i < ps.len() && ps[i].addr != s.addr ==> #[trigger] has_exchange(
                greetings(ps, sid, s),
                i,
                sid,
                s,
                ps[i],
            ),
    decreases ps.len(),
{
    reveal_with_fuel(decimal, 2);
    if ps.len() > 0 {
        let n = ps.len() - 1;
        let pre = ps.drop_last();
        lemma_greetings(pre, sid, s);
        let g = greetings(pre, sid, s);
        let last = crate::session::greeting(n, sid, s, ps[n]);
        assert(greetings(ps, sid, s) == g + last);
        assert(decimal(9) == seq!['9']);
        assert forall|i: int| 0 <= i < ps.len() && ps[i].addr != s.addr implies #[trigger] has_exchange(
            greetings(ps, sid, s),
            i,
            sid,
            s,
            ps[i],
        ) by {
            if i < n {
                assert(pre[i] == ps[i]);
                assert(has_exchange(g, i, sid, s, pre[i]));
                lemma_has_exchange_shift(g, last, i, sid, s, ps[i]);
            } else {
                assert(last[0] == OutgoingView { to: Recipient::Player(i as usize), msg: MessageView::Binary(seq![0u8, sid, s.skin]) });
                assert(crate::session::name_event(sid, s.username@) =~= name_text(sid, s.username@));
                assert(crate::session::name_event(ps[i].id, ps[i].username) =~= name_text(ps[i].id, ps[i].username));
                assert(last[1].msg == MessageView::Text(name_text(sid, s.username@)));
                assert(last[2] == OutgoingView { to: Recipient::Own, msg: MessageView::Binary(seq![0u8, ps[i].id, ps[i].skin]) });
                assert(last[3].msg == MessageView::Text(name_text(ps[i].id, ps[i].username)));
                assert(has_exchange(last, i, sid, s, ps[i]));
                lemma_has_exchange_shift(g, last, i, sid, s, ps[i]);
            }
        }
    }
}

/// What a join does and sends. The session's id is the number of players
/// already in the room (as a byte), or 0 when it creates the room. The room
/// keeps its players and gets the newcomer last (with the number of rooms, as a
/// byte, as its entry id), or is created with the newcomer alone and the
/// session's seed. The first message goes to the newcomer: 42 and the room's
/// seed (as a byte) when the room existed, 69 when the newcomer is its host.
/// Then, for every player of the room with another address, that player is
/// sent `[0, id, skin]` and `9,<id>,<name>` of the newcomer, and the newcomer is
/// sent the same of that player: four messages per other player, nothing else.
pub proof fn lemma_join<S>(rooms: Map<Seq<char>, RoomView<S>>, s: GameSession, sender: S)
    ensures
        ({
            let name = s.room@;
            let existed = rooms.contains_key(name);
            let after = rooms_after_join(rooms, s, sender);
            let ps = after[name].players;
            let sid: u8 = if existed {
                (rooms[name].players.len() % 256) as u8
            } else {
                0
            };
            let out = join_messages(rooms, s, sender);
            &&& session_id(rooms, name) == sid
            &&& after.contains_key(name)
            &&& existed ==> {
                &&& ps == rooms[name].players.push(
                    PlayerView {
                        addr: s.addr,
                        sender: sender,
                        username: s.username@,
                        skin: s.skin,
                        id: (rooms.dom().len() % 256) as u8,
                    },
                )
                &&& after[name].seed == rooms[name].seed
                &&& after[name].started == rooms[name].started
                &&& after[name].nextid == rooms[name].nextid
            }
            &&& !existed ==> {
                &&& ps == seq![
                    PlayerView {
                        addr: s.addr,
                        sender: sender,
                        username: s.username@,
                        skin: s.skin,
                        id: 0,
                    },
                ]
                &&& after[name].seed == s.seed
                &&& !after[name].started
            }
            &&& out.len() == 1 + 4 * count_others(ps, s.addr)
            &&& out[0] == OutgoingView {
                to: Recipient::Own,
                msg: if existed {
                    MessageView::Binary(seq![42u8, (rooms[name].seed % 256) as u8])
                } else {
                    MessageView::Binary(seq![69u8])
                },
            }
            &&& forall|i: int|
                0 <= i < ps.len() && ps[i].addr != s.addr ==> #[trigger] has_exchange(
                    out,
                    i,
                    sid,
                    s,
                    ps[i],
                )
        }),
{
    let name = s.room@;
    let after = rooms_after_join(rooms, s, sender);
    let ps = after[name].players;
    let sid = session_id(rooms, name);
    lemma_greetings(ps, sid, s);
    let head = seq![OutgoingView { to: Recipient::Own, msg: crate::session::welcome(rooms, name) }];
    let g = greetings(ps, sid, s);
    assert(join_messages(rooms, s, sender) == head + g);
    assert forall|i: int| 0 <= i < ps.len() && ps[i].addr != s.addr implies #[trigger] has_exchange(
        join_messages(rooms, s, sender),
        i,
        sid,
        s,
        ps[i],
    ) by {
        assert(has_exchange(g, i, sid, s, ps[i]));
        lemma_has_exchange_shift(head, g, i, sid, s, ps[i]);
    }
}

// ------------------------------------------------------------------
// What a departure does
// ------------------------------------------------------------------

proof fn lemma_players_except_members<S>(ps: Seq<PlayerView<S>>, addr: PeerAddr)
    ensures
        forall|i: int|
            0 <= i < ps.len() && ps[i].addr != addr ==> players_except(ps, addr).contains(
                #[trigger] ps[i],
            ),
        forall|j: int|
            0 <= j < players_except(ps, addr).len() ==> ps.contains(
                #[trigger] players_except(ps, addr)[j],
            ),
        players_except(ps, addr).len() > 0 <==> exists|i: int|
            0 <= i < ps.len() && #[trigger] ps[i].addr != addr,
    decreases ps.len(),
{
    if ps.len() > 0 {
        let n = ps.len() - 1;
        let pre = ps.drop_last();
        lemma_players_except_members(pre, addr);
        let k = players_except(ps, addr);
        let kp = players_except(pre, addr);
        assert forall|i: int| 0 <= i < ps.len() && ps[i].addr != addr implies k.contains(
            #[trigger] ps[i],
        ) by {
            if i < n {
                assert(pre[i] == ps[i]);
                let w = choose|w: int| 0 <= w < kp.len() && kp[w] == pre[i];
                assert(k[w] == kp[w]);
            } else {
                assert(k[k.len() - 1] == ps[i]);
            }
        }
        assert forall|j: int| 0 <= j < k.len() implies ps.contains(#[trigger] k[j]) by {
            if j < kp.len() {
                assert(k[j] == kp[j]);
                let w = choose|w: int| 0 <= w < pre.len() && pre[w] == kp[j];
                assert(ps[w] == pre[w]);
            } else {
                assert(k[j] == ps[n]);
            }
        }
        if exists|i: int| 0 <= i < ps.len() && #[trigger] ps[i].addr != addr {
            let i = choose|i: int| 0 <= i < ps.len() && #[trigger] ps[i].addr != addr;
            assert(k.contains(ps[i]));
        }
        if k.len() > 0 {
            assert(ps.contains(k[0]));
            let w = choose|w: int| 0 <= w < ps.len() && ps[w] == k[0];
            lemma_players_except_absent(ps, addr);
            assert(ps[w].addr != addr);
        }
    }
}

/// What session `s` (with id `g`) leaving does. When its room is not there,
/// nothing changes. When `g` is 0 (the host), the room is removed and all its
/// players are to be sent a close. Otherwise every player is told `[5, g]`
/// (the leaver's own id); the players with another address than the leaver's
/// all stay, no one with the leaver's address stays, the room keeps its seed,
/// lobby state and next id, and it is removed exactly when no one is left.
pub proof fn lemma_leave<S>(rooms: Map<Seq<char>, RoomView<S>>, s: GameSession)
    requires
        s.id is Some,
    ensures
        ({
            let name = s.room@;
            let g = s.id->0;
            let after = rooms_after_leave(rooms, s);
            let d = departure(rooms, s);
            &&& !rooms.contains_key(name) ==> after == rooms && d == DepartureView::<S>::NoRoom
            &&& rooms.contains_key(name) && g == 0 ==> !after.contains_key(name) && d
                == DepartureView::HostLeft(rooms[name].players)
            &&& rooms.contains_key(name) && g != 0 ==> {
                let ps = rooms[name].players;
                &&& d == DepartureView::<S>::GuestLeft(MessageView::Binary(seq![5u8, g]))
                &&& after.contains_key(name) <==> exists|i: int|
                    0 <= i < ps.len() && #[trigger] ps[i].addr != s.addr
                &&& after.contains_key(name) ==> {
                    &&& after[name].seed == rooms[name].seed
                    &&& after[name].started == rooms[name].started
                    &&& after[name].nextid == rooms[name].nextid
                    &&& forall|i: int|
                        0 <= i < ps.len() && ps[i].addr != s.addr ==> after[name].players.contains(
                            #[trigger] ps[i],
                        )
                    &&& forall|j: int|
                        0 <= j < after[name].players.len() ==> #[trigger] after[name].players[j].addr
                            != s.addr && ps.contains(after[name].players[j])
                }
            }
        }),
{
    let name = s.room@;
    if !rooms.contains_key(name) {
        assert(rooms_after_leave(rooms, s) =~= rooms);
    } else if s.id->0 != 0 {
        lemma_players_except_members(rooms[name].players, s.addr);
        lemma_players_except_absent(rooms[name].players, s.addr);
    }
}

// ------------------------------------------------------------------
// What an upgraded connection is for
// ------------------------------------------------------------------

/// Reading a query: nothing is found in an empty one, a pair appended last
/// decides the value of its name, and a pair of another name does not matter.
pub proof fn lemma_query_value(pairs: Seq<(Seq<char>, Seq<char>)>, key: Seq<char>, other: Seq<char>, v: Seq<char>)
    ensures
        query_value(Seq::<(Seq<char>, Seq<char>)>::empty(), key) is None,
        query_value(pairs.push((key, v)), key) == Some(v),
        other != key ==> query_value(pairs.push((other, v)), key) == query_value(pairs, key),
{
    assert(pairs.push((key, v)).drop_last() =~= pairs);
    assert(pairs.push((other, v)).drop_last() =~= pairs);
}

/// What a connection with query `pairs` from `addr` is for. Without a `room`
/// it is closed with code 1007; for a room whose lobby has started, with code
/// 4001. Otherwise, when the `skin` text (`0` when absent) does not read as a
/// `u8`, the connection is dropped; when it reads as `k`, the connection is a
/// session of that room from `addr`, with no id yet, skin `k`, the `username`
/// (`balls_eater` when absent), and as seed the value `n` of the `seed` text
/// (`0` when absent) whenever it reads as a `usize`, or 0 when it does not.
pub proof fn lemma_upgrade_plan<S>(
    pairs: Seq<(Seq<char>, Seq<char>)>,
    rooms: Map<Seq<char>, RoomView<S>>,
    addr: PeerAddr,
)
    ensures
        ({
            let plan = upgrade_plan(pairs, rooms, addr);
            let skin_text = match query_value(pairs, "skin"@) {
                Some(t) => t,
                None => "0"@,
            };
            let seed_text = match query_value(pairs, "seed"@) {
                Some(t) => t,
                None => "0"@,
            };
            let username = match query_value(pairs, "username"@) {
                Some(t) => t,
                None => "balls_eater"@,
            };
            match query_value(pairs, "room"@) {
                None => plan == UpgradePlanView::Close(1007, "You're gay"@),
                Some(r) => if rooms.contains_key(r) && rooms[r].started {
                    plan == UpgradePlanView::Close(4001, "Room already started innit bruv"@)
                } else {
                    match parse_unsigned(skin_text, 255) {
                        None => plan == UpgradePlanView::BadSkin,
                        Some(k) => plan matches UpgradePlanView::Join {
                            addr: a,
                            username: u,
                            skin: sk,
                            seed: sd,
                            room: rm,
                            id: i,
                        } && a == addr && u == username && sk == k && rm == r && i is None && (
                        forall|n: nat| #[trigger]
                            parse_unsigned(seed_text, usize::MAX as nat) == Some(n) ==> sd == n) && (
                        parse_unsigned(seed_text, usize::MAX as nat) is None ==> sd == 0),
                    }
                },
            }
        }),
{
}

// ------------------------------------------------------------------
// What a relay sends to the other players, and when it starts the lobby
// ------------------------------------------------------------------

/// What player `p`, at another address than the sender `sid`, gets of a
/// message: a text whose first character is `8` (a chat) comes back as `8,`,
/// the sender's id, `,` and the rest of the text; other texts, pings, pongs,
/// closes and raw frames are not sent and the player stays; an empty binary
/// message takes the player out; any other binary message is sent, rewritten
/// as [`lemma_relayed_binary_layout`] says.
pub proof fn lemma_delivery_to_peer<S>(sid: u8, saddr: PeerAddr, p: PlayerView<S>, m: MessageView)
    requires
        p.addr != saddr,
    ensures
        match m {
            MessageView::Text(t) => if t.len() > 0 && t[0] == '8' {
                delivery_for(sid, saddr, p, m) == DeliveryView::Send(
                    MessageView::Text(seq!['8', ','] + decimal(sid as nat) + seq![','] + t.skip(1)),
                )
            } else {
                delivery_for(sid, saddr, p, m) == DeliveryView::Keep
            },
            MessageView::Binary(v) => if v.len() == 0 {
                delivery_for(sid, saddr, p, m) == DeliveryView::Drop
            } else {
                delivery_for(sid, saddr, p, m) == DeliveryView::Send(
                    MessageView::Binary(binary_for_peer(v, sid, p.id)),
                )
            },
            _ => delivery_for(sid, saddr, p, m) == DeliveryView::Keep,
        },
{
    if let MessageView::Text(t) = m {
        if t.len() > 0 && t[0] == '8' {
            assert(crate::wire::digit_char(8) == '8');
            assert(t.take(1) =~= seq!['8']);
            assert(crate::session::chat_for_peers(t, sid) =~= seq!['8', ','] + decimal(sid as nat)
                + seq![','] + t.skip(1));
        }
    }
}

/// Whether `m` is a lobby start from player `sid` as another player sees it:
/// `sid` is 0 and `m` is a binary message whose first byte is 7 and whose size
/// is none of 8, 32, 36, 40 and 44.
pub open spec fn is_host_lobby_start(sid: u8, m: MessageView) -> bool {
    sid == 0 && match m {
        MessageView::Binary(v) => v.len() > 0 && !(v.len() == 44 || v.len() == 36 || v.len() == 8
            || v.len() == 32 || v.len() == 40) && v[0] == 7,
        _ => false,
    }
}

/// A relay leaves the lobby started exactly when it was started already, or
/// when some other player receives a lobby start from player 0, or when the
/// message comes back to its sender because its payload begins with 7.
pub proof fn lemma_relay_starts_lobby<S>(room: RoomView<S>, sid: u8, saddr: PeerAddr, m: MessageView)
    ensures
        relay_plan(room, sid, saddr, m).started <==> (room.started || (exists|i: int|
            0 <= i < room.players.len() && #[trigger] room.players[i].addr != saddr
                && is_host_lobby_start(sid, m)) || (exists|i: int|
            0 <= i < room.players.len() && #[trigger] room.players[i].addr == saddr
                && payload_starts_with_seven(m))),
{
    let ps = room.players;
    if exists|i: int| 0 <= i < ps.len() && #[trigger] ps[i].addr != saddr && is_host_lobby_start(sid, m) {
        let i = choose|i: int| 0 <= i < ps.len() && #[trigger] ps[i].addr != saddr && is_host_lobby_start(sid, m);
        assert(crate::session::opens_lobby(sid, saddr, ps[i], m));
    }
    if exists|i: int| 0 <= i < ps.len() && #[trigger] ps[i].addr == saddr && payload_starts_with_seven(m) {
        let i = choose|i: int| 0 <= i < ps.len() && #[trigger] ps[i].addr == saddr && payload_starts_with_seven(m);
        assert(crate::session::opens_lobby(sid, saddr, ps[i], m));
    }
}

} // verus!
