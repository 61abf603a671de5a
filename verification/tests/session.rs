use cake_server::message::{CloseFrame, Outgoing, Recipient, WsMessage};
use cake_server::rooms::{PeerAddr, Player, Room, RoomMap};
use cake_server::session::{relay_binary, relay_chat, Delivery, Departure, GameSession};
use cake_server::wire::id_to_bytes;

fn addr(port: u16) -> PeerAddr {
    PeerAddr { v6: false, ip: 0x0a00_0001, port, flowinfo: 0, scope_id: 0 }
}

fn session(port: u16, name: &str, skin: u8, seed: usize, room: &str) -> GameSession {
    GameSession {
        addr: addr(port),
        username: name.to_string(),
        skin,
        seed,
        room: room.to_string(),
        id: None,
    }
}

fn out(to: Recipient, msg: WsMessage) -> Outgoing {
    Outgoing { to, msg }
}

fn bin(v: &[u8]) -> WsMessage {
    WsMessage::Binary(v.to_vec())
}

fn text(t: &str) -> WsMessage {
    WsMessage::Text(t.to_string())
}

/// A room "r" with a host (port 1, id 0) and a guest (port 2, id 1).
fn two_player_rooms() -> (RoomMap<u32>, GameSession, GameSession) {
    let mut rooms: RoomMap<u32> = RoomMap::new();
    let mut host = session(1, "host", 0, 300, "r");
    host.start(&mut rooms, 10);
    let mut guest = session(2, "bob", 2, 5, "r");
    guest.start(&mut rooms, 20);
    (rooms, host, guest)
}

#[test]
fn first_session_creates_room_and_hosts() {
    let mut rooms: RoomMap<u32> = RoomMap::new();
    let mut host = session(1, "host", 1, 300, "r");
    let sent = host.start(&mut rooms, 10);
    assert_eq!(host.id, Some(0));
    assert_eq!(sent, vec![out(Recipient::Own, bin(&[69]))]);
    let room = rooms.get("r").unwrap();
    assert_eq!(room.seed, 300);
    assert!(!room.started);
    assert_eq!(room.players.len(), 1);
    assert_eq!(room.players[0].id, 0);
    assert_eq!(room.players[0].sender, 10);
    assert_eq!(room.players[0].username, "host");
}

#[test]
fn second_session_joins_and_greets() {
    let mut rooms: RoomMap<u32> = RoomMap::new();
    let mut host = session(1, "host", 1, 300, "r");
    host.start(&mut rooms, 10);
    let mut guest = session(2, "bob", 2, 5, "r");
    let sent = guest.start(&mut rooms, 20);
    assert_eq!(guest.id, Some(1));
    // seed 300 is sent truncated to a byte
    assert_eq!(
        sent,
        vec![
            out(Recipient::Own, bin(&[42, 44])),
            out(Recipient::Player(0), bin(&[0, 1, 2])),
            out(Recipient::Player(0), text("9,1,bob")),
            out(Recipient::Own, bin(&[0, 0, 1])),
            out(Recipient::Own, text("9,0,host")),
        ]
    );
    let room = rooms.get("r").unwrap();
    assert_eq!(room.seed, 300);
    assert_eq!(room.players.len(), 2);
    assert_eq!(room.players[1].sender, 20);
    // the entry's id is the number of rooms when the room already existed
    assert_eq!(room.players[1].id, 1);
}

#[test]
fn entry_id_counts_rooms() {
    let mut rooms: RoomMap<u32> = RoomMap::new();
    session(1, "a", 0, 0, "x").start(&mut rooms, 1);
    session(2, "b", 0, 0, "y").start(&mut rooms, 2);
    session(3, "c", 0, 0, "z").start(&mut rooms, 3);
    let mut late = session(4, "d", 0, 0, "x");
    late.start(&mut rooms, 4);
    assert_eq!(late.id, Some(1));
    assert_eq!(rooms.get("x").unwrap().players[1].id, 3);
}

#[test]
fn chat_is_tagged_with_sender_id() {
    assert_eq!(relay_chat(&"8hello".to_string(), 12), "8,12,hello");
    assert_eq!(relay_chat(&"8".to_string(), 0), "8,0,");
    let (rooms, _host, guest) = two_player_rooms();
    let plan = guest.recv(&rooms, &text("8hi")).unwrap();
    assert_eq!(plan.deliveries, vec![Delivery::Send(text("8,1,hi")), Delivery::Keep]);
    assert!(!plan.started);
    let plan = guest.recv(&rooms, &text("hello")).unwrap();
    assert_eq!(plan.deliveries, vec![Delivery::Keep, Delivery::Keep]);
}

#[test]
fn binary_rules() {
    // sizes 44, 36, 8, 32: sender id as float bytes after the first four bytes
    let v: Vec<u8> = (1..=8).collect();
    let mut expected = vec![1, 2, 3, 4];
    expected.extend_from_slice(&id_to_bytes(5));
    expected.extend_from_slice(&[5, 6, 7, 8]);
    assert_eq!(relay_binary(&v, 5, 0), expected);
    for n in [32usize, 36, 44] {
        let v = vec![9u8; n];
        let r = relay_binary(&v, 2, 0);
        assert_eq!(r.len(), n + 4);
        assert_eq!(&r[4..8], &(2.0f32).to_le_bytes());
    }
    // size 40 addressed to the recipient: cake spawn from the sender
    let mut v = vec![0u8; 40];
    v[4..8].copy_from_slice(&(7.0f32).to_le_bytes());
    for (i, b) in v.iter_mut().enumerate().skip(8) {
        *b = i as u8;
    }
    let r = relay_binary(&v, 3, 7);
    let mut expected = Vec::new();
    expected.extend_from_slice(&(3.0f32).to_le_bytes());
    expected.extend_from_slice(&(3.0f32).to_le_bytes());
    expected.extend_from_slice(&v[8..]);
    assert_eq!(r, expected);
    // size 40 addressed to someone else: unchanged
    assert_eq!(relay_binary(&v, 3, 6), v);
    // lobby start from the host: unchanged
    assert_eq!(relay_binary(&vec![7, 1, 2], 0, 1), vec![7, 1, 2]);
    // lobby start from a guest, and anything else: sender id after the first byte
    assert_eq!(relay_binary(&vec![7, 1, 2], 4, 1), vec![7, 4, 1, 2]);
    assert_eq!(relay_binary(&vec![2], 4, 1), vec![2, 4]);
}

#[test]
fn relay_plans_per_player() {
    let (rooms, host, guest) = two_player_rooms();
    // guest sends a death event: the host gets it with the guest's id
    let plan = guest.recv(&rooms, &bin(&[2, 9])).unwrap();
    assert_eq!(plan.deliveries, vec![Delivery::Send(bin(&[2, 1, 9])), Delivery::Keep]);
    // an empty binary message drops the other players
    let plan = guest.recv(&rooms, &bin(&[])).unwrap();
    assert_eq!(plan.deliveries, vec![Delivery::Drop, Delivery::Keep]);
    // ping, pong and close are not relayed
    let plan = guest.recv(&rooms, &WsMessage::Ping(vec![1])).unwrap();
    assert_eq!(plan.deliveries, vec![Delivery::Keep, Delivery::Keep]);
    let plan = guest.recv(&rooms, &WsMessage::Close(None)).unwrap();
    assert_eq!(plan.deliveries, vec![Delivery::Keep, Delivery::Keep]);
    // the host starts the lobby: everyone gets it, the host too
    let plan = host.recv(&rooms, &bin(&[7])).unwrap();
    assert_eq!(plan.deliveries, vec![Delivery::Send(bin(&[7])), Delivery::Send(bin(&[7]))]);
    assert!(plan.started);
    // a guest's lobby start only starts it through the echo to the guest itself
    let plan = guest.recv(&rooms, &bin(&[7])).unwrap();
    assert_eq!(plan.deliveries, vec![Delivery::Send(bin(&[7, 1])), Delivery::Send(bin(&[7]))]);
    assert!(plan.started);
    // a close whose reason begins with U+0007 comes back to its sender
    let close = WsMessage::Close(Some(CloseFrame { code: 1000, reason: "\u{7}x".to_string() }));
    let plan = guest.recv(&rooms, &close).unwrap();
    assert_eq!(plan.deliveries[1], Delivery::Send(close));
    // no room, no plan
    let lost = GameSession { room: "nowhere".to_string(), ..guest };
    assert!(lost.recv(&rooms, &bin(&[1])).is_none());
}

#[test]
fn relay_keeps_only_delivered() {
    let (mut rooms, host, guest) = two_player_rooms();
    let mut third = session(3, "eve", 1, 0, "r");
    third.start(&mut rooms, 30);
    let plan = guest.recv(&rooms, &bin(&[2, 9])).unwrap();
    assert!(host.apply_relay(&mut rooms, plan, &vec![false, true, true]));
    let room = rooms.get("r").unwrap();
    let senders: Vec<u32> = room.players.iter().map(|p| p.sender).collect();
    assert_eq!(senders, vec![20, 30]);
    assert_eq!(room.seed, 300);
    // a plan that does not fit changes nothing
    let plan = guest.recv(&rooms, &bin(&[2, 9])).unwrap();
    assert!(!guest.apply_relay(&mut rooms, plan, &vec![true]));
    assert_eq!(rooms.get("r").unwrap().players.len(), 2);
}

#[test]
fn started_lobby_stays_started() {
    let (mut rooms, host, guest) = two_player_rooms();
    let plan = host.recv(&rooms, &bin(&[7])).unwrap();
    host.apply_relay(&mut rooms, plan, &vec![true, true]);
    assert!(rooms.get("r").unwrap().started);
    let plan = guest.recv(&rooms, &bin(&[2])).unwrap();
    assert!(plan.started);
    guest.apply_relay(&mut rooms, plan, &vec![true, true]);
    assert!(rooms.get("r").unwrap().started);
}

#[test]
fn guest_leaving_notifies_the_rest() {
    let (mut rooms, _host, guest) = two_player_rooms();
    match guest.disonnect(&mut rooms) {
        Departure::GuestLeft(m) => assert_eq!(m, bin(&[5, 1])),
        other => panic!("unexpected {:?}", other),
    }
    let room = rooms.get("r").unwrap();
    assert_eq!(room.players.len(), 1);
    assert_eq!(room.players[0].sender, 10);
}

#[test]
fn host_leaving_closes_the_room() {
    let (mut rooms, host, _guest) = two_player_rooms();
    match host.disonnect(&mut rooms) {
        Departure::HostLeft(ps) => {
            let senders: Vec<u32> = ps.iter().map(|p| p.sender).collect();
            assert_eq!(senders, vec![10, 20]);
        }
        other => panic!("unexpected {:?}", other),
    }
    assert!(!rooms.contains("r"));
    assert_eq!(rooms.len(), 0);
}

#[test]
fn last_guest_leaving_removes_the_room() {
    let mut rooms: RoomMap<u32> = RoomMap::new();
    let mut players = Vec::new();
    players.push(Player { addr: addr(2), sender: 20u32, username: "g".to_string(), skin: 0, id: 1 });
    rooms.insert("r".to_string(), Room { seed: 1, started: true, nextid: 0, players });
    let guest = GameSession { id: Some(1), ..session(2, "g", 0, 0, "r") };
    assert!(matches!(guest.disonnect(&mut rooms), Departure::GuestLeft(_)));
    assert!(!rooms.contains("r"));
    let gone = GameSession { id: Some(0), ..session(9, "h", 0, 0, "r") };
    assert!(matches!(gone.disonnect(&mut rooms), Departure::NoRoom));
    let gone = GameSession { id: Some(3), ..session(9, "h", 0, 0, "r") };
    assert!(matches!(gone.disonnect(&mut rooms), Departure::NoRoom));
}

#[test]
fn guest_join_then_leave_restores_rooms() {
    let mut rooms: RoomMap<u32> = RoomMap::new();
    let mut host = session(1, "host", 0, 77, "r");
    host.start(&mut rooms, 10);
    let mut guest = session(2, "bob", 2, 5, "r");
    guest.start(&mut rooms, 20);
    guest.disonnect(&mut rooms);
    let room = rooms.get("r").unwrap();
    assert_eq!(rooms.len(), 1);
    assert_eq!(room.players.len(), 1);
    assert_eq!(room.players[0].sender, 10);
    assert_eq!(room.players[0].id, 0);
    assert_eq!(room.seed, 77);
    assert!(!room.started);
}

#[test]
fn other_rooms_untouched() {
    let mut rooms: RoomMap<u32> = RoomMap::new();
    session(1, "a", 0, 11, "x").start(&mut rooms, 1);
    let mut host_y = session(2, "b", 0, 22, "y");
    host_y.start(&mut rooms, 2);
    let mut guest_y = session(3, "c", 0, 0, "y");
    guest_y.start(&mut rooms, 3);
    guest_y.disonnect(&mut rooms);
    host_y.disonnect(&mut rooms);
    let x = rooms.get("x").unwrap();
    assert_eq!(x.seed, 11);
    assert_eq!(x.players.len(), 1);
    assert_eq!(x.players[0].sender, 1);
    assert!(!rooms.contains("y"));
}
