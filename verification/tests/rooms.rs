use cake_server::rooms::{PeerAddr, Player, Room, RoomMap};

fn addr(port: u16) -> PeerAddr {
    PeerAddr { v6: false, ip: 0x7f00_0001, port, flowinfo: 0, scope_id: 0 }
}

fn room(seed: usize, n: u8) -> Room<u32> {
    let mut players = Vec::new();
    for i in 0..n {
        players.push(Player {
            addr: addr(1000 + i as u16),
            sender: i as u32,
            username: format!("p{}", i),
            skin: 0,
            id: i,
        });
    }
    Room { seed, started: false, nextid: 0, players }
}

#[test]
fn room_map_insert_get_remove() {
    let mut rooms: RoomMap<u32> = RoomMap::new();
    assert_eq!(rooms.len(), 0);
    assert!(!rooms.contains("a"));
    rooms.insert("a".to_string(), room(1, 1));
    rooms.insert("b".to_string(), room(2, 2));
    assert_eq!(rooms.len(), 2);
    assert!(rooms.contains("a"));
    assert_eq!(rooms.get("b").unwrap().seed, 2);
    assert_eq!(rooms.get("b").unwrap().players.len(), 2);
    assert!(rooms.get("c").is_none());
    // replacing keeps one room per name
    rooms.insert("a".to_string(), room(9, 3));
    assert_eq!(rooms.len(), 2);
    assert_eq!(rooms.get("a").unwrap().seed, 9);
    let taken = rooms.remove("a").unwrap();
    assert_eq!(taken.seed, 9);
    assert_eq!(rooms.len(), 1);
    assert!(rooms.remove("a").is_none());
    assert!(rooms.contains("b"));
}

#[test]
fn peer_addresses_compare_by_all_fields() {
    let a = addr(1);
    assert_eq!(a, addr(1));
    assert_ne!(a, addr(2));
    assert_ne!(a, PeerAddr { v6: true, ..a });
    assert_ne!(a, PeerAddr { scope_id: 1, ..a });
}
