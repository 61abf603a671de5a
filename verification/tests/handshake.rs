use cake_server::handshake::{
    handle_request, handshake_is_valid, header_has_token, plan_upgrade, query_lookup,
    HttpVersion, Reply, RequestHead, UpgradePlan, CLOSE_NO_ROOM, CLOSE_ROOM_STARTED,
};
use cake_server::message::CloseFrame;
use cake_server::rooms::{PeerAddr, Room, RoomMap};
use cake_server::session::GameSession;

fn addr() -> PeerAddr {
    PeerAddr { v6: true, ip: 1, port: 5000, flowinfo: 0, scope_id: 0 }
}

fn head(uri: &str) -> RequestHead {
    RequestHead {
        uri: uri.to_string(),
        method: "GET".to_string(),
        version: HttpVersion::Http11,
        connection: Some(b"keep-alive, Upgrade".to_vec()),
        upgrade: Some(b"websocket".to_vec()),
        websocket_version: Some(b"13".to_vec()),
        websocket_key: Some(b"dGhlIHNhbXBsZSBub25jZQ==".to_vec()),
    }
}

fn pairs(ps: &[(&str, &str)]) -> Vec<(String, String)> {
    ps.iter().map(|(k, v)| (k.to_string(), v.to_string())).collect()
}

fn no_rooms() -> RoomMap<u32> {
    RoomMap::new()
}

#[test]
fn connection_tokens() {
    let t = b"upgrade".to_vec();
    assert!(header_has_token(&b"Upgrade".to_vec(), &t));
    assert!(header_has_token(&b"keep-alive, Upgrade".to_vec(), &t));
    assert!(header_has_token(&b"UPGRADE,keep-alive".to_vec(), &t));
    assert!(header_has_token(&b" ,upgrade, ".to_vec(), &t));
    assert!(!header_has_token(&b"Upgrades".to_vec(), &t));
    assert!(!header_has_token(&b"keep-alive;upgrade".to_vec(), &t));
    assert!(!header_has_token(&b"".to_vec(), &t));
}

#[test]
fn handshake_checks() {
    assert!(handshake_is_valid(&head("/")));
    assert!(handshake_is_valid(&RequestHead { upgrade: Some(b"WebSocket".to_vec()), ..head("/") }));
    assert!(handshake_is_valid(&RequestHead { version: HttpVersion::Http2, ..head("/") }));
    assert!(!handshake_is_valid(&RequestHead { method: "POST".to_string(), ..head("/") }));
    assert!(!handshake_is_valid(&RequestHead { version: HttpVersion::Http10, ..head("/") }));
    assert!(!handshake_is_valid(&RequestHead { version: HttpVersion::Http09, ..head("/") }));
    assert!(!handshake_is_valid(&RequestHead { connection: None, ..head("/") }));
    assert!(!handshake_is_valid(&RequestHead { connection: Some(b"close".to_vec()), ..head("/") }));
    assert!(!handshake_is_valid(&RequestHead {
        connection: Some(b"Upgrade\x01".to_vec()),
        ..head("/")
    }));
    assert!(!handshake_is_valid(&RequestHead { upgrade: Some(b"h2c".to_vec()), ..head("/") }));
    assert!(!handshake_is_valid(&RequestHead { upgrade: None, ..head("/") }));
    assert!(!handshake_is_valid(&RequestHead {
        websocket_version: Some(b"12".to_vec()),
        ..head("/")
    }));
    assert!(!handshake_is_valid(&RequestHead { websocket_version: None, ..head("/") }));
    assert!(!handshake_is_valid(&RequestHead { websocket_key: None, ..head("/") }));
}

#[test]
fn query_last_value_wins() {
    let ps = pairs(&[("room", "a"), ("x", "1"), ("room", "b")]);
    assert_eq!(query_lookup(&ps, "room"), Some("b".to_string()));
    assert_eq!(query_lookup(&ps, "x"), Some("1".to_string()));
    assert_eq!(query_lookup(&ps, "y"), None);
}

#[test]
fn plans_for_queries() {
    let rooms = no_rooms();
    assert_eq!(
        plan_upgrade(&pairs(&[("username", "bob")]), &rooms, addr()),
        UpgradePlan::Close(CloseFrame { code: CLOSE_NO_ROOM, reason: "You're gay".to_string() })
    );
    assert_eq!(
        plan_upgrade(&pairs(&[("room", "r")]), &rooms, addr()),
        UpgradePlan::Join(GameSession {
            addr: addr(),
            username: "balls_eater".to_string(),
            skin: 0,
            seed: 0,
            room: "r".to_string(),
            id: None,
        })
    );
    assert_eq!(
        plan_upgrade(
            &pairs(&[("room", "r"), ("username", "bob"), ("skin", "2"), ("seed", "123")]),
            &rooms,
            addr()
        ),
        UpgradePlan::Join(GameSession {
            addr: addr(),
            username: "bob".to_string(),
            skin: 2,
            seed: 123,
            room: "r".to_string(),
            id: None,
        })
    );
    assert_eq!(
        plan_upgrade(&pairs(&[("room", "r"), ("skin", "300")]), &rooms, addr()),
        UpgradePlan::BadSkin
    );
    match plan_upgrade(&pairs(&[("room", "r"), ("seed", "many")]), &rooms, addr()) {
        UpgradePlan::Join(s) => assert_eq!(s.seed, 0),
        other => panic!("unexpected {:?}", other),
    }
}

#[test]
fn started_room_refuses() {
    let mut rooms = no_rooms();
    rooms.insert("r".to_string(), Room { seed: 1, started: true, nextid: 0, players: Vec::new() });
    rooms.insert("s".to_string(), Room { seed: 1, started: false, nextid: 0, players: Vec::new() });
    assert_eq!(
        plan_upgrade(&pairs(&[("room", "r")]), &rooms, addr()),
        UpgradePlan::Close(CloseFrame {
            code: CLOSE_ROOM_STARTED,
            reason: "Room already started innit bruv".to_string(),
        })
    );
    assert!(matches!(plan_upgrade(&pairs(&[("room", "s")]), &rooms, addr()), UpgradePlan::Join(_)));
}

#[test]
fn health_check() {
    let rooms = no_rooms();
    assert_eq!(handle_request(&head("/healthz"), addr(), &rooms), Reply::Health);
    let plain = RequestHead { websocket_key: None, ..head("/healthz") };
    assert_eq!(handle_request(&plain, addr(), &rooms), Reply::Health);
    assert!(matches!(handle_request(&head("/healthz?x=1"), addr(), &rooms), Reply::Upgrade { .. }));
}

#[test]
fn not_a_handshake() {
    let rooms = no_rooms();
    let r = handle_request(&RequestHead { websocket_key: None, ..head("/") }, addr(), &rooms);
    assert_eq!(
        r,
        Reply::Outdated(
            "Yur version or browser is outdated innit bruv (If you are pinging this website, it means the multiplayer engine is running!"
                .to_string()
        )
    );
}

#[test]
fn upgrade_with_accept_key_and_query() {
    let rooms = no_rooms();
    let r = handle_request(&head("/?room=a%20b&username=x+y&skin=1"), addr(), &rooms);
    assert_eq!(
        r,
        Reply::Upgrade {
            accept: "s3pPLMBiTxaQ9kYGzzhZRbK+xOo=".to_string(),
            plan: UpgradePlan::Join(GameSession {
                addr: addr(),
                username: "x y".to_string(),
                skin: 1,
                seed: 0,
                room: "a b".to_string(),
                id: None,
            }),
        }
    );
}

#[test]
fn upgrade_without_room() {
    let rooms = no_rooms();
    match handle_request(&head("/socket"), addr(), &rooms) {
        Reply::Upgrade { plan, .. } => assert_eq!(
            plan,
            UpgradePlan::Close(CloseFrame { code: 1007, reason: "You're gay".to_string() })
        ),
        other => panic!("unexpected {:?}", other),
    }
}

#[test]
fn unparsable_target() {
    let rooms = no_rooms();
    assert_eq!(handle_request(&head(":99999/x"), addr(), &rooms), Reply::UnparsableUri);
}
