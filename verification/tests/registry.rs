use pong_multi_server::network::endpoint::Endpoint;
use pong_multi_server::network::endpoint_map::EndpointMap;
use pong_multi_server::network::ident::has_random_format;
use pong_multi_server::network::player::{Player, PlayerStatus, Position};
use pong_multi_server::network::registry::Registry;
use pong_multi_server::network::room::Room;

fn client(n: u16) -> Endpoint {
    Endpoint::v4(127, 0, 0, 1, 4000 + n)
}

#[test]
fn endpoint_v4_packs_octets_most_significant_first() {
    let e = Endpoint::v4(192, 168, 1, 20, 8090);
    assert_eq!(e, Endpoint::V4 { ip4: 0xC0A8_0114, port: 8090 });
}

#[test]
fn endpoints_differ_by_any_field() {
    let a = Endpoint::v4(10, 0, 0, 1, 5000);
    assert_eq!(a, Endpoint::v4(10, 0, 0, 1, 5000));
    assert_ne!(a, Endpoint::v4(10, 0, 0, 1, 5001));
    assert_ne!(a, Endpoint::v4(10, 0, 0, 2, 5000));
    let v6 = Endpoint::V6 { ip6: 0x0A00_0001, port: 5000, flowinfo: 0, scope_id: 0 };
    assert_ne!(a, v6);
    assert_ne!(v6, Endpoint::V6 { ip6: 0x0A00_0001, port: 5000, flowinfo: 0, scope_id: 7 });
}

#[test]
fn status_defaults_to_available() {
    assert_eq!(PlayerStatus::default(), PlayerStatus::Available);
}

#[test]
fn new_player_is_available_at_the_origin() {
    let p = Player::new(client(1));
    assert_eq!(p.addr, client(1));
    assert_eq!(p.status, PlayerStatus::Available);
    assert_eq!(p.position, Position { x: 0, y: 0 });
    assert!(!p.is_in_match());
}

#[test]
fn new_player_id_is_a_random_uuid() {
    let p = Player::new(client(1));
    assert!(has_random_format(p.id));
    assert_eq!((p.id >> 76) & 0xf, 4);
    assert_eq!((p.id >> 62) & 0x3, 2);
}

#[test]
fn two_new_players_get_different_ids() {
    let p = Player::new(client(1));
    let q = Player::new(client(2));
    assert_ne!(p.id, q.id);
}

#[test]
fn random_format_is_checked_on_version_and_variant() {
    assert!(has_random_format(0x0000_0000_0000_4000_8000_0000_0000_0000));
    assert!(has_random_format(0xffff_ffff_ffff_4fff_bfff_ffff_ffff_ffff));
    assert!(!has_random_format(0));
    assert!(!has_random_format(0x0000_0000_0000_1000_8000_0000_0000_0000));
    assert!(!has_random_format(0x0000_0000_0000_4000_c000_0000_0000_0000));
}

#[test]
fn player_with_id_keeps_the_id() {
    let p = Player::with_id(42, client(3));
    assert_eq!(
        p,
        Player {
            id: 42,
            addr: client(3),
            position: Position { x: 0, y: 0 },
            status: PlayerStatus::Available
        }
    );
}

#[test]
fn in_match_changes_only_the_status() {
    let p = Player::with_id(42, client(3));
    let q = p.in_match();
    assert_eq!(q.id, 42);
    assert_eq!(q.addr, client(3));
    assert_eq!(q.position, p.position);
    assert_eq!(q.status, PlayerStatus::InMatch);
    assert!(q.is_in_match());
}

#[test]
fn room_holds_its_two_players() {
    let a = Player::with_id(1, client(1));
    let b = Player::with_id(2, client(2));
    let room = Room::with_id(77, &a, &b);
    assert_eq!(room, Room { id: 77, first: client(1), second: client(2) });
    assert!(room.contains(&client(1)));
    assert!(room.contains(&client(2)));
    assert!(!room.contains(&client(3)));
}

#[test]
fn new_room_returns_its_own_random_id() {
    let a = Player::with_id(1, client(1));
    let b = Player::with_id(2, client(2));
    let (id, room) = Room::new(&a, &b);
    assert_eq!(room.id, id);
    assert!(has_random_format(id));
    assert_eq!(room.first, client(1));
    assert_eq!(room.second, client(2));
}

#[test]
fn room_start_leaves_the_room_alone() {
    let a = Player::with_id(1, client(1));
    let b = Player::with_id(2, client(2));
    let room = Room::with_id(77, &a, &b);
    room.start();
    assert_eq!(room, Room { id: 77, first: client(1), second: client(2) });
}

#[test]
fn endpoint_map_starts_empty() {
    let map: EndpointMap<u32> = EndpointMap::new();
    assert_eq!(map.len(), 0);
    assert!(!map.contains_key(&client(1)));
    assert_eq!(map.get(&client(1)), None);
}

#[test]
fn endpoint_map_insert_then_get() {
    let mut map: EndpointMap<u32> = EndpointMap::new();
    map.insert(client(1), 10);
    map.insert(client(2), 20);
    assert_eq!(map.len(), 2);
    assert_eq!(map.get(&client(1)), Some(&10));
    assert_eq!(map.get(&client(2)), Some(&20));
    assert_eq!(map.get(&client(3)), None);
    assert!(map.contains_key(&client(2)));
}

#[test]
fn endpoint_map_insert_replaces_the_value_of_a_known_key() {
    let mut map: EndpointMap<u32> = EndpointMap::new();
    map.insert(client(1), 10);
    map.insert(client(2), 20);
    map.insert(client(1), 11);
    assert_eq!(map.len(), 2);
    assert_eq!(map.get(&client(1)), Some(&11));
    assert_eq!(map.get(&client(2)), Some(&20));
}

#[test]
fn registry_registers_once() {
    let mut registry = Registry::new();
    assert_eq!(registry.len(), 0);
    let first = registry.register(client(1));
    assert!(first.is_some());
    let id = first.unwrap();
    assert!(has_random_format(id));
    assert_eq!(registry.len(), 1);
    assert_eq!(registry.get(&client(1)), Some(&Player::with_id(id, client(1))));

    let second = registry.register(client(1));
    assert_eq!(second, None);
    assert_eq!(registry.len(), 1);
    assert_eq!(registry.get(&client(1)), Some(&Player::with_id(id, client(1))));
}

#[test]
fn registry_register_with_id_keeps_the_first_id() {
    let mut registry = Registry::new();
    assert!(registry.register_with_id(client(1), 5));
    assert!(!registry.register_with_id(client(1), 6));
    assert_eq!(registry.get(&client(1)).unwrap().id, 5);
    assert!(registry.contains(&client(1)));
    assert!(!registry.contains(&client(2)));
}

#[test]
fn registry_reregistering_does_not_reset_the_status() {
    let mut registry = Registry::new();
    registry.register_with_id(client(1), 5);
    registry.mark_in_match(&client(1));
    assert_eq!(registry.get(&client(1)).unwrap().status, PlayerStatus::InMatch);
    assert_eq!(registry.register(client(1)), None);
    assert!(!registry.register_with_id(client(1), 9));
    assert_eq!(registry.get(&client(1)), Some(&Player::with_id(5, client(1)).in_match()));
}

#[test]
fn registry_mark_in_match_ignores_strangers() {
    let mut registry = Registry::new();
    registry.register_with_id(client(1), 5);
    registry.mark_in_match(&client(2));
    assert_eq!(registry.len(), 1);
    assert_eq!(registry.get(&client(1)).unwrap().status, PlayerStatus::Available);
    assert_eq!(registry.get(&client(2)), None);
}
