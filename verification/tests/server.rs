use pong_multi_server::network::endpoint::Endpoint;
use pong_multi_server::network::ident::has_random_format;
use pong_multi_server::network::message::Message;
use pong_multi_server::network::pipeline::Packet;
use pong_multi_server::network::player::{PlayerStatus, Position};
use pong_multi_server::network::server::{Outcome, Server};

fn client(n: u16) -> Endpoint {
    Endpoint::v4(192, 168, 0, 7, 9000 + n)
}

fn datagram(n: u16, payload: &[u8]) -> Packet {
    Packet { len: payload.len(), addr: client(n), bytes: payload.to_vec() }
}

fn send(server: &mut Server, n: u16, payload: &[u8]) -> Outcome {
    server.process(&datagram(n, payload))
}

/// What a test can see of the shared state.
fn snapshot(
    server: &Server,
    clients: &[u16],
) -> (usize, usize, usize, Vec<Option<(u128, PlayerStatus)>>) {
    let players = clients
        .iter()
        .map(|n| server.player(&client(*n)).map(|p| (p.id, p.status)))
        .collect();
    (server.player_count(), server.room_count(), server.match_maker().waiting(), players)
}

#[test]
fn new_server_is_empty() {
    let server = Server::new();
    assert_eq!(server.player_count(), 0);
    assert_eq!(server.room_count(), 0);
    assert_eq!(server.match_maker().waiting(), 0);
    assert_eq!(server.player(&client(1)), None);
}

#[test]
fn enter_registers_the_sender() {
    let mut server = Server::new();
    let outcome = send(&mut server, 1, b"{\"action\":\"enter\"}");
    let id = match outcome {
        Outcome::Entered(Some(id)) => id,
        other => panic!("unexpected outcome {:?}", other),
    };
    assert!(has_random_format(id));
    assert_eq!(server.player_count(), 1);
    let player = server.player(&client(1)).unwrap();
    assert_eq!(player.id, id);
    assert_eq!(player.addr, client(1));
    assert_eq!(player.status, PlayerStatus::Available);
    assert_eq!(player.position, Position { x: 0, y: 0 });
}

#[test]
fn idempotent_registration() {
    let mut server = Server::new();
    let first = send(&mut server, 1, b"{\"action\":\"enter\"}");
    let before = snapshot(&server, &[1]);
    let second = send(&mut server, 1, b"{\"action\":\"enter\"}");
    assert!(matches!(first, Outcome::Entered(Some(_))));
    assert_eq!(second, Outcome::Entered(None));
    assert_eq!(snapshot(&server, &[1]), before);
    assert_eq!(server.player_count(), 1);
}

#[test]
fn entering_again_does_not_reset_a_player_in_a_match() {
    let mut server = Server::new();
    send(&mut server, 1, b"{\"action\":\"enter\"}");
    send(&mut server, 2, b"{\"action\":\"enter\"}");
    send(&mut server, 1, b"{\"action\":\"join\"}");
    send(&mut server, 2, b"{\"action\":\"join\"}");
    let before = snapshot(&server, &[1, 2]);
    assert_eq!(send(&mut server, 1, b"{\"action\":\"enter\"}"), Outcome::Entered(None));
    assert_eq!(snapshot(&server, &[1, 2]), before);
    assert_eq!(server.player(&client(1)).unwrap().status, PlayerStatus::InMatch);
}

#[test]
fn enter_then_join_scenario() {
    let mut server = Server::new();
    send(&mut server, 1, b"{\"action\":\"enter\"}");
    assert_eq!(server.player_count(), 1);
    assert_eq!(server.player(&client(1)).unwrap().status, PlayerStatus::Available);

    assert_eq!(send(&mut server, 1, b"{\"action\":\"join\"}"), Outcome::Joined(vec![]));
    assert!(matches!(send(&mut server, 2, b"{\"action\":\"enter\"}"), Outcome::Entered(Some(_))));
    let formed = match send(&mut server, 2, b"{\"action\":\"join\"}") {
        Outcome::Joined(formed) => formed,
        other => panic!("unexpected outcome {:?}", other),
    };

    assert_eq!(formed.len(), 1);
    assert_eq!(server.room_count(), 1);
    let room = server.match_maker().room(formed[0].id).unwrap();
    assert!(room.contains(&client(1)));
    assert!(room.contains(&client(2)));
    assert_eq!((room.first, room.second), (client(1), client(2)));
    assert_eq!(server.player(&client(1)).unwrap().status, PlayerStatus::InMatch);
    assert_eq!(server.player(&client(2)).unwrap().status, PlayerStatus::InMatch);
    assert_eq!(server.match_maker().room_of(&client(1)), Some(formed[0].id));
    assert_eq!(server.match_maker().room_of(&client(2)), Some(formed[0].id));
    assert_eq!(server.match_maker().waiting(), 0);
}

#[test]
fn join_without_enter_is_inert() {
    let mut server = Server::new();
    send(&mut server, 1, b"{\"action\":\"enter\"}");
    send(&mut server, 1, b"{\"action\":\"join\"}");
    // 2 never entered.
    assert_eq!(send(&mut server, 2, b"{\"action\":\"join\"}"), Outcome::Joined(vec![]));
    assert_eq!(server.room_count(), 0);
    assert_eq!(server.player_count(), 1);
    assert_eq!(server.player(&client(2)), None);
    assert_eq!(server.player(&client(1)).unwrap().status, PlayerStatus::Available);
    // Both were dropped from the queue.
    assert_eq!(server.match_maker().waiting(), 0);
    // Entering afterwards does not bring the join back.
    send(&mut server, 2, b"{\"action\":\"enter\"}");
    assert_eq!(server.room_count(), 0);
    assert_eq!(server.match_maker().waiting(), 0);
}

#[test]
fn malformed_input_changes_nothing() {
    let mut server = Server::new();
    send(&mut server, 1, b"{\"action\":\"enter\"}");
    send(&mut server, 2, b"{\"action\":\"enter\"}");
    send(&mut server, 1, b"{\"action\":\"join\"}");
    let before = snapshot(&server, &[1, 2, 3]);

    assert_eq!(send(&mut server, 3, b"\x00\xff\xfe not json"), Outcome::Malformed);
    assert_eq!(snapshot(&server, &[1, 2, 3]), before);
    assert_eq!(send(&mut server, 3, b"[1, 2, 3]"), Outcome::Malformed);
    assert_eq!(snapshot(&server, &[1, 2, 3]), before);
    assert_eq!(send(&mut server, 3, b"\"join\""), Outcome::Malformed);
    assert_eq!(snapshot(&server, &[1, 2, 3]), before);
    assert_eq!(send(&mut server, 3, b"{\"name\":\"join\"}"), Outcome::NoAction);
    assert_eq!(snapshot(&server, &[1, 2, 3]), before);
    assert_eq!(send(&mut server, 2, b"{\"action\":7}"), Outcome::NoAction);
    assert_eq!(snapshot(&server, &[1, 2, 3]), before);
    assert_eq!(send(&mut server, 2, b""), Outcome::Malformed);
    assert_eq!(snapshot(&server, &[1, 2, 3]), before);

    // The server still works afterwards.
    let joined = send(&mut server, 2, b"{\"action\":\"join\"}");
    assert!(matches!(joined, Outcome::Joined(f) if f.len() == 1));
}

#[test]
fn reserved_and_unknown_actions_change_nothing() {
    let mut server = Server::new();
    send(&mut server, 1, b"{\"action\":\"enter\"}");
    send(&mut server, 1, b"{\"action\":\"join\"}");
    let before = snapshot(&server, &[1, 2]);
    assert_eq!(send(&mut server, 1, b"{\"action\":\"leave\"}"), Outcome::Left);
    assert_eq!(send(&mut server, 1, b"{\"action\":\"move\",\"x\":3}"), Outcome::Moved);
    assert_eq!(
        send(&mut server, 2, b"{\"action\":\"fly\"}"),
        Outcome::Unknown("fly".to_string())
    );
    assert_eq!(snapshot(&server, &[1, 2]), before);
}

#[test]
fn handle_takes_a_decoded_message() {
    let mut server = Server::new();
    assert!(matches!(server.handle(&client(1), Message::Enter), Outcome::Entered(Some(_))));
    assert_eq!(server.handle(&client(1), Message::Enter), Outcome::Entered(None));
    assert_eq!(server.handle(&client(1), Message::Join), Outcome::Joined(vec![]));
    assert_eq!(server.handle(&client(1), Message::Leave), Outcome::Left);
    assert_eq!(server.handle(&client(1), Message::Move), Outcome::Moved);
    assert_eq!(server.handle(&client(1), Message::Malformed), Outcome::Malformed);
    assert_eq!(server.handle(&client(1), Message::NoAction), Outcome::NoAction);
    assert_eq!(
        server.handle(&client(1), Message::Unknown("x".to_string())),
        Outcome::Unknown("x".to_string())
    );
    assert_eq!(server.player_count(), 1);
    assert_eq!(server.match_maker().waiting(), 1);
}

#[test]
fn handlers_can_be_called_directly() {
    let mut server = Server::new();
    let id = server.handle_enter(&client(1)).unwrap();
    assert_eq!(server.handle_enter(&client(1)), None);
    server.handle_enter(&client(2));
    server.handle_move();
    server.handle_leave();
    assert!(server.handle_join(&client(1)).is_empty());
    let formed = server.handle_join(&client(2));
    assert_eq!(formed.len(), 1);
    assert_eq!(server.player(&client(1)).unwrap().id, id);
    assert_eq!(server.room_count(), 1);
}

#[test]
fn a_cut_datagram_is_handled_as_what_is_left_of_it() {
    let mut server = Server::new();
    let full = b"{\"action\":\"enter\"}";
    let cut = Packet::capture(full, 10, client(1));
    assert_eq!(server.process(&cut), Outcome::Malformed);
    assert_eq!(server.player_count(), 0);
}
