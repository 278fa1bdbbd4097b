use netgame::actor::{Outbound, SimulationActor};
use netgame::messages::{
    ClientToServerMessage, Dir, Position, ServerToClientMessage, initial_player_pos,
};

fn msgs_for(out: &[Outbound], who: &str) -> Vec<ServerToClientMessage> {
    let mut v = Vec::new();
    for o in out {
        if o.to == who {
            v.push(o.msg.clone());
        }
    }
    v
}

#[test]
fn registry_size_tracks_connects_minus_disconnects() {
    let mut actor = SimulationActor::new();
    assert_eq!(actor.len(), 0);
    actor.handle_connect(String::from("A"));
    actor.handle_connect(String::from("B"));
    actor.handle_connect(String::from("C"));
    assert_eq!(actor.len(), 3);
    actor.handle_disconnect(String::from("B"));
    assert_eq!(actor.len(), 2);
    // A duplicate connect is rejected and counts nothing.
    let out = actor.handle_connect(String::from("A"));
    assert!(out.is_empty());
    assert_eq!(actor.len(), 2);
    // A disconnect for an absent id counts nothing.
    actor.handle_disconnect(String::from("B"));
    assert_eq!(actor.len(), 2);
    actor.handle_disconnect(String::from("A"));
    actor.handle_disconnect(String::from("C"));
    assert_eq!(actor.len(), 0);
}

#[test]
fn chat_reaches_every_session_exactly_once() {
    let mut actor = SimulationActor::new();
    actor.handle_connect(String::from("A"));
    actor.handle_connect(String::from("B"));
    let out = actor.handle_chat(String::from("A"), String::from("hello"));
    assert_eq!(out.len(), 2);
    let expected = ServerToClientMessage::Chat {
        id: String::from("A"),
        text: String::from("hello"),
    };
    assert_eq!(msgs_for(&out, "A"), vec![expected.clone()]);
    assert_eq!(msgs_for(&out, "B"), vec![expected]);
}

#[test]
fn chat_recipients_follow_registry_order() {
    let mut actor = SimulationActor::new();
    actor.handle_connect(String::from("A"));
    actor.handle_connect(String::from("B"));
    actor.handle_connect(String::from("C"));
    let out = actor.handle_chat(String::from("B"), String::from("x"));
    let recipients: Vec<&str> = out.iter().map(|o| o.to.as_str()).collect();
    assert_eq!(recipients, vec!["A", "B", "C"]);
}

#[test]
fn chat_from_stale_id_is_dropped() {
    let mut actor = SimulationActor::new();
    actor.handle_connect(String::from("A"));
    actor.handle_disconnect(String::from("A"));
    actor.handle_connect(String::from("B"));
    let out = actor.handle_chat(String::from("A"), String::from("late"));
    assert!(out.is_empty());
}

#[test]
fn move_for_unregistered_id_is_a_noop() {
    let mut actor = SimulationActor::new();
    actor.handle_connect(String::from("A"));
    let before = actor.position_of(&String::from("A"));
    let out = actor.handle_move(
        String::from("B"),
        Position { x: 9, y: 9, facing: Dir::North },
    );
    assert!(out.is_empty());
    assert_eq!(actor.len(), 1);
    assert_eq!(actor.position_of(&String::from("A")), before);
    assert_eq!(actor.position_of(&String::from("B")), None);
}

#[test]
fn move_updates_position_and_broadcasts() {
    let mut actor = SimulationActor::new();
    actor.handle_connect(String::from("A"));
    actor.handle_connect(String::from("B"));
    let pos = Position { x: 5, y: 5, facing: Dir::East };
    let out = actor.handle_move(String::from("A"), pos);
    assert_eq!(actor.position_of(&String::from("A")), Some(pos));
    let expected = ServerToClientMessage::UpdatePlayer { id: String::from("A"), pos };
    assert_eq!(msgs_for(&out, "A"), vec![expected.clone()]);
    assert_eq!(msgs_for(&out, "B"), vec![expected]);
}

#[test]
fn connect_sends_initialize_before_snapshot() {
    let mut actor = SimulationActor::new();
    actor.handle_connect(String::from("A"));
    let out = actor.handle_connect(String::from("B"));
    let to_b = msgs_for(&out, "B");
    // Initialize first, then exactly one snapshot entry for A, then B's own
    // (redundant but deliberate) position announcement.
    assert_eq!(
        to_b,
        vec![
            ServerToClientMessage::Initialize { id: String::from("B") },
            ServerToClientMessage::UpdatePlayer {
                id: String::from("A"),
                pos: initial_player_pos(),
            },
            ServerToClientMessage::UpdatePlayer {
                id: String::from("B"),
                pos: initial_player_pos(),
            },
        ]
    );
}

#[test]
fn duplicate_disconnect_is_a_noop() {
    let mut actor = SimulationActor::new();
    actor.handle_connect(String::from("A"));
    actor.handle_connect(String::from("B"));
    let first = actor.handle_disconnect(String::from("B"));
    assert_eq!(first.len(), 1);
    assert_eq!(
        msgs_for(&first, "A"),
        vec![ServerToClientMessage::DeletePlayer { id: String::from("B") }]
    );
    let second = actor.handle_disconnect(String::from("B"));
    assert!(second.is_empty());
    assert_eq!(actor.len(), 1);
}

#[test]
fn end_to_end_scenario() {
    let mut actor = SimulationActor::new();
    let default = initial_player_pos();

    // Client A connects and is initialized.
    let out = actor.handle_connect(String::from("A"));
    let to_a = msgs_for(&out, "A");
    assert_eq!(to_a[0], ServerToClientMessage::Initialize { id: String::from("A") });

    // Client B connects: A hears about B; B is initialized, then sees the
    // snapshot with A, then B's own announcement.
    let out = actor.handle_connect(String::from("B"));
    assert_eq!(
        msgs_for(&out, "A"),
        vec![ServerToClientMessage::UpdatePlayer { id: String::from("B"), pos: default }]
    );
    assert_eq!(
        msgs_for(&out, "B"),
        vec![
            ServerToClientMessage::Initialize { id: String::from("B") },
            ServerToClientMessage::UpdatePlayer { id: String::from("A"), pos: default },
            ServerToClientMessage::UpdatePlayer { id: String::from("B"), pos: default },
        ]
    );

    // A moves: both hear the new position.
    let moved = Position { x: 5, y: 5, facing: Dir::East };
    let out = actor.handle_request(netgame::actor::Request::Player(
        String::from("A"),
        ClientToServerMessage::MoveTo { pos: moved },
    ));
    let expected = ServerToClientMessage::UpdatePlayer { id: String::from("A"), pos: moved };
    assert_eq!(msgs_for(&out, "A"), vec![expected.clone()]);
    assert_eq!(msgs_for(&out, "B"), vec![expected]);

    // B disconnects: A hears the departure.
    let out = actor.handle_disconnect(String::from("B"));
    assert_eq!(
        msgs_for(&out, "A"),
        vec![ServerToClientMessage::DeletePlayer { id: String::from("B") }]
    );
}
