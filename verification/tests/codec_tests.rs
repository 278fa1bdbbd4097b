use netgame::codec::{
    decode_client_message, decode_server_message, encode_client_message, encode_server_message,
};
use netgame::messages::{ClientToServerMessage, Dir, Position, ServerToClientMessage};

fn round_trip_client(m: ClientToServerMessage) {
    let bytes = encode_client_message(&m);
    let back = decode_client_message(&bytes);
    assert_eq!(back, Some(m));
}

fn round_trip_server(m: ServerToClientMessage) {
    let bytes = encode_server_message(&m);
    let back = decode_server_message(&bytes);
    assert_eq!(back, Some(m));
}

#[test]
fn client_chat_round_trip() {
    round_trip_client(ClientToServerMessage::Chat { text: String::from("hello") });
    round_trip_client(ClientToServerMessage::Chat { text: String::new() });
    round_trip_client(ClientToServerMessage::Chat { text: String::from("h\u{e9}llo \u{2603}") });
}

#[test]
fn client_move_round_trip_boundaries() {
    round_trip_client(ClientToServerMessage::MoveTo {
        pos: Position { x: i32::MIN, y: i32::MAX, facing: Dir::West },
    });
    round_trip_client(ClientToServerMessage::MoveTo {
        pos: Position { x: 0, y: -1, facing: Dir::North },
    });
    round_trip_client(ClientToServerMessage::MoveTo {
        pos: Position { x: 5, y: 5, facing: Dir::East },
    });
    round_trip_client(ClientToServerMessage::MoveTo {
        pos: Position { x: -42, y: 42, facing: Dir::South },
    });
}

#[test]
fn server_round_trip_every_variant() {
    round_trip_server(ServerToClientMessage::Initialize { id: String::from("Anubis0") });
    round_trip_server(ServerToClientMessage::Chat {
        id: String::from("Ra3"),
        text: String::from("hi there"),
    });
    round_trip_server(ServerToClientMessage::UpdatePlayer {
        id: String::from("Isis1"),
        pos: Position { x: i32::MIN, y: i32::MIN, facing: Dir::West },
    });
    round_trip_server(ServerToClientMessage::DeletePlayer { id: String::from("Apep0") });
}

#[test]
fn encode_chat_exact_bytes() {
    let m = ClientToServerMessage::Chat { text: String::from("A") };
    let bytes = encode_client_message(&m);
    assert_eq!(bytes, vec![0u8, 1, 0, 0, 0, 0, 0, 0, 0, 65, 0, 0, 0]);
}

#[test]
fn encode_move_exact_bytes() {
    let m = ClientToServerMessage::MoveTo { pos: Position { x: 1, y: -1, facing: Dir::East } };
    let bytes = encode_client_message(&m);
    assert_eq!(bytes, vec![1u8, 1, 0, 0, 0, 255, 255, 255, 255, 1]);
}

#[test]
fn decode_empty_frame_fails() {
    assert_eq!(decode_client_message(&Vec::new()), None);
    assert_eq!(decode_server_message(&Vec::new()), None);
}

#[test]
fn decode_bad_tag_fails() {
    assert_eq!(decode_client_message(&vec![9u8, 0, 0]), None);
    assert_eq!(decode_server_message(&vec![200u8]), None);
}

#[test]
fn decode_truncated_fails() {
    // A chat frame whose length field promises more characters than follow.
    assert_eq!(decode_client_message(&vec![0u8, 5, 0, 0, 0, 0, 0, 0, 0, 65, 0, 0, 0]), None);
    // A move frame cut short.
    assert_eq!(decode_client_message(&vec![1u8, 1, 0, 0, 0]), None);
}

#[test]
fn decode_bad_direction_fails() {
    // Valid x and y, facing byte 4 names no direction.
    assert_eq!(decode_client_message(&vec![1u8, 1, 0, 0, 0, 2, 0, 0, 0, 4]), None);
}

#[test]
fn decode_bad_char_fails() {
    // One "character" holding the surrogate value 0xD800, which no char has.
    assert_eq!(decode_client_message(&vec![0u8, 1, 0, 0, 0, 0, 0, 0, 0, 0x00, 0xD8, 0, 0]), None);
}

#[test]
fn decode_trailing_bytes_fails() {
    let m = ClientToServerMessage::Chat { text: String::from("A") };
    let mut bytes = encode_client_message(&m);
    bytes.push(0);
    assert_eq!(decode_client_message(&bytes), None);
}
