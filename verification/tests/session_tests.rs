use netgame::actor::Request;
use netgame::codec::encode_client_message;
use netgame::messages::{ClientToServerMessage, Dir, Position};
use netgame::session::{Session, SessionAction, SessionEvent};

#[test]
fn decodable_frame_is_forwarded() {
    let mut s = Session::new(String::from("Anubis0"));
    let frame = encode_client_message(&ClientToServerMessage::Chat {
        text: String::from("hi"),
    });
    match s.on_event(SessionEvent::Frame(frame)) {
        SessionAction::Forward(Request::Player(id, ClientToServerMessage::Chat { text })) => {
            assert_eq!(id, "Anubis0");
            assert_eq!(text, "hi");
        },
        _ => panic!("a decodable chat frame must be forwarded"),
    }
}

#[test]
fn move_frame_is_forwarded() {
    let mut s = Session::new(String::from("Ra0"));
    let pos = Position { x: 1, y: 2, facing: Dir::North };
    let frame = encode_client_message(&ClientToServerMessage::MoveTo { pos });
    match s.on_event(SessionEvent::Frame(frame)) {
        SessionAction::Forward(Request::Player(id, ClientToServerMessage::MoveTo { pos: p })) => {
            assert_eq!(id, "Ra0");
            assert_eq!(p, pos);
        },
        _ => panic!("a decodable move frame must be forwarded"),
    }
}

#[test]
fn boundary_move_frame_survives_the_session_path() {
    let mut s = Session::new(String::from("Apep0"));
    let pos = Position { x: i32::MIN, y: i32::MAX, facing: Dir::West };
    let frame = encode_client_message(&ClientToServerMessage::MoveTo { pos });
    match s.on_event(SessionEvent::Frame(frame)) {
        SessionAction::Forward(Request::Player(_, ClientToServerMessage::MoveTo { pos: p })) => {
            assert_eq!(p, pos);
        },
        _ => panic!("a boundary-value move frame must be forwarded unchanged"),
    }
}

#[test]
fn undecodable_frame_shuts_down_with_disconnect() {
    let mut s = Session::new(String::from("Isis0"));
    match s.on_event(SessionEvent::Frame(vec![42u8, 1, 2, 3])) {
        SessionAction::Shutdown(Request::Disconnect(id)) => assert_eq!(id, "Isis0"),
        _ => panic!("a decode failure must end the session"),
    }
}

#[test]
fn timeout_and_unexpected_frames_idle() {
    let mut s = Session::new(String::from("Maat0"));
    assert!(matches!(s.on_event(SessionEvent::Timeout), SessionAction::Idle));
    assert!(matches!(s.on_event(SessionEvent::OtherFrame), SessionAction::Idle));
}

#[test]
fn close_frame_shuts_down_with_disconnect() {
    let mut s = Session::new(String::from("Kek0"));
    match s.on_event(SessionEvent::Closed) {
        SessionAction::Shutdown(Request::Disconnect(id)) => assert_eq!(id, "Kek0"),
        _ => panic!("a close frame must end the session"),
    }
}

#[test]
fn transport_error_shuts_down_with_disconnect() {
    let mut s = Session::new(String::from("Aten0"));
    match s.on_event(SessionEvent::TransportError) {
        SessionAction::Shutdown(Request::Disconnect(id)) => assert_eq!(id, "Aten0"),
        _ => panic!("a transport error must end the session"),
    }
}

#[test]
fn connect_request_names_the_session() {
    let s = Session::new(String::from("Thoth0"));
    match s.connect_request() {
        Request::Connect(id) => assert_eq!(id, "Thoth0"),
        _ => panic!("the announcement must be a Connect"),
    }
}
