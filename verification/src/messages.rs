//! Wire message types shared by the server core and its clients.
//!
//! `Dir` ordinals are fixed (North..West map to 0..3) because they cross the
//! wire; `dir_code` / `dir_from_code` are the one place that fixes them.
//! The message enums carry `String` identifiers, so each gets a ghost view
//! (`ClientMsgView`, `ServerMsgView`) whose strings are `Seq<char>`; every
//! contract in the crate speaks over those views.

use vstd::prelude::*;

verus! {

/// A facing direction; its wire ordinal is given by [`dir_code`].
#[derive(Copy, Clone, PartialEq, Eq, Structural, Debug)]
pub enum Dir {
    North,
    East,
    South,
    West,
}

/// A client-side input command (kept for clients of the library; the server
/// core itself never issues one).
#[derive(Copy, Clone)]
pub enum Command {
    Move(Dir),
}

/// A player position: coordinates plus facing.
#[derive(Copy, Clone, PartialEq, Eq, Structural, Debug)]
pub struct Position {
    pub x: i32,
    pub y: i32,
    pub facing: Dir,
}

/// The wire ordinal of a direction (0..3).
pub open spec fn spec_dir_code(d: Dir) -> u8 {
    match d {
        Dir::North => 0,
        Dir::East => 1,
        Dir::South => 2,
        Dir::West => 3,
    }
}

/// The direction a wire ordinal stands for, if any.
pub open spec fn spec_dir_from_code(b: u8) -> Option<Dir> {
    if b == 0 {
        Some(Dir::North)
    } else if b == 1 {
        Some(Dir::East)
    } else if b == 2 {
        Some(Dir::South)
    } else if b == 3 {
        Some(Dir::West)
    } else {
        None
    }
}

#[verifier::when_used_as_spec(spec_dir_code)]
pub fn dir_code(d: Dir) -> (b: u8)
    ensures
        b == spec_dir_code(d),
{
    match d {
        Dir::North => 0,
        Dir::East => 1,
        Dir::South => 2,
        Dir::West => 3,
    }
}

#[verifier::when_used_as_spec(spec_dir_from_code)]
pub fn dir_from_code(b: u8) -> (d: Option<Dir>)
    ensures
        d == spec_dir_from_code(b),
{
    if b == 0 {
        Some(Dir::North)
    } else if b == 1 {
        Some(Dir::East)
    } else if b == 2 {
        Some(Dir::South)
    } else if b == 3 {
        Some(Dir::West)
    } else {
        None
    }
}

/// Ordinals and directions are mutually inverse, so a facing survives the wire.
pub proof fn lemma_dir_code_round_trip(d: Dir, b: u8)
    ensures
        spec_dir_from_code(spec_dir_code(d)) == Some(d),
        spec_dir_from_code(b) matches Some(d2) ==> spec_dir_code(d2) == b,
{
}

/// Where a freshly connected player stands.
pub open spec fn spec_initial_pos() -> Position {
    Position { x: 127, y: 154, facing: Dir::South }
}

/// The starting position handed to every player on connect.
#[verifier::when_used_as_spec(spec_initial_pos)]
pub fn initial_player_pos() -> (p: Position)
    ensures
        p == spec_initial_pos(),
{
    Position { x: 127, y: 154, facing: Dir::South }
}

/// What a client sends the server.
#[derive(PartialEq, Debug)]
pub enum ClientToServerMessage {
    Chat { text: String },
    MoveTo { pos: Position },
}

/// What the server sends a client.
#[derive(PartialEq, Debug)]
pub enum ServerToClientMessage {
    Initialize { id: String },
    Chat { id: String, text: String },
    UpdatePlayer { id: String, pos: Position },
    DeletePlayer { id: String },
}

/// Ghost view of [`ClientToServerMessage`]: strings become `Seq<char>`.
pub ghost enum ClientMsgView {
    Chat { text: Seq<char> },
    MoveTo { pos: Position },
}

/// Ghost view of [`ServerToClientMessage`]: strings become `Seq<char>`.
pub ghost enum ServerMsgView {
    Initialize { id: Seq<char> },
    Chat { id: Seq<char>, text: Seq<char> },
    UpdatePlayer { id: Seq<char>, pos: Position },
    DeletePlayer { id: Seq<char> },
}

impl View for ClientToServerMessage {
    type V = ClientMsgView;

    open spec fn view(&self) -> ClientMsgView {
        match self {
            ClientToServerMessage::Chat { text } => ClientMsgView::Chat { text: text@ },
            ClientToServerMessage::MoveTo { pos } => ClientMsgView::MoveTo { pos: *pos },
        }
    }
}

impl View for ServerToClientMessage {
    type V = ServerMsgView;

    open spec fn view(&self) -> ServerMsgView {
        match self {
            ServerToClientMessage::Initialize { id } => ServerMsgView::Initialize { id: id@ },
            ServerToClientMessage::Chat { id, text } => ServerMsgView::Chat {
                id: id@,
                text: text@,
            },
            ServerToClientMessage::UpdatePlayer { id, pos } => ServerMsgView::UpdatePlayer {
                id: id@,
                pos: *pos,
            },
            ServerToClientMessage::DeletePlayer { id } => ServerMsgView::DeletePlayer { id: id@ },
        }
    }
}

impl Clone for ClientToServerMessage {
    /// A clone is equal to the original, field for field.
    fn clone(&self) -> (r: Self)
        ensures
            r == *self,
    {
        match self {
            ClientToServerMessage::Chat { text } => ClientToServerMessage::Chat {
                text: text.clone(),
            },
            ClientToServerMessage::MoveTo { pos } => ClientToServerMessage::MoveTo { pos: *pos },
        }
    }
}

impl Clone for ServerToClientMessage {
    /// A clone is equal to the original, field for field.
    fn clone(&self) -> (r: Self)
        ensures
            r == *self,
    {
        match self {
            ServerToClientMessage::Initialize { id } => ServerToClientMessage::Initialize {
                id: id.clone(),
            },
            ServerToClientMessage::Chat { id, text } => ServerToClientMessage::Chat {
                id: id.clone(),
                text: text.clone(),
            },
            ServerToClientMessage::UpdatePlayer { id, pos } => ServerToClientMessage::UpdatePlayer {
                id: id.clone(),
                pos: *pos,
            },
            ServerToClientMessage::DeletePlayer { id } => ServerToClientMessage::DeletePlayer {
                id: id.clone(),
            },
        }
    }
}

} // verus!
