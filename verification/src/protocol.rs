//! The messages that travel between a client and the server.

use crate::coordinate::Coordinate;
use vstd::prelude::*;

verus! {

/// What a client sends.
#[derive(Clone, Debug, PartialEq, Eq)]
pub enum ClientMessage {
    /// The client announces itself under a display name.
    Hello { name: String },
    /// The client's answer for the round that is running.
    Guess(Coordinate),
}

/// What the server sends.
#[derive(Clone, Debug, PartialEq, Eq)]
pub enum ServerMessage {
    /// Acknowledges a `Hello`.
    Welcome { server_name: String },
    /// A round has started; `city_name` is the prompt shown to the player.
    NewRound { city_name: String },
    /// Reveals where the city of the round just finished really is.
    RoundResults { actual_location: Coordinate },
}

/// The mathematical value of a [`ClientMessage`].
pub enum ClientMessageView {
    Hello { name: Seq<char> },
    Guess(Coordinate),
}

/// The mathematical value of a [`ServerMessage`].
pub enum ServerMessageView {
    Welcome { server_name: Seq<char> },
    NewRound { city_name: Seq<char> },
    RoundResults { actual_location: Coordinate },
}

impl View for ClientMessage {
    type V = ClientMessageView;

    open spec fn view(&self) -> ClientMessageView {
        match self {
            ClientMessage::Hello { name } => ClientMessageView::Hello { name: name@ },
            ClientMessage::Guess(coordinate) => ClientMessageView::Guess(*coordinate),
        }
    }
}

impl View for ServerMessage {
    type V = ServerMessageView;

    open spec fn view(&self) -> ServerMessageView {
        match self {
            ServerMessage::Welcome { server_name } => ServerMessageView::Welcome {
                server_name: server_name@,
            },
            ServerMessage::NewRound { city_name } => ServerMessageView::NewRound {
                city_name: city_name@,
            },
            ServerMessage::RoundResults { actual_location } => ServerMessageView::RoundResults {
                actual_location: *actual_location,
            },
        }
    }
}

/// The label under which a message of each kind is logged.
pub open spec fn message_label(message: ServerMessageView) -> Seq<char> {
    match message {
        ServerMessageView::Welcome { .. } => "WELCOME"@,
        ServerMessageView::NewRound { .. } => "NEW_ROUND"@,
        ServerMessageView::RoundResults { .. } => "ROUND_RESULTS"@,
    }
}

impl ServerMessage {
    /// The label under which this message is logged when it is sent.
    pub fn message_type(&self) -> (label: String)
        ensures
            label@ == message_label(self@),
    {
        match self {
            ServerMessage::Welcome { .. } => "WELCOME".to_owned(),
            ServerMessage::NewRound { .. } => "NEW_ROUND".to_owned(),
            ServerMessage::RoundResults { .. } => "ROUND_RESULTS".to_owned(),
        }
    }

    /// An independent copy of this message.
    pub fn duplicate(&self) -> (copy: ServerMessage)
        ensures
            copy@ == self@,
    {
        match self {
            ServerMessage::Welcome { server_name } => ServerMessage::Welcome {
                server_name: server_name.clone(),
            },
            ServerMessage::NewRound { city_name } => ServerMessage::NewRound {
                city_name: city_name.clone(),
            },
            ServerMessage::RoundResults { actual_location } => ServerMessage::RoundResults {
                actual_location: *actual_location,
            },
        }
    }
}

} // verus!
