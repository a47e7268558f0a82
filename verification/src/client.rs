//! The decisions of a player's client.
//!
//! The client shows a map and walks through four stages. What it draws and
//! where the player clicked stay with the caller; the stage, what the server
//! has announced, and what follows from a click are decided here.

use crate::coordinate::Coordinate;
use crate::protocol::{ServerMessage, ServerMessageView};
use vstd::prelude::*;

verus! {

/// The stage the client is in.
#[derive(Clone, Copy, Debug, PartialEq, Eq, Structural)]
pub enum GameState {
    /// Waiting for the first prompt.
    Starting,
    /// The player is asked where the city is.
    Guessing,
    /// The player has answered; the others have not.
    Waiting,
    /// The true location is shown beside the answer.
    Reviewing,
}

/// What the server has announced and the client has not yet acted on.
#[derive(Clone, Debug, PartialEq, Eq)]
pub struct TransitionInformation {
    pub next_city: Option<String>,
    pub next_actual_location: Option<Coordinate>,
}

/// The mathematical value of a [`TransitionInformation`].
pub struct InformationView {
    pub next_city: Option<Seq<char>>,
    pub next_actual_location: Option<Coordinate>,
}

impl View for TransitionInformation {
    type V = InformationView;

    open spec fn view(&self) -> InformationView {
        InformationView {
            next_city: match self.next_city {
                Some(city) => Some(city@),
                None => None,
            },
            next_actual_location: self.next_actual_location,
        }
    }
}

/// What the client does next.
#[derive(Clone, Debug, PartialEq, Eq)]
pub enum Transition {
    /// Nothing changes.
    Stay,
    /// Ask the player where this city is.
    Guess { city_name: String },
    /// Send the place that was clicked as the answer, and wait.
    Wait,
    /// Show this true location beside the answer.
    Reveal { actual_location: Coordinate },
}

/// The mathematical value of a [`Transition`].
pub enum TransitionView {
    Stay,
    Guess { city_name: Seq<char> },
    Wait,
    Reveal { actual_location: Coordinate },
}

impl View for Transition {
    type V = TransitionView;

    open spec fn view(&self) -> TransitionView {
        match self {
            Transition::Stay => TransitionView::Stay,
            Transition::Guess { city_name } => TransitionView::Guess { city_name: city_name@ },
            Transition::Wait => TransitionView::Wait,
            Transition::Reveal { actual_location } => TransitionView::Reveal {
                actual_location: *actual_location,
            },
        }
    }
}

/// What is known once `message` has arrived: a prompt is kept as the next
/// city, a result as the next true location, each over what was kept
/// before; a welcome changes nothing.
pub open spec fn noted(info: InformationView, message: ServerMessageView) -> InformationView {
    match message {
        ServerMessageView::Welcome { .. } => info,
        ServerMessageView::NewRound { city_name } => InformationView {
            next_city: Some(city_name),
            ..info
        },
        ServerMessageView::RoundResults { actual_location } => InformationView {
            next_actual_location: Some(actual_location),
            ..info
        },
    }
}

/// Nothing announced.
pub open spec fn nothing_known() -> InformationView {
    InformationView { next_city: None, next_actual_location: None }
}

/// The stage, what is left of the announcements, and what the client does,
/// given the stage it is in, whether the player clicked, and what has been
/// announced.
///
/// A prompt starts the guessing from the start, and from the last stage once
/// the player clicks; all announcements are then forgotten. A click while
/// guessing is the answer. A result ends the waiting and is then forgotten.
/// Anything else leaves everything as it is.
pub open spec fn advanced(state: GameState, clicked: bool, info: InformationView) -> (
    GameState,
    InformationView,
    TransitionView,
) {
    if info.next_city is Some && (state == GameState::Starting || (state == GameState::Reviewing
        && clicked)) {
        (
            GameState::Guessing,
            nothing_known(),
            TransitionView::Guess { city_name: info.next_city->0 },
        )
    } else if state == GameState::Guessing && clicked {
        (GameState::Waiting, info, TransitionView::Wait)
    } else if state == GameState::Waiting && info.next_actual_location is Some {
        (
            GameState::Reviewing,
            InformationView { next_actual_location: None, ..info },
            TransitionView::Reveal { actual_location: info.next_actual_location->0 },
        )
    } else {
        (state, info, TransitionView::Stay)
    }
}

impl TransitionInformation {
    /// Nothing announced.
    pub fn new() -> (info: TransitionInformation)
        ensures
            info@ == nothing_known(),
    {
        TransitionInformation { next_city: None, next_actual_location: None }
    }

    /// Takes note of a message of the server.
    pub fn note(&mut self, message: ServerMessage)
        ensures
            final(self)@ == noted(old(self)@, message@),
    {
        match message {
            ServerMessage::Welcome { server_name: _ } => {},
            ServerMessage::NewRound { city_name } => {
                self.next_city = Some(city_name);
            },
            ServerMessage::RoundResults { actual_location } => {
                self.next_actual_location = Some(actual_location);
            },
        }
    }
}

impl GameState {
    /// Moves on from this stage if the click and the announcements call for
    /// it, and says what the client does.
    pub fn advance(&mut self, clicked: bool, info: &mut TransitionInformation) -> (transition:
        Transition)
        ensures
            (*final(self), final(info)@, transition@) == advanced(*old(self), clicked, old(info)@),
    {
        let state = *self;
        let prompted = match state {
            GameState::Starting => true,
            GameState::Reviewing => clicked,
            _ => false,
        };
        if prompted && info.next_city.is_some() {
            let city_name = info.next_city.take().unwrap();
            info.next_actual_location = None;
            *self = GameState::Guessing;
            return Transition::Guess { city_name };
        }
        match state {
            GameState::Guessing => {
                if clicked {
                    *self = GameState::Waiting;
                    return Transition::Wait;
                }
            },
            GameState::Waiting => {
                match info.next_actual_location.take() {
                    Some(actual_location) => {
                        *self = GameState::Reviewing;
                        return Transition::Reveal { actual_location };
                    },
                    None => {},
                }
            },
            _ => {},
        }
        Transition::Stay
    }
}

} // verus!
