//! The game as a mathematical state machine.
//!
//! A state is the dataset, the table of sessions and the round that is
//! running, if one is. An event and the city drawn for a round that may have
//! to start give the next state, the messages to send, in order, and the
//! report of the round that the event completed, if it completed one.

use crate::city::CityDataView;
use crate::coordinate::Coordinate;
use crate::protocol::{ClientMessageView, ServerMessageView};
use crate::table::{
    ascending, cleared, guessed, is_active, joined, knows, named, parted, round_complete,
    SessionView,
};
use vstd::prelude::*;

verus! {

/// A message on its way to one session.
pub struct OutboundView {
    pub client_id: u32,
    pub message: ServerMessageView,
}

/// The answer that one active session held when its round was completed.
pub struct GuessView {
    pub client_id: u32,
    pub name: Seq<char>,
    pub guess: Coordinate,
}

/// What a completed round leaves behind.
pub struct ReportView {
    pub city_name: Seq<char>,
    pub actual_location: Coordinate,
    pub guesses: Seq<GuessView>,
}

/// A state of the game.
pub struct GameView {
    pub cities: Seq<CityDataView>,
    pub clients: Seq<SessionView>,
    pub current_city: Option<CityDataView>,
}

/// What reaches the coordinator.
pub enum EventView {
    Connect(u32),
    ClientMessage(u32, ClientMessageView),
    Disconnect(u32),
}

/// What the coordinator makes of one event.
pub struct StepView {
    pub game: GameView,
    pub sent: Seq<OutboundView>,
    pub finished: Option<ReportView>,
}

/// The name under which the server welcomes a client.
pub const SERVER_NAME: &'static str = "ref-server";

/// `message`, addressed to the session of a row if that session is active.
pub open spec fn addressed(message: ServerMessageView) -> spec_fn(SessionView) -> Option<
    OutboundView,
> {
    |s: SessionView|
        if is_active(s) {
            Some(OutboundView { client_id: s.id, message })
        } else {
            None
        }
}

/// `message` to every active session, in the order of the table.
pub open spec fn announce(t: Seq<SessionView>, message: ServerMessageView) -> Seq<OutboundView> {
    t.filter_map(addressed(message))
}

/// The guess of the session of a row, if that session is active and holds one.
pub open spec fn guess_of() -> spec_fn(SessionView) -> Option<GuessView> {
    |s: SessionView|
        if is_active(s) && s.guess is Some {
            Some(GuessView { client_id: s.id, name: s.name->0, guess: s.guess->0 })
        } else {
            None
        }
}

/// The guesses that active sessions hold, in the order of the table.
pub open spec fn guesses(t: Seq<SessionView>) -> Seq<GuessView> {
    t.filter_map(guess_of())
}

/// The number of rounds that are running: one or none.
pub open spec fn active_rounds(g: GameView) -> nat {
    if g.current_city is Some {
        1
    } else {
        0
    }
}

/// What a session that says hello is sent: a welcome, and the prompt of the
/// round that is running, if one is.
pub open spec fn greeting(g: GameView, id: u32) -> Seq<OutboundView> {
    let welcome = OutboundView {
        client_id: id,
        message: ServerMessageView::Welcome { server_name: SERVER_NAME@ },
    };
    match g.current_city {
        Some(city) => seq![
            welcome,
            OutboundView {
                client_id: id,
                message: ServerMessageView::NewRound { city_name: city.name },
            },
        ],
        None => seq![welcome],
    }
}

/// A message of a client is taken in. A hello names the session and is
/// answered; a guess is recorded unless the session holds one already.
/// A message of a session that is not connected changes nothing.
pub open spec fn received(g: GameView, id: u32, message: ClientMessageView) -> StepView {
    match message {
        ClientMessageView::Hello { name } => StepView {
            game: GameView { clients: named(g.clients, id, name), ..g },
            sent: if knows(g.clients, id) {
                greeting(g, id)
            } else {
                Seq::empty()
            },
            finished: None,
        },
        ClientMessageView::Guess(guess) => StepView {
            game: GameView { clients: guessed(g.clients, id, guess), ..g },
            sent: Seq::empty(),
            finished: None,
        },
    }
}

/// A round is running and complete.
pub open spec fn is_over(g: GameView) -> bool {
    g.current_city is Some && round_complete(g.clients)
}

/// The round is closed if it is complete: the true location goes to every
/// active session, the guesses are reported, and no round is running.
pub open spec fn concluded(g: GameView) -> StepView {
    if is_over(g) {
        let city = g.current_city->0;
        StepView {
            game: GameView { current_city: None, ..g },
            sent: announce(
                g.clients,
                ServerMessageView::RoundResults { actual_location: city.coordinates },
            ),
            finished: Some(
                ReportView {
                    city_name: city.name,
                    actual_location: city.coordinates,
                    guesses: guesses(g.clients),
                },
            ),
        }
    } else {
        StepView { game: g, sent: Seq::empty(), finished: None }
    }
}

/// A round on the city at `pick` is started: the guesses of the active
/// sessions are wiped, and then the prompt goes to each of them.
pub open spec fn started(g: GameView, pick: int) -> StepView {
    let city = g.cities[pick];
    let clients = cleared(g.clients);
    StepView {
        game: GameView { clients, current_city: Some(city), ..g },
        sent: announce(clients, ServerMessageView::NewRound { city_name: city.name }),
        finished: None,
    }
}

/// A round on the city at `pick` is started if none is running.
pub open spec fn begun(g: GameView, pick: int) -> StepView {
    if g.current_city is None {
        started(g, pick)
    } else {
        StepView { game: g, sent: Seq::empty(), finished: None }
    }
}

/// The round policy, evaluated once: close the round if it is complete, then
/// start one if none is running.
pub open spec fn settled(g: GameView, pick: int) -> StepView {
    let closing = concluded(g);
    let opening = begun(closing.game, pick);
    StepView {
        game: opening.game,
        sent: closing.sent + opening.sent,
        finished: closing.finished,
    }
}

/// A state that a coordinator can be in: the dataset is not empty, and the
/// table is in ascending order of the identifiers.
pub open spec fn valid(g: GameView) -> bool {
    &&& g.cities.len() > 0
    &&& ascending(g.clients)
}

/// The state once an event is taken in and before anything follows from it.
pub open spec fn applied(g: GameView, event: EventView) -> GameView {
    match event {
        EventView::Connect(id) => GameView { clients: joined(g.clients, id), ..g },
        EventView::ClientMessage(id, message) => received(g, id, message).game,
        EventView::Disconnect(id) => GameView { clients: parted(g.clients, id), ..g },
    }
}

/// What is sent in direct answer to an event, before the round policy is
/// evaluated: the greeting that answers a hello.
pub open spec fn replies(g: GameView, event: EventView) -> Seq<OutboundView> {
    match event {
        EventView::ClientMessage(id, message) => received(g, id, message).sent,
        _ => Seq::empty(),
    }
}

/// What one event leads to: the event is taken in, and the round policy is
/// evaluated once.
pub open spec fn step(g: GameView, event: EventView, pick: int) -> StepView {
    let policy = settled(applied(g, event), pick);
    StepView { game: policy.game, sent: replies(g, event) + policy.sent, finished: policy.finished }
}

/// The state after a sequence of events, the `i`-th of them with the draw
/// `picks[i]`.
pub open spec fn run(g: GameView, events: Seq<EventView>, picks: Seq<int>) -> GameView
    decreases events.len(),
{
    if events.len() == 0 {
        g
    } else {
        step(run(g, events.drop_last(), picks.drop_last()), events.last(), picks.last()).game
    }
}

} // verus!
