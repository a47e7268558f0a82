//! The session coordinator: the one owner of the game's state.

use crate::city::{records, CityData};
use crate::coordinate::Coordinate;
use crate::model::{
    addressed, announce, applied, begun, concluded, greeting, guess_of, guesses, received,
    replies, started, step, valid, EventView, GameView, GuessView, OutboundView, ReportView,
    StepView, SERVER_NAME,
};
use crate::protocol::{ClientMessage, ServerMessage};
use crate::random::{draw_below, local_generator};
use crate::table::{joined, knows, Client, ClientTable};
use crate::winner::{closest, is_first_minimum};
use vstd::prelude::*;

verus! {

/// A message on its way to one session.
#[derive(Clone, Debug, PartialEq, Eq)]
pub struct Outbound {
    pub client_id: u32,
    pub message: ServerMessage,
}

impl View for Outbound {
    type V = OutboundView;

    open spec fn view(&self) -> OutboundView {
        OutboundView { client_id: self.client_id, message: self.message@ }
    }
}

/// The mathematical value of a queue of messages.
pub open spec fn outbox(sent: Seq<Outbound>) -> Seq<OutboundView> {
    sent.map_values(|o: Outbound| o@)
}

/// The answer that one active session held when its round was completed.
#[derive(Clone, Debug, PartialEq, Eq)]
pub struct GuessEntry {
    pub client_id: u32,
    pub name: String,
    pub guess: Coordinate,
}

impl View for GuessEntry {
    type V = GuessView;

    open spec fn view(&self) -> GuessView {
        GuessView { client_id: self.client_id, name: self.name@, guess: self.guess }
    }
}

/// What a completed round leaves behind: the city, where it really is, and
/// the guesses of the active sessions in the order of the table.
#[derive(Clone, Debug, PartialEq, Eq)]
pub struct RoundReport {
    pub city_name: String,
    pub actual_location: Coordinate,
    pub guesses: Vec<GuessEntry>,
}

impl View for RoundReport {
    type V = ReportView;

    open spec fn view(&self) -> ReportView {
        ReportView {
            city_name: self.city_name@,
            actual_location: self.actual_location,
            guesses: self.guesses@.map_values(|e: GuessEntry| e@),
        }
    }
}

impl RoundReport {
    /// The winner of the round, given the distance of each guess from the
    /// true location, in the order of the guesses: the session whose guess
    /// is the closest, and of several that are equally close the first. It
    /// is handed back with its guess and its distance. Nobody wins a round
    /// without guesses.
    pub fn calculate_winner(&self, distances: &Vec<u64>) -> (winner: Option<
        (u32, &GuessEntry, u64),
    >)
        requires
            distances@.len() == self@.guesses.len(),
        ensures
            match winner {
                Some((client_id, entry, distance)) => exists|i: int|
                    #[trigger] is_first_minimum(distances@, i) && entry@ == self@.guesses[i]
                        && client_id == self@.guesses[i].client_id && distance == distances@[i],
                None => self@.guesses.len() == 0,
            },
    {
        match closest(distances) {
            Some(i) => {
                let entry = &self.guesses[i];
                Some((entry.client_id, entry, distances[i]))
            },
            None => None,
        }
    }
}

/// The mathematical value of a report that may be missing.
pub open spec fn report_of(finished: Option<RoundReport>) -> Option<ReportView> {
    match finished {
        Some(report) => Some(report@),
        None => None,
    }
}

/// What the coordinator asks of its caller after an event: the messages to
/// send, in order, and the report of the round the event completed.
#[derive(Clone, Debug, PartialEq, Eq)]
pub struct Outcome {
    pub sent: Vec<Outbound>,
    pub finished: Option<RoundReport>,
}

/// An outcome beside the state it left, as the model's step.
pub open spec fn observed(game: GameView, outcome: Outcome) -> StepView {
    StepView { game, sent: outbox(outcome.sent@), finished: report_of(outcome.finished) }
}

/// What reaches the coordinator.
#[derive(Clone, Debug, PartialEq, Eq)]
pub enum SocketEvent {
    /// A connection was accepted under this identifier.
    Connect(u32),
    /// The session sent a message.
    ClientMessage(u32, ClientMessage),
    /// The connection of the session is gone.
    Disconnect(u32),
}

impl View for SocketEvent {
    type V = EventView;

    open spec fn view(&self) -> EventView {
        match self {
            SocketEvent::Connect(id) => EventView::Connect(*id),
            SocketEvent::ClientMessage(id, message) => EventView::ClientMessage(*id, message@),
            SocketEvent::Disconnect(id) => EventView::Disconnect(*id),
        }
    }
}

/// The coordinator's state: the dataset, the sessions, the round.
pub struct GameHandler {
    cities: Vec<CityData>,
    clients: ClientTable,
    current_city: Option<CityData>,
    rng: rand::rngs::ThreadRng,
}

impl View for GameHandler {
    type V = GameView;

    closed spec fn view(&self) -> GameView {
        GameView {
            cities: records(self.cities@),
            clients: self.clients@,
            current_city: match self.current_city {
                Some(city) => Some(city@),
                None => None,
            },
        }
    }
}

impl GameHandler {
    /// The coordinator's invariant: the dataset is not empty, and the table
    /// is in ascending order of the identifiers.
    pub open spec fn wf(&self) -> bool {
        valid(self@)
    }

    /// A coordinator over `cities`, with nobody connected and no round
    /// running.
    pub fn new(cities: Vec<CityData>) -> (game: GameHandler)
        requires
            cities@.len() > 0,
        ensures
            game.wf(),
            game@ == (GameView {
                cities: records(cities@),
                clients: Seq::empty(),
                current_city: None,
            }),
    {
        GameHandler {
            cities,
            clients: ClientTable::new(),
            current_city: None,
            rng: local_generator(),
        }
    }

    /// The number of cities in the dataset.
    pub fn city_count(&self) -> (n: usize)
        ensures
            n == self@.cities.len(),
    {
        self.cities.len()
    }

    /// A new session under `client_id`, without a name or a guess. A session
    /// that the identifier had before is forgotten.
    pub fn add_client(&mut self, client_id: u32)
        requires
            old(self).wf(),
        ensures
            final(self).wf(),
            final(self)@ == (GameView { clients: joined(old(self)@.clients, client_id), ..old(self)@ }),
    {
        self.clients.insert(client_id, Client::new());
    }

    /// Queues `message` for `client_id` behind what `sent` holds. Nothing is
    /// queued for a session that is not connected.
    pub fn send_message_to_client(
        &self,
        client_id: u32,
        message: &ServerMessage,
        sent: &mut Vec<Outbound>,
    )
        requires
            self.wf(),
        ensures
            outbox(final(sent)@) == outbox(old(sent)@) + (if knows(self@.clients, client_id) {
                seq![OutboundView { client_id, message: message@ }]
            } else {
                Seq::<OutboundView>::empty()
            }),
    {
        let ghost before = outbox(sent@);
        if self.clients.position(client_id).is_some() {
            sent.push(Outbound { client_id, message: message.duplicate() });
            assert(outbox(sent@) =~= before + seq![OutboundView { client_id, message: message@ }]);
        } else {
            assert(outbox(sent@) =~= before + Seq::<OutboundView>::empty());
        }
    }

    /// Queues `message` for every active session, in the order of the table.
    fn broadcast(&self, message: &ServerMessage, sent: &mut Vec<Outbound>)
        ensures
            outbox(final(sent)@) == outbox(old(sent)@) + announce(self@.clients, message@),
    {
        let ghost before = outbox(sent@);
        let ghost t = self@.clients;
        let ghost f = addressed(message@);
        let n = self.clients.len();
        let mut k: usize = 0;
        assert(outbox(sent@) =~= before + t.take(0).filter_map(f));
        while k < n
            invariant
                k <= n,
                n == t.len(),
                t == self.clients@,
                f == addressed(message@),
                outbox(sent@) == before + t.take(k as int).filter_map(f),
            decreases n - k,
        {
            let ghost queued = outbox(sent@);
            let client = self.clients.client_at(k);
            if client.name.is_some() {
                sent.push(Outbound { client_id: self.clients.id_at(k), message: message.duplicate() });
                assert(outbox(sent@) =~= queued.push(f(t[k as int])->0));
            }
            proof {
                t.lemma_filter_map_take_succ(f, k as int);
                assert(outbox(sent@) =~= before + t.take(k + 1).filter_map(f));
            }
            k += 1;
        }
        assert(t.take(n as int) =~= t);
    }

    /// The guesses that active sessions hold, in the order of the table.
    fn collect_guesses(&self) -> (held: Vec<GuessEntry>)
        ensures
            held@.map_values(|e: GuessEntry| e@) == guesses(self@.clients),
    {
        let ghost t = self@.clients;
        let ghost f = guess_of();
        let mut held: Vec<GuessEntry> = Vec::new();
        let n = self.clients.len();
        let mut k: usize = 0;
        assert(held@.map_values(|e: GuessEntry| e@) =~= t.take(0).filter_map(f));
        while k < n
            invariant
                k <= n,
                n == t.len(),
                t == self.clients@,
                f == guess_of(),
                held@.map_values(|e: GuessEntry| e@) == t.take(k as int).filter_map(f),
            decreases n - k,
        {
            let ghost before = held@.map_values(|e: GuessEntry| e@);
            let client = self.clients.client_at(k);
            match (&client.name, client.guess) {
                (Some(name), Some(guess)) => {
                    held.push(
                        GuessEntry { client_id: self.clients.id_at(k), name: name.clone(), guess },
                    );
                    assert(held@.map_values(|e: GuessEntry| e@) =~= before.push(
                        f(t[k as int])->0,
                    ));
                },
                _ => {},
            }
            proof {
                t.lemma_filter_map_take_succ(f, k as int);
                assert(held@.map_values(|e: GuessEntry| e@) =~= t.take(k + 1).filter_map(f));
            }
            k += 1;
        }
        assert(t.take(n as int) =~= t);
        held
    }

    /// Takes a message of a client in.
    fn receive(&mut self, client_id: u32, client_message: ClientMessage, sent: &mut Vec<Outbound>)
        requires
            old(self).wf(),
        ensures
            final(self).wf(),
            final(self)@ == received(old(self)@, client_id, client_message@).game,
            outbox(final(sent)@) == outbox(old(sent)@) + received(
                old(self)@,
                client_id,
                client_message@,
            ).sent,
    {
        let ghost before = outbox(sent@);
        match client_message {
            ClientMessage::Hello { name } => {
                if self.clients.set_name(client_id, name) {
                    proof {
                        let t = old(self)@.clients;
                        let i = choose|i: int| 0 <= i < t.len() && #[trigger] t[i].id == client_id;
                        assert(self@.clients[i].id == client_id);
                        assert(knows(self@.clients, client_id));
                    }
                    let welcome = ServerMessage::Welcome { server_name: SERVER_NAME.to_owned() };
                    self.send_message_to_client(client_id, &welcome, sent);
                    // A session that joins while a round is running is given its prompt.
                    match &self.current_city {
                        Some(city) => {
                            let prompt = ServerMessage::NewRound { city_name: city.name.clone() };
                            self.send_message_to_client(client_id, &prompt, sent);
                        },
                        None => {},
                    }
                    assert(outbox(sent@) =~= before + greeting(old(self)@, client_id));
                } else {
                    assert(outbox(sent@) =~= before + Seq::<OutboundView>::empty());
                }
            },
            ClientMessage::Guess(coordinate) => {
                let _ = self.clients.record_guess(client_id, coordinate);
                assert(outbox(sent@) =~= before + Seq::<OutboundView>::empty());
            },
        }
    }

    /// Closes the round if it is complete.
    fn conclude(&mut self, sent: &mut Vec<Outbound>) -> (finished: Option<RoundReport>)
        requires
            old(self).wf(),
        ensures
            final(self).wf(),
            final(self)@ == concluded(old(self)@).game,
            outbox(final(sent)@) == outbox(old(sent)@) + concluded(old(self)@).sent,
            report_of(finished) == concluded(old(self)@).finished,
    {
        let ghost before = outbox(sent@);
        if self.current_city.is_some() && self.clients.is_complete() {
            let held = self.collect_guesses();
            let city = self.current_city.take().unwrap();
            let results = ServerMessage::RoundResults { actual_location: city.coordinates };
            self.broadcast(&results, sent);
            Some(
                RoundReport {
                    city_name: city.name,
                    actual_location: city.coordinates,
                    guesses: held,
                },
            )
        } else {
            assert(outbox(sent@) =~= before + Seq::<OutboundView>::empty());
            None
        }
    }

    /// Starts a round on the city at `pick`, whether or not one is running:
    /// the guesses of the active sessions are wiped, and the prompt is queued
    /// for each of them behind what `sent` holds.
    pub fn new_round(&mut self, pick: usize, sent: &mut Vec<Outbound>)
        requires
            old(self).wf(),
            pick < old(self)@.cities.len(),
        ensures
            final(self).wf(),
            final(self)@ == started(old(self)@, pick as int).game,
            outbox(final(sent)@) == outbox(old(sent)@) + started(old(self)@, pick as int).sent,
    {
        let city = self.cities[pick].duplicate();
        let prompt = ServerMessage::NewRound { city_name: city.name.clone() };
        self.clients.clear_guesses();
        self.broadcast(&prompt, sent);
        self.current_city = Some(city);
    }

    /// Starts a round on the city at `pick` if none is running.
    fn begin(&mut self, pick: usize, sent: &mut Vec<Outbound>)
        requires
            old(self).wf(),
            pick < old(self)@.cities.len(),
        ensures
            final(self).wf(),
            final(self)@ == begun(old(self)@, pick as int).game,
            outbox(final(sent)@) == outbox(old(sent)@) + begun(old(self)@, pick as int).sent,
    {
        if self.current_city.is_none() {
            self.new_round(pick, sent);
        } else {
            assert(outbox(sent@) =~= outbox(sent@) + Seq::<OutboundView>::empty());
        }
    }

    /// Starts a round if none is running, on the city at `pick` where one is
    /// given and on a city drawn at random where none is, and says on which.
    fn begin_on(&mut self, pick: Option<usize>, sent: &mut Vec<Outbound>) -> (chosen: Ghost<int>)
        requires
            old(self).wf(),
            pick matches Some(p) ==> p < old(self)@.cities.len(),
        ensures
            final(self).wf(),
            0 <= chosen@ < old(self)@.cities.len(),
            pick matches Some(p) ==> chosen@ == p,
            final(self)@ == begun(old(self)@, chosen@).game,
            outbox(final(sent)@) == outbox(old(sent)@) + begun(old(self)@, chosen@).sent,
    {
        match pick {
            Some(p) => {
                self.begin(p, sent);
                Ghost(p as int)
            },
            None => {
                if self.current_city.is_none() {
                    let drawn = draw_below(&mut self.rng, self.cities.len());
                    self.begin(drawn, sent);
                    Ghost(drawn as int)
                } else {
                    assert(outbox(sent@) =~= outbox(sent@) + Seq::<OutboundView>::empty());
                    Ghost(0)
                }
            },
        }
    }

    /// Takes one event in and evaluates the round policy once: the round is
    /// closed if the event completed it, and a round is started if none is
    /// running, on the city at `pick` or, where none is given, on a city
    /// drawn at random.
    fn handle(&mut self, event: SocketEvent, pick: Option<usize>) -> (handled: (Outcome, Ghost<int>))
        requires
            old(self).wf(),
            pick matches Some(p) ==> p < old(self)@.cities.len(),
        ensures
            final(self).wf(),
            0 <= handled.1@ < old(self)@.cities.len(),
            pick matches Some(p) ==> handled.1@ == p,
            observed(final(self)@, handled.0) == step(old(self)@, event@, handled.1@),
    {
        let ghost e = event@;
        let mut sent: Vec<Outbound> = Vec::new();
        assert(outbox(sent@) =~= Seq::<OutboundView>::empty());
        match event {
            SocketEvent::Connect(socket_id) => {
                self.add_client(socket_id);
            },
            SocketEvent::ClientMessage(sender_id, message) => {
                self.receive(sender_id, message, &mut sent);
            },
            SocketEvent::Disconnect(socket_id) => {
                let _ = self.clients.remove(socket_id);
            },
        }
        assert(self@ == applied(old(self)@, e));
        assert(outbox(sent@) =~= replies(old(self)@, e));
        let finished = self.conclude(&mut sent);
        let chosen = self.begin_on(pick, &mut sent);
        let outcome = Outcome { sent, finished };
        proof {
            let expected = step(old(self)@, e, chosen@);
            assert(observed(self@, outcome).sent =~= expected.sent);
            assert(observed(self@, outcome) == expected);
        }
        (outcome, chosen)
    }

    /// Handles one event. A round that has to start is on a city drawn at
    /// random: the outcome is that of the model for some city of the dataset.
    pub fn handle_event(&mut self, event: SocketEvent) -> (outcome: Outcome)
        requires
            old(self).wf(),
        ensures
            final(self).wf(),
            exists|pick: int|
                0 <= pick < old(self)@.cities.len() && observed(final(self)@, outcome)
                    == #[trigger] step(old(self)@, event@, pick),
    {
        let (outcome, _) = self.handle(event, None);
        outcome
    }

    /// Handles one event as [`GameHandler::handle_event`] does, with the
    /// city at `pick` in place of a draw.
    pub fn handle_event_with(&mut self, event: SocketEvent, pick: usize) -> (outcome: Outcome)
        requires
            old(self).wf(),
            pick < old(self)@.cities.len(),
        ensures
            final(self).wf(),
            observed(final(self)@, outcome) == step(old(self)@, event@, pick as int),
    {
        let (outcome, _) = self.handle(event, Some(pick));
        outcome
    }

    /// Handles a message of a client: the message is taken in, the round is
    /// closed if that completed it, and a round is started on a city drawn
    /// at random if none is running. The outcome is that of the model for
    /// some city of the dataset.
    pub fn handle_client_message(&mut self, client_id: u32, client_message: ClientMessage) -> (outcome:
        Outcome)
        requires
            old(self).wf(),
        ensures
            final(self).wf(),
            exists|pick: int|
                0 <= pick < old(self)@.cities.len() && observed(final(self)@, outcome)
                    == #[trigger] step(
                    old(self)@,
                    EventView::ClientMessage(client_id, client_message@),
                    pick,
                ),
    {
        self.handle_event(SocketEvent::ClientMessage(client_id, client_message))
    }

    /// Handles a message of a client as [`GameHandler::handle_client_message`]
    /// does, with the city at `pick` in place of a draw.
    pub fn handle_client_message_with(
        &mut self,
        client_id: u32,
        client_message: ClientMessage,
        pick: usize,
    ) -> (outcome: Outcome)
        requires
            old(self).wf(),
            pick < old(self)@.cities.len(),
        ensures
            final(self).wf(),
            observed(final(self)@, outcome) == step(
                old(self)@,
                EventView::ClientMessage(client_id, client_message@),
                pick as int,
            ),
    {
        self.handle_event_with(SocketEvent::ClientMessage(client_id, client_message), pick)
    }

    /// Handles the disconnection of `client_id`: the session is forgotten,
    /// and its guess with it; the round is closed if that completed it, as if
    /// a guess had arrived; and a round is started on a city drawn at random
    /// if none is running. The outcome is that of the model for some city of
    /// the dataset.
    pub fn remove_client(&mut self, client_id: u32) -> (outcome: Outcome)
        requires
            old(self).wf(),
        ensures
            final(self).wf(),
            exists|pick: int|
                0 <= pick < old(self)@.cities.len() && observed(final(self)@, outcome)
                    == #[trigger] step(old(self)@, EventView::Disconnect(client_id), pick),
    {
        self.handle_event(SocketEvent::Disconnect(client_id))
    }

    /// Handles the disconnection of `client_id` as
    /// [`GameHandler::remove_client`] does, with the city at `pick` in place
    /// of a draw.
    pub fn remove_client_with(&mut self, client_id: u32, pick: usize) -> (outcome: Outcome)
        requires
            old(self).wf(),
            pick < old(self)@.cities.len(),
        ensures
            final(self).wf(),
            observed(final(self)@, outcome) == step(
                old(self)@,
                EventView::Disconnect(client_id),
                pick as int,
            ),
    {
        self.handle_event_with(SocketEvent::Disconnect(client_id), pick)
    }

    /// The city of the round that is running, if one is.
    pub fn current_city(&self) -> (city: Option<&CityData>)
        ensures
            match city {
                Some(c) => self@.current_city == Some(c@),
                None => self@.current_city is None,
            },
    {
        self.current_city.as_ref()
    }

    /// What is remembered of `client_id`, if it is connected.
    pub fn client(&self, client_id: u32) -> (client: Option<&Client>)
        requires
            self.wf(),
        ensures
            client is Some <==> knows(self@.clients, client_id),
            client matches Some(c) ==> exists|i: int|
                0 <= i < self@.clients.len() && (#[trigger] self@.clients[i]).id == client_id
                    && c@.name == self@.clients[i].name && c@.guess == self@.clients[i].guess,
    {
        match self.clients.position(client_id) {
            Some(p) => Some(self.clients.client_at(p)),
            None => None,
        }
    }

    /// The number of connected sessions.
    pub fn client_count(&self) -> (n: usize)
        ensures
            n == self@.clients.len(),
    {
        self.clients.len()
    }
}

} // verus!
