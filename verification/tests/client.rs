use rustdemo::client::{GameState, Transition, TransitionInformation};
use rustdemo::coordinate::Coordinate;
use rustdemo::protocol::ServerMessage;

fn prompt(city: &str) -> ServerMessage {
    ServerMessage::NewRound { city_name: city.to_string() }
}

fn result(lon: u64, lat: u64) -> ServerMessage {
    ServerMessage::RoundResults { actual_location: Coordinate::new(lon, lat) }
}

#[test]
fn client_walks_through_a_round() {
    let mut state = GameState::Starting;
    let mut info = TransitionInformation::new();
    assert_eq!(state.advance(true, &mut info), Transition::Stay);
    assert_eq!(state, GameState::Starting);

    info.note(ServerMessage::Welcome { server_name: "s".to_string() });
    assert_eq!(info, TransitionInformation::new());
    info.note(prompt("Lund"));
    assert_eq!(info.next_city, Some("Lund".to_string()));

    assert_eq!(state.advance(false, &mut info), Transition::Guess { city_name: "Lund".to_string() });
    assert_eq!(state, GameState::Guessing);
    assert_eq!(info, TransitionInformation::new());

    assert_eq!(state.advance(false, &mut info), Transition::Stay);
    assert_eq!(state.advance(true, &mut info), Transition::Wait);
    assert_eq!(state, GameState::Waiting);

    assert_eq!(state.advance(true, &mut info), Transition::Stay);
    info.note(result(3, 4));
    info.note(prompt("Umeå"));
    assert_eq!(
        state.advance(false, &mut info),
        Transition::Reveal { actual_location: Coordinate::new(3, 4) }
    );
    assert_eq!(state, GameState::Reviewing);
    assert_eq!(info.next_actual_location, None);
    assert_eq!(info.next_city, Some("Umeå".to_string()));

    // The next prompt waits for a click.
    assert_eq!(state.advance(false, &mut info), Transition::Stay);
    assert_eq!(state, GameState::Reviewing);
    assert_eq!(state.advance(true, &mut info), Transition::Guess { city_name: "Umeå".to_string() });
    assert_eq!(state, GameState::Guessing);
}

#[test]
fn client_forgets_everything_when_the_guessing_starts() {
    let mut state = GameState::Starting;
    let mut info = TransitionInformation::new();
    info.note(result(1, 1));
    info.note(prompt("first"));
    info.note(prompt("second"));
    assert_eq!(state.advance(false, &mut info), Transition::Guess { city_name: "second".to_string() });
    assert_eq!(info, TransitionInformation::new());
}

#[test]
fn client_keeps_a_prompt_that_comes_while_guessing_or_waiting() {
    let mut state = GameState::Guessing;
    let mut info = TransitionInformation::new();
    info.note(prompt("later"));
    assert_eq!(state.advance(false, &mut info), Transition::Stay);
    assert_eq!(state.advance(true, &mut info), Transition::Wait);
    assert_eq!(state.advance(true, &mut info), Transition::Stay);
    assert_eq!(info.next_city, Some("later".to_string()));
    info.note(result(9, 9));
    info.note(result(5, 6));
    assert_eq!(
        state.advance(false, &mut info),
        Transition::Reveal { actual_location: Coordinate::new(5, 6) }
    );
    assert_eq!(state.advance(true, &mut info), Transition::Guess { city_name: "later".to_string() });
}

#[test]
fn client_in_review_without_a_prompt_stays() {
    let mut state = GameState::Reviewing;
    let mut info = TransitionInformation::new();
    info.note(result(1, 2));
    assert_eq!(state.advance(true, &mut info), Transition::Stay);
    assert_eq!(state, GameState::Reviewing);
    assert_eq!(info.next_actual_location, Some(Coordinate::new(1, 2)));
}
