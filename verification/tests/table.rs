use rustdemo::city::CityData;
use rustdemo::coordinate::Coordinate;
use rustdemo::game::{GameHandler, Outbound, SocketEvent};
use rustdemo::protocol::{ClientMessage, ServerMessage};
use rustdemo::table::{Client, ClientTable};

fn place(name: &str) -> CityData {
    CityData {
        coordinates: Coordinate::new(11, 22),
        cou_name_en: None,
        label_en: None,
        feature_code: String::new(),
        population: 0,
        dem: 0,
        geoname_id: String::new(),
        name: name.to_string(),
        admin1_code: None,
        admin2_code: None,
        admin3_code: None,
        admin4_code: None,
        feature_class: String::new(),
        country_code: String::new(),
        timezone: String::new(),
        modification_date: String::new(),
    }
}

fn ids(table: &ClientTable) -> Vec<u32> {
    (0..table.len()).map(|i| table.id_at(i)).collect()
}

#[test]
fn table_keeps_ascending_identifiers() {
    let mut table = ClientTable::new();
    assert_eq!(table.len(), 0);
    for id in [5, 1, 9, 3, 7, 0, u32::MAX] {
        table.insert(id, Client::new());
    }
    assert_eq!(ids(&table), vec![0, 1, 3, 5, 7, 9, u32::MAX]);
    assert_eq!(table.position(5), Some(3));
    assert_eq!(table.position(4), None);
    assert_eq!(table.position(u32::MAX), Some(6));
    assert_eq!(*table.client_at(2), Client::new());
}

#[test]
fn table_insert_replaces_a_row() {
    let mut table = ClientTable::new();
    table.insert(2, Client::new());
    table.insert(4, Client::new());
    assert!(table.set_name(2, "two".to_string()));
    assert!(table.record_guess(2, Coordinate::new(1, 1)));
    table.insert(2, Client { name: Some("again".to_string()), guess: None });
    assert_eq!(ids(&table), vec![2, 4]);
    assert_eq!(table.client_at(0).name, Some("again".to_string()));
    assert_eq!(table.client_at(0).guess, None);
}

#[test]
fn table_remove_hands_back_the_row() {
    let mut table = ClientTable::new();
    for id in [1, 2, 3] {
        table.insert(id, Client::new());
    }
    table.set_name(2, "two".to_string());
    table.record_guess(2, Coordinate::new(8, 9));
    let removed = table.remove(2).unwrap();
    assert_eq!(removed, Client { name: Some("two".to_string()), guess: Some(Coordinate::new(8, 9)) });
    assert_eq!(ids(&table), vec![1, 3]);
    assert_eq!(table.remove(2), None);
    assert_eq!(ids(&table), vec![1, 3]);
}

#[test]
fn table_names_and_guesses() {
    let mut table = ClientTable::new();
    table.insert(1, Client::new());
    assert!(!table.set_name(9, "nobody".to_string()));
    assert!(!table.record_guess(9, Coordinate::new(0, 0)));
    assert!(table.record_guess(1, Coordinate::new(1, 2)));
    assert!(!table.record_guess(1, Coordinate::new(3, 4)));
    assert_eq!(table.client_at(0).guess, Some(Coordinate::new(1, 2)));
    assert!(table.set_name(1, "a".to_string()));
    assert!(table.set_name(1, "b".to_string()));
    assert_eq!(table.client_at(0).name, Some("b".to_string()));
    assert_eq!(table.client_at(0).guess, Some(Coordinate::new(1, 2)));
}

#[test]
fn table_completion() {
    let mut table = ClientTable::new();
    assert!(!table.is_complete());
    table.insert(1, Client::new());
    table.insert(2, Client::new());
    table.record_guess(1, Coordinate::new(0, 0));
    // Nobody is active yet.
    assert!(!table.is_complete());
    table.set_name(1, "one".to_string());
    assert!(table.is_complete());
    table.set_name(2, "two".to_string());
    assert!(!table.is_complete());
    table.record_guess(2, Coordinate::new(0, 0));
    assert!(table.is_complete());
}

#[test]
fn table_clear_spares_sessions_without_a_name() {
    let mut table = ClientTable::new();
    for id in [1, 2] {
        table.insert(id, Client::new());
        table.record_guess(id, Coordinate::new(id as u64, 0));
    }
    table.set_name(2, "two".to_string());
    table.clear_guesses();
    assert_eq!(table.client_at(0).guess, Some(Coordinate::new(1, 0)));
    assert_eq!(table.client_at(1).guess, None);
    assert_eq!(table.client_at(1).name, Some("two".to_string()));
}

#[test]
fn a_round_is_running_after_every_event() {
    let mut game = GameHandler::new(vec![place("X"), place("Y"), place("Z")]);
    let events = vec![
        SocketEvent::Disconnect(3),
        SocketEvent::Connect(1),
        SocketEvent::ClientMessage(1, ClientMessage::Guess(Coordinate::new(1, 1))),
        SocketEvent::ClientMessage(1, ClientMessage::Hello { name: "a".to_string() }),
        SocketEvent::Connect(2),
        SocketEvent::ClientMessage(2, ClientMessage::Hello { name: "b".to_string() }),
        SocketEvent::ClientMessage(2, ClientMessage::Guess(Coordinate::new(2, 2))),
        SocketEvent::Disconnect(1),
        SocketEvent::Connect(1),
        SocketEvent::Disconnect(2),
        SocketEvent::Disconnect(1),
    ];
    for event in events {
        game.handle_event(event);
        assert!(game.current_city().is_some());
    }
    assert_eq!(game.client_count(), 0);
}

#[test]
fn round_does_not_complete_while_a_player_has_not_guessed() {
    let mut game = GameHandler::new(vec![place("X")]);
    for id in 0..4 {
        game.handle_event(SocketEvent::Connect(id));
        game.handle_event(SocketEvent::ClientMessage(id, ClientMessage::Hello { name: id.to_string() }));
    }
    for id in 0..3 {
        let out = game.handle_event(SocketEvent::ClientMessage(id, ClientMessage::Guess(Coordinate::new(0, 0))));
        assert!(out.finished.is_none());
        assert!(out.sent.is_empty());
    }
    // A second guess of one who has guessed changes nothing.
    let out = game.handle_event(SocketEvent::ClientMessage(0, ClientMessage::Guess(Coordinate::new(5, 5))));
    assert!(out.finished.is_none());
    let out = game.handle_event(SocketEvent::ClientMessage(3, ClientMessage::Guess(Coordinate::new(0, 0))));
    let report = out.finished.unwrap();
    assert_eq!(report.guesses.len(), 4);
    let results = ServerMessage::RoundResults { actual_location: Coordinate::new(11, 22) };
    assert_eq!(out.sent.len(), 8);
    for id in 0..4u32 {
        assert_eq!(out.sent[id as usize], Outbound { client_id: id, message: results.clone() });
    }
}

#[test]
fn new_round_wipes_and_prompts() {
    let mut game = GameHandler::new(vec![place("X"), place("Y")]);
    game.add_client(1);
    game.add_client(2);
    game.handle_client_message_with(1, ClientMessage::Hello { name: "a".to_string() }, 0);
    game.handle_client_message_with(1, ClientMessage::Guess(Coordinate::new(1, 1)), 0);
    game.handle_client_message_with(2, ClientMessage::Guess(Coordinate::new(2, 2)), 0);
    let mut sent = Vec::new();
    game.new_round(1, &mut sent);
    let prompt = ServerMessage::NewRound { city_name: "Y".to_string() };
    assert_eq!(sent, vec![Outbound { client_id: 1, message: prompt }]);
    assert_eq!(game.current_city().unwrap().name, "Y");
    assert_eq!(game.client(1).unwrap().guess, None);
    assert_eq!(game.client(2).unwrap().guess, Some(Coordinate::new(2, 2)));
}
