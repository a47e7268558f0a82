use rustdemo::protocol::ServerMessage;
use rustdemo::coordinate::Coordinate;
use rustdemo::winner::closest;

#[test]
fn nobody_wins_without_guesses() {
    assert_eq!(closest(&vec![]), None);
}

#[test]
fn least_distance_wins() {
    assert_eq!(closest(&vec![30, 10, 20]), Some(1));
    assert_eq!(closest(&vec![5, 10, 20]), Some(0));
    assert_eq!(closest(&vec![30, 10, 2]), Some(2));
}

#[test]
fn ties_go_to_the_first() {
    assert_eq!(closest(&vec![7, 3, 3, 9, 3]), Some(1));
    assert_eq!(closest(&vec![4, 4]), Some(0));
}

#[test]
fn winner_is_the_same_on_every_evaluation() {
    let distances = vec![12u64, 8, 8, 40];
    let first = closest(&distances);
    for _ in 0..10 {
        assert_eq!(closest(&distances), first);
    }
    assert_eq!(first, Some(1));
}

#[test]
fn bit_patterns_of_distances_order_as_the_distances() {
    let metres = [1250.5f64, 0.0, 7.0e6, 1250.4];
    let distances: Vec<u64> = metres.iter().map(|m| m.to_bits()).collect();
    assert_eq!(closest(&distances), Some(1));
    let distances: Vec<u64> = metres.iter().filter(|m| **m > 0.0).map(|m| m.to_bits()).collect();
    assert_eq!(closest(&distances), Some(2));
}

#[test]
fn largest_distance_can_win_alone() {
    assert_eq!(closest(&vec![u64::MAX]), Some(0));
}

#[test]
fn message_labels() {
    let w = ServerMessage::Welcome { server_name: "s".to_string() };
    let n = ServerMessage::NewRound { city_name: "c".to_string() };
    let r = ServerMessage::RoundResults { actual_location: Coordinate::new(1, 2) };
    assert_eq!(w.message_type(), "WELCOME");
    assert_eq!(n.message_type(), "NEW_ROUND");
    assert_eq!(r.message_type(), "ROUND_RESULTS");
    assert_eq!(w.duplicate(), w);
    assert_eq!(r.duplicate(), r);
}

#[test]
fn coordinate_keeps_its_patterns() {
    let c = Coordinate::new(18.0f64.to_bits(), 59.3f64.to_bits());
    assert_eq!(f64::from_bits(c.lon_bits()), 18.0);
    assert_eq!(f64::from_bits(c.lat_bits()), 59.3);
    assert_ne!(c, Coordinate::new(59.3f64.to_bits(), 18.0f64.to_bits()));
}
