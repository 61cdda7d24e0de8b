use mirrorgrid::engine::World;
use mirrorgrid::model::{Heading, Mirror, Stepper};

fn sample() -> World {
    World::new(
        12,
        12,
        Stepper::new(6, 11, Heading::Up),
        vec![Stepper::new(2, 2, Heading::Right), Stepper::new(9, 3, Heading::Down)],
        vec![Mirror::new(6, 4, false), Mirror::new(2, 6, true)],
    )
    .unwrap()
}

#[test]
fn round_trip_preserves_world() {
    let w = sample();
    let decoded = World::decode(&w.encode()).unwrap();
    assert_eq!(decoded, w);
}

#[test]
fn round_trip_preserves_dead_player() {
    let mut w = sample();
    w.alive = false;
    let decoded = World::decode(&w.encode()).unwrap();
    assert_eq!(decoded, w);
    assert!(!decoded.alive);
}

#[test]
fn round_trip_same_tick_sequence() {
    let mut w = sample();
    let mut decoded = World::decode(&w.encode()).unwrap();
    for _ in 0..8 {
        let r1 = w.advance();
        let r2 = decoded.advance();
        assert_eq!(r1, r2);
        assert_eq!(w, decoded);
    }
}

#[test]
fn encode_layout() {
    let w = World::new(
        7,
        5,
        Stepper::new(1, 2, Heading::Left),
        vec![Stepper::new(3, 4, Heading::Down)],
        vec![Mirror::new(2, 2, true)],
    )
    .unwrap();
    // header: width, height, player x, player y, heading code, alive, count
    assert_eq!(w.encode(), vec![7, 5, 1, 2, 2, 1, 1, 3, 4, 1, 1, 2, 2, 1]);
}

#[test]
fn decode_rejects_truncated_stream() {
    assert!(World::decode(&vec![]).is_none());
    assert!(World::decode(&vec![7, 5, 1, 2, 2, 1]).is_none());
    let mut data = sample().encode();
    data.pop();
    assert!(World::decode(&data).is_none());
}

#[test]
fn decode_rejects_bad_heading_code() {
    // a valid single-entity stream, then the heading code spoiled
    let w = World::new(
        7,
        5,
        Stepper::new(1, 2, Heading::Left),
        vec![Stepper::new(3, 4, Heading::Down)],
        vec![],
    )
    .unwrap();
    let mut data = w.encode();
    data[8] = 9;
    assert!(World::decode(&data).is_none());
}

#[test]
fn decode_rejects_bad_alive_flag() {
    let mut data = sample().encode();
    data[5] = 2;
    assert!(World::decode(&data).is_none());
}

#[test]
fn decode_rejects_invalid_world() {
    // parses, but the player stands outside the declared bounds
    let data = vec![7, 5, 7, 2, 0, 1, 0, 0];
    assert!(World::decode(&data).is_none());
    // parses, but two deflectors share a cell
    let data = vec![7, 5, 1, 2, 0, 1, 0, 2, 2, 2, 1, 2, 2, 0];
    assert!(World::decode(&data).is_none());
}
