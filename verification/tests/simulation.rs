use mirrorgrid::engine::{step_entity, World};
use mirrorgrid::model::{EngineError, Heading, Mirror, Stepper};

fn world(
    width: usize,
    height: usize,
    player: Stepper,
    steppers: Vec<Stepper>,
    mirrors: Vec<Mirror>,
) -> World {
    World::new(width, height, player, steppers, mirrors).unwrap()
}

#[test]
fn straight_moves() {
    let mirrors: Vec<Mirror> = vec![];
    let up = step_entity(&Stepper::new(5, 5, Heading::Up), &mirrors, 10, 10).unwrap();
    assert_eq!(up, Stepper::new(5, 4, Heading::Up));
    let down = step_entity(&Stepper::new(5, 5, Heading::Down), &mirrors, 10, 10).unwrap();
    assert_eq!(down, Stepper::new(5, 6, Heading::Down));
    let left = step_entity(&Stepper::new(5, 5, Heading::Left), &mirrors, 10, 10).unwrap();
    assert_eq!(left, Stepper::new(4, 5, Heading::Left));
    let right = step_entity(&Stepper::new(5, 5, Heading::Right), &mirrors, 10, 10).unwrap();
    assert_eq!(right, Stepper::new(6, 5, Heading::Right));
}

#[test]
fn deflection_table_backslash() {
    let mirrors = vec![Mirror::new(5, 5, false)];
    let up = step_entity(&Stepper::new(5, 6, Heading::Up), &mirrors, 10, 10).unwrap();
    assert_eq!(up, Stepper::new(4, 5, Heading::Left));
    let down = step_entity(&Stepper::new(5, 4, Heading::Down), &mirrors, 10, 10).unwrap();
    assert_eq!(down, Stepper::new(6, 5, Heading::Right));
    let left = step_entity(&Stepper::new(6, 5, Heading::Left), &mirrors, 10, 10).unwrap();
    assert_eq!(left, Stepper::new(5, 4, Heading::Up));
    let right = step_entity(&Stepper::new(4, 5, Heading::Right), &mirrors, 10, 10).unwrap();
    assert_eq!(right, Stepper::new(5, 6, Heading::Down));
}

#[test]
fn deflection_table_slash() {
    let mirrors = vec![Mirror::new(5, 5, true)];
    let up = step_entity(&Stepper::new(5, 6, Heading::Up), &mirrors, 10, 10).unwrap();
    assert_eq!(up, Stepper::new(6, 5, Heading::Right));
    let down = step_entity(&Stepper::new(5, 4, Heading::Down), &mirrors, 10, 10).unwrap();
    assert_eq!(down, Stepper::new(4, 5, Heading::Left));
    let left = step_entity(&Stepper::new(6, 5, Heading::Left), &mirrors, 10, 10).unwrap();
    assert_eq!(left, Stepper::new(5, 6, Heading::Down));
    let right = step_entity(&Stepper::new(4, 5, Heading::Right), &mirrors, 10, 10).unwrap();
    assert_eq!(right, Stepper::new(5, 4, Heading::Up));
}

#[test]
fn single_deflection_not_chained() {
    // The cell the entity is deflected onto holds a second deflector, which
    // must not be applied in the same tick.
    let mirrors = vec![Mirror::new(5, 5, false), Mirror::new(4, 5, false)];
    let r = step_entity(&Stepper::new(5, 6, Heading::Up), &mirrors, 10, 10).unwrap();
    assert_eq!(r, Stepper::new(4, 5, Heading::Left));
}

#[test]
fn deflection_picks_post_translation_cell() {
    // A deflector elsewhere in the list, not at the post-translation cell,
    // plays no part.
    let mirrors = vec![Mirror::new(9, 9, true), Mirror::new(5, 5, false)];
    let r = step_entity(&Stepper::new(5, 6, Heading::Up), &mirrors, 10, 10).unwrap();
    assert_eq!(r, Stepper::new(4, 5, Heading::Left));
}

#[test]
fn step_out_of_bounds() {
    let mirrors: Vec<Mirror> = vec![];
    assert_eq!(
        step_entity(&Stepper::new(0, 0, Heading::Up), &mirrors, 10, 10),
        Err(EngineError::OutOfBounds)
    );
    assert_eq!(
        step_entity(&Stepper::new(0, 0, Heading::Left), &mirrors, 10, 10),
        Err(EngineError::OutOfBounds)
    );
    assert_eq!(
        step_entity(&Stepper::new(9, 9, Heading::Down), &mirrors, 10, 10),
        Err(EngineError::OutOfBounds)
    );
    assert_eq!(
        step_entity(&Stepper::new(9, 9, Heading::Right), &mirrors, 10, 10),
        Err(EngineError::OutOfBounds)
    );
}

#[test]
fn deflection_out_of_bounds() {
    // The post-deflection cell leaves the grid even though the
    // post-translation cell is inside.
    let mirrors = vec![Mirror::new(0, 5, false)];
    assert_eq!(
        step_entity(&Stepper::new(0, 6, Heading::Up), &mirrors, 10, 10),
        Err(EngineError::OutOfBounds)
    );
}

#[test]
fn construction_rejects_conflicting_deflectors() {
    let r = World::new(
        10,
        10,
        Stepper::new(1, 1, Heading::Up),
        vec![],
        vec![Mirror::new(2, 2, true), Mirror::new(2, 2, false)],
    );
    assert_eq!(r.err(), Some(EngineError::ConflictingDeflectors));
}

#[test]
fn construction_rejects_out_of_bounds_entity() {
    let r = World::new(
        10,
        10,
        Stepper::new(1, 1, Heading::Up),
        vec![Stepper::new(10, 5, Heading::Up)],
        vec![],
    );
    assert_eq!(r.err(), Some(EngineError::OutOfBounds));
}

#[test]
fn construction_rejects_out_of_bounds_player() {
    let r = World::new(10, 10, Stepper::new(1, 10, Heading::Up), vec![], vec![]);
    assert_eq!(r.err(), Some(EngineError::OutOfBounds));
}

#[test]
fn collision_precedence_entity_not_stepped() {
    // The player's next cell holds an automatic entity: the player dies and
    // neither that entity nor any later one is stepped.
    let mut w = world(
        10,
        10,
        Stepper::new(2, 2, Heading::Up),
        vec![Stepper::new(2, 1, Heading::Right), Stepper::new(7, 7, Heading::Up)],
        vec![],
    );
    w.advance().unwrap();
    assert!(!w.alive);
    assert_eq!(w.player, Stepper::new(2, 1, Heading::Up));
    assert_eq!(
        w.steppers,
        vec![Stepper::new(2, 1, Heading::Right), Stepper::new(7, 7, Heading::Up)]
    );
}

#[test]
fn collision_after_entity_step_short_circuits() {
    // An automatic entity steps onto the player's new cell: the player dies,
    // that entity keeps its stepped value, later entities stay unstepped.
    let mut w = world(
        10,
        10,
        Stepper::new(2, 2, Heading::Up),
        vec![Stepper::new(3, 1, Heading::Left), Stepper::new(7, 7, Heading::Up)],
        vec![],
    );
    w.advance().unwrap();
    assert!(!w.alive);
    assert_eq!(
        w.steppers,
        vec![Stepper::new(2, 1, Heading::Left), Stepper::new(7, 7, Heading::Up)]
    );
}

#[test]
fn mutual_removal_three_entities() {
    // Three automatic entities step onto one shared cell: all three are
    // removed; a bystander survives stepped.
    let mut w = world(
        30,
        13,
        Stepper::new(20, 12, Heading::Up),
        vec![
            Stepper::new(4, 5, Heading::Right),
            Stepper::new(6, 5, Heading::Left),
            Stepper::new(5, 4, Heading::Down),
            Stepper::new(9, 9, Heading::Up),
        ],
        vec![],
    );
    w.advance().unwrap();
    assert!(w.alive);
    assert_eq!(w.steppers, vec![Stepper::new(9, 8, Heading::Up)]);
}

#[test]
fn mutual_removal_pair() {
    let mut w = world(
        10,
        10,
        Stepper::new(9, 9, Heading::Up),
        vec![Stepper::new(4, 5, Heading::Right), Stepper::new(6, 5, Heading::Left)],
        vec![],
    );
    w.advance().unwrap();
    assert!(w.alive);
    assert!(w.steppers.is_empty());
}

#[test]
fn dead_player_tick_is_noop() {
    let mut w = world(
        10,
        10,
        Stepper::new(2, 2, Heading::Up),
        vec![Stepper::new(5, 5, Heading::Left)],
        vec![Mirror::new(4, 4, true)],
    );
    w.alive = false;
    let before = w.encode();
    assert_eq!(w.advance(), Ok(()));
    assert_eq!(w.encode(), before);
    assert_eq!(w.steppers, vec![Stepper::new(5, 5, Heading::Left)]);
}

#[test]
fn determinism_two_copies() {
    let build = || {
        world(
            12,
            12,
            Stepper::new(6, 11, Heading::Up),
            vec![Stepper::new(2, 2, Heading::Right), Stepper::new(9, 3, Heading::Down)],
            vec![Mirror::new(6, 4, false), Mirror::new(2, 6, true), Mirror::new(9, 6, false)],
        )
    };
    let mut w1 = build();
    let mut w2 = build();
    for _ in 0..6 {
        let r1 = w1.advance();
        let r2 = w2.advance();
        assert_eq!(r1, r2);
        assert_eq!(w1, w2);
        assert_eq!(w1.encode(), w2.encode());
    }
}

#[test]
fn scenario_out_of_bounds_on_seventh_tick() {
    // Bounds 40×13, player at (0,12) heading up, `\` deflectors at (0,5) and
    // (0,2): ticks one to six move the player to (0,6); the seventh tick
    // reaches the deflector at (0,5), turns left to column -1, and fails with
    // OutOfBounds, leaving the world unchanged.
    let mut w = world(
        40,
        13,
        Stepper::new(0, 12, Heading::Up),
        vec![],
        vec![Mirror::new(0, 5, false), Mirror::new(0, 2, false)],
    );
    for tick in 1..=6 {
        assert_eq!(w.advance(), Ok(()), "tick {} must succeed", tick);
        assert_eq!(w.player, Stepper::new(0, 12 - tick, Heading::Up));
    }
    let before = w.encode();
    assert_eq!(w.advance(), Err(EngineError::OutOfBounds));
    assert_eq!(w.encode(), before);
    assert_eq!(w.player, Stepper::new(0, 6, Heading::Up));
    assert!(w.alive);
}

#[test]
fn largest_grid_edges() {
    let mut w = world(
        usize::MAX,
        usize::MAX,
        Stepper::new(usize::MAX - 1, 0, Heading::Right),
        vec![],
        vec![],
    );
    assert_eq!(w.advance(), Err(EngineError::OutOfBounds));
    assert_eq!(w.player, Stepper::new(usize::MAX - 1, 0, Heading::Right));
    let mut w2 = world(
        usize::MAX,
        usize::MAX,
        Stepper::new(0, usize::MAX - 2, Heading::Down),
        vec![],
        vec![],
    );
    assert_eq!(w2.advance(), Ok(()));
    assert_eq!(w2.player, Stepper::new(0, usize::MAX - 1, Heading::Down));
}

#[test]
fn empty_world_advances() {
    let mut w = world(5, 5, Stepper::new(2, 2, Heading::Up), vec![], vec![]);
    assert_eq!(w.advance(), Ok(()));
    assert_eq!(w.player, Stepper::new(2, 1, Heading::Up));
    assert!(w.steppers.is_empty());
}
