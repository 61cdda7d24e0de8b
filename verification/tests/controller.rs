use mirrorgrid::app::App;
use mirrorgrid::model::{Heading, Mirror, Stepper};

#[test]
fn new_starts_the_level() {
    let app = App::new();
    assert!(app.running);
    assert!(app.world.alive);
    assert_eq!(app.world.width, 40);
    assert_eq!(app.world.height, 13);
    assert_eq!(app.world.player, Stepper::new(0, 12, Heading::Up));
    assert_eq!(
        app.world.steppers,
        vec![Stepper::new(5, 5, Heading::Left), Stepper::new(3, 11, Heading::Up)]
    );
    assert_eq!(
        app.world.mirrors,
        vec![
            Mirror::new(0, 5, true),
            Mirror::new(3, 5, true),
            Mirror::new(3, 2, false),
            Mirror::new(0, 2, false),
            Mirror::new(0, 0, true),
            Mirror::new(3, 0, false),
        ]
    );
}

#[test]
fn quit_stops_running() {
    let mut app = App::new();
    app.quit();
    assert!(!app.running);
    assert!(app.world.alive);
}

#[test]
fn tick_advances_the_level() {
    let mut app = App::new();
    assert_eq!(app.tick(), Ok(()));
    assert_eq!(app.world.player, Stepper::new(0, 11, Heading::Up));
    assert_eq!(
        app.world.steppers,
        vec![Stepper::new(4, 5, Heading::Left), Stepper::new(3, 10, Heading::Up)]
    );
    assert!(app.world.alive);
    assert!(app.running);
}

#[test]
fn step_queries_one_entity() {
    let app = App::new();
    // one cell up from just under the level's deflector at (0, 5), a `/`:
    // up turns right
    let r = app.step(&Stepper::new(0, 6, Heading::Up)).unwrap();
    assert_eq!(r, Stepper::new(1, 5, Heading::Right));
}

#[test]
fn handle_resize_checks_layout_floor() {
    let app = App::new();
    assert!(app.handle_resize(100, 30));
    assert!(app.handle_resize(150, 40));
    assert!(!app.handle_resize(99, 30));
    assert!(!app.handle_resize(100, 29));
}
