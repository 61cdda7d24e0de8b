//! The controller state around the engine: the built-in level, the running
//! flag a front end polls, and the per-trigger tick. A front end draws the
//! world and calls `tick` on the player's trigger; everything it reads comes
//! from the world's fields.

use vstd::prelude::*;
use vstd::pervasive::unreached;

use crate::engine::{step_entity, World};
use crate::model::{
    advance_spec, step_spec, stepper_in_bounds, EngineError, Heading, Mirror, Stepper, WorldModel,
};

verus! {

/// The built-in level: a 40×13 grid, the player at the lower-left corner
/// heading up, two automatic entities, and six deflectors.
pub open spec fn level_model() -> WorldModel {
    WorldModel {
        width: 40,
        height: 13,
        player: Stepper { x: 0, y: 12, d: Heading::Up },
        alive: true,
        autos: seq![
            Stepper { x: 5, y: 5, d: Heading::Left },
            Stepper { x: 3, y: 11, d: Heading::Up },
        ],
        mirrors: seq![
            Mirror { x: 0, y: 5, d: true },
            Mirror { x: 3, y: 5, d: true },
            Mirror { x: 3, y: 2, d: false },
            Mirror { x: 0, y: 2, d: false },
            Mirror { x: 0, y: 0, d: true },
            Mirror { x: 3, y: 0, d: false },
        ],
    }
}

/// The controller: the world and whether the session is still running.
pub struct App {
    pub world: World,
    pub running: bool,
}

impl App {
    /// Starts the built-in level.
    pub fn new() -> (a: App)
        ensures
            a.running,
            a.world.wf(),
            a.world@ == level_model(),
    {
        let player = Stepper::new(0, 12, Heading::Up);
        let mut steppers: Vec<Stepper> = Vec::new();
        steppers.push(Stepper::new(5, 5, Heading::Left));
        steppers.push(Stepper::new(3, 11, Heading::Up));
        let mut mirrors: Vec<Mirror> = Vec::new();
        mirrors.push(Mirror::new(0, 5, true));
        mirrors.push(Mirror::new(3, 5, true));
        mirrors.push(Mirror::new(3, 2, false));
        mirrors.push(Mirror::new(0, 2, false));
        mirrors.push(Mirror::new(0, 0, true));
        mirrors.push(Mirror::new(3, 0, false));
        proof {
            assert(steppers@ =~= level_model().autos);
            assert(mirrors@ =~= level_model().mirrors);
            assert(level_model().wf());
        }
        match World::new(40, 13, player, steppers, mirrors) {
            Ok(world) => App { world, running: true },
            Err(_) => unreached(),
        }
    }

    /// Ends the session; the world is left as it is.
    pub fn quit(&mut self)
        ensures
            !final(self).running,
            final(self).world == old(self).world,
    {
        self.running = false;
    }

    /// One manual tick trigger: advances the world by exactly one tick.
    pub fn tick(&mut self) -> (r: Result<(), EngineError>)
        requires
            old(self).world.wf(),
        ensures
            final(self).running == old(self).running,
            final(self).world.wf(),
            match r {
                Ok(()) => advance_spec(old(self).world@) == Ok::<WorldModel, EngineError>(
                    final(self).world@,
                ),
                Err(e) => final(self).world == old(self).world && advance_spec(old(self).world@)
                    == Err::<WorldModel, EngineError>(e),
            },
    {
        self.world.advance()
    }

    /// One entity's next position and heading against this world's deflector
    /// layout, the world itself unchanged.
    pub fn step(&self, s: &Stepper) -> (r: Result<Stepper, EngineError>)
        requires
            stepper_in_bounds(*s, self.world@.width, self.world@.height),
        ensures
            r == step_spec(*s, self.world@.mirrors, self.world@.width, self.world@.height),
    {
        step_entity(s, &self.world.mirrors, self.world.width, self.world.height)
    }

    /// Whether a terminal of the given size is large enough for the front
    /// end's layout.
    pub fn handle_resize(&self, width: u16, height: u16) -> (ok: bool)
        ensures
            ok == (width >= 100 && height >= 30),
    {
        width >= 100 && height >= 30
    }
}

} // verus!
