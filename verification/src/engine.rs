//! The executable simulation engine: the `World` aggregate, per-entity
//! stepping, and the per-tick `advance` transition, each proved against the
//! model in `model`.

use vstd::prelude::*;

use crate::model::{
    advance_spec, colliding, dx, dy, in_bounds, layout_in_bounds, mirror_at, mirror_from,
    mirrors_distinct, prepend_autos, reflect, retained, retained_from, run_autos, step_spec,
    stepper_in_bounds, EngineError, Heading, Mirror, Stepper, WorldModel,
};

verus! {

/// The authoritative world state. The engine owns it; the only mutating
/// operation is `advance`. Reads (for a view layer) go through the fields.
#[derive(Debug, PartialEq, Eq)]
pub struct World {
    pub width: usize,
    pub height: usize,
    pub player: Stepper,
    pub alive: bool,
    pub steppers: Vec<Stepper>,
    pub mirrors: Vec<Mirror>,
}

impl View for World {
    type V = WorldModel;

    open spec fn view(&self) -> WorldModel {
        WorldModel {
            width: self.width,
            height: self.height,
            player: self.player,
            alive: self.alive,
            autos: self.steppers@,
            mirrors: self.mirrors@,
        }
    }
}

/// The executable reflection table.
pub fn reflected(orient: bool, d: Heading) -> (r: Heading)
    ensures
        r == reflect(orient, d),
{
    if orient {
        match d {
            Heading::Up => Heading::Right,
            Heading::Down => Heading::Left,
            Heading::Left => Heading::Down,
            Heading::Right => Heading::Up,
        }
    } else {
        match d {
            Heading::Up => Heading::Left,
            Heading::Down => Heading::Right,
            Heading::Left => Heading::Up,
            Heading::Right => Heading::Down,
        }
    }
}

/// One move of one cell from (x, y) along `d`, or `OutOfBounds` when the
/// target cell leaves the grid.
fn translated(x: usize, y: usize, d: Heading, width: usize, height: usize) -> (r: Result<
    (usize, usize),
    EngineError,
>)
    requires
        x < width,
        y < height,
    ensures
        in_bounds(x + dx(d), y + dy(d), width, height) ==> r == Ok::<(usize, usize), EngineError>(
            ((x + dx(d)) as usize, (y + dy(d)) as usize),
        ),
        !in_bounds(x + dx(d), y + dy(d), width, height) ==> r == Err::<(usize, usize), EngineError>(
            EngineError::OutOfBounds,
        ),
{
    match d {
        Heading::Up => {
            if y == 0 {
                Err(EngineError::OutOfBounds)
            } else {
                Ok((x, y - 1))
            }
        },
        Heading::Down => {
            if y + 1 >= height {
                Err(EngineError::OutOfBounds)
            } else {
                Ok((x, y + 1))
            }
        },
        Heading::Left => {
            if x == 0 {
                Err(EngineError::OutOfBounds)
            } else {
                Ok((x - 1, y))
            }
        },
        Heading::Right => {
            if x + 1 >= width {
                Err(EngineError::OutOfBounds)
            } else {
                Ok((x + 1, y))
            }
        },
    }
}

/// Orientation of the first deflector listed at cell (x, y), if any.
fn find_mirror(mirrors: &Vec<Mirror>, x: usize, y: usize) -> (r: Option<bool>)
    ensures
        r == mirror_at(mirrors@, x as int, y as int),
{
    let mut i: usize = 0;
    while i < mirrors.len()
        invariant
            i <= mirrors.len(),
            mirror_at(mirrors@, x as int, y as int) == mirror_from(
                mirrors@,
                x as int,
                y as int,
                i as int,
            ),
        decreases mirrors.len() - i,
    {
        if mirrors[i].x == x && mirrors[i].y == y {
            return Some(mirrors[i].d);
        }
        i += 1;
    }
    None
}

/// One entity's next position and heading for one tick, in isolation:
/// translate one cell along the heading, deflect at most once if the target
/// cell holds a deflector, and fail with `OutOfBounds` when either computed
/// cell leaves the grid.
pub fn step_entity(s: &Stepper, mirrors: &Vec<Mirror>, width: usize, height: usize) -> (r: Result<
    Stepper,
    EngineError,
>)
    requires
        stepper_in_bounds(*s, width, height),
    ensures
        r == step_spec(*s, mirrors@, width, height),
{
    let (x1, y1) = match translated(s.x, s.y, s.d, width, height) {
        Err(e) => {
            return Err(e);
        },
        Ok(p) => p,
    };
    match find_mirror(mirrors, x1, y1) {
        None => Ok(Stepper { x: x1, y: y1, d: s.d }),
        Some(orient) => {
            let d2 = reflected(orient, s.d);
            match translated(x1, y1, d2, width, height) {
                Err(e) => Err(e),
                Ok((x2, y2)) => Ok(Stepper { x: x2, y: y2, d: d2 }),
            }
        },
    }
}

impl World {
    /// The world invariant: everything on the grid, no two deflectors on one
    /// cell. Constructors establish it and `advance` preserves it.
    pub open spec fn wf(self) -> bool {
        self@.wf()
    }

    /// Builds a world from initial level data, validating it: a position off
    /// the grid is `OutOfBounds`, two deflectors on one cell are
    /// `ConflictingDeflectors`.
    #[verifier::loop_isolation(false)]
    pub fn new(
        width: usize,
        height: usize,
        player: Stepper,
        steppers: Vec<Stepper>,
        mirrors: Vec<Mirror>,
    ) -> (r: Result<World, EngineError>)
        ensures
            ({
                let m = WorldModel {
                    width,
                    height,
                    player,
                    alive: true,
                    autos: steppers@,
                    mirrors: mirrors@,
                };
                &&& (r matches Ok(w) ==> w@ == m && w.wf())
                &&& (r is Ok <==> m.wf())
                &&& (r == Err::<World, EngineError>(EngineError::OutOfBounds) <==> !layout_in_bounds(
                    m,
                ))
                &&& (r == Err::<World, EngineError>(EngineError::ConflictingDeflectors) <==> (
                layout_in_bounds(m) && !mirrors_distinct(mirrors@)))
            }),
    {
        if !(player.x < width && player.y < height) {
            return Err(EngineError::OutOfBounds);
        }
        let mut i: usize = 0;
        while i < steppers.len()
            invariant
                i <= steppers.len(),
                forall|k: int|
                    0 <= k < i ==> stepper_in_bounds(#[trigger] steppers@[k], width, height),
            decreases steppers.len() - i,
        {
            if !(steppers[i].x < width && steppers[i].y < height) {
                proof {
                    let m = WorldModel {
                        width,
                        height,
                        player,
                        alive: true,
                        autos: steppers@,
                        mirrors: mirrors@,
                    };
                    assert(!stepper_in_bounds(m.autos[i as int], width, height));
                    assert(!layout_in_bounds(m));
                }
                return Err(EngineError::OutOfBounds);
            }
            i += 1;
        }
        let mut i: usize = 0;
        while i < mirrors.len()
            invariant
                i <= mirrors.len(),
                forall|k: int|
                    0 <= k < i ==> (#[trigger] mirrors@[k]).x < width && mirrors@[k].y < height,
            decreases mirrors.len() - i,
        {
            if !(mirrors[i].x < width && mirrors[i].y < height) {
                proof {
                    let m = WorldModel {
                        width,
                        height,
                        player,
                        alive: true,
                        autos: steppers@,
                        mirrors: mirrors@,
                    };
                    assert(!((m.mirrors[i as int]).x < width && m.mirrors[i as int].y < height));
                    assert(!layout_in_bounds(m));
                }
                return Err(EngineError::OutOfBounds);
            }
            i += 1;
        }
        let mut i: usize = 0;
        while i < mirrors.len()
            invariant
                i <= mirrors.len(),
                forall|a: int, b: int|
                    #![trigger mirrors@[a], mirrors@[b]]
                    0 <= a < b < mirrors.len() && a < i ==> !(mirrors@[a].x == mirrors@[b].x
                        && mirrors@[a].y == mirrors@[b].y),
            decreases mirrors.len() - i,
        {
            let mut j: usize = i + 1;
            while j < mirrors.len()
                invariant
                    i < j <= mirrors.len(),
                    i < mirrors.len(),
                    forall|b: int|
                        i < b < j ==> !(mirrors@[i as int].x == (#[trigger] mirrors@[b]).x
                            && mirrors@[i as int].y == mirrors@[b].y),
                decreases mirrors.len() - j,
            {
                if mirrors[i].x == mirrors[j].x && mirrors[i].y == mirrors[j].y {
                    proof {
                        assert(mirrors@[i as int].x == mirrors@[j as int].x && mirrors@[i as int].y
                            == mirrors@[j as int].y);
                        assert(!mirrors_distinct(mirrors@));
                    }
                    return Err(EngineError::ConflictingDeflectors);
                }
                j += 1;
            }
            i += 1;
        }
        Ok(World { width, height, player, alive: true, steppers, mirrors })
    }

    /// Applies exactly one tick, per `advance_spec`: a dead player makes it a
    /// no-op; otherwise the player steps, the automatic entities step in
    /// stable order with a player hit short-circuiting the tick, and with no
    /// hit every pair of automatic entities sharing a cell is removed. On
    /// `OutOfBounds` the world is left exactly as it was.
    #[verifier::loop_isolation(false)]
    pub fn advance(&mut self) -> (r: Result<(), EngineError>)
        requires
            old(self).wf(),
        ensures
            final(self).wf(),
            match r {
                Ok(()) => advance_spec(old(self)@) == Ok::<WorldModel, EngineError>(final(self)@),
                Err(e) => *final(self) == *old(self) && advance_spec(old(self)@) == Err::<
                    WorldModel,
                    EngineError,
                >(e),
            },
    {
        if !self.alive {
            return Ok(());
        }
        let ghost m0 = self@;
        let ghost s0 = self.steppers@;
        let ghost n = self.steppers@.len() as int;
        let p2 = match step_entity(&self.player, &self.mirrors, self.width, self.height) {
            Err(e) => {
                return Err(e);
            },
            Ok(p) => p,
        };
        proof {
            assert(stepper_in_bounds(p2, self.width, self.height));
        }
        let mut stepped: Vec<Stepper> = Vec::new();
        let mut dead = false;
        let mut err: Option<EngineError> = None;
        let mut i: usize = 0;
        while i < self.steppers.len() && !dead && err.is_none()
            invariant
                i <= n,
                stepped@.len() == i,
                forall|k: int|
                    0 <= k < i ==> stepper_in_bounds(
                        #[trigger] stepped@[k],
                        self.width,
                        self.height,
                    ),
                !dead && err is None ==> run_autos(p2, s0, self.mirrors@, self.width, self.height, 0)
                    == prepend_autos(
                    stepped@,
                    run_autos(p2, s0, self.mirrors@, self.width, self.height, i as int),
                ),
                dead ==> err is None && run_autos(p2, s0, self.mirrors@, self.width, self.height, 0)
                    == Ok::<(bool, Seq<Stepper>), EngineError>(
                    (true, stepped@ + s0.subrange(i as int, n)),
                ),
                err matches Some(e) ==> !dead && run_autos(
                    p2,
                    s0,
                    self.mirrors@,
                    self.width,
                    self.height,
                    0,
                ) == Err::<(bool, Seq<Stepper>), EngineError>(e),
            decreases n - i, (if dead || err is Some { 0int } else { 1int }),
        {
            let ghost i0 = i as int;
            let ghost stepped0 = stepped@;
            let a = self.steppers[i];
            if a.x == p2.x && a.y == p2.y {
                dead = true;
                proof {
                    assert(run_autos(p2, s0, self.mirrors@, self.width, self.height, i0) == Ok::<
                        (bool, Seq<Stepper>),
                        EngineError,
                    >((true, s0.subrange(i0, n))));
                    assert(stepped0 + s0.subrange(i0, n) =~= stepped@ + s0.subrange(i0, n));
                }
            } else {
                match step_entity(&a, &self.mirrors, self.width, self.height) {
                    Err(e) => {
                        err = Some(e);
                        proof {
                            assert(run_autos(p2, s0, self.mirrors@, self.width, self.height, i0)
                                == Err::<(bool, Seq<Stepper>), EngineError>(e));
                        }
                    },
                    Ok(a2) => {
                        let hit = a2.x == p2.x && a2.y == p2.y;
                        stepped.push(a2);
                        i += 1;
                        if hit {
                            dead = true;
                        }
                        proof {
                            let ms = self.mirrors@;
                            assert(stepped@ =~= stepped0 + seq![a2]);
                            if hit {
                                assert(run_autos(p2, s0, ms, self.width, self.height, i0) == Ok::<
                                    (bool, Seq<Stepper>),
                                    EngineError,
                                >((true, seq![a2] + s0.subrange(i0 + 1, n))));
                                assert(stepped0 + (seq![a2] + s0.subrange(i0 + 1, n)) =~= stepped@
                                    + s0.subrange(i0 + 1, n));
                            } else {
                                let tail = run_autos(p2, s0, ms, self.width, self.height, i0 + 1);
                                if tail is Ok {
                                    let t = tail->Ok_0;
                                    assert(run_autos(p2, s0, ms, self.width, self.height, i0)
                                        == Ok::<(bool, Seq<Stepper>), EngineError>(
                                        (t.0, seq![a2] + t.1),
                                    ));
                                    assert(stepped0 + (seq![a2] + t.1) =~= stepped@ + t.1);
                                } else {
                                    assert(run_autos(p2, s0, ms, self.width, self.height, i0)
                                        == tail);
                                }
                            }
                        }
                    },
                }
            }
        }
        if let Some(e) = err {
            proof {
                assert(advance_spec(m0) == Err::<WorldModel, EngineError>(e));
            }
            return Err(e);
        }
        if dead {
            let ghost steppedf = stepped@;
            let mut rest = stepped;
            let mut j = i;
            while j < self.steppers.len()
                invariant
                    i <= j <= n,
                    rest@ == steppedf + s0.subrange(i as int, j as int),
                decreases n - j,
            {
                rest.push(self.steppers[j]);
                j += 1;
                proof {
                    assert(rest@ =~= steppedf + s0.subrange(i as int, j as int));
                }
            }
            proof {
                assert(rest@ == steppedf + s0.subrange(i as int, n));
            }
            self.player = p2;
            self.alive = false;
            self.steppers = rest;
            proof {
                assert(self@ =~= (WorldModel { player: p2, alive: false, autos: rest@, ..m0 }));
                assert(advance_spec(m0) == Ok::<WorldModel, EngineError>(self@));
                assert(self@.wf());
            }
            return Ok(());
        }
        // No entity reached the player: resolve mutual collisions among the
        // stepped entities.
        proof {
            assert(run_autos(p2, s0, self.mirrors@, self.width, self.height, i as int) == Ok::<
                (bool, Seq<Stepper>),
                EngineError,
            >((false, Seq::empty())));
            assert(stepped@ + Seq::<Stepper>::empty() =~= stepped@);
            assert(run_autos(p2, s0, self.mirrors@, self.width, self.height, 0) == Ok::<
                (bool, Seq<Stepper>),
                EngineError,
            >((false, stepped@)));
        }
        let ghost steppedf = stepped@;
        let n2 = stepped.len();
        let mut kept: Vec<Stepper> = Vec::new();
        let mut a: usize = 0;
        while a < n2
            invariant
                a <= n2,
                retained(steppedf) == kept@ + retained_from(steppedf, a as int),
                forall|k: int|
                    0 <= k < kept@.len() ==> stepper_in_bounds(
                        #[trigger] kept@[k],
                        self.width,
                        self.height,
                    ),
            decreases n2 - a,
        {
            let mut hit = false;
            let mut b: usize = 0;
            while b < n2
                invariant
                    b <= n2,
                    hit <==> exists|l: int|
                        0 <= l < b && l != a as int && (#[trigger] steppedf[l]).x == steppedf[a as int].x
                            && steppedf[l].y == steppedf[a as int].y,
                decreases n2 - b,
            {
                if b != a && stepped[b].x == stepped[a].x && stepped[b].y == stepped[a].y {
                    hit = true;
                    proof {
                        assert((steppedf[b as int]).x == steppedf[a as int].x && steppedf[b as int].y
                            == steppedf[a as int].y);
                    }
                }
                b += 1;
            }
            proof {
                assert(hit == colliding(steppedf, a as int));
            }
            let ghost kept0 = kept@;
            if !hit {
                kept.push(stepped[a]);
            }
            a += 1;
            proof {
                if colliding(steppedf, a as int - 1) {
                    assert(retained_from(steppedf, a as int - 1) == retained_from(
                        steppedf,
                        a as int,
                    ));
                } else {
                    assert(retained_from(steppedf, a as int - 1) == seq![steppedf[a as int - 1]]
                        + retained_from(steppedf, a as int));
                    assert(kept0 + (seq![steppedf[a as int - 1]] + retained_from(
                        steppedf,
                        a as int,
                    )) =~= kept@ + retained_from(steppedf, a as int));
                }
            }
        }
        proof {
            assert(retained_from(steppedf, n2 as int) == Seq::<Stepper>::empty());
            assert(kept@ + Seq::<Stepper>::empty() =~= kept@);
            assert(kept@ == retained(steppedf));
        }
        self.player = p2;
        self.steppers = kept;
        proof {
            assert(self@ =~= (WorldModel { player: p2, alive: true, autos: retained(steppedf), ..m0 }));
            assert(advance_spec(m0) == Ok::<WorldModel, EngineError>(self@));
            assert(self@.wf());
        }
        Ok(())
    }
}

} // verus!
