//! The mathematical model of the simulation: the entity and deflector types,
//! the per-entity step function, the per-tick transition function, and the
//! collision/removal semantics. Everything here is stated over plain values
//! and `Seq`, so the executable engine can be specified exactly against it.

use vstd::prelude::*;

verus! {

/// A cardinal direction of travel.
#[derive(Clone, Copy, Debug, PartialEq, Eq, Structural)]
pub enum Heading {
    Up,
    Down,
    Left,
    Right,
}

/// A mobile entity: a grid position together with its current heading.
#[derive(Clone, Copy, Debug, PartialEq, Eq, Structural)]
pub struct Stepper {
    pub x: usize,
    pub y: usize,
    pub d: Heading,
}

/// A fixed deflector cell. `d == false` is the `\` orientation,
/// `d == true` the `/` orientation.
#[derive(Clone, Copy, Debug, PartialEq, Eq, Structural)]
pub struct Mirror {
    pub x: usize,
    pub y: usize,
    pub d: bool,
}

/// The ways construction or a tick can fail.
#[derive(Clone, Copy, Debug, PartialEq, Eq, Structural)]
pub enum EngineError {
    /// An entity's position, or its computed next position (pre- or
    /// post-deflection), falls outside the grid bounds.
    OutOfBounds,
    /// Two deflectors were registered at the same cell.
    ConflictingDeflectors,
}

impl Stepper {
    pub fn new(x: usize, y: usize, d: Heading) -> (s: Stepper)
        ensures
            (s == Stepper { x, y, d }),
    {
        Stepper { x, y, d }
    }
}

impl Mirror {
    pub fn new(x: usize, y: usize, d: bool) -> (m: Mirror)
        ensures
            (m == Mirror { x, y, d }),
    {
        Mirror { x, y, d }
    }
}

/// Horizontal displacement of one move along heading `d`.
pub open spec fn dx(d: Heading) -> int {
    match d {
        Heading::Left => -1,
        Heading::Right => 1,
        _ => 0,
    }
}

/// Vertical displacement of one move along heading `d`.
pub open spec fn dy(d: Heading) -> int {
    match d {
        Heading::Up => -1,
        Heading::Down => 1,
        _ => 0,
    }
}

/// The reflection table: the heading an entity leaves with after entering a
/// deflector of orientation `orient` while travelling along `d`.
pub open spec fn reflect(orient: bool, d: Heading) -> Heading {
    if orient {
        // the `/` orientation
        match d {
            Heading::Up => Heading::Right,
            Heading::Down => Heading::Left,
            Heading::Left => Heading::Down,
            Heading::Right => Heading::Up,
        }
    } else {
        // the `\` orientation
        match d {
            Heading::Up => Heading::Left,
            Heading::Down => Heading::Right,
            Heading::Left => Heading::Up,
            Heading::Right => Heading::Down,
        }
    }
}

/// Whether the cell (x, y) lies on the grid.
pub open spec fn in_bounds(x: int, y: int, width: usize, height: usize) -> bool {
    0 <= x < width && 0 <= y < height
}

/// Whether an entity stands on the grid.
pub open spec fn stepper_in_bounds(s: Stepper, width: usize, height: usize) -> bool {
    s.x < width && s.y < height
}

/// Orientation of the first deflector listed at cell (x, y), scanning the
/// layout from index `i` on.
pub open spec fn mirror_from(ms: Seq<Mirror>, x: int, y: int, i: int) -> Option<bool>
    decreases ms.len() - i,
{
    if i < 0 || i >= ms.len() {
        None
    } else if ms[i].x == x && ms[i].y == y {
        Some(ms[i].d)
    } else {
        mirror_from(ms, x, y, i + 1)
    }
}

/// Orientation of the deflector at cell (x, y), if any. With a duplicate-free
/// layout there is at most one candidate.
pub open spec fn mirror_at(ms: Seq<Mirror>, x: int, y: int) -> Option<bool> {
    mirror_from(ms, x, y, 0)
}

/// One entity's move for one tick: translate one cell along the current
/// heading; if the new cell holds a deflector, turn per the reflection table
/// and move one further cell along the new heading. At most one deflection is
/// applied, and only the deflector at the post-translation cell counts. Any
/// position outside the grid, pre- or post-deflection, is an error.
pub open spec fn step_spec(s: Stepper, ms: Seq<Mirror>, width: usize, height: usize) -> Result<
    Stepper,
    EngineError,
> {
    let x1 = s.x + dx(s.d);
    let y1 = s.y + dy(s.d);
    if !in_bounds(x1, y1, width, height) {
        Err(EngineError::OutOfBounds)
    } else {
        match mirror_at(ms, x1, y1) {
            None => Ok(Stepper { x: x1 as usize, y: y1 as usize, d: s.d }),
            Some(orient) => {
                let d2 = reflect(orient, s.d);
                let x2 = x1 + dx(d2);
                let y2 = y1 + dy(d2);
                if !in_bounds(x2, y2, width, height) {
                    Err(EngineError::OutOfBounds)
                } else {
                    Ok(Stepper { x: x2 as usize, y: y2 as usize, d: d2 })
                }
            },
        }
    }
}

/// The model of a whole world: grid bounds, the player, the live automatic
/// entities in stable order, and the deflector layout.
#[verifier::ext_equal]
pub struct WorldModel {
    pub width: usize,
    pub height: usize,
    pub player: Stepper,
    pub alive: bool,
    pub autos: Seq<Stepper>,
    pub mirrors: Seq<Mirror>,
}

/// No two deflectors share a cell.
pub open spec fn mirrors_distinct(ms: Seq<Mirror>) -> bool {
    forall|i: int, j: int|
        #![trigger ms[i], ms[j]]
        0 <= i < j < ms.len() ==> !(ms[i].x == ms[j].x && ms[i].y == ms[j].y)
}

/// Every entity and deflector stands on the grid.
pub open spec fn layout_in_bounds(m: WorldModel) -> bool {
    &&& stepper_in_bounds(m.player, m.width, m.height)
    &&& forall|i: int|
        0 <= i < m.autos.len() ==> stepper_in_bounds(#[trigger] m.autos[i], m.width, m.height)
    &&& forall|i: int|
        0 <= i < m.mirrors.len() ==> (#[trigger] m.mirrors[i]).x < m.width && m.mirrors[i].y
            < m.height
}

impl WorldModel {
    /// The world invariant: everything on the grid, and no two deflectors on
    /// one cell.
    pub open spec fn wf(self) -> bool {
        layout_in_bounds(self) && mirrors_distinct(self.mirrors)
    }
}

/// The automatic phase of a tick, processing entities from index `i` on in
/// stable order, after the player has moved to `p2`. Returns whether the
/// player was hit and the entity list after the phase:
/// - an entity already standing on the player's new cell hits the player
///   before moving, and it and everything after it stay unstepped;
/// - otherwise the entity steps; if it lands on the player's cell it hits
///   the player and everything after it stays unstepped;
/// - a step outside the grid aborts the whole phase with the error.
pub open spec fn run_autos(
    p2: Stepper,
    autos: Seq<Stepper>,
    ms: Seq<Mirror>,
    width: usize,
    height: usize,
    i: int,
) -> Result<(bool, Seq<Stepper>), EngineError>
    decreases autos.len() - i,
{
    if i < 0 || i >= autos.len() {
        Ok((false, Seq::empty()))
    } else {
        let a = autos[i];
        if a.x == p2.x && a.y == p2.y {
            Ok((true, autos.subrange(i, autos.len() as int)))
        } else {
            match step_spec(a, ms, width, height) {
                Err(e) => Err(e),
                Ok(a2) => {
                    if a2.x == p2.x && a2.y == p2.y {
                        Ok((true, seq![a2] + autos.subrange(i + 1, autos.len() as int)))
                    } else {
                        match run_autos(p2, autos, ms, width, height, i + 1) {
                            Err(e) => Err(e),
                            Ok(r) => Ok((r.0, seq![a2] + r.1)),
                        }
                    }
                },
            }
        }
    }
}

/// Prepends an already-stepped prefix to the outcome of the rest of the
/// automatic phase.
pub open spec fn prepend_autos(s: Seq<Stepper>, r: Result<(bool, Seq<Stepper>), EngineError>) -> Result<
    (bool, Seq<Stepper>),
    EngineError,
> {
    match r {
        Err(e) => Err(e),
        Ok(t) => Ok((t.0, s + t.1)),
    }
}

/// Whether the entity at index `i` shares its cell with another entity.
pub open spec fn colliding(s: Seq<Stepper>, i: int) -> bool {
    exists|j: int|
        0 <= j < s.len() && j != i && (#[trigger] s[j]).x == s[i].x && s[j].y == s[i].y
}

/// The retained subsequence from index `i` on: entities that share a cell
/// with another entity are dropped, survivors keep their relative order.
pub open spec fn retained_from(s: Seq<Stepper>, i: int) -> Seq<Stepper>
    decreases s.len() - i,
{
    if i < 0 || i >= s.len() {
        Seq::empty()
    } else if colliding(s, i) {
        retained_from(s, i + 1)
    } else {
        seq![s[i]] + retained_from(s, i + 1)
    }
}

/// The retained subsequence of a stepped entity list after mutual removal.
pub open spec fn retained(s: Seq<Stepper>) -> Seq<Stepper> {
    retained_from(s, 0)
}

/// One whole tick. A dead player makes the tick a no-op. Otherwise the player
/// steps, then the automatic entities run in stable order; a player hit ends
/// the tick with the player dead and mutual removal skipped; with no hit,
/// every pair of automatic entities sharing a cell is removed. Any entity
/// stepping outside the grid fails the whole tick and changes nothing.
pub open spec fn advance_spec(m: WorldModel) -> Result<WorldModel, EngineError> {
    if !m.alive {
        Ok(m)
    } else {
        match step_spec(m.player, m.mirrors, m.width, m.height) {
            Err(e) => Err(e),
            Ok(p2) => match run_autos(p2, m.autos, m.mirrors, m.width, m.height, 0) {
                Err(e) => Err(e),
                Ok(r) => {
                    if r.0 {
                        Ok(WorldModel { player: p2, alive: false, autos: r.1, ..m })
                    } else {
                        Ok(WorldModel { player: p2, autos: retained(r.1), ..m })
                    }
                },
            },
        }
    }
}

/// `n` ticks in sequence, stopping at the first failing tick.
pub open spec fn advance_n(m: WorldModel, n: nat) -> Result<WorldModel, EngineError>
    decreases n,
{
    if n == 0 {
        Ok(m)
    } else {
        match advance_spec(m) {
            Err(e) => Err(e),
            Ok(m2) => advance_n(m2, (n - 1) as nat),
        }
    }
}

} // verus!
