//! The engine's general laws, each proved against the model: determinism of
//! the tick, the reflection table, at-most-one-deflection, player-collision
//! precedence, mutual removal, and the no-op on a dead player.

use vstd::prelude::*;

use crate::model::{
    advance_n, advance_spec, colliding, dx, dy, in_bounds, mirror_from, mirrors_distinct, reflect,
    retained, retained_from, run_autos, step_spec, EngineError, Heading, Mirror, Stepper,
    WorldModel,
};

verus! {

/// Determinism: two equal worlds yield equal results under any number of
/// ticks; the tick has no hidden randomness or ordering nondeterminism.
pub proof fn lemma_determinism(m1: WorldModel, m2: WorldModel, n: nat)
    requires
        m1 == m2,
    ensures
        advance_n(m1, n) == advance_n(m2, n),
{
}

/// The reflection table, row by row: the heading an entity leaves a deflector
/// with, for every orientation and entry heading, and the displacement each
/// exit heading stands for.
pub proof fn lemma_reflection_table()
    ensures
        reflect(false, Heading::Up) == Heading::Left,
        reflect(false, Heading::Down) == Heading::Right,
        reflect(false, Heading::Left) == Heading::Up,
        reflect(false, Heading::Right) == Heading::Down,
        reflect(true, Heading::Up) == Heading::Right,
        reflect(true, Heading::Down) == Heading::Left,
        reflect(true, Heading::Left) == Heading::Down,
        reflect(true, Heading::Right) == Heading::Up,
        dx(Heading::Left) == -1 && dy(Heading::Left) == 0,
        dx(Heading::Right) == 1 && dy(Heading::Right) == 0,
        dx(Heading::Up) == 0 && dy(Heading::Up) == -1,
        dx(Heading::Down) == 0 && dy(Heading::Down) == 1,
{
}

/// In a duplicate-free layout, the scan finds exactly the deflector standing
/// at the scanned cell.
proof fn lemma_mirror_from_found(ms: Seq<Mirror>, x: int, y: int, i: int, k: int)
    requires
        mirrors_distinct(ms),
        0 <= i <= k < ms.len(),
        ms[k].x == x,
        ms[k].y == y,
    ensures
        mirror_from(ms, x, y, i) == Some(ms[k].d),
    decreases k - i,
{
    if i < k {
        assert(!(ms[i].x == ms[k].x && ms[i].y == ms[k].y));
        lemma_mirror_from_found(ms, x, y, i + 1, k);
    }
}

/// Deflection correctness: stepping one cell into the deflector at index `k`
/// while travelling `s.d` yields exactly the reflected heading and the cell
/// one further move along it.
pub proof fn lemma_deflection(s: Stepper, ms: Seq<Mirror>, width: usize, height: usize, k: int)
    requires
        mirrors_distinct(ms),
        0 <= k < ms.len(),
        ms[k].x == s.x + dx(s.d),
        ms[k].y == s.y + dy(s.d),
        in_bounds(s.x + dx(s.d), s.y + dy(s.d), width, height),
        in_bounds(
            s.x + dx(s.d) + dx(reflect(ms[k].d, s.d)),
            s.y + dy(s.d) + dy(reflect(ms[k].d, s.d)),
            width,
            height,
        ),
    ensures
        (step_spec(s, ms, width, height) == Ok::<Stepper, EngineError>(
            Stepper {
                x: (s.x + dx(s.d) + dx(reflect(ms[k].d, s.d))) as usize,
                y: (s.y + dy(s.d) + dy(reflect(ms[k].d, s.d))) as usize,
                d: reflect(ms[k].d, s.d),
            },
        )),
{
    lemma_mirror_from_found(ms, s.x + dx(s.d), s.y + dy(s.d), 0, k);
}

/// At most one deflection per tick: the conclusion of `lemma_deflection`
/// stands unchanged even when the cell the entity is deflected onto holds a
/// second deflector — the second one is never applied in the same tick.
pub proof fn lemma_single_deflection(
    s: Stepper,
    ms: Seq<Mirror>,
    width: usize,
    height: usize,
    k: int,
    k2: int,
)
    requires
        mirrors_distinct(ms),
        0 <= k < ms.len(),
        ms[k].x == s.x + dx(s.d),
        ms[k].y == s.y + dy(s.d),
        in_bounds(s.x + dx(s.d), s.y + dy(s.d), width, height),
        in_bounds(
            s.x + dx(s.d) + dx(reflect(ms[k].d, s.d)),
            s.y + dy(s.d) + dy(reflect(ms[k].d, s.d)),
            width,
            height,
        ),
        0 <= k2 < ms.len(),
        ms[k2].x == s.x + dx(s.d) + dx(reflect(ms[k].d, s.d)),
        ms[k2].y == s.y + dy(s.d) + dy(reflect(ms[k].d, s.d)),
    ensures
        (step_spec(s, ms, width, height) == Ok::<Stepper, EngineError>(
            Stepper {
                x: (s.x + dx(s.d) + dx(reflect(ms[k].d, s.d))) as usize,
                y: (s.y + dy(s.d) + dy(reflect(ms[k].d, s.d))) as usize,
                d: reflect(ms[k].d, s.d),
            },
        )),
{
    lemma_deflection(s, ms, width, height, k);
}

/// The stepped images of a run of automatic entities, meaningful where every
/// step succeeds.
pub open spec fn stepped_autos(
    autos: Seq<Stepper>,
    ms: Seq<Mirror>,
    width: usize,
    height: usize,
) -> Seq<Stepper> {
    Seq::new(autos.len(), |j: int| step_spec(autos[j], ms, width, height)->Ok_0)
}

/// The automatic phase, entered at index `i`, when the entity at index `k` is
/// the first to reach the player: the phase stops there, with everything
/// before `k` stepped and everything from `k` on untouched.
proof fn lemma_run_autos_hit(
    p2: Stepper,
    autos: Seq<Stepper>,
    ms: Seq<Mirror>,
    width: usize,
    height: usize,
    k: int,
    i: int,
)
    requires
        0 <= i <= k < autos.len(),
        autos[k].x == p2.x && autos[k].y == p2.y,
        forall|j: int| i <= j < k ==> !((#[trigger] autos[j]).x == p2.x && autos[j].y == p2.y),
        forall|j: int| i <= j < k ==> step_spec(#[trigger] autos[j], ms, width, height) is Ok,
        forall|j: int|
            i <= j < k ==> !((step_spec(#[trigger] autos[j], ms, width, height)->Ok_0).x == p2.x
                && (step_spec(autos[j], ms, width, height)->Ok_0).y == p2.y),
    ensures
        run_autos(p2, autos, ms, width, height, i) == Ok::<(bool, Seq<Stepper>), EngineError>(
            (
                true,
                Seq::new(
                    (autos.len() - i) as nat,
                    |t: int|
                        if i + t < k {
                            step_spec(autos[i + t], ms, width, height)->Ok_0
                        } else {
                            autos[i + t]
                        },
                ),
            ),
        ),
    decreases k - i,
{
    let n = autos.len() as int;
    let expected = Seq::new(
        (n - i) as nat,
        |t: int|
            if i + t < k {
                step_spec(autos[i + t], ms, width, height)->Ok_0
            } else {
                autos[i + t]
            },
    );
    if i == k {
        assert(run_autos(p2, autos, ms, width, height, i) == Ok::<
            (bool, Seq<Stepper>),
            EngineError,
        >((true, autos.subrange(i, n))));
        assert(autos.subrange(i, n) =~= expected);
    } else {
        lemma_run_autos_hit(p2, autos, ms, width, height, k, i + 1);
        let a2 = step_spec(autos[i], ms, width, height)->Ok_0;
        let expected_next = Seq::new(
            (n - (i + 1)) as nat,
            |t: int|
                if i + 1 + t < k {
                    step_spec(autos[i + 1 + t], ms, width, height)->Ok_0
                } else {
                    autos[i + 1 + t]
                },
        );
        assert(seq![a2] + expected_next =~= expected);
    }
}

/// Collision precedence: when the player's new cell already holds automatic
/// entity `k` — the first entity of the tick to reach the player — the tick
/// ends at once with the player dead: the entities before `k` keep their
/// stepped values, entity `k` and everything after it are exactly as they
/// were (entity `k` is not stepped), and no mutual removal happens.
pub proof fn lemma_collision_precedence(m: WorldModel, k: int)
    requires
        m.alive,
        step_spec(m.player, m.mirrors, m.width, m.height) is Ok,
        0 <= k < m.autos.len(),
        ({
            let p2 = step_spec(m.player, m.mirrors, m.width, m.height)->Ok_0;
            &&& m.autos[k].x == p2.x && m.autos[k].y == p2.y
            &&& forall|j: int|
                0 <= j < k ==> !((#[trigger] m.autos[j]).x == p2.x && m.autos[j].y == p2.y)
            &&& forall|j: int|
                0 <= j < k ==> step_spec(#[trigger] m.autos[j], m.mirrors, m.width, m.height) is Ok
            &&& forall|j: int|
                0 <= j < k ==> !((step_spec(
                    #[trigger] m.autos[j],
                    m.mirrors,
                    m.width,
                    m.height,
                )->Ok_0).x == p2.x && (step_spec(m.autos[j], m.mirrors, m.width, m.height)->Ok_0).y
                    == p2.y)
        }),
    ensures
        advance_spec(m) is Ok,
        !(advance_spec(m)->Ok_0).alive,
        (advance_spec(m)->Ok_0).player == step_spec(m.player, m.mirrors, m.width, m.height)->Ok_0,
        (advance_spec(m)->Ok_0).autos.len() == m.autos.len(),
        forall|j: int|
            k <= j < m.autos.len() ==> (advance_spec(m)->Ok_0).autos[j] == m.autos[j],
        forall|j: int|
            0 <= j < k ==> (advance_spec(m)->Ok_0).autos[j] == step_spec(
                m.autos[j],
                m.mirrors,
                m.width,
                m.height,
            )->Ok_0,
        (advance_spec(m)->Ok_0).mirrors == m.mirrors,
        (advance_spec(m)->Ok_0).width == m.width,
        (advance_spec(m)->Ok_0).height == m.height,
{
    let p2 = step_spec(m.player, m.mirrors, m.width, m.height)->Ok_0;
    lemma_run_autos_hit(p2, m.autos, m.mirrors, m.width, m.height, k, 0);
}

/// The automatic phase, entered at index `i`, when no entity reaches the
/// player and every step succeeds: every entity from `i` on is stepped.
proof fn lemma_run_autos_clear(
    p2: Stepper,
    autos: Seq<Stepper>,
    ms: Seq<Mirror>,
    width: usize,
    height: usize,
    i: int,
)
    requires
        0 <= i <= autos.len(),
        forall|j: int|
            i <= j < autos.len() ==> !((#[trigger] autos[j]).x == p2.x && autos[j].y == p2.y),
        forall|j: int|
            i <= j < autos.len() ==> step_spec(#[trigger] autos[j], ms, width, height) is Ok,
        forall|j: int|
            i <= j < autos.len() ==> !((step_spec(
                #[trigger] autos[j],
                ms,
                width,
                height,
            )->Ok_0).x == p2.x && (step_spec(autos[j], ms, width, height)->Ok_0).y == p2.y),
    ensures
        run_autos(p2, autos, ms, width, height, i) == Ok::<(bool, Seq<Stepper>), EngineError>(
            (
                false,
                Seq::new(
                    (autos.len() - i) as nat,
                    |t: int| step_spec(autos[i + t], ms, width, height)->Ok_0,
                ),
            ),
        ),
    decreases autos.len() - i,
{
    let n = autos.len() as int;
    let expected = Seq::new(
        (n - i) as nat,
        |t: int| step_spec(autos[i + t], ms, width, height)->Ok_0,
    );
    if i == n {
        assert(expected =~= Seq::<Stepper>::empty());
    } else {
        lemma_run_autos_clear(p2, autos, ms, width, height, i + 1);
        let a2 = step_spec(autos[i], ms, width, height)->Ok_0;
        let expected_next = Seq::new(
            (n - (i + 1)) as nat,
            |t: int| step_spec(autos[i + 1 + t], ms, width, height)->Ok_0,
        );
        assert(seq![a2] + expected_next =~= expected);
    }
}

/// A stretch of entities that collide with nothing passes through removal
/// unchanged.
proof fn lemma_retained_segment(s: Seq<Stepper>, i: int, hi: int)
    requires
        0 <= i <= hi <= s.len(),
        forall|t: int| i <= t < hi ==> !colliding(s, t),
    ensures
        retained_from(s, i) == s.subrange(i, hi) + retained_from(s, hi),
    decreases hi - i,
{
    if i == hi {
        assert(s.subrange(i, hi) + retained_from(s, hi) =~= retained_from(s, i));
    } else {
        lemma_retained_segment(s, i + 1, hi);
        assert(!colliding(s, i));
        assert(seq![s[i]] + (s.subrange(i + 1, hi) + retained_from(s, hi)) =~= s.subrange(i, hi)
            + retained_from(s, hi));
    }
}

/// Mutual removal: when the three automatic entities at indices `a < b < c`
/// step onto one shared cell, with no entity touching the player and every
/// other entity stepping clear of all others, the tick removes exactly those
/// three; the survivors keep their stepped values and their order.
pub proof fn lemma_mutual_removal(m: WorldModel, a: int, b: int, c: int)
    requires
        m.alive,
        step_spec(m.player, m.mirrors, m.width, m.height) is Ok,
        0 <= a < b < c < m.autos.len(),
        ({
            let p2 = step_spec(m.player, m.mirrors, m.width, m.height)->Ok_0;
            &&& forall|j: int|
                0 <= j < m.autos.len() ==> !((#[trigger] m.autos[j]).x == p2.x && m.autos[j].y
                    == p2.y)
            &&& forall|j: int|
                0 <= j < m.autos.len() ==> step_spec(
                    #[trigger] m.autos[j],
                    m.mirrors,
                    m.width,
                    m.height,
                ) is Ok
            &&& forall|j: int|
                0 <= j < m.autos.len() ==> !((step_spec(
                    #[trigger] m.autos[j],
                    m.mirrors,
                    m.width,
                    m.height,
                )->Ok_0).x == p2.x && (step_spec(m.autos[j], m.mirrors, m.width, m.height)->Ok_0).y
                    == p2.y)
        }),
        ({
            let st = stepped_autos(m.autos, m.mirrors, m.width, m.height);
            &&& st[a].x == st[b].x && st[a].y == st[b].y
            &&& st[a].x == st[c].x && st[a].y == st[c].y
            &&& forall|j: int|
                0 <= j < st.len() && j != a && j != b && j != c ==> !colliding(st, j)
        }),
    ensures
        advance_spec(m) is Ok,
        (advance_spec(m)->Ok_0).alive,
        (advance_spec(m)->Ok_0).player == step_spec(m.player, m.mirrors, m.width, m.height)->Ok_0,
        ({
            let st = stepped_autos(m.autos, m.mirrors, m.width, m.height);
            (advance_spec(m)->Ok_0).autos == st.subrange(0, a) + st.subrange(a + 1, b)
                + st.subrange(b + 1, c) + st.subrange(c + 1, st.len() as int)
        }),
        (advance_spec(m)->Ok_0).mirrors == m.mirrors,
        (advance_spec(m)->Ok_0).width == m.width,
        (advance_spec(m)->Ok_0).height == m.height,
{
    let p2 = step_spec(m.player, m.mirrors, m.width, m.height)->Ok_0;
    let st = stepped_autos(m.autos, m.mirrors, m.width, m.height);
    let n = st.len() as int;
    lemma_run_autos_clear(p2, m.autos, m.mirrors, m.width, m.height, 0);
    assert(run_autos(p2, m.autos, m.mirrors, m.width, m.height, 0) == Ok::<
        (bool, Seq<Stepper>),
        EngineError,
    >((false, st))) by {
        assert(Seq::new(
            m.autos.len(),
            |t: int| step_spec(m.autos[0 + t], m.mirrors, m.width, m.height)->Ok_0,
        ) =~= st);
    }
    assert(colliding(st, a)) by {
        assert(st[b].x == st[a].x && st[b].y == st[a].y);
    }
    assert(colliding(st, b)) by {
        assert(st[a].x == st[b].x && st[a].y == st[b].y);
    }
    assert(colliding(st, c)) by {
        assert(st[a].x == st[c].x && st[a].y == st[c].y);
    }
    lemma_retained_segment(st, 0, a);
    assert(retained_from(st, a) == retained_from(st, a + 1));
    lemma_retained_segment(st, a + 1, b);
    assert(retained_from(st, b) == retained_from(st, b + 1));
    lemma_retained_segment(st, b + 1, c);
    assert(retained_from(st, c) == retained_from(st, c + 1));
    lemma_retained_segment(st, c + 1, n);
    assert(retained_from(st, n) == Seq::<Stepper>::empty());
    assert(retained(st) =~= st.subrange(0, a) + st.subrange(a + 1, b) + st.subrange(b + 1, c)
        + st.subrange(c + 1, n)) by {
        assert(st.subrange(c + 1, n) + Seq::<Stepper>::empty() =~= st.subrange(c + 1, n));
        assert(st.subrange(b + 1, c) + st.subrange(c + 1, n) =~= st.subrange(b + 1, c)
            + st.subrange(c + 1, n));
        assert(retained(st) == st.subrange(0, a) + (st.subrange(a + 1, b) + (st.subrange(b + 1, c)
            + st.subrange(c + 1, n))));
    }
}

/// Idempotent death: a tick on a world whose player is already dead is a
/// no-op — in particular, no automatic entity moves.
pub proof fn lemma_dead_tick(m: WorldModel)
    requires
        !m.alive,
    ensures
        advance_spec(m) == Ok::<WorldModel, EngineError>(m),
{
}

} // verus!
