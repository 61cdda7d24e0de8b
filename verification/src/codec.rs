//! A flat serialization of a world as a word stream: header (bounds, player,
//! alive flag, entity count), the automatic entities, then the deflectors.
//! Decoding validates the stream and the world invariant; encoding and
//! decoding round-trip exactly.

use vstd::prelude::*;

use crate::engine::World;
use crate::model::{advance_n, Heading, Mirror, Stepper, WorldModel};

verus! {

/// The wire code of a heading.
pub open spec fn heading_code(d: Heading) -> u64 {
    match d {
        Heading::Up => 0,
        Heading::Down => 1,
        Heading::Left => 2,
        Heading::Right => 3,
    }
}

/// The heading a wire code stands for, if any.
pub open spec fn heading_of_code(c: u64) -> Option<Heading> {
    if c == 0 {
        Some(Heading::Up)
    } else if c == 1 {
        Some(Heading::Down)
    } else if c == 2 {
        Some(Heading::Left)
    } else if c == 3 {
        Some(Heading::Right)
    } else {
        None
    }
}

/// Whether a wire word fits back into a position coordinate.
pub open spec fn fits_usize(v: u64) -> bool {
    v <= usize::MAX as u64
}

/// The encoded automatic entities, three words each.
pub open spec fn encode_steppers(s: Seq<Stepper>) -> Seq<u64>
    decreases s.len(),
{
    if s.len() == 0 {
        Seq::empty()
    } else {
        encode_steppers(s.drop_last()) + seq![
            s.last().x as u64,
            s.last().y as u64,
            heading_code(s.last().d),
        ]
    }
}

/// The encoded deflectors, three words each.
pub open spec fn encode_mirrors(ms: Seq<Mirror>) -> Seq<u64>
    decreases ms.len(),
{
    if ms.len() == 0 {
        Seq::empty()
    } else {
        encode_mirrors(ms.drop_last()) + seq![
            ms.last().x as u64,
            ms.last().y as u64,
            if ms.last().d {
                1u64
            } else {
                0u64
            },
        ]
    }
}

/// The encoded world: a seven-word header (width, height, player position,
/// player heading, alive flag, entity count), the entities, the deflector
/// count, the deflectors.
pub open spec fn encode_spec(m: WorldModel) -> Seq<u64> {
    seq![
        m.width as u64,
        m.height as u64,
        m.player.x as u64,
        m.player.y as u64,
        heading_code(m.player.d),
        if m.alive {
            1u64
        } else {
            0u64
        },
        m.autos.len() as u64,
    ] + encode_steppers(m.autos) + seq![m.mirrors.len() as u64] + encode_mirrors(m.mirrors)
}

/// Whether the three words at `off` decode to an entity.
pub open spec fn stepper_fields_ok(b: Seq<u64>, off: int) -> bool {
    fits_usize(b[off]) && fits_usize(b[off + 1]) && heading_of_code(b[off + 2]) is Some
}

/// The entity the three words at `off` decode to.
pub open spec fn stepper_at(b: Seq<u64>, off: int) -> Stepper {
    Stepper { x: b[off] as usize, y: b[off + 1] as usize, d: heading_of_code(b[off + 2])->Some_0 }
}

/// Whether the three words at `off` decode to a deflector.
pub open spec fn mirror_fields_ok(b: Seq<u64>, off: int) -> bool {
    fits_usize(b[off]) && fits_usize(b[off + 1]) && b[off + 2] <= 1
}

/// The deflector the three words at `off` decode to.
pub open spec fn mirror_at_off(b: Seq<u64>, off: int) -> Mirror {
    Mirror { x: b[off] as usize, y: b[off + 1] as usize, d: b[off + 2] == 1 }
}

/// Whether the `k`-th entity entry after `base` decodes.
pub open spec fn stepper_entry_ok(b: Seq<u64>, base: int, k: int) -> bool {
    stepper_fields_ok(b, base + 3 * k)
}

/// Whether the `k`-th deflector entry (after the entity entries the header
/// counts) decodes.
pub open spec fn mirror_entry_ok(b: Seq<u64>, k: int) -> bool {
    mirror_fields_ok(b, 8 + 3 * (b[6] as int) + 3 * k)
}

/// Whether the header words decode.
pub open spec fn header_ok(b: Seq<u64>) -> bool {
    &&& b.len() >= 7
    &&& fits_usize(b[0]) && fits_usize(b[1]) && fits_usize(b[2]) && fits_usize(b[3])
    &&& heading_of_code(b[4]) is Some
    &&& b[5] <= 1
}

/// The model a well-formed stream parses to.
pub open spec fn parsed_model(b: Seq<u64>) -> WorldModel {
    let na = b[6] as int;
    let nm = b[7 + 3 * na] as int;
    WorldModel {
        width: b[0] as usize,
        height: b[1] as usize,
        player: Stepper { x: b[2] as usize, y: b[3] as usize, d: heading_of_code(b[4])->Some_0 },
        alive: b[5] == 1,
        autos: Seq::new(na as nat, |k: int| stepper_at(b, 7 + 3 * k)),
        mirrors: Seq::new(nm as nat, |k: int| mirror_at_off(b, 8 + 3 * na + 3 * k)),
    }
}

/// Parses a stream: the header, then exactly the counted entries, every entry
/// decodable. Anything else is rejected.
pub open spec fn parse_spec(b: Seq<u64>) -> Option<WorldModel> {
    if !header_ok(b) {
        None
    } else {
        let na = b[6] as int;
        if b.len() < 8 + 3 * na {
            None
        } else {
            let nm = b[7 + 3 * na] as int;
            if b.len() != 8 + 3 * na + 3 * nm {
                None
            } else if !(forall|k: int| 0 <= k < na ==> stepper_entry_ok(b, 7, k)) {
                None
            } else if !(forall|k: int| 0 <= k < nm ==> mirror_entry_ok(b, k)) {
                None
            } else {
                Some(parsed_model(b))
            }
        }
    }
}

/// Decoding: a stream decodes to a world exactly when it parses and the
/// parsed world meets the world invariant.
pub open spec fn decode_spec(b: Seq<u64>) -> Option<WorldModel> {
    match parse_spec(b) {
        None => None,
        Some(m) => if m.wf() {
            Some(m)
        } else {
            None
        },
    }
}

proof fn lemma_encode_steppers_len(s: Seq<Stepper>)
    ensures
        encode_steppers(s).len() == 3 * s.len(),
    decreases s.len(),
{
    if s.len() > 0 {
        lemma_encode_steppers_len(s.drop_last());
    }
}

proof fn lemma_encode_mirrors_len(ms: Seq<Mirror>)
    ensures
        encode_mirrors(ms).len() == 3 * ms.len(),
    decreases ms.len(),
{
    if ms.len() > 0 {
        lemma_encode_mirrors_len(ms.drop_last());
    }
}

proof fn lemma_encode_steppers_index(s: Seq<Stepper>, k: int)
    requires
        0 <= k < s.len(),
    ensures
        encode_steppers(s).len() == 3 * s.len(),
        encode_steppers(s)[3 * k] == s[k].x as u64,
        encode_steppers(s)[3 * k + 1] == s[k].y as u64,
        encode_steppers(s)[3 * k + 2] == heading_code(s[k].d),
    decreases s.len(),
{
    lemma_encode_steppers_len(s);
    lemma_encode_steppers_len(s.drop_last());
    if k < s.len() - 1 {
        lemma_encode_steppers_index(s.drop_last(), k);
        assert(s.drop_last()[k] == s[k]);
    }
}

proof fn lemma_encode_mirrors_index(ms: Seq<Mirror>, k: int)
    requires
        0 <= k < ms.len(),
    ensures
        encode_mirrors(ms).len() == 3 * ms.len(),
        encode_mirrors(ms)[3 * k] == ms[k].x as u64,
        encode_mirrors(ms)[3 * k + 1] == ms[k].y as u64,
        encode_mirrors(ms)[3 * k + 2] == (if ms[k].d {
            1u64
        } else {
            0u64
        }),
    decreases ms.len(),
{
    lemma_encode_mirrors_len(ms);
    lemma_encode_mirrors_len(ms.drop_last());
    if k < ms.len() - 1 {
        lemma_encode_mirrors_index(ms.drop_last(), k);
        assert(ms.drop_last()[k] == ms[k]);
    }
}

/// Round-trip: a well-formed world decodes from its own encoding unchanged,
/// so running any tick sequence on the decoded world gives exactly what it
/// gives on the world that was encoded.
pub proof fn lemma_round_trip(m: WorldModel)
    requires
        m.wf(),
        m.autos.len() <= usize::MAX,
        m.mirrors.len() <= usize::MAX,
    ensures
        decode_spec(encode_spec(m)) == Some(m),
        forall|n: nat| advance_n(decode_spec(encode_spec(m))->Some_0, n) == advance_n(m, n),
{
    let b = encode_spec(m);
    let na = m.autos.len() as int;
    let nm = m.mirrors.len() as int;
    lemma_encode_steppers_len(m.autos);
    lemma_encode_mirrors_len(m.mirrors);
    assert(b.len() == 8 + 3 * na + 3 * nm);
    assert(b[6] == na as u64);
    assert(b[7 + 3 * na] == nm as u64);
    assert(header_ok(b));
    assert forall|k: int| 0 <= k < na implies stepper_entry_ok(b, 7, k) by {
        lemma_encode_steppers_index(m.autos, k);
        assert(b[7 + 3 * k] == m.autos[k].x as u64);
        assert(b[7 + 3 * k + 1] == m.autos[k].y as u64);
        assert(b[7 + 3 * k + 2] == heading_code(m.autos[k].d));
    }
    assert forall|k: int| 0 <= k < nm implies mirror_entry_ok(b, k) by {
        lemma_encode_mirrors_index(m.mirrors, k);
        assert(b[8 + 3 * na + 3 * k] == m.mirrors[k].x as u64);
        assert(b[8 + 3 * na + 3 * k + 1] == m.mirrors[k].y as u64);
    }
    assert(parse_spec(b) == Some(parsed_model(b)));
    let pm = parsed_model(b);
    assert(pm.autos =~= m.autos) by {
        assert forall|k: int| 0 <= k < na implies pm.autos[k] == m.autos[k] by {
            lemma_encode_steppers_index(m.autos, k);
        }
    }
    assert(pm.mirrors =~= m.mirrors) by {
        assert forall|k: int| 0 <= k < nm implies pm.mirrors[k] == m.mirrors[k] by {
            lemma_encode_mirrors_index(m.mirrors, k);
        }
    }
    assert(pm =~= m);
}

/// The executable reflection of `heading_code`.
fn heading_code_exec(d: Heading) -> (r: u64)
    ensures
        r == heading_code(d),
{
    match d {
        Heading::Up => 0,
        Heading::Down => 1,
        Heading::Left => 2,
        Heading::Right => 3,
    }
}

/// The executable reflection of `heading_of_code`.
fn heading_from(c: u64) -> (r: Option<Heading>)
    ensures
        r == heading_of_code(c),
{
    if c == 0 {
        Some(Heading::Up)
    } else if c == 1 {
        Some(Heading::Down)
    } else if c == 2 {
        Some(Heading::Left)
    } else if c == 3 {
        Some(Heading::Right)
    } else {
        None
    }
}

/// A wire word as a coordinate, where it fits.
fn to_coord(v: u64) -> (r: Option<usize>)
    ensures
        fits_usize(v) ==> r == Some(v as usize),
        !fits_usize(v) ==> r is None,
{
    if v <= usize::MAX as u64 {
        Some(v as usize)
    } else {
        None
    }
}

impl World {
    /// Serializes the world per `encode_spec`.
    #[verifier::loop_isolation(false)]
    pub fn encode(&self) -> (out: Vec<u64>)
        ensures
            out@ == encode_spec(self@),
    {
        let ghost hdr = seq![
            self.width as u64,
            self.height as u64,
            self.player.x as u64,
            self.player.y as u64,
            heading_code(self.player.d),
            if self.alive {
                1u64
            } else {
                0u64
            },
            self.steppers@.len() as u64,
        ];
        let mut out: Vec<u64> = Vec::new();
        out.push(self.width as u64);
        out.push(self.height as u64);
        out.push(self.player.x as u64);
        out.push(self.player.y as u64);
        out.push(heading_code_exec(self.player.d));
        out.push(if self.alive { 1u64 } else { 0u64 });
        out.push(self.steppers.len() as u64);
        proof {
            assert(out@ =~= hdr);
            assert(encode_steppers(self.steppers@.take(0)) =~= Seq::<u64>::empty());
            assert(out@ =~= hdr + encode_steppers(self.steppers@.take(0)));
        }
        let mut i: usize = 0;
        while i < self.steppers.len()
            invariant
                i <= self.steppers@.len(),
                out@ == hdr + encode_steppers(self.steppers@.take(i as int)),
            decreases self.steppers@.len() - i,
        {
            let s = self.steppers[i];
            out.push(s.x as u64);
            out.push(s.y as u64);
            out.push(heading_code_exec(s.d));
            i += 1;
            proof {
                let t = self.steppers@.take(i as int);
                assert(t.drop_last() =~= self.steppers@.take(i as int - 1));
                assert(t.last() == self.steppers@[i as int - 1]);
                assert(out@ =~= hdr + encode_steppers(t));
            }
        }
        proof {
            assert(self.steppers@.take(self.steppers@.len() as int) =~= self.steppers@);
        }
        let ghost mid = hdr + encode_steppers(self.steppers@) + seq![self.mirrors@.len() as u64];
        out.push(self.mirrors.len() as u64);
        proof {
            assert(encode_mirrors(self.mirrors@.take(0)) =~= Seq::<u64>::empty());
            assert(out@ =~= mid + encode_mirrors(self.mirrors@.take(0)));
        }
        let mut j: usize = 0;
        while j < self.mirrors.len()
            invariant
                j <= self.mirrors@.len(),
                out@ == mid + encode_mirrors(self.mirrors@.take(j as int)),
            decreases self.mirrors@.len() - j,
        {
            let mr = self.mirrors[j];
            out.push(mr.x as u64);
            out.push(mr.y as u64);
            out.push(if mr.d { 1u64 } else { 0u64 });
            j += 1;
            proof {
                let t = self.mirrors@.take(j as int);
                assert(t.drop_last() =~= self.mirrors@.take(j as int - 1));
                assert(t.last() == self.mirrors@[j as int - 1]);
                assert(out@ =~= mid + encode_mirrors(t));
            }
        }
        proof {
            assert(self.mirrors@.take(self.mirrors@.len() as int) =~= self.mirrors@);
            assert(out@ =~= encode_spec(self@));
        }
        out
    }

    /// Deserializes a world per `decode_spec`: the stream must parse and the
    /// parsed world must meet the world invariant.
    #[verifier::loop_isolation(false)]
    pub fn decode(data: &Vec<u64>) -> (r: Option<World>)
        ensures
            match r {
                Some(w) => decode_spec(data@) == Some(w@) && w.wf(),
                None => decode_spec(data@) is None,
            },
    {
        if data.len() < 7 {
            return None;
        }
        let width = match to_coord(data[0]) {
            None => {
                return None;
            },
            Some(v) => v,
        };
        let height = match to_coord(data[1]) {
            None => {
                return None;
            },
            Some(v) => v,
        };
        let px = match to_coord(data[2]) {
            None => {
                return None;
            },
            Some(v) => v,
        };
        let py = match to_coord(data[3]) {
            None => {
                return None;
            },
            Some(v) => v,
        };
        let pd = match heading_from(data[4]) {
            None => {
                return None;
            },
            Some(d) => d,
        };
        if data[5] > 1 {
            return None;
        }
        let alive = data[5] == 1;
        let na64 = data[6];
        proof {
            assert(header_ok(data@));
        }
        let len = data.len();
        if (len as u128) < 8u128 + 3u128 * (na64 as u128) {
            proof {
                assert(data@.len() < 8 + 3 * (data@[6] as int));
            }
            return None;
        }
        let na = na64 as usize;
        let moff = 7 + 3 * na;
        let nm64 = data[moff];
        if (len as u128) != 8u128 + 3u128 * (na64 as u128) + 3u128 * (nm64 as u128) {
            proof {
                assert(data@.len() != 8 + 3 * (data@[6] as int) + 3 * (data@[7 + 3 * (
                data@[6] as int)] as int));
            }
            return None;
        }
        let nm = nm64 as usize;
        let mut steppers: Vec<Stepper> = Vec::new();
        let mut k: usize = 0;
        while k < na
            invariant
                k <= na,
                steppers@.len() == k,
                forall|t: int| 0 <= t < k ==> stepper_entry_ok(data@, 7, t),
                forall|t: int| 0 <= t < k ==> steppers@[t] == stepper_at(data@, 7 + 3 * t),
            decreases na - k,
        {
            let off = 7 + 3 * k;
            let x = match to_coord(data[off]) {
                None => {
                    proof {
                        assert(!stepper_entry_ok(data@, 7, k as int));
                    }
                    return None;
                },
                Some(v) => v,
            };
            let y = match to_coord(data[off + 1]) {
                None => {
                    proof {
                        assert(!stepper_entry_ok(data@, 7, k as int));
                    }
                    return None;
                },
                Some(v) => v,
            };
            let d = match heading_from(data[off + 2]) {
                None => {
                    proof {
                        assert(!stepper_entry_ok(data@, 7, k as int));
                    }
                    return None;
                },
                Some(d) => d,
            };
            steppers.push(Stepper { x, y, d });
            k += 1;
        }
        let mut mirrors: Vec<Mirror> = Vec::new();
        let mut k2: usize = 0;
        while k2 < nm
            invariant
                k2 <= nm,
                mirrors@.len() == k2,
                forall|t: int| 0 <= t < k2 ==> mirror_entry_ok(data@, t),
                forall|t: int|
                    0 <= t < k2 ==> mirrors@[t] == mirror_at_off(
                        data@,
                        8 + 3 * (na as int) + 3 * t,
                    ),
            decreases nm - k2,
        {
            let off = moff + 1 + 3 * k2;
            let x = match to_coord(data[off]) {
                None => {
                    proof {
                        assert(!mirror_entry_ok(data@, k2 as int));
                    }
                    return None;
                },
                Some(v) => v,
            };
            let y = match to_coord(data[off + 1]) {
                None => {
                    proof {
                        assert(!mirror_entry_ok(data@, k2 as int));
                    }
                    return None;
                },
                Some(v) => v,
            };
            if data[off + 2] > 1 {
                proof {
                    assert(!mirror_entry_ok(data@, k2 as int));
                }
                return None;
            }
            let d = data[off + 2] == 1;
            mirrors.push(Mirror { x, y, d });
            k2 += 1;
        }
        let ghost pm = parsed_model(data@);
        proof {
            assert(parse_spec(data@) == Some(pm));
            assert(pm.autos =~= steppers@);
            assert(pm.mirrors =~= mirrors@);
            assert(pm =~= (WorldModel {
                width,
                height,
                player: Stepper { x: px, y: py, d: pd },
                alive,
                autos: steppers@,
                mirrors: mirrors@,
            }));
        }
        match World::new(width, height, Stepper { x: px, y: py, d: pd }, steppers, mirrors) {
            Ok(w) => {
                let mut w = w;
                w.alive = alive;
                proof {
                    assert(w@ =~= pm);
                    assert(pm.wf());
                }
                Some(w)
            },
            Err(_) => {
                proof {
                    assert(!pm.wf());
                }
                None
            },
        }
    }
}

} // verus!
