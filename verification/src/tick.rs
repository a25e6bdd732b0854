//! The phases of a tick after the index is built, and what a whole tick
//! does.
//!
//! Interacting decides every particle's outcome from the state at the start
//! of the tick. Integrating moves each particle that stays: its velocity
//! grows by force times time step over mass, each component limited to the
//! speed cap of its colour; its position grows by the new velocity times the
//! time step, each coordinate limited to the world. Committing puts a
//! tombstone in the place of each removed particle and, last of all, inserts
//! the new particles in rising order of the ids of their parents, each at
//! rest where its parent was at the start of the tick.

use crate::fixed::{clamp_int, clamp_to, div_toward_zero, divide_toward_zero, Vec2, ONE};
use crate::forces::{net_force, Force};
use crate::grid::SpatialIndex;
use crate::interact::{doomed, outcome, outcome_for, spawn_of, Outcome};
use crate::rules::{ColorProfile, ColorRuleTable, TableView};
use crate::store::{Particle, ParticleStore, Slot, StoreView};
use vstd::prelude::*;

verus! {

/// A force beyond this drives every velocity to the speed cap.
pub const FORCE_LIMIT: i128 = 0x1_0000_0000_0000_0000;

/// The world: particles stay within `0..=width` by `0..=height`, and a tick
/// advances the time by `dt`. All three are fixed-point.
#[derive(Clone, Copy, Debug, PartialEq, Eq, Structural)]
pub struct World {
    pub width: i32,
    pub height: i32,
    pub dt: i32,
}

impl World {
    /// The sides are not negative and the time step is positive.
    pub open spec fn valid(self) -> bool {
        self.width >= 0 && self.height >= 0 && self.dt >= 1
    }
}

/// One component of the velocity after a tick.
pub open spec fn next_speed(v: int, force: int, mass: int, cap: int, dt: int) -> int {
    clamp_int(v + div_toward_zero(force * dt, mass), -cap, cap)
}

/// One coordinate after a tick in which the velocity has become `v`.
pub open spec fn next_coord(x: int, v: int, dt: int, limit: int) -> int {
    clamp_int(x + div_toward_zero(v * dt, ONE as int), 0, limit)
}

/// The particle `p` after a tick in which `force` acts on it.
pub open spec fn integrated(p: Particle, force: Force, profile: ColorProfile, w: World) -> Particle {
    let vx = next_speed(
        p.velocity.x as int,
        force.x,
        profile.mass as int,
        profile.speed_cap as int,
        w.dt as int,
    );
    let vy = next_speed(
        p.velocity.y as int,
        force.y,
        profile.mass as int,
        profile.speed_cap as int,
        w.dt as int,
    );
    Particle {
        position: Vec2 {
            x: next_coord(p.position.x as int, vx, w.dt as int, w.width as int) as i32,
            y: next_coord(p.position.y as int, vy, w.dt as int, w.height as int) as i32,
        },
        velocity: Vec2 { x: vx as i32, y: vy as i32 },
        color: p.color,
    }
}

/// What the slot `id` holds once the particles have moved and the removed
/// ones have gone.
pub open spec fn settled_slot(s: StoreView, t: TableView, w: World, id: int) -> Slot {
    if s.is_live(id) {
        if doomed(s, t, id) {
            Slot::Tombstone
        } else {
            Slot::Live(
                integrated(s.particle(id), net_force(s, t, id), t.profile(s.particle(id).color), w),
            )
        }
    } else {
        s.slots[id]
    }
}

/// The store once the particles have moved and the removed ones have gone.
pub open spec fn settled(s: StoreView, t: TableView, w: World) -> StoreView {
    StoreView {
        slots: Seq::new(s.slots.len(), |id: int| settled_slot(s, t, w, id)),
        free: s.free,
    }
}

/// The particle that the slot `id` brings forth, if it brings one forth.
pub open spec fn offspring(s: StoreView, t: TableView, id: int) -> Option<Particle> {
    match spawn_of(s, t, id) {
        Some(c) => Some(
            Particle { position: s.particle(id).position, velocity: Vec2 { x: 0, y: 0 }, color: c },
        ),
        None => None,
    }
}

/// The new particles of the slots below `k`, in rising order of the ids of
/// their parents.
pub open spec fn births_below(s: StoreView, t: TableView, k: int) -> Seq<Particle>
    decreases k,
{
    if k <= 0 {
        Seq::empty()
    } else {
        match offspring(s, t, k - 1) {
            Some(p) => births_below(s, t, k - 1).push(p),
            None => births_below(s, t, k - 1),
        }
    }
}

/// The store after the particles of a list were inserted one after another.
pub open spec fn insert_all(base: StoreView, particles: Seq<Particle>) -> StoreView
    decreases particles.len(),
{
    if particles.len() == 0 {
        base
    } else {
        insert_all(base, particles.drop_last()).insert(particles.last())
    }
}

/// The store after one tick.
pub open spec fn tick(s: StoreView, t: TableView, w: World) -> StoreView {
    let start = s.reclaim();
    insert_all(settled(start, t, w), births_below(start, t, start.slots.len() as int))
}

/// The store after `n` ticks.
pub open spec fn ticks(s: StoreView, t: TableView, w: World, n: nat) -> StoreView
    decreases n,
{
    if n == 0 {
        s
    } else {
        tick(ticks(s, t, w, (n - 1) as nat), t, w)
    }
}

/// A quotient of at least 2^64 by at most 2^31 is at least 2^33.
pub proof fn lemma_large_quotient(a: int, m: int)
    requires
        a >= FORCE_LIMIT,
        0 < m <= 0x8000_0000,
    ensures
        div_toward_zero(a, m) >= 0x2_0000_0000,
        div_toward_zero(-a, m) <= -0x2_0000_0000,
{
    assert(a / m >= 0x2_0000_0000) by (nonlinear_arith)
        requires
            a >= 0x1_0000_0000_0000_0000,
            0 < m <= 0x8000_0000,
    ;
}

/// One component of the velocity after a tick.
pub fn speed_after(v: i32, force: i128, mass: i32, cap: i32, dt: i32) -> (r: i32)
    requires
        mass > 0,
        cap >= 0,
        dt >= 1,
    ensures
        r == next_speed(v as int, force as int, mass as int, cap as int, dt as int),
{
    let limited: i128 = if force > FORCE_LIMIT {
        FORCE_LIMIT
    } else if force < -FORCE_LIMIT {
        -FORCE_LIMIT
    } else {
        force
    };
    proof {
        assert(-0x8000_0000_0000_0000_0000_0000 <= limited * dt <= 0x8000_0000_0000_0000_0000_0000)
            by (nonlinear_arith)
            requires
                -0x1_0000_0000_0000_0000 <= limited <= 0x1_0000_0000_0000_0000,
                1 <= dt <= 0x8000_0000,
        ;
        crate::fixed::lemma_div_toward_zero(limited * dt, mass as int);
        if force > FORCE_LIMIT {
            assert(force * dt >= FORCE_LIMIT && limited * dt >= FORCE_LIMIT) by (nonlinear_arith)
                requires
                    force > FORCE_LIMIT,
                    limited == FORCE_LIMIT,
                    dt >= 1,
            ;
            lemma_large_quotient(force * dt, mass as int);
            lemma_large_quotient(limited * dt, mass as int);
        } else if force < -FORCE_LIMIT {
            assert(-(force * dt) >= FORCE_LIMIT && -(limited * dt) >= FORCE_LIMIT)
                by (nonlinear_arith)
                requires
                    force < -FORCE_LIMIT,
                    limited == -FORCE_LIMIT,
                    dt >= 1,
            ;
            lemma_large_quotient(-(force * dt), mass as int);
            lemma_large_quotient(-(limited * dt), mass as int);
        }
    }
    let change: i128 = divide_toward_zero(limited * (dt as i128), mass as i128);
    clamp_to(v as i128 + change, -cap, cap)
}

/// One coordinate after a tick in which the velocity has become `v`.
pub fn coord_after(x: i32, v: i32, dt: i32, limit: i32) -> (r: i32)
    requires
        dt >= 1,
        limit >= 0,
    ensures
        r == next_coord(x as int, v as int, dt as int, limit as int),
{
    proof {
        assert(-0x4000_0000_0000_0000 <= v * dt <= 0x4000_0000_0000_0000) by (nonlinear_arith)
            requires
                -0x8000_0000 <= v <= 0x8000_0000,
                1 <= dt <= 0x8000_0000,
        ;
        crate::fixed::lemma_div_toward_zero(v * dt, ONE as int);
    }
    let step: i128 = divide_toward_zero((v as i128) * (dt as i128), ONE as i128);
    clamp_to(x as i128 + step, 0, limit)
}

/// The particle `p` after a tick in which the given force acts on it.
pub fn integrate(p: Particle, force_x: i128, force_y: i128, profile: ColorProfile, world: World) -> (r:
    Particle)
    requires
        profile.mass > 0,
        profile.speed_cap >= 0,
        world.valid(),
    ensures
        r == integrated(p, Force { x: force_x as int, y: force_y as int }, profile, world),
{
    let vx: i32 = speed_after(p.velocity.x, force_x, profile.mass, profile.speed_cap, world.dt);
    let vy: i32 = speed_after(p.velocity.y, force_y, profile.mass, profile.speed_cap, world.dt);
    let x: i32 = coord_after(p.position.x, vx, world.dt, world.width);
    let y: i32 = coord_after(p.position.y, vy, world.dt, world.height);
    Particle { position: Vec2 { x, y }, velocity: Vec2 { x: vx, y: vy }, color: p.color }
}

/// Interacting: the outcome of every slot, decided from the store as it is.
pub fn interact(table: &ColorRuleTable, store: &ParticleStore, index: &SpatialIndex) -> (r: Vec<
    Outcome,
>)
    requires
        index@.wf(),
        index@.mirrors(store@),
        table@.max_radius() <= index@.cell_size,
    ensures
        r@.len() == store@.slots.len(),
        forall|id: int| 0 <= id < r@.len() ==> (#[trigger] r@[id])@ == outcome(store@, table@, id),
{
    let n: usize = store.slot_count();
    let mut outcomes: Vec<Outcome> = Vec::new();
    let mut id: usize = 0;
    while id < n
        invariant
            id <= n,
            n == store@.slots.len(),
            index@.wf(),
            index@.mirrors(store@),
            table@.max_radius() <= index@.cell_size,
            outcomes@.len() == id,
            forall|k: int|
                0 <= k < id ==> (#[trigger] outcomes@[k])@ == outcome(store@, table@, k),
        decreases n - id,
    {
        let o: Outcome = outcome_for(table, store, index, id);
        outcomes.push(o);
        id += 1;
    }
    outcomes
}

/// Integrating, and the first half of committing: moves every particle
/// that stays and puts a tombstone in the place of every particle that is
/// removed. Returns the particles that the tick brings forth.
pub fn settle(
    table: &ColorRuleTable,
    store: &mut ParticleStore,
    world: World,
    outcomes: &Vec<Outcome>,
) -> (births: Vec<Particle>)
    requires
        old(store)@.wf(),
        world.valid(),
        outcomes@.len() == old(store)@.slots.len(),
        forall|id: int|
            0 <= id < outcomes@.len() ==> (#[trigger] outcomes@[id])@ == outcome(
                old(store)@,
                table@,
                id,
            ),
    ensures
        final(store)@ == settled(old(store)@, table@, world),
        final(store)@.wf(),
        births@ == births_below(old(store)@, table@, old(store)@.slots.len() as int),
{
    let ghost start = store@;
    let ghost t = table@;
    let n: usize = store.slot_count();
    let mut births: Vec<Particle> = Vec::new();
    let mut id: usize = 0;
    while id < n
        invariant
            id <= n,
            n == start.slots.len(),
            t == table@,
            world.valid(),
            start.wf(),
            store@.wf(),
            store@.free == start.free,
            store@.slots.len() == n,
            outcomes@.len() == n,
            forall|k: int|
                0 <= k < n ==> (#[trigger] outcomes@[k])@ == outcome(start, t, k),
            forall|k: int|
                0 <= k < n ==> #[trigger] store@.slots[k] == (if k < id {
                    settled_slot(start, t, world, k)
                } else {
                    start.slots[k]
                }),
            births@ == births_below(start, t, id as int),
        decreases n - id,
    {
        assert(store@.slots[id as int] == start.slots[id as int]);
        assert(outcomes@[id as int]@ == outcome(start, t, id as int));
        let ghost before = store@;
        match store.get(id) {
            Some(p) => {
                let o: Outcome = outcomes[id];
                match o.spawn {
                    Some(c) => {
                        births.push(
                            Particle {
                                position: p.position,
                                velocity: Vec2 { x: 0, y: 0 },
                                color: c,
                            },
                        );
                    },
                    None => {},
                }
                if o.doomed {
                    let _ = store.remove(id);
                } else {
                    let profile: ColorProfile = table.profile_for(p.color);
                    proof {
                        crate::rules::lemma_valid_table(t, p.color, p.color);
                    }
                    let moved: Particle = integrate(p, o.force_x, o.force_y, profile, world);
                    let _ = store.replace(id, moved);
                }
            },
            None => {
                proof {
                    crate::interact::lemma_spawn_partner(start, t, id as int, n as int);
                }
            },
        }
        proof {
            assert forall|k: int| 0 <= k < n implies #[trigger] store@.slots[k] == (if k < id + 1 {
                settled_slot(start, t, world, k)
            } else {
                start.slots[k]
            }) by {
                if k != id {
                    assert(store@.slots[k] == before.slots[k]);
                }
            }
        }
        id += 1;
    }
    assert(store@.slots =~= settled(start, t, world).slots);
    births
}

/// The second half of committing: inserts the new particles, one after
/// another.
pub fn commit_births(store: &mut ParticleStore, births: &Vec<Particle>)
    requires
        old(store)@.wf(),
    ensures
        final(store)@ == insert_all(old(store)@, births@),
        final(store)@.wf(),
{
    let ghost start = store@;
    let mut k: usize = 0;
    while k < births.len()
        invariant
            k <= births@.len(),
            store@.wf(),
            store@ == insert_all(start, births@.take(k as int)),
        decreases births@.len() - k,
    {
        proof {
            assert(births@.take(k as int + 1).drop_last() =~= births@.take(k as int));
            assert(births@.take(k as int + 1).last() == births@[k as int]);
        }
        let _ = store.insert(births[k]);
        k += 1;
    }
    assert(births@.take(k as int) =~= births@);
}

} // verus!
