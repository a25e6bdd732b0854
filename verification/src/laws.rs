//! What holds of every tick: laws that relate the model of a tick to the
//! rules it runs under.

use crate::fixed::{div_toward_zero, ONE};
use crate::forces::{
    force_from, force_x_from, force_y_from, net_force, pair_force, sum_below, Force,
};
use crate::interact::{deletes, doomed, lemma_spawn_partner, spawn_of, spawn_partner_below};
use crate::rules::{
    is_lifecycle, lemma_valid_table, lookup_rule, neutral_rule, Color, ColorProfile, RuleEntry,
    TableView,
};
use crate::store::{lemma_live_below_same_liveness, Particle, Slot, StoreView};
use crate::store::tombstones_below;
use crate::tick::{
    births_below, insert_all, integrated, offspring, settled, settled_slot, tick, ticks, World,
};
use vstd::prelude::*;

verus! {

/// Entries without a rule that removes or brings forth a particle give no
/// pair of colours such a rule.
pub proof fn lemma_lookup_forces_only(rules: Seq<RuleEntry>, a: Color, b: Color)
    requires
        forall|i: int| 0 <= i < rules.len() ==> !is_lifecycle((#[trigger] rules[i]).rule.kind),
    ensures
        !is_lifecycle(lookup_rule(rules, a, b).kind),
    decreases rules.len(),
{
    if rules.len() > 0 {
        let rest = rules.drop_last();
        assert(!is_lifecycle(rules[rules.len() - 1].rule.kind));
        assert forall|i: int| 0 <= i < rest.len() implies !is_lifecycle(
            (#[trigger] rest[i]).rule.kind,
        ) by {
            assert(rest[i] == rules[i]);
        }
        lemma_lookup_forces_only(rest, a, b);
    }
}

/// Under a table whose rules only attract and repel, no particle is removed
/// and none brings forth another.
pub proof fn lemma_forces_only_outcomes(s: StoreView, t: TableView, id: int)
    requires
        t.forces_only(),
    ensures
        !doomed(s, t, id),
        spawn_of(s, t, id) is None,
        offspring(s, t, id) is None,
{
    if doomed(s, t, id) {
        let p = choose|p: int| deletes(s, t, p, id);
        lemma_lookup_forces_only(t.rules, s.particle(p).color, s.particle(id).color);
    }
    lemma_spawn_partner(s, t, id, s.slots.len() as int);
    match spawn_partner_below(s, t, id, s.slots.len() as int) {
        Some(q) => {
            lemma_lookup_forces_only(t.rules, s.particle(id).color, s.particle(q).color);
        },
        None => {},
    }
}

/// Under a table whose rules only attract and repel, a tick brings forth
/// no particle.
pub proof fn lemma_forces_only_births(s: StoreView, t: TableView, k: int)
    requires
        t.forces_only(),
    ensures
        births_below(s, t, k) == Seq::<Particle>::empty(),
    decreases k,
{
    if k > 0 {
        lemma_forces_only_outcomes(s, t, k - 1);
        lemma_forces_only_births(s, t, k - 1);
    }
}

/// The sum of a function that is zero everywhere is zero.
pub proof fn lemma_sum_below_zero(f: spec_fn(int) -> int, n: int)
    requires
        forall|q: int| #[trigger] f(q) == 0,
    ensures
        sum_below(f, n) == 0,
    decreases n,
{
    if n > 0 {
        lemma_sum_below_zero(f, n - 1);
    }
}

/// Conservation: under a table whose rules only attract and repel, a tick
/// keeps every particle in its slot, with its colour, and so keeps the
/// number of particles.
pub proof fn lemma_tick_conserves_particles(s: StoreView, t: TableView, w: World)
    requires
        t.forces_only(),
    ensures
        tick(s, t, w).slots.len() == s.slots.len(),
        forall|id: int| #[trigger] tick(s, t, w).is_live(id) <==> s.is_live(id),
        forall|id: int| #[trigger]
            s.is_live(id) ==> tick(s, t, w).particle(id).color == s.particle(id).color,
        tick(s, t, w).live_count() == s.live_count(),
{
    let start = s.reclaim();
    let n = s.slots.len() as int;
    let after = settled(start, t, w);
    lemma_forces_only_births(start, t, n);
    assert(insert_all(after, Seq::<Particle>::empty()) == after);
    assert(tick(s, t, w) == after);
    assert forall|id: int| 0 <= id < n implies (#[trigger] after.slots[id] is Live
        <==> s.slots[id] is Live) by {
        lemma_forces_only_outcomes(start, t, id);
    }
    assert forall|id: int| #[trigger] s.is_live(id) implies after.particle(id).color == s.particle(
        id,
    ).color by {
        lemma_forces_only_outcomes(start, t, id);
    }
    lemma_live_below_same_liveness(after.slots, s.slots, n);
}

/// Conservation over time: under a table whose rules only attract and
/// repel, the number of particles is the same after any number of ticks.
pub proof fn lemma_count_is_invariant(s: StoreView, t: TableView, w: World, n: nat)
    requires
        t.forces_only(),
    ensures
        ticks(s, t, w, n).live_count() == s.live_count(),
    decreases n,
{
    if n > 0 {
        lemma_count_is_invariant(s, t, w, (n - 1) as nat);
        lemma_tick_conserves_particles(ticks(s, t, w, (n - 1) as nat), t, w);
    }
}

/// Where a particle goes in a tick in which no force acts on it.
pub open spec fn drifted(p: Particle, profile: ColorProfile, w: World) -> Particle {
    integrated(p, Force { x: 0, y: 0 }, profile, w)
}

/// Inertial drift: under a table without a rule, a tick removes no particle
/// and brings none forth, and every particle goes where its velocity takes
/// it; no force acts on it.
pub proof fn lemma_no_rules_is_drift(s: StoreView, t: TableView, w: World)
    requires
        t.rules.len() == 0,
    ensures
        tick(s, t, w).slots.len() == s.slots.len(),
        forall|id: int| #[trigger] tick(s, t, w).is_live(id) <==> s.is_live(id),
        forall|id: int| #[trigger]
            s.is_live(id) ==> tick(s, t, w).particle(id) == drifted(
                s.particle(id),
                t.profile(s.particle(id).color),
                w,
            ),
{
    let start = s.reclaim();
    let n = s.slots.len() as int;
    let after = settled(start, t, w);
    assert(t.forces_only());
    lemma_tick_conserves_particles(s, t, w);
    lemma_forces_only_births(start, t, n);
    assert(insert_all(after, Seq::<Particle>::empty()) == after);
    assert forall|id: int| #[trigger] s.is_live(id) implies tick(s, t, w).particle(id) == drifted(
        s.particle(id),
        t.profile(s.particle(id).color),
        w,
    ) by {
        lemma_forces_only_outcomes(start, t, id);
        lemma_no_rules_no_force(start, t, id);
    }
}

/// Under a table without a rule, no force acts on any particle.
pub proof fn lemma_no_rules_no_force(s: StoreView, t: TableView, id: int)
    requires
        t.rules.len() == 0,
    ensures
        net_force(s, t, id) == (Force { x: 0, y: 0 }),
{
    let fx = force_x_from(s, t, id);
    let fy = force_y_from(s, t, id);
    assert forall|q: int| force_from(s, t, id, q) == (Force { x: 0, y: 0 }) by {
        if q != id && s.is_live(q) {
            let p = s.particle(id);
            let o = s.particle(q);
            assert(t.rule(p.color, o.color) == neutral_rule());
            assert(pair_force(t, p, o) == (Force { x: 0, y: 0 }));
        }
    }
    assert forall|q: int| #[trigger] fx(q) == 0 by {
        assert(fx(q) == force_from(s, t, id, q).x);
    }
    assert forall|q: int| #[trigger] fy(q) == 0 by {
        assert(fy(q) == force_from(s, t, id, q).y);
    }
    lemma_sum_below_zero(fx, s.slots.len() as int);
    lemma_sum_below_zero(fy, s.slots.len() as int);
}

/// A particle that is no faster than its speed cap and does not reach the
/// edge of the world keeps its velocity in a tick without force, and its
/// position grows by the velocity times the time step.
pub proof fn lemma_drift_is_linear(p: Particle, profile: ColorProfile, w: World)
    requires
        -profile.speed_cap <= p.velocity.x <= profile.speed_cap,
        -profile.speed_cap <= p.velocity.y <= profile.speed_cap,
        profile.mass > 0,
        0 <= p.position.x + div_toward_zero(p.velocity.x * w.dt, ONE as int) <= w.width,
        0 <= p.position.y + div_toward_zero(p.velocity.y * w.dt, ONE as int) <= w.height,
    ensures
        drifted(p, profile, w).velocity == p.velocity,
        drifted(p, profile, w).color == p.color,
        drifted(p, profile, w).position.x == p.position.x + div_toward_zero(
            p.velocity.x * w.dt,
            ONE as int,
        ),
        drifted(p, profile, w).position.y == p.position.y + div_toward_zero(
            p.velocity.y * w.dt,
            ONE as int,
        ),
{
    assert(0int * (w.dt as int) == 0) by (nonlinear_arith);
    assert(0int / (profile.mass as int) == 0) by (nonlinear_arith)
        requires
            profile.mass > 0,
    ;
}

/// Inertial drift over time: under a valid table without a rule, a
/// particle that is no faster than its speed cap, and whose straight path
/// over `n` ticks ends inside the world, is after `n` ticks where it
/// started plus `n` times its velocity times the time step, with the
/// velocity that it started with.
pub proof fn lemma_drift_over_ticks(s: StoreView, t: TableView, w: World, id: int, n: nat)
    requires
        t.valid(),
        t.rules.len() == 0,
        s.is_live(id),
        -t.profile(s.particle(id).color).speed_cap <= s.particle(id).velocity.x <= t.profile(
            s.particle(id).color,
        ).speed_cap,
        -t.profile(s.particle(id).color).speed_cap <= s.particle(id).velocity.y <= t.profile(
            s.particle(id).color,
        ).speed_cap,
        0 <= s.particle(id).position.x <= w.width,
        0 <= s.particle(id).position.y <= w.height,
        0 <= s.particle(id).position.x + n * div_toward_zero(
            s.particle(id).velocity.x * w.dt,
            ONE as int,
        ) <= w.width,
        0 <= s.particle(id).position.y + n * div_toward_zero(
            s.particle(id).velocity.y * w.dt,
            ONE as int,
        ) <= w.height,
    ensures
        ticks(s, t, w, n).is_live(id),
        ticks(s, t, w, n).particle(id).velocity == s.particle(id).velocity,
        ticks(s, t, w, n).particle(id).color == s.particle(id).color,
        ticks(s, t, w, n).particle(id).position.x == s.particle(id).position.x + n
            * div_toward_zero(s.particle(id).velocity.x * w.dt, ONE as int),
        ticks(s, t, w, n).particle(id).position.y == s.particle(id).position.y + n
            * div_toward_zero(s.particle(id).velocity.y * w.dt, ONE as int),
    decreases n,
{
    let p = s.particle(id);
    let dx = div_toward_zero(p.velocity.x * w.dt, ONE as int);
    let dy = div_toward_zero(p.velocity.y * w.dt, ONE as int);
    if n > 0 {
        let m = (n - 1) as nat;
        assert(m * dx == n * dx - dx && m * dy == n * dy - dy) by (nonlinear_arith)
            requires
                m == n - 1,
        ;
        assert(0 <= p.position.x + m * dx <= w.width) by (nonlinear_arith)
            requires
                0 <= p.position.x <= w.width,
                0 <= p.position.x + n * dx <= w.width,
                0 <= m < n,
        ;
        assert(0 <= p.position.y + m * dy <= w.height) by (nonlinear_arith)
            requires
                0 <= p.position.y <= w.height,
                0 <= p.position.y + n * dy <= w.height,
                0 <= m < n,
        ;
        lemma_drift_over_ticks(s, t, w, id, m);
        let before = ticks(s, t, w, m);
        let q = before.particle(id);
        lemma_no_rules_is_drift(before, t, w);
        lemma_valid_table(t, q.color, q.color);
        lemma_drift_is_linear(q, t.profile(q.color), w);
    } else {
        assert(0 * dx == 0 && 0 * dy == 0) by (nonlinear_arith);
    }
}

/// Determinism: runs that start from the same store, under the same table
/// and in the same world, are in the same state after the same number of
/// ticks.
pub proof fn lemma_runs_agree(
    a: StoreView,
    b: StoreView,
    ta: TableView,
    tb: TableView,
    wa: World,
    wb: World,
    n: nat,
)
    requires
        a == b,
        ta == tb,
        wa == wb,
    ensures
        ticks(a, ta, wa, n) == ticks(b, tb, wb, n),
{
}

/// `tombstones_below` lists tombstones only, in rising order.
pub proof fn lemma_tombstones_below(slots: Seq<Slot>, k: int)
    requires
        0 <= k <= slots.len(),
        slots.len() <= usize::MAX,
    ensures
        forall|i: int|
            0 <= i < tombstones_below(slots, k).len() ==> (#[trigger] tombstones_below(slots, k)[i])
                < k && slots[tombstones_below(slots, k)[i] as int] is Tombstone,
        forall|i: int, j: int|
            0 <= i < j < tombstones_below(slots, k).len() ==> tombstones_below(slots, k)[i]
                < tombstones_below(slots, k)[j],
    decreases k,
{
    if k > 0 {
        lemma_tombstones_below(slots, k - 1);
    }
}

/// Reclaiming the tombstones of a well-formed store leaves it well-formed,
/// without a tombstone, and with the same live particles.
pub proof fn lemma_reclaim(s: StoreView)
    requires
        s.wf(),
        s.slots.len() <= usize::MAX,
    ensures
        s.reclaim().wf(),
        s.reclaim().slots.len() == s.slots.len(),
        forall|id: int|
            0 <= id < s.slots.len() ==> !(#[trigger] s.reclaim().slots[id] is Tombstone),
        forall|id: int| #[trigger]
            s.reclaim().is_live(id) <==> s.is_live(id),
        forall|id: int| #[trigger] s.is_live(id) ==> s.reclaim().particle(id) == s.particle(id),
{
    let n = s.slots.len() as int;
    let r = s.reclaim();
    let added = tombstones_below(s.slots, n);
    lemma_tombstones_below(s.slots, n);
    assert forall|i: int| 0 <= i < r.free.len() implies (#[trigger] r.free[i]) < r.slots.len()
        && r.slots[r.free[i] as int] is Free by {
        if i < s.free.len() {
            assert(r.free[i] == s.free[i]);
        } else {
            assert(r.free[i] == added[i - s.free.len()]);
        }
    }
    assert forall|i: int, j: int| 0 <= i < j < r.free.len() implies r.free[i] != r.free[j] by {
        if j < s.free.len() {
            assert(r.free[i] == s.free[i] && r.free[j] == s.free[j]);
        } else if i < s.free.len() {
            assert(r.free[i] == s.free[i]);
            assert(r.free[j] == added[j - s.free.len()]);
        } else {
            assert(r.free[i] == added[i - s.free.len()]);
            assert(r.free[j] == added[j - s.free.len()]);
        }
    }
}

/// Inserting into a well-formed store leaves it well-formed and touches
/// no slot but a free one.
pub proof fn lemma_insert(s: StoreView, p: Particle)
    requires
        s.wf(),
    ensures
        s.insert(p).wf(),
        s.insert(p).slots.len() >= s.slots.len(),
        forall|id: int|
            0 <= id < s.slots.len() && !(s.slots[id] is Free) ==> #[trigger] s.insert(p).slots[id]
                == s.slots[id],
{
    let r = s.insert(p);
    if s.free.len() > 0 {
        let last = s.free.len() - 1;
        assert forall|i: int| 0 <= i < r.free.len() implies (#[trigger] r.free[i]) < r.slots.len()
            && r.slots[r.free[i] as int] is Free by {
            assert(r.free[i] == s.free[i]);
            assert(s.free[i] != s.free[last]);
        }
        assert forall|i: int, j: int| 0 <= i < j < r.free.len() implies r.free[i] != r.free[j] by {
            assert(r.free[i] == s.free[i] && r.free[j] == s.free[j]);
        }
        assert(s.slots[s.free[last] as int] is Free);
    }
}

/// Inserting a list of particles into a well-formed store leaves it
/// well-formed and touches no slot but free ones.
pub proof fn lemma_insert_all(base: StoreView, particles: Seq<Particle>)
    requires
        base.wf(),
    ensures
        insert_all(base, particles).wf(),
        insert_all(base, particles).slots.len() >= base.slots.len(),
        forall|id: int|
            0 <= id < base.slots.len() && !(base.slots[id] is Free) ==> #[trigger] insert_all(
                base,
                particles,
            ).slots[id] == base.slots[id],
    decreases particles.len(),
{
    if particles.len() > 0 {
        let before = insert_all(base, particles.drop_last());
        lemma_insert_all(base, particles.drop_last());
        lemma_insert(before, particles.last());
        assert forall|id: int|
            0 <= id < base.slots.len() && !(base.slots[id] is Free) implies #[trigger] insert_all(
            base,
            particles,
        ).slots[id] == base.slots[id] by {
            assert(before.slots[id] == base.slots[id]);
        }
    }
}

/// A tick leaves a well-formed store well-formed. The slot of a particle
/// that the tick removes holds a tombstone when the tick ends: no particle
/// that the tick inserts gets the id of one that it removes. A particle
/// that the tick does not remove stays in its slot.
pub proof fn lemma_tick_keeps_ids(s: StoreView, t: TableView, w: World)
    requires
        s.wf(),
        s.slots.len() <= usize::MAX,
    ensures
        tick(s, t, w).wf(),
        tick(s, t, w).slots.len() >= s.slots.len(),
        forall|id: int| #[trigger]
            s.is_live(id) ==> tick(s, t, w).slots[id] == settled_slot(s.reclaim(), t, w, id),
        forall|id: int| #[trigger]
            s.is_live(id) && doomed(s.reclaim(), t, id) ==> tick(s, t, w).slots[id] is Tombstone,
        forall|id: int| #[trigger]
            s.is_live(id) && !doomed(s.reclaim(), t, id) ==> tick(s, t, w).is_live(id),
{
    let start = s.reclaim();
    let n = s.slots.len() as int;
    let after = settled(start, t, w);
    lemma_reclaim(s);
    assert(after.wf()) by {
        assert forall|i: int| 0 <= i < after.free.len() implies (#[trigger] after.free[i])
            < after.slots.len() && after.slots[after.free[i] as int] is Free by {
            assert(start.free[i] < start.slots.len());
        }
    }
    lemma_insert_all(after, births_below(start, t, n));
    assert forall|id: int| #[trigger] s.is_live(id) implies tick(s, t, w).slots[id] == settled_slot(
        start,
        t,
        w,
        id,
    ) by {
        assert(start.is_live(id));
        assert(after.slots[id] == settled_slot(start, t, w, id));
    }
}

} // verus!
