//! The interaction phase of a tick: what happens to each particle, decided
//! from the state at the start of the tick alone.
//!
//! A rule of kind `Delete` or `Spawn` of a particle about a neighbour within
//! the rule's radius takes effect, unless the neighbour has such a rule
//! about the particle too, is within that rule's radius, and has the lower
//! id: of two such rules on one pair, only that of the lower id takes
//! effect. A particle is removed if a `Delete` rule of any other particle
//! about it takes effect. It brings forth at most one particle per tick: by
//! its `Spawn` rule about the neighbour of lowest id about which such a rule
//! takes effect.

use crate::fixed::{is_within, within};
use crate::forces::{
    force_from, force_x_from, force_y_from, lemma_sum_over_support,
    lemma_within_symmetric_monotone, net_force, pair_force, pair_force_of, sum_over, Force,
    MAX_PAIR_FORCE,
};
use crate::grid::{lemma_neighbors_match_exhaustive_search, SpatialIndex};
use crate::rules::{
    is_lifecycle, lemma_valid_table, Color, ColorRule, ColorRuleTable, Interaction, TableView,
};
use crate::store::{Particle, ParticleStore, StoreView};
use vstd::prelude::*;

verus! {

/// Whether `p` has a rule about `q` that removes or brings forth a
/// particle, and `q` is within its radius.
pub open spec fn applies(t: TableView, p: Particle, q: Particle) -> bool {
    is_lifecycle(t.rule(p.color, q.color).kind) && within(
        p.position,
        q.position,
        t.rule(p.color, q.color).radius as int,
    )
}

/// Whether such a rule of the particle `a` about the particle `b` takes
/// effect.
pub open spec fn fires_between(t: TableView, a: int, pa: Particle, b: int, pb: Particle) -> bool {
    a != b && applies(t, pa, pb) && !(b < a && applies(t, pb, pa))
}

/// Whether a `Delete` rule of the live particle `p` about the live particle
/// `q` takes effect.
pub open spec fn deletes(s: StoreView, t: TableView, p: int, q: int) -> bool {
    &&& s.is_live(p)
    &&& s.is_live(q)
    &&& fires_between(t, p, s.particle(p), q, s.particle(q))
    &&& t.rule(s.particle(p).color, s.particle(q).color).kind is Delete
}

/// Whether a `Spawn` rule of the live particle `p` about the live particle
/// `q` takes effect.
pub open spec fn spawns(s: StoreView, t: TableView, p: int, q: int) -> bool {
    &&& s.is_live(p)
    &&& s.is_live(q)
    &&& fires_between(t, p, s.particle(p), q, s.particle(q))
    &&& t.rule(s.particle(p).color, s.particle(q).color).kind is Spawn
}

/// Whether the particle `q` is removed in this tick.
pub open spec fn doomed(s: StoreView, t: TableView, q: int) -> bool {
    exists|p: int| deletes(s, t, p, q)
}

/// The lowest id below `k` about which a `Spawn` rule of `p` takes effect.
pub open spec fn spawn_partner_below(s: StoreView, t: TableView, p: int, k: int) -> Option<int>
    decreases k,
{
    if k <= 0 {
        None
    } else {
        match spawn_partner_below(s, t, p, k - 1) {
            Some(q) => Some(q),
            None => if spawns(s, t, p, k - 1) {
                Some(k - 1)
            } else {
                None
            },
        }
    }
}

/// The colour of the particle that `p` brings forth in this tick, if it
/// brings one forth.
pub open spec fn spawn_of(s: StoreView, t: TableView, p: int) -> Option<Color> {
    match spawn_partner_below(s, t, p, s.slots.len() as int) {
        Some(q) => Some(t.rule(s.particle(p).color, s.particle(q).color).kind->Spawn_0),
        None => None,
    }
}

/// What happens to one particle in a tick, as a mathematical value.
pub struct OutcomeView {
    pub force: Force,
    pub doomed: bool,
    pub spawn: Option<Color>,
}

/// What happens to the slot `id` in a tick: nothing, unless it holds a live
/// particle.
pub open spec fn outcome(s: StoreView, t: TableView, id: int) -> OutcomeView {
    if s.is_live(id) {
        OutcomeView { force: net_force(s, t, id), doomed: doomed(s, t, id), spawn: spawn_of(s, t, id) }
    } else {
        OutcomeView { force: Force { x: 0, y: 0 }, doomed: false, spawn: None }
    }
}

/// What `spawn_partner_below` returns is the lowest id below `k` about which
/// a `Spawn` rule of `p` takes effect.
pub proof fn lemma_spawn_partner(s: StoreView, t: TableView, p: int, k: int)
    ensures
        match spawn_partner_below(s, t, p, k) {
            Some(q) => 0 <= q < k && spawns(s, t, p, q) && forall|lower: int|
                0 <= lower < q ==> !spawns(s, t, p, lower),
            None => forall|lower: int| 0 <= lower < k ==> !spawns(s, t, p, lower),
        },
    decreases k,
{
    if k > 0 {
        lemma_spawn_partner(s, t, p, k - 1);
    }
}

/// What happens to one particle in a tick.
#[derive(Clone, Copy, Debug, PartialEq, Eq)]
pub struct Outcome {
    pub force_x: i128,
    pub force_y: i128,
    pub doomed: bool,
    pub spawn: Option<Color>,
}

impl View for Outcome {
    type V = OutcomeView;

    open spec fn view(&self) -> OutcomeView {
        OutcomeView {
            force: Force { x: self.force_x as int, y: self.force_y as int },
            doomed: self.doomed,
            spawn: self.spawn,
        }
    }
}

/// What one neighbour does to a particle, and the particle about it.
pub struct PairEffect {
    pub force_x: i128,
    pub force_y: i128,
    /// The neighbour removes the particle.
    pub dooms: bool,
    /// The particle brings forth a particle of this colour on account of
    /// the neighbour.
    pub spawn: Option<Color>,
}

/// Whether a rule of this kind removes or brings forth a particle.
pub fn kind_is_lifecycle(kind: Interaction) -> (r: bool)
    ensures
        r == is_lifecycle(kind),
{
    match kind {
        Interaction::Delete => true,
        Interaction::Spawn(_) => true,
        _ => false,
    }
}

/// What the particle `other` with the id `q` does to the particle `p` with
/// the id `id`, and `p` about `other`.
pub fn pair_effect(table: &ColorRuleTable, id: usize, p: Particle, q: usize, other: Particle) -> (r:
    PairEffect)
    requires
        id != q,
    ensures
        r.force_x == pair_force(table@, p, other).x,
        r.force_y == pair_force(table@, p, other).y,
        -MAX_PAIR_FORCE <= r.force_x <= MAX_PAIR_FORCE,
        -MAX_PAIR_FORCE <= r.force_y <= MAX_PAIR_FORCE,
        r.dooms == (fires_between(table@, q as int, other, id as int, p) && table@.rule(
            other.color,
            p.color,
        ).kind is Delete),
        r.spawn == (if fires_between(table@, id as int, p, q as int, other) && table@.rule(
            p.color,
            other.color,
        ).kind is Spawn {
            Some(table@.rule(p.color, other.color).kind->Spawn_0)
        } else {
            None
        }),
{
    let force = pair_force_of(table, p, other);
    let mine: ColorRule = table.rule_for(p.color, other.color);
    let theirs: ColorRule = table.rule_for(other.color, p.color);
    let mine_applies: bool = kind_is_lifecycle(mine.kind) && is_within(
        p.position,
        other.position,
        mine.radius,
    );
    let theirs_applies: bool = kind_is_lifecycle(theirs.kind) && is_within(
        other.position,
        p.position,
        theirs.radius,
    );
    let theirs_fires: bool = theirs_applies && !(id < q && mine_applies);
    let mine_fires: bool = mine_applies && !(q < id && theirs_applies);
    let dooms: bool = theirs_fires && match theirs.kind {
        Interaction::Delete => true,
        _ => false,
    };
    let spawn: Option<Color> = if mine_fires {
        match mine.kind {
            Interaction::Spawn(c) => Some(c),
            _ => None,
        }
    } else {
        None
    };
    PairEffect { force_x: force.0, force_y: force.1, dooms, spawn }
}

/// Whatever acts on the live particle `id`, or is acted on by it, is within
/// the largest radius of the table, and so among the neighbours that a query
/// with that radius finds.
pub proof fn lemma_effects_are_local(s: StoreView, t: TableView, id: int, q: int)
    requires
        t.valid(),
        s.is_live(id),
    ensures
        force_from(s, t, id, q).x != 0 || force_from(s, t, id, q).y != 0 || deletes(s, t, q, id)
            || spawns(s, t, id, q) ==> q != id && s.is_live(q) && within(
            s.particle(id).position,
            s.particle(q).position,
            t.max_radius(),
        ),
{
    if q != id && s.is_live(q) {
        let p = s.particle(id);
        let o = s.particle(q);
        lemma_valid_table(t, p.color, o.color);
        lemma_valid_table(t, o.color, p.color);
        lemma_within_symmetric_monotone(
            p.position,
            o.position,
            t.rule(p.color, o.color).radius as int,
            t.max_radius(),
        );
        lemma_within_symmetric_monotone(
            o.position,
            p.position,
            t.rule(o.color, p.color).radius as int,
            t.max_radius(),
        );
        lemma_within_symmetric_monotone(o.position, p.position, t.max_radius(), t.max_radius());
    }
}

/// What happens to the slot `id` in a tick, found by a query of the index
/// in place of a search through the whole store.
pub fn outcome_for(
    table: &ColorRuleTable,
    store: &ParticleStore,
    index: &SpatialIndex,
    id: usize,
) -> (r: Outcome)
    requires
        index@.wf(),
        index@.mirrors(store@),
        table@.max_radius() <= index@.cell_size,
    ensures
        r@ == outcome(store@, table@, id as int),
{
    let p: Particle = match store.get(id) {
        Some(p) => p,
        None => {
            return Outcome { force_x: 0, force_y: 0, doomed: false, spawn: None };
        },
    };
    let reach: i32 = table.max_radius();
    let slots: usize = store.slot_count();
    let found: Vec<usize> = index.neighbors(p.position, reach);
    let ghost s = store@;
    let ghost t = table@;
    let ghost me = id as int;
    let ghost fx_of = force_x_from(s, t, me);
    let ghost fy_of = force_y_from(s, t, me);
    proof {
        lemma_neighbors_match_exhaustive_search(index@, s, p.position, reach as int);
        assert forall|j: int| 0 <= j < found@.len() implies s.is_live(
            #[trigger] found@[j] as int,
        ) by {
            assert(found@.contains(found@[j]));
        }
    }
    let mut force_x: i128 = 0;
    let mut force_y: i128 = 0;
    let mut is_doomed: bool = false;
    let mut partner: Option<usize> = None;
    let mut spawn: Option<Color> = None;
    let mut k: usize = 0;
    while k < found.len()
        invariant
            k <= found@.len(),
            s == store@,
            t == table@,
            me == id,
            s.is_live(me),
            slots == s.slots.len(),
            p == s.particle(me),
            fx_of == force_x_from(s, t, me),
            fy_of == force_y_from(s, t, me),
            forall|j: int| 0 <= j < found@.len() ==> s.is_live(#[trigger] found@[j] as int),
            force_x == sum_over(fx_of, found@.take(k as int)),
            force_y == sum_over(fy_of, found@.take(k as int)),
            -(k * MAX_PAIR_FORCE) <= force_x <= k * MAX_PAIR_FORCE,
            -(k * MAX_PAIR_FORCE) <= force_y <= k * MAX_PAIR_FORCE,
            is_doomed <==> exists|j: int| 0 <= j < k && deletes(s, t, #[trigger] found@[j] as int, me),
            match partner {
                Some(q) => spawns(s, t, me, q as int) && spawn == Some(
                    t.rule(p.color, s.particle(q as int).color).kind->Spawn_0,
                ) && forall|j: int|
                    0 <= j < k && spawns(s, t, me, #[trigger] found@[j] as int) ==> q <= found@[j],
                None => spawn is None && forall|j: int|
                    0 <= j < k ==> !spawns(s, t, me, #[trigger] found@[j] as int),
            },
        decreases found@.len() - k,
    {
        let q: usize = found[k];
        proof {
            assert(found@.take(k as int + 1).drop_last() =~= found@.take(k as int));
            assert(found@.take(k as int + 1).last() == q);
            assert(s.is_live(found@[k as int] as int));
            assert(fx_of(q as int) == force_from(s, t, me, q as int).x);
            assert(fy_of(q as int) == force_from(s, t, me, q as int).y);
        }
        if q != id {
            match store.get(q) {
                Some(other) => {
                    let effect = pair_effect(table, id, p, q, other);
                    force_x = force_x + effect.force_x;
                    force_y = force_y + effect.force_y;
                    if effect.dooms {
                        is_doomed = true;
                    }
                    match effect.spawn {
                        Some(c) => {
                            let lower: bool = match partner {
                                Some(best) => q < best,
                                None => true,
                            };
                            if lower {
                                partner = Some(q);
                                spawn = Some(c);
                            }
                        },
                        None => {},
                    }
                },
                None => {},
            }
        }
        k += 1;
    }
    proof {
        let n = s.slots.len() as int;
        assert(found@.take(k as int) =~= found@);
        assert forall|q: usize| q < n && fx_of(q as int) != 0 implies #[trigger] found@.contains(
            q,
        ) by {
            lemma_effects_are_local(s, t, me, q as int);
        }
        assert forall|q: usize| q < n && fy_of(q as int) != 0 implies #[trigger] found@.contains(
            q,
        ) by {
            lemma_effects_are_local(s, t, me, q as int);
        }
        lemma_sum_over_support(fx_of, found@, n);
        lemma_sum_over_support(fy_of, found@, n);
        if doomed(s, t, me) {
            let q = choose|q: int| deletes(s, t, q, me);
            lemma_effects_are_local(s, t, me, q);
            assert(found@.contains(q as usize));
            let j = choose|j: int| 0 <= j < found@.len() && found@[j] == q as usize;
            assert(deletes(s, t, found@[j] as int, me));
        }
        lemma_spawn_partner(s, t, me, n);
        match spawn_partner_below(s, t, me, n) {
            Some(q) => {
                lemma_effects_are_local(s, t, me, q);
                assert(found@.contains(q as usize));
                let j = choose|j: int| 0 <= j < found@.len() && found@[j] == q as usize;
                assert(spawns(s, t, me, found@[j] as int));
            },
            None => {},
        }
    }
    Outcome { force_x, force_y, doomed: is_doomed, spawn }
}

} // verus!
