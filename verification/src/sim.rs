//! The simulation: a rule table, a world and the particles in it.
//!
//! A tick runs through four phases. Indexing reclaims the tombstones of the
//! tick before and rebuilds the spatial index. Interacting decides what
//! happens to every particle. Integrating moves the particles. Committing
//! removes and inserts particles. Nothing is removed or inserted before
//! every outcome is decided, so that all outcomes are decided from one
//! state.

use crate::grid::{SpatialIndex, MAX_SIDE};
use crate::rules::{ColorRuleTable, TableView};
use crate::store::{Particle, ParticleStore, StoreError, StoreView};
use crate::tick::{commit_births, interact, settle, tick, ticks, World};
use vstd::prelude::*;

verus! {

/// A simulation as a mathematical value.
pub struct SimView {
    pub table: TableView,
    pub store: StoreView,
    pub world: World,
}

/// The simulation.
pub struct Simulation {
    table: ColorRuleTable,
    store: ParticleStore,
    index: SpatialIndex,
    world: World,
}

impl View for Simulation {
    type V = SimView;

    closed spec fn view(&self) -> SimView {
        SimView { table: self.table@, store: self.store@, world: self.world }
    }
}

/// The number of columns (or rows) of cells of size `cell_size` that a side
/// of length `side` is given.
pub open spec fn cells_along(side: int, cell_size: int) -> int {
    if side / cell_size + 1 > MAX_SIDE {
        MAX_SIDE as int
    } else {
        side / cell_size + 1
    }
}

/// The number of columns (or rows) of cells of size `cell_size` that a side
/// of length `side` is given.
pub fn cells_for(side: i32, cell_size: i32) -> (r: usize)
    requires
        side >= 0,
        cell_size >= 1,
    ensures
        r == cells_along(side as int, cell_size as int),
        1 <= r <= MAX_SIDE,
{
    let whole: u32 = (side as u32) / (cell_size as u32);
    proof {
        assert(0 <= side as int / cell_size as int <= side) by (nonlinear_arith)
            requires
                side >= 0,
                cell_size >= 1,
        ;
    }
    if whole as usize >= MAX_SIDE {
        MAX_SIDE
    } else {
        whole as usize + 1
    }
}

impl Simulation {
    /// The store is well-formed, and the index has cells no smaller than the
    /// largest radius of the table.
    pub closed spec fn wf(&self) -> bool {
        &&& self.store@.wf()
        &&& self.index@.wf()
        &&& self.world.valid()
        &&& self.table@.valid()
        &&& self.table@.max_radius() <= self.index@.cell_size
    }

    /// A simulation without a particle, or `None` where a side of the world
    /// is negative or the time step is not positive.
    pub fn new(table: ColorRuleTable, world: World) -> (r: Option<Simulation>)
        ensures
            r is Some <==> world.valid(),
            r is Some ==> {
                let sim = r->Some_0;
                &&& sim.wf()
                &&& sim@.table == table@
                &&& sim@.world == world
                &&& sim@.store.slots.len() == 0
                &&& sim@.store.free.len() == 0
            },
    {
        if world.width < 0 || world.height < 0 || world.dt < 1 {
            return None;
        }
        let reach: i32 = table.max_radius();
        let cell_size: i32 = if reach < 1 {
            1
        } else {
            reach
        };
        let cols: usize = cells_for(world.width, cell_size);
        let rows: usize = cells_for(world.height, cell_size);
        match SpatialIndex::new(cell_size, cols, rows) {
            Some(index) => Some(Simulation { table, store: ParticleStore::new(), index, world }),
            None => None,
        }
    }

    /// The rule table.
    pub fn table(&self) -> (r: &ColorRuleTable)
        ensures
            r@ == self@.table,
    {
        &self.table
    }

    /// The particle store.
    pub fn store(&self) -> (r: &ParticleStore)
        ensures
            r@ == self@.store,
    {
        &self.store
    }

    /// The world.
    pub fn world(&self) -> (r: World)
        ensures
            r == self@.world,
    {
        self.world
    }

    /// Inserts a particle and returns its id.
    pub fn insert(&mut self, particle: Particle) -> (id: usize)
        requires
            old(self).wf(),
        ensures
            final(self).wf(),
            final(self)@.store == old(self)@.store.insert(particle),
            final(self)@.table == old(self)@.table,
            final(self)@.world == old(self)@.world,
            id == old(self)@.store.next_id(),
    {
        self.store.insert(particle)
    }

    /// Removes the live particle `id`. Without such a particle the
    /// simulation stays as it is.
    pub fn remove(&mut self, id: usize) -> (r: Result<(), StoreError>)
        requires
            old(self).wf(),
        ensures
            final(self).wf(),
            final(self)@.table == old(self)@.table,
            final(self)@.world == old(self)@.world,
            match r {
                Ok(_) => old(self)@.store.is_live(id as int) && final(self)@.store
                    == old(self)@.store.remove(id as int),
                Err(e) => !old(self)@.store.is_live(id as int) && e == StoreError::NotFound
                    && final(self)@.store == old(self)@.store,
            },
    {
        self.store.remove(id)
    }

    /// Advances the simulation by one tick.
    pub fn step(&mut self)
        requires
            old(self).wf(),
        ensures
            final(self).wf(),
            final(self)@.store == tick(old(self)@.store, old(self)@.table, old(self)@.world),
            final(self)@.table == old(self)@.table,
            final(self)@.world == old(self)@.world,
    {
        self.store.reclaim();
        self.index.rebuild(&self.store);
        let outcomes = interact(&self.table, &self.store, &self.index);
        let births = settle(&self.table, &mut self.store, self.world, &outcomes);
        commit_births(&mut self.store, &births);
    }

    /// Advances the simulation by `count` ticks.
    pub fn run(&mut self, count: usize)
        requires
            old(self).wf(),
        ensures
            final(self).wf(),
            final(self)@.store == ticks(
                old(self)@.store,
                old(self)@.table,
                old(self)@.world,
                count as nat,
            ),
            final(self)@.table == old(self)@.table,
            final(self)@.world == old(self)@.world,
    {
        let ghost start = self@;
        let mut done: usize = 0;
        while done < count
            invariant
                done <= count,
                self.wf(),
                self@.table == start.table,
                self@.world == start.world,
                self@.store == ticks(start.store, start.table, start.world, done as nat),
            decreases count - done,
        {
            self.step();
            done += 1;
        }
    }
}

} // verus!
