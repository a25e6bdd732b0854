//! The particle store: an arena of slots addressed by stable ids.
//!
//! A particle's id is the position of its slot. Removing a particle leaves
//! a tombstone behind, so that no id changes its meaning while a tick is
//! under way; tombstones are reclaimed between ticks, and only a reclaimed
//! slot is handed out again.

use crate::fixed::Vec2;
use crate::rules::Color;
use vstd::prelude::*;

verus! {

/// One particle.
#[derive(Clone, Copy, Debug, PartialEq, Eq, Structural)]
pub struct Particle {
    pub position: Vec2,
    pub velocity: Vec2,
    pub color: Color,
}

/// What a slot of the arena holds.
#[derive(Clone, Copy, Debug, PartialEq, Eq, Structural)]
pub enum Slot {
    /// A particle.
    Live(Particle),
    /// The place of a particle that was removed since the last reclaim.
    Tombstone,
    /// A reclaimed place, ready to be handed out again.
    Free,
}

/// Why the store could not do what was asked.
#[derive(Clone, Copy, Debug, PartialEq, Eq, Structural)]
pub enum StoreError {
    /// No live particle has this id.
    NotFound,
}

/// The ids of the tombstones among the first `k` slots, in rising order.
pub open spec fn tombstones_below(slots: Seq<Slot>, k: int) -> Seq<usize>
    decreases k,
{
    if k <= 0 {
        Seq::empty()
    } else if slots[k - 1] is Tombstone {
        tombstones_below(slots, k - 1).push((k - 1) as usize)
    } else {
        tombstones_below(slots, k - 1)
    }
}

/// The live particles among the first `k` slots with their ids, in rising
/// order of id.
pub open spec fn live_below(slots: Seq<Slot>, k: int) -> Seq<(usize, Particle)>
    decreases k,
{
    if k <= 0 {
        Seq::empty()
    } else if slots[k - 1] is Live {
        live_below(slots, k - 1).push(((k - 1) as usize, slots[k - 1]->Live_0))
    } else {
        live_below(slots, k - 1)
    }
}

/// A store as a mathematical value: its slots, and the free slots in the
/// order in which they were reclaimed.
pub struct StoreView {
    pub slots: Seq<Slot>,
    pub free: Seq<usize>,
}

impl StoreView {
    /// The free list names free slots, each once.
    pub open spec fn wf(self) -> bool {
        &&& forall|i: int|
            0 <= i < self.free.len() ==> (#[trigger] self.free[i]) < self.slots.len()
                && self.slots[self.free[i] as int] is Free
        &&& forall|i: int, j: int|
            0 <= i < j < self.free.len() ==> self.free[i] != self.free[j]
    }

    /// Whether `id` is the id of a live particle.
    pub open spec fn is_live(self, id: int) -> bool {
        0 <= id < self.slots.len() && self.slots[id] is Live
    }

    /// The live particle with this id.
    pub open spec fn particle(self, id: int) -> Particle
        recommends
            self.is_live(id),
    {
        self.slots[id]->Live_0
    }

    /// The number of live particles.
    pub open spec fn live_count(self) -> nat {
        live_below(self.slots, self.slots.len() as int).len()
    }

    /// The live particles with their ids, in rising order of id.
    pub open spec fn live(self) -> Seq<(usize, Particle)> {
        live_below(self.slots, self.slots.len() as int)
    }

    /// The id that the next insertion hands out: the slot that was reclaimed
    /// last, or a new slot at the end where none is free.
    pub open spec fn next_id(self) -> int {
        if self.free.len() > 0 {
            self.free.last() as int
        } else {
            self.slots.len() as int
        }
    }

    /// The store after `p` was inserted.
    pub open spec fn insert(self, p: Particle) -> StoreView {
        if self.free.len() > 0 {
            StoreView {
                slots: self.slots.update(self.free.last() as int, Slot::Live(p)),
                free: self.free.drop_last(),
            }
        } else {
            StoreView { slots: self.slots.push(Slot::Live(p)), free: self.free }
        }
    }

    /// The store after the live particle `id` was removed.
    pub open spec fn remove(self, id: int) -> StoreView {
        StoreView { slots: self.slots.update(id, Slot::Tombstone), free: self.free }
    }

    /// The store after the live particle `id` was replaced by `p`.
    pub open spec fn replace(self, id: int, p: Particle) -> StoreView {
        StoreView { slots: self.slots.update(id, Slot::Live(p)), free: self.free }
    }

    /// The store after its tombstones were reclaimed: each becomes a free
    /// slot, and they join the free list in rising order.
    pub open spec fn reclaim(self) -> StoreView {
        StoreView {
            slots: Seq::new(
                self.slots.len(),
                |i: int|
                    if self.slots[i] is Tombstone {
                        Slot::Free
                    } else {
                        self.slots[i]
                    },
            ),
            free: self.free + tombstones_below(self.slots, self.slots.len() as int),
        }
    }
}

/// `live_below` lists exactly the live slots, each with its particle, and
/// in rising order.
pub proof fn lemma_live_below(slots: Seq<Slot>, k: int)
    requires
        0 <= k <= slots.len(),
        slots.len() <= usize::MAX,
    ensures
        live_below(slots, k).len() <= k,
        forall|i: int|
            0 <= i < live_below(slots, k).len() ==> {
                let e = #[trigger] live_below(slots, k)[i];
                e.0 < k && slots[e.0 as int] == Slot::Live(e.1)
            },
        forall|i: int, j: int|
            0 <= i < j < live_below(slots, k).len() ==> live_below(slots, k)[i].0 < live_below(
                slots,
                k,
            )[j].0,
        forall|id: int|
            0 <= id < k && slots[id] is Live ==> exists|i: int|
                0 <= i < live_below(slots, k).len() && (#[trigger] live_below(slots, k)[i]).0
                    == id,
    decreases k,
{
    if k > 0 {
        lemma_live_below(slots, k - 1);
        let before = live_below(slots, k - 1);
        let now = live_below(slots, k);
        assert forall|id: int| 0 <= id < k && slots[id] is Live implies exists|i: int|
            0 <= i < now.len() && (#[trigger] now[i]).0 == id by {
            if id < k - 1 {
                let i = choose|i: int| 0 <= i < before.len() && (#[trigger] before[i]).0 == id;
                assert(now[i] == before[i]);
            } else {
                assert(now == before.push(((k - 1) as usize, slots[k - 1]->Live_0)));
                assert(now[now.len() - 1].0 == id);
            }
        }
    }
}

/// The number of live particles changes by one with an insertion or a
/// removal, and not at all with a replacement or a reclaim of the
/// tombstones.
pub proof fn lemma_live_count(s: StoreView, id: int, p: Particle)
    requires
        s.wf(),
    ensures
        s.insert(p).live_count() == s.live_count() + 1,
        s.is_live(id) ==> s.remove(id).live_count() == s.live_count() - 1,
        s.is_live(id) ==> s.replace(id, p).live_count() == s.live_count(),
        s.reclaim().live_count() == s.live_count(),
{
    let n = s.slots.len() as int;
    if s.free.len() > 0 {
        let f = s.free.last() as int;
        assert(s.slots[f] is Free);
        lemma_live_below_update(s.slots, n, f, Slot::Live(p));
    } else {
        let grown = s.slots.push(Slot::Live(p));
        lemma_live_below_prefix(s.slots, grown, n);
    }
    if s.is_live(id) {
        lemma_live_below_update(s.slots, n, id, Slot::Tombstone);
        lemma_live_below_update(s.slots, n, id, Slot::Live(p));
    }
    lemma_live_below_same_lives(s.slots, s.reclaim().slots, n);
}

/// Slot sequences that agree below `k` have the same live particles there.
pub proof fn lemma_live_below_prefix(a: Seq<Slot>, b: Seq<Slot>, k: int)
    requires
        0 <= k <= a.len(),
        k <= b.len(),
        forall|i: int| 0 <= i < k ==> a[i] == b[i],
    ensures
        live_below(a, k) == live_below(b, k),
    decreases k,
{
    if k > 0 {
        lemma_live_below_prefix(a, b, k - 1);
    }
}

/// Slot sequences that differ only in slots that are live in neither have
/// as many live particles.
pub proof fn lemma_live_below_same_lives(a: Seq<Slot>, b: Seq<Slot>, k: int)
    requires
        0 <= k <= a.len(),
        k <= b.len(),
        forall|i: int| 0 <= i < k ==> a[i] == b[i] || (!(a[i] is Live) && !(b[i] is Live)),
    ensures
        live_below(a, k) == live_below(b, k),
    decreases k,
{
    if k > 0 {
        lemma_live_below_same_lives(a, b, k - 1);
    }
}

/// Slot sequences with live particles in the same slots have as many live
/// particles, whatever the particles are.
pub proof fn lemma_live_below_same_liveness(a: Seq<Slot>, b: Seq<Slot>, k: int)
    requires
        0 <= k <= a.len(),
        k <= b.len(),
        forall|i: int| 0 <= i < k ==> (a[i] is Live <==> b[i] is Live),
    ensures
        live_below(a, k).len() == live_below(b, k).len(),
    decreases k,
{
    if k > 0 {
        lemma_live_below_same_liveness(a, b, k - 1);
    }
}

/// How the number of live particles below `k` changes when one slot is
/// overwritten.
pub proof fn lemma_live_below_update(slots: Seq<Slot>, k: int, id: int, slot: Slot)
    requires
        0 <= k <= slots.len(),
        0 <= id < slots.len(),
    ensures
        live_below(slots.update(id, slot), k).len() == live_below(slots, k).len() + (if id < k
            && slot is Live {
            1int
        } else {
            0int
        }) - (if id < k && slots[id] is Live {
            1int
        } else {
            0int
        }),
    decreases k,
{
    if k > 0 {
        lemma_live_below_update(slots, k - 1, id, slot);
    }
}

/// The particle store.
pub struct ParticleStore {
    slots: Vec<Slot>,
    free: Vec<usize>,
}

impl View for ParticleStore {
    type V = StoreView;

    closed spec fn view(&self) -> StoreView {
        StoreView { slots: self.slots@, free: self.free@ }
    }
}

impl ParticleStore {
    /// A store without a slot.
    pub fn new() -> (r: ParticleStore)
        ensures
            r@.wf(),
            r@.slots.len() == 0,
            r@.free.len() == 0,
    {
        ParticleStore { slots: Vec::new(), free: Vec::new() }
    }

    /// The number of slots: every id is below it.
    pub fn slot_count(&self) -> (r: usize)
        ensures
            r == self@.slots.len(),
    {
        self.slots.len()
    }

    /// Whether `id` is the id of a live particle.
    pub fn is_live(&self, id: usize) -> (r: bool)
        ensures
            r == self@.is_live(id as int),
    {
        if id < self.slots.len() {
            match self.slots[id] {
                Slot::Live(_) => true,
                _ => false,
            }
        } else {
            false
        }
    }

    /// The live particle with this id, if there is one.
    pub fn get(&self, id: usize) -> (r: Option<Particle>)
        ensures
            r == (if self@.is_live(id as int) {
                Some(self@.particle(id as int))
            } else {
                None
            }),
    {
        if id < self.slots.len() {
            match self.slots[id] {
                Slot::Live(p) => Some(p),
                _ => None,
            }
        } else {
            None
        }
    }

    /// Inserts a particle and returns its id. A tombstone's slot is never
    /// handed out: the id is that of the slot that was reclaimed last, or of
    /// a new slot.
    pub fn insert(&mut self, particle: Particle) -> (id: usize)
        requires
            old(self)@.wf(),
        ensures
            final(self)@ == old(self)@.insert(particle),
            final(self)@.wf(),
            id == old(self)@.next_id(),
            id == old(self)@.slots.len() || old(self)@.slots[id as int] is Free,
            final(self)@.is_live(id as int),
            final(self)@.particle(id as int) == particle,
    {
        match self.free.pop() {
            Some(id) => {
                self.slots.set(id, Slot::Live(particle));
                id
            },
            None => {
                let id: usize = self.slots.len();
                self.slots.push(Slot::Live(particle));
                id
            },
        }
    }

    /// Removes the live particle `id` and leaves a tombstone in its slot.
    /// Without such a particle the store stays as it is.
    pub fn remove(&mut self, id: usize) -> (r: Result<(), StoreError>)
        requires
            old(self)@.wf(),
        ensures
            final(self)@.wf(),
            match r {
                Ok(_) => old(self)@.is_live(id as int) && final(self)@ == old(self)@.remove(
                    id as int,
                ),
                Err(e) => !old(self)@.is_live(id as int) && e == StoreError::NotFound
                    && final(self)@ == old(self)@,
            },
    {
        if self.is_live(id) {
            self.slots.set(id, Slot::Tombstone);
            Ok(())
        } else {
            Err(StoreError::NotFound)
        }
    }

    /// Puts `particle` in the place of the live particle `id`. Without such
    /// a particle the store stays as it is.
    pub fn replace(&mut self, id: usize, particle: Particle) -> (r: Result<(), StoreError>)
        requires
            old(self)@.wf(),
        ensures
            final(self)@.wf(),
            match r {
                Ok(_) => old(self)@.is_live(id as int) && final(self)@ == old(self)@.replace(
                    id as int,
                    particle,
                ),
                Err(e) => !old(self)@.is_live(id as int) && e == StoreError::NotFound
                    && final(self)@ == old(self)@,
            },
    {
        if self.is_live(id) {
            self.slots.set(id, Slot::Live(particle));
            Ok(())
        } else {
            Err(StoreError::NotFound)
        }
    }

    /// A mutable borrow of the live particle `id`. What the caller writes
    /// through it is what the store holds afterwards; nothing else changes.
    pub fn get_mut(&mut self, id: usize) -> (r: Result<&mut Particle, StoreError>)
        requires
            old(self)@.wf(),
        ensures
            match r {
                Ok(p) => old(self)@.is_live(id as int) && *p == old(self)@.particle(id as int)
                    && final(self)@ == old(self)@.replace(id as int, *final(p))
                    && final(self)@.wf(),
                Err(e) => !old(self)@.is_live(id as int) && e == StoreError::NotFound
                    && final(self)@ == old(self)@,
            },
    {
        if !self.is_live(id) {
            return Err(StoreError::NotFound);
        }
        match &mut self.slots[id] {
            Slot::Live(p) => Ok(p),
            _ => Err(StoreError::NotFound),
        }
    }

    /// Turns every tombstone into a free slot. To be called between ticks
    /// only: afterwards the ids of removed particles are handed out again.
    pub fn reclaim(&mut self)
        requires
            old(self)@.wf(),
        ensures
            final(self)@ == old(self)@.reclaim(),
            final(self)@.wf(),
    {
        let n: usize = self.slots.len();
        let ghost before = self@;
        let mut i: usize = 0;
        while i < n
            invariant
                i <= n,
                n == before.slots.len(),
                before.wf(),
                self@.wf(),
                self.slots@.len() == n,
                forall|k: int|
                    0 <= k < n ==> #[trigger] self.slots@[k] == (if k < i
                        && before.slots[k] is Tombstone {
                        Slot::Free
                    } else {
                        before.slots[k]
                    }),
                self.free@ == before.free + tombstones_below(before.slots, i as int),
            decreases n - i,
        {
            let is_tombstone: bool = match self.slots[i] {
                Slot::Tombstone => true,
                _ => false,
            };
            if is_tombstone {
                self.slots.set(i, Slot::Free);
                self.free.push(i);
            }
            i += 1;
        }
        assert(self@.slots =~= before.reclaim().slots);
    }

    /// The live particles with their ids, in rising order of id.
    pub fn iter_live(&self) -> (r: Vec<(usize, Particle)>)
        ensures
            r@ == self@.live(),
    {
        let n: usize = self.slots.len();
        let mut out: Vec<(usize, Particle)> = Vec::new();
        let mut i: usize = 0;
        while i < n
            invariant
                i <= n,
                n == self.slots@.len(),
                out@ == live_below(self.slots@, i as int),
            decreases n - i,
        {
            match self.slots[i] {
                Slot::Live(p) => {
                    out.push((i, p));
                },
                _ => {},
            }
            i += 1;
        }
        out
    }

    /// The number of live particles.
    pub fn live_count(&self) -> (r: usize)
        ensures
            r == self@.live_count(),
    {
        let n: usize = self.slots.len();
        let mut count: usize = 0;
        let mut i: usize = 0;
        while i < n
            invariant
                i <= n,
                n == self.slots@.len(),
                count == live_below(self.slots@, i as int).len(),
                count <= i,
            decreases n - i,
        {
            match self.slots[i] {
                Slot::Live(_) => {
                    count += 1;
                },
                _ => {},
            }
            i += 1;
        }
        count
    }
}

} // verus!
