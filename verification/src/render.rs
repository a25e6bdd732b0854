//! The render bridge: what a frame shows of the particles.

use crate::fixed::Vec2;
use crate::rules::Color;
use crate::store::{Particle, ParticleStore};
use vstd::prelude::*;

verus! {

/// What a frame shows of one particle.
#[derive(Clone, Copy, Debug, PartialEq, Eq, Structural)]
pub struct Vertex {
    pub position: Vec2,
    pub color: Color,
}

/// What a frame shows of the particle `p`.
pub open spec fn vertex_of(p: Particle) -> Vertex {
    Vertex { position: p.position, color: p.color }
}

/// What a frame shows of a list of live particles: one vertex for each, in
/// the order of the list.
pub open spec fn vertices(live: Seq<(usize, Particle)>) -> Seq<Vertex> {
    Seq::new(live.len(), |i: int| vertex_of(live[i].1))
}

/// One vertex for each live particle of the store, in rising order of id.
/// Reads the store and changes nothing.
pub fn snapshot(store: &ParticleStore) -> (r: Vec<Vertex>)
    ensures
        r@ == vertices(store@.live()),
{
    let live: Vec<(usize, Particle)> = store.iter_live();
    let mut out: Vec<Vertex> = Vec::new();
    let mut i: usize = 0;
    while i < live.len()
        invariant
            i <= live@.len(),
            live@ == store@.live(),
            out@.len() == i,
            forall|k: int| 0 <= k < i ==> #[trigger] out@[k] == vertex_of(live@[k].1),
        decreases live@.len() - i,
    {
        let p: Particle = live[i].1;
        out.push(Vertex { position: p.position, color: p.color });
        i += 1;
    }
    assert(out@ =~= vertices(store@.live()));
    out
}

} // verus!
