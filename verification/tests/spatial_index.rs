use particle_sandbox::fixed::{is_within, Vec2};
use particle_sandbox::grid::{cell_of, SpatialIndex, MAX_SIDE};
use particle_sandbox::rules::Color;
use particle_sandbox::store::{Particle, ParticleStore};

fn at(x: i32, y: i32) -> Particle {
    Particle { position: Vec2 { x, y }, velocity: Vec2 { x: 0, y: 0 }, color: Color(0) }
}

fn exhaustive(store: &ParticleStore, position: Vec2, radius: i32) -> Vec<usize> {
    let mut found = Vec::new();
    for (id, p) in store.iter_live() {
        if is_within(position, p.position, radius) {
            found.push(id);
        }
    }
    found
}

fn sorted(mut ids: Vec<usize>) -> Vec<usize> {
    ids.sort();
    ids
}

fn scattered(count: usize, span: i32) -> ParticleStore {
    let mut store = ParticleStore::new();
    let mut state: u64 = 0x2545_f491_4f6c_dd1d;
    for _ in 0..count {
        state = state.wrapping_mul(6364136223846793005).wrapping_add(1442695040888963407);
        let x = ((state >> 33) % (span as u64 + 40)) as i32 - 20;
        state = state.wrapping_mul(6364136223846793005).wrapping_add(1442695040888963407);
        let y = ((state >> 33) % (span as u64 + 40)) as i32 - 20;
        store.insert(at(x, y));
    }
    store
}

#[test]
fn index_needs_a_positive_cell_and_sides() {
    assert!(SpatialIndex::new(1, 1, 1).is_some());
    assert!(SpatialIndex::new(0, 1, 1).is_none());
    assert!(SpatialIndex::new(-5, 1, 1).is_none());
    assert!(SpatialIndex::new(1, 0, 1).is_none());
    assert!(SpatialIndex::new(1, 1, 0).is_none());
    assert!(SpatialIndex::new(1, MAX_SIDE + 1, 1).is_none());
    assert!(SpatialIndex::new(1, 1, MAX_SIDE + 1).is_none());
    assert!(SpatialIndex::new(i32::MAX, MAX_SIDE, 2).is_some());
}

#[test]
fn cells_are_floors_limited_to_the_grid() {
    assert_eq!(cell_of(0, 10, 4), 0);
    assert_eq!(cell_of(9, 10, 4), 0);
    assert_eq!(cell_of(10, 10, 4), 1);
    assert_eq!(cell_of(39, 10, 4), 3);
    assert_eq!(cell_of(40, 10, 4), 3);
    assert_eq!(cell_of(i32::MAX, 10, 4), 3);
    assert_eq!(cell_of(-1, 10, 4), 0);
    assert_eq!(cell_of(i32::MIN, 10, 4), 0);
}

#[test]
fn empty_index_finds_nothing() {
    let index = SpatialIndex::new(10, 4, 4).unwrap();
    assert!(index.neighbors(Vec2 { x: 5, y: 5 }, 10).is_empty());
    assert_eq!(index.cell_size(), 10);
}

#[test]
fn query_finds_the_particle_itself_and_its_neighbors() {
    let mut store = ParticleStore::new();
    let a = store.insert(at(15, 15));
    let b = store.insert(at(21, 15));
    let c = store.insert(at(15, 24));
    let far = store.insert(at(35, 35));
    let mut index = SpatialIndex::new(10, 4, 4).unwrap();
    index.rebuild(&store);
    assert_eq!(sorted(index.neighbors(Vec2 { x: 15, y: 15 }, 10)), vec![a, b, c]);
    assert_eq!(sorted(index.neighbors(Vec2 { x: 15, y: 15 }, 6)), vec![a, b]);
    assert_eq!(sorted(index.neighbors(Vec2 { x: 15, y: 15 }, 5)), vec![a]);
    assert_eq!(sorted(index.neighbors(Vec2 { x: 35, y: 35 }, 10)), vec![far]);
    assert!(index.neighbors(Vec2 { x: 15, y: 15 }, -1).is_empty());
}

#[test]
fn rebuild_forgets_what_was_indexed_before() {
    let mut store = ParticleStore::new();
    let a = store.insert(at(5, 5));
    let b = store.insert(at(6, 6));
    let mut index = SpatialIndex::new(10, 2, 2).unwrap();
    index.rebuild(&store);
    assert_eq!(sorted(index.neighbors(Vec2 { x: 5, y: 5 }, 10)), vec![a, b]);
    assert_eq!(store.remove(a), Ok(()));
    store.get_mut(b).unwrap().position = Vec2 { x: 18, y: 18 };
    index.rebuild(&store);
    assert!(index.neighbors(Vec2 { x: 5, y: 5 }, 10).is_empty());
    assert_eq!(index.neighbors(Vec2 { x: 18, y: 18 }, 10), vec![b]);
    index.rebuild(&store);
    assert_eq!(index.neighbors(Vec2 { x: 18, y: 18 }, 10), vec![b]);
}

#[test]
fn query_equals_exhaustive_search_for_every_radius_up_to_the_cell_size() {
    let store = scattered(300, 100);
    let mut index = SpatialIndex::new(10, 10, 10).unwrap();
    index.rebuild(&store);
    for (_, p) in store.iter_live() {
        for radius in [0, 1, 3, 7, 10] {
            let found = index.neighbors(p.position, radius);
            assert_eq!(sorted(found), exhaustive(&store, p.position, radius));
        }
    }
}

#[test]
fn query_lists_no_id_twice() {
    let store = scattered(200, 30);
    let mut index = SpatialIndex::new(10, 3, 3).unwrap();
    index.rebuild(&store);
    for (_, p) in store.iter_live() {
        let found = sorted(index.neighbors(p.position, 10));
        let mut unique = found.clone();
        unique.dedup();
        assert_eq!(found, unique);
    }
}

#[test]
fn positions_outside_the_grid_are_found_too() {
    let mut store = ParticleStore::new();
    let a = store.insert(at(-500, -500));
    let b = store.insert(at(-495, -500));
    let c = store.insert(at(1000, 1000));
    let d = store.insert(at(1000, 1004));
    let mut index = SpatialIndex::new(10, 4, 4).unwrap();
    index.rebuild(&store);
    assert_eq!(sorted(index.neighbors(Vec2 { x: -500, y: -500 }, 10)), vec![a, b]);
    assert_eq!(sorted(index.neighbors(Vec2 { x: 1000, y: 1000 }, 10)), vec![c, d]);
    assert_eq!(sorted(index.neighbors(Vec2 { x: 1000, y: 1000 }, 3)), vec![c]);
}

#[test]
fn a_single_cell_holds_everything() {
    let store = scattered(50, 100);
    let mut index = SpatialIndex::new(1, 1, 1).unwrap();
    index.rebuild(&store);
    for (_, p) in store.iter_live() {
        assert_eq!(sorted(index.neighbors(p.position, 1)), exhaustive(&store, p.position, 1));
    }
}

#[test]
fn a_radius_beyond_the_cell_size_finds_only_what_is_near() {
    let mut store = ParticleStore::new();
    let a = store.insert(at(5, 5));
    let b = store.insert(at(35, 5));
    let mut index = SpatialIndex::new(10, 4, 4).unwrap();
    index.rebuild(&store);
    let found = index.neighbors(Vec2 { x: 5, y: 5 }, 40);
    assert_eq!(found, vec![a]);
    assert_eq!(exhaustive(&store, Vec2 { x: 5, y: 5 }, 40), vec![a, b]);
}
