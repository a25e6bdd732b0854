use particle_sandbox::fixed::Vec2;
use particle_sandbox::rules::Color;
use particle_sandbox::store::{Particle, ParticleStore, StoreError};

fn particle(x: i32, y: i32, color: u8) -> Particle {
    Particle {
        position: Vec2 { x, y },
        velocity: Vec2 { x: 0, y: 0 },
        color: Color(color),
    }
}

#[test]
fn new_store_is_empty() {
    let store = ParticleStore::new();
    assert_eq!(store.slot_count(), 0);
    assert_eq!(store.live_count(), 0);
    assert!(store.iter_live().is_empty());
    assert_eq!(store.get(0), None);
    assert!(!store.is_live(0));
}

#[test]
fn insert_hands_out_rising_ids() {
    let mut store = ParticleStore::new();
    assert_eq!(store.insert(particle(1, 1, 0)), 0);
    assert_eq!(store.insert(particle(2, 2, 1)), 1);
    assert_eq!(store.insert(particle(3, 3, 2)), 2);
    assert_eq!(store.live_count(), 3);
    assert_eq!(store.get(1), Some(particle(2, 2, 1)));
}

#[test]
fn remove_leaves_a_tombstone() {
    let mut store = ParticleStore::new();
    store.insert(particle(1, 1, 0));
    store.insert(particle(2, 2, 0));
    assert_eq!(store.remove(0), Ok(()));
    assert!(!store.is_live(0));
    assert_eq!(store.get(0), None);
    assert_eq!(store.slot_count(), 2);
    assert_eq!(store.live_count(), 1);
    assert_eq!(store.insert(particle(3, 3, 0)), 2);
    assert!(!store.is_live(0));
}

#[test]
fn remove_of_a_dead_or_unknown_id_is_not_found() {
    let mut store = ParticleStore::new();
    store.insert(particle(1, 1, 0));
    assert_eq!(store.remove(7), Err(StoreError::NotFound));
    assert_eq!(store.remove(0), Ok(()));
    assert_eq!(store.remove(0), Err(StoreError::NotFound));
    assert_eq!(store.live_count(), 0);
}

#[test]
fn reclaimed_slots_are_handed_out_last_first() {
    let mut store = ParticleStore::new();
    for i in 0..4 {
        store.insert(particle(i, i, 0));
    }
    assert_eq!(store.remove(1), Ok(()));
    assert_eq!(store.remove(3), Ok(()));
    store.reclaim();
    assert_eq!(store.live_count(), 2);
    assert_eq!(store.insert(particle(10, 10, 1)), 3);
    assert_eq!(store.insert(particle(11, 11, 1)), 1);
    assert_eq!(store.insert(particle(12, 12, 1)), 4);
    assert_eq!(store.get(3), Some(particle(10, 10, 1)));
    assert_eq!(store.get(1), Some(particle(11, 11, 1)));
}

#[test]
fn reclaim_twice_changes_nothing_more() {
    let mut store = ParticleStore::new();
    store.insert(particle(0, 0, 0));
    store.insert(particle(1, 1, 0));
    assert_eq!(store.remove(0), Ok(()));
    store.reclaim();
    store.reclaim();
    assert_eq!(store.insert(particle(5, 5, 0)), 0);
    assert_eq!(store.insert(particle(6, 6, 0)), 2);
}

#[test]
fn a_free_slot_is_not_live() {
    let mut store = ParticleStore::new();
    store.insert(particle(0, 0, 0));
    assert_eq!(store.remove(0), Ok(()));
    store.reclaim();
    assert!(!store.is_live(0));
    assert_eq!(store.remove(0), Err(StoreError::NotFound));
    assert_eq!(store.replace(0, particle(1, 1, 1)), Err(StoreError::NotFound));
    assert!(store.get_mut(0).is_err());
}

#[test]
fn get_mut_writes_through() {
    let mut store = ParticleStore::new();
    store.insert(particle(1, 1, 0));
    store.insert(particle(2, 2, 0));
    {
        let p = store.get_mut(1).unwrap();
        p.velocity = Vec2 { x: 9, y: -9 };
        p.position.x = 40;
    }
    let expected = Particle {
        position: Vec2 { x: 40, y: 2 },
        velocity: Vec2 { x: 9, y: -9 },
        color: Color(0),
    };
    assert_eq!(store.get(1), Some(expected));
    assert_eq!(store.get(0), Some(particle(1, 1, 0)));
}

#[test]
fn get_mut_of_a_dead_or_unknown_id_is_not_found() {
    let mut store = ParticleStore::new();
    store.insert(particle(1, 1, 0));
    assert_eq!(store.get_mut(1).err(), Some(StoreError::NotFound));
    assert_eq!(store.remove(0), Ok(()));
    assert_eq!(store.get_mut(0).err(), Some(StoreError::NotFound));
}

#[test]
fn replace_puts_a_particle_in_place() {
    let mut store = ParticleStore::new();
    store.insert(particle(1, 1, 0));
    assert_eq!(store.replace(0, particle(8, 8, 3)), Ok(()));
    assert_eq!(store.get(0), Some(particle(8, 8, 3)));
    assert_eq!(store.replace(1, particle(8, 8, 3)), Err(StoreError::NotFound));
    assert_eq!(store.slot_count(), 1);
}

#[test]
fn iter_live_lists_the_live_particles_in_order() {
    let mut store = ParticleStore::new();
    for i in 0..5 {
        store.insert(particle(i, -i, i as u8));
    }
    assert_eq!(store.remove(0), Ok(()));
    assert_eq!(store.remove(3), Ok(()));
    let live = store.iter_live();
    assert_eq!(
        live,
        vec![(1, particle(1, -1, 1)), (2, particle(2, -2, 2)), (4, particle(4, -4, 4))]
    );
    assert_eq!(store.iter_live(), live);
    assert_eq!(store.live_count(), 3);
}
