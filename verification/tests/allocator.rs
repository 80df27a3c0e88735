//! The identity allocator issues the smallest free identifier and reuses
//! released slots.

use gbench::IdStorage;
use gbench::Session;
use gbench::begin;
use gbench::gen_id;
use gbench::get_id;
use gbench::release_id;

#[test]
fn storage_issues_minimal_ids() {
    let mut ids = IdStorage::new();
    let a = ids.gen();
    let b = ids.gen();
    let c = ids.gen();
    assert_eq!(a.id(), 0);
    assert_eq!(b.id(), 1);
    assert_eq!(c.id(), 2);
    ids.release(b);
    let d = ids.gen();
    assert_eq!(d.id(), 1);
    let e = ids.gen();
    assert_eq!(e.id(), 3);
}

#[test]
fn storage_id_is_stable() {
    let mut ids = IdStorage::new();
    let a = ids.gen();
    assert_eq!(a.id(), 0);
    assert_eq!(a.id(), 0);
    assert_eq!(a.id(), a.id());
}

#[test]
fn live_leases_never_share_a_value() {
    let mut ids = IdStorage::new();
    let mut held = Vec::new();
    for _ in 0..8 {
        held.push(ids.gen());
    }
    for i in 0..held.len() {
        for j in 0..held.len() {
            if i != j {
                assert_ne!(held[i].id(), held[j].id());
            }
        }
    }
    // A pool of eight live leases never saw an identifier at or above 8.
    for lease in &held {
        assert!(lease.id() < 8);
    }
}

#[test]
fn session_ids_reuse_released_slots() {
    let mut s: Session = begin();
    let a = gen_id(&mut s);
    let b = gen_id(&mut s);
    assert_eq!(get_id(&a), 0);
    assert_eq!(get_id(&b), 1);
    release_id(&mut s, a);
    let c = gen_id(&mut s);
    assert_eq!(get_id(&c), 0);
}
