use scenecore::store::{ComponentId, ComponentStore};
use scenecore::relation::RelationStore;
use scenecore::instance::{Instance, InstancePool};
use scenecore::records::TransformRecord;

#[test]
fn add_and_get_roundtrip() {
    let mut store: ComponentStore<u64> = ComponentStore::new(4);
    let id = store.add(7, 41);
    assert_eq!(id.index(), 0);
    assert_eq!(store.get(7), Some(&41));
    assert_eq!(store.get_by_id(id), Some(&41));
    assert_eq!(store.len(), 1);
}

#[test]
fn add_overwrites_in_place() {
    let mut store: ComponentStore<u64> = ComponentStore::new(4);
    let id1 = store.add(7, 41);
    let id2 = store.add(7, 42);
    assert_eq!(id1.index(), id2.index());
    assert_eq!(store.get(7), Some(&42));
    assert_eq!(store.len(), 1);
}

#[test]
fn remove_then_add_reuses_slot() {
    let mut store: ComponentStore<u64> = ComponentStore::new(4);
    let a = store.add(1, 10);
    let _b = store.add(2, 20);
    store.remove(1);
    assert_eq!(store.get(1), None);
    let c = store.add(3, 30);
    assert_eq!(c.index(), a.index());
    assert_eq!(store.get(3), Some(&30));
    assert_eq!(store.len(), 2);
}

#[test]
fn handle_stability_across_growth() {
    // a live handle keeps resolving to the same record across unrelated
    // adds and removes, including adds that grow the store
    let mut store: ComponentStore<u64> = ComponentStore::new(1);
    let h = store.add(100, 555);
    for i in 0..64u128 {
        store.add(i, i as u64);
    }
    for i in 0..32u128 {
        store.remove(i);
    }
    for i in 200..232u128 {
        store.add(i, 7);
    }
    assert_eq!(store.get(100), Some(&555));
    assert_eq!(store.get_by_id(h), Some(&555));
    assert_eq!(store.get_index(100).unwrap().index(), h.index());
}

#[test]
fn growth_doubles_capacity_and_reuploads() {
    let mut store: ComponentStore<u64> = ComponentStore::new(2);
    assert_eq!(store.capacity(), 2);
    assert_eq!(store.generation(), 0);
    store.add(1, 10);
    store.add(2, 20);
    assert!(!store.is_dirty());
    // the third add exceeds the capacity: fresh buffer, dirty set
    store.add(3, 30);
    assert_eq!(store.capacity(), 4);
    assert_eq!(store.generation(), 1);
    assert!(store.is_dirty());
    // is_dirty reads and clears
    assert!(!store.is_dirty());
    // every earlier record reads back unchanged after growth
    assert_eq!(store.get(1), Some(&10));
    assert_eq!(store.get(2), Some(&20));
    assert_eq!(store.get(3), Some(&30));
}

#[test]
fn capacity_floor_is_one() {
    let store: ComponentStore<u64> = ComponentStore::new(0);
    assert_eq!(store.capacity(), 1);
    let pool = InstancePool::new(0);
    assert_eq!(pool.capacity(), 1);
}

#[test]
fn live_slot_iteration() {
    let mut store: ComponentStore<u64> = ComponentStore::new(4);
    store.add(1, 10);
    store.add(2, 20);
    store.remove(1);
    assert_eq!(store.get_live(0), None);
    assert_eq!(store.get_live(1), Some(&20));
    assert_eq!(store.key_at(1), Some(2));
    assert_eq!(store.get_live(2), None);
}

#[test]
fn relation_link_and_lookup() {
    let mut rel: RelationStore<u64, TransformRecord> = RelationStore::new(4);
    let a: ComponentId<u64> = ComponentId::new(2);
    let b: ComponentId<TransformRecord> = ComponentId::new(9);
    rel.link(a, b);
    assert_eq!(rel.get_mapping(2), Some(9));
    // entries below the linked index default to 0
    assert_eq!(rel.get_mapping(0), Some(0));
    assert_eq!(rel.get_mapping(1), Some(0));
    // never-reached entries read as none
    assert_eq!(rel.get_mapping(3), None);
}

#[test]
fn relation_relink_overwrites_and_keeps_others() {
    let mut rel: RelationStore<u64, u64> = RelationStore::new(8);
    rel.link(ComponentId::new(1), ComponentId::new(5));
    rel.link(ComponentId::new(3), ComponentId::new(6));
    rel.link(ComponentId::new(1), ComponentId::new(7));
    assert_eq!(rel.get_mapping(1), Some(7));
    assert_eq!(rel.get_mapping(3), Some(6));
    assert_eq!(rel.get_mapping(0), Some(0));
    assert_eq!(rel.len(), 4);
}

#[test]
fn relation_growth_sets_dirty() {
    let mut rel: RelationStore<u64, u64> = RelationStore::new(2);
    assert!(!rel.is_dirty());
    rel.link(ComponentId::new(5), ComponentId::new(1));
    assert!(rel.is_dirty());
    assert!(rel.capacity() > 6);
    assert_eq!(rel.generation(), 1);
}

#[test]
fn pool_upload_and_wrap() {
    let mut pool = InstancePool::new(4);
    let batch = vec![
        Instance { transform_index: 1, normal_index: 2 },
        Instance { transform_index: 3, normal_index: 4 },
        Instance { transform_index: 5, normal_index: 6 },
    ];
    let off = pool.upload(&batch);
    assert_eq!(off, 0);
    assert_eq!(pool.cursor(), 3);
    assert_eq!(pool.record_at(1), Some(Instance { transform_index: 3, normal_index: 4 }));
    // the next write would run past the end: the cursor wraps to 0
    let off2 = pool.upload(&batch);
    assert_eq!(off2, 0);
    assert_eq!(pool.cursor(), 3);
    pool.reset();
    assert_eq!(pool.cursor(), 0);
}

#[test]
fn instance_bytes_are_packed_little_endian() {
    let inst = Instance { transform_index: 0x0403_0201, normal_index: 0x0807_0605 };
    assert_eq!(inst.to_bytes(), [1, 2, 3, 4, 5, 6, 7, 8]);
}
