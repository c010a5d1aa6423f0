//! Growable typed component store with stable integer handles.
//!
//! A store keeps a dense array of records, a map from 128-bit entity keys to
//! slots, and a free-list of reusable slots. The associated GPU buffer is
//! modelled by `capacity` (records the buffer can hold), `generation` (the
//! identity of the buffer object: growth allocates a fresh buffer) and
//! `dirty` (set on growth; dependent binding sets must be rebuilt before the
//! buffer is used again).

use vstd::prelude::*;
use vstd::set_lib::{lemma_int_range, lemma_len_subset, set_int_range};
use std::collections::HashMap;
use core::marker::PhantomData;

verus! {

broadcast use vstd::std_specs::hash::group_hash_axioms;

/// Stable handle to one slot inside one typed component store. The handle
/// stays valid until the record occupying the slot is removed; the slot
/// index may be reused afterwards through the free-list.
#[derive(Debug, PartialEq)]
pub struct ComponentId<T> {
    index: u32,
    marker: PhantomData<T>,
}

impl<T> View for ComponentId<T> {
    type V = u32;

    closed spec fn view(&self) -> u32 {
        self.index
    }
}

impl<T> Clone for ComponentId<T> {
    fn clone(&self) -> (r: Self)
        ensures
            r@ == self@,
    {
        ComponentId { index: self.index, marker: PhantomData }
    }
}

impl<T> Copy for ComponentId<T> {

}

impl<T> ComponentId<T> {
    /// The handle naming a given slot, for specifications.
    pub closed spec fn spec_new(index: u32) -> ComponentId<T> {
        ComponentId { index: index, marker: PhantomData }
    }

    pub fn new(index: usize) -> (r: Self)
        requires
            index <= u32::MAX,
        ensures
            r@ == index as u32,
            r == Self::spec_new(index as u32),
    {
        ComponentId { index: index as u32, marker: PhantomData }
    }

    pub fn index(&self) -> (r: u32)
        ensures
            r == self@,
    {
        self.index
    }
}

/// Mathematical model of a component store.
///
/// `records` is the dense array; `live[i]` says whether slot `i` currently
/// holds the record of some entity; `keys[i]` is that entity for a live
/// slot; `index` maps each live entity to its slot; `free` is the stack of
/// reusable slots. `capacity`, `dirty` and `generation` model the GPU-side
/// buffer.
#[verifier::ext_equal]
pub struct StoreModel<T> {
    pub records: Seq<T>,
    pub live: Seq<bool>,
    pub keys: Seq<u128>,
    pub index: Map<u128, usize>,
    pub free: Seq<usize>,
    pub capacity: nat,
    pub dirty: bool,
    pub generation: nat,
}

/// Store invariant: every live entity maps to exactly one slot holding its
/// record, and every slot is either live or on the free-list exactly once.
pub open spec fn store_wf<T>(m: StoreModel<T>) -> bool {
    &&& m.live.len() == m.records.len()
    &&& m.keys.len() == m.records.len()
    &&& 1 <= m.capacity
    &&& m.records.len() <= m.capacity
    &&& m.records.len() <= u32::MAX
    &&& m.generation <= m.capacity
    &&& forall|k: u128| #[trigger] m.index.contains_key(k)
        ==> m.index[k] < m.records.len() && m.live[m.index[k] as int]
            && m.keys[m.index[k] as int] == k
    &&& forall|i: int| 0 <= i < m.records.len() && m.live[i]
        ==> m.index.contains_key(#[trigger] m.keys[i]) && m.index[m.keys[i]] == i
    &&& forall|i: int| 0 <= i < m.free.len()
        ==> #[trigger] m.free[i] < m.records.len() && !m.live[m.free[i] as int]
    &&& forall|i: int, j: int| 0 <= i < j < m.free.len() ==> m.free[i] != m.free[j]
    &&& forall|i: int| 0 <= i < m.records.len() && !m.live[i]
        ==> m.free.contains(#[trigger] (i as usize))
}

/// The model of a freshly created store with the given capacity (at least 1).
pub open spec fn spec_store_new<T>(capacity: nat) -> StoreModel<T> {
    StoreModel {
        records: Seq::empty(),
        live: Seq::empty(),
        keys: Seq::empty(),
        index: Map::empty(),
        free: Seq::empty(),
        capacity: if capacity < 1 { 1 } else { capacity },
        dirty: false,
        generation: 0,
    }
}


/// Machine-limit headroom one `add` needs: a fresh slot still fits a 32-bit
/// handle and a doubled capacity still fits the address space.
pub open spec fn store_headroom<T>(m: StoreModel<T>) -> bool {
    &&& m.records.len() < u32::MAX
    &&& m.capacity * 2 <= usize::MAX
}

/// The slot that `add` assigns to `key`: the entity's current slot if it is
/// already present, else the top of the free-list, else a fresh slot at the
/// end of the dense array.
pub open spec fn spec_add_slot<T>(m: StoreModel<T>, key: u128) -> usize {
    if m.index.contains_key(key) {
        m.index[key]
    } else if m.free.len() > 0 {
        m.free.last()
    } else {
        m.records.len() as usize
    }
}

/// Whether `add` of a fresh entity grows the store (the dense array would
/// exceed the capacity).
pub open spec fn spec_add_grows<T>(m: StoreModel<T>, key: u128) -> bool {
    !m.index.contains_key(key) && m.free.len() == 0 && m.records.len() >= m.capacity
}

/// The store after `add(key, value)`: overwrite in place if the entity is
/// present, else occupy a free slot, else append, doubling the capacity (a
/// fresh GPU buffer, hence `dirty` and a new `generation`) if the dense
/// array would exceed it.
pub open spec fn spec_add<T>(m: StoreModel<T>, key: u128, value: T) -> StoreModel<T> {
    if m.index.contains_key(key) {
        StoreModel { records: m.records.update(m.index[key] as int, value), ..m }
    } else if m.free.len() > 0 {
        let i = m.free.last();
        StoreModel {
            records: m.records.update(i as int, value),
            live: m.live.update(i as int, true),
            keys: m.keys.update(i as int, key),
            index: m.index.insert(key, i),
            free: m.free.drop_last(),
            ..m
        }
    } else {
        let grow = m.records.len() >= m.capacity;
        StoreModel {
            records: m.records.push(value),
            live: m.live.push(true),
            keys: m.keys.push(key),
            index: m.index.insert(key, m.records.len() as usize),
            free: m.free,
            capacity: if grow { 2 * m.capacity } else { m.capacity },
            dirty: m.dirty || grow,
            generation: if grow { m.generation + 1 } else { m.generation },
        }
    }
}

/// The store after `remove(key)`: the slot goes on the free-list and its
/// content is left in place (not cleared) until the next `add`.
pub open spec fn spec_remove<T>(m: StoreModel<T>, key: u128) -> StoreModel<T> {
    if m.index.contains_key(key) {
        StoreModel {
            live: m.live.update(m.index[key] as int, false),
            index: m.index.remove(key),
            free: m.free.push(m.index[key]),
            ..m
        }
    } else {
        m
    }
}

/// The store after `set(key, value)`: overwrite in place if the entity is
/// present, else no change.
pub open spec fn spec_set<T>(m: StoreModel<T>, key: u128, value: T) -> StoreModel<T> {
    if m.index.contains_key(key) {
        StoreModel { records: m.records.update(m.index[key] as int, value), ..m }
    } else {
        m
    }
}

/// Machine-limit headroom for `n` successive adds.
pub open spec fn store_headroom_n<T>(m: StoreModel<T>, n: nat) -> bool {
    &&& m.records.len() + n <= u32::MAX
    &&& 2 * m.capacity <= usize::MAX
    &&& 4 * (m.records.len() + n) <= usize::MAX
}

/// Headroom for `n` adds gives headroom for one, and the store after that
/// add has headroom for the remaining `n - 1`.
pub proof fn lemma_headroom_step<T>(m: StoreModel<T>, n: nat, key: u128, value: T)
    requires
        store_wf(m),
        store_headroom_n(m, n),
        n >= 1,
    ensures
        store_headroom(m),
        store_headroom_n(spec_add(m, key, value), (n - 1) as nat),
{
}

/// Adding a fresh entity never disturbs a live slot: every live record, and
/// every existing entity's slot, is exactly as before.
pub proof fn lemma_add_fresh_preserves_live<T>(m: StoreModel<T>, key: u128, value: T)
    requires
        store_wf(m),
        !m.index.contains_key(key),
    ensures
        m.records.len() <= spec_add(m, key, value).records.len() <= m.records.len() + 1,
        forall|i: int| 0 <= i < m.records.len() && m.live[i]
            ==> #[trigger] spec_add(m, key, value).live[i]
                && spec_add(m, key, value).records[i] == m.records[i],
        forall|k: u128| #[trigger] m.index.contains_key(k)
            ==> spec_add(m, key, value).index.contains_key(k)
                && spec_add(m, key, value).index[k] == m.index[k],
{
    if m.free.len() > 0 {
        let i = m.free.last();
        assert(m.free[m.free.len() - 1] == i);
        assert(!m.live[i as int]);
    }
}

/// In a well-formed store the free-list cannot hold more entries than there
/// are slots.
pub proof fn lemma_free_len_bound<T>(m: StoreModel<T>)
    requires
        store_wf(m),
    ensures
        m.free.len() <= m.records.len(),
{
    let f = m.free.map_values(|x: usize| x as int);
    assert forall|i: int, j: int| 0 <= i < j < f.len() implies f[i] != f[j] by {
        assert(m.free[i] != m.free[j]);
    }
    assert(f.no_duplicates());
    f.unique_seq_to_set();
    let range = set_int_range(0, m.records.len() as int);
    lemma_int_range(0, m.records.len() as int);
    assert(f.to_set().subset_of(range)) by {
        assert forall|x: int| f.to_set().contains(x) implies range.contains(x) by {
            let i = choose|i: int| 0 <= i < f.len() && f[i] == x;
            assert(m.free[i] < m.records.len());
        }
    }
    lemma_len_subset(f.to_set(), range);
}

/// `add` preserves the store invariant.
pub proof fn lemma_add_preserves_wf<T>(m: StoreModel<T>, key: u128, value: T)
    requires
        store_wf(m),
        m.records.len() < u32::MAX,
    ensures
        store_wf(spec_add(m, key, value)),
{
    let m2 = spec_add(m, key, value);
    if m.index.contains_key(key) {
        assert(store_wf(m2));
    } else if m.free.len() > 0 {
        let s = m.free.last();
        assert(m.free[m.free.len() - 1] == s);
        assert(s < m.records.len() && !m.live[s as int]);
        assert forall|i: int| 0 <= i < m2.records.len() && !m2.live[i]
            implies m2.free.contains(#[trigger] (i as usize)) by {
            assert(!m.live[i]);
            assert(m.free.contains(i as usize));
            let j = choose|j: int| 0 <= j < m.free.len() && m.free[j] == i as usize;
            assert(j < m.free.len() - 1);
            assert(m2.free[j] == i as usize);
        }
        assert(store_wf(m2));
    } else {
        let n = m.records.len() as int;
        assert forall|i: int| 0 <= i < m2.free.len()
            implies #[trigger] m2.free[i] < m2.records.len() && !m2.live[m2.free[i] as int] by {
            assert(m.free[i] < m.records.len());
        }
        assert forall|i: int| 0 <= i < m2.records.len() && !m2.live[i]
            implies m2.free.contains(#[trigger] (i as usize)) by {
            assert(i < n);
            assert(!m.live[i]);
        }
        assert(store_wf(m2));
    }
}

/// `remove` preserves the store invariant.
pub proof fn lemma_remove_preserves_wf<T>(m: StoreModel<T>, key: u128)
    requires
        store_wf(m),
    ensures
        store_wf(spec_remove(m, key)),
{
    let m2 = spec_remove(m, key);
    if m.index.contains_key(key) {
        let s = m.index[key];
        assert forall|i: int| 0 <= i < m2.free.len()
            implies #[trigger] m2.free[i] < m2.records.len() && !m2.live[m2.free[i] as int] by {
            if i < m.free.len() {
                assert(m.free[i] < m.records.len() && !m.live[m.free[i] as int]);
                assert(m.free[i] != s);
            }
        }
        assert forall|i: int, j: int| 0 <= i < j < m2.free.len() implies m2.free[i] != m2.free[j] by {
            if j < m.free.len() {
                assert(m.free[i] != m.free[j]);
            } else {
                assert(m2.free[j] == s);
                assert(m.free[i] < m.records.len() && !m.live[m.free[i] as int]);
            }
        }
        assert forall|i: int| 0 <= i < m2.records.len() && !m2.live[i]
            implies m2.free.contains(#[trigger] (i as usize)) by {
            if i == s {
                assert(m2.free[m2.free.len() - 1] == i as usize);
            } else {
                assert(!m.live[i]);
                assert(m.free.contains(i as usize));
                let j = choose|j: int| 0 <= j < m.free.len() && m.free[j] == i as usize;
                assert(m2.free[j] == i as usize);
            }
        }
        assert(store_wf(m2));
    }
}

/// Growable typed store: dense records, entity-to-slot map, free-list, and
/// the model of the GPU buffer that mirrors the dense array.
pub struct ComponentStore<T> {
    records: Vec<T>,
    live: Vec<bool>,
    keys: Vec<u128>,
    index_map: HashMap<u128, usize>,
    free_slots: Vec<usize>,
    capacity: usize,
    dirty: bool,
    generation: u64,
}

impl<T> View for ComponentStore<T> {
    type V = StoreModel<T>;

    closed spec fn view(&self) -> StoreModel<T> {
        StoreModel {
            records: self.records@,
            live: self.live@,
            keys: self.keys@,
            index: self.index_map@,
            free: self.free_slots@,
            capacity: self.capacity as nat,
            dirty: self.dirty,
            generation: self.generation as nat,
        }
    }
}

impl<T> ComponentStore<T> {
    pub open spec fn wf(&self) -> bool {
        store_wf(self@)
    }

    /// A store is created empty with capacity at least 1.
    pub fn new(capacity: usize) -> (s: Self)
        ensures
            s.wf(),
            s@ == spec_store_new::<T>(capacity as nat),
    {
        let s = ComponentStore {
            records: Vec::new(),
            live: Vec::new(),
            keys: Vec::new(),
            index_map: HashMap::new(),
            free_slots: Vec::new(),
            capacity: if capacity < 1 { 1 } else { capacity },
            dirty: false,
            generation: 0,
        };
        proof {
            assert(s@ =~= spec_store_new::<T>(capacity as nat));
        }
        s
    }

    /// Add or overwrite the record of `key`. If the entity already has a
    /// slot the record is overwritten in place; otherwise a free slot is
    /// reused or a fresh one appended, doubling the capacity when the dense
    /// array would exceed it. The returned handle names the slot.
    pub fn add(&mut self, key: u128, value: T) -> (id: ComponentId<T>)
        requires
            old(self).wf(),
            old(self)@.records.len() < u32::MAX,
            old(self)@.capacity * 2 <= usize::MAX,
        ensures
            final(self).wf(),
            final(self)@ == spec_add(old(self)@, key, value),
            id@ == spec_add_slot(old(self)@, key) as u32,
            id == ComponentId::<T>::spec_new(spec_add_slot(old(self)@, key) as u32),
            forall|e: u128| e != key && #[trigger] old(self)@.index.contains_key(e)
                ==> final(self)@.index.contains_key(e)
                    && final(self)@.index[e] == old(self)@.index[e]
                    && final(self)@.records[old(self)@.index[e] as int]
                        == old(self)@.records[old(self)@.index[e] as int],
    {
        proof {
            lemma_add_preserves_wf(old(self)@, key, value);
            assert forall|e: u128| e != key && #[trigger] old(self)@.index.contains_key(e)
                implies spec_add(old(self)@, key, value).index.contains_key(e) && spec_add(
                old(self)@,
                key,
                value,
            ).index[e] == old(self)@.index[e] && spec_add(old(self)@, key, value).records[
                old(self)@.index[e] as int
            ] == old(self)@.records[old(self)@.index[e] as int] by {
                lemma_op_preserves_other(old(self)@, StoreOp::Add { key, value }, e);
            }
        }
        let slot_opt = match self.index_map.get(&key) {
            Some(i) => Some(*i),
            None => None,
        };
        match slot_opt {
            Some(i) => {
                self.records[i] = value;
                proof {
                    assert(self@ =~= spec_add(old(self)@, key, value));
                }
                ComponentId::new(i)
            }
            None => {
                let has_free = self.free_slots.len() > 0;
                if has_free {
                    let i = self.free_slots.pop().unwrap();
                    self.records[i] = value;
                    self.live[i] = true;
                    self.keys[i] = key;
                    self.index_map.insert(key, i);
                    proof {
                        assert(self@ =~= spec_add(old(self)@, key, value));
                    }
                    ComponentId::new(i)
                } else {
                    let i = self.records.len();
                    if i >= self.capacity {
                        self.capacity = self.capacity * 2;
                        self.generation = self.generation + 1;
                        self.dirty = true;
                    }
                    self.records.push(value);
                    self.live.push(true);
                    self.keys.push(key);
                    self.index_map.insert(key, i);
                    proof {
                        assert(self@ =~= spec_add(old(self)@, key, value));
                    }
                    ComponentId::new(i)
                }
            }
        }
    }

    /// Remove the record of `key`: its slot goes on the free-list; the
    /// record content is left in place until the slot is reused.
    pub fn remove(&mut self, key: u128)
        requires
            old(self).wf(),
        ensures
            final(self).wf(),
            final(self)@ == spec_remove(old(self)@, key),
            forall|e: u128| e != key && #[trigger] old(self)@.index.contains_key(e)
                ==> final(self)@.index.contains_key(e)
                    && final(self)@.index[e] == old(self)@.index[e]
                    && final(self)@.records[old(self)@.index[e] as int]
                        == old(self)@.records[old(self)@.index[e] as int],
    {
        proof {
            lemma_remove_preserves_wf(old(self)@, key);
            lemma_free_len_bound(old(self)@);
        }
        match self.index_map.remove(&key) {
            Some(i) => {
                self.free_slots.push(i);
                self.live[i] = false;
                proof {
                    assert(self@ =~= spec_remove(old(self)@, key));
                }
            }
            None => {
                proof {
                    assert(self@ =~= spec_remove(old(self)@, key));
                }
            }
        }
    }

    /// Look the record of an entity up by its key.
    pub fn get(&self, key: u128) -> (r: Option<&T>)
        requires
            self.wf(),
        ensures
            match r {
                Some(v) => self@.index.contains_key(key)
                    && *v == self@.records[self@.index[key] as int],
                None => !self@.index.contains_key(key),
            },
    {
        match self.index_map.get(&key) {
            Some(i) => {
                assert(self@.index.contains_key(key));
                assert(self@.index[key] == *i);
                Some(&self.records[*i])
            }
            None => None,
        }
    }

    /// Resolve a component handle to the record currently in its slot.
    pub fn get_by_id(&self, id: ComponentId<T>) -> (r: Option<&T>)
        ensures
            match r {
                Some(v) => id@ < self@.records.len() && *v == self@.records[id@ as int],
                None => id@ >= self@.records.len(),
            },
    {
        let i = id.index() as usize;
        if i < self.records.len() {
            Some(&self.records[i])
        } else {
            None
        }
    }

    /// Read the record in a raw slot.
    pub fn get_by_index(&self, index: usize) -> (r: Option<&T>)
        ensures
            match r {
                Some(v) => index < self@.records.len() && *v == self@.records[index as int],
                None => index >= self@.records.len(),
            },
    {
        if index < self.records.len() {
            Some(&self.records[index])
        } else {
            None
        }
    }

    /// The handle of the slot an entity currently occupies.
    pub fn get_index(&self, key: u128) -> (r: Option<ComponentId<T>>)
        requires
            self.wf(),
        ensures
            match r {
                Some(id) => self@.index.contains_key(key) && id@ == self@.index[key] as u32,
                None => !self@.index.contains_key(key),
            },
    {
        match self.index_map.get(&key) {
            Some(i) => {
                assert(self@.index.contains_key(key));
                assert(self@.index[key] == *i);
                Some(ComponentId::new(*i))
            }
            None => None,
        }
    }

    /// Overwrite the record of an entity that is present; no change if it
    /// is not.
    pub fn set(&mut self, key: u128, value: T)
        requires
            old(self).wf(),
        ensures
            final(self).wf(),
            final(self)@ == spec_set(old(self)@, key, value),
    {
        let slot_opt = match self.index_map.get(&key) {
            Some(i) => Some(*i),
            None => None,
        };
        match slot_opt {
            Some(i) => {
                self.records[i] = value;
                proof {
                    assert(self@ =~= spec_set(old(self)@, key, value));
                }
            }
            None => {
                proof {
                    assert(self@ =~= spec_set(old(self)@, key, value));
                }
            }
        }
    }

    /// Read the record in a slot if that slot is currently live.
    pub fn get_live(&self, index: usize) -> (r: Option<&T>)
        requires
            self.wf(),
        ensures
            match r {
                Some(v) => index < self@.records.len() && self@.live[index as int]
                    && *v == self@.records[index as int],
                None => index >= self@.records.len() || !self@.live[index as int],
            },
    {
        if index < self.records.len() && self.live[index] {
            Some(&self.records[index])
        } else {
            None
        }
    }

    /// The key of the entity occupying a live slot.
    pub fn key_at(&self, index: usize) -> (r: Option<u128>)
        requires
            self.wf(),
        ensures
            match r {
                Some(k) => index < self@.records.len() && self@.live[index as int]
                    && k == self@.keys[index as int],
                None => index >= self@.records.len() || !self@.live[index as int],
            },
    {
        if index < self.keys.len() && self.live[index] {
            Some(self.keys[index])
        } else {
            None
        }
    }

    /// Number of slots in the dense array (live or free).
    pub fn len(&self) -> (r: usize)
        ensures
            r == self@.records.len(),
    {
        self.records.len()
    }

    /// The whole dense array, as uploaded to the GPU buffer after growth.
    pub fn components(&self) -> (r: &Vec<T>)
        ensures
            r@ == self@.records,
    {
        &self.records
    }

    /// Capacity of the mirrored GPU buffer, in records.
    pub fn capacity(&self) -> (r: usize)
        ensures
            r == self@.capacity,
    {
        self.capacity
    }

    /// Identity of the mirrored GPU buffer; growth allocates a fresh buffer
    /// and bumps this.
    pub fn generation(&self) -> (r: u64)
        ensures
            r == self@.generation,
    {
        self.generation
    }

    /// Read and clear the dirty flag. The owner polls this once per frame:
    /// a true result means the buffer object was replaced and every binding
    /// set that references it must be rebuilt before the next submission.
    pub fn is_dirty(&mut self) -> (r: bool)
        ensures
            r == old(self)@.dirty,
            final(self)@ == (StoreModel { dirty: false, ..old(self)@ }),
    {
        let dirty = self.dirty;
        self.dirty = false;
        proof {
            assert(self@ =~= (StoreModel { dirty: false, ..old(self)@ }));
        }
        dirty
    }
}


/// One mutation of a component store.
pub enum StoreOp<T> {
    Add { key: u128, value: T },
    Remove { key: u128 },
}

/// The entity key an operation names.
pub open spec fn op_key<T>(op: StoreOp<T>) -> u128 {
    match op {
        StoreOp::Add { key, .. } => key,
        StoreOp::Remove { key } => key,
    }
}

/// The store after one operation.
pub open spec fn apply_op<T>(m: StoreModel<T>, op: StoreOp<T>) -> StoreModel<T> {
    match op {
        StoreOp::Add { key, value } => spec_add(m, key, value),
        StoreOp::Remove { key } => spec_remove(m, key),
    }
}

/// The store after a sequence of operations, applied left to right.
pub open spec fn apply_ops<T>(m: StoreModel<T>, ops: Seq<StoreOp<T>>) -> StoreModel<T>
    decreases ops.len(),
{
    if ops.len() == 0 {
        m
    } else {
        apply_ops(apply_op(m, ops[0]), ops.drop_first())
    }
}

/// One operation on an unrelated entity leaves the slot of `e`, and the
/// record in that slot, untouched.
pub proof fn lemma_op_preserves_other<T>(m: StoreModel<T>, op: StoreOp<T>, e: u128)
    requires
        store_wf(m),
        m.records.len() < u32::MAX,
        m.index.contains_key(e),
        op_key(op) != e,
    ensures
        store_wf(apply_op(m, op)),
        apply_op(m, op).records.len() <= m.records.len() + 1,
        apply_op(m, op).index.contains_key(e),
        apply_op(m, op).index[e] == m.index[e],
        apply_op(m, op).records[m.index[e] as int] == m.records[m.index[e] as int],
{
    match op {
        StoreOp::Add { key, value } => {
            lemma_add_preserves_wf(m, key, value);
            let se = m.index[e];
            if m.index.contains_key(key) {
                assert(m.keys[m.index[key] as int] == key);
                assert(m.keys[se as int] == e);
                assert(m.index[key] != se);
            } else if m.free.len() > 0 {
                let i = m.free.last();
                assert(m.free[m.free.len() - 1] == i);
                assert(!m.live[i as int]);
                assert(m.live[se as int]);
            }
        }
        StoreOp::Remove { key } => {
            lemma_remove_preserves_wf(m, key);
            if m.index.contains_key(key) {
                assert(m.keys[m.index[key] as int] == key);
                assert(m.keys[m.index[e] as int] == e);
            }
        }
    }
}

/// Handle stability: across any sequence of `add`/`remove` operations that
/// never name entity `e` — including adds that trigger growth — the slot of
/// `e` and the record that its handle resolves to are unchanged.
pub proof fn lemma_handle_stability<T>(m: StoreModel<T>, ops: Seq<StoreOp<T>>, e: u128)
    requires
        store_wf(m),
        m.index.contains_key(e),
        m.records.len() + ops.len() <= u32::MAX,
        forall|i: int| 0 <= i < ops.len() ==> op_key(#[trigger] ops[i]) != e,
    ensures
        store_wf(apply_ops(m, ops)),
        apply_ops(m, ops).index.contains_key(e),
        apply_ops(m, ops).index[e] == m.index[e],
        apply_ops(m, ops).records[m.index[e] as int] == m.records[m.index[e] as int],
    decreases ops.len(),
{
    if ops.len() > 0 {
        lemma_op_preserves_other(m, ops[0], e);
        let m2 = apply_op(m, ops[0]);
        assert(forall|i: int| 0 <= i < ops.drop_first().len()
            ==> op_key(#[trigger] ops.drop_first()[i]) != e);
        lemma_handle_stability(m2, ops.drop_first(), e);
    }
}

/// Growth correctness: when an `add` doubles the capacity from N to 2N, the
/// buffer is a fresh object (new generation, dirty set) and every record
/// that was live before the growth reads back unchanged through its old
/// handle.
pub proof fn lemma_growth_preserves_records<T>(m: StoreModel<T>, key: u128, value: T)
    requires
        store_wf(m),
        m.records.len() < u32::MAX,
        spec_add_grows(m, key),
    ensures
        spec_add(m, key, value).capacity == 2 * m.capacity,
        spec_add(m, key, value).dirty,
        spec_add(m, key, value).generation == m.generation + 1,
        forall|e: u128| #[trigger] m.index.contains_key(e)
            ==> spec_add(m, key, value).index.contains_key(e)
                && spec_add(m, key, value).index[e] == m.index[e]
                && spec_add(m, key, value).records[m.index[e] as int]
                    == m.records[m.index[e] as int],
{
    lemma_add_preserves_wf(m, key, value);
}

} // verus!

