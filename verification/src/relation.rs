//! Sparse slot-to-slot relation store between two typed component stores.
//!
//! `mapping[i]` gives, for slot `i` of store A, the linked slot of store B.
//! Entries that were never linked default to 0, so slot 0 of the target
//! store must always hold a valid, harmless fallback record. The mapping is
//! mirrored on a GPU buffer with the same capacity/dirty/generation
//! discipline as the component stores.

use vstd::prelude::*;
use core::marker::PhantomData;
use crate::store::ComponentId;

verus! {

/// Mathematical model of a relation store: the mapping array and the model
/// of the GPU buffer mirroring it.
#[verifier::ext_equal]
pub struct RelationModel {
    pub mapping: Seq<u32>,
    pub capacity: nat,
    pub dirty: bool,
    pub generation: nat,
}

/// Relation invariant: the buffer can hold the whole mapping.
pub open spec fn relation_wf(m: RelationModel) -> bool {
    &&& 1 <= m.capacity
    &&& m.mapping.len() <= m.capacity
    &&& m.generation <= m.capacity
}

/// The model of a freshly created relation store.
pub open spec fn spec_relation_new(capacity: nat) -> RelationModel {
    RelationModel {
        mapping: Seq::empty(),
        capacity: if capacity < 1 { 1 } else { capacity },
        dirty: false,
        generation: 0,
    }
}

/// Doubles a capacity until it exceeds the mapping length.
pub open spec fn grow_capacity(cap: nat, len: nat) -> nat
    decreases (if cap < 1 { len + 2int } else if len >= cap { len + 1 - cap } else { 0int }),
{
    if cap < 1 {
        grow_capacity(1, len)
    } else if len >= cap {
        grow_capacity(2 * cap, len)
    } else {
        cap
    }
}


/// Machine-limit headroom one `link` of index `a` needs: the padded mapping
/// and a doubled capacity still fit the address space.
pub open spec fn relation_headroom(m: RelationModel, a: u32) -> bool {
    &&& 2 * (a + 1) <= usize::MAX
    &&& 2 * m.mapping.len() <= usize::MAX
}

/// The mapping array after padding with the default 0 up to index `a`.
pub open spec fn spec_pad(mapping: Seq<u32>, a: u32) -> Seq<u32> {
    if a >= mapping.len() {
        mapping + Seq::new((a + 1 - mapping.len()) as nat, |i: int| 0u32)
    } else {
        mapping
    }
}

/// The relation after `link(a, b)`: pad the mapping with zeros up to `a`,
/// record `mapping[a] = b`, and grow the mirrored buffer (fresh object,
/// dirty set, new generation) if the mapping reaches its capacity.
pub open spec fn spec_link(m: RelationModel, a: u32, b: u32) -> RelationModel {
    let mapping = spec_pad(m.mapping, a).update(a as int, b);
    let grow = mapping.len() >= m.capacity;
    RelationModel {
        mapping: mapping,
        capacity: if grow { grow_capacity(m.capacity, mapping.len()) } else { m.capacity },
        dirty: m.dirty || grow,
        generation: if grow { m.generation + 1 } else { m.generation },
    }
}

/// The grown capacity strictly exceeds the mapping length, never shrinks,
/// and at most doubles past the length.
pub proof fn lemma_grow_capacity(cap: nat, len: nat)
    ensures
        grow_capacity(cap, len) > len,
        grow_capacity(cap, len) >= cap,
        grow_capacity(cap, len) >= 1,
        cap >= 1 ==> grow_capacity(cap, len) <= if cap > len { cap } else { 2 * len },
    decreases (if cap < 1 { len + 2int } else if len >= cap { len + 1 - cap } else { 0int }),
{
    if cap < 1 {
        lemma_grow_capacity(1, len);
    } else if len >= cap {
        lemma_grow_capacity(2 * cap, len);
    }
}

/// `link` preserves the relation invariant.
pub proof fn lemma_link_preserves_wf(m: RelationModel, a: u32, b: u32)
    requires
        relation_wf(m),
    ensures
        relation_wf(spec_link(m, a, b)),
{
    let mapping = spec_pad(m.mapping, a).update(a as int, b);
    if mapping.len() >= m.capacity {
        lemma_grow_capacity(m.capacity, mapping.len());
    }
}

/// Relation idempotence: `link(a, b)` followed by `link(a, b2)` maps `a` to
/// `b2` and changes no other mapping — every other index reads back exactly
/// what it read after the first link, and the buffer is untouched.
pub proof fn lemma_link_idempotent(m: RelationModel, a: u32, b: u32, b2: u32)
    requires
        relation_wf(m),
    ensures
        ({
            let m1 = spec_link(m, a, b);
            let m2 = spec_link(m1, a, b2);
            &&& m2.mapping[a as int] == b2
            &&& m2.mapping.len() == m1.mapping.len()
            &&& forall|j: int| 0 <= j < m1.mapping.len() && j != a
                ==> m2.mapping[j] == m1.mapping[j]
            &&& m2.capacity == m1.capacity
            &&& m2.dirty == m1.dirty
            &&& m2.generation == m1.generation
        }),
{
    lemma_link_preserves_wf(m, a, b);
    let m1 = spec_link(m, a, b);
    assert(a < m1.mapping.len());
    assert(spec_pad(m1.mapping, a) == m1.mapping);
    assert(m1.mapping.len() < m1.capacity) by {
        if spec_pad(m.mapping, a).update(a as int, b).len() >= m.capacity {
            lemma_grow_capacity(m.capacity, m1.mapping.len());
        }
    }
}

/// Relation store between component store A and component store B, with the
/// model of its mirrored GPU buffer.
pub struct RelationStore<A, B> {
    mapping: Vec<u32>,
    capacity: usize,
    dirty: bool,
    generation: u64,
    marker: PhantomData<(A, B)>,
}

impl<A, B> View for RelationStore<A, B> {
    type V = RelationModel;

    closed spec fn view(&self) -> RelationModel {
        RelationModel {
            mapping: self.mapping@,
            capacity: self.capacity as nat,
            dirty: self.dirty,
            generation: self.generation as nat,
        }
    }
}

impl<A, B> RelationStore<A, B> {
    pub open spec fn wf(&self) -> bool {
        relation_wf(self@)
    }

    /// A relation store is created empty with capacity at least 1.
    pub fn new(capacity: usize) -> (s: Self)
        ensures
            s.wf(),
            s@ == spec_relation_new(capacity as nat),
    {
        let s = RelationStore {
            mapping: Vec::new(),
            capacity: if capacity < 1 { 1 } else { capacity },
            dirty: false,
            generation: 0,
            marker: PhantomData,
        };
        proof {
            assert(s@ =~= spec_relation_new(capacity as nat));
        }
        s
    }

    /// Record that slot `a` of store A is related to slot `b` of store B.
    /// Re-linking the same `a` overwrites. Unset entries below `a` default
    /// to 0.
    pub fn link(&mut self, a: ComponentId<A>, b: ComponentId<B>)
        requires
            old(self).wf(),
            relation_headroom(old(self)@, a@),
        ensures
            final(self).wf(),
            final(self)@ == spec_link(old(self)@, a@, b@),
            final(self)@.mapping[a@ as int] == b@,
            forall|j: int| 0 <= j < old(self)@.mapping.len() && j != a@
                ==> final(self)@.mapping[j] == old(self)@.mapping[j],
    {
        proof {
            lemma_link_preserves_wf(old(self)@, a@, b@);
        }
        let index = a.index() as usize;
        let ghost old_map = old(self)@.mapping;
        let ghost padded = spec_pad(old_map, a@);
        proof {
            assert(self.mapping@ =~= padded.subrange(0, self.mapping@.len() as int));
        }
        while self.mapping.len() <= index
            invariant
                index < padded.len(),
                old_map.len() <= padded.len(),
                padded.len() <= index + 1 || padded.len() == old_map.len(),
                forall|j: int| old_map.len() <= j < padded.len() ==> padded[j] == 0u32,
                old_map.len() <= self.mapping@.len() <= padded.len(),
                self.mapping@ =~= padded.subrange(0, self.mapping@.len() as int),
                self.capacity == old(self).capacity,
                self.dirty == old(self).dirty,
                self.generation == old(self).generation,
            decreases padded.len() - self.mapping@.len(),
        {
            self.mapping.push(0);
            proof {
                assert(self.mapping@ =~= padded.subrange(0, self.mapping@.len() as int));
            }
        }
        proof {
            assert(self.mapping@ =~= padded);
        }
        self.mapping[index] = b.index();
        let ghost mapped = self.mapping@;
        assert(mapped == spec_pad(old(self)@.mapping, a@).update(a@ as int, b@));
        if self.mapping.len() >= self.capacity {
            while self.mapping.len() >= self.capacity
                invariant
                    1 <= self.capacity,
                    self.mapping@ == mapped,
                    2 * mapped.len() <= usize::MAX,
                    self.capacity <= 2 * mapped.len(),
                    grow_capacity(self.capacity as nat, mapped.len())
                        == grow_capacity(old(self).capacity as nat, mapped.len()),
                    self.dirty == old(self).dirty,
                    self.generation == old(self).generation,
                decreases 2 * mapped.len() - self.capacity,
            {
                self.capacity = self.capacity * 2;
            }
            self.dirty = true;
            self.generation = self.generation + 1;
            proof {
                assert(self@ =~= spec_link(old(self)@, a@, b@));
            }
        } else {
            proof {
                assert(self@ =~= spec_link(old(self)@, a@, b@));
            }
        }
    }

    /// The slot of store B related to slot `index` of store A, or none if
    /// that index was never reached by a `link`.
    pub fn get_mapping(&self, index: usize) -> (r: Option<u32>)
        ensures
            match r {
                Some(v) => index < self@.mapping.len() && v == self@.mapping[index as int],
                None => index >= self@.mapping.len(),
            },
    {
        if index < self.mapping.len() {
            Some(self.mapping[index])
        } else {
            None
        }
    }

    /// Number of mapping entries (the highest linked index plus one).
    pub fn len(&self) -> (r: usize)
        ensures
            r == self@.mapping.len(),
    {
        self.mapping.len()
    }

    /// Capacity of the mirrored GPU buffer, in entries.
    pub fn capacity(&self) -> (r: usize)
        ensures
            r == self@.capacity,
    {
        self.capacity
    }

    /// Identity of the mirrored GPU buffer; growth allocates a fresh buffer
    /// and bumps this.
    pub fn generation(&self) -> (r: u64)
        ensures
            r == self@.generation,
    {
        self.generation
    }

    /// Read and clear the dirty flag; a true result means dependent binding
    /// sets must be rebuilt before the next use.
    pub fn is_dirty(&mut self) -> (r: bool)
        ensures
            r == old(self)@.dirty,
            final(self)@ == (RelationModel { dirty: false, ..old(self)@ }),
    {
        let dirty = self.dirty;
        self.dirty = false;
        proof {
            assert(self@ =~= (RelationModel { dirty: false, ..old(self)@ }));
        }
        dirty
    }
}

} // verus!
