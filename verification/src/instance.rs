//! Per-draw instance records and the ring-buffer instance pool.
//!
//! An instance record is two 32-bit unsigned indices (transform slot,
//! normal-matrix slot), 8 bytes, tightly packed. The pool is a fixed-size
//! device array written through a cursor: when the next write would run past
//! the end, the cursor wraps to 0. Records of two generations may coexist
//! until overwritten; batches are rebuilt before every use, so a stale tail
//! is never read.

use vstd::prelude::*;

verus! {

/// One per-draw instance record, bit-exact for GPU consumption: two 32-bit
/// unsigned indices, 8 bytes, tightly packed, no padding.
#[derive(Clone, Copy, Debug, PartialEq, Eq, Structural)]
pub struct Instance {
    pub transform_index: u32,
    pub normal_index: u32,
}

/// The little-endian byte image of one instance record: the transform index
/// in bytes 0..4, the normal index in bytes 4..8.
pub open spec fn spec_instance_bytes(inst: Instance) -> Seq<u8> {
    seq![
        (inst.transform_index & 0xff) as u8,
        ((inst.transform_index >> 8) & 0xff) as u8,
        ((inst.transform_index >> 16) & 0xff) as u8,
        ((inst.transform_index >> 24) & 0xff) as u8,
        (inst.normal_index & 0xff) as u8,
        ((inst.normal_index >> 8) & 0xff) as u8,
        ((inst.normal_index >> 16) & 0xff) as u8,
        ((inst.normal_index >> 24) & 0xff) as u8,
    ]
}

impl Instance {
    /// Encode the record in its exact 8-byte GPU layout.
    pub fn to_bytes(&self) -> (r: [u8; 8])
        ensures
            r@ == spec_instance_bytes(*self),
    {
        let t = self.transform_index;
        let n = self.normal_index;
        let r = [
            (t & 0xff) as u8,
            ((t >> 8) & 0xff) as u8,
            ((t >> 16) & 0xff) as u8,
            ((t >> 24) & 0xff) as u8,
            (n & 0xff) as u8,
            ((n >> 8) & 0xff) as u8,
            ((n >> 16) & 0xff) as u8,
            ((n >> 24) & 0xff) as u8,
        ];
        proof {
            assert(r@ =~= spec_instance_bytes(*self));
        }
        r
    }
}

/// Mathematical model of the instance pool: the current contents of the
/// fixed-size device array and the write cursor.
#[verifier::ext_equal]
pub struct PoolModel {
    pub data: Seq<Instance>,
    pub cursor: nat,
}

/// Pool invariant: the cursor stays inside the array, which never changes
/// size.
pub open spec fn pool_wf(m: PoolModel) -> bool {
    &&& 1 <= m.data.len()
    &&& m.cursor <= m.data.len()
}

/// The offset at which `upload` of `count` records starts: the cursor, or 0
/// if the records would run past the end of the array.
pub open spec fn spec_upload_offset(m: PoolModel, count: nat) -> nat {
    if m.cursor + count > m.data.len() {
        0
    } else {
        m.cursor
    }
}

/// The pool after `upload(records)`: the records are written contiguously
/// starting at the upload offset and the cursor moves past them.
pub open spec fn spec_upload(m: PoolModel, records: Seq<Instance>) -> PoolModel {
    let offset = spec_upload_offset(m, records.len());
    PoolModel {
        data: m.data.map(
            |i: int, v: Instance|
                if offset <= i < offset + records.len() {
                    records[i - offset]
                } else {
                    v
                },
        ),
        cursor: offset + records.len(),
    }
}

/// Ring-buffer pool of per-draw instance records, mirroring the fixed-size
/// device array it is uploaded to.
pub struct InstancePool {
    data: Vec<Instance>,
    cursor: usize,
}

impl View for InstancePool {
    type V = PoolModel;

    closed spec fn view(&self) -> PoolModel {
        PoolModel { data: self.data@, cursor: self.cursor as nat }
    }
}

impl InstancePool {
    pub open spec fn wf(&self) -> bool {
        pool_wf(self@)
    }

    /// A pool is created zero-filled with capacity at least 1 and the
    /// cursor at 0.
    pub fn new(capacity: usize) -> (s: Self)
        ensures
            s.wf(),
            s@.cursor == 0,
            s@.data.len() == if capacity < 1 { 1nat } else { capacity as nat },
            forall|i: int| 0 <= i < s@.data.len()
                ==> s@.data[i] == (Instance { transform_index: 0, normal_index: 0 }),
    {
        let capacity = if capacity < 1 { 1 } else { capacity };
        let mut data: Vec<Instance> = Vec::new();
        let mut i: usize = 0;
        while i < capacity
            invariant
                i <= capacity,
                data@.len() == i,
                forall|j: int| 0 <= j < i
                    ==> data@[j] == (Instance { transform_index: 0, normal_index: 0 }),
            decreases capacity - i,
        {
            data.push(Instance { transform_index: 0, normal_index: 0 });
            i = i + 1;
        }
        InstancePool { data, cursor: 0 }
    }

    /// Write a contiguous run of records into the pool at the cursor,
    /// wrapping the cursor to 0 first if the run would exceed the capacity.
    /// Returns the offset of the run's first record.
    pub fn upload(&mut self, records: &Vec<Instance>) -> (offset: usize)
        requires
            old(self).wf(),
            records@.len() <= old(self)@.data.len(),
        ensures
            final(self).wf(),
            final(self)@ == spec_upload(old(self)@, records@),
            offset == spec_upload_offset(old(self)@, records@.len()),
    {
        if records.len() > self.data.len() - self.cursor {
            self.cursor = 0;
        }
        let offset = self.cursor;
        let cap = self.data.len();
        let mut i: usize = 0;
        while i < records.len()
            invariant
                i <= records@.len(),
                offset + records@.len() <= cap,
                cap == self.data@.len(),
                self.data@.len() == old(self)@.data.len(),
                self.cursor == offset,
                forall|j: int| 0 <= j < i ==> self.data@[offset + j] == records@[j],
                forall|j: int| 0 <= j < self.data@.len() && !(offset <= j < offset + i)
                    ==> self.data@[j] == old(self)@.data[j],
            decreases records@.len() - i,
        {
            let v = records[i];
            self.data[offset + i] = v;
            i = i + 1;
        }
        self.cursor = offset + records.len();
        proof {
            assert(self@ =~= spec_upload(old(self)@, records@));
        }
        offset
    }

    /// Reset the cursor to the start of the pool.
    pub fn reset(&mut self)
        ensures
            final(self)@ == (PoolModel { cursor: 0, ..old(self)@ }),
    {
        self.cursor = 0;
        proof {
            assert(self@ =~= (PoolModel { cursor: 0, ..old(self)@ }));
        }
    }

    /// Number of records the device array can hold.
    pub fn capacity(&self) -> (r: usize)
        ensures
            r == self@.data.len(),
    {
        self.data.len()
    }

    /// The write cursor: the offset one past the most recently written
    /// record.
    pub fn cursor(&self) -> (r: usize)
        ensures
            r == self@.cursor,
    {
        self.cursor
    }

    /// Read one record of the mirrored device array.
    pub fn record_at(&self, index: usize) -> (r: Option<Instance>)
        ensures
            match r {
                Some(v) => index < self@.data.len() && v == self@.data[index as int],
                None => index >= self@.data.len(),
            },
    {
        if index < self.data.len() {
            Some(self.data[index])
        } else {
            None
        }
    }
}

} // verus!
