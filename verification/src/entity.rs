//! Entity handles: globally unique, opaque 128-bit identifiers, never
//! reused, assigned by the control thread to any spawned logical object. An
//! entity has no attributes of its own; it is only a join key into the
//! component stores.

use vstd::prelude::*;
use crate::records::TransformRecord;

verus! {

/// Relies on `uuid::Uuid::new_v4` (and `Uuid::as_u128`): a freshly
/// generated random version-4 identifier. The result depends on a random
/// number source, so nothing is promised of it.
#[verifier::external_body]
pub fn new_entity_key() -> u128 {
    uuid::Uuid::new_v4().as_u128()
}

/// A logical spawned object as the control thread tracks it: its unique
/// key, its current transform and an optional label.
pub struct Entity {
    id: u128,
    transform: TransformRecord,
    label: Option<String>,
}

impl Entity {
    /// Spawn a new entity under a fresh random key.
    pub fn new(transform: TransformRecord, label: Option<String>) -> (r: Self)
        ensures
            r.transform() == transform,
            r.label() == label,
    {
        Entity { id: new_entity_key(), transform, label }
    }

    /// The entity's unique key.
    pub fn id(&self) -> (r: u128)
        ensures
            r == self.spec_id(),
    {
        self.id
    }

    /// The key, for specifications.
    pub closed spec fn spec_id(&self) -> u128 {
        self.id
    }

    /// The current transform, for specifications.
    pub closed spec fn transform(&self) -> TransformRecord {
        self.transform
    }

    /// The label, for specifications.
    pub closed spec fn label(&self) -> Option<String> {
        self.label
    }

    /// The current transform.
    pub fn get_transform(&self) -> (r: &TransformRecord)
        ensures
            *r == self.transform(),
    {
        &self.transform
    }

    /// The optional label.
    pub fn get_label(&self) -> (r: &Option<String>)
        ensures
            *r == self.label(),
    {
        &self.label
    }

    /// Replace the transform.
    pub fn set_transform(&mut self, transform: TransformRecord)
        ensures
            final(self).transform() == transform,
            final(self).spec_id() == old(self).spec_id(),
            final(self).label() == old(self).label(),
    {
        self.transform = transform;
    }
}

} // verus!
