use vstd::prelude::*;

verus! {

/// A generational handle to an entity in a [`World`](super::World).
///
/// Reusing an entity index changes its generation, so a handle to a despawned
/// entity never starts referring to a newly spawned entity by accident.
#[derive(Clone, Copy, PartialEq, Eq, Structural, PartialOrd, Ord, Hash, Debug)]
pub struct Entity {
    pub index: u32,
    pub generation: u32,
}

/// Strict order of handles: by index, then by generation.
pub open spec fn entity_lt(a: Entity, b: Entity) -> bool {
    a.index < b.index || (a.index == b.index && a.generation < b.generation)
}

impl Entity {
    /// Builds a handle from its raw parts.
    pub fn new(index: u32, generation: u32) -> (e: Self)
        ensures
            e.index == index,
            e.generation == generation,
    {
        Self { index, generation }
    }

    /// Returns the entity's densely allocated index.
    pub fn index(self) -> (r: u32)
        ensures
            r == self.index,
    {
        self.index
    }

    /// Returns the generation associated with this handle.
    pub fn generation(self) -> (r: u32)
        ensures
            r == self.generation,
    {
        self.generation
    }

    /// Compares two handles in ascending index/generation order.
    pub fn precedes(self, other: Entity) -> (r: bool)
        ensures
            r == entity_lt(self, other),
    {
        self.index < other.index || (self.index == other.index && self.generation
            < other.generation)
    }
}

} // verus!
