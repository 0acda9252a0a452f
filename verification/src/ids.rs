//! Identifiers of the things a world holds.
use vstd::prelude::*;

verus! {

/// Names one world; two worlds that are alive together have different ids.
#[derive(Clone, Copy, Debug, PartialEq, Eq, Structural)]
pub struct WorldId(pub u64);

/// Index of a component in the registry of its world.
#[derive(Clone, Copy, Debug, PartialEq, Eq, Structural)]
pub struct ComponentId(pub usize);

/// Index of one component within one archetype.
///
/// Access is tracked per such pair, so that two queries on the same component can be told apart
/// where they never meet in an archetype.
#[derive(Clone, Copy, Debug, PartialEq, Eq, Structural)]
pub struct ArchetypeComponentId(pub usize);

/// Index of an archetype in its world.
#[derive(Clone, Copy, Debug, PartialEq, Eq, Structural)]
pub struct ArchetypeId(pub usize);

impl ArchetypeId {
    pub fn new(index: usize) -> (id: ArchetypeId)
        ensures
            id == ArchetypeId(index),
    {
        ArchetypeId(index)
    }

    pub fn index(self) -> (index: usize)
        ensures
            index == self.0,
    {
        self.0
    }
}

/// How many archetypes a world had at some moment.
///
/// Archetypes are never removed, so the archetypes between two generations are the ones that were
/// added in between.
#[derive(Clone, Copy, Debug, PartialEq, Eq, Structural)]
pub struct ArchetypeGeneration(pub usize);

impl ArchetypeGeneration {
    pub fn initial() -> (generation: ArchetypeGeneration)
        ensures
            generation == ArchetypeGeneration(0),
    {
        ArchetypeGeneration(0)
    }

    pub fn value(self) -> (value: usize)
        ensures
            value == self.0,
    {
        self.0
    }
}

/// Index of a table in its world.
#[derive(Clone, Copy, Debug, PartialEq, Eq, Structural)]
pub struct TableId(pub usize);

impl TableId {
    pub fn index(self) -> (index: usize)
        ensures
            index == self.0,
    {
        self.0
    }
}

/// An entity of a world: an index, and a generation that tells apart the entities that have had
/// that index.
#[derive(Clone, Copy, Debug, PartialEq, Eq, Structural)]
pub struct Entity {
    pub id: u32,
    pub generation: u32,
}

impl Entity {
    /// The entity of the first generation at an index.
    pub fn from_raw(id: u32) -> (entity: Entity)
        ensures
            entity == (Entity { id, generation: 0 }),
    {
        Entity { id, generation: 0 }
    }
}

/// Where an entity is stored: its archetype, and its position there.
#[derive(Clone, Copy, Debug, PartialEq, Eq, Structural)]
pub struct EntityLocation {
    pub archetype_id: ArchetypeId,
    pub index: usize,
}

} // verus!
