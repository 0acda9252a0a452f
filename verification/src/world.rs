//! The world a query runs on: entities, grouped by archetype and by table.
//!
//! An archetype groups the entities that have the same components. A table groups the entities
//! that have the same components among those that are stored in tables; several archetypes can
//! share one table, when they differ only in sparse components.
use vstd::prelude::*;
use crate::ids::{
    ArchetypeComponentId, ArchetypeGeneration, ArchetypeId, ComponentId, Entity, EntityLocation,
    TableId, WorldId,
};

verus! {

/// What identifies a component: a tag, and whether its values are stored apart from the tables.
#[derive(Clone, Copy, Debug, PartialEq, Eq, Structural)]
pub struct ComponentKey {
    pub tag: u64,
    pub sparse: bool,
}

/// A component of an archetype, with the index under which its access is tracked.
#[derive(Clone, Copy, Debug, PartialEq, Eq, Structural)]
pub struct ArchetypeComponent {
    pub component: ComponentId,
    pub archetype_component: ArchetypeComponentId,
}

/// The components among the entries of an archetype.
pub open spec fn component_set(components: Seq<ArchetypeComponent>) -> Set<ComponentId> {
    Set::new(|c: ComponentId| exists|k: int| has_component_at(components, c, k))
}

pub open spec fn has_component_at(
    components: Seq<ArchetypeComponent>,
    component: ComponentId,
    k: int,
) -> bool {
    0 <= k < components.len() && components[k].component == component
}

/// The position of a component among the entries of an archetype.
pub open spec fn component_position(
    components: Seq<ArchetypeComponent>,
    component: ComponentId,
) -> int {
    choose|k: int| has_component_at(components, component, k)
}

/// The entities that have exactly a given set of components.
pub struct Archetype {
    pub id: ArchetypeId,
    pub table_id: TableId,
    pub components: Vec<ArchetypeComponent>,
    pub entities: Vec<Entity>,
    /// The row in the table of each entity.
    pub rows: Vec<usize>,
}

impl Archetype {
    pub open spec fn component_set(&self) -> Set<ComponentId> {
        component_set(self.components@)
    }

    /// No component occurs twice.
    pub open spec fn distinct_components(&self) -> bool {
        forall|i: int, j: int|
            0 <= i < j < self.components@.len() ==> (#[trigger] self.components@[i]).component != (
            #[trigger] self.components@[j]).component
    }

    /// Each index leaves room for a set of bits one longer.
    pub open spec fn indices_fit(&self) -> bool {
        &&& self.id.0 < usize::MAX
        &&& self.table_id.0 < usize::MAX
        &&& forall|k: int|
            0 <= k < self.components@.len() ==> (
            #[trigger] self.components@[k]).archetype_component.0 < usize::MAX
    }

    pub open spec fn wf(&self) -> bool {
        self.distinct_components() && self.indices_fit()
    }

    /// The parts of an archetype that stay as they are when entities come and go.
    pub open spec fn same_shape(&self, other: Archetype) -> bool {
        &&& self.id == other.id
        &&& self.table_id == other.table_id
        &&& self.components@ == other.components@
    }

    pub fn id(&self) -> (id: ArchetypeId)
        ensures
            id == self.id,
    {
        self.id
    }

    pub fn table_id(&self) -> (id: TableId)
        ensures
            id == self.table_id,
    {
        self.table_id
    }

    /// The number of entities.
    pub fn len(&self) -> (n: usize)
        ensures
            n == self.entities@.len(),
    {
        self.entities.len()
    }

    /// The position of a component, if the archetype has it.
    pub fn position(&self, component: ComponentId) -> (position: Option<usize>)
        ensures
            position is Some <==> self.component_set().contains(component),
            position matches Some(k) ==> has_component_at(self.components@, component, k as int),
            position is Some && self.distinct_components() ==> position->0 == component_position(
                self.components@,
                component,
            ),
    {
        let mut k: usize = 0;
        while k < self.components.len()
            invariant
                k <= self.components@.len(),
                forall|j: int| !(j < k && has_component_at(self.components@, component, j)),
            decreases self.components@.len() - k,
        {
            if self.components[k].component == component {
                assert(has_component_at(self.components@, component, k as int));
                return Some(k);
            }
            k = k + 1;
        }
        None
    }

    /// Whether the archetype has a component.
    pub fn contains(&self, component: ComponentId) -> (b: bool)
        ensures
            b == self.component_set().contains(component),
    {
        self.position(component).is_some()
    }
}

/// The entities that share the components stored in tables.
pub struct Table {
    pub components: Vec<ComponentId>,
    pub entities: Vec<Entity>,
}

impl Table {
    /// The number of rows.
    pub fn len(&self) -> (n: usize)
        ensures
            n == self.entities@.len(),
    {
        self.entities.len()
    }
}

/// The generation of an entity index, and where the entity of that index is, unless there is none.
#[derive(Clone, Copy, Debug, PartialEq, Eq, Structural)]
pub struct EntityMeta {
    pub generation: u32,
    pub location: Option<EntityLocation>,
}

/// One component of one entity, to be read or written through its world.
#[derive(Clone, Copy, Debug, PartialEq, Eq, Structural)]
pub struct ComponentCell {
    pub entity: Entity,
    pub component: ComponentId,
}

/// Entities and the values of their components.
pub struct World<C: 'static> {
    pub id: WorldId,
    pub components: Vec<ComponentKey>,
    pub archetypes: Vec<Archetype>,
    pub tables: Vec<Table>,
    /// By the index of an entity.
    pub entities: Vec<EntityMeta>,
    /// By the index of an entity: the values of its components, in the order of its archetype.
    pub values: Vec<Vec<C>>,
    /// By the index of an entity: the ticks at which those values were last written.
    pub changed: Vec<Vec<u32>>,
    pub archetype_component_count: usize,
    pub last_change_tick: u32,
    pub change_tick: u32,
}

impl<C: 'static> World<C> {
    /// The entries of a table are the components of the archetype that are not sparse.
    pub open spec fn table_fits_archetype(&self, table: Table, archetype: Archetype) -> bool {
        forall|c: ComponentId| #[trigger]
            table.components@.contains(c) <==> archetype.component_set().contains(c)
                && !self.components@[c.0 as int].sparse
    }

    pub open spec fn archetype_shape_wf(&self, a: int) -> bool {
        let archetype = self.archetypes@[a];
        &&& archetype.id.0 == a
        &&& archetype.table_id.0 < self.tables@.len()
        &&& archetype.rows@.len() == archetype.entities@.len()
        &&& archetype.distinct_components()
        &&& forall|k: int| 0 <= k < archetype.components@.len() ==> self.entry_wf(#[trigger] archetype.components@[k])
        &&& self.table_fits_archetype(self.tables@[archetype.table_id.0 as int], archetype)
    }

    pub open spec fn entry_wf(&self, entry: ArchetypeComponent) -> bool {
        &&& entry.component.0 < self.components@.len()
        &&& entry.archetype_component.0 < self.archetype_component_count
    }

    /// The entity at a position of an archetype is located there, and has its row in the table.
    pub open spec fn archetype_row_wf(&self, a: int, k: int) -> bool {
        let archetype = self.archetypes@[a];
        let table = self.tables@[archetype.table_id.0 as int];
        let entity = archetype.entities@[k];
        &&& entity.id < self.entities@.len()
        &&& self.entities@[entity.id as int] == (EntityMeta {
            generation: entity.generation,
            location: Some(EntityLocation { archetype_id: archetype.id, index: k as usize }),
        })
        &&& archetype.rows@[k] < table.entities@.len()
        &&& table.entities@[archetype.rows@[k] as int] == entity
    }

    /// The entity at a row of a table belongs to an archetype of that table, which knows the row.
    pub open spec fn table_row_wf(&self, t: int, r: int) -> bool {
        let entity = self.tables@[t].entities@[r];
        let meta = self.entities@[entity.id as int];
        let archetype = self.archetypes@[meta.location->0.archetype_id.0 as int];
        &&& entity.id < self.entities@.len()
        &&& meta.generation == entity.generation
        &&& meta.location is Some
        &&& archetype.table_id.0 == t
        &&& archetype.rows@[meta.location->0.index as int] == r
    }

    /// The entity of an index, if there is one, stands at its location, with a value and a tick for
    /// each component.
    pub open spec fn entity_wf(&self, i: int) -> bool {
        let meta = self.entities@[i];
        meta.location matches Some(location) ==> {
            let archetype = self.archetypes@[location.archetype_id.0 as int];
            &&& location.archetype_id.0 < self.archetypes@.len()
            &&& location.index < archetype.entities@.len()
            &&& archetype.entities@[location.index as int] == (Entity {
                id: i as u32,
                generation: meta.generation,
            })
            &&& self.values@[i]@.len() == archetype.components@.len()
            &&& self.changed@[i]@.len() == archetype.components@.len()
        }
    }

    /// The entities, archetypes and tables agree with each other.
    pub open spec fn wf(&self) -> bool {
        &&& self.entities@.len() == self.values@.len()
        &&& self.entities@.len() == self.changed@.len()
        &&& self.entities@.len() <= u32::MAX + 1
        &&& forall|i: int, j: int|
            0 <= i < j < self.components@.len() ==> #[trigger] self.components@[i]
                != #[trigger] self.components@[j]
        &&& forall|a: int| 0 <= a < self.archetypes@.len() ==> #[trigger] self.archetype_shape_wf(a)
        &&& forall|a: int, k: int|
            0 <= a < self.archetypes@.len() && 0 <= k < self.archetypes@[a].entities@.len()
                ==> #[trigger] self.archetype_row_wf(a, k)
        &&& forall|t: int, r: int|
            0 <= t < self.tables@.len() && 0 <= r < self.tables@[t].entities@.len()
                ==> #[trigger] self.table_row_wf(t, r)
        &&& forall|i: int| 0 <= i < self.entities@.len() ==> #[trigger] self.entity_wf(i)
    }

    /// This world is `earlier` after entities, archetypes, tables or components were added.
    pub open spec fn later_than(&self, earlier: World<C>) -> bool {
        &&& self.id == earlier.id
        &&& earlier.components@.is_prefix_of(self.components@)
        &&& earlier.archetypes@.len() <= self.archetypes@.len()
        &&& forall|a: int|
            0 <= a < earlier.archetypes@.len() ==> (#[trigger] self.archetypes@[a]).same_shape(
                earlier.archetypes@[a],
            )
    }

    /// Everything but the registry of components is the same.
    pub open spec fn same_but_components(&self, other: World<C>) -> bool {
        &&& self.id == other.id
        &&& self.archetypes == other.archetypes
        &&& self.tables == other.tables
        &&& self.entities == other.entities
        &&& self.values == other.values
        &&& self.changed == other.changed
        &&& self.archetype_component_count == other.archetype_component_count
        &&& self.last_change_tick == other.last_change_tick
        &&& self.change_tick == other.change_tick
    }

    /// Everything but the values and the ticks at which they were written is the same.
    pub open spec fn same_but_values(&self, other: World<C>) -> bool {
        &&& self.id == other.id
        &&& self.components == other.components
        &&& self.archetypes == other.archetypes
        &&& self.tables == other.tables
        &&& self.entities == other.entities
        &&& self.archetype_component_count == other.archetype_component_count
        &&& self.last_change_tick == other.last_change_tick
        &&& self.change_tick == other.change_tick
    }

    /// Where an entity is, if it exists.
    pub open spec fn locate(&self, entity: Entity) -> Option<EntityLocation> {
        if entity.id < self.entities@.len() && self.entities@[entity.id as int].generation
            == entity.generation {
            self.entities@[entity.id as int].location
        } else {
            None
        }
    }

    /// Whether an entity exists and has a component.
    pub open spec fn has(&self, cell: ComponentCell) -> bool {
        match self.locate(cell.entity) {
            Some(location) => self.archetypes@[location.archetype_id.0 as int].component_set().contains(
                cell.component,
            ),
            None => false,
        }
    }

    /// The position of a cell among the values of its entity.
    pub open spec fn cell_position(&self, cell: ComponentCell) -> int {
        let location = self.entities@[cell.entity.id as int].location->0;
        component_position(
            self.archetypes@[location.archetype_id.0 as int].components@,
            cell.component,
        )
    }

    /// The value of a component of an entity.
    pub open spec fn value(&self, cell: ComponentCell) -> C {
        self.values@[cell.entity.id as int]@[self.cell_position(cell)]
    }

    /// The tick at which a component of an entity was last written.
    pub open spec fn changed_tick(&self, cell: ComponentCell) -> u32 {
        self.changed@[cell.entity.id as int]@[self.cell_position(cell)]
    }

    /// A world that holds no entity. It has one archetype and one table, those without components.
    pub fn new(id: WorldId) -> (world: World<C>)
        ensures
            world.wf(),
            world.id == id,
            world.components@.len() == 0,
            world.entities@.len() == 0,
            world.archetypes@.len() == 1,
            world.archetypes@[0].id == ArchetypeId(0),
            world.archetypes@[0].table_id == TableId(0),
            world.archetypes@[0].components@.len() == 0,
            world.archetypes@[0].entities@.len() == 0,
            world.tables@.len() == 1,
            world.tables@[0].components@.len() == 0,
            world.tables@[0].entities@.len() == 0,
            world.archetype_component_count == 0,
            world.last_change_tick == 0,
            world.change_tick == 1,
    {
        let mut archetypes = Vec::new();
        archetypes.push(
            Archetype {
                id: ArchetypeId(0),
                table_id: TableId(0),
                components: Vec::new(),
                entities: Vec::new(),
                rows: Vec::new(),
            },
        );
        let mut tables = Vec::new();
        tables.push(Table { components: Vec::new(), entities: Vec::new() });
        World {
            id,
            components: Vec::new(),
            archetypes,
            tables,
            entities: Vec::new(),
            values: Vec::new(),
            changed: Vec::new(),
            archetype_component_count: 0,
            last_change_tick: 0,
            change_tick: 1,
        }
    }

    pub fn id(&self) -> (id: WorldId)
        ensures
            id == self.id,
    {
        self.id
    }

    pub fn last_change_tick(&self) -> (tick: u32)
        ensures
            tick == self.last_change_tick,
    {
        self.last_change_tick
    }

    pub fn read_change_tick(&self) -> (tick: u32)
        ensures
            tick == self.change_tick,
    {
        self.change_tick
    }

    /// How many archetypes there are.
    pub fn archetype_generation(&self) -> (generation: ArchetypeGeneration)
        ensures
            generation.0 == self.archetypes@.len(),
    {
        ArchetypeGeneration(self.archetypes.len())
    }

    /// Where an entity is, if it exists.
    pub fn location(&self, entity: Entity) -> (location: Option<EntityLocation>)
        ensures
            location == self.locate(entity),
    {
        let i = entity.id as usize;
        if i < self.entities.len() && self.entities[i].generation == entity.generation {
            self.entities[i].location
        } else {
            None
        }
    }
}

} // verus!
