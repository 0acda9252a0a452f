//! What a world says of its entities and their components, entry by entry.
use vstd::prelude::*;
use crate::fetch::{Place, Slot};
use crate::ids::{ComponentId, Entity, EntityLocation};
use crate::populate::numbered;
use crate::world::{Archetype, ComponentCell, EntityMeta, World};

verus! {

/// An archetype has a component just when one of its entries is of that component.
pub proof fn components_are_the_entries(archetype: Archetype, component: ComponentId)
    ensures
        archetype.component_set().contains(component) <==> exists|k: int|
            0 <= k < archetype.components@.len() && (
            #[trigger] archetype.components@[k]).component == component,
{
    if exists|k: int|
        0 <= k < archetype.components@.len() && (#[trigger] archetype.components@[k]).component
            == component {
        let k = choose|k: int|
            0 <= k < archetype.components@.len() && (
            #[trigger] archetype.components@[k]).component == component;
        assert(crate::world::has_component_at(archetype.components@, component, k));
    }
    if archetype.component_set().contains(component) {
        let k = choose|k: int|
            crate::world::has_component_at(archetype.components@, component, k);
        assert(archetype.components@[k].component == component);
    }
}

/// The entries of an archetype are of its components in order, and are numbered on from the first.
pub proof fn entries_are_numbered_on(components: Seq<ComponentId>, first: int, k: int)
    requires
        0 <= first,
        first + components.len() <= usize::MAX,
    ensures
        numbered(components, first).len() == components.len(),
        0 <= k < components.len() ==> numbered(components, first)[k].component == components[k]
            && numbered(components, first)[k].archetype_component.0 == first + k,
{
}

impl<C: 'static> World<C> {
    /// An entity exists where the index has its generation and a location, and that is where it is.
    pub proof fn located_by_index(&self, entity: Entity, location: EntityLocation)
        ensures
            self.locate(entity) == Some(location) <==> entity.id < self.entities@.len()
                && self.entities@[entity.id as int] == (EntityMeta {
                generation: entity.generation,
                location: Some(location),
            }),
    {
    }

    /// An entity is located just where it stands.
    pub proof fn located_where_it_stands(&self, entity: Entity, location: EntityLocation)
        requires
            self.wf(),
        ensures
            self.locate(entity) == Some(location) <==> location.archetype_id.0
                < self.archetypes@.len() && location.index < self.archetypes@[location.archetype_id.0 as int].entities@.len()
                && self.archetypes@[location.archetype_id.0 as int].entities@[location.index as int]
                == entity,
    {
        let a = location.archetype_id.0 as int;
        if self.locate(entity) == Some(location) {
            assert(self.entity_wf(entity.id as int));
        }
        if a < self.archetypes@.len() && location.index < self.archetypes@[a].entities@.len()
            && self.archetypes@[a].entities@[location.index as int] == entity {
            assert(self.archetype_row_wf(a, location.index as int));
            assert(self.archetype_shape_wf(a));
        }
    }

    /// An entity has the components of its archetype, and the value and the tick of each are those
    /// of its entry.
    pub proof fn cell_is_of_its_entry(&self, entity: Entity, location: EntityLocation, k: int)
        requires
            self.wf(),
            self.locate(entity) == Some(location),
            0 <= k < self.archetypes@[location.archetype_id.0 as int].components@.len(),
        ensures
            ({
                let entry = self.archetypes@[location.archetype_id.0 as int].components@[k];
                let cell = ComponentCell { entity, component: entry.component };
                &&& self.has(cell)
                &&& self.value(cell) == self.values@[entity.id as int]@[k]
                &&& self.changed_tick(cell) == self.changed@[entity.id as int]@[k]
            }),
    {
        assert(self.entity_wf(entity.id as int));
        let a = location.archetype_id.0 as int;
        assert(self.archetype_shape_wf(a));
        let component = self.archetypes@[a].components@[k].component;
        let components = self.archetypes@[a].components@;
        assert(crate::world::has_component_at(components, component, k));
        let p = crate::world::component_position(components, component);
        assert(crate::world::has_component_at(components, component, p));
        if p < k {
            assert(components[p].component != components[k].component);
        }
        if k < p {
            assert(components[k].component != components[p].component);
        }
    }

    /// An entity that does not exist has no component, nor has one that does any that is not among
    /// the entries of its archetype.
    pub proof fn no_other_cells(&self, cell: ComponentCell)
        ensures
            self.has(cell) <==> match self.locate(cell.entity) {
                None => false,
                Some(location) => exists|k: int|
                    0 <= k < self.archetypes@[location.archetype_id.0 as int].components@.len() && (
                    #[trigger] self.archetypes@[location.archetype_id.0 as int].components@[k]).component
                        == cell.component,
            },
    {
        if let Some(location) = self.locate(cell.entity) {
            components_are_the_entries(
                self.archetypes@[location.archetype_id.0 as int],
                cell.component,
            );
        }
    }

    /// The rows of a table are its entities in order, and so are those of an archetype.
    pub proof fn rows_are_the_entities(&self, slot: Slot)
        ensures
            self.has_slot(slot) <==> match slot.place {
                Place::Table(table) => table.0 < self.tables@.len() && slot.row
                    < self.tables@[table.0 as int].entities@.len(),
                Place::Archetype(archetype) => archetype.0 < self.archetypes@.len() && slot.row
                    < self.archetypes@[archetype.0 as int].entities@.len(),
            },
            self.entity_at(slot) == match slot.place {
                Place::Table(table) => self.tables@[table.0 as int].entities@[slot.row as int],
                Place::Archetype(archetype) => {
                    self.archetypes@[archetype.0 as int].entities@[slot.row as int]
                },
            },
            self.entities_at(slot.place) == match slot.place {
                Place::Table(table) => self.tables@[table.0 as int].entities@,
                Place::Archetype(archetype) => self.archetypes@[archetype.0 as int].entities@,
            },
    {
    }

    /// The row of an entity is the one in its archetype.
    pub proof fn row_is_where_it_stands(&self, entity: Entity, location: EntityLocation)
        requires
            self.wf(),
            self.locate(entity) == Some(location),
        ensures
            self.row_of(entity) == (Slot {
                place: Place::Archetype(location.archetype_id),
                row: location.index,
            }),
            self.entity_at(self.row_of(entity)) == entity,
    {
        assert(self.entity_wf(entity.id as int));
    }

    /// A world that is the same but for its registry of components has the same of everything else.
    pub proof fn same_apart_from_components(&self, other: World<C>)
        requires
            self.same_but_components(other),
        ensures
            self.id == other.id,
            self.archetypes == other.archetypes,
            self.tables == other.tables,
            self.entities == other.entities,
            self.values == other.values,
            self.changed == other.changed,
            self.archetype_component_count == other.archetype_component_count,
            self.last_change_tick == other.last_change_tick,
            self.change_tick == other.change_tick,
    {
    }

    /// A world that is the same but for its values has the same of everything else.
    pub proof fn same_apart_from_values(&self, other: World<C>)
        requires
            self.same_but_values(other),
        ensures
            self.id == other.id,
            self.components == other.components,
            self.archetypes == other.archetypes,
            self.tables == other.tables,
            self.entities == other.entities,
            self.archetype_component_count == other.archetype_component_count,
            self.last_change_tick == other.last_change_tick,
            self.change_tick == other.change_tick,
    {
    }

    /// A later world has all the components and archetypes of the earlier one, in their places.
    pub proof fn later_has_the_earlier(&self, earlier: World<C>, c: int, a: int)
        requires
            self.later_than(earlier),
        ensures
            self.id == earlier.id,
            0 <= c < earlier.components@.len() ==> c < self.components@.len()
                && self.components@[c] == earlier.components@[c],
            0 <= a < earlier.archetypes@.len() ==> a < self.archetypes@.len()
                && self.archetypes@[a].id == earlier.archetypes@[a].id
                && self.archetypes@[a].table_id == earlier.archetypes@[a].table_id
                && self.archetypes@[a].components@ == earlier.archetypes@[a].components@,
    {
        if 0 <= a < earlier.archetypes@.len() {
            assert(self.archetypes@[a].same_shape(earlier.archetypes@[a]));
        }
    }

    /// Writing replaces the value of one entry and notes the tick for it. All other entries of all
    /// entities keep their values and ticks.
    pub proof fn written_at_one_entry(
        &self,
        before: World<C>,
        cell: ComponentCell,
        value: C,
        entity: Entity,
        location: EntityLocation,
        k: int,
    )
        requires
            before.wf(),
            self.wf(),
            before.has(cell),
            self.written(before, cell, value),
            before.locate(entity) == Some(location),
            0 <= k < before.archetypes@[location.archetype_id.0 as int].components@.len(),
        ensures
            self.locate(entity) == Some(location),
            ({
                let component = before.archetypes@[location.archetype_id.0 as int].components@[k].component;
                if entity == cell.entity && component == cell.component {
                    &&& self.values@[entity.id as int]@[k] == value
                    &&& self.changed@[entity.id as int]@[k] == before.change_tick
                } else {
                    &&& self.values@[entity.id as int]@[k] == before.values@[entity.id as int]@[k]
                    &&& self.changed@[entity.id as int]@[k] == before.changed@[entity.id as int]@[k]
                }
            }),
    {
        before.cell_is_of_its_entry(entity, location, k);
        self.cell_is_of_its_entry(entity, location, k);
        let component = before.archetypes@[location.archetype_id.0 as int].components@[k].component;
        let other = ComponentCell { entity, component };
        if other != cell {
            assert(self.value(other) == before.value(other));
            assert(self.changed_tick(other) == before.changed_tick(other));
        }
    }
}

} // verus!
