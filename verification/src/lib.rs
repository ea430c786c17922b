pub mod custom_errors;
pub mod entities;
pub mod resources;

use crate::custom_errors::CustomError;
use crate::entities::query::Query;
use crate::entities::{spec_attach, spec_create, spec_delete, spec_detach, spec_register};
use crate::entities::{Entities, EntitiesView};
use crate::resources::Resources;
use vstd::prelude::*;

verus! {

/// Mathematical model of a world: the registry model plus the resource
/// map.
#[verifier::ext_equal]
#[verifier::reject_recursive_types(T)]
pub struct WorldView<T> {
    pub entities: EntitiesView<T>,
    pub resources: Map<u64, T>,
}

/// The facade wiring the component registry and the resource store
/// together. Component types and resource types are both named by caller
/// chosen `u64` keys, distinct per type.
#[verifier::reject_recursive_types(T)]
pub struct World<T> {
    pub(crate) entities: Entities<T>,
    pub(crate) resources: Resources<T>,
}

impl<T> View for World<T> {
    type V = WorldView<T>;

    open(crate) spec fn view(&self) -> WorldView<T> {
        WorldView { entities: self.entities@, resources: self.resources@ }
    }
}

impl<T> World<T> {
    /// Both halves well-formed.
    pub open(crate) spec fn wf(&self) -> bool {
        &&& self.entities@.wf()
        &&& self.resources.wf()
    }

    /// An empty world: no registered types, no entity slots, no
    /// resources.
    pub fn new() -> (r: Self)
        ensures
            r.wf(),
            r@.entities.types == Seq::<u64>::empty(),
            r@.entities.cols == Seq::<Seq<Option<T>>>::empty(),
            r@.entities.masks == Seq::<u32>::empty(),
            r@.entities.cursor == 0,
            r@.resources == Map::<u64, T>::empty(),
    {
        World { entities: Entities::new(), resources: Resources::new() }
    }

    /// Adds a resource under `type_key`, replacing any previous value of
    /// that type (last write wins).
    pub fn add_resource(&mut self, type_key: u64, data: T)
        requires
            old(self).wf(),
        ensures
            final(self).wf(),
            final(self)@.resources == old(self)@.resources.insert(type_key, data),
            final(self)@.entities == old(self)@.entities,
    {
        self.resources.add(type_key, data)
    }

    /// A shared reference to the resource stored under `type_key`, if
    /// any.
    pub fn get_resource(&self, type_key: u64) -> (r: Option<&T>)
        requires
            self.wf(),
        ensures
            match r {
                Some(v) => self@.resources.contains_key(type_key) && *v
                    == self@.resources[type_key],
                None => !self@.resources.contains_key(type_key),
            },
    {
        self.resources.get_ref(type_key)
    }

    /// An exclusive reference to the resource stored under `type_key`, if
    /// any; the store afterwards holds whatever the caller leaves behind
    /// the reference.
    pub fn get_resource_mut(&mut self, type_key: u64) -> (r: Option<&mut T>)
        requires
            old(self).wf(),
        ensures
            final(self).wf(),
            final(self)@.entities == old(self)@.entities,
            match r {
                Some(v) => old(self)@.resources.contains_key(type_key) && *v == old(self)@.resources[type_key] && final(self)@.resources == old(self)@.resources.insert(
                    type_key,
                    *final(v),
                ),
                None => !old(self)@.resources.contains_key(type_key) && final(self)@ == old(self)@,
            },
    {
        self.resources.get_mut(type_key)
    }

    /// Removes and returns the resource stored under `type_key`, or
    /// `None` when no value of that type was present.
    pub fn remove_resource(&mut self, type_key: u64) -> (r: Option<T>)
        requires
            old(self).wf(),
        ensures
            final(self).wf(),
            final(self)@.entities == old(self)@.entities,
            match r {
                Some(v) => old(self)@.resources.contains_key(type_key) && v == old(self)@.resources[type_key] && final(self)@.resources == old(self)@.resources.remove(
                    type_key,
                ),
                None => !old(self)@.resources.contains_key(type_key) && final(self)@ == old(self)@,
            },
    {
        self.resources.remove(type_key)
    }

    /// Idempotent component-type registration; see
    /// `Entities::register_component`.
    pub fn register_component(&mut self, type_key: u64)
        requires
            old(self).wf(),
        ensures
            final(self).wf(),
            final(self)@.entities == spec_register(old(self)@.entities, type_key),
            final(self)@.resources == old(self)@.resources,
    {
        self.entities.register_component(type_key)
    }

    /// Allocates an entity slot (reuse-or-append; see
    /// `Entities::create_entity`) and hands back the registry for
    /// chained component attachment to the new slot.
    pub fn create_entity(&mut self) -> (r: &mut Entities<T>)
        requires
            old(self).wf(),
        ensures
            r@ == spec_create(old(self)@.entities),
            r@.wf(),
            final(self)@.entities == final(r)@,
            final(self)@.resources == old(self)@.resources,
    {
        self.entities.create_entity();
        &mut self.entities
    }

    /// A fresh query against the current registry snapshot.
    pub fn query<'a>(&'a self) -> (q: Query<'a, T>)
        requires
            self.wf(),
        ensures
            q@.wf(),
            q@.mask == 0,
            q@.type_ids == Seq::<u64>::empty(),
            q@.entities == self@.entities,
    {
        Query::new(&self.entities)
    }

    /// Toggle-detaches component type `type_key` from slot `id`; see
    /// `Entities::delete_component_by_entity_id`.
    pub fn delete_component_by_entity_id(&mut self, type_key: u64, id: usize) -> (r: Result<
        (),
        CustomError,
    >)
        requires
            old(self).wf(),
            old(self)@.entities.registered(type_key) ==> id < old(self)@.entities.masks.len(),
        ensures
            final(self).wf(),
            final(self)@.resources == old(self)@.resources,
            old(self)@.entities.registered(type_key) ==> r == Ok::<(), CustomError>(()) && final(self)@.entities == spec_detach(old(self)@.entities, type_key, id as int),
            !old(self)@.entities.registered(type_key) ==> r == Err::<(), CustomError>(
                CustomError::ComponentNotRegistered,
            ) && final(self)@ == old(self)@,
    {
        self.entities.delete_component_by_entity_id(type_key, id)
    }

    /// Attaches `component` to the explicitly named slot `id`; see
    /// `Entities::add_component_by_entity_id`.
    pub fn add_component_to_entity_by_id(&mut self, id: usize, type_key: u64, component: T) -> (r:
        Result<(), CustomError>)
        requires
            old(self).wf(),
            old(self)@.entities.registered(type_key) ==> id < old(self)@.entities.masks.len(),
        ensures
            final(self).wf(),
            final(self)@.resources == old(self)@.resources,
            old(self)@.entities.registered(type_key) ==> r == Ok::<(), CustomError>(()) && final(self)@.entities == spec_attach(old(self)@.entities, type_key, component, id as int),
            !old(self)@.entities.registered(type_key) ==> r == Err::<(), CustomError>(
                CustomError::ComponentNotRegistered,
            ) && final(self)@ == old(self)@,
    {
        self.entities.add_component_by_entity_id(id, type_key, component)
    }

    /// Marks slot `id` deleted by zeroing its presence mask; see
    /// `Entities::delete_by_id`.
    pub fn delete_entity_by_id(&mut self, id: usize) -> (r: Result<(), CustomError>)
        requires
            old(self).wf(),
        ensures
            final(self).wf(),
            final(self)@.resources == old(self)@.resources,
            id < old(self)@.entities.masks.len() ==> r == Ok::<(), CustomError>(()) && final(self)@.entities == spec_delete(old(self)@.entities, id as int),
            id >= old(self)@.entities.masks.len() ==> r == Err::<(), CustomError>(
                CustomError::EntityDoesNotExist,
            ) && final(self)@ == old(self)@,
    {
        self.entities.delete_by_id(id)
    }
}

} // verus!
