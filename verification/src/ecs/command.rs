use vstd::prelude::*;

use super::builtin::Name;
use super::entity::Entity;
use super::allocator::EntityAllocator;
use super::world::World;
use crate::ui::{UiButton, UiNode, UiText};

verus! {

/// The kind of structural operation that failed during deferred application.
#[derive(Clone, Copy, Debug, PartialEq, Eq, Structural)]
pub enum DeferredOperation {
    Spawn,
    Insert,
    Despawn,
}

/// A structured failure produced while applying a deferred ECS command.
#[derive(Clone, Copy, Debug, PartialEq, Eq, Structural)]
pub struct DeferredCommandError {
    pub entity: Entity,
    pub operation: DeferredOperation,
}

impl DeferredCommandError {
    pub fn new(entity: Entity, operation: DeferredOperation) -> (r: Self)
        ensures
            r == (DeferredCommandError { entity, operation }),
    {
        Self { entity, operation }
    }

    /// Returns the entity targeted by the failed command.
    pub fn entity(self) -> (r: Entity)
        ensures
            r == self.entity,
    {
        self.entity
    }

    /// Returns the operation that failed.
    pub fn operation(self) -> (r: DeferredOperation)
        ensures
            r == self.operation,
    {
        self.operation
    }
}

/// One component of a bundle.
pub enum BundleItem<C> {
    Name(Name),
    Node(UiNode),
    Text(UiText),
    Button(UiButton),
    Component(u32, C),
}

/// The value of the last component of kind `kind` in a bundle.
pub open spec fn last_component<C>(items: Seq<BundleItem<C>>, kind: u32) -> Option<C>
    decreases items.len(),
{
    if items.len() == 0 {
        None
    } else {
        match items.last() {
            BundleItem::Component(k, v) => if k == kind {
                Some(v)
            } else {
                last_component(items.drop_last(), kind)
            },
            _ => last_component(items.drop_last(), kind),
        }
    }
}

/// The last name of a bundle.
pub open spec fn last_name<C>(items: Seq<BundleItem<C>>) -> Option<Name>
    decreases items.len(),
{
    if items.len() == 0 {
        None
    } else {
        match items.last() {
            BundleItem::Name(n) => Some(n),
            _ => last_name(items.drop_last()),
        }
    }
}

/// The last UI node of a bundle.
pub open spec fn last_node<C>(items: Seq<BundleItem<C>>) -> Option<UiNode>
    decreases items.len(),
{
    if items.len() == 0 {
        None
    } else {
        match items.last() {
            BundleItem::Node(n) => Some(n),
            _ => last_node(items.drop_last()),
        }
    }
}

/// The last UI text of a bundle.
pub open spec fn last_text<C>(items: Seq<BundleItem<C>>) -> Option<UiText>
    decreases items.len(),
{
    if items.len() == 0 {
        None
    } else {
        match items.last() {
            BundleItem::Text(t) => Some(t),
            _ => last_text(items.drop_last()),
        }
    }
}

/// The last UI button of a bundle.
pub open spec fn last_button<C>(items: Seq<BundleItem<C>>) -> Option<UiButton>
    decreases items.len(),
{
    if items.len() == 0 {
        None
    } else {
        match items.last() {
            BundleItem::Button(b) => Some(b),
            _ => last_button(items.drop_last()),
        }
    }
}

/// A structural change waiting for the next synchronization point.
pub enum DeferredCommand<C> {
    Activate(Entity),
    Insert(Entity, Vec<BundleItem<C>>),
    Despawn(Entity),
}

/// Queues structural world changes for the next synchronization point.
///
/// A reserved entity handle is returned by [`spawn`](Self::spawn) immediately,
/// but the entity and its components are not visible until the commands are
/// applied by [`World::apply_deferred`].
pub struct Commands<'w, C> {
    pub world: &'w mut World<C>,
}

impl<'w, C> Commands<'w, C> {
    /// Reserves an entity and queues its activation.
    pub fn spawn(&mut self) -> (e: Entity)
        requires
            old(self).world.wf(),
            old(self).world.allocator_view().can_allocate(),
        ensures
            final(self).world.wf(),
            *final(final(self).world) == *final(old(self).world),
            EntityAllocator::allocated(
                old(self).world.allocator_view(),
                final(self).world.allocator_view(),
                e,
                true,
            ),
            final(self).world.pending() == old(self).world.pending().push(DeferredCommand::Activate(e)),
            World::same_components(*old(self).world, *final(self).world),
            World::same_builtins(*old(self).world, *final(self).world),
            World::same_resources(*old(self).world, *final(self).world),
    {
        let e = self.world.reserve_entity();
        self.world.push_command(DeferredCommand::Activate(e));
        e
    }

    /// Reserves an entity and queues its activation and initial bundle.
    pub fn spawn_with(&mut self, items: Vec<BundleItem<C>>) -> (e: Entity)
        requires
            old(self).world.wf(),
            old(self).world.allocator_view().can_allocate(),
        ensures
            final(self).world.wf(),
            *final(final(self).world) == *final(old(self).world),
            EntityAllocator::allocated(
                old(self).world.allocator_view(),
                final(self).world.allocator_view(),
                e,
                true,
            ),
            final(self).world.pending() == old(self).world.pending().push(DeferredCommand::Activate(e)).push(DeferredCommand::Insert(e, items)),
            World::same_components(*old(self).world, *final(self).world),
            World::same_builtins(*old(self).world, *final(self).world),
            World::same_resources(*old(self).world, *final(self).world),
    {
        let e = self.spawn();
        self.world.push_command(DeferredCommand::Insert(e, items));
        e
    }

    /// Queues insertion or replacement of a component.
    pub fn insert(&mut self, entity: Entity, kind: u32, component: C)
        requires
            old(self).world.wf(),
        ensures
            final(self).world.wf(),
            *final(final(self).world) == *final(old(self).world),
            final(self).world.pending().len() == old(self).world.pending().len() + 1,
            final(self).world.pending().drop_last() == old(self).world.pending(),
            final(self).world.pending().last() matches DeferredCommand::Insert(e, items)
                && e == entity && items@ == seq![BundleItem::Component(kind, component)],
            final(self).world.allocator_view() == old(self).world.allocator_view(),
            World::same_components(*old(self).world, *final(self).world),
            World::same_builtins(*old(self).world, *final(self).world),
            World::same_resources(*old(self).world, *final(self).world),
    {
        let mut items: Vec<BundleItem<C>> = Vec::new();
        items.push(BundleItem::Component(kind, component));
        self.world.push_command(DeferredCommand::Insert(entity, items));
    }

    /// Queues a bundle as one insertion operation. Components are inserted in
    /// order; an entity that is not alive then produces one error and no
    /// component is inserted.
    pub fn insert_bundle(&mut self, entity: Entity, items: Vec<BundleItem<C>>)
        requires
            old(self).world.wf(),
        ensures
            final(self).world.wf(),
            *final(final(self).world) == *final(old(self).world),
            final(self).world.pending() == old(self).world.pending().push(DeferredCommand::Insert(entity, items)),
            final(self).world.allocator_view() == old(self).world.allocator_view(),
            World::same_components(*old(self).world, *final(self).world),
            World::same_builtins(*old(self).world, *final(self).world),
            World::same_resources(*old(self).world, *final(self).world),
    {
        self.world.push_command(DeferredCommand::Insert(entity, items));
    }

    /// Queues an entity for despawning.
    pub fn despawn(&mut self, entity: Entity)
        requires
            old(self).world.wf(),
        ensures
            final(self).world.wf(),
            *final(final(self).world) == *final(old(self).world),
            final(self).world.pending() == old(self).world.pending().push(DeferredCommand::Despawn(entity)),
            final(self).world.allocator_view() == old(self).world.allocator_view(),
            World::same_components(*old(self).world, *final(self).world),
            World::same_builtins(*old(self).world, *final(self).world),
            World::same_resources(*old(self).world, *final(self).world),
    {
        self.world.push_command(DeferredCommand::Despawn(entity));
    }
}


} // verus!
