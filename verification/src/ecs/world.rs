use vstd::prelude::*;

use super::allocator::{alive_handles, lemma_alive_handles, EntityAllocator, EntitySlot};
use super::builtin::{FindNameError, Name};
use super::command::{
    Commands,
    last_button, last_component, last_name, last_node, last_text, BundleItem, DeferredCommand,
    DeferredCommandError, DeferredOperation,
};
use super::entity::Entity;
use super::storage::{ComponentStorage, ComponentStorageStats, VectorStorageStats};
use crate::time::FixedTime;
use crate::ui::{BitmapFont, UiButton, UiNode, UiText};

verus! {

/// Basic layout information available for every component type.
#[derive(Clone, Copy, Debug, PartialEq, Eq, Structural)]
pub struct ComponentMetadata {
    /// The size of the component in bytes.
    pub size: usize,
    /// The alignment of the component in bytes.
    pub align: usize,
}

/// A type whose values games attach to entities.
pub trait Component: Sized {
    /// Returns the metadata that is always available for this component.
    fn metadata() -> (r: ComponentMetadata)
        ensures
            r.size == vstd::layout::size_of::<Self>(),
            r.align == vstd::layout::align_of::<Self>(),
    {
        ComponentMetadata {
            size: std::mem::size_of::<Self>(),
            align: std::mem::align_of::<Self>(),
        }
    }
}

/// The error returned when a component is inserted using a handle that is not alive.
#[derive(Clone, Copy, Debug, PartialEq, Eq, Structural)]
pub struct InsertError {
    pub entity: Entity,
}

impl InsertError {
    /// Returns the entity handle that was not alive.
    pub fn entity(self) -> (r: Entity)
        ensures
            r == self.entity,
    {
        self.entity
    }
}

/// An invalid combination of component accesses in a query.
#[derive(Clone, Copy, Debug, PartialEq, Eq, Structural)]
pub struct QueryAccessError {
    pub kind: u32,
}

impl QueryAccessError {
    /// Returns the component kind requested through conflicting accesses.
    pub fn kind(self) -> (r: u32)
        ensures
            r == self.kind,
    {
        self.kind
    }
}

/// A storage is well formed and holds values only for live entities.
pub open spec fn stored_alive<T>(s: ComponentStorage<T>, a: EntityAllocator) -> bool {
    &&& s.wf()
    &&& forall|e: Entity| #[trigger] s.spec_get(e) is Some ==> a.spec_is_alive(e)
}

pub proof fn lemma_compatible<T>(s: ComponentStorage<T>, a: EntityAllocator, e: Entity)
    requires
        stored_alive(s, a),
        a.spec_is_alive(e),
    ensures
        s.compatible(e),
{
    s.lemma_view();
    assert forall|d: int|
        0 <= d < s.entity_seq().len() && (#[trigger] s.entity_seq()[d]).index == e.index implies s.entity_seq()[d]
        == e by {
        let f = s.entity_seq()[d];
        assert(s.spec_get(f) is Some);
    }
}

/// Owns entities, their components, world resources and queued structural
/// changes.
///
/// Game components are values of type `C`, each stored under a numeric kind;
/// names, UI nodes, UI text and UI buttons have storages of their own. Component
/// iteration follows sparse-set dense order, which is deterministic for the same
/// sequence of operations; removal moves the final value into the removed slot.
pub struct World<C> {
    allocator: EntityAllocator,
    kinds: Vec<u32>,
    storages: Vec<ComponentStorage<C>>,
    names: ComponentStorage<Name>,
    nodes: ComponentStorage<UiNode>,
    texts: ComponentStorage<UiText>,
    buttons: ComponentStorage<UiButton>,
    resource_kinds: Vec<u32>,
    resources: Vec<C>,
    fixed_time: Option<FixedTime>,
    font: Option<BitmapFont>,
    deferred: Vec<DeferredCommand<C>>,
}

/// Finds the position of `kind` in a kind list.
fn find_kind(kinds: &Vec<u32>, kind: u32) -> (r: Option<usize>)
    ensures
        r matches Some(i) ==> i < kinds@.len() && kinds@[i as int] == kind,
        r is None ==> !kinds@.contains(kind),
{
    let mut i: usize = 0;
    while i < kinds.len()
        invariant
            i <= kinds@.len(),
            forall|j: int| 0 <= j < i ==> kinds@[j] != kind,
        decreases kinds@.len() - i,
    {
        if kinds[i] == kind {
            return Some(i);
        }
        i += 1;
    }
    None
}


/// Inserts into a storage whose entities are all alive.
fn insert_alive<T>(storage: &mut ComponentStorage<T>, allocator: &EntityAllocator, entity: Entity, value: T) -> (previous: Option<T>)
    requires
        stored_alive(*old(storage), *allocator),
        allocator.spec_is_alive(entity),
    ensures
        stored_alive(*final(storage), *allocator),
        previous == old(storage).spec_get(entity),
        final(storage).spec_get(entity) == Some(value),
        forall|e: Entity| e != entity ==> #[trigger] final(storage).spec_get(e) == old(storage).spec_get(e),
        final(storage).rows() == old(storage).rows_with(entity, value),
        forall|v: T| #[trigger] final(storage).rows_with(entity, v) == old(storage).rows_with(entity, v),
{
    proof {
        lemma_compatible(*storage, *allocator, entity);
    }
    let ghost pre = *storage;
    let previous = storage.insert(entity, value);
    proof {
        assert forall|e: Entity| #[trigger] storage.spec_get(e) is Some implies allocator.spec_is_alive(e) by {
            if e != entity {
                assert(pre.spec_get(e) is Some);
            }
        }
        assert forall|v: T| #[trigger] storage.rows_with(entity, v) == pre.rows_with(entity, v) by {
            ComponentStorage::lemma_rows_with_twice(pre, *storage, entity, value, v);
        }
    }
    previous
}

/// Removes from a storage whose entities are all alive.
fn remove_alive<T>(storage: &mut ComponentStorage<T>, allocator: &EntityAllocator, entity: Entity) -> (removed: Option<T>)
    requires
        stored_alive(*old(storage), *allocator),
    ensures
        stored_alive(*final(storage), *allocator),
        removed == old(storage).spec_get(entity),
        final(storage).spec_get(entity) is None,
        forall|e: Entity| e != entity ==> #[trigger] final(storage).spec_get(e) == old(storage).spec_get(e),
        final(storage).rows() == old(storage).rows_without(entity),
{
    let ghost pre = *storage;
    let removed = storage.remove(entity);
    proof {
        assert forall|e: Entity| #[trigger] storage.spec_get(e) is Some implies allocator.spec_is_alive(e) by {
            assert(pre.spec_get(e) is Some);
        }
    }
    removed
}

/// The failures among outcomes, in order.
pub open spec fn collect_errors(outcomes: Seq<Option<DeferredCommandError>>) -> Seq<
    DeferredCommandError,
>
    decreases outcomes.len(),
{
    if outcomes.len() == 0 {
        Seq::empty()
    } else {
        let previous = collect_errors(outcomes.drop_last());
        match outcomes.last() {
            Some(error) => previous.push(error),
            None => previous,
        }
    }
}

/// Entities of `rows` whose name is exactly `text`, in row order.
pub open spec fn name_matches(rows: Seq<(Entity, Name)>, text: Seq<char>) -> Seq<Entity>
    decreases rows.len(),
{
    if rows.len() == 0 {
        Seq::empty()
    } else {
        let previous = name_matches(rows.drop_last(), text);
        if rows.last().1.spec_text() == text {
            previous.push(rows.last().0)
        } else {
            previous
        }
    }
}

/// A component every world stores alongside its game components.
#[derive(Clone, Copy, Debug, PartialEq, Eq, Structural)]
pub enum BuiltinComponent {
    Name,
    UiNode,
    UiText,
    UiButton,
}

/// The built-in components of a live entity, in the order name, UI node, UI
/// text, UI button; none for a handle that is not alive.
pub open spec fn builtins_of<C>(world: World<C>, e: Entity) -> Seq<BuiltinComponent> {
    if !world.spec_is_alive(e) {
        Seq::empty()
    } else {
        (if world.names_view().spec_get(e) is Some {
            seq![BuiltinComponent::Name]
        } else {
            Seq::empty()
        }) + (if world.nodes_view().spec_get(e) is Some {
            seq![BuiltinComponent::UiNode]
        } else {
            Seq::empty()
        }) + (if world.texts_view().spec_get(e) is Some {
            seq![BuiltinComponent::UiText]
        } else {
            Seq::empty()
        }) + (if world.buttons_view().spec_get(e) is Some {
            seq![BuiltinComponent::UiButton]
        } else {
            Seq::empty()
        })
    }
}

/// A strictly increasing sequence.
pub open spec fn strictly_increasing(s: Seq<u32>) -> bool {
    forall|i: int, j: int| 0 <= i < j < s.len() ==> s[i] < s[j]
}

/// Inserts `value` into a strictly increasing vector that lacks it.
fn insert_sorted(values: &mut Vec<u32>, value: u32)
    requires
        strictly_increasing(old(values)@),
        !old(values)@.contains(value),
    ensures
        strictly_increasing(final(values)@),
        forall|x: u32| #[trigger] final(values)@.contains(x) <==> old(values)@.contains(x) || x == value,
{
    let mut i: usize = 0;
    while i < values.len() && values[i] < value
        invariant
            i <= values@.len(),
            forall|j: int| 0 <= j < i ==> values@[j] < value,
        decreases values@.len() - i,
    {
        i += 1;
    }
    let ghost pre = values@;
    values.insert(i, value);
    proof {
        assert forall|a: int, b: int| 0 <= a < b < values@.len() implies values@[a] < values@[b] by {
            if b < i {
            } else if a < i && b == i {
            } else if a < i {
                assert(values@[b] == pre[b - 1]);
                if (i as int) < pre.len() {
                    assert(pre[i as int] >= value);
                    assert(pre[i as int] != value);
                }
            } else if a == i {
                assert(values@[b] == pre[b - 1]);
                assert(pre[i as int] >= value);
                assert(pre[i as int] != value);
                if b - 1 > i {
                    assert(pre[i as int] < pre[b - 1]);
                }
            } else {
                assert(values@[a] == pre[a - 1]);
                assert(values@[b] == pre[b - 1]);
            }
        }
        assert forall|x: u32| #[trigger] values@.contains(x) <==> pre.contains(x) || x == value by {
            if values@.contains(x) {
                let k = choose|k: int| 0 <= k < values@.len() && values@[k] == x;
                if k < i {
                    assert(pre[k] == x);
                } else if k > i {
                    assert(pre[k - 1] == x);
                }
            }
            if pre.contains(x) {
                let k = choose|k: int| 0 <= k < pre.len() && pre[k] == x;
                if k < i {
                    assert(values@[k] == x);
                } else {
                    assert(values@[k + 1] == x);
                }
            }
            if x == value {
                assert(values@[i as int] == x);
            }
        }
    }
}

pub open spec fn distinct_kinds(kinds: Seq<u32>) -> bool {
    forall|i: int, j: int| 0 <= i < j < kinds.len() ==> kinds[i] != kinds[j]
}

impl<C> World<C> {
    pub closed spec fn allocator_view(&self) -> EntityAllocator {
        self.allocator
    }

    /// Whether a storage exists for a component kind.
    pub closed spec fn has_kind(&self, kind: u32) -> bool {
        self.kinds@.contains(kind)
    }

    pub closed spec fn kind_index(&self, kind: u32) -> int {
        choose|i: int| 0 <= i < self.kinds@.len() && self.kinds@[i] == kind
    }

    /// The storage of a component kind; meaningful when `has_kind(kind)`.
    pub closed spec fn storage_of(&self, kind: u32) -> ComponentStorage<C> {
        self.storages@[self.kind_index(kind)]
    }

    /// Kinds with a storage, in creation order.
    pub closed spec fn kind_seq(&self) -> Seq<u32> {
        self.kinds@
    }

    pub closed spec fn names_view(&self) -> ComponentStorage<Name> {
        self.names
    }

    pub closed spec fn nodes_view(&self) -> ComponentStorage<UiNode> {
        self.nodes
    }

    pub closed spec fn texts_view(&self) -> ComponentStorage<UiText> {
        self.texts
    }

    pub closed spec fn buttons_view(&self) -> ComponentStorage<UiButton> {
        self.buttons
    }

    pub closed spec fn resource_kind_seq(&self) -> Seq<u32> {
        self.resource_kinds@
    }

    pub closed spec fn resource_value_seq(&self) -> Seq<C> {
        self.resources@
    }

    pub closed spec fn fixed_time_view(&self) -> Option<FixedTime> {
        self.fixed_time
    }

    pub closed spec fn font_view(&self) -> Option<BitmapFont> {
        self.font
    }

    /// Structural commands queued and not yet applied, oldest first.
    pub closed spec fn pending(&self) -> Seq<DeferredCommand<C>> {
        self.deferred@
    }

    pub open spec fn spec_is_alive(&self, e: Entity) -> bool {
        self.allocator_view().spec_is_alive(e)
    }

    pub open spec fn spec_is_reserved(&self, e: Entity) -> bool {
        self.allocator_view().spec_is_reserved(e)
    }

    /// The component of kind `kind` attached to `e`.
    pub open spec fn spec_get(&self, e: Entity, kind: u32) -> Option<C> {
        if self.has_kind(kind) {
            self.storage_of(kind).spec_get(e)
        } else {
            None
        }
    }

    /// The entity/value rows of a kind, in iteration order.
    pub open spec fn rows(&self, kind: u32) -> Seq<(Entity, C)> {
        if self.has_kind(kind) {
            self.storage_of(kind).rows()
        } else {
            Seq::empty()
        }
    }

    /// The resource stored under a kind.
    pub open spec fn spec_resource(&self, kind: u32) -> Option<C> {
        if self.resource_kind_seq().contains(kind) {
            Some(
                self.resource_value_seq()[choose|i: int|
                    0 <= i < self.resource_kind_seq().len() && self.resource_kind_seq()[i]
                        == kind],
            )
        } else {
            None
        }
    }

    pub closed spec fn wf(&self) -> bool {
        &&& self.allocator.wf()
        &&& self.kinds@.len() == self.storages@.len()
        &&& distinct_kinds(self.kinds@)
        &&& forall|i: int|
            0 <= i < self.storages@.len() ==> stored_alive(
                #[trigger] self.storages@[i],
                self.allocator,
            )
        &&& stored_alive(self.names, self.allocator)
        &&& stored_alive(self.nodes, self.allocator)
        &&& stored_alive(self.texts, self.allocator)
        &&& stored_alive(self.buttons, self.allocator)
        &&& self.resource_kinds@.len() == self.resources@.len()
        &&& distinct_kinds(self.resource_kinds@)
    }

    /// Every component, of any kind, belongs to a live entity.
    pub proof fn lemma_components_alive(&self, e: Entity, kind: u32)
        requires
            self.wf(),
            self.spec_get(e, kind) is Some,
        ensures
            self.spec_is_alive(e),
    {
        let i = self.kind_index(kind);
        assert(stored_alive(self.storages@[i], self.allocator));
    }

    proof fn lemma_kind_index(&self, kind: u32, i: int)
        requires
            self.wf(),
            0 <= i < self.kinds@.len(),
            self.kinds@[i] == kind,
        ensures
            self.has_kind(kind),
            self.kind_index(kind) == i,
            self.storage_of(kind) == self.storages@[i],
    {
        assert(self.kinds@.contains(kind));
        let j = self.kind_index(kind);
        assert(self.kinds@[j] == kind);
        if i < j {
            assert(self.kinds@[i] != self.kinds@[j]);
        } else if j < i {
            assert(self.kinds@[j] != self.kinds@[i]);
        }
    }

    /// The game-component views are identical in two worlds.
    pub open spec fn same_components(a: Self, b: Self) -> bool {
        &&& a.kind_seq() == b.kind_seq()
        &&& forall|k: u32| #[trigger] a.has_kind(k) == b.has_kind(k)
        &&& forall|k: u32| a.has_kind(k) ==> #[trigger] a.storage_of(k) == b.storage_of(k)
    }

    /// The built-in component storages are identical in two worlds.
    pub open spec fn same_builtins(a: Self, b: Self) -> bool {
        &&& a.names_view() == b.names_view()
        &&& a.nodes_view() == b.nodes_view()
        &&& a.texts_view() == b.texts_view()
        &&& a.buttons_view() == b.buttons_view()
    }

    /// Resources, clock, font and queued commands are identical in two worlds.
    pub open spec fn same_resources(a: Self, b: Self) -> bool {
        &&& a.resource_kind_seq() == b.resource_kind_seq()
        &&& a.resource_value_seq() == b.resource_value_seq()
        &&& a.fixed_time_view() == b.fixed_time_view()
        &&& a.font_view() == b.font_view()
    }

    /// Two worlds with identical contents.
    pub closed spec fn view_eq(a: Self, b: Self) -> bool {
        &&& a.allocator == b.allocator
        &&& a.kinds@ =~= b.kinds@
        &&& a.storages@ =~= b.storages@
        &&& a.names == b.names
        &&& a.nodes == b.nodes
        &&& a.texts == b.texts
        &&& a.buttons == b.buttons
        &&& a.resource_kinds@ =~= b.resource_kinds@
        &&& a.resources@ =~= b.resources@
        &&& a.fixed_time == b.fixed_time
        &&& a.font == b.font
        &&& a.deferred@ =~= b.deferred@
    }

    /// Creates an empty world.
    pub fn new() -> (w: Self)
        ensures
            w.wf(),
            w.allocator_view().slots() == Seq::<super::allocator::EntitySlot>::empty(),
            w.allocator_view().free() == Seq::<u32>::empty(),
            w.kind_seq() == Seq::<u32>::empty(),
            forall|e: Entity, k: u32| w.spec_get(e, k) is None,
            forall|k: u32| #[trigger] w.spec_resource(k) is None,
            w.names_view().entity_seq() == Seq::<Entity>::empty(),
            w.nodes_view().entity_seq() == Seq::<Entity>::empty(),
            w.texts_view().entity_seq() == Seq::<Entity>::empty(),
            w.buttons_view().entity_seq() == Seq::<Entity>::empty(),
            w.fixed_time_view() is None,
            w.font_view() is None,
            w.pending() == Seq::<DeferredCommand<C>>::empty(),
    {
        let w = Self {
            allocator: EntityAllocator::new(),
            kinds: Vec::new(),
            storages: Vec::new(),
            names: ComponentStorage::new(),
            nodes: ComponentStorage::new(),
            texts: ComponentStorage::new(),
            buttons: ComponentStorage::new(),
            resource_kinds: Vec::new(),
            resources: Vec::new(),
            fixed_time: None,
            font: None,
            deferred: Vec::new(),
        };
        w
    }

    /// Allocates an entity, live or reserved, leaving every component unchanged.
    fn allocate_entity(&mut self, reserved: bool) -> (e: Entity)
        requires
            old(self).wf(),
            old(self).allocator_view().can_allocate(),
        ensures
            final(self).wf(),
            EntityAllocator::allocated(
                old(self).allocator_view(),
                final(self).allocator_view(),
                e,
                reserved,
            ),
            Self::same_components(*old(self), *final(self)),
            Self::same_builtins(*old(self), *final(self)),
            Self::same_resources(*old(self), *final(self)),
            final(self).pending() == old(self).pending(),
    {
        let e = self.allocator.allocate_entity(reserved);
        proof {
            assert forall|i: int| 0 <= i < self.storages@.len() implies stored_alive(
                #[trigger] self.storages@[i],
                self.allocator,
            ) by {
                assert(stored_alive(self.storages@[i], old(self).allocator));
            }
        }
        e
    }

    /// Allocates a new live entity without components.
    pub fn spawn(&mut self) -> (e: Entity)
        requires
            old(self).wf(),
            old(self).allocator_view().can_allocate(),
        ensures
            final(self).wf(),
            EntityAllocator::allocated(
                old(self).allocator_view(),
                final(self).allocator_view(),
                e,
                false,
            ),
            Self::same_components(*old(self), *final(self)),
            Self::same_builtins(*old(self), *final(self)),
            Self::same_resources(*old(self), *final(self)),
            final(self).pending() == old(self).pending(),
    {
        self.allocate_entity(false)
    }

    /// Reserves an entity handle that becomes alive when activated.
    pub fn reserve_entity(&mut self) -> (e: Entity)
        requires
            old(self).wf(),
            old(self).allocator_view().can_allocate(),
        ensures
            final(self).wf(),
            EntityAllocator::allocated(
                old(self).allocator_view(),
                final(self).allocator_view(),
                e,
                true,
            ),
            Self::same_components(*old(self), *final(self)),
            Self::same_builtins(*old(self), *final(self)),
            Self::same_resources(*old(self), *final(self)),
            final(self).pending() == old(self).pending(),
    {
        self.allocate_entity(true)
    }

    /// How activating a handle changes a world.
    pub open spec fn activation(pre: Self, post: Self, e: Entity, activated: bool) -> bool {
        &&& activated == pre.spec_is_reserved(e)
        &&& forall|x: Entity|
            #[trigger] post.spec_is_alive(x) <==> pre.spec_is_alive(x) || (activated && x == e)
        &&& forall|x: Entity|
            #[trigger] post.spec_is_reserved(x) <==> pre.spec_is_reserved(x) && !(activated && x == e)
        &&& forall|x: Entity|
            #[trigger] pre.allocator_view().is_retired(x) ==> post.allocator_view().is_retired(x)
        &&& post.allocator_view().live_count() == pre.allocator_view().live_count() + if activated {
            1nat
        } else {
            0nat
        }
        &&& !activated ==> post.allocator_view() == pre.allocator_view()
        &&& Self::same_components(pre, post)
        &&& Self::same_builtins(pre, post)
        &&& Self::same_resources(pre, post)
        &&& post.pending() == pre.pending()
    }

    /// Makes a reserved entity live; `false` when the handle is not reserved.
    pub fn activate_reserved(&mut self, entity: Entity) -> (activated: bool)
        requires
            old(self).wf(),
        ensures
            final(self).wf(),
            Self::activation(*old(self), *final(self), entity, activated),
    {
        let activated = self.allocator.activate_reserved(entity);
        proof {
            assert forall|i: int| 0 <= i < self.storages@.len() implies stored_alive(
                #[trigger] self.storages@[i],
                self.allocator,
            ) by {
                assert(stored_alive(self.storages@[i], old(self).allocator));
            }
        }
        activated
    }

    /// Returns whether an entity handle currently refers to a live entity.
    pub fn is_alive(&self, entity: Entity) -> (r: bool)
        ensures
            r == self.spec_is_alive(entity),
    {
        self.allocator.is_alive(entity)
    }

    /// Returns the number of live entities.
    pub fn entity_count(&self) -> (r: usize)
        requires
            self.wf(),
        ensures
            r == self.allocator_view().live_count(),
    {
        self.allocator.entity_count()
    }

    /// Lists live entities in ascending allocator-index order.
    pub fn entities(&self) -> (r: Vec<Entity>)
        requires
            self.wf(),
        ensures
            r@ == alive_handles(self.allocator_view().slots()),
    {
        self.allocator.entities()
    }


    /// The rows of a kind once `v` is inserted for `e`.
    pub open spec fn rows_inserted(&self, kind: u32, e: Entity, v: C) -> Seq<(Entity, C)> {
        if self.has_kind(kind) {
            self.storage_of(kind).rows_with(e, v)
        } else {
            seq![(e, v)]
        }
    }

    /// The rows of a kind once `e` is removed from it.
    pub open spec fn rows_without(&self, kind: u32, e: Entity) -> Seq<(Entity, C)> {
        if self.has_kind(kind) {
            self.storage_of(kind).rows_without(e)
        } else {
            Seq::empty()
        }
    }

    /// How despawning a live entity changes a world.
    pub open spec fn despawned(pre: Self, post: Self, target: Entity) -> bool {
        &&& forall|e: Entity, k: u32| #[trigger]
            post.spec_get(e, k) == if e == target {
                None
            } else {
                pre.spec_get(e, k)
            }
        &&& forall|k: u32| #[trigger] post.rows(k) == pre.rows_without(k, target)
        &&& forall|k: u32| #[trigger] post.has_kind(k) == pre.has_kind(k)
        &&& forall|k: u32| pre.has_kind(k) ==> #[trigger] post.storage_of(k).rows() == pre.storage_of(k).rows_without(target)
        &&& post.names_view().rows() == pre.names_view().rows_without(target)
        &&& post.nodes_view().rows() == pre.nodes_view().rows_without(target)
        &&& post.texts_view().rows() == pre.texts_view().rows_without(target)
        &&& post.buttons_view().rows() == pre.buttons_view().rows_without(target)
        &&& forall|e: Entity| #[trigger] post.names_view().spec_get(e) == if e == target {
            None
        } else {
            pre.names_view().spec_get(e)
        }
        &&& forall|e: Entity| #[trigger] post.nodes_view().spec_get(e) == if e == target {
            None
        } else {
            pre.nodes_view().spec_get(e)
        }
        &&& forall|e: Entity| #[trigger] post.texts_view().spec_get(e) == if e == target {
            None
        } else {
            pre.texts_view().spec_get(e)
        }
        &&& forall|e: Entity| #[trigger] post.buttons_view().spec_get(e) == if e == target {
            None
        } else {
            pre.buttons_view().spec_get(e)
        }
        &&& forall|x: Entity| #[trigger] post.spec_is_alive(x) <==> pre.spec_is_alive(x) && x != target
        &&& forall|x: Entity| #[trigger] post.spec_is_reserved(x) <==> pre.spec_is_reserved(x)
        &&& post.allocator_view().is_retired(target)
        &&& forall|x: Entity| #[trigger] pre.allocator_view().is_retired(x) ==> post.allocator_view().is_retired(x)
        &&& post.allocator_view().live_count() + 1 == pre.allocator_view().live_count()
        &&& pre.allocator_view().slots()[target.index as int].generation < u32::MAX ==> {
            &&& post.allocator_view().slots() == pre.allocator_view().slots().update(
                target.index as int,
                EntitySlot { generation: (target.generation + 1) as u32, alive: false, reserved: false },
            )
            &&& post.allocator_view().free() == pre.allocator_view().free().push(target.index)
        }
        &&& pre.allocator_view().slots()[target.index as int].generation == u32::MAX ==> {
            &&& post.allocator_view().slots() == pre.allocator_view().slots().update(
                target.index as int,
                EntitySlot { generation: target.generation, alive: false, reserved: false },
            )
            &&& post.allocator_view().free() == pre.allocator_view().free()
        }
        &&& Self::same_resources(pre, post)
        &&& post.pending() == pre.pending()
    }

    /// Despawns an entity and removes all of its components.
    ///
    /// Returns `false`, changing nothing, when the handle is stale or already
    /// despawned. A despawned handle is retired: no later allocation makes it
    /// alive again.
    pub fn despawn(&mut self, entity: Entity) -> (r: bool)
        requires
            old(self).wf(),
        ensures
            final(self).wf(),
            r == old(self).spec_is_alive(entity),
            !r ==> *final(self) == *old(self),
            r ==> Self::despawned(*old(self), *final(self), entity),
    {
        if !self.allocator.is_alive(entity) {
            return false;
        }
        let ghost pre = *self;
        let mut i: usize = 0;
        while i < self.storages.len()
            invariant
                pre.wf(),
                pre.spec_is_alive(entity),
                i <= self.storages@.len(),
                self.storages@.len() == pre.storages@.len(),
                self.kinds == pre.kinds,
                self.allocator == pre.allocator,
                self.names == pre.names,
                self.nodes == pre.nodes,
                self.texts == pre.texts,
                self.buttons == pre.buttons,
                self.resource_kinds == pre.resource_kinds,
                self.resources == pre.resources,
                self.fixed_time == pre.fixed_time,
                self.font == pre.font,
                self.deferred == pre.deferred,
                forall|j: int| i <= j < self.storages@.len() ==> #[trigger] self.storages@[j] == pre.storages@[j],
                forall|j: int| 0 <= j < i ==> {
                    &&& stored_alive(#[trigger] self.storages@[j], self.allocator)
                    &&& self.storages@[j].rows() == pre.storages@[j].rows_without(entity)
                    &&& forall|e: Entity| #[trigger] self.storages@[j].spec_get(e) == if e == entity {
                        None
                    } else {
                        pre.storages@[j].spec_get(e)
                    }
                },
            decreases self.storages@.len() - i,
        {
            proof {
                assert(stored_alive(pre.storages@[i as int], pre.allocator));
            }
            self.storages[i].remove(entity);
            proof {
                let s = self.storages@[i as int];
                assert forall|e: Entity| #[trigger] s.spec_get(e) is Some implies self.allocator.spec_is_alive(e) by {
                    assert(pre.storages@[i as int].spec_get(e) is Some);
                }
            }
            i += 1;
        }
        self.names.remove(entity);
        self.nodes.remove(entity);
        self.texts.remove(entity);
        self.buttons.remove(entity);
        let ghost mid = *self;
        self.allocator.release(entity);
        proof {
            assert forall|j: int| 0 <= j < self.storages@.len() implies stored_alive(
                #[trigger] self.storages@[j],
                self.allocator,
            ) by {
                let s = self.storages@[j];
                assert(stored_alive(s, mid.allocator));
                assert forall|e: Entity| #[trigger] s.spec_get(e) is Some implies self.allocator.spec_is_alive(e) by {
                    assert(mid.allocator.spec_is_alive(e));
                }
            }
            assert forall|e: Entity| #[trigger] self.names.spec_get(e) is Some implies self.allocator.spec_is_alive(e) by {
                assert(pre.names.spec_get(e) is Some);
            }
            assert forall|e: Entity| #[trigger] self.nodes.spec_get(e) is Some implies self.allocator.spec_is_alive(e) by {
                assert(pre.nodes.spec_get(e) is Some);
            }
            assert forall|e: Entity| #[trigger] self.texts.spec_get(e) is Some implies self.allocator.spec_is_alive(e) by {
                assert(pre.texts.spec_get(e) is Some);
            }
            assert forall|e: Entity| #[trigger] self.buttons.spec_get(e) is Some implies self.allocator.spec_is_alive(e) by {
                assert(pre.buttons.spec_get(e) is Some);
            }
            assert forall|k: u32| pre.has_kind(k) implies #[trigger] self.storage_of(k) == self.storages@[pre.kind_index(k)] by {
                self.lemma_kind_index(k, pre.kind_index(k));
            }
            assert forall|e: Entity, k: u32| #[trigger]
                self.spec_get(e, k) == if e == entity {
                    None
                } else {
                    pre.spec_get(e, k)
                } by {
                if pre.has_kind(k) {
                    let j = pre.kind_index(k);
                    assert(self.storage_of(k) == self.storages@[j]);
                }
            }
            assert forall|k: u32| #[trigger] self.rows(k) == pre.rows_without(k, entity) by {
                if pre.has_kind(k) {
                    let j = pre.kind_index(k);
                    assert(self.storage_of(k) == self.storages@[j]);
                }
            }
        }
        true
    }

    /// Inserts or replaces a component of kind `kind`.
    ///
    /// The previous value is returned when this kind was already attached to the
    /// entity; a handle that is not alive is refused and nothing changes.
    pub fn insert(&mut self, entity: Entity, kind: u32, component: C) -> (r: Result<
        Option<C>,
        InsertError,
    >)
        requires
            old(self).wf(),
        ensures
            final(self).wf(),
            !old(self).spec_is_alive(entity) ==> r == Err::<Option<C>, InsertError>(
                InsertError { entity },
            ) && *final(self) == *old(self),
            old(self).spec_is_alive(entity) ==> {
                &&& r == Ok::<Option<C>, InsertError>(old(self).spec_get(entity, kind))
                &&& final(self).spec_get(entity, kind) == Some(component)
                &&& forall|e: Entity, k: u32|
                    !(e == entity && k == kind) ==> #[trigger] final(self).spec_get(e, k) == old(
                        self,
                    ).spec_get(e, k)
                &&& final(self).has_kind(kind)
                &&& forall|k: u32| k != kind ==> #[trigger] final(self).has_kind(k) == old(self).has_kind(k)
                &&& forall|k: u32| k != kind && old(self).has_kind(k) ==> #[trigger] final(self).storage_of(k) == old(self).storage_of(k)
                &&& final(self).rows(kind) == old(self).rows_inserted(kind, entity, component)
                &&& forall|k: u32, v: C| #[trigger] final(self).rows_inserted(k, entity, v) == old(self).rows_inserted(k, entity, v)
                &&& forall|k: u32| k != kind ==> #[trigger] final(self).rows(k) == old(self).rows(k)
                &&& forall|k: u32| #[trigger] old(self).has_kind(k) ==> final(self).has_kind(k)
                &&& final(self).allocator_view() == old(self).allocator_view()
                &&& Self::same_builtins(*old(self), *final(self))
                &&& Self::same_resources(*old(self), *final(self))
                &&& final(self).pending() == old(self).pending()
            },
    {
        if !self.allocator.is_alive(entity) {
            return Err(InsertError { entity });
        }
        let ghost pre = *self;
        match find_kind(&self.kinds, kind) {
            Some(i) => {
                proof {
                    self.lemma_kind_index(kind, i as int);
                    assert(stored_alive(self.storages@[i as int], self.allocator));
                    lemma_compatible(self.storages@[i as int], self.allocator, entity);
                }
                let previous = self.storages[i].insert(entity, component);
                proof {
                    self.lemma_kind_index(kind, i as int);
                    assert forall|j: int| 0 <= j < self.storages@.len() implies stored_alive(
                        #[trigger] self.storages@[j],
                        self.allocator,
                    ) by {
                        if j != i as int {
                            assert(stored_alive(pre.storages@[j], pre.allocator));
                        } else {
                            let s = self.storages@[j];
                            assert forall|e: Entity| #[trigger] s.spec_get(e) is Some implies self.allocator.spec_is_alive(e) by {
                                if e != entity {
                                    assert(pre.storages@[j].spec_get(e) is Some);
                                }
                            }
                        }
                    }
                    assert forall|k: u32| #[trigger] pre.has_kind(k) && k != kind implies self.storage_of(k) == pre.storage_of(k) by {
                        let j = pre.kind_index(k);
                        self.lemma_kind_index(k, j);
                    }
                    assert forall|e: Entity, k: u32|
                        !(e == entity && k == kind) implies #[trigger] self.spec_get(e, k) == pre.spec_get(e, k) by {
                        if k != kind && pre.has_kind(k) {
                            assert(self.storage_of(k) == pre.storage_of(k));
                        }
                    }
                    assert forall|k: u32| k != kind implies #[trigger] self.rows(k) == pre.rows(k) by {
                        if pre.has_kind(k) {
                            assert(self.storage_of(k) == pre.storage_of(k));
                        }
                    }
                    assert forall|k: u32, v: C| #[trigger] self.rows_inserted(k, entity, v) == pre.rows_inserted(k, entity, v) by {
                        if k == kind {
                            ComponentStorage::lemma_rows_with_twice(pre.storage_of(kind), self.storage_of(kind), entity, component, v);
                        } else if pre.has_kind(k) {
                            assert(self.storage_of(k) == pre.storage_of(k));
                        }
                    }
                }
                Ok(previous)
            },
            None => {
                let mut storage = ComponentStorage::new();
                let previous = storage.insert(entity, component);
                self.kinds.push(kind);
                self.storages.push(storage);
                proof {
                    let n = pre.kinds@.len() as int;
                    self.lemma_kind_index(kind, n);
                    assert(self.storages@[n] == storage);
                    assert forall|j: int| 0 <= j < self.storages@.len() implies stored_alive(
                        #[trigger] self.storages@[j],
                        self.allocator,
                    ) by {
                        if j < n {
                            assert(stored_alive(pre.storages@[j], pre.allocator));
                            assert(self.storages@[j] == pre.storages@[j]);
                        } else {
                            let s = self.storages@[j];
                            assert forall|e: Entity| #[trigger] s.spec_get(e) is Some implies self.allocator.spec_is_alive(e) by {
                                if e != entity {
                                    assert(storage.spec_get(e) is None);
                                }
                            }
                        }
                    }
                    assert forall|k: u32| #[trigger] pre.has_kind(k) implies self.has_kind(k) && self.storage_of(k) == pre.storage_of(k) by {
                        let j = pre.kind_index(k);
                        assert(self.kinds@[j] == k);
                        self.lemma_kind_index(k, j);
                    }
                    assert forall|k: u32| #[trigger] self.has_kind(k) && k != kind implies pre.has_kind(k) by {
                        let j = choose|j: int| 0 <= j < self.kinds@.len() && self.kinds@[j] == k;
                        assert(j < n);
                        assert(pre.kinds@[j] == k);
                    }
                    assert forall|e: Entity, k: u32|
                        !(e == entity && k == kind) implies #[trigger] self.spec_get(e, k) == pre.spec_get(e, k) by {
                        if k == kind {
                            assert(storage.spec_get(e) is None);
                        }
                    }
                    assert forall|k: u32| k != kind implies #[trigger] self.rows(k) == pre.rows(k) by {}
                    assert(storage.rows() =~= seq![(entity, component)]);
                    assert forall|k: u32, v: C| #[trigger] self.rows_inserted(k, entity, v) == pre.rows_inserted(k, entity, v) by {
                        if k == kind {
                            storage.lemma_view();
                            assert(self.storage_of(kind).rows_with(entity, v) =~= seq![(entity, v)]);
                        }
                    }
                }
                Ok(previous)
            },
        }
    }

    /// Attaches or replaces the name of a live entity.
    pub fn insert_name(&mut self, entity: Entity, value: Name) -> (r: Result<Option<Name>, InsertError>)
        requires
            old(self).wf(),
        ensures
            final(self).wf(),
            !old(self).spec_is_alive(entity) ==> r == Err::<Option<Name>, InsertError>(InsertError { entity })
                && *final(self) == *old(self),
            old(self).spec_is_alive(entity) ==> {
                &&& r == Ok::<Option<Name>, InsertError>(old(self).names_view().spec_get(entity))
                &&& final(self).names_view().spec_get(entity) == Some(value)
                &&& forall|e: Entity| e != entity ==> #[trigger] final(self).names_view().spec_get(e) == old(self).names_view().spec_get(e)
                &&& final(self).names_view().rows() == old(self).names_view().rows_with(entity, value)
                &&& forall|v: Name| #[trigger] final(self).names_view().rows_with(entity, v) == old(self).names_view().rows_with(entity, v)
            },
            Self::same_components(*old(self), *final(self)),
            final(self).allocator_view() == old(self).allocator_view(),
            Self::same_resources(*old(self), *final(self)),
            final(self).pending() == old(self).pending(),
            final(self).nodes_view() == old(self).nodes_view(),
            final(self).texts_view() == old(self).texts_view(),
            final(self).buttons_view() == old(self).buttons_view(),
    {
        if !self.allocator.is_alive(entity) {
            return Err(InsertError { entity });
        }
        Ok(insert_alive(&mut self.names, &self.allocator, entity, value))
    }

    /// The name attached to an entity.
    pub fn name(&self, entity: Entity) -> (r: Option<&Name>)
        requires
            self.wf(),
        ensures
            r matches Some(v) ==> self.names_view().spec_get(entity) == Some(*v),
            r is None ==> self.names_view().spec_get(entity) is None,
    {
        self.names.get(entity)
    }

    /// Detaches and returns the name of an entity.
    pub fn remove_name(&mut self, entity: Entity) -> (r: Option<Name>)
        requires
            old(self).wf(),
        ensures
            final(self).wf(),
            r == old(self).names_view().spec_get(entity),
            final(self).names_view().spec_get(entity) is None,
            forall|e: Entity| e != entity ==> #[trigger] final(self).names_view().spec_get(e) == old(self).names_view().spec_get(e),
            final(self).names_view().rows() == old(self).names_view().rows_without(entity),
            Self::same_components(*old(self), *final(self)),
            final(self).allocator_view() == old(self).allocator_view(),
            Self::same_resources(*old(self), *final(self)),
            final(self).pending() == old(self).pending(),
            final(self).nodes_view() == old(self).nodes_view(),
            final(self).texts_view() == old(self).texts_view(),
            final(self).buttons_view() == old(self).buttons_view(),
    {
        remove_alive(&mut self.names, &self.allocator, entity)
    }

    /// Read access to the storage of names.
    pub fn name_storage(&self) -> (r: &ComponentStorage<Name>)
        requires
            self.wf(),
        ensures
            *r == self.names_view(),
            stored_alive(*r, self.allocator_view()),
    {
        &self.names
    }

    /// Attaches or replaces the UI node of a live entity.
    pub fn insert_ui_node(&mut self, entity: Entity, value: UiNode) -> (r: Result<Option<UiNode>, InsertError>)
        requires
            old(self).wf(),
        ensures
            final(self).wf(),
            !old(self).spec_is_alive(entity) ==> r == Err::<Option<UiNode>, InsertError>(InsertError { entity })
                && *final(self) == *old(self),
            old(self).spec_is_alive(entity) ==> {
                &&& r == Ok::<Option<UiNode>, InsertError>(old(self).nodes_view().spec_get(entity))
                &&& final(self).nodes_view().spec_get(entity) == Some(value)
                &&& forall|e: Entity| e != entity ==> #[trigger] final(self).nodes_view().spec_get(e) == old(self).nodes_view().spec_get(e)
                &&& final(self).nodes_view().rows() == old(self).nodes_view().rows_with(entity, value)
                &&& forall|v: UiNode| #[trigger] final(self).nodes_view().rows_with(entity, v) == old(self).nodes_view().rows_with(entity, v)
            },
            Self::same_components(*old(self), *final(self)),
            final(self).allocator_view() == old(self).allocator_view(),
            Self::same_resources(*old(self), *final(self)),
            final(self).pending() == old(self).pending(),
            final(self).names_view() == old(self).names_view(),
            final(self).texts_view() == old(self).texts_view(),
            final(self).buttons_view() == old(self).buttons_view(),
    {
        if !self.allocator.is_alive(entity) {
            return Err(InsertError { entity });
        }
        Ok(insert_alive(&mut self.nodes, &self.allocator, entity, value))
    }

    /// The UI node attached to an entity.
    pub fn ui_node(&self, entity: Entity) -> (r: Option<&UiNode>)
        requires
            self.wf(),
        ensures
            r matches Some(v) ==> self.nodes_view().spec_get(entity) == Some(*v),
            r is None ==> self.nodes_view().spec_get(entity) is None,
    {
        self.nodes.get(entity)
    }

    /// Detaches and returns the UI node of an entity.
    pub fn remove_ui_node(&mut self, entity: Entity) -> (r: Option<UiNode>)
        requires
            old(self).wf(),
        ensures
            final(self).wf(),
            r == old(self).nodes_view().spec_get(entity),
            final(self).nodes_view().spec_get(entity) is None,
            forall|e: Entity| e != entity ==> #[trigger] final(self).nodes_view().spec_get(e) == old(self).nodes_view().spec_get(e),
            final(self).nodes_view().rows() == old(self).nodes_view().rows_without(entity),
            Self::same_components(*old(self), *final(self)),
            final(self).allocator_view() == old(self).allocator_view(),
            Self::same_resources(*old(self), *final(self)),
            final(self).pending() == old(self).pending(),
            final(self).names_view() == old(self).names_view(),
            final(self).texts_view() == old(self).texts_view(),
            final(self).buttons_view() == old(self).buttons_view(),
    {
        remove_alive(&mut self.nodes, &self.allocator, entity)
    }

    /// Read access to the storage of UI nodes.
    pub fn ui_node_storage(&self) -> (r: &ComponentStorage<UiNode>)
        requires
            self.wf(),
        ensures
            *r == self.nodes_view(),
            stored_alive(*r, self.allocator_view()),
    {
        &self.nodes
    }

    /// Attaches or replaces the UI text of a live entity.
    pub fn insert_ui_text(&mut self, entity: Entity, value: UiText) -> (r: Result<Option<UiText>, InsertError>)
        requires
            old(self).wf(),
        ensures
            final(self).wf(),
            !old(self).spec_is_alive(entity) ==> r == Err::<Option<UiText>, InsertError>(InsertError { entity })
                && *final(self) == *old(self),
            old(self).spec_is_alive(entity) ==> {
                &&& r == Ok::<Option<UiText>, InsertError>(old(self).texts_view().spec_get(entity))
                &&& final(self).texts_view().spec_get(entity) == Some(value)
                &&& forall|e: Entity| e != entity ==> #[trigger] final(self).texts_view().spec_get(e) == old(self).texts_view().spec_get(e)
                &&& final(self).texts_view().rows() == old(self).texts_view().rows_with(entity, value)
                &&& forall|v: UiText| #[trigger] final(self).texts_view().rows_with(entity, v) == old(self).texts_view().rows_with(entity, v)
            },
            Self::same_components(*old(self), *final(self)),
            final(self).allocator_view() == old(self).allocator_view(),
            Self::same_resources(*old(self), *final(self)),
            final(self).pending() == old(self).pending(),
            final(self).names_view() == old(self).names_view(),
            final(self).nodes_view() == old(self).nodes_view(),
            final(self).buttons_view() == old(self).buttons_view(),
    {
        if !self.allocator.is_alive(entity) {
            return Err(InsertError { entity });
        }
        Ok(insert_alive(&mut self.texts, &self.allocator, entity, value))
    }

    /// The UI text attached to an entity.
    pub fn ui_text(&self, entity: Entity) -> (r: Option<&UiText>)
        requires
            self.wf(),
        ensures
            r matches Some(v) ==> self.texts_view().spec_get(entity) == Some(*v),
            r is None ==> self.texts_view().spec_get(entity) is None,
    {
        self.texts.get(entity)
    }

    /// Detaches and returns the UI text of an entity.
    pub fn remove_ui_text(&mut self, entity: Entity) -> (r: Option<UiText>)
        requires
            old(self).wf(),
        ensures
            final(self).wf(),
            r == old(self).texts_view().spec_get(entity),
            final(self).texts_view().spec_get(entity) is None,
            forall|e: Entity| e != entity ==> #[trigger] final(self).texts_view().spec_get(e) == old(self).texts_view().spec_get(e),
            final(self).texts_view().rows() == old(self).texts_view().rows_without(entity),
            Self::same_components(*old(self), *final(self)),
            final(self).allocator_view() == old(self).allocator_view(),
            Self::same_resources(*old(self), *final(self)),
            final(self).pending() == old(self).pending(),
            final(self).names_view() == old(self).names_view(),
            final(self).nodes_view() == old(self).nodes_view(),
            final(self).buttons_view() == old(self).buttons_view(),
    {
        remove_alive(&mut self.texts, &self.allocator, entity)
    }

    /// Read access to the storage of UI texts.
    pub fn ui_text_storage(&self) -> (r: &ComponentStorage<UiText>)
        requires
            self.wf(),
        ensures
            *r == self.texts_view(),
            stored_alive(*r, self.allocator_view()),
    {
        &self.texts
    }

    /// Attaches or replaces the UI button of a live entity.
    pub fn insert_ui_button(&mut self, entity: Entity, value: UiButton) -> (r: Result<Option<UiButton>, InsertError>)
        requires
            old(self).wf(),
        ensures
            final(self).wf(),
            !old(self).spec_is_alive(entity) ==> r == Err::<Option<UiButton>, InsertError>(InsertError { entity })
                && *final(self) == *old(self),
            old(self).spec_is_alive(entity) ==> {
                &&& r == Ok::<Option<UiButton>, InsertError>(old(self).buttons_view().spec_get(entity))
                &&& final(self).buttons_view().spec_get(entity) == Some(value)
                &&& forall|e: Entity| e != entity ==> #[trigger] final(self).buttons_view().spec_get(e) == old(self).buttons_view().spec_get(e)
                &&& final(self).buttons_view().rows() == old(self).buttons_view().rows_with(entity, value)
                &&& forall|v: UiButton| #[trigger] final(self).buttons_view().rows_with(entity, v) == old(self).buttons_view().rows_with(entity, v)
            },
            Self::same_components(*old(self), *final(self)),
            final(self).allocator_view() == old(self).allocator_view(),
            Self::same_resources(*old(self), *final(self)),
            final(self).pending() == old(self).pending(),
            final(self).names_view() == old(self).names_view(),
            final(self).nodes_view() == old(self).nodes_view(),
            final(self).texts_view() == old(self).texts_view(),
    {
        if !self.allocator.is_alive(entity) {
            return Err(InsertError { entity });
        }
        Ok(insert_alive(&mut self.buttons, &self.allocator, entity, value))
    }

    /// The UI button attached to an entity.
    pub fn ui_button(&self, entity: Entity) -> (r: Option<&UiButton>)
        requires
            self.wf(),
        ensures
            r matches Some(v) ==> self.buttons_view().spec_get(entity) == Some(*v),
            r is None ==> self.buttons_view().spec_get(entity) is None,
    {
        self.buttons.get(entity)
    }

    /// Detaches and returns the UI button of an entity.
    pub fn remove_ui_button(&mut self, entity: Entity) -> (r: Option<UiButton>)
        requires
            old(self).wf(),
        ensures
            final(self).wf(),
            r == old(self).buttons_view().spec_get(entity),
            final(self).buttons_view().spec_get(entity) is None,
            forall|e: Entity| e != entity ==> #[trigger] final(self).buttons_view().spec_get(e) == old(self).buttons_view().spec_get(e),
            final(self).buttons_view().rows() == old(self).buttons_view().rows_without(entity),
            Self::same_components(*old(self), *final(self)),
            final(self).allocator_view() == old(self).allocator_view(),
            Self::same_resources(*old(self), *final(self)),
            final(self).pending() == old(self).pending(),
            final(self).names_view() == old(self).names_view(),
            final(self).nodes_view() == old(self).nodes_view(),
            final(self).texts_view() == old(self).texts_view(),
    {
        remove_alive(&mut self.buttons, &self.allocator, entity)
    }

    /// Read access to the storage of UI buttons.
    pub fn ui_button_storage(&self) -> (r: &ComponentStorage<UiButton>)
        requires
            self.wf(),
        ensures
            *r == self.buttons_view(),
            stored_alive(*r, self.allocator_view()),
    {
        &self.buttons
    }

    /// Returns an exclusive reference to the name of an entity.
    pub fn name_mut(&mut self, entity: Entity) -> (r: Option<&mut Name>)
        requires
            old(self).wf(),
        ensures
            old(self).names_view().spec_get(entity) is None ==> r is None && Self::view_eq(*final(self), *old(self)),
            old(self).names_view().spec_get(entity) matches Some(v) ==> r is Some && *r.unwrap() == v,
            old(self).names_view().spec_get(entity) is Some ==> final(self).wf(),
            old(self).names_view().spec_get(entity) is Some ==> final(self).names_view().spec_get(entity) == Some(*final(r.unwrap())),
            forall|e: Entity| e != entity ==> #[trigger] final(self).names_view().spec_get(e) == old(self).names_view().spec_get(e),
            old(self).names_view().spec_get(entity) is Some ==> final(self).names_view().rows() == old(self).names_view().rows_with(entity, *final(r.unwrap())),
            Self::same_components(*old(self), *final(self)),
            final(self).allocator_view() == old(self).allocator_view(),
            Self::same_resources(*old(self), *final(self)),
            final(self).pending() == old(self).pending(),
            final(self).nodes_view() == old(self).nodes_view(),
            final(self).texts_view() == old(self).texts_view(),
            final(self).buttons_view() == old(self).buttons_view(),
    {
        self.names.get_mut(entity)
    }

    /// Returns an exclusive reference to the UI node of an entity.
    pub fn ui_node_mut(&mut self, entity: Entity) -> (r: Option<&mut UiNode>)
        requires
            old(self).wf(),
        ensures
            old(self).nodes_view().spec_get(entity) is None ==> r is None && Self::view_eq(*final(self), *old(self)),
            old(self).nodes_view().spec_get(entity) matches Some(v) ==> r is Some && *r.unwrap() == v,
            old(self).nodes_view().spec_get(entity) is Some ==> final(self).wf(),
            old(self).nodes_view().spec_get(entity) is Some ==> final(self).nodes_view().spec_get(entity) == Some(*final(r.unwrap())),
            forall|e: Entity| e != entity ==> #[trigger] final(self).nodes_view().spec_get(e) == old(self).nodes_view().spec_get(e),
            old(self).nodes_view().spec_get(entity) is Some ==> final(self).nodes_view().rows() == old(self).nodes_view().rows_with(entity, *final(r.unwrap())),
            Self::same_components(*old(self), *final(self)),
            final(self).allocator_view() == old(self).allocator_view(),
            Self::same_resources(*old(self), *final(self)),
            final(self).pending() == old(self).pending(),
            final(self).names_view() == old(self).names_view(),
            final(self).texts_view() == old(self).texts_view(),
            final(self).buttons_view() == old(self).buttons_view(),
    {
        self.nodes.get_mut(entity)
    }

    /// Returns an exclusive reference to the UI text of an entity.
    pub fn ui_text_mut(&mut self, entity: Entity) -> (r: Option<&mut UiText>)
        requires
            old(self).wf(),
        ensures
            old(self).texts_view().spec_get(entity) is None ==> r is None && Self::view_eq(*final(self), *old(self)),
            old(self).texts_view().spec_get(entity) matches Some(v) ==> r is Some && *r.unwrap() == v,
            old(self).texts_view().spec_get(entity) is Some ==> final(self).wf(),
            old(self).texts_view().spec_get(entity) is Some ==> final(self).texts_view().spec_get(entity) == Some(*final(r.unwrap())),
            forall|e: Entity| e != entity ==> #[trigger] final(self).texts_view().spec_get(e) == old(self).texts_view().spec_get(e),
            old(self).texts_view().spec_get(entity) is Some ==> final(self).texts_view().rows() == old(self).texts_view().rows_with(entity, *final(r.unwrap())),
            Self::same_components(*old(self), *final(self)),
            final(self).allocator_view() == old(self).allocator_view(),
            Self::same_resources(*old(self), *final(self)),
            final(self).pending() == old(self).pending(),
            final(self).names_view() == old(self).names_view(),
            final(self).nodes_view() == old(self).nodes_view(),
            final(self).buttons_view() == old(self).buttons_view(),
    {
        self.texts.get_mut(entity)
    }

    /// Returns an exclusive reference to the UI button of an entity.
    pub fn ui_button_mut(&mut self, entity: Entity) -> (r: Option<&mut UiButton>)
        requires
            old(self).wf(),
        ensures
            old(self).buttons_view().spec_get(entity) is None ==> r is None && Self::view_eq(*final(self), *old(self)),
            old(self).buttons_view().spec_get(entity) matches Some(v) ==> r is Some && *r.unwrap() == v,
            old(self).buttons_view().spec_get(entity) is Some ==> final(self).wf(),
            old(self).buttons_view().spec_get(entity) is Some ==> final(self).buttons_view().spec_get(entity) == Some(*final(r.unwrap())),
            forall|e: Entity| e != entity ==> #[trigger] final(self).buttons_view().spec_get(e) == old(self).buttons_view().spec_get(e),
            old(self).buttons_view().spec_get(entity) is Some ==> final(self).buttons_view().rows() == old(self).buttons_view().rows_with(entity, *final(r.unwrap())),
            Self::same_components(*old(self), *final(self)),
            final(self).allocator_view() == old(self).allocator_view(),
            Self::same_resources(*old(self), *final(self)),
            final(self).pending() == old(self).pending(),
            final(self).names_view() == old(self).names_view(),
            final(self).nodes_view() == old(self).nodes_view(),
            final(self).texts_view() == old(self).texts_view(),
    {
        self.buttons.get_mut(entity)
    }

    proof fn lemma_resource_index(&self, kind: u32, i: int)
        requires
            self.wf(),
            0 <= i < self.resource_kinds@.len(),
            self.resource_kinds@[i] == kind,
        ensures
            self.spec_resource(kind) == Some(self.resources@[i]),
    {
        assert(self.resource_kinds@.contains(kind));
        let j = choose|j: int| 0 <= j < self.resource_kind_seq().len() && self.resource_kind_seq()[j] == kind;
        if i < j {
            assert(self.resource_kinds@[i] != self.resource_kinds@[j]);
        } else if j < i {
            assert(self.resource_kinds@[j] != self.resource_kinds@[i]);
        }
    }

    /// Inserts or replaces the unique world resource of a kind; returns the
    /// replaced resource.
    pub fn insert_resource(&mut self, kind: u32, resource: C) -> (r: Option<C>)
        requires
            old(self).wf(),
        ensures
            final(self).wf(),
            r == old(self).spec_resource(kind),
            final(self).spec_resource(kind) == Some(resource),
            forall|k: u32| k != kind ==> #[trigger] final(self).spec_resource(k) == old(self).spec_resource(k),
            final(self).allocator_view() == old(self).allocator_view(),
            Self::same_components(*old(self), *final(self)),
            Self::same_builtins(*old(self), *final(self)),
            final(self).fixed_time_view() == old(self).fixed_time_view(),
            final(self).font_view() == old(self).font_view(),
            final(self).pending() == old(self).pending(),
    {
        let ghost pre = *self;
        match find_kind(&self.resource_kinds, kind) {
            Some(i) => {
                proof {
                    self.lemma_resource_index(kind, i as int);
                }
                let mut replaced = resource;
                self.resources.set_and_swap(i, &mut replaced);
                proof {
                    self.lemma_resource_index(kind, i as int);
                    assert forall|k: u32| k != kind implies #[trigger] self.spec_resource(k) == pre.spec_resource(k) by {
                        if pre.resource_kinds@.contains(k) {
                            let j = choose|j: int| 0 <= j < pre.resource_kinds@.len() && pre.resource_kinds@[j] == k;
                            pre.lemma_resource_index(k, j);
                            self.lemma_resource_index(k, j);
                        }
                    }
                }
                Some(replaced)
            },
            None => {
                self.resource_kinds.push(kind);
                self.resources.push(resource);
                proof {
                    let n = pre.resource_kinds@.len() as int;
                    self.lemma_resource_index(kind, n);
                    assert forall|k: u32| k != kind implies #[trigger] self.spec_resource(k) == pre.spec_resource(k) by {
                        if pre.resource_kinds@.contains(k) {
                            let j = choose|j: int| 0 <= j < pre.resource_kinds@.len() && pre.resource_kinds@[j] == k;
                            pre.lemma_resource_index(k, j);
                            self.lemma_resource_index(k, j);
                        } else {
                            assert(!self.resource_kinds@.contains(k)) by {
                                if self.resource_kinds@.contains(k) {
                                    let j = choose|j: int| 0 <= j < self.resource_kinds@.len() && self.resource_kinds@[j] == k;
                                    assert(j < n);
                                    assert(pre.resource_kinds@[j] == k);
                                }
                            }
                        }
                    }
                }
                None
            },
        }
    }

    /// Returns a shared reference to the resource of a kind.
    pub fn resource(&self, kind: u32) -> (r: Option<&C>)
        requires
            self.wf(),
        ensures
            r matches Some(v) ==> self.spec_resource(kind) == Some(*v),
            r is None ==> self.spec_resource(kind) is None,
    {
        match find_kind(&self.resource_kinds, kind) {
            Some(i) => {
                proof {
                    self.lemma_resource_index(kind, i as int);
                }
                Some(&self.resources[i])
            },
            None => None,
        }
    }

    /// Returns an exclusive reference to the resource of a kind.
    pub fn resource_mut(&mut self, kind: u32) -> (r: Option<&mut C>)
        requires
            old(self).wf(),
        ensures
            old(self).spec_resource(kind) is None ==> r is None && Self::view_eq(*final(self), *old(self)),
            old(self).spec_resource(kind) matches Some(v) ==> r is Some && *r.unwrap() == v,
            old(self).spec_resource(kind) is Some ==> final(self).spec_resource(kind) == Some(*final(r.unwrap())),
            final(self).wf(),
            forall|k: u32| k != kind ==> #[trigger] final(self).spec_resource(k) == old(self).spec_resource(k),
            final(self).allocator_view() == old(self).allocator_view(),
            Self::same_components(*old(self), *final(self)),
            Self::same_builtins(*old(self), *final(self)),
            final(self).fixed_time_view() == old(self).fixed_time_view(),
            final(self).font_view() == old(self).font_view(),
            final(self).pending() == old(self).pending(),
    {
        match find_kind(&self.resource_kinds, kind) {
            Some(i) => {
                proof {
                    self.lemma_resource_index(kind, i as int);
                }
                Some(&mut self.resources[i])
            },
            None => None,
        }
    }

    /// Removes and returns the resource of a kind.
    pub fn remove_resource(&mut self, kind: u32) -> (r: Option<C>)
        requires
            old(self).wf(),
        ensures
            final(self).wf(),
            r == old(self).spec_resource(kind),
            final(self).spec_resource(kind) is None,
            forall|k: u32| k != kind ==> #[trigger] final(self).spec_resource(k) == old(self).spec_resource(k),
            final(self).allocator_view() == old(self).allocator_view(),
            Self::same_components(*old(self), *final(self)),
            Self::same_builtins(*old(self), *final(self)),
            final(self).fixed_time_view() == old(self).fixed_time_view(),
            final(self).font_view() == old(self).font_view(),
            final(self).pending() == old(self).pending(),
    {
        let ghost pre = *self;
        match find_kind(&self.resource_kinds, kind) {
            Some(i) => {
                proof {
                    self.lemma_resource_index(kind, i as int);
                }
                self.resource_kinds.remove(i);
                let removed = self.resources.remove(i);
                proof {
                    assert forall|a: int, b: int| 0 <= a < b < self.resource_kinds@.len() implies self.resource_kinds@[a] != self.resource_kinds@[b] by {
                        let a0 = if a < i { a } else { a + 1 };
                        let b0 = if b < i { b } else { b + 1 };
                        assert(pre.resource_kinds@[a0] != pre.resource_kinds@[b0]);
                    }
                    assert(!self.resource_kinds@.contains(kind)) by {
                        if self.resource_kinds@.contains(kind) {
                            let j = choose|j: int| 0 <= j < self.resource_kinds@.len() && self.resource_kinds@[j] == kind;
                            let j0 = if j < i { j } else { j + 1 };
                            assert(pre.resource_kinds@[j0] == kind);
                            assert(j0 != i);
                        }
                    }
                    assert forall|k: u32| k != kind implies #[trigger] self.spec_resource(k) == pre.spec_resource(k) by {
                        if pre.resource_kinds@.contains(k) {
                            let j = choose|j: int| 0 <= j < pre.resource_kinds@.len() && pre.resource_kinds@[j] == k;
                            pre.lemma_resource_index(k, j);
                            assert(j != i);
                            let j1 = if j < i { j } else { j - 1 };
                            self.lemma_resource_index(k, j1);
                        } else {
                            assert(!self.resource_kinds@.contains(k)) by {
                                if self.resource_kinds@.contains(k) {
                                    let j = choose|j: int| 0 <= j < self.resource_kinds@.len() && self.resource_kinds@[j] == k;
                                    let j0 = if j < i { j } else { j + 1 };
                                    assert(pre.resource_kinds@[j0] == k);
                                }
                            }
                        }
                    }
                }
                Some(removed)
            },
            None => None,
        }
    }

    /// The fixed clock resource, when one is installed.
    pub fn fixed_time(&self) -> (r: Option<FixedTime>)
        ensures
            r == self.fixed_time_view(),
    {
        self.fixed_time
    }

    /// Installs or replaces the fixed clock resource; returns the replaced clock.
    pub fn insert_fixed_time(&mut self, time: FixedTime) -> (r: Option<FixedTime>)
        requires
            old(self).wf(),
        ensures
            final(self).wf(),
            r == old(self).fixed_time_view(),
            final(self).fixed_time_view() == Some(time),
            final(self).allocator_view() == old(self).allocator_view(),
            Self::same_components(*old(self), *final(self)),
            Self::same_builtins(*old(self), *final(self)),
            final(self).resource_kind_seq() == old(self).resource_kind_seq(),
            final(self).resource_value_seq() == old(self).resource_value_seq(),
            final(self).font_view() == old(self).font_view(),
            final(self).pending() == old(self).pending(),
    {
        let previous = self.fixed_time;
        self.fixed_time = Some(time);
        previous
    }

    /// Removes the fixed clock resource.
    pub fn remove_fixed_time(&mut self) -> (r: Option<FixedTime>)
        requires
            old(self).wf(),
        ensures
            final(self).wf(),
            r == old(self).fixed_time_view(),
            final(self).fixed_time_view() is None,
            final(self).allocator_view() == old(self).allocator_view(),
            Self::same_components(*old(self), *final(self)),
            Self::same_builtins(*old(self), *final(self)),
            final(self).resource_kind_seq() == old(self).resource_kind_seq(),
            final(self).resource_value_seq() == old(self).resource_value_seq(),
            final(self).font_view() == old(self).font_view(),
            final(self).pending() == old(self).pending(),
    {
        let previous = self.fixed_time;
        self.fixed_time = None;
        previous
    }

    /// The bitmap font resource, when one is installed.
    pub fn font(&self) -> (r: Option<&BitmapFont>)
        ensures
            r matches Some(f) ==> self.font_view() == Some(*f),
            r is None ==> self.font_view() is None,
    {
        self.font.as_ref()
    }

    /// Installs or replaces the bitmap font resource; returns the replaced font.
    pub fn insert_font(&mut self, font: BitmapFont) -> (r: Option<BitmapFont>)
        requires
            old(self).wf(),
        ensures
            final(self).wf(),
            r == old(self).font_view(),
            final(self).font_view() == Some(font),
            final(self).allocator_view() == old(self).allocator_view(),
            Self::same_components(*old(self), *final(self)),
            Self::same_builtins(*old(self), *final(self)),
            final(self).resource_kind_seq() == old(self).resource_kind_seq(),
            final(self).resource_value_seq() == old(self).resource_value_seq(),
            final(self).fixed_time_view() == old(self).fixed_time_view(),
            final(self).pending() == old(self).pending(),
    {
        let previous = self.font.take();
        self.font = Some(font);
        previous
    }

    /// Rows of kind `a` whose entity also has a component of kind `b`, in the
    /// dense order of `a`, limited to the first `n` rows of `a`.
    pub open spec fn joined_prefix(&self, a: u32, b: u32, n: int) -> Seq<(Entity, C, C)>
        decreases n,
    {
        if n <= 0 {
            Seq::empty()
        } else {
            let previous = self.joined_prefix(a, b, n - 1);
            let row = self.rows(a)[n - 1];
            match self.spec_get(row.0, b) {
                Some(other) => previous.push((row.0, row.1, other)),
                None => previous,
            }
        }
    }

    /// The join of kinds `a` and `b`, in the dense order of `a`.
    pub open spec fn joined(&self, a: u32, b: u32) -> Seq<(Entity, C, C)> {
        self.joined_prefix(a, b, self.rows(a).len() as int)
    }

    /// Applies `update` to every component of kind `kind`, in dense order, and
    /// stores the values it returns. Returns the number of components visited.
    pub fn iter_mut<F: Fn(Entity, &C) -> C>(&mut self, kind: u32, update: F) -> (visited: usize)
        requires
            old(self).wf(),
            forall|e: Entity, c: &C| #[trigger] update.requires((e, c)),
        ensures
            final(self).wf(),
            visited == old(self).rows(kind).len(),
            final(self).rows(kind).len() == old(self).rows(kind).len(),
            forall|d: int|
                0 <= d < old(self).rows(kind).len() ==> (#[trigger] final(self).rows(kind)[d]).0
                    == old(self).rows(kind)[d].0 && update.ensures(
                    (old(self).rows(kind)[d].0, &old(self).rows(kind)[d].1),
                    final(self).rows(kind)[d].1,
                ),
            forall|e: Entity| #[trigger] final(self).spec_get(e, kind) is Some == old(self).spec_get(e, kind) is Some,
            forall|e: Entity, k: u32| k != kind ==> #[trigger] final(self).spec_get(e, k) == old(self).spec_get(e, k),
            forall|k: u32| k != kind ==> #[trigger] final(self).rows(k) == old(self).rows(k),
            forall|k: u32| #[trigger] final(self).has_kind(k) == old(self).has_kind(k),
            final(self).allocator_view() == old(self).allocator_view(),
            Self::same_builtins(*old(self), *final(self)),
            Self::same_resources(*old(self), *final(self)),
            final(self).pending() == old(self).pending(),
    {
        let ghost pre = *self;
        let i = match find_kind(&self.kinds, kind) {
            Some(i) => i,
            None => {
                return 0;
            },
        };
        proof {
            self.lemma_kind_index(kind, i as int);
            assert(stored_alive(self.storages@[i as int], self.allocator));
        }
        let mut storage = ComponentStorage::new();
        self.storages.set_and_swap(i, &mut storage);
        let ghost start = storage;
        let count = storage.len();
        let mut d: usize = 0;
        while d < count
            invariant
                storage.wf(),
                start.wf(),
                count == start.entity_seq().len(),
                d <= count,
                forall|e: Entity, c: &C| #[trigger] update.requires((e, c)),
                storage.entity_seq() == start.entity_seq(),
                storage.value_seq().len() == start.value_seq().len(),
                forall|e: Entity| #[trigger] storage.spec_has(e) == start.spec_has(e),
                forall|e: Entity| #[trigger] storage.spec_position(e) == start.spec_position(e),
                forall|j: int| d <= j < count ==> #[trigger] storage.value_seq()[j] == start.value_seq()[j],
                forall|j: int| 0 <= j < d ==> update.ensures(
                    (start.entity_seq()[j], &start.value_seq()[j]),
                    #[trigger] storage.value_seq()[j],
                ),
            decreases count - d,
        {
            proof {
                storage.lemma_view();
            }
            let entity = storage.entity_at(d);
            let value = update(entity, storage.value_at(d));
            storage.set_at(d, value);
            d += 1;
        }
        self.storages.set_and_swap(i, &mut storage);
        proof {
            start.lemma_view();
            self.storages@[i as int].lemma_view();
            pre.lemma_kind_index(kind, i as int);
            assert(pre.storage_of(kind) == start);
            let s = self.storages@[i as int];
            assert forall|e: Entity| #[trigger] s.spec_get(e) is Some implies self.allocator.spec_is_alive(e) by {
                assert(start.spec_get(e) is Some);
            }
            assert forall|j: int| 0 <= j < self.storages@.len() implies stored_alive(
                #[trigger] self.storages@[j],
                self.allocator,
            ) by {
                if j != i as int {
                    assert(stored_alive(pre.storages@[j], pre.allocator));
                }
            }
            assert(self.wf());
            self.lemma_kind_index(kind, i as int);
            assert forall|k: u32| #[trigger] pre.has_kind(k) && k != kind implies self.storage_of(k) == pre.storage_of(k) by {
                let j = pre.kind_index(k);
                self.lemma_kind_index(k, j);
            }
            assert forall|e: Entity, k: u32| k != kind implies #[trigger] self.spec_get(e, k) == pre.spec_get(e, k) by {
                if pre.has_kind(k) {
                    assert(self.storage_of(k) == pre.storage_of(k));
                }
            }
            assert forall|k: u32| k != kind implies #[trigger] self.rows(k) == pre.rows(k) by {
                if pre.has_kind(k) {
                    assert(self.storage_of(k) == pre.storage_of(k));
                }
            }
        }
        count
    }

    /// Entities carrying components of both kinds, with both values, in the
    /// dense order of kind `a`.
    pub fn iter2(&self, a: u32, b: u32) -> (r: Vec<(Entity, &C, &C)>)
        requires
            self.wf(),
        ensures
            r@.len() == self.joined(a, b).len(),
            forall|j: int|
                0 <= j < r@.len() ==> (#[trigger] r@[j]).0 == self.joined(a, b)[j].0 && *r@[j].1
                    == self.joined(a, b)[j].1 && *r@[j].2 == self.joined(a, b)[j].2,
    {
        let rows = self.iter(a);
        let mut result: Vec<(Entity, &C, &C)> = Vec::new();
        let mut d: usize = 0;
        while d < rows.len()
            invariant
                self.wf(),
                d <= rows@.len(),
                rows@.len() == self.rows(a).len(),
                forall|j: int|
                    0 <= j < rows@.len() ==> (#[trigger] rows@[j]).0 == self.rows(a)[j].0
                        && *rows@[j].1 == self.rows(a)[j].1,
                result@.len() == self.joined_prefix(a, b, d as int).len(),
                forall|j: int|
                    0 <= j < result@.len() ==> (#[trigger] result@[j]).0 == self.joined_prefix(
                        a,
                        b,
                        d as int,
                    )[j].0 && *result@[j].1 == self.joined_prefix(a, b, d as int)[j].1
                        && *result@[j].2 == self.joined_prefix(a, b, d as int)[j].2,
            decreases rows@.len() - d,
        {
            let (entity, first) = rows[d];
            match self.get(entity, b) {
                Some(second) => {
                    result.push((entity, first, second));
                },
                None => {},
            }
            d += 1;
        }
        result
    }

    /// Applies `visit` to entities carrying kinds `a` and `b`, storing the
    /// returned value as the new component of kind `a`.
    ///
    /// Returns the number of matching entities. Asking for two accesses to the
    /// same kind is refused before any value is visited.
    pub fn for_each_mut_with<F: Fn(Entity, &C, &C) -> C>(&mut self, a: u32, b: u32, visit: F) -> (r: Result<
        usize,
        QueryAccessError,
    >)
        requires
            old(self).wf(),
            forall|e: Entity, x: &C, y: &C| #[trigger] visit.requires((e, x, y)),
        ensures
            final(self).wf(),
            a == b ==> r == Err::<usize, QueryAccessError>(QueryAccessError { kind: a })
                && Self::view_eq(*final(self), *old(self)),
            a != b ==> r == Ok::<usize, QueryAccessError>(old(self).joined(a, b).len() as usize),
            a != b ==> forall|e: Entity| #[trigger] final(self).spec_get(e, a) == match old(self).spec_get(e, a) {
                Some(x) => match old(self).spec_get(e, b) {
                    Some(y) => final(self).spec_get(e, a),
                    None => Some(x),
                },
                None => None,
            },
            a != b ==> forall|e: Entity| #[trigger] old(self).spec_get(e, a) is Some && old(self).spec_get(e, b) is Some ==>
                final(self).spec_get(e, a) is Some && visit.ensures(
                    (e, &old(self).spec_get(e, a).unwrap(), &old(self).spec_get(e, b).unwrap()),
                    final(self).spec_get(e, a).unwrap(),
                ),
            a != b ==> forall|d: int| 0 <= d < old(self).rows(a).len() ==> (#[trigger] final(self).rows(a)[d]).0 == old(self).rows(a)[d].0,
            a != b ==> final(self).rows(a).len() == old(self).rows(a).len(),
            forall|e: Entity, k: u32| k != a ==> #[trigger] final(self).spec_get(e, k) == old(self).spec_get(e, k),
            forall|k: u32| k != a ==> #[trigger] final(self).rows(k) == old(self).rows(k),
            forall|k: u32| #[trigger] final(self).has_kind(k) == old(self).has_kind(k),
            final(self).allocator_view() == old(self).allocator_view(),
            Self::same_builtins(*old(self), *final(self)),
            Self::same_resources(*old(self), *final(self)),
            final(self).pending() == old(self).pending(),
    {
        if a == b {
            return Err(QueryAccessError { kind: a });
        }
        let ghost pre = *self;
        let i = match find_kind(&self.kinds, a) {
            Some(i) => i,
            None => {
                return Ok(0);
            },
        };
        proof {
            self.lemma_kind_index(a, i as int);
            assert(stored_alive(self.storages@[i as int], self.allocator));
        }
        let mut storage = ComponentStorage::new();
        self.storages.set_and_swap(i, &mut storage);
        let ghost start = storage;
        let ghost other = if pre.has_kind(b) { Some(pre.storage_of(b)) } else { None::<ComponentStorage<C>> };
        let j = find_kind(&self.kinds, b);
        proof {
            start.lemma_view();
            if let Some(j) = j {
                pre.lemma_kind_index(b, j as int);
                assert(j != i);
                assert(stored_alive(pre.storages@[j as int], pre.allocator));
            }
        }
        proof {
            pre.lemma_kind_index(a, i as int);
            assert(pre.storage_of(a) == start);
        }
        let count = storage.len();
        let mut visited: usize = 0;
        let mut d: usize = 0;
        while d < count
            invariant
                storage.wf(),
                start.wf(),
                count == start.entity_seq().len(),
                d <= count,
                forall|e: Entity, x: &C, y: &C| #[trigger] visit.requires((e, x, y)),
                storage.entity_seq() == start.entity_seq(),
                storage.value_seq().len() == start.value_seq().len(),
                forall|e: Entity| #[trigger] storage.spec_has(e) == start.spec_has(e),
                forall|e: Entity| #[trigger] storage.spec_position(e) == start.spec_position(e),
                forall|k: int| d <= k < count ==> #[trigger] storage.value_seq()[k] == start.value_seq()[k],
                j matches Some(j) ==> (j as int) < self.storages@.len() && self.storages@[j as int] == other.unwrap() && other.unwrap().wf(),
                j is None ==> other is None,
                j is Some ==> other is Some,
                self.storages@.len() == pre.storages@.len(),
                forall|k: int| 0 <= k < d ==> {
                    let e = start.entity_seq()[k];
                    let x = start.value_seq()[k];
                    match other {
                        Some(o) => match o.spec_get(e) {
                            Some(y) => visit.ensures((e, &x, &y), #[trigger] storage.value_seq()[k]),
                            None => storage.value_seq()[k] == x,
                        },
                        None => storage.value_seq()[k] == x,
                    }
                },
                visited as int == pre.joined_prefix(a, b, d as int).len(),
                visited <= d,
                pre.has_kind(a),
                pre.storage_of(a) == start,
                other == if pre.has_kind(b) { Some(pre.storage_of(b)) } else { None::<ComponentStorage<C>> },
            decreases count - d,
        {
            proof {
                storage.lemma_view();
                start.lemma_view();
            }
            let entity = storage.entity_at(d);
            proof {
                assert(pre.rows(a)[d as int].0 == entity);
                assert(pre.spec_get(entity, b) == match other { Some(o) => o.spec_get(entity), None => None::<C> });
            }
            let ghost before = storage;
            let ghost e = start.entity_seq()[d as int];
            let ghost x = start.value_seq()[d as int];
            match j {
                Some(j) => {
                    match self.storages[j].get(entity) {
                        Some(second) => {
                            let first = storage.value_at(d);
                            let value = visit(entity, first, second);
                            storage.set_at(d, value);
                            proof {
                                let y = *second;
                                assert(visit.ensures((e, &x, &y), storage.value_seq()[d as int]));
                                assert(other.unwrap().spec_get(e) == Some(y));
                            }
                            visited += 1;
                        },
                        None => {
                            proof {
                                assert(other.unwrap().spec_get(e) is None);
                            }
                        },
                    }
                },
                None => {},
            }
            proof {
                assert(pre.rows(a)[d as int] == (e, x));
                assert(match other {
                    Some(o) => match o.spec_get(e) {
                        Some(y) => visit.ensures((e, &x, &y), storage.value_seq()[d as int]),
                        None => storage.value_seq()[d as int] == x,
                    },
                    None => storage.value_seq()[d as int] == x,
                });
                assert forall|k: int| 0 <= k < d + 1 implies {
                    let e = start.entity_seq()[k];
                    let x = start.value_seq()[k];
                    match other {
                        Some(o) => match o.spec_get(e) {
                            Some(y) => visit.ensures((e, &x, &y), #[trigger] storage.value_seq()[k]),
                            None => storage.value_seq()[k] == x,
                        },
                        None => storage.value_seq()[k] == x,
                    }
                } by {
                    if k < d {
                        assert(storage.value_seq()[k] == before.value_seq()[k]);
                    }
                }
                assert(pre.joined_prefix(a, b, d as int + 1) == match pre.spec_get(e, b) {
                    Some(y) => pre.joined_prefix(a, b, d as int).push((e, x, y)),
                    None => pre.joined_prefix(a, b, d as int),
                });
            }
            d += 1;
        }
        self.storages.set_and_swap(i, &mut storage);
        proof {
            self.storages@[i as int].lemma_view();
            pre.lemma_kind_index(a, i as int);
            assert(pre.storage_of(a) == start);
            let s = self.storages@[i as int];
            assert forall|e: Entity| #[trigger] s.spec_get(e) is Some implies self.allocator.spec_is_alive(e) by {
                assert(start.spec_get(e) is Some);
            }
            assert forall|k: int| 0 <= k < self.storages@.len() implies stored_alive(
                #[trigger] self.storages@[k],
                self.allocator,
            ) by {
                if k != i as int {
                    assert(stored_alive(pre.storages@[k], pre.allocator));
                }
            }
            assert(self.wf());
            self.lemma_kind_index(a, i as int);
            assert forall|k: u32| #[trigger] pre.has_kind(k) && k != a implies self.storage_of(k) == pre.storage_of(k) by {
                let m = pre.kind_index(k);
                self.lemma_kind_index(k, m);
            }
            assert forall|e: Entity, k: u32| k != a implies #[trigger] self.spec_get(e, k) == pre.spec_get(e, k) by {
                if pre.has_kind(k) {
                    assert(self.storage_of(k) == pre.storage_of(k));
                }
            }
            assert forall|k: u32| k != a implies #[trigger] self.rows(k) == pre.rows(k) by {
                if pre.has_kind(k) {
                    assert(self.storage_of(k) == pre.storage_of(k));
                }
            }
            assert forall|e: Entity| #[trigger] pre.spec_get(e, a) is Some && pre.spec_get(e, b) is Some implies
                self.spec_get(e, a) is Some && visit.ensures(
                    (e, &pre.spec_get(e, a).unwrap(), &pre.spec_get(e, b).unwrap()),
                    self.spec_get(e, a).unwrap(),
                ) by {
                let k = start.spec_position(e);
                assert(start.entity_seq()[k] == e);
            }
            assert forall|e: Entity| #[trigger] self.spec_get(e, a) == match pre.spec_get(e, a) {
                Some(x) => match pre.spec_get(e, b) {
                    Some(y) => self.spec_get(e, a),
                    None => Some(x),
                },
                None => None,
            } by {
                if pre.spec_get(e, a) is Some {
                    let k = start.spec_position(e);
                    assert(start.entity_seq()[k] == e);
                }
            }
        }
        Ok(visited)
    }

    /// How inserting a bundle for a live entity changes a world: for every
    /// component type the last value of the bundle wins, and components outside
    /// the bundle remain unchanged.
    pub open spec fn bundle_applied(pre: Self, post: Self, e: Entity, items: Seq<BundleItem<C>>) -> bool {
        &&& forall|x: Entity, k: u32| #[trigger] post.spec_get(x, k) == if x == e && last_component(items, k) is Some {
            last_component(items, k)
        } else {
            pre.spec_get(x, k)
        }
        &&& forall|k: u32| #[trigger] post.rows(k) == match last_component(items, k) {
            Some(v) => pre.rows_inserted(k, e, v),
            None => pre.rows(k),
        }
        &&& forall|k: u32| #[trigger] post.has_kind(k) == (pre.has_kind(k) || last_component(items, k) is Some)
        &&& forall|x: Entity| #[trigger] post.names_view().spec_get(x) == if x == e && last_name(items) is Some {
            last_name(items)
        } else {
            pre.names_view().spec_get(x)
        }
        &&& post.names_view().rows() == match last_name(items) {
            Some(v) => pre.names_view().rows_with(e, v),
            None => pre.names_view().rows(),
        }
        &&& forall|x: Entity| #[trigger] post.nodes_view().spec_get(x) == if x == e && last_node(items) is Some {
            last_node(items)
        } else {
            pre.nodes_view().spec_get(x)
        }
        &&& post.nodes_view().rows() == match last_node(items) {
            Some(v) => pre.nodes_view().rows_with(e, v),
            None => pre.nodes_view().rows(),
        }
        &&& forall|x: Entity| #[trigger] post.texts_view().spec_get(x) == if x == e && last_text(items) is Some {
            last_text(items)
        } else {
            pre.texts_view().spec_get(x)
        }
        &&& post.texts_view().rows() == match last_text(items) {
            Some(v) => pre.texts_view().rows_with(e, v),
            None => pre.texts_view().rows(),
        }
        &&& forall|x: Entity| #[trigger] post.buttons_view().spec_get(x) == if x == e && last_button(items) is Some {
            last_button(items)
        } else {
            pre.buttons_view().spec_get(x)
        }
        &&& post.buttons_view().rows() == match last_button(items) {
            Some(v) => pre.buttons_view().rows_with(e, v),
            None => pre.buttons_view().rows(),
        }
        &&& post.allocator_view() == pre.allocator_view()
        &&& Self::same_resources(pre, post)
        &&& post.pending() == pre.pending()
    }

    /// Inserts a bundle's components in order. A handle that is not alive is
    /// refused as a whole: no component is inserted.
    pub fn insert_bundle(&mut self, entity: Entity, items: Vec<BundleItem<C>>) -> (r: Result<(), InsertError>)
        requires
            old(self).wf(),
        ensures
            final(self).wf(),
            !old(self).spec_is_alive(entity) ==> r == Err::<(), InsertError>(InsertError { entity })
                && Self::view_eq(*final(self), *old(self)),
            old(self).spec_is_alive(entity) ==> r is Ok && Self::bundle_applied(*old(self), *final(self), entity, items@),
    {
        if !self.allocator.is_alive(entity) {
            return Err(InsertError { entity });
        }
        let ghost pre = *self;
        let ghost all = items@;
        let mut rest = items;
        let mut done: usize = 0;
        let total = rest.len();
        while rest.len() > 0
            invariant
                self.wf(),
                pre.wf(),
                pre.spec_is_alive(entity),
                self.allocator_view() == pre.allocator_view(),
                Self::same_resources(pre, *self),
                self.pending() == pre.pending(),
                total == all.len(),
                done + rest@.len() == total,
                rest@ == all.subrange(done as int, total as int),
                Self::bundle_applied(pre, *self, entity, all.subrange(0, done as int)),
                forall|k: u32, v: C| #[trigger] self.rows_inserted(k, entity, v) == pre.rows_inserted(k, entity, v),
                forall|v: Name| #[trigger] self.names_view().rows_with(entity, v) == pre.names_view().rows_with(entity, v),
                forall|v: UiNode| #[trigger] self.nodes_view().rows_with(entity, v) == pre.nodes_view().rows_with(entity, v),
                forall|v: UiText| #[trigger] self.texts_view().rows_with(entity, v) == pre.texts_view().rows_with(entity, v),
                forall|v: UiButton| #[trigger] self.buttons_view().rows_with(entity, v) == pre.buttons_view().rows_with(entity, v),
            decreases rest@.len(),
        {
            let ghost before = *self;
            let ghost prefix = all.subrange(0, done as int);
            let ghost next = all.subrange(0, done as int + 1);
            proof {
                assert(next.drop_last() =~= prefix);
                assert(next.last() == rest@[0]);
            }
            let item = rest.remove(0);
            match item {
                BundleItem::Name(v) => {
                    let _ = self.insert_name(entity, v);
                },
                BundleItem::Node(v) => {
                    let _ = self.insert_ui_node(entity, v);
                },
                BundleItem::Text(v) => {
                    let _ = self.insert_ui_text(entity, v);
                },
                BundleItem::Button(v) => {
                    let _ = self.insert_ui_button(entity, v);
                },
                BundleItem::Component(k, v) => {
                    let _ = self.insert(entity, k, v);
                },
            }
            proof {
                assert forall|kk: u32, w: C| #[trigger] self.rows_inserted(kk, entity, w) == before.rows_inserted(kk, entity, w) by {
                    if !(next.last() matches BundleItem::Component(k, _) && k == kk) {
                        assert(self.has_kind(kk) == before.has_kind(kk));
                        if before.has_kind(kk) {
                            assert(self.storage_of(kk) == before.storage_of(kk));
                        }
                    }
                }
                assert forall|kk: u32| #[trigger] self.rows(kk) == match last_component(next, kk) {
                    Some(w) => pre.rows_inserted(kk, entity, w),
                    None => pre.rows(kk),
                } by {
                    if !(next.last() matches BundleItem::Component(k, _) && k == kk) {
                        assert(last_component(next, kk) == last_component(prefix, kk));
                        assert(self.rows(kk) == before.rows(kk)) by {
                            assert(self.has_kind(kk) == before.has_kind(kk));
                            if before.has_kind(kk) {
                                assert(self.storage_of(kk) == before.storage_of(kk));
                            }
                        }
                    }
                }
            }
            proof {
                assert forall|x: Entity, kk: u32| #[trigger] self.spec_get(x, kk) == if x == entity && last_component(next, kk) is Some {
                    last_component(next, kk)
                } else {
                    pre.spec_get(x, kk)
                } by {
                    if !(next.last() matches BundleItem::Component(k, _) && k == kk) {
                        assert(last_component(next, kk) == last_component(prefix, kk));
                        assert(self.has_kind(kk) == before.has_kind(kk));
                        if before.has_kind(kk) {
                            assert(self.storage_of(kk) == before.storage_of(kk));
                        }
                        assert(self.spec_get(x, kk) == before.spec_get(x, kk));
                    }
                }
                assert forall|kk: u32| #[trigger] self.has_kind(kk) == (pre.has_kind(kk) || last_component(next, kk) is Some) by {
                    if !(next.last() matches BundleItem::Component(k, _) && k == kk) {
                        assert(last_component(next, kk) == last_component(prefix, kk));
                        assert(self.has_kind(kk) == before.has_kind(kk));
                    }
                }
                assert(forall|x: Entity| #[trigger] self.names_view().spec_get(x) == if x == entity && last_name(next) is Some {
                    last_name(next)
                } else {
                    pre.names_view().spec_get(x)
                });
                assert(self.names_view().rows() == match last_name(next) {
                    Some(v) => pre.names_view().rows_with(entity, v),
                    None => pre.names_view().rows(),
                });
                assert(forall|x: Entity| #[trigger] self.nodes_view().spec_get(x) == if x == entity && last_node(next) is Some {
                    last_node(next)
                } else {
                    pre.nodes_view().spec_get(x)
                });
                assert(self.nodes_view().rows() == match last_node(next) {
                    Some(v) => pre.nodes_view().rows_with(entity, v),
                    None => pre.nodes_view().rows(),
                });
                assert(self.allocator_view() == pre.allocator_view());
                assert(rest@ =~= all.subrange(done as int + 1, total as int));
            }
            done += 1;
        }
        proof {
            assert(all.subrange(0, total as int) =~= all);
        }
        Ok(())
    }

    /// Allocates a live entity and inserts a bundle into it.
    pub fn spawn_with(&mut self, items: Vec<BundleItem<C>>) -> (e: Entity)
        requires
            old(self).wf(),
            old(self).allocator_view().can_allocate(),
        ensures
            final(self).wf(),
            final(self).spec_is_alive(e),
            exists|mid: Self| {
                &&& EntityAllocator::allocated(old(self).allocator_view(), mid.allocator_view(), e, false)
                &&& Self::same_components(*old(self), mid)
                &&& Self::same_builtins(*old(self), mid)
                &&& Self::same_resources(*old(self), mid)
                &&& mid.pending() == old(self).pending()
                &&& Self::bundle_applied(mid, *final(self), e, items@)
            },
    {
        let e = self.spawn();
        let ghost mid = *self;
        let r = self.insert_bundle(e, items);
        proof {
            assert(Self::bundle_applied(mid, *self, e, items@));
        }
        e
    }

    /// How one deferred command changes a world, and the failure it reports.
    #[verifier::opaque]
    pub open spec fn command_step(
        pre: Self,
        post: Self,
        command: DeferredCommand<C>,
        outcome: Option<DeferredCommandError>,
    ) -> bool {
        match command {
            DeferredCommand::Activate(e) => {
                &&& outcome == if pre.spec_is_reserved(e) {
                    None
                } else {
                    Some(DeferredCommandError { entity: e, operation: DeferredOperation::Spawn })
                }
                &&& Self::activation(pre, post, e, pre.spec_is_reserved(e))
            },
            DeferredCommand::Insert(e, items) => {
                &&& outcome == if pre.spec_is_alive(e) {
                    None
                } else {
                    Some(DeferredCommandError { entity: e, operation: DeferredOperation::Insert })
                }
                &&& pre.spec_is_alive(e) ==> Self::bundle_applied(pre, post, e, items@)
                &&& !pre.spec_is_alive(e) ==> Self::view_eq(post, pre)
            },
            DeferredCommand::Despawn(e) => {
                &&& outcome == if pre.spec_is_alive(e) {
                    None
                } else {
                    Some(DeferredCommandError { entity: e, operation: DeferredOperation::Despawn })
                }
                &&& pre.spec_is_alive(e) ==> Self::despawned(pre, post, e)
                &&& !pre.spec_is_alive(e) ==> Self::view_eq(post, pre)
            },
        }
    }

    /// Applies one structural command now.
    pub fn apply_command(&mut self, command: DeferredCommand<C>) -> (outcome: Option<DeferredCommandError>)
        requires
            old(self).wf(),
        ensures
            final(self).wf(),
            Self::command_step(*old(self), *final(self), command, outcome),
            final(self).pending() == old(self).pending(),
            final(self).fixed_time_view() == old(self).fixed_time_view(),
    {
        reveal(World::command_step);
        match command {
            DeferredCommand::Activate(e) => {
                if self.activate_reserved(e) {
                    None
                } else {
                    Some(DeferredCommandError::new(e, DeferredOperation::Spawn))
                }
            },
            DeferredCommand::Insert(e, items) => {
                match self.insert_bundle(e, items) {
                    Ok(()) => None,
                    Err(_) => Some(DeferredCommandError::new(e, DeferredOperation::Insert)),
                }
            },
            DeferredCommand::Despawn(e) => {
                if self.despawn(e) {
                    None
                } else {
                    Some(DeferredCommandError::new(e, DeferredOperation::Despawn))
                }
            },
        }
    }

    /// The run of a command queue: `states[i]` is the world before command `i`
    /// and `outcomes[i]` its reported failure.
    pub open spec fn deferred_run(
        pre: Self,
        post: Self,
        states: Seq<Self>,
        outcomes: Seq<Option<DeferredCommandError>>,
    ) -> bool {
        let commands = pre.pending();
        &&& states.len() == commands.len() + 1
        &&& outcomes.len() == commands.len()
        &&& states[0].allocator_view() == pre.allocator_view()
        &&& Self::same_components(pre, states[0])
        &&& Self::same_builtins(pre, states[0])
        &&& Self::same_resources(pre, states[0])
        &&& states[0].pending() == Seq::<DeferredCommand<C>>::empty()
        &&& forall|i: int|
            0 <= i < commands.len() ==> Self::command_step(
                #[trigger] states[i],
                states[i + 1],
                commands[i],
                outcomes[i],
            )
        &&& states.last() == post
    }

    /// A spawn queued through commands on a world with nothing else queued
    /// reserves a handle that is not alive yet and leaves the live count
    /// unchanged; applying the queue then makes the handle alive, counts it,
    /// and reports no error.
    pub proof fn law_queued_spawn_activates_at_apply(
        before: Self,
        queued: Self,
        after: Self,
        e: Entity,
        states: Seq<Self>,
        outcomes: Seq<Option<DeferredCommandError>>,
    )
        requires
            before.pending().len() == 0,
            EntityAllocator::allocated(before.allocator_view(), queued.allocator_view(), e, true),
            queued.pending() == before.pending().push(DeferredCommand::Activate(e)),
            Self::deferred_run(queued, after, states, outcomes),
        ensures
            !queued.spec_is_alive(e),
            queued.spec_is_reserved(e),
            queued.allocator_view().live_count() == before.allocator_view().live_count(),
            after.spec_is_alive(e),
            !after.spec_is_reserved(e),
            after.allocator_view().live_count() == before.allocator_view().live_count() + 1,
            collect_errors(outcomes).len() == 0,
    {
        let commands = queued.pending();
        assert(commands.len() == 1);
        assert(commands[0] == DeferredCommand::<C>::Activate(e));
        assert(Self::command_step(states[0], states[1], commands[0], outcomes[0]));
        reveal(World::command_step);
        assert(states[0].spec_is_reserved(e));
        assert(outcomes[0] is None);
        assert(states[1].spec_is_alive(e));
        assert(!states[1].spec_is_reserved(e));
        assert(states.last() == states[1]);
        assert(outcomes.drop_last().len() == 0);
        assert(collect_errors(outcomes.drop_last()) =~= Seq::<DeferredCommandError>::empty());
    }

    /// A bundle insertion queued through commands changes nothing until the
    /// queue is applied. Applied alone, it inserts the bundle into a live
    /// entity without error; for a handle that is not alive it changes
    /// nothing and reports exactly one failed insertion of that handle.
    pub proof fn law_queued_insert_applies_or_reports(
        before: Self,
        queued: Self,
        after: Self,
        e: Entity,
        items: Seq<BundleItem<C>>,
        states: Seq<Self>,
        outcomes: Seq<Option<DeferredCommandError>>,
    )
        requires
            before.pending().len() == 0,
            queued.allocator_view() == before.allocator_view(),
            Self::same_components(before, queued),
            Self::same_builtins(before, queued),
            Self::same_resources(before, queued),
            queued.pending().len() == 1,
            queued.pending()[0] matches DeferredCommand::Insert(target, bundle) && target == e && bundle@ == items,
            Self::deferred_run(queued, after, states, outcomes),
        ensures
            before.spec_is_alive(e) ==> collect_errors(outcomes).len() == 0 && Self::bundle_applied(
                states[0],
                after,
                e,
                items,
            ),
            !before.spec_is_alive(e) ==> collect_errors(outcomes) == seq![
                DeferredCommandError { entity: e, operation: DeferredOperation::Insert },
            ] && Self::view_eq(after, states[0]),
    {
        let commands = queued.pending();
        assert(Self::command_step(states[0], states[1], commands[0], outcomes[0]));
        reveal(World::command_step);
        assert(states.last() == states[1]);
        assert(outcomes.drop_last().len() == 0);
        assert(collect_errors(outcomes.drop_last()) =~= Seq::<DeferredCommandError>::empty());
    }

    /// Returns a command writer that queues structural changes.
    pub fn commands(&mut self) -> (r: Commands<'_, C>)
        ensures
            *r.world == *old(self),
            *final(self) == *final(r.world),
    {
        Commands { world: self }
    }

    /// Queues a structural command for the next synchronization point.
    pub fn push_command(&mut self, command: DeferredCommand<C>)
        requires
            old(self).wf(),
        ensures
            final(self).wf(),
            final(self).pending() == old(self).pending().push(command),
            final(self).allocator_view() == old(self).allocator_view(),
            Self::same_components(*old(self), *final(self)),
            Self::same_builtins(*old(self), *final(self)),
            Self::same_resources(*old(self), *final(self)),
    {
        self.deferred.push(command);
    }

    /// Applies all queued structural changes in insertion order.
    ///
    /// All commands are attempted; failures are returned in their
    /// deterministic application order.
    pub fn apply_deferred(&mut self) -> (errors: Vec<DeferredCommandError>)
        requires
            old(self).wf(),
        ensures
            final(self).wf(),
            final(self).pending() == Seq::<DeferredCommand<C>>::empty(),
            final(self).fixed_time_view() == old(self).fixed_time_view(),
            exists|states: Seq<Self>, outcomes: Seq<Option<DeferredCommandError>>|
                Self::deferred_run(*old(self), *final(self), states, outcomes) && errors@
                    == collect_errors(outcomes),
    {
        let ghost pre = *self;
        let mut queue: Vec<DeferredCommand<C>> = Vec::new();
        std::mem::swap(&mut queue, &mut self.deferred);
        let ghost commands = queue@;
        let ghost mut states: Seq<Self> = seq![*self];
        let ghost mut outcomes: Seq<Option<DeferredCommandError>> = Seq::empty();
        let mut errors: Vec<DeferredCommandError> = Vec::new();
        let ghost mut done: int = 0;
        while queue.len() > 0
            invariant
                self.wf(),
                commands == pre.pending(),
                0 <= done <= commands.len(),
                queue@ == commands.subrange(done, commands.len() as int),
                states.len() == done + 1,
                outcomes.len() == done,
                states[0].allocator_view() == pre.allocator_view(),
                Self::same_components(pre, states[0]),
                Self::same_builtins(pre, states[0]),
                Self::same_resources(pre, states[0]),
                states[0].pending() == Seq::<DeferredCommand<C>>::empty(),
                forall|i: int|
                    0 <= i < done ==> Self::command_step(
                        #[trigger] states[i],
                        states[i + 1],
                        commands[i],
                        outcomes[i],
                    ),
                states.last() == *self,
                self.pending() == Seq::<DeferredCommand<C>>::empty(),
                errors@ == collect_errors(outcomes),
                self.fixed_time_view() == pre.fixed_time_view(),
            decreases queue@.len(),
        {
            let command = queue.remove(0);
            proof {
                assert(command == commands[done]);
            }
            let outcome = self.apply_command(command);
            match outcome {
                Some(error) => errors.push(error),
                None => {},
            }
            proof {
                let old_states = states;
                let old_outcomes = outcomes;
                states = states.push(*self);
                outcomes = outcomes.push(outcome);
                assert(outcomes.drop_last() =~= old_outcomes);
                assert forall|i: int| 0 <= i < done + 1 implies Self::command_step(
                    #[trigger] states[i],
                    states[i + 1],
                    commands[i],
                    outcomes[i],
                ) by {
                    if i < done {
                        assert(states[i] == old_states[i]);
                        assert(states[i + 1] == old_states[i + 1]);
                    }
                }
                done = done + 1;
                assert(queue@ =~= commands.subrange(done, commands.len() as int));
            }
        }
        proof {
            assert(done == commands.len());
            assert(Self::deferred_run(pre, *self, states, outcomes));
        }
        errors
    }

    /// The built-in components attached to a live entity, in the order name,
    /// UI node, UI text, UI button; empty for a handle that is not alive.
    pub fn builtin_components(&self, entity: Entity) -> (r: Vec<BuiltinComponent>)
        requires
            self.wf(),
        ensures
            r@ == builtins_of(*self, entity),
    {
        let mut r: Vec<BuiltinComponent> = Vec::new();
        if !self.allocator.is_alive(entity) {
            proof {
                assert(r@ =~= builtins_of(*self, entity));
            }
            return r;
        }
        if self.names.get(entity).is_some() {
            r.push(BuiltinComponent::Name);
        }
        if self.nodes.get(entity).is_some() {
            r.push(BuiltinComponent::UiNode);
        }
        if self.texts.get(entity).is_some() {
            r.push(BuiltinComponent::UiText);
        }
        if self.buttons.get(entity).is_some() {
            r.push(BuiltinComponent::UiButton);
        }
        proof {
            assert(r@ =~= builtins_of(*self, entity));
        }
        r
    }

    /// The kinds of the game components attached to a live entity, sorted
    /// ascending; empty for a handle that is not alive.
    pub fn component_kinds(&self, entity: Entity) -> (r: Vec<u32>)
        requires
            self.wf(),
        ensures
            strictly_increasing(r@),
            forall|k: u32| #[trigger] r@.contains(k) <==> self.spec_is_alive(entity) && self.spec_get(entity, k) is Some,
    {
        let mut kinds: Vec<u32> = Vec::new();
        if !self.allocator.is_alive(entity) {
            return kinds;
        }
        let mut i: usize = 0;
        while i < self.kinds.len()
            invariant
                self.wf(),
                self.spec_is_alive(entity),
                i <= self.kinds@.len(),
                strictly_increasing(kinds@),
                forall|k: u32| #[trigger] kinds@.contains(k) <==> exists|j: int| 0 <= j < i && self.kinds@[j] == k && self.storages@[j].spec_get(entity) is Some,
            decreases self.kinds@.len() - i,
        {
            proof {
                assert(stored_alive(self.storages@[i as int], self.allocator));
            }
            if self.storages[i].get(entity).is_some() {
                let k = self.kinds[i];
                proof {
                    assert(!kinds@.contains(k)) by {
                        if kinds@.contains(k) {
                            let j = choose|j: int| 0 <= j < i && self.kinds@[j] == k && self.storages@[j].spec_get(entity) is Some;
                            assert(self.kinds@[j] != self.kinds@[i as int]);
                        }
                    }
                }
                insert_sorted(&mut kinds, k);
            }
            i += 1;
        }
        proof {
            assert forall|k: u32| #[trigger] kinds@.contains(k) <==> self.spec_is_alive(entity) && self.spec_get(entity, k) is Some by {
                if kinds@.contains(k) {
                    let j = choose|j: int| 0 <= j < self.kinds@.len() && self.kinds@[j] == k && self.storages@[j].spec_get(entity) is Some;
                    self.lemma_kind_index(k, j);
                }
                if self.spec_get(entity, k) is Some {
                    let j = self.kind_index(k);
                    self.lemma_kind_index(k, j);
                }
            }
        }
        kinds
    }

    /// Resolves the unique entity whose [`Name`] is exactly `name`.
    pub fn find_named(&self, name: &str) -> (r: Result<Entity, FindNameError>)
        requires
            self.wf(),
        ensures
            ({
                let matches = name_matches(self.names_view().rows(), name@);
                &&& matches.len() == 0 ==> (r matches Err(FindNameError::NotFound(s)) && s@ == name@)
                &&& matches.len() == 1 ==> r == Ok::<Entity, FindNameError>(matches[0])
                &&& matches.len() >= 2 ==> (r matches Err(FindNameError::Ambiguous { name: s, matches: m }) && s@ == name@ && m@ == matches)
            }),
    {
        let wanted = name.to_owned();
        let rows = self.names.iter();
        let mut matches: Vec<Entity> = Vec::new();
        let mut d: usize = 0;
        while d < rows.len()
            invariant
                d <= rows@.len(),
                wanted@ == name@,
                rows@.len() == self.names_view().rows().len(),
                forall|j: int|
                    0 <= j < rows@.len() ==> (#[trigger] rows@[j]).0 == self.names_view().rows()[j].0
                        && *rows@[j].1 == self.names_view().rows()[j].1,
                matches@ == name_matches(self.names_view().rows().subrange(0, d as int), name@),
            decreases rows@.len() - d,
        {
            let (entity, candidate) = rows[d];
            proof {
                let next = self.names_view().rows().subrange(0, d + 1);
                assert(next.drop_last() =~= self.names_view().rows().subrange(0, d as int));
            }
            if candidate.matches(&wanted) {
                matches.push(entity);
            }
            d += 1;
        }
        proof {
            assert(self.names_view().rows().subrange(0, rows@.len() as int) =~= self.names_view().rows());
        }
        if matches.len() == 0 {
            Err(FindNameError::NotFound(wanted))
        } else if matches.len() == 1 {
            Ok(matches[0])
        } else {
            Err(FindNameError::Ambiguous { name: wanted, matches })
        }
    }

    /// The listed entities are exactly the live ones, each once, in strictly
    /// increasing index order, and there are as many as the live count.
    pub proof fn law_entities_are_the_live_handles_in_order(&self)
        requires
            self.wf(),
        ensures
            alive_handles(self.allocator_view().slots()).len() == self.allocator_view().live_count(),
            forall|i: int, j: int|
                0 <= i < j < alive_handles(self.allocator_view().slots()).len() ==> (#[trigger] alive_handles(
                    self.allocator_view().slots(),
                )[i]).index < (#[trigger] alive_handles(self.allocator_view().slots())[j]).index,
            forall|i: int|
                0 <= i < alive_handles(self.allocator_view().slots()).len() ==> self.spec_is_alive(
                    #[trigger] alive_handles(self.allocator_view().slots())[i],
                ),
            forall|e: Entity|
                #[trigger] self.spec_is_alive(e) ==> alive_handles(self.allocator_view().slots()).contains(e),
    {
        let slots = self.allocator_view().slots();
        self.allocator.lemma_wf_facts();
        lemma_alive_handles(slots);
        assert forall|e: Entity| #[trigger] self.spec_is_alive(e) implies alive_handles(slots).contains(e) by {
            let k = e.index as int;
            assert(slots[k].alive);
            let i = choose|i: int| 0 <= i < alive_handles(slots).len() && (#[trigger] alive_handles(slots)[i]).index
                == k;
            let h = alive_handles(slots)[i];
            assert(h.generation == slots[k].generation);
            assert(h == e);
        }
    }

    /// Spawning right after a despawn reuses the despawned index with the next
    /// generation, when that generation exists: the new handle is alive and
    /// the old one is not.
    pub proof fn law_spawn_reuses_despawned_index(pre: Self, mid: Self, post: Self, gone: Entity, spawned: Entity)
        requires
            pre.wf(),
            pre.spec_is_alive(gone),
            Self::despawned(pre, mid, gone),
            pre.allocator_view().slots()[gone.index as int].generation < u32::MAX,
            EntityAllocator::allocated(mid.allocator_view(), post.allocator_view(), spawned, false),
        ensures
            spawned.index == gone.index,
            spawned.generation == gone.generation + 1,
            post.spec_is_alive(spawned),
            !post.spec_is_alive(gone),
    {
        assert(mid.allocator_view().free().len() > 0);
        assert(mid.allocator_view().free().last() == gone.index);
        assert(!post.allocator_view().spec_is_alive(gone));
    }

    /// A retired handle refers to nothing: it is neither alive nor reserved and
    /// carries no component. Together with `despawn` retiring the handle it
    /// despawns, and every operation keeping retired handles retired, a handle
    /// to a despawned entity never starts referring to a newly spawned entity.
    pub proof fn law_retired_handle_refers_to_nothing(&self, e: Entity)
        requires
            self.wf(),
            self.allocator_view().is_retired(e),
        ensures
            !self.spec_is_alive(e),
            !self.spec_is_reserved(e),
            forall|k: u32| #[trigger] self.spec_get(e, k) is None,
            self.names_view().spec_get(e) is None,
            self.nodes_view().spec_get(e) is None,
            self.texts_view().spec_get(e) is None,
            self.buttons_view().spec_get(e) is None,
    {
        self.allocator.lemma_wf_facts();
        assert forall|k: u32| #[trigger] self.spec_get(e, k) is None by {
            if self.spec_get(e, k) is Some {
                self.lemma_components_alive(e, k);
            }
        }
    }

    /// Returns a shared reference to an entity's component of kind `kind`.
    pub fn get(&self, entity: Entity, kind: u32) -> (r: Option<&C>)
        requires
            self.wf(),
        ensures
            r matches Some(v) ==> self.spec_get(entity, kind) == Some(*v),
            r is None ==> self.spec_get(entity, kind) is None,
    {
        match find_kind(&self.kinds, kind) {
            Some(i) => {
                proof {
                    self.lemma_kind_index(kind, i as int);
                    assert(stored_alive(self.storages@[i as int], self.allocator));
                }
                self.storages[i].get(entity)
            },
            None => None,
        }
    }

    /// Returns an exclusive reference to an entity's component of kind `kind`.
    pub fn get_mut(&mut self, entity: Entity, kind: u32) -> (r: Option<&mut C>)
        requires
            old(self).wf(),
        ensures
            old(self).spec_get(entity, kind) is None ==> r is None && Self::view_eq(*final(self), *old(self)),
            old(self).spec_get(entity, kind) matches Some(v) ==> r is Some && *r.unwrap() == v,
            old(self).spec_get(entity, kind) is Some ==> final(self).wf(),
            old(self).spec_get(entity, kind) is Some ==> final(self).spec_get(entity, kind) == Some(*final(r.unwrap())),
            old(self).spec_get(entity, kind) is Some ==> forall|e: Entity, k: u32|
                    !(e == entity && k == kind) ==> #[trigger] final(self).spec_get(e, k) == old(self).spec_get(e, k),
            old(self).spec_get(entity, kind) is Some ==> final(self).rows(kind) == old(self).storage_of(kind).rows_with(entity, *final(r.unwrap())),
            old(self).spec_get(entity, kind) is Some ==> forall|k: u32| k != kind ==> #[trigger] final(self).rows(k) == old(self).rows(k),
            forall|k: u32| #[trigger] final(self).has_kind(k) == old(self).has_kind(k),
            final(self).allocator_view() == old(self).allocator_view(),
            Self::same_builtins(*old(self), *final(self)),
            Self::same_resources(*old(self), *final(self)),
            final(self).pending() == old(self).pending(),
    {
        match find_kind(&self.kinds, kind) {
            Some(i) => {
                proof {
                    self.lemma_kind_index(kind, i as int);
                    assert(stored_alive(self.storages@[i as int], self.allocator));
                }
                self.storages[i].get_mut(entity)
            },
            None => None,
        }
    }

    /// Removes and returns an entity's component of kind `kind`.
    pub fn remove(&mut self, entity: Entity, kind: u32) -> (r: Option<C>)
        requires
            old(self).wf(),
        ensures
            final(self).wf(),
            r == old(self).spec_get(entity, kind),
            final(self).spec_get(entity, kind) is None,
            forall|e: Entity, k: u32|
                !(e == entity && k == kind) ==> #[trigger] final(self).spec_get(e, k) == old(self).spec_get(e, k),
            final(self).rows(kind) == if old(self).has_kind(kind) {
                old(self).storage_of(kind).rows_without(entity)
            } else {
                Seq::empty()
            },
            forall|k: u32| k != kind ==> #[trigger] final(self).rows(k) == old(self).rows(k),
            forall|k: u32| #[trigger] final(self).has_kind(k) == old(self).has_kind(k),
            final(self).allocator_view() == old(self).allocator_view(),
            Self::same_builtins(*old(self), *final(self)),
            Self::same_resources(*old(self), *final(self)),
            final(self).pending() == old(self).pending(),
    {
        let ghost pre = *self;
        match find_kind(&self.kinds, kind) {
            Some(i) => {
                proof {
                    self.lemma_kind_index(kind, i as int);
                    assert(stored_alive(self.storages@[i as int], self.allocator));
                }
                let removed = self.storages[i].remove(entity);
                proof {
                    self.lemma_kind_index(kind, i as int);
                    assert forall|j: int| 0 <= j < self.storages@.len() implies stored_alive(
                        #[trigger] self.storages@[j],
                        self.allocator,
                    ) by {
                        if j != i as int {
                            assert(stored_alive(pre.storages@[j], pre.allocator));
                        } else {
                            let s = self.storages@[j];
                            assert forall|e: Entity| #[trigger] s.spec_get(e) is Some implies self.allocator.spec_is_alive(e) by {
                                assert(pre.storages@[j].spec_get(e) is Some);
                            }
                        }
                    }
                    assert forall|k: u32| #[trigger] pre.has_kind(k) && k != kind implies self.storage_of(k) == pre.storage_of(k) by {
                        let j = pre.kind_index(k);
                        self.lemma_kind_index(k, j);
                    }
                    assert forall|e: Entity, k: u32|
                        !(e == entity && k == kind) implies #[trigger] self.spec_get(e, k) == pre.spec_get(e, k) by {
                        if k != kind && pre.has_kind(k) {
                            assert(self.storage_of(k) == pre.storage_of(k));
                        }
                    }
                    assert forall|k: u32| k != kind implies #[trigger] self.rows(k) == pre.rows(k) by {
                        if pre.has_kind(k) {
                            assert(self.storage_of(k) == pre.storage_of(k));
                        }
                    }
                }
                removed
            },
            None => None,
        }
    }

    /// Rows of one component kind in dense iteration order.
    pub fn iter(&self, kind: u32) -> (r: Vec<(Entity, &C)>)
        requires
            self.wf(),
        ensures
            r@.len() == self.rows(kind).len(),
            forall|d: int|
                0 <= d < r@.len() ==> (#[trigger] r@[d]).0 == self.rows(kind)[d].0 && *r@[d].1
                    == self.rows(kind)[d].1,
    {
        match find_kind(&self.kinds, kind) {
            Some(i) => {
                proof {
                    self.lemma_kind_index(kind, i as int);
                    assert(stored_alive(self.storages@[i as int], self.allocator));
                }
                self.storages[i].iter()
            },
            None => Vec::new(),
        }
    }
}

} // verus!
