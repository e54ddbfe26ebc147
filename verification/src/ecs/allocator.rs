use vstd::prelude::*;

use super::entity::Entity;

verus! {

/// The allocation state of one entity index.
#[derive(Clone, Copy, Debug, PartialEq, Eq, Structural)]
pub struct EntitySlot {
    pub generation: u32,
    pub alive: bool,
    pub reserved: bool,
}

/// Number of live slots in a slot sequence.
pub open spec fn count_alive(slots: Seq<EntitySlot>) -> nat
    decreases slots.len(),
{
    if slots.len() == 0 {
        0
    } else {
        count_alive(slots.drop_last()) + if slots.last().alive {
            1nat
        } else {
            0nat
        }
    }
}

/// Live handles of a slot sequence, in ascending index order.
pub open spec fn alive_handles(slots: Seq<EntitySlot>) -> Seq<Entity>
    decreases slots.len(),
{
    if slots.len() == 0 {
        Seq::empty()
    } else {
        let rest = alive_handles(slots.drop_last());
        if slots.last().alive {
            rest.push(Entity { index: (slots.len() - 1) as u32, generation: slots.last().generation })
        } else {
            rest
        }
    }
}

/// The live handles of a slot table: one per live slot, in increasing index
/// order, each naming its slot's generation.
pub proof fn lemma_alive_handles(slots: Seq<EntitySlot>)
    requires
        slots.len() <= u32::MAX + 1,
    ensures
        alive_handles(slots).len() == count_alive(slots),
        forall|i: int, j: int|
            0 <= i < j < alive_handles(slots).len() ==> (#[trigger] alive_handles(slots)[i]).index
                < (#[trigger] alive_handles(slots)[j]).index,
        forall|i: int|
            0 <= i < alive_handles(slots).len() ==> {
                let h = #[trigger] alive_handles(slots)[i];
                &&& (h.index as int) < slots.len()
                &&& slots[h.index as int].alive
                &&& slots[h.index as int].generation == h.generation
            },
        forall|k: int|
            0 <= k < slots.len() && (#[trigger] slots[k]).alive ==> exists|i: int|
                0 <= i < alive_handles(slots).len() && (#[trigger] alive_handles(slots)[i]).index == k,
    decreases slots.len(),
{
    if slots.len() > 0 {
        let rest = slots.drop_last();
        lemma_alive_handles(rest);
        let hs = alive_handles(slots);
        let rs = alive_handles(rest);
        let n = slots.len() - 1;
        assert forall|i: int| 0 <= i < rs.len() implies (#[trigger] rs[i]).index < n by {}
        assert forall|i: int| 0 <= i < hs.len() implies {
            let h = #[trigger] hs[i];
            &&& (h.index as int) < slots.len()
            &&& slots[h.index as int].alive
            &&& slots[h.index as int].generation == h.generation
        } by {
            if i < rs.len() {
                assert(hs[i] == rs[i]);
                assert(slots[rs[i].index as int] == rest[rs[i].index as int]);
            }
        }
        assert forall|k: int| 0 <= k < slots.len() && (#[trigger] slots[k]).alive implies exists|i: int|
            0 <= i < hs.len() && (#[trigger] hs[i]).index == k by {
            if k < n {
                assert(rest[k] == slots[k]);
                let i = choose|i: int| 0 <= i < rs.len() && (#[trigger] rs[i]).index == k;
                assert(hs[i] == rs[i]);
            } else {
                assert(hs[rs.len() as int].index == k);
            }
        }
        assert forall|i: int, j: int| 0 <= i < j < hs.len() implies (#[trigger] hs[i]).index < (
        #[trigger] hs[j]).index by {
            if j < rs.len() {
                assert(hs[i] == rs[i] && hs[j] == rs[j]);
            } else {
                assert(hs[i] == rs[i]);
            }
        }
    }
}

pub proof fn lemma_count_alive_bounded(slots: Seq<EntitySlot>)
    ensures
        count_alive(slots) <= slots.len(),
    decreases slots.len(),
{
    if slots.len() > 0 {
        lemma_count_alive_bounded(slots.drop_last());
    }
}

pub proof fn lemma_count_alive_push(slots: Seq<EntitySlot>, slot: EntitySlot)
    ensures
        count_alive(slots.push(slot)) == count_alive(slots) + if slot.alive {
            1nat
        } else {
            0nat
        },
{
    assert(slots.push(slot).drop_last() =~= slots);
}

pub proof fn lemma_count_alive_update(slots: Seq<EntitySlot>, i: int, slot: EntitySlot)
    requires
        0 <= i < slots.len(),
    ensures
        count_alive(slots.update(i, slot)) + (if slots[i].alive {
            1nat
        } else {
            0nat
        }) == count_alive(slots) + (if slot.alive {
            1nat
        } else {
            0nat
        }),
    decreases slots.len(),
{
    let updated = slots.update(i, slot);
    if i == slots.len() - 1 {
        assert(updated.drop_last() =~= slots.drop_last());
    } else {
        lemma_count_alive_update(slots.drop_last(), i, slot);
        assert(updated.drop_last() =~= slots.drop_last().update(i, slot));
    }
}

/// A handle that can never again refer to a live entity: its slot's generation
/// has moved past it, or its slot was retired at the last generation.
pub open spec fn retired_handle(slots: Seq<EntitySlot>, free: Seq<u32>, e: Entity) -> bool {
    &&& (e.index as int) < slots.len()
    &&& {
        let slot = slots[e.index as int];
        ||| slot.generation > e.generation
        ||| (slot.generation == e.generation && !slot.alive && !slot.reserved && !free.contains(
            e.index,
        ))
    }
}

/// Generational entity-index allocator with a free list of reusable indices.
#[derive(Default)]
pub struct EntityAllocator {
    entities: Vec<EntitySlot>,
    free_entities: Vec<u32>,
    live_entity_count: usize,
}

impl EntityAllocator {
    /// The slot of every index ever allocated.
    pub closed spec fn slots(&self) -> Seq<EntitySlot> {
        self.entities@
    }

    /// Indices available for reuse; the last one is reused first.
    pub closed spec fn free(&self) -> Seq<u32> {
        self.free_entities@
    }

    pub open spec fn spec_is_alive(&self, e: Entity) -> bool {
        &&& (e.index as int) < self.slots().len()
        &&& self.slots()[e.index as int].alive
        &&& self.slots()[e.index as int].generation == e.generation
    }

    pub open spec fn spec_is_reserved(&self, e: Entity) -> bool {
        &&& (e.index as int) < self.slots().len()
        &&& self.slots()[e.index as int].reserved
        &&& self.slots()[e.index as int].generation == e.generation
    }

    pub open spec fn is_retired(&self, e: Entity) -> bool {
        retired_handle(self.slots(), self.free(), e)
    }

    pub open spec fn live_count(&self) -> nat {
        count_alive(self.slots())
    }

    /// Whether one more entity can be allocated: an index can be reused, or a
    /// fresh index still fits in `u32`.
    pub open spec fn can_allocate(&self) -> bool {
        self.free().len() > 0 || self.slots().len() <= u32::MAX
    }

    pub closed spec fn wf(&self) -> bool {
        &&& self.live_entity_count == count_alive(self.entities@)
        &&& self.entities@.len() <= u32::MAX + 1
        &&& forall|i: int|
            0 <= i < self.free_entities@.len() ==> {
                let idx = #[trigger] self.free_entities@[i];
                &&& (idx as int) < self.entities@.len()
                &&& !self.entities@[idx as int].alive
                &&& !self.entities@[idx as int].reserved
            }
        &&& forall|i: int, j: int|
            0 <= i < j < self.free_entities@.len() ==> self.free_entities@[i]
                != self.free_entities@[j]
        &&& forall|idx: int|
            0 <= idx < self.entities@.len() ==> !(#[trigger] self.entities@[idx].alive
                && self.entities@[idx].reserved)
        &&& forall|idx: int|
            0 <= idx < self.entities@.len() && !(#[trigger] self.entities@[idx]).alive
                && !self.entities@[idx].reserved && !self.free_entities@.contains(idx as u32)
                ==> self.entities@[idx].generation == u32::MAX
    }

    pub proof fn lemma_wf_facts(&self)
        requires
            self.wf(),
        ensures
            self.slots().len() <= u32::MAX + 1,
            forall|e: Entity| #[trigger]
                self.spec_is_alive(e) ==> !self.spec_is_reserved(e) && !self.is_retired(e),
            forall|e: Entity| #[trigger] self.is_retired(e) ==> !self.spec_is_alive(e),
    {
        assert forall|e: Entity| #[trigger] self.spec_is_alive(e) implies !self.spec_is_reserved(
            e,
        ) && !self.is_retired(e) by {
            assert(self.entities@[e.index as int].alive);
        }
    }

    /// Creates an allocator with no entities.
    pub fn new() -> (r: Self)
        ensures
            r.wf(),
            r.slots() == Seq::<EntitySlot>::empty(),
            r.free() == Seq::<u32>::empty(),
    {
        Self { entities: Vec::new(), free_entities: Vec::new(), live_entity_count: 0 }
    }

    /// Reserves an entity handle that is not alive until it is activated.
    pub fn reserve_entity(&mut self) -> (e: Entity)
        requires
            old(self).wf(),
            old(self).can_allocate(),
        ensures
            final(self).wf(),
            Self::allocated(*old(self), *final(self), e, true),
    {
        self.allocate_entity(true)
    }

    /// How `allocate_entity` changes the allocator: the last free index is
    /// reused with its current generation, or a fresh index with generation 0
    /// is appended.
    pub open spec fn allocated(pre: Self, post: Self, e: Entity, reserved: bool) -> bool {
        let slot = EntitySlot { generation: e.generation, alive: !reserved, reserved };
        &&& if pre.free().len() > 0 {
            &&& e.index == pre.free().last()
            &&& e.generation == pre.slots()[e.index as int].generation
            &&& post.free() == pre.free().drop_last()
            &&& post.slots() == pre.slots().update(e.index as int, slot)
        } else {
            &&& e.index as int == pre.slots().len()
            &&& e.generation == 0
            &&& post.free() == pre.free()
            &&& post.slots() == pre.slots().push(slot)
        }
        &&& post.live_count() == pre.live_count() + if reserved {
            0nat
        } else {
            1nat
        }
        &&& reserved ==> post.spec_is_reserved(e) && !post.spec_is_alive(e)
        &&& !reserved ==> post.spec_is_alive(e)
        &&& forall|x: Entity| #[trigger] pre.spec_is_alive(x) ==> post.spec_is_alive(x)
        &&& forall|x: Entity| #[trigger] pre.is_retired(x) ==> post.is_retired(x)
        &&& forall|x: Entity|
            #[trigger] post.spec_is_alive(x) ==> pre.spec_is_alive(x) || (!reserved && x == e)
        &&& forall|x: Entity|
            #[trigger] post.spec_is_reserved(x) ==> pre.spec_is_reserved(x) || (reserved && x
                == e)
        &&& forall|x: Entity| #[trigger] pre.spec_is_reserved(x) ==> post.spec_is_reserved(x)
        &&& !pre.spec_is_alive(e) && !pre.spec_is_reserved(e) && !pre.is_retired(e)
    }

    /// Allocates an entity, live or reserved.
    pub fn allocate_entity(&mut self, reserved: bool) -> (e: Entity)
        requires
            old(self).wf(),
            old(self).can_allocate(),
        ensures
            final(self).wf(),
            Self::allocated(*old(self), *final(self), e, reserved),
    {
        let ghost pre = *self;
        proof {
            self.lemma_wf_facts();
        }
        if let Some(index) = self.free_entities.pop() {
            let generation = self.entities[index as usize].generation;
            let slot = EntitySlot { generation, alive: !reserved, reserved };
            proof {
                lemma_count_alive_update(self.entities@, index as int, slot);
                lemma_count_alive_bounded(self.entities@.update(index as int, slot));
                assert(!pre.free_entities@.drop_last().contains(index)) by {
                    if pre.free_entities@.drop_last().contains(index) {
                        let k = choose|k: int|
                            0 <= k < pre.free_entities@.drop_last().len()
                                && pre.free_entities@.drop_last()[k] == index;
                        assert(pre.free_entities@[k] == pre.free_entities@[pre.free_entities@.len()
                            - 1]);
                    }
                }
            }
            self.entities.set(index as usize, slot);
            proof {
                assert(count_alive(self.entities@) <= self.entities.len());
            }
            if !reserved {
                self.live_entity_count = self.live_entity_count + 1;
            }
            let e = Entity::new(index, generation);
            proof {
                assert forall|i: int|
                    0 <= i < self.free_entities@.len() implies (#[trigger] self.free_entities@[i])
                    != index by {
                    assert(pre.free_entities@[i] == self.free_entities@[i]);
                }
                assert forall|idx: int|
                    0 <= idx < self.entities@.len() && !(#[trigger] self.entities@[idx]).alive
                        && !self.entities@[idx].reserved && !self.free_entities@.contains(
                        idx as u32,
                    ) implies self.entities@[idx].generation == u32::MAX by {
                    if idx != index as int {
                        if pre.free_entities@.contains(idx as u32) {
                            let k = choose|k: int|
                                0 <= k < pre.free_entities@.len() && pre.free_entities@[k]
                                    == idx as u32;
                            assert(k != pre.free_entities@.len() - 1);
                            assert(self.free_entities@[k] == idx as u32);
                        }
                    }
                }
                assert forall|x: Entity| #[trigger] pre.is_retired(x) implies self.is_retired(
                    x,
                ) by {
                    if x.index == index {
                        assert(pre.free_entities@[pre.free_entities@.len() - 1] == index);
                        assert(pre.free_entities@.contains(index));
                    }
                    if self.free_entities@.contains(x.index) {
                        let k = choose|k: int|
                            0 <= k < self.free_entities@.len() && self.free_entities@[k]
                                == x.index;
                        assert(pre.free_entities@[k] == x.index);
                    }
                }
                assert(pre.free_entities@.contains(index)) by {
                    assert(pre.free_entities@[pre.free_entities@.len() - 1] == index);
                }
            }
            return e;
        }
        let index = self.entities.len() as u32;
        let slot = EntitySlot { generation: 0, alive: !reserved, reserved };
        proof {
            lemma_count_alive_push(self.entities@, slot);
            lemma_count_alive_bounded(self.entities@.push(slot));
        }
        self.entities.push(slot);
        proof {
            assert(count_alive(self.entities@) <= self.entities.len());
        }
        if !reserved {
            self.live_entity_count = self.live_entity_count + 1;
        }
        let e = Entity::new(index, 0);
        proof {
            assert forall|idx: int|
                0 <= idx < self.entities@.len() && !(#[trigger] self.entities@[idx]).alive
                    && !self.entities@[idx].reserved && !self.free_entities@.contains(
                    idx as u32,
                ) implies self.entities@[idx].generation == u32::MAX by {
                assert(idx < pre.entities@.len());
                assert(self.entities@[idx] == pre.entities@[idx]);
            }
        }
        e
    }

    /// Makes a reserved entity live. Returns `false`, changing nothing, when the
    /// handle is not currently reserved.
    pub fn activate_reserved(&mut self, entity: Entity) -> (activated: bool)
        requires
            old(self).wf(),
        ensures
            final(self).wf(),
            activated == old(self).spec_is_reserved(entity),
            !activated ==> *final(self) == *old(self),
            activated ==> final(self).slots() == old(self).slots().update(
                entity.index as int,
                EntitySlot { generation: entity.generation, alive: true, reserved: false },
            ) && final(self).free() == old(self).free(),
            activated ==> final(self).live_count() == old(self).live_count() + 1,
            forall|x: Entity|
                #[trigger] final(self).spec_is_alive(x) <==> old(self).spec_is_alive(x) || (
                activated && x == entity),
            forall|x: Entity|
                #[trigger] final(self).spec_is_reserved(x) <==> old(self).spec_is_reserved(x)
                    && !(activated && x == entity),
            forall|x: Entity| #[trigger] old(self).is_retired(x) ==> final(self).is_retired(x),
    {
        let ghost pre = *self;
        let index = entity.index as usize;
        if index >= self.entities.len() {
            return false;
        }
        let slot = self.entities[index];
        if slot.generation != entity.generation || !slot.reserved || slot.alive {
            return false;
        }
        let new_slot = EntitySlot { generation: slot.generation, alive: true, reserved: false };
        proof {
            lemma_count_alive_update(self.entities@, index as int, new_slot);
            lemma_count_alive_bounded(self.entities@.update(index as int, new_slot));
        }
        self.entities.set(index, new_slot);
        proof {
            assert(count_alive(self.entities@) <= self.entities.len());
        }
        self.live_entity_count = self.live_entity_count + 1;
        proof {
            assert forall|idx: int|
                0 <= idx < self.entities@.len() && !(#[trigger] self.entities@[idx]).alive
                    && !self.entities@[idx].reserved && !self.free_entities@.contains(
                    idx as u32,
                ) implies self.entities@[idx].generation == u32::MAX by {
                assert(idx != index as int);
                assert(self.entities@[idx] == pre.entities@[idx]);
            }
        }
        true
    }

    /// Returns whether an entity handle currently refers to a live entity.
    pub fn is_alive(&self, entity: Entity) -> (r: bool)
        ensures
            r == self.spec_is_alive(entity),
    {
        let index = entity.index as usize;
        if index < self.entities.len() {
            let slot = self.entities[index];
            slot.alive && slot.generation == entity.generation
        } else {
            false
        }
    }

    /// Returns the number of live entities.
    pub fn entity_count(&self) -> (r: usize)
        requires
            self.wf(),
        ensures
            r == self.live_count(),
    {
        self.live_entity_count
    }

    /// Lists live entities in ascending allocator-index order.
    pub fn entities(&self) -> (r: Vec<Entity>)
        requires
            self.wf(),
        ensures
            r@ == alive_handles(self.slots()),
    {
        let mut result: Vec<Entity> = Vec::new();
        let mut i: usize = 0;
        while i < self.entities.len()
            invariant
                i <= self.entities@.len(),
                self.entities@.len() <= u32::MAX + 1,
                result@ == alive_handles(self.entities@.subrange(0, i as int)),
            decreases self.entities@.len() - i,
        {
            let slot = self.entities[i];
            proof {
                let next = self.entities@.subrange(0, i + 1);
                assert(next.drop_last() =~= self.entities@.subrange(0, i as int));
            }
            if slot.alive {
                result.push(Entity::new(i as u32, slot.generation));
            }
            i += 1;
        }
        proof {
            assert(self.entities@.subrange(0, self.entities@.len() as int) =~= self.entities@);
        }
        result
    }

    /// Ends a live entity. Its index is reused with the next generation, or
    /// retired for good when the generation counter is exhausted.
    pub fn release(&mut self, entity: Entity)
        requires
            old(self).wf(),
            old(self).spec_is_alive(entity),
        ensures
            final(self).wf(),
            final(self).live_count() + 1 == old(self).live_count(),
            final(self).is_retired(entity),
            !final(self).spec_is_alive(entity),
            forall|x: Entity|
                #[trigger] final(self).spec_is_alive(x) <==> old(self).spec_is_alive(x) && x
                    != entity,
            forall|x: Entity|
                #[trigger] final(self).spec_is_reserved(x) <==> old(self).spec_is_reserved(x),
            forall|x: Entity| #[trigger] old(self).is_retired(x) ==> final(self).is_retired(x),
            old(self).slots()[entity.index as int].generation < u32::MAX ==> {
                &&& final(self).slots() == old(self).slots().update(
                    entity.index as int,
                    EntitySlot {
                        generation: (entity.generation + 1) as u32,
                        alive: false,
                        reserved: false,
                    },
                )
                &&& final(self).free() == old(self).free().push(entity.index)
            },
            old(self).slots()[entity.index as int].generation == u32::MAX ==> {
                &&& final(self).slots() == old(self).slots().update(
                    entity.index as int,
                    EntitySlot { generation: entity.generation, alive: false, reserved: false },
                )
                &&& final(self).free() == old(self).free()
            },
    {
        let ghost pre = *self;
        let index = entity.index as usize;
        let generation = self.entities[index].generation;
        proof {
            assert(!pre.free_entities@.contains(entity.index)) by {
                if pre.free_entities@.contains(entity.index) {
                    let k = choose|k: int|
                        0 <= k < pre.free_entities@.len() && pre.free_entities@[k]
                            == entity.index;
                    assert(!pre.entities@[pre.free_entities@[k] as int].alive);
                }
            }
        }
        let new_slot = if generation < u32::MAX {
            EntitySlot { generation: generation + 1, alive: false, reserved: false }
        } else {
            EntitySlot { generation, alive: false, reserved: false }
        };
        proof {
            lemma_count_alive_update(self.entities@, index as int, new_slot);
        }
        self.entities.set(index, new_slot);
        self.live_entity_count = self.live_entity_count - 1;
        if generation < u32::MAX {
            self.free_entities.push(entity.index);
        }
        proof {
            assert forall|i: int, j: int|
                0 <= i < j < self.free_entities@.len() implies self.free_entities@[i]
                != self.free_entities@[j] by {
                if j == pre.free_entities@.len() {
                    assert(pre.free_entities@[i] == self.free_entities@[i]);
                }
            }
            assert forall|idx: int|
                0 <= idx < self.entities@.len() && !(#[trigger] self.entities@[idx]).alive
                    && !self.entities@[idx].reserved && !self.free_entities@.contains(
                    idx as u32,
                ) implies self.entities@[idx].generation == u32::MAX by {
                if idx != index as int {
                    assert(self.entities@[idx] == pre.entities@[idx]);
                    if pre.free_entities@.contains(idx as u32) {
                        let k = choose|k: int|
                            0 <= k < pre.free_entities@.len() && pre.free_entities@[k]
                                == idx as u32;
                        assert(self.free_entities@[k] == idx as u32);
                    }
                } else if generation < u32::MAX {
                    assert(self.free_entities@[self.free_entities@.len() - 1] == entity.index);
                }
            }
            assert forall|x: Entity| #[trigger] pre.is_retired(x) implies self.is_retired(
                x,
            ) by {
                if self.free_entities@.contains(x.index) {
                    let k = choose|k: int|
                        0 <= k < self.free_entities@.len() && self.free_entities@[k]
                            == x.index;
                    if k < pre.free_entities@.len() {
                        assert(pre.free_entities@[k] == x.index);
                    }
                }
            }
            if generation == u32::MAX {
                assert(!self.free_entities@.contains(entity.index));
            }
        }
    }
}

} // verus!
