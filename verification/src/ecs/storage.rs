use vstd::prelude::*;

use super::entity::Entity;

verus! {

/// Returns the capacity of a vector.
///
/// Calls `Vec::capacity`. The contract claims what the standard library
/// documents: the capacity is never below the length, and a vector never
/// holds more than `isize::MAX` bytes of elements.
#[verifier::external_body]
fn vec_capacity<T>(values: &Vec<T>) -> (capacity: usize)
    ensures
        capacity >= values.len(),
        capacity as int * vstd::layout::size_of::<T>() <= isize::MAX,
{
    values.capacity()
}

/// Actual vector lengths and capacities, excluding allocation bookkeeping and
/// heap allocations owned by elements. Zero-sized elements retain zero bytes.
#[derive(Clone, Copy, Debug, PartialEq, Eq, Structural)]
pub struct VectorStorageStats {
    pub len: usize,
    pub capacity: usize,
    pub element_size: usize,
    pub capacity_bytes: usize,
}

impl VectorStorageStats {
    /// Measures one vector.
    pub fn of<T>(values: &Vec<T>) -> (stats: Self)
        ensures
            stats.len == values.len(),
            stats.capacity >= values.len(),
            stats.element_size == vstd::layout::size_of::<T>(),
            stats.capacity_bytes == stats.capacity * stats.element_size,
    {
        let capacity = vec_capacity(values);
        let element_size = std::mem::size_of::<T>();
        assert(capacity as int * element_size <= isize::MAX);
        Self { len: values.len(), capacity, element_size, capacity_bytes: capacity * element_size }
    }
}

/// Retained sparse-set vector storage for one component kind.
#[derive(Clone, Copy, Debug, PartialEq, Eq, Structural)]
pub struct ComponentStorageStats {
    pub kind: u32,
    pub sparse: VectorStorageStats,
    pub entities: VectorStorageStats,
    pub values: VectorStorageStats,
}

/// Read-only storage accounting for a world: its entity slots, its free
/// list and each component kind's vectors. Not total world or process memory.
#[derive(Clone, Debug, PartialEq, Eq)]
pub struct WorldStorageStats {
    pub entity_slots: VectorStorageStats,
    pub free_entities: VectorStorageStats,
    pub components: Vec<ComponentStorageStats>,
}

/// Where an entity's value sits in the dense arrays, and for which generation.
#[derive(Clone, Copy, Debug, PartialEq, Eq, Structural)]
pub struct SparseEntry {
    pub dense_index: usize,
    pub generation: u32,
}

/// Removal by swapping the last element into the removed position.
pub open spec fn swap_remove_seq<A>(s: Seq<A>, i: int) -> Seq<A> {
    s.update(i, s.last()).drop_last()
}

/// Sparse-set storage of values keyed by entity handle.
///
/// Values are kept densely; iteration follows dense order, which removal
/// changes by moving the last value into the removed position.
pub struct ComponentStorage<T> {
    sparse: Vec<Option<SparseEntry>>,
    entities: Vec<Entity>,
    values: Vec<T>,
}

impl<T> ComponentStorage<T> {
    /// Entities holding a value, in dense order.
    pub closed spec fn entity_seq(&self) -> Seq<Entity> {
        self.entities@
    }

    /// Stored values, in dense order, parallel to `entity_seq`.
    pub closed spec fn value_seq(&self) -> Seq<T> {
        self.values@
    }

    /// Length of the index-addressed lookup table.
    pub closed spec fn sparse_len(&self) -> nat {
        self.sparse@.len()
    }

    pub closed spec fn spec_has(&self, e: Entity) -> bool {
        &&& (e.index as int) < self.sparse@.len()
        &&& self.sparse@[e.index as int] is Some
        &&& self.sparse@[e.index as int].unwrap().generation == e.generation
    }

    pub closed spec fn spec_position(&self, e: Entity) -> int {
        self.sparse@[e.index as int].unwrap().dense_index as int
    }

    /// Entity/value rows in dense order.
    pub open spec fn rows(&self) -> Seq<(Entity, T)> {
        Seq::new(self.entity_seq().len(), |d: int| (self.entity_seq()[d], self.value_seq()[d]))
    }

    /// The rows left after removing `e`: the last row moves into its position.
    pub open spec fn rows_without(&self, e: Entity) -> Seq<(Entity, T)> {
        if self.spec_has(e) {
            swap_remove_seq(self.rows(), self.spec_position(e))
        } else {
            self.rows()
        }
    }

    /// The rows after inserting `v` for `e`: a replaced value keeps its
    /// position, a new entity is appended.
    pub open spec fn rows_with(&self, e: Entity, v: T) -> Seq<(Entity, T)> {
        if self.spec_has(e) {
            self.rows().update(self.spec_position(e), (e, v))
        } else {
            self.rows().push((e, v))
        }
    }

    /// Inserting twice for one entity leaves the rows of inserting the second
    /// value once.
    pub proof fn lemma_rows_with_twice(pre: Self, mid: Self, e: Entity, first: T, second: T)
        requires
            pre.wf(),
            mid.rows() == pre.rows_with(e, first),
            mid.spec_has(e),
            mid.spec_position(e) == if pre.spec_has(e) {
                pre.spec_position(e)
            } else {
                pre.entity_seq().len() as int
            },
        ensures
            mid.rows_with(e, second) == pre.rows_with(e, second),
    {
        pre.lemma_view();
        if pre.spec_has(e) {
            assert(mid.rows_with(e, second) =~= pre.rows_with(e, second));
        } else {
            assert(mid.rows().len() == pre.rows().len() + 1);
            assert(mid.rows_with(e, second) =~= pre.rows_with(e, second));
        }
    }

    /// The value stored for an entity handle.
    pub open spec fn spec_get(&self, e: Entity) -> Option<T> {
        if self.spec_has(e) {
            Some(self.value_seq()[self.spec_position(e)])
        } else {
            None
        }
    }

    /// No stored handle shares the index of `e` with another generation.
    pub open spec fn compatible(&self, e: Entity) -> bool {
        forall|d: int|
            0 <= d < self.entity_seq().len() && (#[trigger] self.entity_seq()[d]).index
                == e.index ==> self.entity_seq()[d] == e
    }

    pub closed spec fn wf(&self) -> bool {
        &&& self.entities@.len() == self.values@.len()
        &&& forall|d: int|
            0 <= d < self.entities@.len() ==> {
                let e = #[trigger] self.entities@[d];
                &&& (e.index as int) < self.sparse@.len()
                &&& self.sparse@[e.index as int] is Some
                &&& self.sparse@[e.index as int].unwrap().dense_index as int == d
                &&& self.sparse@[e.index as int].unwrap().generation == e.generation
            }
        &&& forall|i: int|
            0 <= i < self.sparse@.len() && (#[trigger] self.sparse@[i]) is Some ==> {
                let d = self.sparse@[i].unwrap().dense_index as int;
                &&& d < self.entities@.len()
                &&& self.entities@[d].index as int == i
            }
    }

    /// The facts that tie the lookup view to the dense sequences.
    pub proof fn lemma_view(&self)
        requires
            self.wf(),
        ensures
            self.entity_seq().len() == self.value_seq().len(),
            forall|d: int|
                0 <= d < self.entity_seq().len() ==> self.spec_has(#[trigger] self.entity_seq()[d])
                    && self.spec_position(self.entity_seq()[d]) == d,
            forall|e: Entity| #[trigger]
                self.spec_has(e) ==> 0 <= self.spec_position(e) < self.entity_seq().len()
                    && self.entity_seq()[self.spec_position(e)] == e,
            forall|d1: int, d2: int|
                0 <= d1 < d2 < self.entity_seq().len() ==> #[trigger] self.entity_seq()[d1]
                    != #[trigger] self.entity_seq()[d2],
            forall|d1: int, d2: int|
                0 <= d1 < d2 < self.entity_seq().len() ==> (#[trigger] self.entity_seq()[d1]).index
                    != (#[trigger] self.entity_seq()[d2]).index,
            forall|e: Entity| #[trigger] self.spec_has(e) <==> self.entity_seq().contains(e),
    {
        assert forall|e: Entity| #[trigger] self.spec_has(e) implies 0 <= self.spec_position(e)
            < self.entity_seq().len() && self.entity_seq()[self.spec_position(e)] == e by {
            let i = e.index as int;
            assert(self.sparse@[i] is Some);
            let d = self.spec_position(e);
            let f = self.entities@[d];
            assert(self.sparse@[f.index as int].unwrap().dense_index as int == d);
        }
        assert forall|d1: int, d2: int|
            0 <= d1 < d2 < self.entity_seq().len() implies (#[trigger] self.entity_seq()[d1]).index
            != (#[trigger] self.entity_seq()[d2]).index by {
            let a = self.entities@[d1];
            let b = self.entities@[d2];
            assert(self.sparse@[a.index as int].unwrap().dense_index as int == d1);
            assert(self.sparse@[b.index as int].unwrap().dense_index as int == d2);
        }
        assert forall|e: Entity| #[trigger] self.spec_has(e) <==> self.entity_seq().contains(e) by {
            if self.entity_seq().contains(e) {
                let d = choose|d: int|
                    0 <= d < self.entity_seq().len() && self.entity_seq()[d] == e;
                assert(self.spec_has(self.entity_seq()[d]));
            }
            if self.spec_has(e) {
                assert(self.entity_seq()[self.spec_position(e)] == e);
            }
        }
    }

    /// Creates an empty storage.
    pub fn new() -> (s: Self)
        ensures
            s.wf(),
            s.entity_seq() == Seq::<Entity>::empty(),
            s.value_seq() == Seq::<T>::empty(),
            forall|e: Entity| s.spec_get(e) is None,
    {
        Self { sparse: Vec::new(), entities: Vec::new(), values: Vec::new() }
    }

    fn entry(&self, entity: Entity) -> (r: Option<SparseEntry>)
        requires
            self.wf(),
        ensures
            r is Some <==> self.spec_has(entity),
            r is Some ==> r.unwrap().dense_index as int == self.spec_position(entity)
                && (r.unwrap().dense_index as int) < self.entity_seq().len(),
    {
        proof {
            self.lemma_view();
        }
        let index = entity.index as usize;
        if index >= self.sparse.len() {
            return None;
        }
        match self.sparse[index] {
            Some(entry) => {
                if entry.generation == entity.generation {
                    Some(entry)
                } else {
                    None
                }
            },
            None => None,
        }
    }

    /// Inserts or replaces the value of an entity; returns the replaced value.
    ///
    /// A new entity is appended to the dense order; a replaced value keeps its
    /// position.
    pub fn insert(&mut self, entity: Entity, value: T) -> (previous: Option<T>)
        requires
            old(self).wf(),
            old(self).compatible(entity),
        ensures
            final(self).wf(),
            previous == old(self).spec_get(entity),
            final(self).spec_get(entity) == Some(value),
            forall|e: Entity| e != entity ==> #[trigger] final(self).spec_get(e) == old(self).spec_get(e),
            previous is Some ==> final(self).entity_seq() == old(self).entity_seq()
                && final(self).value_seq() == old(self).value_seq().update(
                old(self).spec_position(entity),
                value,
            ),
            previous is None ==> final(self).entity_seq() == old(self).entity_seq().push(entity)
                && final(self).value_seq() == old(self).value_seq().push(value),
            final(self).rows() == old(self).rows_with(entity, value),
            final(self).spec_has(entity),
            final(self).spec_position(entity) == if old(self).spec_has(entity) {
                old(self).spec_position(entity)
            } else {
                old(self).entity_seq().len() as int
            },
    {
        let ghost pre = *self;
        proof {
            self.lemma_view();
        }
        let index = entity.index as usize;
        if let Some(entry) = self.entry(entity) {
            let mut replaced = value;
            self.values.set_and_swap(entry.dense_index, &mut replaced);
            proof {
                assert(self.rows() =~= pre.rows_with(entity, value));
                assert forall|e: Entity| e != entity implies #[trigger] self.spec_get(e)
                    == pre.spec_get(e) by {
                    if pre.spec_has(e) {
                        assert(pre.spec_position(e) != pre.spec_position(entity));
                    }
                }
            }
            return Some(replaced);
        }
        while self.sparse.len() <= index
            invariant
                self.entities@ == pre.entities@,
                self.values@ == pre.values@,
                self.sparse@.len() >= pre.sparse@.len(),
                self.sparse@.subrange(0, pre.sparse@.len() as int) == pre.sparse@,
                forall|i: int| pre.sparse@.len() <= i < self.sparse@.len() ==> self.sparse@[i] is None,
            decreases index + 1 - self.sparse@.len(),
        {
            self.sparse.push(None);
        }
        proof {
            assert forall|i: int| 0 <= i < pre.sparse@.len() implies self.sparse@[i]
                == pre.sparse@[i] by {
                assert(self.sparse@.subrange(0, pre.sparse@.len() as int)[i] == self.sparse@[i]);
            }
            // The slot of this index is empty: a stored handle with this index
            // would have the same generation, and then the entry would exist.
            if self.sparse@[index as int] is Some {
                let d = self.sparse@[index as int].unwrap().dense_index as int;
                assert(self.entities@[d].index == entity.index);
                assert(self.entities@[d] == entity);
            }
        }
        let dense_index = self.values.len();
        self.entities.push(entity);
        self.values.push(value);
        self.sparse.set(index, Some(SparseEntry { dense_index, generation: entity.generation }));
        proof {
            assert(!pre.spec_has(entity));
            assert(self.rows() =~= pre.rows_with(entity, value));
            assert forall|d: int| 0 <= d < self.entities@.len() implies {
                let e = #[trigger] self.entities@[d];
                &&& (e.index as int) < self.sparse@.len()
                &&& self.sparse@[e.index as int] is Some
                &&& self.sparse@[e.index as int].unwrap().dense_index as int == d
                &&& self.sparse@[e.index as int].unwrap().generation == e.generation
            } by {
                if d < pre.entities@.len() {
                    let e = pre.entities@[d];
                    assert(e.index != entity.index);
                }
            }
            assert forall|i: int|
                0 <= i < self.sparse@.len() && (#[trigger] self.sparse@[i]) is Some implies {
                let d = self.sparse@[i].unwrap().dense_index as int;
                &&& d < self.entities@.len()
                &&& self.entities@[d].index as int == i
            } by {
                if i != index as int && i < pre.sparse@.len() {
                    assert(self.sparse@[i] == pre.sparse@[i]);
                }
            }
            assert forall|e: Entity| e != entity implies #[trigger] self.spec_get(e)
                == pre.spec_get(e) by {
                if e.index != entity.index {
                    if (e.index as int) < pre.sparse@.len() {
                        assert(self.sparse@[e.index as int] == pre.sparse@[e.index as int]);
                    }
                }
            }
        }
        None
    }

    /// Returns the value of an entity, if it has one.
    pub fn get(&self, entity: Entity) -> (r: Option<&T>)
        requires
            self.wf(),
        ensures
            r matches Some(v) ==> self.spec_get(entity) == Some(*v),
            r is None ==> self.spec_get(entity) is None,
    {
        match self.entry(entity) {
            Some(entry) => Some(&self.values[entry.dense_index]),
            None => None,
        }
    }

    /// Returns the value of an entity for in-place change.
    pub fn get_mut(&mut self, entity: Entity) -> (r: Option<&mut T>)
        requires
            old(self).wf(),
        ensures
            old(self).spec_get(entity) is None ==> r is None && *final(self) == *old(self),
            old(self).spec_get(entity) matches Some(v) ==> {
                &&& r is Some
                &&& *r.unwrap() == v
                &&& final(self).wf()
                &&& final(self).entity_seq() == old(self).entity_seq()
                &&& final(self).value_seq() == old(self).value_seq().update(
                    old(self).spec_position(entity),
                    *final(r.unwrap()),
                )
                &&& final(self).spec_get(entity) == Some(*final(r.unwrap()))
                &&& final(self).rows() == old(self).rows_with(entity, *final(r.unwrap()))
                &&& forall|e: Entity|
                    e != entity ==> #[trigger] final(self).spec_get(e) == old(self).spec_get(e)
            },
    {
        proof {
            self.lemma_view();
        }
        match self.entry(entity) {
            Some(entry) => {
                let ghost pre = *self;
                let r = &mut self.values[entry.dense_index];
                proof {
                    assert forall|e: Entity| e != entity implies #[trigger] pre.spec_get(e)
                        == pre.spec_get(e) by {}
                }
                Some(r)
            },
            None => None,
        }
    }

    /// Removes and returns the value of an entity. The last dense value moves
    /// into the removed position.
    pub fn remove(&mut self, entity: Entity) -> (r: Option<T>)
        requires
            old(self).wf(),
        ensures
            final(self).wf(),
            r == old(self).spec_get(entity),
            final(self).spec_get(entity) is None,
            forall|e: Entity| e != entity ==> #[trigger] final(self).spec_get(e) == old(self).spec_get(e),
            r is None ==> *final(self) == *old(self),
            final(self).rows() == old(self).rows_without(entity),
            r is Some ==> final(self).entity_seq() == swap_remove_seq(
                old(self).entity_seq(),
                old(self).spec_position(entity),
            ) && final(self).value_seq() == swap_remove_seq(
                old(self).value_seq(),
                old(self).spec_position(entity),
            ),
    {
        let ghost pre = *self;
        proof {
            self.lemma_view();
        }
        let entry = match self.entry(entity) {
            Some(entry) => entry,
            None => {
                return None;
            },
        };
        let index = entity.index as usize;
        let dense = entry.dense_index;
        self.sparse.set(index, None);
        self.entities.swap_remove(dense);
        let value = self.values.swap_remove(dense);
        if dense < self.entities.len() {
            let moved = self.entities[dense];
            let moved_index = moved.index as usize;
            proof {
                let last = pre.entities@.len() - 1;
                assert(moved == pre.entities@[last]);
                assert(pre.sparse@[moved.index as int].unwrap().dense_index as int == last);
                assert(moved.index != entity.index);
            }
            self.sparse.set(
                moved_index,
                Some(SparseEntry { dense_index: dense, generation: moved.generation }),
            );
        }
        proof {
            let last = pre.entities@.len() - 1;
            assert forall|d: int| 0 <= d < self.entities@.len() implies {
                let e = #[trigger] self.entities@[d];
                &&& (e.index as int) < self.sparse@.len()
                &&& self.sparse@[e.index as int] is Some
                &&& self.sparse@[e.index as int].unwrap().dense_index as int == d
                &&& self.sparse@[e.index as int].unwrap().generation == e.generation
            } by {
                let e = self.entities@[d];
                if d != dense as int {
                    assert(e == pre.entities@[d]);
                    assert(e.index != entity.index);
                    assert(e.index != pre.entities@[last].index);
                }
            }
            assert forall|i: int|
                0 <= i < self.sparse@.len() && (#[trigger] self.sparse@[i]) is Some implies {
                let d = self.sparse@[i].unwrap().dense_index as int;
                &&& d < self.entities@.len()
                &&& self.entities@[d].index as int == i
            } by {
                if i != index as int && (dense as int >= self.entities@.len()
                    || i != self.entities@[dense as int].index as int) {
                    assert(self.sparse@[i] == pre.sparse@[i]);
                    let d = pre.sparse@[i].unwrap().dense_index as int;
                    assert(pre.entities@[d].index as int == i);
                    assert(d != dense as int);
                    if d == last {
                        assert((dense as int) < self.entities@.len());
                        assert(self.entities@[dense as int] == pre.entities@[last]);
                    }
                }
            }
            assert forall|e: Entity| e != entity implies #[trigger] self.spec_get(e)
                == pre.spec_get(e) by {
                if pre.spec_has(e) {
                    let d = pre.spec_position(e);
                    assert(d != dense as int);
                    if d == last {
                        assert(self.entities@[dense as int] == e);
                        assert(self.spec_has(e));
                    } else {
                        assert(self.entities@[d] == e);
                        assert(self.spec_has(e));
                    }
                } else {
                    if self.spec_has(e) {
                        self.lemma_view();
                        let d = self.spec_position(e);
                        if d == dense as int {
                            assert(self.entities@[d] == pre.entities@[last]);
                        } else {
                            assert(self.entities@[d] == pre.entities@[d]);
                        }
                        assert(pre.spec_has(e));
                    }
                }
            }
        }
        proof {
            assert(self.rows() =~= pre.rows_without(entity));
        }
        Some(value)
    }

    /// Number of stored values.
    pub fn len(&self) -> (r: usize)
        requires
            self.wf(),
        ensures
            r == self.entity_seq().len(),
    {
        self.entities.len()
    }

    /// The entity stored at a dense position.
    pub fn entity_at(&self, dense: usize) -> (r: Entity)
        requires
            self.wf(),
            dense < self.entity_seq().len(),
        ensures
            r == self.entity_seq()[dense as int],
    {
        self.entities[dense]
    }

    /// The value stored at a dense position.
    pub fn value_at(&self, dense: usize) -> (r: &T)
        requires
            self.wf(),
            dense < self.entity_seq().len(),
        ensures
            *r == self.value_seq()[dense as int],
    {
        &self.values[dense]
    }

    /// Entity/value pairs in dense order.
    pub fn iter(&self) -> (r: Vec<(Entity, &T)>)
        requires
            self.wf(),
        ensures
            r@.len() == self.entity_seq().len(),
            forall|d: int|
                0 <= d < r@.len() ==> (#[trigger] r@[d]).0 == self.entity_seq()[d] && *r@[d].1
                    == self.value_seq()[d],
    {
        let mut result: Vec<(Entity, &T)> = Vec::new();
        let mut d: usize = 0;
        while d < self.entities.len()
            invariant
                self.wf(),
                d <= self.entities@.len(),
                result@.len() == d,
                forall|k: int|
                    0 <= k < d ==> (#[trigger] result@[k]).0 == self.entities@[k] && *result@[k].1
                        == self.values@[k],
            decreases self.entities@.len() - d,
        {
            result.push((self.entities[d], &self.values[d]));
            d += 1;
        }
        result
    }

    /// Replaces the value at a dense position.
    pub fn set_at(&mut self, dense: usize, value: T)
        requires
            old(self).wf(),
            dense < old(self).entity_seq().len(),
        ensures
            final(self).wf(),
            final(self).entity_seq() == old(self).entity_seq(),
            final(self).value_seq() == old(self).value_seq().update(dense as int, value),
            forall|e: Entity| #[trigger] final(self).spec_has(e) == old(self).spec_has(e),
            forall|e: Entity| #[trigger] final(self).spec_position(e) == old(self).spec_position(e),
    {
        self.values.set(dense, value);
    }

    /// Sizes of the three vectors backing this storage.
    pub fn storage_stats(&self, kind: u32) -> (stats: ComponentStorageStats)
        ensures
            stats.kind == kind,
            stats.sparse.len as int == self.sparse_len(),
            stats.entities.len as int == self.entity_seq().len(),
            stats.values.len as int == self.value_seq().len(),
    {
        ComponentStorageStats {
            kind,
            sparse: VectorStorageStats::of(&self.sparse),
            entities: VectorStorageStats::of(&self.entities),
            values: VectorStorageStats::of(&self.values),
        }
    }
}

} // verus!
