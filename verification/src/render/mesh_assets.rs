//! Mesh storage with generational handles: a replaced or removed mesh's
//! handle never resolves again, and handles never cross collections.
use vstd::prelude::*;

use std::sync::Arc;

verus! {

/// Meshes one collection may hold at once.
pub const MAX_MESH_ASSETS: usize = 65536;

/// Vertices one mesh may have.
pub const MAX_MESH_VERTICES: usize = 1000000;

/// Indices one mesh may have.
pub const MAX_MESH_INDICES: usize = 3000000;

/// Geometry bytes one mesh may take.
pub const MAX_MESH_BYTES: usize = 67108864;

/// Why a mesh is refused.
#[derive(Clone, Copy, Debug, PartialEq, Eq, Structural)]
pub enum MeshError {
    /// No positions or no indices.
    Empty,
    /// Not one normal per position.
    AttributeLengths,
    /// An index count that is not a whole number of triangles.
    IncompleteTriangle,
    /// Too many vertices or indices, or too many bytes.
    LimitsExceeded,
    /// A position with a non-finite coordinate.
    NonFinitePosition,
    /// A non-finite or zero normal.
    InvalidNormal,
    /// An index past the last position.
    IndexOutOfRange,
    /// A triangle with no area.
    DegenerateTriangle,
    /// A generated shape asked for with an unusable size.
    InvalidSize,
}

/// The variant's name, as its debug form spells it.
pub open spec fn mesh_error_name(e: MeshError) -> Seq<char> {
    match e {
        MeshError::Empty => "Empty"@,
        MeshError::AttributeLengths => "AttributeLengths"@,
        MeshError::IncompleteTriangle => "IncompleteTriangle"@,
        MeshError::LimitsExceeded => "LimitsExceeded"@,
        MeshError::NonFinitePosition => "NonFinitePosition"@,
        MeshError::InvalidNormal => "InvalidNormal"@,
        MeshError::IndexOutOfRange => "IndexOutOfRange"@,
        MeshError::DegenerateTriangle => "DegenerateTriangle"@,
        MeshError::InvalidSize => "InvalidSize"@,
    }
}

impl MeshError {
    /// The error as text: `invalid mesh: ` and the variant's name.
    pub fn message(self) -> (r: String)
        ensures
            r@ == "invalid mesh: "@ + mesh_error_name(self),
    {
        let name = match self {
            MeshError::Empty => "Empty",
            MeshError::AttributeLengths => "AttributeLengths",
            MeshError::IncompleteTriangle => "IncompleteTriangle",
            MeshError::LimitsExceeded => "LimitsExceeded",
            MeshError::NonFinitePosition => "NonFinitePosition",
            MeshError::InvalidNormal => "InvalidNormal",
            MeshError::IndexOutOfRange => "IndexOutOfRange",
            MeshError::DegenerateTriangle => "DegenerateTriangle",
            MeshError::InvalidSize => "InvalidSize",
        };
        "invalid mesh: ".to_owned().concat(name)
    }
}

/// The bytes of a mesh's geometry, 24 per vertex and 4 per index, if the
/// counts and the bytes are within the per-mesh limits.
pub open spec fn geometry_bytes(vertices: nat, indices: nat) -> Result<usize, MeshError> {
    if vertices <= MAX_MESH_VERTICES && indices <= MAX_MESH_INDICES && vertices * 24 + indices * 4
        <= MAX_MESH_BYTES {
        Ok((vertices * 24 + indices * 4) as usize)
    } else {
        Err(MeshError::LimitsExceeded)
    }
}

/// The bytes of a mesh's geometry: 24 per vertex and 4 per index, within
/// the per-mesh limits.
pub fn geometry_size(vertices: usize, indices: usize) -> (r: Result<usize, MeshError>)
    ensures
        r == geometry_bytes(vertices as nat, indices as nat),
{
    let vertex_bytes = match vertices.checked_mul(24) {
        Some(b) => b,
        None => {
            return Err(MeshError::LimitsExceeded);
        },
    };
    let index_bytes = match indices.checked_mul(4) {
        Some(b) => b,
        None => {
            return Err(MeshError::LimitsExceeded);
        },
    };
    let bytes = match vertex_bytes.checked_add(index_bytes) {
        Some(b) => b,
        None => {
            return Err(MeshError::LimitsExceeded);
        },
    };
    if vertices > MAX_MESH_VERTICES || indices > MAX_MESH_INDICES || bytes > MAX_MESH_BYTES {
        Err(MeshError::LimitsExceeded)
    } else {
        Ok(bytes)
    }
}

/// The checks on a mesh's counts, in the order a mesh is checked: both lists
/// non-empty, one normal per position, whole triangles, then the limits.
pub open spec fn counts_checked(positions: nat, normals: nat, indices: nat) -> Result<usize, MeshError> {
    if positions == 0 || indices == 0 {
        Err(MeshError::Empty)
    } else if positions != normals {
        Err(MeshError::AttributeLengths)
    } else if indices % 3 != 0 {
        Err(MeshError::IncompleteTriangle)
    } else {
        geometry_bytes(positions, indices)
    }
}

/// Checks a mesh's counts before any coordinate is read, and gives its
/// geometry bytes.
pub fn check_counts(positions: usize, normals: usize, indices: usize) -> (r: Result<usize, MeshError>)
    ensures
        r == counts_checked(positions as nat, normals as nat, indices as nat),
{
    if positions == 0 || indices == 0 {
        Err(MeshError::Empty)
    } else if positions != normals {
        Err(MeshError::AttributeLengths)
    } else if indices % 3 != 0 {
        Err(MeshError::IncompleteTriangle)
    } else {
        geometry_size(positions, indices)
    }
}

/// Whether every index names one of `vertices` positions.
pub open spec fn indices_in_range(indices: Seq<u32>, vertices: nat) -> bool {
    forall|i: int| 0 <= i < indices.len() ==> (#[trigger] indices[i]) < vertices
}

/// Refuses an index past the last of `vertices` positions.
pub fn check_indices(indices: &[u32], vertices: usize) -> (r: Result<(), MeshError>)
    ensures
        r == if indices_in_range(indices@, vertices as nat) {
            Ok::<(), MeshError>(())
        } else {
            Err(MeshError::IndexOutOfRange)
        },
{
    let mut i: usize = 0;
    while i < indices.len()
        invariant
            i <= indices.len(),
            forall|k: int| 0 <= k < i ==> (#[trigger] indices@[k]) < vertices,
        decreases indices.len() - i,
    {
        if indices[i] as usize >= vertices {
            return Err(MeshError::IndexOutOfRange);
        }
        i = i + 1;
    }
    Ok(())
}

/// `Arc::clone`: another pointer to the same value.
#[verifier::external_body]
fn share<M>(a: &Arc<M>) -> (r: Arc<M>)
    ensures
        r == *a,
{
    Arc::clone(a)
}

/// A mesh's identity within one collection and one version of the mesh.
#[derive(Clone, Copy, Debug, PartialEq, Eq, Hash)]
pub struct MeshHandle {
    collection: u32,
    slot: u32,
    generation: u64,
}

impl View for MeshHandle {
    /// Collection, slot and generation.
    type V = (u32, u32, u64);

    closed spec fn view(&self) -> (u32, u32, u64) {
        (self.collection, self.slot, self.generation)
    }
}

impl MeshHandle {
    /// The collection that issued the handle.
    pub fn collection(&self) -> (r: u32)
        ensures
            r == self@.0,
    {
        self.collection
    }

    /// The slot the mesh occupies.
    pub fn slot(&self) -> (r: u32)
        ensures
            r == self@.1,
    {
        self.slot
    }

    /// The version of the slot the handle names.
    pub fn generation(&self) -> (r: u64)
        ensures
            r == self@.2,
    {
        self.generation
    }
}

/// Why a mesh operation was refused.
#[derive(Clone, Copy, Debug, PartialEq, Eq, Structural)]
pub enum MeshAssetError {
    /// The handle names no current mesh of this collection.
    MissingOrStale,
    /// The collection is full.
    LimitsExceeded,
    /// The slot has no newer version to give.
    GenerationExhausted,
}

struct Slot<M> {
    generation: u64,
    mesh: Option<Arc<M>>,
}

/// A collection of immutable mesh versions. Replacing a mesh gives a new
/// handle and invalidates the old one; a mesh already handed out stays.
pub struct MeshAssets<M> {
    collection: u32,
    slots: Vec<Slot<M>>,
}

impl<M> MeshAssets<M> {
    /// The generation and content of every slot.
    pub closed spec fn slots_view(&self) -> Seq<(u64, Option<M>)> {
        self.slots@.map_values(|s: Slot<M>| (s.generation, match s.mesh {
            Some(m) => Some(*m),
            None => None,
        }))
    }

    /// A collection within its slot limit.
    pub closed spec fn wf(&self) -> bool {
        self.slots@.len() <= MAX_MESH_ASSETS
    }

    /// The identity of this collection.
    pub closed spec fn collection_id(&self) -> u32 {
        self.collection
    }

    /// The mesh a handle resolves to.
    pub open spec fn resolves(&self, h: MeshHandle) -> Option<M> {
        if h@.0 == self.collection_id() && h@.1 < self.slots_view().len() && self.slots_view()[h@.1 as int].0
            == h@.2 {
            self.slots_view()[h@.1 as int].1
        } else {
            None
        }
    }

    /// Whether no slot's generation went back and no handle that did not
    /// resolve before resolves now, except `fresh`.
    pub open spec fn no_revival(&self, later: &Self, fresh: Option<MeshHandle>) -> bool {
        &&& later.collection_id() == self.collection_id()
        &&& later.slots_view().len() >= self.slots_view().len()
        &&& forall|k: int| 0 <= k < self.slots_view().len() ==> #[trigger] later.slots_view()[k].0 >= self.slots_view()[k].0
        &&& forall|h: MeshHandle| #[trigger] later.resolves(h) is Some ==> (self.resolves(h) == later.resolves(h) || Some(h) == fresh)
    }

    /// An empty collection with identity `collection`.
    pub fn with_collection(collection: u32) -> (r: MeshAssets<M>)
        ensures
            r.wf(),
            r.collection_id() == collection,
            r.slots_view().len() == 0,
            forall|h: MeshHandle| #[trigger] r.resolves(h) is None,
    {
        let r = MeshAssets { collection, slots: Vec::new() };
        proof {
            assert(r.slots_view().len() == 0);
        }
        r
    }

    /// Stores `mesh` in the first free slot with versions left, or a new
    /// slot, and gives its handle.
    pub fn insert(&mut self, mesh: M) -> (r: Result<MeshHandle, MeshAssetError>)
        requires
            old(self).wf(),
        ensures
            final(self).wf(),
            match r {
                Ok(h) => {
                    &&& final(self).resolves(h) == Some(mesh)
                    &&& old(self).resolves(h) is None
                    &&& old(self).no_revival(&*final(self), Some(h))
                    &&& forall|g: MeshHandle| g != h ==> #[trigger] final(self).resolves(g) == old(self).resolves(g)
                },
                Err(e) => {
                    &&& e == MeshAssetError::LimitsExceeded
                    &&& old(self).slots_view().len() >= MAX_MESH_ASSETS
                    &&& forall|k: int| 0 <= k < old(self).slots_view().len() ==> !(#[trigger] old(self).slots_view()[k].1 is None
                        && old(self).slots_view()[k].0 < u64::MAX)
                    &&& final(self).slots_view() == old(self).slots_view()
                    &&& final(self).collection_id() == old(self).collection_id()
                },
            },
    {
        let ghost before = self.slots_view();
        let n = self.slots.len();
        assert(n <= MAX_MESH_ASSETS);
        let mut i: usize = 0;
        while i < n && !(self.slots[i].mesh.is_none() && self.slots[i].generation < u64::MAX)
            invariant
                n == self.slots@.len(),
                n <= MAX_MESH_ASSETS,
                before == self.slots_view(),
                i <= n,
                forall|k: int| 0 <= k < i ==> !(#[trigger] before[k].1 is None && before[k].0 < u64::MAX),
            decreases n - i,
        {
            i += 1;
        }
        if i < n {
            let generation = self.slots[i].generation + 1;
            let slot = Slot { generation, mesh: Some(Arc::new(mesh)) };
            self.slots.set(i, slot);
            let h = MeshHandle { collection: self.collection, slot: i as u32, generation };
            proof {
                assert(before[i as int].1 is None && before[i as int].0 < u64::MAX);
                assert(self.slots_view() =~= before.update(i as int, (generation, Some(mesh))));
                assert forall|g: MeshHandle| g != h implies #[trigger] self.resolves(g) == old(self).resolves(g) by {
                    if g@.0 == self.collection && g@.1 == i as u32 && g@.2 == generation {
                        assert(g == h);
                    }
                }
            }
            Ok(h)
        } else {
            if n >= MAX_MESH_ASSETS {
                return Err(MeshAssetError::LimitsExceeded);
            }
            self.slots.push(Slot { generation: 1, mesh: Some(Arc::new(mesh)) });
            let h = MeshHandle { collection: self.collection, slot: n as u32, generation: 1 };
            proof {
                assert(self.slots_view() =~= before.push((1, Some(mesh))));
                assert forall|g: MeshHandle| g != h implies #[trigger] self.resolves(g) == old(self).resolves(g) by {
                    if g@.0 == self.collection && g@.1 == n as u32 && g@.2 == 1 {
                        assert(g == h);
                    }
                }
            }
            Ok(h)
        }
    }
}

impl<M> MeshAssets<M> {
    /// The slot of the current mesh `h` names.
    fn locate(&self, h: MeshHandle) -> (r: Option<usize>)
        ensures
            match r {
                Some(i) => i == h@.1 && self.resolves(h) is Some && i < self.slots@.len(),
                None => self.resolves(h) is None,
            },
    {
        if h.collection != self.collection {
            return None;
        }
        let i = h.slot as usize;
        if i < self.slots.len() && self.slots[i].generation == h.generation && self.slots[i].mesh.is_some() {
            Some(i)
        } else {
            None
        }
    }

    /// The mesh `h` names, shared.
    pub fn get(&self, h: MeshHandle) -> (r: Result<Arc<M>, MeshAssetError>)
        ensures
            match self.resolves(h) {
                Some(m) => r matches Ok(a) && *a == m,
                None => r == Err::<Arc<M>, MeshAssetError>(MeshAssetError::MissingOrStale),
            },
    {
        match self.locate(h) {
            Some(i) => match &self.slots[i].mesh {
                Some(a) => Ok(share(a)),
                None => Err(MeshAssetError::MissingOrStale),
            },
            None => Err(MeshAssetError::MissingOrStale),
        }
    }

    /// Takes the mesh `h` names out of the collection; the slot keeps its
    /// version, so `h` never resolves again.
    pub fn remove(&mut self, h: MeshHandle) -> (r: Result<Arc<M>, MeshAssetError>)
        requires
            old(self).wf(),
        ensures
            final(self).wf(),
            match old(self).resolves(h) {
                Some(m) => {
                    &&& r matches Ok(a) && *a == m
                    &&& final(self).resolves(h) is None
                    &&& old(self).no_revival(&*final(self), None)
                    &&& forall|g: MeshHandle| g != h ==> #[trigger] final(self).resolves(g) == old(self).resolves(g)
                },
                None => {
                    &&& r == Err::<Arc<M>, MeshAssetError>(MeshAssetError::MissingOrStale)
                    &&& final(self).slots_view() == old(self).slots_view()
                    &&& final(self).collection_id() == old(self).collection_id()
                },
            },
    {
        let i = match self.locate(h) {
            Some(i) => i,
            None => {
                return Err(MeshAssetError::MissingOrStale);
            },
        };
        let ghost before = self.slots_view();
        let generation = self.slots[i].generation;
        let taken = self.slots.remove(i);
        self.slots.insert(i, Slot { generation, mesh: None });
        proof {
            assert(self.slots_view() =~= before.update(i as int, (generation, None)));
            assert forall|g: MeshHandle| g != h implies #[trigger] self.resolves(g) == old(self).resolves(g) by {
                if g@.0 == self.collection && g@.1 == i as u32 && g@.2 == generation {
                    assert(g == h);
                }
            }
        }
        match taken.mesh {
            Some(a) => Ok(a),
            None => Err(MeshAssetError::MissingOrStale),
        }
    }

    /// Stores a new version of the mesh `h` names and gives its handle; `h`
    /// stops resolving, and meshes already handed out stay as they were.
    pub fn replace(&mut self, h: MeshHandle, mesh: M) -> (r: Result<MeshHandle, MeshAssetError>)
        requires
            old(self).wf(),
        ensures
            final(self).wf(),
            old(self).resolves(h) is None ==> r == Err::<MeshHandle, MeshAssetError>(MeshAssetError::MissingOrStale),
            old(self).resolves(h) is Some && h@.2 == u64::MAX ==> r == Err::<MeshHandle, MeshAssetError>(
                MeshAssetError::GenerationExhausted,
            ),
            r is Err ==> final(self).slots_view() == old(self).slots_view() && final(self).collection_id() == old(
                self,
            ).collection_id(),
            r matches Ok(n) ==> {
                &&& old(self).resolves(h) is Some
                &&& n@ == (h@.0, h@.1, (h@.2 + 1) as u64)
                &&& final(self).resolves(n) == Some(mesh)
                &&& final(self).resolves(h) is None
                &&& old(self).no_revival(&*final(self), Some(n))
                &&& forall|g: MeshHandle| g != h && g != n ==> #[trigger] final(self).resolves(g) == old(self).resolves(g)
            },
    {
        let i = match self.locate(h) {
            Some(i) => i,
            None => {
                return Err(MeshAssetError::MissingOrStale);
            },
        };
        let generation = match self.slots[i].generation.checked_add(1) {
            Some(g) => g,
            None => {
                return Err(MeshAssetError::GenerationExhausted);
            },
        };
        let ghost before = self.slots_view();
        self.slots.set(i, Slot { generation, mesh: Some(Arc::new(mesh)) });
        let n = MeshHandle { collection: h.collection, slot: h.slot, generation };
        proof {
            assert(self.slots_view() =~= before.update(i as int, (generation, Some(mesh))));
            assert forall|g: MeshHandle| g != h && g != n implies #[trigger] self.resolves(g) == old(self).resolves(g) by {
                if g@.0 == self.collection && g@.1 == i as u32 && g@.2 == generation {
                    assert(g == n);
                }
                if g@.0 == self.collection && g@.1 == i as u32 && g@.2 == generation - 1 {
                    assert(g == h);
                }
            }
        }
        Ok(n)
    }
}

} // verus!
