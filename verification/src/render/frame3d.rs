//! Owned 3D frame snapshots: every draw resolves its mesh version, the
//! frame stays within its budgets, and draws are sorted by a unique order
//! key. An invalid frame is refused whole.
use vstd::prelude::*;

use std::sync::Arc;

use crate::render::mesh_assets::{MeshAssetError, MeshAssets, MeshHandle};

verus! {

broadcast use vstd::std_specs::vec::group_vec_axioms;

/// Draws one frame may hold.
pub const MAX_FRAME_DRAWS: usize = 65536;

/// Geometry bytes one frame may charge.
pub const MAX_FRAME_GEOMETRY_BYTES: usize = 268435456;

/// Why 3D math refused its inputs.
#[derive(Clone, Copy, Debug, PartialEq, Eq, Structural)]
pub enum MathError {
    NonFinite,
    ZeroLength,
    InvalidScale,
    InvalidProjection,
    Unrepresentable,
}

/// Opaque sRGB authoring color.
#[derive(Clone, Copy, Debug, PartialEq, Eq, Structural)]
pub struct BaseColor {
    pub red: u8,
    pub green: u8,
    pub blue: u8,
}

impl BaseColor {
    /// The color with these channels.
    pub fn rgb(red: u8, green: u8, blue: u8) -> (r: BaseColor)
        ensures
            r == (BaseColor { red, green, blue }),
    {
        BaseColor { red, green, blue }
    }

    /// White.
    pub fn white() -> (r: BaseColor)
        ensures
            r == (BaseColor { red: 255, green: 255, blue: 255 }),
    {
        BaseColor { red: 255, green: 255, blue: 255 }
    }
}

/// Per-frame budgets, at most the hard caps. Geometry is charged once per
/// draw, even when draws share a mesh.
#[derive(Clone, Copy, Debug, PartialEq, Eq, Structural)]
pub struct Frame3dLimits {
    pub max_draws: usize,
    pub max_geometry_bytes: usize,
}

impl Default for Frame3dLimits {
    fn default() -> (r: Self)
        ensures
            r == (Frame3dLimits { max_draws: MAX_FRAME_DRAWS, max_geometry_bytes: MAX_FRAME_GEOMETRY_BYTES }),
    {
        Frame3dLimits { max_draws: MAX_FRAME_DRAWS, max_geometry_bytes: MAX_FRAME_GEOMETRY_BYTES }
    }
}

/// Why a frame was refused.
#[derive(Clone, Copy, Debug, PartialEq, Eq, Structural)]
pub enum Frame3dError {
    Math(MathError),
    Asset(MeshAssetError),
    InvalidLighting,
    InvalidLimits,
    TooManyDraws,
    TooMuchGeometry,
    DuplicateOrder(u64),
}

/// A game-authored draw; `order` is a unique key within one frame.
#[derive(Clone, Copy, Debug, PartialEq)]
pub struct Draw3d<T> {
    pub mesh: MeshHandle,
    pub transform: T,
    pub color: BaseColor,
    pub order: u64,
}

/// A resolved draw, holding its exact mesh version.
#[derive(Clone, Debug)]
pub struct FrameDraw3d<T, M> {
    draw: Draw3d<T>,
    mesh: Arc<M>,
}

impl<T, M> FrameDraw3d<T, M> {
    /// The draw and its mesh as values.
    pub closed spec fn pair(&self) -> (Draw3d<T>, M) {
        (self.draw, *self.mesh)
    }

    /// The draw as authored.
    pub fn draw(&self) -> (r: &Draw3d<T>)
        ensures
            *r == self.pair().0,
    {
        &self.draw
    }

    /// The mesh version the draw resolved to.
    pub fn mesh(&self) -> (r: &M)
        ensures
            *r == self.pair().1,
    {
        &self.mesh
    }
}

/// An owned frame: camera, lighting, and resolved draws sorted by order.
#[derive(Clone, Debug)]
pub struct RenderFrame3d<C, L, T, M> {
    camera: C,
    lighting: L,
    draws: Vec<FrameDraw3d<T, M>>,
    geometry_bytes: usize,
}

/// What a frame build has gathered: the resolved draws sorted by order, and
/// the geometry charged.
pub type FrameScan<T, M> = (Seq<(Draw3d<T>, M)>, nat);

/// `s` with `e` placed before the entries of larger order.
pub open spec fn insert_by_order<T, M>(s: Seq<(Draw3d<T>, M)>, e: (Draw3d<T>, M)) -> Seq<(Draw3d<T>, M)>
    decreases s.len(),
{
    if s.len() == 0 || s.last().0.order < e.0.order {
        s.push(e)
    } else {
        insert_by_order(s.drop_last(), e).push(s.last())
    }
}

/// Entries in strictly increasing order.
pub open spec fn orders_increase<T, M>(s: Seq<(Draw3d<T>, M)>) -> bool {
    forall|i: int, j: int| 0 <= i < j < s.len() ==> #[trigger] s[i].0.order < #[trigger] s[j].0.order
}

/// Whether some entry has order `order`.
pub open spec fn has_order<T, M>(s: Seq<(Draw3d<T>, M)>, order: u64) -> bool {
    exists|i: int| 0 <= i < s.len() && #[trigger] s[i].0.order == order
}

/// One draw added to a frame build: within the draw budget, with a new
/// order, a current mesh, room in the geometry budget, and a transform
/// that composes with the camera.
pub open spec fn frame_step<T, M>(
    scan: FrameScan<T, M>,
    limits: Frame3dLimits,
    assets: MeshAssets<M>,
    d: Draw3d<T>,
    bytes_of: spec_fn(M) -> usize,
    composes: spec_fn(T) -> Result<(), MathError>,
) -> Result<FrameScan<T, M>, Frame3dError> {
    if scan.0.len() == limits.max_draws {
        Err(Frame3dError::TooManyDraws)
    } else if has_order(scan.0, d.order) {
        Err(Frame3dError::DuplicateOrder(d.order))
    } else {
        match assets.resolves(d.mesh) {
            None => Err(Frame3dError::Asset(MeshAssetError::MissingOrStale)),
            Some(m) => if scan.1 + bytes_of(m) > limits.max_geometry_bytes {
                Err(Frame3dError::TooMuchGeometry)
            } else {
                match composes(d.transform) {
                    Err(e) => Err(Frame3dError::Math(e)),
                    Ok(_) => Ok((insert_by_order(scan.0, (d, m)), (scan.1 + bytes_of(m)) as nat)),
                }
            },
        }
    }
}

/// The build over the first draws, or its first error.
pub open spec fn frame_scan<T, M>(
    draws: Seq<Draw3d<T>>,
    limits: Frame3dLimits,
    assets: MeshAssets<M>,
    bytes_of: spec_fn(M) -> usize,
    composes: spec_fn(T) -> Result<(), MathError>,
) -> Result<FrameScan<T, M>, Frame3dError>
    decreases draws.len(),
{
    if draws.len() == 0 {
        Ok((Seq::empty(), 0))
    } else {
        match frame_scan(draws.drop_last(), limits, assets, bytes_of, composes) {
            Err(e) => Err(e),
            Ok(scan) => frame_step(scan, limits, assets, draws.last(), bytes_of, composes),
        }
    }
}

/// The frame that `draws` make, or why it is refused.
pub open spec fn frame_spec<T, M>(
    draws: Seq<Draw3d<T>>,
    limits: Frame3dLimits,
    assets: MeshAssets<M>,
    bytes_of: spec_fn(M) -> usize,
    composes: spec_fn(T) -> Result<(), MathError>,
) -> Result<FrameScan<T, M>, Frame3dError> {
    if limits.max_draws > MAX_FRAME_DRAWS || limits.max_geometry_bytes > MAX_FRAME_GEOMETRY_BYTES {
        Err(Frame3dError::InvalidLimits)
    } else {
        frame_scan(draws, limits, assets, bytes_of, composes)
    }
}

/// The sizes `geometry` gives are those of `bytes_of`.
pub open spec fn sizes_as<M, G: Fn(&M) -> usize>(geometry: G, bytes_of: spec_fn(M) -> usize) -> bool {
    forall|m: &M, r: usize| #[trigger] geometry.ensures((m,), r) ==> r == bytes_of(*m)
}

/// The verdicts `compose` gives are those of `composes`.
pub open spec fn composes_as<T, K: Fn(&T) -> Result<(), MathError>>(
    compose: K,
    composes: spec_fn(T) -> Result<(), MathError>,
) -> bool {
    forall|t: &T, r: Result<(), MathError>| #[trigger] compose.ensures((t,), r) ==> r == composes(*t)
}

/// Where an entry of order `order` goes: after those of smaller order.
pub open spec fn order_position<T, M>(s: Seq<(Draw3d<T>, M)>, order: u64) -> nat
    decreases s.len(),
{
    if s.len() == 0 || s.last().0.order < order {
        s.len()
    } else {
        order_position(s.drop_last(), order)
    }
}

proof fn lemma_order_position<T, M>(s: Seq<(Draw3d<T>, M)>, e: (Draw3d<T>, M))
    requires
        orders_increase(s),
        !has_order(s, e.0.order),
    ensures
        order_position(s, e.0.order) <= s.len(),
        forall|i: int| 0 <= i < order_position(s, e.0.order) ==> #[trigger] s[i].0.order < e.0.order,
        forall|i: int| order_position(s, e.0.order) <= i < s.len() ==> #[trigger] s[i].0.order > e.0.order,
        insert_by_order(s, e) == s.take(order_position(s, e.0.order) as int).push(e) + s.skip(
            order_position(s, e.0.order) as int,
        ),
        orders_increase(insert_by_order(s, e)),
    decreases s.len(),
{
    let o = e.0.order;
    if s.len() == 0 {
        assert(s.take(0).push(e) + s.skip(0) =~= s.push(e));
    } else if s.last().0.order < o {
        assert forall|i: int| 0 <= i < s.len() implies #[trigger] s[i].0.order < o by {
            if i < s.len() - 1 {
                assert(s[i].0.order < s[s.len() - 1].0.order);
            }
        }
        assert(s.take(s.len() as int).push(e) + s.skip(s.len() as int) =~= s.push(e));
    } else {
        let d = s.drop_last();
        assert forall|i: int, j: int| 0 <= i < j < d.len() implies #[trigger] d[i].0.order < #[trigger] d[j].0.order by {
            assert(d[i] == s[i] && d[j] == s[j]);
        }
        assert(!has_order(d, o)) by {
            if has_order(d, o) {
                let i = choose|i: int| 0 <= i < d.len() && #[trigger] d[i].0.order == o;
                assert(s[i].0.order == o);
            }
        }
        lemma_order_position(d, e);
        assert(s[s.len() - 1].0.order != o);
        let k = order_position(d, o) as int;
        assert forall|i: int| 0 <= i < k implies #[trigger] s[i].0.order < o by {
            assert(d[i] == s[i]);
        }
        assert forall|i: int| k <= i < s.len() implies #[trigger] s[i].0.order > o by {
            if i < s.len() - 1 {
                assert(d[i] == s[i]);
            }
        }
        assert((d.take(k).push(e) + d.skip(k)).push(s.last()) =~= s.take(k).push(e) + s.skip(k));
    }
    let k = order_position(s, o) as int;
    let t = insert_by_order(s, e);
    assert forall|i: int, j: int| 0 <= i < j < t.len() implies #[trigger] t[i].0.order < #[trigger] t[j].0.order by {
        if j < k {
            assert(t[i] == s[i] && t[j] == s[j]);
        } else if j == k {
            assert(t[i] == s[i]);
        } else if i < k {
            assert(t[i] == s[i] && t[j] == s[j - 1]);
        } else if i == k {
            assert(t[j] == s[j - 1]);
        } else {
            assert(t[i] == s[i - 1] && t[j] == s[j - 1]);
        }
    }
}

/// The draws and meshes of resolved entries.
pub open spec fn pairs<T, M>(v: Seq<FrameDraw3d<T, M>>) -> Seq<(Draw3d<T>, M)> {
    v.map_values(|f: FrameDraw3d<T, M>| f.pair())
}

fn contains_order<T, M>(v: &Vec<FrameDraw3d<T, M>>, order: u64) -> (r: bool)
    ensures
        r == has_order(pairs(v@), order),
{
    let mut i: usize = 0;
    while i < v.len()
        invariant
            i <= v@.len(),
            forall|j: int| 0 <= j < i ==> (#[trigger] pairs(v@)[j]).0.order != order,
        decreases v@.len() - i,
    {
        if v[i].draw.order == order {
            proof {
                assert(pairs(v@)[i as int].0.order == order);
            }
            return true;
        }
        i += 1;
    }
    false
}

fn insert_entry<T: Copy, M>(v: &mut Vec<FrameDraw3d<T, M>>, f: FrameDraw3d<T, M>)
    requires
        orders_increase(pairs(old(v)@)),
        !has_order(pairs(old(v)@), f.pair().0.order),
    ensures
        pairs(final(v)@) == insert_by_order(pairs(old(v)@), f.pair()),
        orders_increase(pairs(final(v)@)),
{
    let ghost s = pairs(v@);
    let ghost e = f.pair();
    proof {
        lemma_order_position(s, e);
    }
    let order = f.draw.order;
    let n = v.len();
    let mut k: usize = 0;
    while k < n && v[k].draw.order < order
        invariant
            n == v@.len(),
            s == pairs(v@),
            k <= order_position(s, order),
            order_position(s, order) <= n,
            forall|i: int| order_position(s, order) <= i < n ==> #[trigger] s[i].0.order > order,
        decreases n - k,
    {
        proof {
            assert(s[k as int].0.order == v@[k as int].pair().0.order);
        }
        k += 1;
    }
    proof {
        if k < order_position(s, order) {
            assert(s[k as int].0.order == v@[k as int].pair().0.order);
        }
    }
    v.insert(k, f);
    proof {
        assert(pairs(v@) =~= s.take(k as int).push(e) + s.skip(k as int));
    }
}

impl<C, L, T: Copy, M> RenderFrame3d<C, L, T, M> {
    /// The resolved draws as values, in order.
    pub closed spec fn spec_draws(&self) -> Seq<(Draw3d<T>, M)> {
        pairs(self.draws@)
    }

    /// The geometry charged.
    pub closed spec fn spec_geometry_bytes(&self) -> usize {
        self.geometry_bytes
    }

    /// The camera.
    pub closed spec fn spec_camera(&self) -> C {
        self.camera
    }

    /// The lighting.
    pub closed spec fn spec_lighting(&self) -> L {
        self.lighting
    }

    /// Builds a frame: checks the limits against the hard caps, then each
    /// draw in turn against the draw budget, for a new order key, for a
    /// current mesh, against the geometry budget (with sizes from
    /// `geometry`), and for a transform that `compose` accepts with the
    /// camera. Draws are kept sorted by order.
    pub fn new<G: Fn(&M) -> usize, K: Fn(&T) -> Result<(), MathError>>(
        camera: C,
        lighting: L,
        assets: &MeshAssets<M>,
        draws: Vec<Draw3d<T>>,
        limits: Frame3dLimits,
        geometry: G,
        compose: K,
    ) -> (r: Result<Self, Frame3dError>)
        requires
            forall|m: &M| geometry.requires((m,)),
            forall|t: &T| compose.requires((t,)),
        ensures
            forall|bytes_of: spec_fn(M) -> usize, composes: spec_fn(T) -> Result<(), MathError>|
                #[trigger] sizes_as(geometry, bytes_of) && #[trigger] composes_as(compose, composes) ==> match frame_spec(
                    draws@,
                    limits,
                    *assets,
                    bytes_of,
                    composes,
                ) {
                    Ok(scan) => r matches Ok(f) && f.spec_draws() == scan.0 && f.spec_geometry_bytes() == scan.1,
                    Err(e) => r == Err::<Self, Frame3dError>(e),
                },
            r matches Ok(f) ==> f.spec_camera() == camera && f.spec_lighting() == lighting && orders_increase(f.spec_draws()),
    {
        if limits.max_draws > MAX_FRAME_DRAWS || limits.max_geometry_bytes > MAX_FRAME_GEOMETRY_BYTES {
            return Err(Frame3dError::InvalidLimits);
        }
        let mut resolved: Vec<FrameDraw3d<T, M>> = Vec::new();
        let mut bytes: usize = 0;
        let mut i: usize = 0;
        proof {
            assert(pairs(resolved@) =~= Seq::<(Draw3d<T>, M)>::empty());
            assert(draws@.take(0) =~= Seq::<Draw3d<T>>::empty());
        }
        while i < draws.len()
            invariant
                i <= draws@.len(),
                limits.max_draws <= MAX_FRAME_DRAWS,
                limits.max_geometry_bytes <= MAX_FRAME_GEOMETRY_BYTES,
                bytes <= limits.max_geometry_bytes,
                orders_increase(pairs(resolved@)),
                forall|m: &M| geometry.requires((m,)),
                forall|t: &T| compose.requires((t,)),
                forall|bytes_of: spec_fn(M) -> usize, composes: spec_fn(T) -> Result<(), MathError>|
                    #[trigger] sizes_as(geometry, bytes_of) && #[trigger] composes_as(compose, composes)
                        ==> frame_scan(draws@.take(i as int), limits, *assets, bytes_of, composes) == Ok::<
                        FrameScan<T, M>,
                        Frame3dError,
                    >((pairs(resolved@), bytes as nat)),
            decreases draws@.len() - i,
        {
            let d = draws[i];
            let ghost prefix = draws@.take(i as int + 1);
            proof {
                assert(prefix.drop_last() =~= draws@.take(i as int));
                assert(prefix.last() == d);
            }
            let failure: Option<Frame3dError> = if resolved.len() == limits.max_draws {
                Some(Frame3dError::TooManyDraws)
            } else if contains_order(&resolved, d.order) {
                Some(Frame3dError::DuplicateOrder(d.order))
            } else {
                None
            };
            if let Some(e) = failure {
                proof {
                    assert forall|bytes_of: spec_fn(M) -> usize, composes: spec_fn(T) -> Result<(), MathError>|
                        #[trigger] sizes_as(geometry, bytes_of) && #[trigger] composes_as(compose, composes)
                            implies frame_spec(draws@, limits, *assets, bytes_of, composes) == Err::<
                            FrameScan<T, M>,
                            Frame3dError,
                        >(e) by {
                        lemma_frame_error_persists(draws@, i as int + 1, limits, *assets, bytes_of, composes);
                    }
                }
                return Err(e);
            }
            let mesh = match assets.get(d.mesh) {
                Ok(a) => a,
                Err(_) => {
                    proof {
                        assert forall|bytes_of: spec_fn(M) -> usize, composes: spec_fn(T) -> Result<(), MathError>|
                            #[trigger] sizes_as(geometry, bytes_of) && #[trigger] composes_as(compose, composes)
                                implies frame_spec(draws@, limits, *assets, bytes_of, composes) == Err::<
                                FrameScan<T, M>,
                                Frame3dError,
                            >(Frame3dError::Asset(MeshAssetError::MissingOrStale)) by {
                            lemma_frame_error_persists(draws@, i as int + 1, limits, *assets, bytes_of, composes);
                        }
                    }
                    return Err(Frame3dError::Asset(MeshAssetError::MissingOrStale));
                },
            };
            let size = geometry(&*mesh);
            let within = match bytes.checked_add(size) {
                Some(total) => if total <= limits.max_geometry_bytes {
                    Some(total)
                } else {
                    None
                },
                None => None,
            };
            let total = match within {
                Some(t) => t,
                None => {
                    proof {
                        assert forall|bytes_of: spec_fn(M) -> usize, composes: spec_fn(T) -> Result<(), MathError>|
                            #[trigger] sizes_as(geometry, bytes_of) && #[trigger] composes_as(compose, composes)
                                implies frame_spec(draws@, limits, *assets, bytes_of, composes) == Err::<
                                FrameScan<T, M>,
                                Frame3dError,
                            >(Frame3dError::TooMuchGeometry) by {
                            assert(geometry.ensures((&*mesh,), size));
                            lemma_frame_error_persists(draws@, i as int + 1, limits, *assets, bytes_of, composes);
                        }
                    }
                    return Err(Frame3dError::TooMuchGeometry);
                },
            };
            let verdict = compose(&d.transform);
            if let Err(e) = verdict {
                proof {
                    assert forall|bytes_of: spec_fn(M) -> usize, composes: spec_fn(T) -> Result<(), MathError>|
                        #[trigger] sizes_as(geometry, bytes_of) && #[trigger] composes_as(compose, composes)
                            implies frame_spec(draws@, limits, *assets, bytes_of, composes) == Err::<
                            FrameScan<T, M>,
                            Frame3dError,
                        >(Frame3dError::Math(e)) by {
                        assert(geometry.ensures((&*mesh,), size));
                        assert(compose.ensures((&d.transform,), verdict));
                        lemma_frame_error_persists(draws@, i as int + 1, limits, *assets, bytes_of, composes);
                    }
                }
                return Err(Frame3dError::Math(e));
            }
            let entry = FrameDraw3d { draw: d, mesh };
            let ghost before = pairs(resolved@);
            insert_entry(&mut resolved, entry);
            bytes = total;
            proof {
                assert forall|bytes_of: spec_fn(M) -> usize, composes: spec_fn(T) -> Result<(), MathError>|
                    #[trigger] sizes_as(geometry, bytes_of) && #[trigger] composes_as(compose, composes)
                        implies frame_scan(draws@.take(i as int + 1), limits, *assets, bytes_of, composes) == Ok::<
                        FrameScan<T, M>,
                        Frame3dError,
                    >((pairs(resolved@), bytes as nat)) by {
                    assert(geometry.ensures((&*mesh,), size));
                    assert(compose.ensures((&d.transform,), verdict));
                }
            }
            i += 1;
        }
        proof {
            assert(draws@.take(i as int) =~= draws@);
        }
        Ok(RenderFrame3d { camera, lighting, draws: resolved, geometry_bytes: bytes })
    }

    /// The camera.
    pub fn camera(&self) -> (r: &C)
        ensures
            *r == self.spec_camera(),
    {
        &self.camera
    }

    /// The lighting.
    pub fn lighting(&self) -> (r: &L)
        ensures
            *r == self.spec_lighting(),
    {
        &self.lighting
    }

    /// The resolved draws, sorted by order.
    pub fn draws(&self) -> (r: &[FrameDraw3d<T, M>])
        ensures
            pairs(r@) == self.spec_draws(),
    {
        self.draws.as_slice()
    }

    /// The geometry charged, once per draw.
    pub fn geometry_bytes(&self) -> (r: usize)
        ensures
            r == self.spec_geometry_bytes(),
    {
        self.geometry_bytes
    }
}

proof fn lemma_frame_error_persists<T, M>(
    draws: Seq<Draw3d<T>>,
    k: int,
    limits: Frame3dLimits,
    assets: MeshAssets<M>,
    bytes_of: spec_fn(M) -> usize,
    composes: spec_fn(T) -> Result<(), MathError>,
)
    requires
        0 <= k <= draws.len(),
        frame_scan(draws.take(k), limits, assets, bytes_of, composes) is Err,
    ensures
        frame_scan(draws, limits, assets, bytes_of, composes) == frame_scan(draws.take(k), limits, assets, bytes_of, composes),
    decreases draws.len() - k,
{
    if k < draws.len() {
        assert(draws.take(k + 1).drop_last() =~= draws.take(k));
        lemma_frame_error_persists(draws, k + 1, limits, assets, bytes_of, composes);
    } else {
        assert(draws.take(k) =~= draws);
    }
}

} // verus!
