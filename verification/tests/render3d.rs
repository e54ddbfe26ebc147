use titan::render::frame3d::{BaseColor, Draw3d, Frame3dError, Frame3dLimits, MathError, RenderFrame3d};
use titan::render::mesh_assets::{
    check_counts, check_indices, geometry_size, MeshAssetError, MeshAssets, MeshError, MeshHandle,
};

#[derive(Clone, Debug, PartialEq)]
struct TestMesh {
    positions: usize,
    indices: usize,
    first_z: f32,
}

fn cube(size: f32) -> TestMesh {
    TestMesh { positions: 24, indices: 36, first_z: size / 2.0 }
}

fn floor(_size: f32) -> TestMesh {
    TestMesh { positions: 4, indices: 6, first_z: 0.0 }
}

fn bytes(mesh: &TestMesh) -> usize {
    geometry_size(mesh.positions, mesh.indices).unwrap()
}

fn draw(mesh: MeshHandle, order: u64) -> Draw3d<f32> {
    Draw3d { mesh, transform: 1.0, color: BaseColor::white(), order }
}

fn build(
    assets: &MeshAssets<TestMesh>,
    draws: Vec<Draw3d<f32>>,
    limits: Frame3dLimits,
) -> Result<RenderFrame3d<(), (), f32, TestMesh>, Frame3dError> {
    RenderFrame3d::new((), (), assets, draws, limits, bytes, |t: &f32| {
        if t.is_finite() { Ok(()) } else { Err(MathError::NonFinite) }
    })
}

#[test]
fn handles_are_collection_scoped_and_snapshots_keep_versions() {
    let mut assets = MeshAssets::with_collection(1);
    let first = assets.insert(cube(2.0)).unwrap();
    let retained = assets.get(first).unwrap();
    let second = assets.replace(first, floor(4.0)).unwrap();
    assert_ne!(first, second);
    assert!(matches!(assets.get(first), Err(MeshAssetError::MissingOrStale)));
    assert_eq!(retained.positions, 24);
    let removed = assets.remove(second).unwrap();
    assert_eq!(removed.positions, 4);
    assert!(assets.remove(second).is_err());
    let third = assets.insert(cube(8.0)).unwrap();
    assert_eq!(second.slot(), third.slot());
    assert_ne!(second.generation(), third.generation());
    assert!(assets.get(second).is_err());
    let mut other = MeshAssets::with_collection(2);
    let other_handle = other.insert(cube(1.0)).unwrap();
    assert!(other.get(third).is_err());
    assert!(assets.get(other_handle).is_err());
    drop(assets);
    assert!(MeshAssets::<TestMesh>::with_collection(3).get(third).is_err());
    assert_eq!(retained.first_z, 1.0);
}

#[test]
fn geometry_is_bounded_per_mesh() {
    assert_eq!(geometry_size(24, 36), Ok(720));
    assert_eq!(geometry_size(usize::MAX, 3), Err(MeshError::LimitsExceeded));
    assert_eq!(geometry_size(3, usize::MAX), Err(MeshError::LimitsExceeded));
    assert_eq!(geometry_size(1_000_001, 3), Err(MeshError::LimitsExceeded));
    assert_eq!(geometry_size(3, 3_000_001), Err(MeshError::LimitsExceeded));
    assert_eq!(geometry_size(1_000_000, 3_000_000), Ok(36_000_000));
    assert_eq!(geometry_size(1_000_000, 0), Ok(24_000_000));
}

#[test]
fn sorted_snapshot_retains_assets_after_replacement_and_collection_drop() {
    let mut assets = MeshAssets::with_collection(1);
    let mesh = assets.insert(cube(2.0)).unwrap();
    let frame = build(&assets, vec![draw(mesh, 9), draw(mesh, 1), draw(mesh, 5)], Frame3dLimits::default()).unwrap();
    let reverse = build(&assets, vec![draw(mesh, 5), draw(mesh, 1), draw(mesh, 9)], Frame3dLimits::default()).unwrap();
    assert_eq!(
        frame.draws().iter().map(|d| *d.draw()).collect::<Vec<_>>(),
        reverse.draws().iter().map(|d| *d.draw()).collect::<Vec<_>>()
    );
    assert_eq!(frame.draws().iter().map(|d| d.draw().order).collect::<Vec<_>>(), [1, 5, 9]);
    assets.replace(mesh, floor(4.0)).unwrap();
    assert!(matches!(
        build(&assets, vec![draw(mesh, 0)], Frame3dLimits::default()),
        Err(Frame3dError::Asset(_))
    ));
    drop(assets);
    assert_eq!(frame.draws()[0].mesh().positions, 24);
    assert_eq!(frame.draws()[0].mesh().first_z, 1.0);
}

#[test]
fn budgets_and_duplicate_orders_reject_without_partial_frames() {
    let mut assets = MeshAssets::with_collection(1);
    let mesh = assets.insert(floor(1.0)).unwrap();
    let size = bytes(&assets.get(mesh).unwrap());
    let limits = Frame3dLimits { max_draws: 2, max_geometry_bytes: size * 2 };
    assert_eq!(build(&assets, vec![draw(mesh, 0), draw(mesh, 1)], limits).unwrap().geometry_bytes(), size * 2);
    assert_eq!(
        build(&assets, vec![draw(mesh, 0), draw(mesh, 1), draw(mesh, 2)], limits).unwrap_err(),
        Frame3dError::TooManyDraws
    );
    assert_eq!(
        build(
            &assets,
            vec![draw(mesh, 0), draw(mesh, 1)],
            Frame3dLimits { max_geometry_bytes: size * 2 - 1, ..limits }
        )
        .unwrap_err(),
        Frame3dError::TooMuchGeometry
    );
    assert_eq!(
        build(&assets, vec![draw(mesh, 1), draw(mesh, 1)], limits).unwrap_err(),
        Frame3dError::DuplicateOrder(1)
    );
    assert_eq!(
        build(&assets, vec![], Frame3dLimits { max_draws: usize::MAX, ..limits }).unwrap_err(),
        Frame3dError::InvalidLimits
    );
    assert_eq!(
        build(&assets, vec![], Frame3dLimits { max_geometry_bytes: usize::MAX, ..limits }).unwrap_err(),
        Frame3dError::InvalidLimits
    );
    assert!(build(&assets, vec![], Frame3dLimits { max_draws: 0, max_geometry_bytes: 0 })
        .unwrap()
        .draws()
        .is_empty());
    let mut bad = draw(mesh, 3);
    bad.transform = f32::NAN;
    assert_eq!(build(&assets, vec![bad], limits).unwrap_err(), Frame3dError::Math(MathError::NonFinite));
}

#[test]
fn colors_and_default_limits() {
    assert_eq!(BaseColor::rgb(1, 2, 3), BaseColor { red: 1, green: 2, blue: 3 });
    assert_eq!(BaseColor::white(), BaseColor::rgb(255, 255, 255));
    assert_eq!(
        Frame3dLimits::default(),
        Frame3dLimits { max_draws: 65_536, max_geometry_bytes: 256 * 1024 * 1024 }
    );
}

#[test]
fn mesh_counts_are_checked_in_order() {
    assert_eq!(check_counts(0, 0, 3), Err(MeshError::Empty));
    assert_eq!(check_counts(3, 3, 0), Err(MeshError::Empty));
    assert_eq!(check_counts(3, 2, 3), Err(MeshError::AttributeLengths));
    assert_eq!(check_counts(3, 3, 4), Err(MeshError::IncompleteTriangle));
    assert_eq!(check_counts(1_000_001, 1_000_001, 3), Err(MeshError::LimitsExceeded));
    assert_eq!(check_counts(24, 24, 36), Ok(720));
}

#[test]
fn mesh_indices_must_name_a_position() {
    assert_eq!(check_indices(&[0, 1, 2], 3), Ok(()));
    assert_eq!(check_indices(&[0, 1, 3], 3), Err(MeshError::IndexOutOfRange));
    assert_eq!(check_indices(&[], 0), Ok(()));
}

#[test]
fn mesh_error_messages_name_the_variant() {
    assert_eq!(MeshError::DegenerateTriangle.message(), "invalid mesh: DegenerateTriangle");
    assert_eq!(MeshError::Empty.message(), "invalid mesh: Empty");
}
