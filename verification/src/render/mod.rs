pub mod frame3d;
pub mod image;
pub mod mesh_assets;
pub mod software;
pub mod png;
