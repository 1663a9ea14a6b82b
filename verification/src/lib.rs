pub mod aggregation;
pub mod build_voxelizer;
pub mod collection;
pub mod element;
pub mod foreign;
pub mod glb_gen;
pub mod hmap2d;
pub mod hmap3d;
pub mod image_sampler;
pub mod las;
pub mod mesher;
pub mod params;
pub mod ply;
pub mod point_cloud;
pub mod tiler;
pub mod vec2;
pub mod vec3;
pub mod voxel;
pub mod voxel_mesh;
pub mod voxelizer;
