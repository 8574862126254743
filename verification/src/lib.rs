pub mod voxel_mask;
pub mod config;
pub mod scene;
pub mod gpu_sizes;
pub mod debug_view;
pub mod overlay;
pub mod frame;
