//! The verified core of a video-to-3D reconstruction kernel: COLMAP interchange parsing,
//! the provider-neutral evidence contract, the browser camera state, feature tracks and
//! registration candidates, revisit pair selection, dense and mesh bookkeeping, surface
//! support groups, the integer core of feature detection, deterministic sampling and
//! the browser transport of meshes.

pub mod text;
pub mod sorted;
pub mod colmap;
pub mod evidence;
pub mod camera_state;
pub mod tracks;
pub mod dense;
pub mod mesh;
pub mod revisit;
pub mod surface;
pub mod frames;
pub mod features;
pub mod sampling;
pub mod transport;
pub mod depth;
pub mod bundle;
