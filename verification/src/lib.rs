//! A chunked voxel world core: block registry, world/chunk storage,
//! face-visibility culling, and a capacity-bounded sparse slot store
//! mirroring per-chunk voxel payloads for a draw dispatch.

pub mod culling;
pub mod storage;
pub mod types;
pub mod world;
