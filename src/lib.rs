//! A voxel-world engine core: integer unit types, a block catalog, chunks with a
//! per-layer opacity summary, face-culling meshers, seeded terrain synthesis and
//! the decisions of the chunk-streaming worker.

pub mod units;
pub mod block;
pub mod chunk;
pub mod mesh;
pub mod mesher;
pub mod terrain;
pub mod event;
pub mod worker;
