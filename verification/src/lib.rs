//! Verified core of an underwater voxel sandbox: block rules, chunk storage,
//! greedy meshing, chunk streaming decisions, inventory and small game rules.

pub mod atlas;
pub mod blocks;
pub mod chunk;
pub mod chunk_map;
pub mod coords;
pub mod db;
pub mod edit;
pub mod headlights;
pub mod inventory;
pub mod mesher;
pub mod noise;
pub mod seq_facts;
pub mod world;
