//! The simulation core of a colony game: tile maps and their encoding,
//! entity components, inventories, behavior trees, task queues and needs.
pub mod encoders;
pub mod event;
pub mod liquid;
pub mod map;
pub mod pathfinding;
pub mod region;
pub mod math;
pub mod bt;
pub mod components;
pub mod data;
pub mod defs;
pub mod gc;
pub mod heightmap;
pub mod input;
pub mod inventory;
pub mod small;
pub mod spatial;
pub mod task;
pub mod task_queue;
pub mod task_cache;
pub mod tile;
pub mod util;
