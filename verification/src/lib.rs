//! Verified core of a diesel-punk roguelike: map blocks and their generation,
//! map analysis for spawning, and the decision logic of the game's actors.
pub mod geom;
pub mod tile;
pub mod block;
pub mod wfc;
pub mod rng;
pub mod grid;
pub mod gen_blocks;
pub mod ability;
pub mod settings;
pub mod intent;
pub mod error;
pub mod components;
pub mod state;
pub mod sprite;
pub mod map;
pub mod spawn;
pub mod tank_ai_system;
pub mod enemy_ai_system;
pub mod ai;
pub mod population;
pub mod keys;
pub mod guards;
pub mod pathfinding;
pub mod rex;
pub mod step;
pub mod body;
pub mod viewshed;
pub mod animation;
pub mod firearm;
pub mod input;
