//! Verified core of a small voxel sandbox: the sparse block grid, the
//! world file format, console command parsing and the player's input rules.

pub mod blocks;
pub mod commands;
pub mod decimal;
pub mod grid;
pub mod player;
pub mod text;
pub mod textures;
pub mod world_file;
