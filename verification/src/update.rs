//! Handling of the user's key presses and commands
pub mod update_core;
pub mod update_hmap_gen;
pub mod update_pathmoving_gen;
