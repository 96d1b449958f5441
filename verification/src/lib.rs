//! A first-person maze-chase engine: a raycasting renderer that projects a
//! rectangular tile grid into a pseudo-3D view with a per-pixel depth buffer,
//! billboard sprite compositing with occlusion, and a pursuit AI that plans
//! grid paths toward the player and follows them in continuous space.
//!
//! World coordinates, distances and timers are fixed-point integers
//! (see [`fixed`]); the grid is a sequence of rows of tile tags. Window,
//! input, audio and asset files live outside the engine, which only consumes
//! plain values: grids, textures, positions and precomputed ray directions.

pub mod caster;
pub mod fixed;
pub mod framebuffer;
pub mod game;
pub mod maze;
pub mod player;
pub mod render;
pub mod sprites;
pub mod taylor_ai;
pub mod taylor_sprite;
pub mod texture;
