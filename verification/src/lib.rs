//! Core logic of a terminal raycasting maze game: the key-hold tracker, the
//! maze generator and its map queries, the character frame buffer and the
//! screens drawn into it.

pub mod keys;
pub mod map;
pub mod rng;
pub mod buffer;
pub mod text;
pub mod screens;
pub mod flush;
pub mod game;
pub mod view;
pub mod hud;
