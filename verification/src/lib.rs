//! A ray caster: it draws a first-person view of a maze of square tiles by
//! casting one ray for each column of the screen and drawing the wall that
//! the ray hits as high as its distance makes it.
//!
//! All numbers are whole: lengths and coordinates count millionths of a tile
//! edge, light intensities millionths of full light, and an angle is held by
//! its cosine and its sine in millionths. Every operation says in its
//! contract how it rounds.

pub mod game;
pub mod renderer;
pub mod utils;
pub mod window;
