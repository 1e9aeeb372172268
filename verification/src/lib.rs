//! A software renderer for a grid-based maze: a ray intersector over the
//! grid, a perspective wall pass, billboard sprites for the mobile ghosts,
//! a scaled minimap inset, and a pixel surface that all passes draw onto.
//!
//! Continuous world quantities (positions, angles, trigonometric values)
//! are held in fixed-point integers so that every pass is plain integer
//! arithmetic; `trig` defines the scale and the angle units.

pub mod bmp;
pub mod color;
pub mod controller;
pub mod enemy;
pub mod fps;
pub mod framebuffer;
pub mod game;
pub mod ghostmanager;
pub mod maze;
pub mod minimap;
pub mod player;
pub mod raycaster;
pub mod render;
pub mod texture;
pub mod trig;
