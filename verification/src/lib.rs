//! Mathematical patterns of nature, with a verified reaction-diffusion core.
//!
//! The core is a Gray-Scott style simulator on a toroidal grid:
//!
//! - [`rng`]: a seedable xorshift generator for reproducible seeding;
//! - [`torus`]: wrap-around coordinates and row-major slots;
//! - [`grid`]: cells, the grid and its toroidal addressing;
//! - [`seeding`]: building a grid with its central seed and random blots;
//! - [`integrator`]: the double-buffered time step and runs of steps, for
//!   any update rule on the five-point stencil;
//! - [`preset`]: the named parameter sets.
//!
//! The grid is generic in the scalar that measures a concentration; the
//! arithmetic of the update rule belongs to the caller.
//!
//! Around the core: [`fibonacci`] and [`constants`] for the Fibonacci
//! sequence, [`phyllotaxis`] for spiral counts, [`lsystems`] for string
//! rewriting and [`render`] for image markup.

pub mod constants;
pub mod fibonacci;
pub mod grid;
pub mod integrator;
pub mod lsystems;
pub mod phyllotaxis;
pub mod preset;
pub mod render;
pub mod rng;
pub mod seeding;
pub mod torus;
