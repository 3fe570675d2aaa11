//! Conway's Game of Life on a fixed grid whose outermost rows and columns
//! stay dead, seeded from a linear-congruential generator.

pub mod clock;
pub mod grid;
pub mod life;
pub mod render;
pub mod rng;

pub use clock::{current_time_seed, seed_from_nanos};
pub use life::{GameOfLife, LifeError, FPS_LIMIT, FRAME_MILLIS, HEIGHT, WIDTH};
pub use rng::lcg;
