//! Verified square-matrix multiplication: a coordinate generator, a
//! dot-product kernel over integer cells, and a sequential and a
//! thread-pool-parallel driver, with the grid storage supplied by `array2d`
//! and the parallel fan-out supplied by `rayon`.

pub mod coords;
pub mod drivers;
pub mod grid;
pub mod kernel;
