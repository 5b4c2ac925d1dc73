pub mod cube;
pub mod input;
pub mod solver;
