pub mod bitset;
pub mod deep_sea;
pub mod deep_sea_vectorization;
pub mod dice;
pub mod error;
mod rng;
pub mod solver;
pub mod treasure;
pub mod vectorization;
