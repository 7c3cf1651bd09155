//! Agents driven by small feed-forward networks whose weights evolve by a
//! genetic algorithm: network shapes and their flat weight form, roulette
//! wheel selection, uniform crossover and generation statistics, the clock
//! and the eating rules of a world, and the layout of saved weights.

pub mod brain;
pub mod genetic;
pub mod network;
pub mod persistence;
pub mod random;
pub mod simulation;
