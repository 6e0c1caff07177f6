//! Neuroevolution of card-playing policies.
//!
//! - `neural_network`: the genome, a fixed-topology network with fixed-point
//!   weights, its crossover and mutation, and the choice of an action from
//!   its output scores.
//! - `record`: the fixed-width byte record that a genome is saved as.
//! - `population`: organisms, the population, and the decisions of each
//!   generation (who meets whom, who breeds, what replaces whom).
//! - `tournament`: best-of-three matches and the final single-elimination
//!   bracket.
//! - `cards`: cards, seats and the actions of the game that the policies play.
//!
//! Games, threads and files are left to the caller: every function here is
//! a step between them.
pub mod cards;
pub mod neural_network;
pub mod population;
mod random;
pub mod record;
pub mod tournament;
