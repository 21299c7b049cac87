//! Monte Carlo estimate of the airplane seating puzzle: the first passenger
//! takes a random seat, every later passenger takes their own seat when it is
//! free and a random free seat otherwise; how often does the last passenger
//! end up in their own seat?

pub mod boarding;
pub mod error;
pub mod label;
pub mod planes;
pub mod random;
pub mod simulation;
