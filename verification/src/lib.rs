//! Initiative tracking for tabletop encounters: a sorted combatant list with a
//! rotating turn pointer, hit-point and legendary-action bookkeeping, a small
//! dice-expression parser, and save records for encounters and parties.

pub mod censor;
pub mod combatant;
pub mod dice;
pub mod display;
pub mod focus;
pub mod numbers;
pub mod records;
mod rng;
pub mod style;
pub mod tracker;
pub mod utils;
