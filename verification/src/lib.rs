//! The logic of a set of server simulations: the engine's bookkeeping, the protection
//! compositions it runs, and the readings the pictures are drawn from.
//!
//! Everything here is computed on plain values. Virtual time is counted in whole
//! [`engine::clock`] ticks, so windows, deadlines and shares are exact.

pub mod atoms;
pub mod autoscale;
pub mod blame;
pub mod cluster;
pub mod code_tabs;
pub mod compose;
pub mod engine;
pub mod fan;
pub mod fleet;
pub mod flow;
pub mod hotswap;
pub mod kept;
pub mod lb;
pub mod order;
pub mod pace;
pub mod text;
