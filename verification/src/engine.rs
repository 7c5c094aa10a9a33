//! The simulation engine: one server's state, the clients' journeys through it, and the
//! reading taken of it each frame.

pub mod arrivals;
pub mod client;
pub mod clock;
pub mod cores;
pub mod course;
pub mod double;
pub mod frame;
pub mod handler;
pub mod journey;
pub mod ledger;
pub mod machine;
pub mod meters;
pub mod mix;
pub mod obs;
pub mod outcome;
pub mod played;
pub mod readers;
pub mod request;
pub mod rng;
pub mod sim;
pub mod spans;
pub mod stack;
pub mod stations;
pub mod tagged;

pub use clock::{Part, Ticks, MS};
pub use outcome::{Exit, Load, Outcome, Refusal, Reply, HOMEWARD};
