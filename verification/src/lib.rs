//! Coordination primitives for fan-in messaging and shared-counter mutation,
//! written as explicit state machines with machine-checked contracts, and a
//! few small helpers on text, numbers and coins.

pub mod attempt;
pub mod channel;
pub mod channel_state;
pub mod coins;
pub mod counter;
pub mod fan_in;
pub mod guess;
pub mod join_set;
pub mod ownership;
pub mod shared_mutation;
pub mod stats;
pub mod text;
pub mod worker;
