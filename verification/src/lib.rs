//! A fixed-capacity ring buffer whose write and read cursors wrap around a
//! fixed array of slots, together with the mathematical model its contracts
//! are stated over.

pub mod buffer;
pub mod cursor;
pub mod lemmas;
pub mod model;

pub use buffer::RingBuffer;
