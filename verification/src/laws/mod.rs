//! What holds of the library as a whole.

pub mod answers;
pub mod format;
pub mod instructions;
pub mod locks;
pub mod messages;
pub mod programs;
pub mod store;
pub mod turns;
pub mod usage;
pub mod words;
