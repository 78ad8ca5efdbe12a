//! What holds of the operations of the library: for each, what its result has to satisfy whatever it
//! is given, and how one operation bears on another.

pub mod control;
pub mod execution;
pub mod pipeline;
pub mod grants;
pub mod setup;
pub mod reach;
pub mod admission;
pub mod contents;
pub mod lifecycle;
pub mod shapes;
